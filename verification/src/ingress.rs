//! Socket ingress discipline, shared by the dispatcher's and the store's
//! listeners: one frame per line, blank lines ignored, malformed lines
//! logged and skipped without closing the connection; only end of stream
//! or a transport error closes it.

use vstd::prelude::*;
use vstd::string::*;

use crate::codec::{
    decode_payment, decode_store_command, spec_json_command, spec_json_payment, spec_json_purge,
    spec_json_read, spec_json_write,
};
use crate::store::{Store, StoreError, SummaryData};
use crate::text::{is_number_token, is_plain, is_uuid_token, matches_at};
use crate::types::{DBRead, DBWrite, PaymentDTO, SledTree, StoreCommand};

verus! {

/// An ASCII whitespace character, as blank lines on the sockets carry.
pub open spec fn space_char(c: char) -> bool {
    c == ' ' || c == '\t' || c == '\r' || c == '\n'
}

/// A line of nothing but whitespace — ignored by every receiver.
pub open spec fn is_blank(s: Seq<char>) -> bool {
    forall|i: int| 0 <= i < s.len() ==> space_char(#[trigger] s[i])
}

/// Checks whether a line is blank.
pub fn is_blank_line(s: &str) -> (r: bool)
    ensures
        r == is_blank(s@),
{
    let n = s.unicode_len();
    let mut i: usize = 0;
    while i < n
        invariant
            0 <= i <= n,
            n == s@.len(),
            forall|k: int| 0 <= k < i ==> space_char(#[trigger] s@[k]),
        decreases n - i,
    {
        let c = s.get_char(i);
        if !(c == ' ' || c == '\t' || c == '\r' || c == '\n') {
            return false;
        }
        i = i + 1;
    }
    true
}

/// A frame never looks blank: it opens with a brace.
proof fn lemma_frame_not_blank(s: Seq<char>, first: char)
    requires
        s.len() > 0,
        s[0] == first,
        !space_char(first),
    ensures
        !is_blank(s),
{
}

/// What one line on the payment ingress amounts to.
#[derive(Debug, Clone)]
pub enum PaymentLine {
    /// Blank: a no-op.
    Ignore,
    /// Malformed: logged and skipped; the connection stays open.
    Reject,
    /// A well-formed payment to enqueue.
    Accept(PaymentDTO),
}

/// Classifies one line from the payment ingress. Blank lines are
/// ignored; exactly the canonical payment frames are accepted; anything
/// else is rejected without closing the connection.
pub fn classify_payment_line(line: &str) -> (r: PaymentLine)
    ensures
        r is Ignore <==> is_blank(line@),
        r matches PaymentLine::Accept(p) ==> p.wf() && line@ == spec_json_payment(
            p.correlation_id@,
            p.amount@,
        ),
        forall|c: Seq<char>, a: Seq<char>|
            is_uuid_token(c) && is_number_token(a) && line@ == spec_json_payment(c, a)
                ==> r is Accept,
{
    if is_blank_line(line) {
        proof {
            assert forall|c: Seq<char>, a: Seq<char>|
                !(is_uuid_token(c) && is_number_token(a) && line@ == spec_json_payment(c, a)) by {
                if is_uuid_token(c) && is_number_token(a) && line@ == spec_json_payment(c, a) {
                    reveal_strlit("{\"correlationId\":\"");
                    let l1 = "{\"correlationId\":\""@;
                    assert(line@.len() >= l1.len());
                    assert(line@.subrange(0, l1.len() as int)[0] == line@[0]);
                    assert(line@[0] == '{');
                    lemma_frame_not_blank(line@, '{');
                }
            }
        }
        return PaymentLine::Ignore;
    }
    match decode_payment(line) {
        Some(p) => PaymentLine::Accept(p),
        None => PaymentLine::Reject,
    }
}

/// What one line on the store ingress amounts to.
#[derive(Debug, Clone)]
pub enum StoreLine {
    /// Blank: a no-op.
    Ignore,
    /// Malformed: logged and skipped; the connection stays open.
    Reject,
    /// A well-formed command to run.
    Run(StoreCommand),
}

/// Classifies one line from the store ingress, the same way.
pub fn classify_store_line(line: &str) -> (r: StoreLine)
    ensures
        r is Ignore <==> is_blank(line@),
        r matches StoreLine::Run(cmd) ==> cmd.wf() && line@ == spec_json_command(cmd),
        forall|k: Seq<char>, v: Seq<char>, t: SledTree|
            is_plain(k) && is_number_token(v) && line@ == spec_json_write(k, v, t) ==> r is Run,
        forall|f: Seq<char>, t: Seq<char>|
            is_plain(f) && is_plain(t) && line@ == spec_json_read(f, t) ==> r is Run,
        line@ == spec_json_purge() ==> r is Run,
{
    if is_blank_line(line) {
        proof {
            reveal_strlit("{\"Write\":{\"key\":\"");
            reveal_strlit("{\"Read\":{\"from\":\"");
            reveal_strlit("{\"Purge\":null}");
            assert forall|k: Seq<char>, v: Seq<char>, t: SledTree|
                !(is_plain(k) && is_number_token(v) && line@ == spec_json_write(k, v, t)) by {
                if is_plain(k) && is_number_token(v) && line@ == spec_json_write(k, v, t) {
                    let l1 = "{\"Write\":{\"key\":\""@;
                    assert(line@ == l1 + k + ("\",\"value\":"@ + v + ",\"tree\":\""@
                        + crate::codec::spec_tree_name(t) + "\"}}"@));
                    assert(line@[0] == l1[0]);
                    lemma_frame_not_blank(line@, '{');
                }
            }
            assert forall|f: Seq<char>, t: Seq<char>|
                !(is_plain(f) && is_plain(t) && line@ == spec_json_read(f, t)) by {
                if is_plain(f) && is_plain(t) && line@ == spec_json_read(f, t) {
                    let l1 = "{\"Read\":{\"from\":\""@;
                    assert(line@ == l1 + f + ("\",\"to\":\""@ + t + "\"}}"@));
                    assert(line@[0] == l1[0]);
                    lemma_frame_not_blank(line@, '{');
                }
            }
            if line@ == spec_json_purge() {
                assert(line@[0] == '{');
                lemma_frame_not_blank(line@, '{');
            }
        }
        return StoreLine::Ignore;
    }
    match decode_store_command(line) {
        Some(cmd) => StoreLine::Run(cmd),
        None => StoreLine::Reject,
    }
}

/// The life of one accepted connection.
#[derive(Debug, Clone, Copy, PartialEq, Eq, Structural)]
pub enum ConnState {
    Open,
    Closed,
}

/// What the transport hands the receiver next.
#[derive(Debug, Clone, Copy, PartialEq, Eq, Structural)]
pub enum ConnEvent {
    /// A line arrived — blank, malformed or well-formed alike.
    LineArrived,
    /// The peer closed the stream.
    EndOfStream,
    /// The transport failed.
    TransportError,
}

/// The connection machine, at the specification level.
pub open spec fn spec_conn_step(st: ConnState, ev: ConnEvent) -> ConnState {
    match (st, ev) {
        (ConnState::Open, ConnEvent::LineArrived) => ConnState::Open,
        _ => ConnState::Closed,
    }
}

/// One step of the connection machine: a line — whatever it holds —
/// leaves the connection open; only end of stream or a transport error
/// closes it.
pub fn conn_step(st: ConnState, ev: ConnEvent) -> (r: ConnState)
    ensures
        r == spec_conn_step(st, ev),
        st == ConnState::Open && ev == ConnEvent::LineArrived ==> r == ConnState::Open,
        ev == ConnEvent::EndOfStream || ev == ConnEvent::TransportError ==> r == ConnState::Closed,
        st == ConnState::Closed ==> r == ConnState::Closed,
{
    match (st, ev) {
        (ConnState::Open, ConnEvent::LineArrived) => ConnState::Open,
        _ => ConnState::Closed,
    }
}

/// A malformed or blank line is a no-op for the protocol: it keeps the
/// connection open and the very next well-formed frame classifies the
/// same as it would on a fresh connection — classification looks at one
/// line alone.
pub proof fn lemma_bad_line_keeps_going(st: ConnState)
    requires
        st == ConnState::Open,
    ensures
        spec_conn_step(st, ConnEvent::LineArrived) == ConnState::Open,
        spec_conn_step(spec_conn_step(st, ConnEvent::LineArrived), ConnEvent::LineArrived)
            == ConnState::Open,
{
}

} // verus!

verus! {

/// What one ingress line did to the store.
pub enum StoreStep {
    /// A blank line: nothing happened.
    NoOp,
    /// A malformed line: logged and skipped, nothing happened.
    Skipped,
    /// A well-formed write; the store takes it once the caller has
    /// turned the amount text into its 64-bit pattern.
    WriteNeedsAmount(DBWrite),
    /// A range read was served; the reply line is owed to the peer.
    DidRead(DBRead, (SummaryData, SummaryData)),
    /// Both partitions were dropped.
    DidPurge,
    /// The engine failed on a read or purge.
    Failed(StoreError),
}

/// One turn of the store's command loop: reads one line, runs what it
/// can, and leaves the store untouched on anything but a well-formed
/// purge — blank and malformed lines in particular change nothing and
/// never close the loop.
pub fn store_step(store: &mut Store, line: &str) -> (r: StoreStep)
    ensures
        r is NoOp <==> is_blank(line@),
        (r is NoOp || r is Skipped || (r matches StoreStep::WriteNeedsAmount(_)) || (r matches StoreStep::DidRead(_, _)))
            ==> final(store).default_entries() == old(store).default_entries()
            && final(store).fallback_entries() == old(store).fallback_entries(),
        r matches StoreStep::WriteNeedsAmount(w) ==> w.wf() && line@ == spec_json_write(
            w.key@,
            w.value@,
            w.tree,
        ),
        r matches StoreStep::DidRead(rd, p) ==> {
            &&& rd.wf()
            &&& line@ == spec_json_read(rd.from@, rd.to@)
            &&& crate::store::summary_matches(
                old(store).default_entries(),
                vstd::utf8::encode_utf8(rd.from@),
                vstd::utf8::encode_utf8(rd.to@),
                p.0,
            )
            &&& crate::store::summary_matches(
                old(store).fallback_entries(),
                vstd::utf8::encode_utf8(rd.from@),
                vstd::utf8::encode_utf8(rd.to@),
                p.1,
            )
        },
        r is DidPurge ==> final(store).default_entries() == crate::store::empty_entries()
            && final(store).fallback_entries() == crate::store::empty_entries(),
        r is DidPurge ==> line@ == spec_json_purge(),
        r matches StoreStep::Failed(_) ==> line@ == spec_json_purge() || (exists|
            f: Seq<char>,
            t: Seq<char>,
        |
            is_plain(f) && is_plain(t) && line@ == #[trigger] spec_json_read(f, t)),
        (r matches StoreStep::Failed(_)) && line@ != spec_json_purge()
            ==> final(store).default_entries() == old(store).default_entries()
            && final(store).fallback_entries() == old(store).fallback_entries(),
        forall|k: Seq<char>, v: Seq<char>, t: SledTree|
            is_plain(k) && is_number_token(v) && line@ == spec_json_write(k, v, t)
                ==> r matches StoreStep::WriteNeedsAmount(_),
        forall|f: Seq<char>, t: Seq<char>|
            is_plain(f) && is_plain(t) && line@ == spec_json_read(f, t) ==> (r matches StoreStep::DidRead(
                _,
                _,
            ) || r matches StoreStep::Failed(_)),
        line@ == spec_json_purge() ==> (r is DidPurge || r matches StoreStep::Failed(_)),
{
    match classify_store_line(line) {
        StoreLine::Ignore => StoreStep::NoOp,
        StoreLine::Reject => StoreStep::Skipped,
        StoreLine::Run(StoreCommand::Write(w)) => {
            proof {
                assert forall|f: Seq<char>, t: Seq<char>|
                    !(is_plain(f) && is_plain(t) && line@ == spec_json_read(f, t)) by {
                    if is_plain(f) && is_plain(t) && line@ == spec_json_read(f, t) {
                        crate::codec::lemma_command_frames_distinct(w.key@, w.value@, w.tree, f, t);
                    }
                }
                if line@ == spec_json_purge() {
                    crate::codec::lemma_command_frames_distinct(
                        w.key@,
                        w.value@,
                        w.tree,
                        Seq::empty(),
                        Seq::empty(),
                    );
                }
            }
            StoreStep::WriteNeedsAmount(w)
        },
        StoreLine::Run(StoreCommand::Read(rd)) => {
            proof {
                assert forall|k: Seq<char>, v: Seq<char>, t: SledTree|
                    !(is_plain(k) && is_number_token(v) && line@ == spec_json_write(k, v, t)) by {
                    if is_plain(k) && is_number_token(v) && line@ == spec_json_write(k, v, t) {
                        crate::codec::lemma_command_frames_distinct(k, v, t, rd.from@, rd.to@);
                    }
                }
                if line@ == spec_json_purge() {
                    crate::text::lemma_zero_amount_token();
                    crate::codec::lemma_command_frames_distinct(
                        Seq::empty(),
                        "0.0"@,
                        SledTree::Default,
                        rd.from@,
                        rd.to@,
                    );
                }
            }
            match store.read_summary(rd.from.as_str(), rd.to.as_str()) {
                Ok(p) => StoreStep::DidRead(rd, p),
                Err(e) => StoreStep::Failed(e),
            }
        },
        StoreLine::Run(StoreCommand::Purge) => {
            proof {
                crate::text::lemma_zero_amount_token();
                assert forall|k: Seq<char>, v: Seq<char>, t: SledTree|
                    !(is_plain(k) && is_number_token(v) && line@ == spec_json_write(k, v, t)) by {
                    if is_plain(k) && is_number_token(v) && line@ == spec_json_write(k, v, t) {
                        crate::codec::lemma_command_frames_distinct(k, v, t, Seq::empty(), Seq::empty());
                    }
                }
                assert forall|f: Seq<char>, t: Seq<char>|
                    !(is_plain(f) && is_plain(t) && line@ == spec_json_read(f, t)) by {
                    if is_plain(f) && is_plain(t) && line@ == spec_json_read(f, t) {
                        crate::codec::lemma_command_frames_distinct(
                            Seq::empty(),
                            "0.0"@,
                            SledTree::Default,
                            f,
                            t,
                        );
                    }
                }
            }
            match store.purge() {
                Ok(()) => StoreStep::DidPurge,
                Err(e) => StoreStep::Failed(e),
            }
        },
    }
}

} // verus!
