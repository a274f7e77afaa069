//! The line protocol's JSON frames: one encoder and one decoder per
//! message, with exact contracts.
//!
//! Each decoder is sound — a successful parse means the input is exactly
//! the canonical encoding of the returned value — and complete — every
//! canonical encoding of a well-formed value parses. Together with the
//! uniqueness lemmas this gives the round-trip laws.

use vstd::prelude::*;
use vstd::string::*;

use crate::text::{
    is_number_str, is_number_token, is_plain, is_uuid_str, is_uuid_token,
    lemma_number_token_plain, lemma_uuid_token_plain, match_at, matches_at, number_char_p,
    plain_char, scan_number, scan_plain, spec_u64_digits, u64_to_string,
};
use crate::types::{DBRead, DBWrite, GlobalSummary, PaymentDTO, PaymentServiceDTO, SledTree, StoreCommand, Summary};

verus! {

/// The frame for a payment request.
pub open spec fn spec_json_payment(cid: Seq<char>, amt: Seq<char>) -> Seq<char> {
    "{\"correlationId\":\""@ + cid + "\",\"amount\":"@ + amt + "}"@
}

/// Basic consequences of `s == a + b + c`.
pub proof fn lemma_concat_parts(s: Seq<char>, a: Seq<char>, b: Seq<char>, c: Seq<char>)
    requires
        s == a + b + c,
    ensures
        s.len() == a.len() + b.len() + c.len(),
        matches_at(s, 0, a),
        matches_at(s, a.len() as int, b),
        c.len() > 0 ==> s[a.len() as int + b.len() as int] == c[0],
        forall|k: int| 0 <= k < b.len() ==> s[a.len() as int + k] == b[k],
{
    assert(s.subrange(0, a.len() as int) =~= a);
    assert(s.subrange(a.len() as int, a.len() as int + b.len() as int) =~= b);
    assert forall|k: int| 0 <= k < b.len() implies s[a.len() as int + k] == b[k] by {
        assert(s.subrange(a.len() as int, a.len() as int + b.len() as int)[k] == s[a.len() as int + k]);
    }
}

/// Two plain runs that start at the same position and stop at a non-plain
/// character are the same run.
pub proof fn lemma_plain_run_unique(s: Seq<char>, i: int, c1: Seq<char>, c2: Seq<char>)
    requires
        0 <= i,
        is_plain(c1),
        is_plain(c2),
        matches_at(s, i, c1),
        matches_at(s, i, c2),
        i + c1.len() < s.len(),
        !plain_char(s[i + c1.len() as int]),
        i + c2.len() < s.len(),
        !plain_char(s[i + c2.len() as int]),
    ensures
        c1 == c2,
{
    assert forall|k: int| 0 <= k < c1.len() implies s[i + k] == c1[k] by {
        assert(s.subrange(i, i + c1.len() as int)[k] == s[i + k]);
    }
    assert forall|k: int| 0 <= k < c2.len() implies s[i + k] == c2[k] by {
        assert(s.subrange(i, i + c2.len() as int)[k] == s[i + k]);
    }
    if c1.len() < c2.len() {
        assert(s[i + c1.len() as int] == c2[c1.len() as int]);
        assert(false);
    }
    if c2.len() < c1.len() {
        assert(s[i + c2.len() as int] == c1[c2.len() as int]);
        assert(false);
    }
    assert(c1 =~= c2);
}

/// The same, for runs drawn from the number alphabet.
pub proof fn lemma_number_run_unique(s: Seq<char>, i: int, c1: Seq<char>, c2: Seq<char>)
    requires
        0 <= i,
        forall|k: int| 0 <= k < c1.len() ==> number_char_p(#[trigger] c1[k]),
        forall|k: int| 0 <= k < c2.len() ==> number_char_p(#[trigger] c2[k]),
        matches_at(s, i, c1),
        matches_at(s, i, c2),
        i + c1.len() < s.len(),
        !number_char_p(s[i + c1.len() as int]),
        i + c2.len() < s.len(),
        !number_char_p(s[i + c2.len() as int]),
    ensures
        c1 == c2,
{
    assert forall|k: int| 0 <= k < c1.len() implies s[i + k] == c1[k] by {
        assert(s.subrange(i, i + c1.len() as int)[k] == s[i + k]);
    }
    assert forall|k: int| 0 <= k < c2.len() implies s[i + k] == c2[k] by {
        assert(s.subrange(i, i + c2.len() as int)[k] == s[i + k]);
    }
    if c1.len() < c2.len() {
        assert(s[i + c1.len() as int] == c2[c1.len() as int]);
        assert(false);
    }
    if c2.len() < c1.len() {
        assert(s[i + c2.len() as int] == c1[c2.len() as int]);
        assert(false);
    }
    assert(c1 =~= c2);
}

/// What the payment frame of a well-formed payment looks like, position by
/// position.
proof fn lemma_payment_shape(s: Seq<char>, c: Seq<char>, a: Seq<char>)
    requires
        is_plain(c),
        is_number_token(a),
        s == spec_json_payment(c, a),
    ensures
        s.len() == 30 + c.len() + a.len(),
        matches_at(s, 0, "{\"correlationId\":\""@),
        forall|k: int| 18 <= k < 18 + c.len() ==> plain_char(#[trigger] s[k]),
        s[18 + c.len() as int] == '"',
        matches_at(s, 18 + c.len() as int, "\",\"amount\":"@),
        c == s.subrange(18, 18 + c.len() as int),
        forall|k: int|
            29 + c.len() <= k < 29 + c.len() + a.len() ==> number_char_p(#[trigger] s[k]),
        s[29 + c.len() as int + a.len() as int] == '}',
        a == s.subrange(29 + c.len() as int, 29 + c.len() as int + a.len() as int),
        matches_at(s, 29 + c.len() as int + a.len() as int, "}"@),
{
    reveal_strlit("{\"correlationId\":\"");
    reveal_strlit("\",\"amount\":");
    reveal_strlit("}");
    let l1 = "{\"correlationId\":\""@;
    let l2 = "\",\"amount\":"@;
    let l3 = "}"@;
    assert(l1.len() == 18);
    assert(l2.len() == 11);
    assert(l3.len() == 1);
    lemma_number_token_plain(a);
    assert(s =~= l1 + c + (l2 + a + l3));
    lemma_concat_parts(s, l1, c, l2 + a + l3);
    assert((l2 + a + l3)[0] == l2[0]);
    assert(s =~= (l1 + c + l2) + a + l3);
    lemma_concat_parts(s, l1 + c + l2, a, l3);
    assert(s =~= (l1 + c) + l2 + (a + l3));
    lemma_concat_parts(s, l1 + c, l2, a + l3);
    let cl = c.len() as int;
    let al = a.len() as int;
    assert(c =~= s.subrange(18, 18 + cl));
    assert(a =~= s.subrange(29 + cl, 29 + cl + al));
    assert forall|k: int| 18 <= k < 18 + c.len() implies plain_char(#[trigger] s[k]) by {
        assert(s[18 + (k - 18)] == c[k - 18]);
    }
    assert forall|k: int|
        29 + c.len() <= k < 29 + c.len() + a.len() implies number_char_p(#[trigger] s[k]) by {
        assert(s[(29 + cl) + (k - 29 - cl)] == a[k - 29 - cl]);
    }
    assert(s[18 + cl] == l2[0]);
    assert(s[(29 + cl) + al] == l3[0]);
    assert(s =~= (l1 + c + l2 + a) + l3 + Seq::<char>::empty());
    lemma_concat_parts(s, l1 + c + l2 + a, l3, Seq::<char>::empty());
}

/// Writes the payment frame.
pub fn encode_payment(p: &PaymentDTO) -> (r: String)
    ensures
        r@ == spec_json_payment(p.correlation_id@, p.amount@),
{
    let mut s = String::new();
    s.append("{\"correlationId\":\"");
    s.append(p.correlation_id.as_str());
    s.append("\",\"amount\":");
    s.append(p.amount.as_str());
    s.append("}");
    proof {
        assert(s@ =~= spec_json_payment(p.correlation_id@, p.amount@));
    }
    s
}

/// Reads a payment frame. Accepts exactly the canonical encodings of
/// well-formed payments.
pub fn decode_payment(s: &str) -> (r: Option<PaymentDTO>)
    ensures
        r matches Some(p) ==> p.wf() && s@ == spec_json_payment(p.correlation_id@, p.amount@),
        forall|c: Seq<char>, a: Seq<char>|
            is_uuid_token(c) && is_number_token(a) && s@ == spec_json_payment(c, a) ==> r is Some,
{
    let n = s.unicode_len();
    let lit1 = "{\"correlationId\":\"";
    let lit2 = "\",\"amount\":";
    let lit3 = "}";
    proof {
        reveal_strlit("{\"correlationId\":\"");
        reveal_strlit("\",\"amount\":");
        reveal_strlit("}");
    }
    let n1 = lit1.unicode_len();
    let n2 = lit2.unicode_len();
    if !match_at(s, 0, lit1) {
        proof {
            assert forall|c: Seq<char>, a: Seq<char>|
                !(is_uuid_token(c) && is_number_token(a) && s@ == spec_json_payment(c, a)) by {
                if is_uuid_token(c) && is_number_token(a) && s@ == spec_json_payment(c, a) {
                    lemma_uuid_token_plain(c);
                    lemma_payment_shape(s@, c, a);
                }
            }
        }
        return None;
    }
    let j1 = scan_plain(s, n1);
    if !match_at(s, j1, lit2) {
        proof {
            assert forall|c: Seq<char>, a: Seq<char>|
                !(is_uuid_token(c) && is_number_token(a) && s@ == spec_json_payment(c, a)) by {
                if is_uuid_token(c) && is_number_token(a) && s@ == spec_json_payment(c, a) {
                    lemma_uuid_token_plain(c);
                    lemma_payment_shape(s@, c, a);
                    assert(j1 == 18 + c.len());
                }
            }
        }
        return None;
    }
    let i2 = j1 + n2;
    let j2 = scan_number(s, i2);
    let tail_ok = match_at(s, j2, lit3) && j2 + 1 == n;
    if !tail_ok {
        proof {
            assert forall|c: Seq<char>, a: Seq<char>|
                !(is_uuid_token(c) && is_number_token(a) && s@ == spec_json_payment(c, a)) by {
                if is_uuid_token(c) && is_number_token(a) && s@ == spec_json_payment(c, a) {
                    lemma_uuid_token_plain(c);
                    lemma_payment_shape(s@, c, a);
                    assert(j1 == 18 + c.len());
                    lemma_number_token_plain(a);
                    assert(j2 == 29 + c.len() + a.len());
                    assert(matches_at(s@, j2 as int, "}"@));
                }
            }
        }
        return None;
    }
    let cid = String::from_str(s.substring_char(n1, j1));
    let amt = String::from_str(s.substring_char(i2, j2));
    let cid_ok = is_uuid_str(cid.as_str());
    let amt_ok = is_number_str(amt.as_str());
    if !(cid_ok && amt_ok) {
        proof {
            assert forall|c: Seq<char>, a: Seq<char>|
                !(is_uuid_token(c) && is_number_token(a) && s@ == spec_json_payment(c, a)) by {
                if is_uuid_token(c) && is_number_token(a) && s@ == spec_json_payment(c, a) {
                    lemma_uuid_token_plain(c);
                    lemma_payment_shape(s@, c, a);
                    assert(j1 == 18 + c.len());
                    lemma_number_token_plain(a);
                    assert(j2 == 29 + c.len() + a.len());
                    assert(cid@ == c);
                    assert(amt@ == a);
                }
            }
        }
        return None;
    }
    proof {
        let l1 = "{\"correlationId\":\""@;
        let l2 = "\",\"amount\":"@;
        let l3 = "}"@;
        assert(s@ =~= l1 + cid@ + l2 + amt@ + l3);
    }
    Some(PaymentDTO { correlation_id: cid, amount: amt })
}

} // verus!

verus! {

/// The frame for a provider submission: the payment plus `requestedAt`.
pub open spec fn spec_json_submission(cid: Seq<char>, amt: Seq<char>, ts: Seq<char>) -> Seq<char> {
    "{\"correlationId\":\""@ + cid + "\",\"amount\":"@ + amt + ",\"requestedAt\":\""@ + ts + "\"}"@
}

/// What the submission frame of a well-formed submission looks like,
/// position by position.
proof fn lemma_submission_shape(s: Seq<char>, c: Seq<char>, a: Seq<char>, t: Seq<char>)
    requires
        is_plain(c),
        is_number_token(a),
        is_plain(t),
        s == spec_json_submission(c, a, t),
    ensures
        s.len() == 47 + c.len() + a.len() + t.len(),
        matches_at(s, 0, "{\"correlationId\":\""@),
        forall|k: int| 18 <= k < 18 + c.len() ==> plain_char(#[trigger] s[k]),
        s[18 + c.len() as int] == '"',
        matches_at(s, 18 + c.len() as int, "\",\"amount\":"@),
        c == s.subrange(18, 18 + c.len() as int),
        forall|k: int|
            29 + c.len() <= k < 29 + c.len() + a.len() ==> number_char_p(#[trigger] s[k]),
        s[29 + c.len() as int + a.len() as int] == ',',
        matches_at(s, 29 + c.len() as int + a.len() as int, ",\"requestedAt\":\""@),
        a == s.subrange(29 + c.len() as int, 29 + c.len() as int + a.len() as int),
        forall|k: int|
            45 + c.len() + a.len() <= k < 45 + c.len() + a.len() + t.len() ==> plain_char(
                #[trigger] s[k],
            ),
        s[45 + c.len() as int + a.len() as int + t.len() as int] == '"',
        matches_at(s, 45 + c.len() as int + a.len() as int + t.len() as int, "\"}"@),
        t == s.subrange(
            45 + c.len() as int + a.len() as int,
            45 + c.len() as int + a.len() as int + t.len() as int,
        ),
{
    reveal_strlit("{\"correlationId\":\"");
    reveal_strlit("\",\"amount\":");
    reveal_strlit(",\"requestedAt\":\"");
    reveal_strlit("\"}");
    let l1 = "{\"correlationId\":\""@;
    let l2 = "\",\"amount\":"@;
    let l3 = ",\"requestedAt\":\""@;
    let l4 = "\"}"@;
    assert(l1.len() == 18);
    assert(l2.len() == 11);
    assert(l3.len() == 16);
    assert(l4.len() == 2);
    let cl = c.len() as int;
    let al = a.len() as int;
    let tl = t.len() as int;
    lemma_number_token_plain(a);
    assert(s =~= l1 + c + (l2 + a + l3 + t + l4));
    lemma_concat_parts(s, l1, c, l2 + a + l3 + t + l4);
    assert((l2 + a + l3 + t + l4)[0] == l2[0]);
    assert(s =~= (l1 + c) + l2 + (a + l3 + t + l4));
    lemma_concat_parts(s, l1 + c, l2, a + l3 + t + l4);
    assert(s =~= (l1 + c + l2) + a + (l3 + t + l4));
    lemma_concat_parts(s, l1 + c + l2, a, l3 + t + l4);
    assert((l3 + t + l4)[0] == l3[0]);
    assert(s =~= (l1 + c + l2 + a) + l3 + (t + l4));
    lemma_concat_parts(s, l1 + c + l2 + a, l3, t + l4);
    assert(s =~= (l1 + c + l2 + a + l3) + t + l4);
    lemma_concat_parts(s, l1 + c + l2 + a + l3, t, l4);
    assert(s =~= (l1 + c + l2 + a + l3 + t) + l4 + Seq::<char>::empty());
    lemma_concat_parts(s, l1 + c + l2 + a + l3 + t, l4, Seq::<char>::empty());
    assert(c =~= s.subrange(18, 18 + cl));
    assert(a =~= s.subrange(29 + cl, 29 + cl + al));
    assert(t =~= s.subrange(45 + cl + al, 45 + cl + al + tl));
    assert forall|k: int| 18 <= k < 18 + c.len() implies plain_char(#[trigger] s[k]) by {
        assert(s[18 + (k - 18)] == c[k - 18]);
    }
    assert forall|k: int|
        29 + c.len() <= k < 29 + c.len() + a.len() implies number_char_p(#[trigger] s[k]) by {
        assert(s[(29 + cl) + (k - 29 - cl)] == a[k - 29 - cl]);
    }
    assert forall|k: int|
        45 + c.len() + a.len() <= k < 45 + c.len() + a.len() + t.len() implies plain_char(
            #[trigger] s[k],
        ) by {
        assert(s[(45 + cl + al) + (k - 45 - cl - al)] == t[k - 45 - cl - al]);
    }
    assert(s[18 + cl] == l2[0]);
    assert(s[(29 + cl) + al] == l3[0]);
    assert(s[(45 + cl + al) + tl] == l4[0]);
}

/// Writes the submission frame.
pub fn encode_submission(p: &PaymentServiceDTO) -> (r: String)
    ensures
        r@ == spec_json_submission(p.correlation_id@, p.amount@, p.requested_at@),
{
    let mut s = String::new();
    s.append("{\"correlationId\":\"");
    s.append(p.correlation_id.as_str());
    s.append("\",\"amount\":");
    s.append(p.amount.as_str());
    s.append(",\"requestedAt\":\"");
    s.append(p.requested_at.as_str());
    s.append("\"}");
    proof {
        assert(s@ =~= spec_json_submission(p.correlation_id@, p.amount@, p.requested_at@));
    }
    s
}

/// Reads a submission frame. Accepts exactly the canonical encodings of
/// well-formed submissions.
pub fn decode_submission(s: &str) -> (r: Option<PaymentServiceDTO>)
    ensures
        r matches Some(p) ==> p.wf() && s@ == spec_json_submission(
            p.correlation_id@,
            p.amount@,
            p.requested_at@,
        ),
        forall|c: Seq<char>, a: Seq<char>, t: Seq<char>|
            is_uuid_token(c) && is_number_token(a) && is_plain(t) && s@ == spec_json_submission(
                c,
                a,
                t,
            ) ==> r is Some,
{
    let n = s.unicode_len();
    let lit1 = "{\"correlationId\":\"";
    let lit2 = "\",\"amount\":";
    let lit3 = ",\"requestedAt\":\"";
    let lit4 = "\"}";
    proof {
        reveal_strlit("{\"correlationId\":\"");
        reveal_strlit("\",\"amount\":");
        reveal_strlit(",\"requestedAt\":\"");
        reveal_strlit("\"}");
    }
    let n1 = lit1.unicode_len();
    let n2 = lit2.unicode_len();
    let n3 = lit3.unicode_len();
    if !match_at(s, 0, lit1) {
        proof {
            assert forall|c: Seq<char>, a: Seq<char>, t: Seq<char>|
                !(is_uuid_token(c) && is_number_token(a) && is_plain(t) && s@
                    == spec_json_submission(c, a, t)) by {
                if is_uuid_token(c) && is_number_token(a) && is_plain(t) && s@
                    == spec_json_submission(c, a, t) {
                    lemma_uuid_token_plain(c);
                    lemma_submission_shape(s@, c, a, t);
                }
            }
        }
        return None;
    }
    let j1 = scan_plain(s, n1);
    if !match_at(s, j1, lit2) {
        proof {
            assert forall|c: Seq<char>, a: Seq<char>, t: Seq<char>|
                !(is_uuid_token(c) && is_number_token(a) && is_plain(t) && s@
                    == spec_json_submission(c, a, t)) by {
                if is_uuid_token(c) && is_number_token(a) && is_plain(t) && s@
                    == spec_json_submission(c, a, t) {
                    lemma_uuid_token_plain(c);
                    lemma_submission_shape(s@, c, a, t);
                    assert(j1 == 18 + c.len());
                }
            }
        }
        return None;
    }
    let i2 = j1 + n2;
    let j2 = scan_number(s, i2);
    if !match_at(s, j2, lit3) {
        proof {
            assert forall|c: Seq<char>, a: Seq<char>, t: Seq<char>|
                !(is_uuid_token(c) && is_number_token(a) && is_plain(t) && s@
                    == spec_json_submission(c, a, t)) by {
                if is_uuid_token(c) && is_number_token(a) && is_plain(t) && s@
                    == spec_json_submission(c, a, t) {
                    lemma_uuid_token_plain(c);
                    lemma_submission_shape(s@, c, a, t);
                    assert(j1 == 18 + c.len());
                    lemma_number_token_plain(a);
                    assert(j2 == 29 + c.len() + a.len());
                }
            }
        }
        return None;
    }
    let i3 = j2 + n3;
    let j3 = scan_plain(s, i3);
    let tail_ok = match_at(s, j3, lit4) && j3 + 2 == n;
    if !tail_ok {
        proof {
            assert forall|c: Seq<char>, a: Seq<char>, t: Seq<char>|
                !(is_uuid_token(c) && is_number_token(a) && is_plain(t) && s@
                    == spec_json_submission(c, a, t)) by {
                if is_uuid_token(c) && is_number_token(a) && is_plain(t) && s@
                    == spec_json_submission(c, a, t) {
                    lemma_uuid_token_plain(c);
                    lemma_submission_shape(s@, c, a, t);
                    assert(j1 == 18 + c.len());
                    lemma_number_token_plain(a);
                    assert(j2 == 29 + c.len() + a.len());
                    assert(j3 == 45 + c.len() + a.len() + t.len());
                }
            }
        }
        return None;
    }
    let cid = String::from_str(s.substring_char(n1, j1));
    let amt = String::from_str(s.substring_char(i2, j2));
    let ts = String::from_str(s.substring_char(i3, j3));
    let cid_ok = is_uuid_str(cid.as_str());
    let amt_ok = is_number_str(amt.as_str());
    if !(cid_ok && amt_ok) {
        proof {
            assert forall|c: Seq<char>, a: Seq<char>, t: Seq<char>|
                !(is_uuid_token(c) && is_number_token(a) && is_plain(t) && s@
                    == spec_json_submission(c, a, t)) by {
                if is_uuid_token(c) && is_number_token(a) && is_plain(t) && s@
                    == spec_json_submission(c, a, t) {
                    lemma_uuid_token_plain(c);
                    lemma_submission_shape(s@, c, a, t);
                    assert(j1 == 18 + c.len());
                    lemma_number_token_plain(a);
                    assert(j2 == 29 + c.len() + a.len());
                    assert(cid@ == c);
                    assert(amt@ == a);
                }
            }
        }
        return None;
    }
    proof {
        let l1 = "{\"correlationId\":\""@;
        let l2 = "\",\"amount\":"@;
        let l3 = ",\"requestedAt\":\""@;
        let l4 = "\"}"@;
        assert(s@ =~= l1 + cid@ + l2 + amt@ + l3 + ts@ + l4);
    }
    Some(PaymentServiceDTO { correlation_id: cid, amount: amt, requested_at: ts })
}

} // verus!

verus! {

/// The partition name as it stands on the wire.
pub open spec fn spec_tree_name(t: SledTree) -> Seq<char> {
    match t {
        SledTree::Default => "Default"@,
        SledTree::Fallback => "Fallback"@,
    }
}

/// The envelope of a write command.
pub open spec fn spec_json_write(k: Seq<char>, v: Seq<char>, t: SledTree) -> Seq<char> {
    "{\"Write\":{\"key\":\""@ + k + "\",\"value\":"@ + v + ",\"tree\":\""@ + spec_tree_name(t)
        + "\"}}"@
}

/// The envelope of a range-read command.
pub open spec fn spec_json_read(f: Seq<char>, t: Seq<char>) -> Seq<char> {
    "{\"Read\":{\"from\":\""@ + f + "\",\"to\":\""@ + t + "\"}}"@
}

/// The envelope of a purge command.
pub open spec fn spec_json_purge() -> Seq<char> {
    "{\"Purge\":null}"@
}

/// The envelope of any store command.
pub open spec fn spec_json_command(c: StoreCommand) -> Seq<char> {
    match c {
        StoreCommand::Write(w) => spec_json_write(w.key@, w.value@, w.tree),
        StoreCommand::Read(r) => spec_json_read(r.from@, r.to@),
        StoreCommand::Purge => spec_json_purge(),
    }
}

/// What the write envelope of a well-formed write looks like, position by
/// position.
proof fn lemma_write_shape(s: Seq<char>, k: Seq<char>, v: Seq<char>, t: SledTree)
    requires
        is_plain(k),
        is_number_token(v),
        s == spec_json_write(k, v, t),
    ensures
        s.len() == 39 + k.len() + v.len() + spec_tree_name(t).len(),
        matches_at(s, 0, "{\"Write\":{\"key\":\""@),
        forall|i: int| 17 <= i < 17 + k.len() ==> plain_char(#[trigger] s[i]),
        s[17 + k.len() as int] == '"',
        matches_at(s, 17 + k.len() as int, "\",\"value\":"@),
        k == s.subrange(17, 17 + k.len() as int),
        forall|i: int|
            27 + k.len() <= i < 27 + k.len() + v.len() ==> number_char_p(#[trigger] s[i]),
        s[27 + k.len() as int + v.len() as int] == ',',
        matches_at(s, 27 + k.len() as int + v.len() as int, ",\"tree\":\""@),
        v == s.subrange(27 + k.len() as int, 27 + k.len() as int + v.len() as int),
        matches_at(s, 36 + k.len() as int + v.len() as int, spec_tree_name(t)),
        matches_at(s, 36 + k.len() as int + v.len() as int + spec_tree_name(t).len() as int, "\"}}"@),
        s[2] == 'W',
        s.len() > 2,
{
    reveal_strlit("{\"Write\":{\"key\":\"");
    reveal_strlit("\",\"value\":");
    reveal_strlit(",\"tree\":\"");
    reveal_strlit("\"}}");
    reveal_strlit("Default");
    reveal_strlit("Fallback");
    let l1 = "{\"Write\":{\"key\":\""@;
    let l2 = "\",\"value\":"@;
    let l3 = ",\"tree\":\""@;
    let nm = spec_tree_name(t);
    let l4 = "\"}}"@;
    assert(l1.len() == 17);
    assert(l2.len() == 10);
    assert(l3.len() == 9);
    assert(l4.len() == 3);
    let kl = k.len() as int;
    let vl = v.len() as int;
    let nl = nm.len() as int;
    lemma_number_token_plain(v);
    assert(s =~= l1 + k + (l2 + v + l3 + nm + l4));
    lemma_concat_parts(s, l1, k, l2 + v + l3 + nm + l4);
    assert((l2 + v + l3 + nm + l4)[0] == l2[0]);
    assert(s =~= (l1 + k) + l2 + (v + l3 + nm + l4));
    lemma_concat_parts(s, l1 + k, l2, v + l3 + nm + l4);
    assert(s =~= (l1 + k + l2) + v + (l3 + nm + l4));
    lemma_concat_parts(s, l1 + k + l2, v, l3 + nm + l4);
    assert((l3 + nm + l4)[0] == l3[0]);
    assert(s =~= (l1 + k + l2 + v) + l3 + (nm + l4));
    lemma_concat_parts(s, l1 + k + l2 + v, l3, nm + l4);
    assert(s =~= (l1 + k + l2 + v + l3) + nm + l4);
    lemma_concat_parts(s, l1 + k + l2 + v + l3, nm, l4);
    assert(s =~= (l1 + k + l2 + v + l3 + nm) + l4 + Seq::<char>::empty());
    lemma_concat_parts(s, l1 + k + l2 + v + l3 + nm, l4, Seq::<char>::empty());
    assert(k =~= s.subrange(17, 17 + kl));
    assert(v =~= s.subrange(27 + kl, 27 + kl + vl));
    assert forall|i: int| 17 <= i < 17 + k.len() implies plain_char(#[trigger] s[i]) by {
        assert(s[17 + (i - 17)] == k[i - 17]);
    }
    assert forall|i: int|
        27 + k.len() <= i < 27 + k.len() + v.len() implies number_char_p(#[trigger] s[i]) by {
        assert(s[(27 + kl) + (i - 27 - kl)] == v[i - 27 - kl]);
    }
    assert(s[17 + kl] == l2[0]);
    assert(s[(27 + kl) + vl] == l3[0]);
    assert(s[2] == l1[2]);
}

/// What the read envelope of a well-formed read looks like, position by
/// position.
proof fn lemma_read_shape(s: Seq<char>, f: Seq<char>, t: Seq<char>)
    requires
        is_plain(f),
        is_plain(t),
        s == spec_json_read(f, t),
    ensures
        s.len() == 28 + f.len() + t.len(),
        matches_at(s, 0, "{\"Read\":{\"from\":\""@),
        forall|i: int| 17 <= i < 17 + f.len() ==> plain_char(#[trigger] s[i]),
        s[17 + f.len() as int] == '"',
        matches_at(s, 17 + f.len() as int, "\",\"to\":\""@),
        f == s.subrange(17, 17 + f.len() as int),
        forall|i: int|
            25 + f.len() <= i < 25 + f.len() + t.len() ==> plain_char(#[trigger] s[i]),
        s[25 + f.len() as int + t.len() as int] == '"',
        matches_at(s, 25 + f.len() as int + t.len() as int, "\"}}"@),
        t == s.subrange(25 + f.len() as int, 25 + f.len() as int + t.len() as int),
        s[2] == 'R',
        s.len() > 2,
{
    reveal_strlit("{\"Read\":{\"from\":\"");
    reveal_strlit("\",\"to\":\"");
    reveal_strlit("\"}}");
    let l1 = "{\"Read\":{\"from\":\""@;
    let l2 = "\",\"to\":\""@;
    let l3 = "\"}}"@;
    assert(l1.len() == 17);
    assert(l2.len() == 8);
    assert(l3.len() == 3);
    let fl = f.len() as int;
    let tl = t.len() as int;
    assert(s =~= l1 + f + (l2 + t + l3));
    lemma_concat_parts(s, l1, f, l2 + t + l3);
    assert((l2 + t + l3)[0] == l2[0]);
    assert(s =~= (l1 + f) + l2 + (t + l3));
    lemma_concat_parts(s, l1 + f, l2, t + l3);
    assert(s =~= (l1 + f + l2) + t + l3);
    lemma_concat_parts(s, l1 + f + l2, t, l3);
    assert(s =~= (l1 + f + l2 + t) + l3 + Seq::<char>::empty());
    lemma_concat_parts(s, l1 + f + l2 + t, l3, Seq::<char>::empty());
    assert(f =~= s.subrange(17, 17 + fl));
    assert(t =~= s.subrange(25 + fl, 25 + fl + tl));
    assert forall|i: int| 17 <= i < 17 + f.len() implies plain_char(#[trigger] s[i]) by {
        assert(s[17 + (i - 17)] == f[i - 17]);
    }
    assert forall|i: int|
        25 + f.len() <= i < 25 + f.len() + t.len() implies plain_char(#[trigger] s[i]) by {
        assert(s[(25 + fl) + (i - 25 - fl)] == t[i - 25 - fl]);
    }
    assert(s[17 + fl] == l2[0]);
    assert(s[(25 + fl) + tl] == l3[0]);
    assert(s[2] == l1[2]);
}

/// Writes the envelope of a store command.
pub fn encode_store_command(c: &StoreCommand) -> (r: String)
    ensures
        r@ == spec_json_command(*c),
{
    match c {
        StoreCommand::Write(w) => {
            let mut s = String::new();
            s.append("{\"Write\":{\"key\":\"");
            s.append(w.key.as_str());
            s.append("\",\"value\":");
            s.append(w.value.as_str());
            s.append(",\"tree\":\"");
            match w.tree {
                SledTree::Default => s.append("Default"),
                SledTree::Fallback => s.append("Fallback"),
            }
            s.append("\"}}");
            proof {
                assert(s@ =~= spec_json_write(w.key@, w.value@, w.tree));
            }
            s
        },
        StoreCommand::Read(rd) => {
            let mut s = String::new();
            s.append("{\"Read\":{\"from\":\"");
            s.append(rd.from.as_str());
            s.append("\",\"to\":\"");
            s.append(rd.to.as_str());
            s.append("\"}}");
            proof {
                assert(s@ =~= spec_json_read(rd.from@, rd.to@));
            }
            s
        },
        StoreCommand::Purge => {
            let s = String::from_str("{\"Purge\":null}");
            s
        },
    }
}

} // verus!

verus! {


/// A frame that starts as a write envelope is no read or purge envelope.
proof fn lemma_write_prefix_excludes(s: Seq<char>)
    requires
        matches_at(s, 0, "{\"Write\":{\"key\":\""@),
    ensures
        forall|f: Seq<char>, t: Seq<char>|
            is_plain(f) && is_plain(t) ==> s != spec_json_read(f, t),
        s != spec_json_purge(),
{
    reveal_strlit("{\"Write\":{\"key\":\"");
    reveal_strlit("{\"Purge\":null}");
    assert(s.subrange(0, 17)[2] == s[2]);
    assert(s[2] == 'W');
    assert forall|f: Seq<char>, t: Seq<char>|
        is_plain(f) && is_plain(t) implies s != spec_json_read(f, t) by {
        if s == spec_json_read(f, t) {
            lemma_read_shape(s, f, t);
        }
    }
    if s == spec_json_purge() {
        assert(s[2] == "{\"Purge\":null}"@[2]);
    }
}

/// A frame that starts as a read envelope is no write or purge envelope.
proof fn lemma_read_prefix_excludes(s: Seq<char>)
    requires
        matches_at(s, 0, "{\"Read\":{\"from\":\""@),
    ensures
        forall|k: Seq<char>, v: Seq<char>, t: SledTree|
            is_plain(k) && is_number_token(v) ==> s != spec_json_write(k, v, t),
        s != spec_json_purge(),
{
    reveal_strlit("{\"Read\":{\"from\":\"");
    reveal_strlit("{\"Purge\":null}");
    assert(s.subrange(0, 17)[2] == s[2]);
    assert(s[2] == 'R');
    assert forall|k: Seq<char>, v: Seq<char>, t: SledTree|
        is_plain(k) && is_number_token(v) implies s != spec_json_write(k, v, t) by {
        if s == spec_json_write(k, v, t) {
            lemma_write_shape(s, k, v, t);
        }
    }
    if s == spec_json_purge() {
        assert(s[2] == "{\"Purge\":null}"@[2]);
    }
}

/// Reads a store command envelope. Accepts exactly the canonical
/// encodings of well-formed commands.
#[verifier::rlimit(60)]
pub fn decode_store_command(s: &str) -> (r: Option<StoreCommand>)
    ensures
        r matches Some(cmd) ==> cmd.wf() && s@ == spec_json_command(cmd),
        forall|k: Seq<char>, v: Seq<char>, t: SledTree|
            is_plain(k) && is_number_token(v) && s@ == spec_json_write(k, v, t) ==> r is Some,
        forall|f: Seq<char>, t: Seq<char>|
            is_plain(f) && is_plain(t) && s@ == spec_json_read(f, t) ==> r is Some,
        s@ == spec_json_purge() ==> r is Some,
{
    let n = s.unicode_len();
    proof {
        reveal_strlit("{\"Purge\":null}");
        reveal_strlit("{\"Write\":{\"key\":\"");
        reveal_strlit("\",\"value\":");
        reveal_strlit(",\"tree\":\"");
        reveal_strlit("Default");
        reveal_strlit("Fallback");
        reveal_strlit("\"}}");
        reveal_strlit("{\"Read\":{\"from\":\"");
        reveal_strlit("\",\"to\":\"");
    }
    if match_at(s, 0, "{\"Purge\":null}") && n == 14 {
        proof {
            assert(s@ =~= "{\"Purge\":null}"@);
        }
        return Some(StoreCommand::Purge);
    }
    if match_at(s, 0, "{\"Write\":{\"key\":\"") {
        let j1 = scan_plain(s, 17);
        if !match_at(s, j1, "\",\"value\":") {
            proof {
                lemma_write_prefix_excludes(s@);
                assert forall|k: Seq<char>, v: Seq<char>, t: SledTree|
                    !(is_plain(k) && is_number_token(v) && s@ == spec_json_write(k, v, t)) by {
                    if is_plain(k) && is_number_token(v) && s@ == spec_json_write(k, v, t) {
                        lemma_write_shape(s@, k, v, t);
                        assert(j1 == 17 + k.len());
                    }
                }
            }
            return None;
        }
        let i2 = j1 + 10;
        let j2 = scan_number(s, i2);
        if !match_at(s, j2, ",\"tree\":\"") {
            proof {
                lemma_write_prefix_excludes(s@);
                assert forall|k: Seq<char>, v: Seq<char>, t: SledTree|
                    !(is_plain(k) && is_number_token(v) && s@ == spec_json_write(k, v, t)) by {
                    if is_plain(k) && is_number_token(v) && s@ == spec_json_write(k, v, t) {
                        lemma_write_shape(s@, k, v, t);
                        assert(j1 == 17 + k.len());
                        lemma_number_token_plain(v);
                        assert(j2 == 27 + k.len() + v.len());
                    }
                }
            }
            return None;
        }
        let i3 = j2 + 9;
        let td = match_at(s, i3, "Default");
        let tf = match_at(s, i3, "Fallback");
        if !(td || tf) {
            proof {
                lemma_write_prefix_excludes(s@);
                assert forall|k: Seq<char>, v: Seq<char>, t: SledTree|
                    !(is_plain(k) && is_number_token(v) && s@ == spec_json_write(k, v, t)) by {
                    if is_plain(k) && is_number_token(v) && s@ == spec_json_write(k, v, t) {
                        lemma_write_shape(s@, k, v, t);
                        assert(j1 == 17 + k.len());
                        lemma_number_token_plain(v);
                        assert(j2 == 27 + k.len() + v.len());
                        assert(matches_at(s@, i3 as int, spec_tree_name(t)));
                    }
                }
            }
            return None;
        }
        let nl: usize = if td {
            7
        } else {
            8
        };
        let i4 = i3 + nl;
        let tail_ok = match_at(s, i4, "\"}}") && i4 + 3 == n;
        if !tail_ok {
            proof {
                lemma_write_prefix_excludes(s@);
                assert forall|k: Seq<char>, v: Seq<char>, t: SledTree|
                    !(is_plain(k) && is_number_token(v) && s@ == spec_json_write(k, v, t)) by {
                    if is_plain(k) && is_number_token(v) && s@ == spec_json_write(k, v, t) {
                        lemma_write_shape(s@, k, v, t);
                        assert(j1 == 17 + k.len());
                        lemma_number_token_plain(v);
                        assert(j2 == 27 + k.len() + v.len());
                        assert(matches_at(s@, i3 as int, spec_tree_name(t)));
                        if t == SledTree::Fallback {
                            assert(s@.subrange(i3 as int, i3 + 8)[0] == s@[i3 as int]);
                            assert(s@[i3 as int] == 'F');
                            if td {
                                assert(s@.subrange(i3 as int, i3 + 7)[0] == s@[i3 as int]);
                            }
                        }
                        assert(spec_tree_name(t).len() == nl);
                        assert(matches_at(s@, i4 as int, "\"}}"@));
                    }
                }
            }
            return None;
        }
        let key = String::from_str(s.substring_char(17, j1));
        let val = String::from_str(s.substring_char(i2, j2));
        if !is_number_str(val.as_str()) {
            proof {
                lemma_write_prefix_excludes(s@);
                assert forall|k: Seq<char>, v: Seq<char>, t: SledTree|
                    !(is_plain(k) && is_number_token(v) && s@ == spec_json_write(k, v, t)) by {
                    if is_plain(k) && is_number_token(v) && s@ == spec_json_write(k, v, t) {
                        lemma_write_shape(s@, k, v, t);
                        assert(j1 == 17 + k.len());
                        lemma_number_token_plain(v);
                        assert(j2 == 27 + k.len() + v.len());
                        assert(val@ == v);
                    }
                }
            }
            return None;
        }
        let tree = if td {
            SledTree::Default
        } else {
            SledTree::Fallback
        };
        proof {
            let l1 = "{\"Write\":{\"key\":\""@;
            let l2 = "\",\"value\":"@;
            let l3 = ",\"tree\":\""@;
            let l4 = "\"}}"@;
            if td {
                assert(s@ =~= l1 + key@ + l2 + val@ + l3 + "Default"@ + l4);
            } else {
                assert(s@ =~= l1 + key@ + l2 + val@ + l3 + "Fallback"@ + l4);
            }
        }
        return Some(StoreCommand::Write(DBWrite { key, value: val, tree }));
    }
    if match_at(s, 0, "{\"Read\":{\"from\":\"") {
        let j1 = scan_plain(s, 17);
        if !match_at(s, j1, "\",\"to\":\"") {
            proof {
                lemma_read_prefix_excludes(s@);
                assert forall|f: Seq<char>, t: Seq<char>|
                    !(is_plain(f) && is_plain(t) && s@ == spec_json_read(f, t)) by {
                    if is_plain(f) && is_plain(t) && s@ == spec_json_read(f, t) {
                        lemma_read_shape(s@, f, t);
                        assert(j1 == 17 + f.len());
                    }
                }
            }
            return None;
        }
        let i2 = j1 + 8;
        let j2 = scan_plain(s, i2);
        let tail_ok = match_at(s, j2, "\"}}") && j2 + 3 == n;
        if !tail_ok {
            proof {
                lemma_read_prefix_excludes(s@);
                assert forall|f: Seq<char>, t: Seq<char>|
                    !(is_plain(f) && is_plain(t) && s@ == spec_json_read(f, t)) by {
                    if is_plain(f) && is_plain(t) && s@ == spec_json_read(f, t) {
                        lemma_read_shape(s@, f, t);
                        assert(j1 == 17 + f.len());
                        assert(j2 == 25 + f.len() + t.len());
                        assert(matches_at(s@, j2 as int, "\"}}"@));
                    }
                }
            }
            return None;
        }
        let from = String::from_str(s.substring_char(17, j1));
        let to = String::from_str(s.substring_char(i2, j2));
        proof {
            let l1 = "{\"Read\":{\"from\":\""@;
            let l2 = "\",\"to\":\""@;
            let l3 = "\"}}"@;
            assert(s@ =~= l1 + from@ + l2 + to@ + l3);
        }
        return Some(StoreCommand::Read(DBRead { from, to }));
    }
    proof {
        assert forall|k: Seq<char>, v: Seq<char>, t: SledTree|
            !(is_plain(k) && is_number_token(v) && s@ == spec_json_write(k, v, t)) by {
            if is_plain(k) && is_number_token(v) && s@ == spec_json_write(k, v, t) {
                lemma_write_shape(s@, k, v, t);
            }
        }
        assert forall|f: Seq<char>, t: Seq<char>|
            !(is_plain(f) && is_plain(t) && s@ == spec_json_read(f, t)) by {
            if is_plain(f) && is_plain(t) && s@ == spec_json_read(f, t) {
                lemma_read_shape(s@, f, t);
            }
        }
        if s@ == spec_json_purge() {
            assert(s@.len() == 14);
            assert(s@.subrange(0, 14) =~= s@);
            assert(matches_at(s@, 0, "{\"Purge\":null}"@));
        }
    }
    None
}

} // verus!

verus! {

/// One partition's totals on the wire.
pub open spec fn spec_json_summary(tr: u64, ta: Seq<char>) -> Seq<char> {
    "{\"totalRequests\":"@ + spec_u64_digits(tr) + ",\"totalAmount\":"@ + ta + "}"@
}

/// The response of a range query.
pub open spec fn spec_json_global(dr: u64, da: Seq<char>, fr: u64, fa: Seq<char>) -> Seq<char> {
    "{\"default\":"@ + spec_json_summary(dr, da) + ",\"fallback\":"@ + spec_json_summary(fr, fa)
        + "}"@
}

/// Writes one partition's totals.
fn encode_summary_part(out: &mut String, part: &Summary)
    ensures
        final(out)@ == old(out)@ + spec_json_summary(part.total_requests, part.total_amount@),
{
    out.append("{\"totalRequests\":");
    let digits = u64_to_string(part.total_requests);
    out.append(digits.as_str());
    out.append(",\"totalAmount\":");
    out.append(part.total_amount.as_str());
    out.append("}");
    proof {
        assert(out@ =~= old(out)@ + spec_json_summary(part.total_requests, part.total_amount@));
    }
}

/// Writes the summary response line.
pub fn encode_global_summary(g: &GlobalSummary) -> (r: String)
    ensures
        r@ == spec_json_global(
            g.default.total_requests,
            g.default.total_amount@,
            g.fallback.total_requests,
            g.fallback.total_amount@,
        ),
{
    let mut s = String::new();
    s.append("{\"default\":");
    encode_summary_part(&mut s, &g.default);
    s.append(",\"fallback\":");
    encode_summary_part(&mut s, &g.fallback);
    s.append("}");
    proof {
        assert(s@ =~= spec_json_global(
            g.default.total_requests,
            g.default.total_amount@,
            g.fallback.total_requests,
            g.fallback.total_amount@,
        ));
    }
    s
}

/// A payment frame determines its fields: two well-formed payments with
/// the same frame agree on both.
pub proof fn lemma_payment_frame_injective(
    c1: Seq<char>,
    a1: Seq<char>,
    c2: Seq<char>,
    a2: Seq<char>,
)
    requires
        is_uuid_token(c1),
        is_number_token(a1),
        is_uuid_token(c2),
        is_number_token(a2),
        spec_json_payment(c1, a1) == spec_json_payment(c2, a2),
    ensures
        c1 == c2,
        a1 == a2,
{
    let s = spec_json_payment(c1, a1);
    lemma_uuid_token_plain(c1);
    lemma_uuid_token_plain(c2);
    lemma_payment_shape(s, c1, a1);
    lemma_payment_shape(s, c2, a2);
    assert(c1 =~= c2);
    assert(a1 =~= a2);
}

/// A submission frame determines its fields.
pub proof fn lemma_submission_frame_injective(
    c1: Seq<char>,
    a1: Seq<char>,
    t1: Seq<char>,
    c2: Seq<char>,
    a2: Seq<char>,
    t2: Seq<char>,
)
    requires
        is_uuid_token(c1),
        is_number_token(a1),
        is_plain(t1),
        is_uuid_token(c2),
        is_number_token(a2),
        is_plain(t2),
        spec_json_submission(c1, a1, t1) == spec_json_submission(c2, a2, t2),
    ensures
        c1 == c2,
        a1 == a2,
        t1 == t2,
{
    let s = spec_json_submission(c1, a1, t1);
    lemma_uuid_token_plain(c1);
    lemma_uuid_token_plain(c2);
    lemma_submission_shape(s, c1, a1, t1);
    lemma_submission_shape(s, c2, a2, t2);
    assert(c1 =~= c2);
    lemma_number_token_plain(a1);
    lemma_number_token_plain(a2);
    lemma_number_run_unique(s, 29 + c1.len() as int, a1, a2);
    assert(t1 =~= t2);
}

/// A write envelope determines its key, value and partition.
pub proof fn lemma_write_frame_injective(
    k1: Seq<char>,
    v1: Seq<char>,
    t1: SledTree,
    k2: Seq<char>,
    v2: Seq<char>,
    t2: SledTree,
)
    requires
        is_plain(k1),
        is_number_token(v1),
        is_plain(k2),
        is_number_token(v2),
        spec_json_write(k1, v1, t1) == spec_json_write(k2, v2, t2),
    ensures
        k1 == k2,
        v1 == v2,
        t1 == t2,
{
    let s = spec_json_write(k1, v1, t1);
    lemma_write_shape(s, k1, v1, t1);
    lemma_write_shape(s, k2, v2, t2);
    lemma_plain_run_unique(s, 17, k1, k2);
    lemma_number_token_plain(v1);
    lemma_number_token_plain(v2);
    lemma_number_run_unique(s, 27 + k1.len() as int, v1, v2);
    if t1 != t2 {
        reveal_strlit("Default");
        reveal_strlit("Fallback");
        let i3 = 36 + k1.len() as int + v1.len() as int;
        assert(s.subrange(i3, i3 + spec_tree_name(t1).len())[0] == s[i3]);
        assert(s.subrange(i3, i3 + spec_tree_name(t2).len())[0] == s[i3]);
        assert(false);
    }
}

/// A read envelope determines its bounds.
pub proof fn lemma_read_frame_injective(
    f1: Seq<char>,
    t1: Seq<char>,
    f2: Seq<char>,
    t2: Seq<char>,
)
    requires
        is_plain(f1),
        is_plain(t1),
        is_plain(f2),
        is_plain(t2),
        spec_json_read(f1, t1) == spec_json_read(f2, t2),
    ensures
        f1 == f2,
        t1 == t2,
{
    let s = spec_json_read(f1, t1);
    lemma_read_shape(s, f1, t1);
    lemma_read_shape(s, f2, t2);
    lemma_plain_run_unique(s, 17, f1, f2);
    lemma_plain_run_unique(s, 25 + f1.len() as int, t1, t2);
}

/// The three command envelopes are pairwise distinct.
pub proof fn lemma_command_frames_distinct(
    k: Seq<char>,
    v: Seq<char>,
    t: SledTree,
    f: Seq<char>,
    to: Seq<char>,
)
    requires
        is_plain(k),
        is_number_token(v),
        is_plain(f),
        is_plain(to),
    ensures
        spec_json_write(k, v, t) != spec_json_read(f, to),
        spec_json_write(k, v, t) != spec_json_purge(),
        spec_json_read(f, to) != spec_json_purge(),
{
    lemma_write_shape(spec_json_write(k, v, t), k, v, t);
    lemma_write_prefix_excludes(spec_json_write(k, v, t));
    lemma_read_shape(spec_json_read(f, to), f, to);
    lemma_read_prefix_excludes(spec_json_read(f, to));
}

} // verus!
