//! The worker's retry and failover strategy, as a state machine from
//! provider replies to actions: up to five attempts at the default
//! provider with a fixed back-off, one attempt at the fallback, and on
//! success exactly one store write keyed by the submission's
//! `requested_at`; when both providers refuse, the payment is dropped.

use vstd::prelude::*;
use vstd::string::*;

use crate::store::{Store, StoreError};
use crate::text::is_plain;
use crate::types::{PaymentDTO, PaymentServiceDTO, SledTree};

verus! {

/// Attempts made at the default provider before the fallback is tried.
pub const MAX_DEFAULT_ATTEMPTS: u64 = 5;

/// Fixed pause between default attempts, in milliseconds.
pub const RETRY_BACKOFF_MS: u64 = 500;

/// Cadence of the store's flush tick, in milliseconds.
pub const FLUSH_INTERVAL_MS: u64 = 100;

/// What a provider call came back as: any 2xx response is acceptance;
/// every other response or transport failure is a refusal.
#[derive(Debug, Clone, Copy, PartialEq, Eq, Structural)]
pub enum ProviderReply {
    Accepted,
    Refused,
}

/// Where a payment stands between its first dispatch and its outcome.
#[derive(Debug, Clone, Copy, PartialEq, Eq, Structural)]
pub enum DispatchState {
    /// Waiting on a default-provider attempt; the count is how many
    /// further default attempts remain after the outstanding one.
    TryingDefault { attempts_left: u64 },
    /// Waiting on the single fallback attempt.
    TryingFallback,
    /// Terminal: the payment was recorded or dropped.
    Settled,
}

/// What the worker must do next.
#[derive(Debug, Clone, Copy, PartialEq, Eq, Structural)]
pub enum DispatchAction {
    /// Submit to the default provider, after the given pause.
    PostDefault { backoff_ms: u64 },
    /// Submit to the fallback provider.
    PostFallback,
    /// Write the outcome to the named partition, then stop.
    RecordOutcome { partition: SledTree },
    /// Drop the payment: no write, no requeue, no error surfaced.
    DropPayment,
}

/// The first move for a fresh submission.
pub open spec fn spec_dispatch_start() -> (DispatchState, DispatchAction) {
    (
        DispatchState::TryingDefault { attempts_left: (MAX_DEFAULT_ATTEMPTS - 1) as u64 },
        DispatchAction::PostDefault { backoff_ms: 0 },
    )
}

/// One step of the strategy: what the reply to the outstanding attempt
/// leads to.
pub open spec fn spec_dispatch_step(st: DispatchState, reply: ProviderReply) -> (
    DispatchState,
    DispatchAction,
) {
    match st {
        DispatchState::TryingDefault { attempts_left } => match reply {
            ProviderReply::Accepted => (
                DispatchState::Settled,
                DispatchAction::RecordOutcome { partition: SledTree::Default },
            ),
            ProviderReply::Refused => {
                if attempts_left > 0 {
                    (
                        DispatchState::TryingDefault { attempts_left: (attempts_left - 1) as u64 },
                        DispatchAction::PostDefault { backoff_ms: RETRY_BACKOFF_MS },
                    )
                } else {
                    (DispatchState::TryingFallback, DispatchAction::PostFallback)
                }
            },
        },
        DispatchState::TryingFallback => match reply {
            ProviderReply::Accepted => (
                DispatchState::Settled,
                DispatchAction::RecordOutcome { partition: SledTree::Fallback },
            ),
            ProviderReply::Refused => (DispatchState::Settled, DispatchAction::DropPayment),
        },
        DispatchState::Settled => (DispatchState::Settled, DispatchAction::DropPayment),
    }
}

/// Begins dispatching: the first default attempt, with no pause.
pub fn dispatch_start() -> (r: (DispatchState, DispatchAction))
    ensures
        r == spec_dispatch_start(),
{
    (
        DispatchState::TryingDefault { attempts_left: MAX_DEFAULT_ATTEMPTS - 1 },
        DispatchAction::PostDefault { backoff_ms: 0 },
    )
}

/// Advances the strategy on one provider reply.
pub fn dispatch_step(st: DispatchState, reply: ProviderReply) -> (r: (
    DispatchState,
    DispatchAction,
))
    requires
        st != DispatchState::Settled,
    ensures
        r == spec_dispatch_step(st, reply),
{
    match st {
        DispatchState::TryingDefault { attempts_left } => match reply {
            ProviderReply::Accepted => (
                DispatchState::Settled,
                DispatchAction::RecordOutcome { partition: SledTree::Default },
            ),
            ProviderReply::Refused => {
                if attempts_left > 0 {
                    (
                        DispatchState::TryingDefault { attempts_left: attempts_left - 1 },
                        DispatchAction::PostDefault { backoff_ms: RETRY_BACKOFF_MS },
                    )
                } else {
                    (DispatchState::TryingFallback, DispatchAction::PostFallback)
                }
            },
        },
        DispatchState::TryingFallback => match reply {
            ProviderReply::Accepted => (
                DispatchState::Settled,
                DispatchAction::RecordOutcome { partition: SledTree::Fallback },
            ),
            ProviderReply::Refused => (DispatchState::Settled, DispatchAction::DropPayment),
        },
        DispatchState::Settled => (DispatchState::Settled, DispatchAction::DropPayment),
    }
}

/// How many store writes a run of the strategy asks for, starting in
/// `st`, over a sequence of replies.
pub open spec fn spec_run_writes(st: DispatchState, replies: Seq<ProviderReply>) -> nat
    decreases replies.len(),
{
    if st == DispatchState::Settled || replies.len() == 0 {
        0
    } else {
        let (st2, a) = spec_dispatch_step(st, replies[0]);
        (if a is RecordOutcome {
            1nat
        } else {
            0nat
        }) + spec_run_writes(st2, replies.skip(1))
    }
}

/// Exactly-once recording, first half: however the providers answer, a
/// payment's run asks for at most one store write.
pub proof fn lemma_at_most_one_write(st: DispatchState, replies: Seq<ProviderReply>)
    ensures
        spec_run_writes(st, replies) <= 1,
    decreases replies.len(),
{
    if st != DispatchState::Settled && replies.len() > 0 {
        let (st2, a) = spec_dispatch_step(st, replies[0]);
        if a is RecordOutcome {
            lemma_settled_writes_nothing(st2, replies.skip(1));
        } else {
            lemma_at_most_one_write(st2, replies.skip(1));
        }
    }
}

/// A settled payment asks for nothing more.
pub proof fn lemma_settled_writes_nothing(st: DispatchState, replies: Seq<ProviderReply>)
    requires
        st == DispatchState::Settled,
    ensures
        spec_run_writes(st, replies) == 0,
{
}

/// Exactly-once recording, second half: when every reply is a refusal,
/// the run never writes — the payment is dropped.
pub proof fn lemma_all_refused_no_write(st: DispatchState, replies: Seq<ProviderReply>)
    requires
        forall|i: int| 0 <= i < replies.len() ==> replies[i] == ProviderReply::Refused,
    ensures
        spec_run_writes(st, replies) == 0,
    decreases replies.len(),
{
    if st != DispatchState::Settled && replies.len() > 0 {
        let (st2, a) = spec_dispatch_step(st, replies[0]);
        assert(replies[0] == ProviderReply::Refused);
        assert forall|i: int| 0 <= i < replies.skip(1).len() implies replies.skip(1)[i]
            == ProviderReply::Refused by {
            assert(replies.skip(1)[i] == replies[i + 1]);
        }
        lemma_all_refused_no_write(st2, replies.skip(1));
    }
}

/// An acceptance while a reply is still awaited settles the payment with
/// one write, to the partition of the provider that accepted.
pub proof fn lemma_acceptance_writes_once(st: DispatchState, replies: Seq<ProviderReply>)
    requires
        st != DispatchState::Settled,
        replies.len() > 0,
        replies[0] == ProviderReply::Accepted,
    ensures
        spec_run_writes(st, replies) == 1,
        spec_dispatch_step(st, replies[0]).1 == (DispatchAction::RecordOutcome {
            partition: if st is TryingDefault {
                SledTree::Default
            } else {
                SledTree::Fallback
            },
        }),
{
    let (st2, a) = spec_dispatch_step(st, replies[0]);
    lemma_settled_writes_nothing(st2, replies.skip(1));
}

/// Records a successful submission: exactly one record, in the partition
/// whose provider accepted, keyed by the submission's `requested_at`,
/// holding the amount's bits.
pub fn record_outcome(store: &mut Store, sub: &PaymentServiceDTO, bits: u64, partition: SledTree)
    -> (r: Result<(), StoreError>)
    ensures
        r is Ok ==> final(store).entries_of(partition) == old(store).entries_of(
            partition,
        ).insert(vstd::utf8::encode_utf8(sub.requested_at@), crate::bytes::spec_be_bytes(bits)),
        r is Ok && partition == SledTree::Default ==> final(store).fallback_entries() == old(
            store,
        ).fallback_entries(),
        r is Ok && partition == SledTree::Fallback ==> final(store).default_entries() == old(
            store,
        ).default_entries(),
{
    store.write_amount(sub.requested_at.as_str(), bits, partition)
}

/// Relies on chrono's Utc::now().to_rfc3339(): the moment of first
/// dispatch as RFC 3339 text. The clock decides the value; every outcome
/// is a nonempty string of plain printable ASCII (digits, separators and
/// sign characters).
#[verifier::external_body]
fn now_rfc3339() -> (r: String)
    ensures
        is_plain(r@),
        r@.len() > 0,
{
    chrono::Utc::now().to_rfc3339()
}

/// Builds the submission for a payment at the moment of first dispatch,
/// fixing `requested_at` — the future store key — once for all retries.
pub fn make_submission(payment: PaymentDTO) -> (r: PaymentServiceDTO)
    ensures
        r.correlation_id@ == payment.correlation_id@,
        r.amount@ == payment.amount@,
        is_plain(r.requested_at@),
        r.requested_at@.len() > 0,
        payment.wf() ==> r.wf(),
{
    let now = now_rfc3339();
    PaymentServiceDTO::new(payment, now)
}

} // verus!

verus! {

/// The index of the first acceptance in a reply sequence, or its length
/// when every reply is a refusal.
pub open spec fn spec_first_accept(replies: Seq<ProviderReply>) -> int
    decreases replies.len(),
{
    if replies.len() == 0 {
        0
    } else if replies[0] == ProviderReply::Accepted {
        0
    } else {
        1 + spec_first_accept(replies.skip(1))
    }
}

/// How many replies a state can still consume before settling: the
/// outstanding attempt, the remaining default attempts, and the one
/// fallback attempt.
pub open spec fn spec_budget(st: DispatchState) -> int {
    match st {
        DispatchState::TryingDefault { attempts_left } => attempts_left + 2,
        DispatchState::TryingFallback => 1,
        DispatchState::Settled => 0,
    }
}

proof fn lemma_first_accept_bounds(replies: Seq<ProviderReply>)
    ensures
        0 <= spec_first_accept(replies) <= replies.len(),
        spec_first_accept(replies) < replies.len() ==> replies[spec_first_accept(replies)]
            == ProviderReply::Accepted,
    decreases replies.len(),
{
    if replies.len() > 0 && replies[0] != ProviderReply::Accepted {
        lemma_first_accept_bounds(replies.skip(1));
    }
}

proof fn lemma_run_writes_from(st: DispatchState, replies: Seq<ProviderReply>)
    ensures
        spec_run_writes(st, replies) == if spec_first_accept(replies) < vstd::math::min(
            replies.len() as int,
            spec_budget(st),
        ) {
            1int
        } else {
            0int
        },
    decreases replies.len(),
{
    lemma_first_accept_bounds(replies);
    if st != DispatchState::Settled && replies.len() > 0 {
        let (st2, a) = spec_dispatch_step(st, replies[0]);
        if replies[0] == ProviderReply::Accepted {
            lemma_settled_writes_nothing(st2, replies.skip(1));
        } else {
            lemma_run_writes_from(st2, replies.skip(1));
        }
    }
}

/// Exactly-once recording, in full: a fresh dispatch writes exactly one
/// record when the first acceptance comes while an attempt is still
/// owed — within the five default attempts or the one fallback attempt
/// — and none otherwise.
pub proof fn lemma_run_characterized(replies: Seq<ProviderReply>)
    ensures
        spec_run_writes(spec_dispatch_start().0, replies) == if spec_first_accept(replies)
            < vstd::math::min(replies.len() as int, MAX_DEFAULT_ATTEMPTS + 1) {
            1int
        } else {
            0int
        },
{
    lemma_run_writes_from(spec_dispatch_start().0, replies);
}

} // verus!

verus! {

/// One accepted submission, one record. When some provider accepts
/// within the owed attempts — the five default tries or the one
/// fallback try — the strategy asks for exactly one store write; and
/// recording that write leaves the chosen partition holding exactly the
/// amount's eight big-endian bytes under the submission's
/// `requested_at` key, every other key untouched. Which partition, and
/// that the other partition stays as it was, are fixed by
/// `dispatch_step`'s and `record_outcome`'s own contracts.
pub proof fn lemma_single_acceptance_single_record(
    replies: Seq<ProviderReply>,
    partition: Map<Seq<u8>, Seq<u8>>,
    key: Seq<u8>,
    bits: u64,
)
    requires
        spec_first_accept(replies) < vstd::math::min(
            replies.len() as int,
            MAX_DEFAULT_ATTEMPTS + 1,
        ),
    ensures
        spec_run_writes(spec_dispatch_start().0, replies) == 1,
        partition.insert(key, crate::bytes::spec_be_bytes(bits)).contains_pair(
            key,
            crate::bytes::spec_be_bytes(bits),
        ),
        crate::bytes::spec_be_to_u64(
            partition.insert(key, crate::bytes::spec_be_bytes(bits))[key],
        ) == bits,
        forall|k: Seq<u8>|
            k != key ==> #[trigger] partition.insert(
                key,
                crate::bytes::spec_be_bytes(bits),
            ).dom().contains(k) == partition.dom().contains(k),
        forall|k: Seq<u8>|
            k != key && partition.dom().contains(k) ==> #[trigger] partition.insert(
                key,
                crate::bytes::spec_be_bytes(bits),
            )[k] == partition[k],
{
    lemma_run_characterized(replies);
    crate::bytes::lemma_be_round_trip(bits);
}

} // verus!
