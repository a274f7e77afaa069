//! The shared data model: payment requests and submissions, store commands,
//! and range summaries.
//!
//! Amounts are carried as JSON number tokens (their wire text); the store
//! turns them into 64-bit values elsewhere. Identifiers and timestamps are
//! plain printable ASCII, which is what keeps the line protocol one value
//! per line.

use vstd::prelude::*;
use vstd::string::*;

use crate::text::{is_number_token, is_plain, is_uuid_token};

verus! {

/// A payment as accepted at the gateway: a hyphenated UUID and an amount.
#[derive(Debug, Clone)]
pub struct PaymentDTO {
    pub correlation_id: String,
    pub amount: String,
}

impl PaymentDTO {
    /// The identifier has the UUID shape and the amount is a number token.
    pub open spec fn wf(&self) -> bool {
        is_uuid_token(self.correlation_id@) && is_number_token(self.amount@)
    }
}

/// A payment as submitted to a provider: the request plus the timestamp
/// fixed at first dispatch, which doubles as the store key.
#[derive(Debug, Clone)]
pub struct PaymentServiceDTO {
    pub correlation_id: String,
    pub amount: String,
    pub requested_at: String,
}

impl PaymentServiceDTO {
    pub open spec fn wf(&self) -> bool {
        is_uuid_token(self.correlation_id@) && is_number_token(self.amount@) && is_plain(
            self.requested_at@,
        )
    }

    /// Fixes `requested_at` for a payment at the moment of first dispatch.
    pub fn new(payment: PaymentDTO, requested_at: String) -> (r: PaymentServiceDTO)
        ensures
            r.correlation_id@ == payment.correlation_id@,
            r.amount@ == payment.amount@,
            r.requested_at@ == requested_at@,
    {
        PaymentServiceDTO { correlation_id: payment.correlation_id, amount: payment.amount, requested_at }
    }
}

/// The two store partitions, named after the provider whose success
/// produced the record.
#[derive(Debug, Clone, Copy, PartialEq, Eq, Structural)]
pub enum SledTree {
    Fallback,
    Default,
}

/// A write of one outcome: key is the submission's `requested_at`, value
/// its amount.
#[derive(Debug, Clone)]
pub struct DBWrite {
    pub key: String,
    pub value: String,
    pub tree: SledTree,
}

impl DBWrite {
    pub open spec fn wf(&self) -> bool {
        is_plain(self.key@) && is_number_token(self.value@)
    }
}

/// An inclusive range query over both partitions.
#[derive(Debug, Clone)]
pub struct DBRead {
    pub from: String,
    pub to: String,
}

impl DBRead {
    pub open spec fn wf(&self) -> bool {
        is_plain(self.from@) && is_plain(self.to@)
    }
}

/// One frame of the store protocol.
#[derive(Debug, Clone)]
pub enum StoreCommand {
    Write(DBWrite),
    Read(DBRead),
    Purge,
}

impl StoreCommand {
    pub open spec fn wf(&self) -> bool {
        match self {
            StoreCommand::Write(w) => w.wf(),
            StoreCommand::Read(r) => r.wf(),
            StoreCommand::Purge => true,
        }
    }
}

/// Totals of one partition over a key range. The amount total is carried
/// as a number token computed by the caller from the stored values.
#[derive(Debug, Clone)]
pub struct Summary {
    pub total_requests: u64,
    pub total_amount: String,
}

impl Summary {
    pub open spec fn wf(&self) -> bool {
        is_number_token(self.total_amount@)
    }

    /// An empty summary: no requests, amount zero.
    pub fn new() -> (r: Summary)
        ensures
            r.total_requests == 0,
            r.total_amount@ == "0.0"@,
            r.wf(),
    {
        let s = Summary { total_requests: 0, total_amount: String::from_str("0.0") };
        proof {
            reveal_strlit("0.0");
            crate::text::lemma_zero_amount_token();
        }
        s
    }
}

/// The response of a range query: one summary per partition.
#[derive(Debug, Clone)]
pub struct GlobalSummary {
    pub default: Summary,
    pub fallback: Summary,
}

impl Default for GlobalSummary {
    /// Both partitions empty.
    fn default() -> (r: GlobalSummary)
        ensures
            r.default.total_requests == 0,
            r.fallback.total_requests == 0,
            r.default.total_amount@ == "0.0"@,
            r.fallback.total_amount@ == "0.0"@,
    {
        GlobalSummary { default: Summary::new(), fallback: Summary::new() }
    }
}

} // verus!
