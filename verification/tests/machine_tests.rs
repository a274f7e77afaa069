//! The dispatcher strategy, the ingress discipline, the gateway's query
//! handling, the pool ledger and the bucket store.

use rinha_core::dispatch::{
    dispatch_start, dispatch_step, DispatchAction, DispatchState, ProviderReply,
    MAX_DEFAULT_ATTEMPTS, RETRY_BACKOFF_MS,
};
use rinha_core::gateway::{pick_backend, resolve_summary_query, split_amp};
use rinha_core::ingress::{
    classify_payment_line, classify_store_line, conn_step, ConnEvent, ConnState, PaymentLine,
    StoreLine,
};
use rinha_core::pool::ConnectionPool;
use rinha_core::summary_store::{minute_bucket, ProviderName, SummaryStore};
use rinha_core::types::SledTree;

#[test]
fn happy_path_records_to_default() {
    let (st, a) = dispatch_start();
    assert!(matches!(a, DispatchAction::PostDefault { backoff_ms: 0 }));
    let (st2, a2) = dispatch_step(st, ProviderReply::Accepted);
    assert!(matches!(
        a2,
        DispatchAction::RecordOutcome { partition: SledTree::Default }
    ));
    assert!(matches!(st2, DispatchState::Settled));
}

#[test]
fn five_refusals_then_fallback_success() {
    let (mut st, mut a) = dispatch_start();
    let mut default_posts = 1u64;
    loop {
        match a {
            DispatchAction::PostDefault { backoff_ms } => {
                if default_posts > 1 {
                    assert_eq!(backoff_ms, RETRY_BACKOFF_MS);
                }
                let (s2, a2) = dispatch_step(st, ProviderReply::Refused);
                st = s2;
                a = a2;
                if matches!(a, DispatchAction::PostDefault { .. }) {
                    default_posts += 1;
                }
            }
            DispatchAction::PostFallback => break,
            _ => panic!("unexpected action while default is down"),
        }
    }
    assert_eq!(default_posts, MAX_DEFAULT_ATTEMPTS);
    let (st2, a2) = dispatch_step(st, ProviderReply::Accepted);
    assert!(matches!(
        a2,
        DispatchAction::RecordOutcome { partition: SledTree::Fallback }
    ));
    assert!(matches!(st2, DispatchState::Settled));
}

#[test]
fn both_down_drops_without_write() {
    let (mut st, _) = dispatch_start();
    let mut writes = 0;
    for _ in 0..(MAX_DEFAULT_ATTEMPTS + 1) {
        let (s2, a2) = dispatch_step(st, ProviderReply::Refused);
        st = s2;
        if matches!(a2, DispatchAction::RecordOutcome { .. }) {
            writes += 1;
        }
        if matches!(st, DispatchState::Settled) {
            assert!(matches!(a2, DispatchAction::DropPayment));
            break;
        }
    }
    assert_eq!(writes, 0);
    assert!(matches!(st, DispatchState::Settled));
}

#[test]
fn blank_lines_are_ignored() {
    assert!(matches!(classify_payment_line(""), PaymentLine::Ignore));
    assert!(matches!(classify_payment_line("   "), PaymentLine::Ignore));
    assert!(matches!(classify_payment_line("\t\r"), PaymentLine::Ignore));
    assert!(matches!(classify_store_line(""), StoreLine::Ignore));
    assert!(matches!(classify_store_line("  \t"), StoreLine::Ignore));
}

#[test]
fn malformed_line_then_good_line_still_processed() {
    assert!(matches!(classify_payment_line("garbage"), PaymentLine::Reject));
    let st = conn_step(ConnState::Open, ConnEvent::LineArrived);
    assert!(matches!(st, ConnState::Open));
    let good = "{\"correlationId\":\"11111111-1111-1111-1111-111111111111\",\"amount\":19.9}";
    assert!(matches!(classify_payment_line(good), PaymentLine::Accept(_)));
    assert!(matches!(classify_store_line("{\"Purge\":null}"), StoreLine::Run(_)));
    assert!(matches!(
        conn_step(ConnState::Open, ConnEvent::EndOfStream),
        ConnState::Closed
    ));
    assert!(matches!(
        conn_step(ConnState::Open, ConnEvent::TransportError),
        ConnState::Closed
    ));
}

#[test]
fn summary_query_defaults_cover_everything() {
    let r = resolve_summary_query("");
    assert_eq!(r.from, "0000-01-01T00:00:00Z");
    assert_eq!(r.to, "9999-12-31T23:59:59Z");
}

#[test]
fn summary_query_reads_both_bounds() {
    let r = resolve_summary_query("from=2024-01-01T00:00:00Z&to=2024-12-31T23:59:59Z");
    assert_eq!(r.from, "2024-01-01T00:00:00Z");
    assert_eq!(r.to, "2024-12-31T23:59:59Z");
}

#[test]
fn summary_query_fills_missing_bound() {
    let r = resolve_summary_query("to=2024-12-31T23:59:59Z");
    assert_eq!(r.from, "0000-01-01T00:00:00Z");
    assert_eq!(r.to, "2024-12-31T23:59:59Z");
    let r2 = resolve_summary_query("from=2024-01-01T00:00:00Z&other=1");
    assert_eq!(r2.from, "2024-01-01T00:00:00Z");
    assert_eq!(r2.to, "9999-12-31T23:59:59Z");
}

#[test]
fn split_preserves_segments() {
    let parts = split_amp("a=1&b=2&c");
    assert_eq!(parts, vec!["a=1", "b=2", "c"]);
    assert_eq!(split_amp(""), vec![""]);
}

#[test]
fn round_robin_spreads_evenly() {
    let mut counts = [0u64; 2];
    for c in 0..1000u64 {
        counts[pick_backend(c, 2) as usize] += 1;
    }
    assert_eq!(counts[0], 500);
    assert_eq!(counts[1], 500);
}

#[test]
fn pool_populate_fails_only_when_nothing_dialed() {
    let mut p = ConnectionPool::new_lazy(3);
    assert!(p.populate(&vec![false, false, false]).is_err());
    let mut q = ConnectionPool::new_lazy(3);
    assert_eq!(q.populate(&vec![false, true, true]).unwrap(), 2);
    assert!(!q.is_empty());
    let mut r = ConnectionPool::new_lazy(0);
    assert_eq!(r.populate(&vec![]).unwrap(), 0);
}

#[test]
fn pool_populate_keeps_every_successful_dial_in_order() {
    let mut p = ConnectionPool::new_lazy(5);
    assert_eq!(p.populate(&vec![true, false, true, true, false]).unwrap(), 3);
    assert_eq!(p.try_get_connection(), Some(3));
    assert_eq!(p.try_get_connection(), Some(2));
    assert_eq!(p.try_get_connection(), Some(0));
    assert!(p.try_get_connection().is_none());
}

#[test]
fn pool_acquire_and_return_respect_cap() {
    let mut p = ConnectionPool::new_lazy(2);
    assert!(p.try_get_connection().is_none());
    assert!(p.return_connection(7));
    assert!(p.return_connection(8));
    assert!(!p.return_connection(9));
    assert_eq!(p.try_get_connection(), Some(8));
    assert_eq!(p.try_get_connection(), Some(7));
    assert!(p.try_get_connection().is_none());
    assert!(p.return_connection(7));
    p.close();
    assert!(p.is_empty());
    assert_eq!(p.pool_size(), 2);
}

#[test]
fn minute_bucket_truncates_to_minute() {
    assert_eq!(minute_bucket(0), 0);
    assert_eq!(minute_bucket(59), 0);
    assert_eq!(minute_bucket(60), 60);
    assert_eq!(minute_bucket(1_700_000_123), 1_700_000_100);
}

#[test]
fn bucket_store_counts_over_ranges() {
    let mut s = SummaryStore::new();
    s.insert(ProviderName::Default, 60, 1.0f64.to_bits());
    s.insert(ProviderName::Default, 61, 2.0f64.to_bits());
    s.insert(ProviderName::Default, 180, 4.0f64.to_bits());
    s.insert(ProviderName::Fallback, 60, 8.0f64.to_bits());
    let (d, f) = s.query(60, 120);
    assert_eq!(d.total_requests, 2);
    let sum: f64 = d.amounts.iter().map(|b| f64::from_bits(*b)).sum();
    assert_eq!(sum, 3.0);
    assert_eq!(f.total_requests, 1);
    let (d_all, _) = s.query(0, 10_000);
    assert_eq!(d_all.total_requests, 3);
    let (d_none, _) = s.query(1000, 2000);
    assert_eq!(d_none.total_requests, 0);
}

#[test]
fn submission_fixes_a_usable_timestamp() {
    let p = rinha_core::types::PaymentDTO {
        correlation_id: "11111111-1111-1111-1111-111111111111".to_string(),
        amount: "1.0".to_string(),
    };
    let sub = rinha_core::dispatch::make_submission(p);
    assert!(!sub.requested_at.is_empty());
    let enc = rinha_core::codec::encode_submission(&sub);
    let back = rinha_core::codec::decode_submission(&enc).expect("clock text must frame cleanly");
    assert_eq!(back.requested_at, sub.requested_at);
    assert_eq!(back.correlation_id, sub.correlation_id);
}
