//! The sled-backed store: writes, inclusive range summaries, purge,
//! reopening, and corrupt values.

use rinha_core::store::{Store, StoreError, SummaryData};

fn temp_store() -> Store {
    let db = sled::Config::new()
        .temporary(true)
        .open()
        .expect("open temporary store");
    let d = db.open_tree("default").expect("open default partition");
    let f = db.open_tree("fallback").expect("open fallback partition");
    Store::new(d, f)
}

fn amounts_of(sd: &SummaryData) -> Vec<f64> {
    sd.amounts.iter().map(|b| f64::from_bits(*b)).collect()
}

#[test]
fn write_then_summary_counts_and_sums() {
    let mut s = temp_store();
    s.write_amount(
        "2024-01-01T00:00:00Z",
        1.0f64.to_bits(),
        rinha_core::types::SledTree::Default,
    )
    .unwrap();
    s.write_amount(
        "2024-06-01T00:00:00Z",
        2.0f64.to_bits(),
        rinha_core::types::SledTree::Default,
    )
    .unwrap();
    s.write_amount(
        "2025-01-01T00:00:00Z",
        4.0f64.to_bits(),
        rinha_core::types::SledTree::Default,
    )
    .unwrap();
    let (d, f) = s
        .read_summary("2024-01-01T00:00:00Z", "2024-12-31T23:59:59Z")
        .unwrap();
    assert_eq!(d.count, 2);
    assert_eq!(amounts_of(&d).iter().sum::<f64>(), 3.0);
    assert_eq!(f.count, 0);
    assert!(f.amounts.is_empty());
}

#[test]
fn partitions_are_separate() {
    let mut s = temp_store();
    s.write_amount("2024-01-01T00:00:00Z", 5.0f64.to_bits(), rinha_core::types::SledTree::Fallback)
        .unwrap();
    let (d, f) = s
        .read_summary("0000-01-01T00:00:00Z", "9999-12-31T23:59:59Z")
        .unwrap();
    assert_eq!(d.count, 0);
    assert_eq!(f.count, 1);
    assert_eq!(amounts_of(&f), vec![5.0]);
}

#[test]
fn summary_is_inclusive_on_both_ends() {
    let mut s = temp_store();
    s.write_amount("2024-01-01T00:00:00Z", 1.0f64.to_bits(), rinha_core::types::SledTree::Default)
        .unwrap();
    s.write_amount("2024-12-31T23:59:59Z", 2.0f64.to_bits(), rinha_core::types::SledTree::Default)
        .unwrap();
    let (d, _) = s
        .read_summary("2024-01-01T00:00:00Z", "2024-12-31T23:59:59Z")
        .unwrap();
    assert_eq!(d.count, 2);
}

#[test]
fn reversed_range_counts_zero() {
    let mut s = temp_store();
    s.write_amount("2024-06-01T00:00:00Z", 1.0f64.to_bits(), rinha_core::types::SledTree::Default)
        .unwrap();
    let (d, f) = s
        .read_summary("2025-01-01T00:00:00Z", "2024-01-01T00:00:00Z")
        .unwrap();
    assert_eq!(d.count, 0);
    assert_eq!(f.count, 0);
}

#[test]
fn purge_then_zero_until_new_writes() {
    let mut s = temp_store();
    s.write_amount("2024-01-01T00:00:00Z", 1.0f64.to_bits(), rinha_core::types::SledTree::Default)
        .unwrap();
    s.write_amount("2024-02-01T00:00:00Z", 2.0f64.to_bits(), rinha_core::types::SledTree::Fallback)
        .unwrap();
    s.purge().unwrap();
    let (d, f) = s
        .read_summary("0000-01-01T00:00:00Z", "9999-12-31T23:59:59Z")
        .unwrap();
    assert_eq!(d.count, 0);
    assert_eq!(f.count, 0);
    s.write_amount("2024-03-01T00:00:00Z", 7.0f64.to_bits(), rinha_core::types::SledTree::Default)
        .unwrap();
    let (d2, _) = s
        .read_summary("0000-01-01T00:00:00Z", "9999-12-31T23:59:59Z")
        .unwrap();
    assert_eq!(d2.count, 1);
    assert_eq!(amounts_of(&d2), vec![7.0]);
}

#[test]
fn increasing_writes_all_counted() {
    let mut s = temp_store();
    let keys = [
        "2024-01-01T00:00:00Z",
        "2024-01-02T00:00:00Z",
        "2024-01-03T00:00:00Z",
        "2024-01-04T00:00:00Z",
        "2024-01-05T00:00:00Z",
    ];
    for (i, k) in keys.iter().enumerate() {
        s.write_amount(k, (i as f64).to_bits(), rinha_core::types::SledTree::Default)
            .unwrap();
    }
    let (d, _) = s.read_summary(keys[0], keys[keys.len() - 1]).unwrap();
    assert_eq!(d.count, keys.len() as u64);
}

#[test]
fn amounts_stored_verbatim() {
    let mut s = temp_store();
    let cases = [0.0f64, 1.0e308, -123.456];
    let keys = [
        "2024-01-01T00:00:00Z",
        "2024-01-02T00:00:00Z",
        "2024-01-03T00:00:00Z",
    ];
    for (k, f) in keys.iter().zip(cases.iter()) {
        s.write_amount(k, f.to_bits(), rinha_core::types::SledTree::Default)
            .unwrap();
    }
    let (d, _) = s
        .read_summary("0000-01-01T00:00:00Z", "9999-12-31T23:59:59Z")
        .unwrap();
    assert_eq!(d.count, 3);
    for (got, want) in amounts_of(&d).iter().zip(cases.iter()) {
        assert_eq!(got.to_bits(), want.to_bits());
    }
}

#[test]
fn overwrite_keeps_last_value() {
    let mut s = temp_store();
    s.write_amount("2024-01-01T00:00:00Z", 1.0f64.to_bits(), rinha_core::types::SledTree::Default)
        .unwrap();
    s.write_amount("2024-01-01T00:00:00Z", 9.0f64.to_bits(), rinha_core::types::SledTree::Default)
        .unwrap();
    let (d, _) = s
        .read_summary("0000-01-01T00:00:00Z", "9999-12-31T23:59:59Z")
        .unwrap();
    assert_eq!(d.count, 1);
    assert_eq!(amounts_of(&d), vec![9.0]);
}

#[test]
fn reopened_store_keeps_data() {
    let path = "/tmp/rinha_core_reopen_db";
    {
        let db = sled::open(path).expect("open store directory");
        let d = db.open_tree("default").unwrap();
        let f = db.open_tree("fallback").unwrap();
        let mut s = Store::new(d, f);
        s.purge().unwrap();
        s.write_amount("2024-01-01T00:00:00Z", 19.9f64.to_bits(), rinha_core::types::SledTree::Default)
            .unwrap();
        s.flush_both();
    }
    let db = sled::open(path).expect("reopen store directory");
    let d = db.open_tree("default").unwrap();
    let f = db.open_tree("fallback").unwrap();
    let s = Store::new(d, f);
    let (ds, _) = s
        .read_summary("0000-01-01T00:00:00Z", "9999-12-31T23:59:59Z")
        .unwrap();
    assert_eq!(ds.count, 1);
    assert_eq!(amounts_of(&ds), vec![19.9]);
}

#[test]
fn corrupt_value_is_an_error_not_a_panic() {
    let db = sled::Config::new().temporary(true).open().unwrap();
    let d = db.open_tree("default").unwrap();
    let f = db.open_tree("fallback").unwrap();
    d.insert(b"2024-01-01T00:00:00Z".as_slice(), b"abc".as_slice())
        .unwrap();
    let s = Store::new(d, f);
    let r = s.read_summary("0000-01-01T00:00:00Z", "9999-12-31T23:59:59Z");
    assert!(matches!(r, Err(StoreError::CorruptValue)));
}

#[test]
fn recorded_outcome_lands_under_requested_at() {
    let mut s = temp_store();
    let sub = rinha_core::types::PaymentServiceDTO {
        correlation_id: "11111111-1111-1111-1111-111111111111".to_string(),
        amount: "19.9".to_string(),
        requested_at: "2025-07-04T12:00:00Z".to_string(),
    };
    rinha_core::dispatch::record_outcome(
        &mut s,
        &sub,
        19.9f64.to_bits(),
        rinha_core::types::SledTree::Fallback,
    )
    .unwrap();
    let (d, f) = s
        .read_summary("2025-07-04T12:00:00Z", "2025-07-04T12:00:00Z")
        .unwrap();
    assert_eq!(d.count, 0);
    assert_eq!(f.count, 1);
    assert_eq!(f.keys[0], b"2025-07-04T12:00:00Z".to_vec());
    assert_eq!(amounts_of(&f), vec![19.9]);
}

#[test]
fn command_loop_handles_each_line_kind() {
    let mut s = temp_store();
    s.write_amount("2023-01-01T00:00:00Z", 1.5f64.to_bits(), rinha_core::types::SledTree::Default)
        .unwrap();
    assert!(matches!(
        rinha_core::ingress::store_step(&mut s, "   "),
        rinha_core::ingress::StoreStep::NoOp
    ));
    assert!(matches!(
        rinha_core::ingress::store_step(&mut s, "{\"Write\":{broken"),
        rinha_core::ingress::StoreStep::Skipped
    ));
    let (kept, _) = s
        .read_summary("0000-01-01T00:00:00Z", "9999-12-31T23:59:59Z")
        .unwrap();
    assert_eq!(kept.count, 1);
    let w = rinha_core::ingress::store_step(
        &mut s,
        "{\"Write\":{\"key\":\"2024-01-01T00:00:00Z\",\"value\":19.9,\"tree\":\"Default\"}}",
    );
    match w {
        rinha_core::ingress::StoreStep::WriteNeedsAmount(w) => {
            let bits = w.value.parse::<f64>().unwrap().to_bits();
            s.write_amount(&w.key, bits, w.tree).unwrap();
        }
        _ => panic!("write frame not recognized"),
    }
    let r = rinha_core::ingress::store_step(
        &mut s,
        "{\"Read\":{\"from\":\"0000-01-01T00:00:00Z\",\"to\":\"9999-12-31T23:59:59Z\"}}",
    );
    match r {
        rinha_core::ingress::StoreStep::DidRead(_, (d, _)) => {
            assert_eq!(d.count, 2);
            assert_eq!(amounts_of(&d), vec![1.5, 19.9]);
        }
        _ => panic!("read frame not recognized"),
    }
    assert!(matches!(
        rinha_core::ingress::store_step(&mut s, "{\"Purge\":null}"),
        rinha_core::ingress::StoreStep::DidPurge
    ));
    let (d2, f2) = s
        .read_summary("0000-01-01T00:00:00Z", "9999-12-31T23:59:59Z")
        .unwrap();
    assert_eq!(d2.count, 0);
    assert_eq!(f2.count, 0);
}
