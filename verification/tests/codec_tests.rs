//! The line protocol's frames: exact encodings, round trips, and
//! rejection of malformed input.

use rinha_core::codec::{
    decode_payment, decode_store_command, decode_submission, encode_global_summary,
    encode_payment, encode_store_command, encode_submission,
};
use rinha_core::types::{
    DBRead, DBWrite, GlobalSummary, PaymentDTO, PaymentServiceDTO, SledTree, StoreCommand, Summary,
};

const CID: &str = "11111111-1111-1111-1111-111111111111";

fn payment(amount: &str) -> PaymentDTO {
    PaymentDTO { correlation_id: CID.to_string(), amount: amount.to_string() }
}

#[test]
fn payment_encodes_exactly() {
    let enc = encode_payment(&payment("19.9"));
    assert_eq!(
        enc,
        "{\"correlationId\":\"11111111-1111-1111-1111-111111111111\",\"amount\":19.9}"
    );
}

#[test]
fn payment_round_trips() {
    let p = payment("19.9");
    let enc = encode_payment(&p);
    let q = decode_payment(&enc).expect("canonical frame must parse");
    assert_eq!(q.correlation_id, p.correlation_id);
    assert_eq!(q.amount, p.amount);
}

#[test]
fn submission_round_trips_on_all_fields() {
    let s = PaymentServiceDTO {
        correlation_id: CID.to_string(),
        amount: "-0.5".to_string(),
        requested_at: "2025-07-04T12:00:00.000000000+00:00".to_string(),
    };
    let enc = encode_submission(&s);
    let t = decode_submission(&enc).expect("canonical frame must parse");
    assert_eq!(t.correlation_id, s.correlation_id);
    assert_eq!(t.amount, s.amount);
    assert_eq!(t.requested_at, s.requested_at);
}

#[test]
fn submission_matches_serde_view() {
    let s = PaymentServiceDTO {
        correlation_id: CID.to_string(),
        amount: "19.9".to_string(),
        requested_at: "2025-07-04T12:00:00Z".to_string(),
    };
    let enc = encode_submission(&s);
    let v: serde_json::Value = serde_json::from_str(&enc).expect("frame is valid JSON");
    assert_eq!(v["correlationId"].as_str().unwrap(), CID);
    assert_eq!(v["amount"].as_f64().unwrap(), 19.9);
    assert_eq!(v["requestedAt"].as_str().unwrap(), "2025-07-04T12:00:00Z");
}

#[test]
fn write_command_round_trips() {
    let cmd = StoreCommand::Write(DBWrite {
        key: "2025-07-04T12:00:00Z".to_string(),
        value: "19.9".to_string(),
        tree: SledTree::Default,
    });
    let enc = encode_store_command(&cmd);
    assert_eq!(
        enc,
        "{\"Write\":{\"key\":\"2025-07-04T12:00:00Z\",\"value\":19.9,\"tree\":\"Default\"}}"
    );
    match decode_store_command(&enc).expect("canonical envelope must parse") {
        StoreCommand::Write(w) => {
            assert_eq!(w.key, "2025-07-04T12:00:00Z");
            assert_eq!(w.value, "19.9");
            assert!(matches!(w.tree, SledTree::Default));
        }
        _ => panic!("wrong variant"),
    }
}

#[test]
fn fallback_write_round_trips() {
    let cmd = StoreCommand::Write(DBWrite {
        key: "2025-07-04T12:00:01Z".to_string(),
        value: "5.0".to_string(),
        tree: SledTree::Fallback,
    });
    let enc = encode_store_command(&cmd);
    match decode_store_command(&enc).expect("canonical envelope must parse") {
        StoreCommand::Write(w) => assert!(matches!(w.tree, SledTree::Fallback)),
        _ => panic!("wrong variant"),
    }
}

#[test]
fn read_command_round_trips() {
    let cmd = StoreCommand::Read(DBRead {
        from: "0000-01-01T00:00:00Z".to_string(),
        to: "9999-12-31T23:59:59Z".to_string(),
    });
    let enc = encode_store_command(&cmd);
    assert_eq!(
        enc,
        "{\"Read\":{\"from\":\"0000-01-01T00:00:00Z\",\"to\":\"9999-12-31T23:59:59Z\"}}"
    );
    match decode_store_command(&enc).expect("canonical envelope must parse") {
        StoreCommand::Read(r) => {
            assert_eq!(r.from, "0000-01-01T00:00:00Z");
            assert_eq!(r.to, "9999-12-31T23:59:59Z");
        }
        _ => panic!("wrong variant"),
    }
}

#[test]
fn purge_command_round_trips() {
    let enc = encode_store_command(&StoreCommand::Purge);
    assert_eq!(enc, "{\"Purge\":null}");
    assert!(matches!(
        decode_store_command(&enc),
        Some(StoreCommand::Purge)
    ));
}

#[test]
fn malformed_payment_lines_rejected() {
    assert!(decode_payment("").is_none());
    assert!(decode_payment("not json").is_none());
    assert!(decode_payment("{\"correlationId\":\"xyz\",\"amount\":1}").is_none());
    assert!(decode_payment("{\"correlationId\":\"11111111-1111-1111-1111-111111111111\",\"amount\":}").is_none());
    assert!(decode_payment("{\"correlationId\":\"11111111-1111-1111-1111-111111111111\",\"amount\":01}").is_none());
    assert!(decode_payment("{\"correlationId\":\"11111111-1111-1111-1111-111111111111\",\"amount\":1} ").is_none());
}

#[test]
fn number_grammar_matches_json() {
    for good in ["0", "-0", "19.9", "-0.5", "1e9", "2E-3", "0.25e+10", "1000000"] {
        let line = format!(
            "{{\"correlationId\":\"11111111-1111-1111-1111-111111111111\",\"amount\":{}}}",
            good
        );
        assert!(decode_payment(&line).is_some(), "expected {} accepted", good);
        assert!(
            serde_json::from_str::<serde_json::Value>(good).is_ok(),
            "serde disagrees on {}",
            good
        );
    }
    for bad in ["", "+1", ".5", "5.", "01", "1e", "--1", "1.2.3", "e9"] {
        let line = format!(
            "{{\"correlationId\":\"11111111-1111-1111-1111-111111111111\",\"amount\":{}}}",
            bad
        );
        assert!(decode_payment(&line).is_none(), "expected {} rejected", bad);
        assert!(
            serde_json::from_str::<serde_json::Value>(bad).is_err(),
            "serde disagrees on {}",
            bad
        );
    }
}

#[test]
fn malformed_commands_rejected() {
    assert!(decode_store_command("").is_none());
    assert!(decode_store_command("{\"Purge\":null} ").is_none());
    assert!(decode_store_command("{\"Write\":{\"key\":\"k\"}}").is_none());
    assert!(decode_store_command("{\"Write\":{\"key\":\"k\",\"value\":1,\"tree\":\"Other\"}}").is_none());
    assert!(decode_store_command("{\"Delete\":null}").is_none());
}

#[test]
fn global_summary_encodes_exactly() {
    let g = GlobalSummary {
        default: Summary { total_requests: 2, total_amount: "3.0".to_string() },
        fallback: Summary { total_requests: 0, total_amount: "0.0".to_string() },
    };
    let enc = encode_global_summary(&g);
    assert_eq!(
        enc,
        "{\"default\":{\"totalRequests\":2,\"totalAmount\":3.0},\"fallback\":{\"totalRequests\":0,\"totalAmount\":0.0}}"
    );
    let v: serde_json::Value = serde_json::from_str(&enc).expect("valid JSON");
    assert_eq!(v["default"]["totalRequests"].as_u64().unwrap(), 2);
    assert_eq!(v["fallback"]["totalAmount"].as_f64().unwrap(), 0.0);
}

#[test]
fn counter_digits_encode_exactly() {
    let g = GlobalSummary {
        default: Summary { total_requests: 1234567890, total_amount: "0.0".to_string() },
        fallback: Summary { total_requests: 0, total_amount: "0.0".to_string() },
    };
    let enc = encode_global_summary(&g);
    assert!(enc.contains("\"totalRequests\":1234567890,"));
}
