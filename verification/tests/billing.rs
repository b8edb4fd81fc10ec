use serverless::billing_handler::{
    build_claim, export_bill, finish_export, get_last_bill_claim, inspect_bill, BillingLedger,
    ClaimStore, ExportError, LatestError, SigningData,
};
use serverless::billing_job::{billing_scheduler, settled, SettleStep};
use serverless::encoding::HexError;
use serverless::model::FunctionId;
use serverless::signing::{sign_data, SigningError};

const KEY: [u8; 32] = [7u8; 32];

fn name(n: u8) -> String {
    format!("0x{}", hex::encode([n; 32]))
}

fn id(n: u8) -> FunctionId {
    FunctionId::from_hex(&name(n)).unwrap()
}

fn three() -> BillingLedger {
    let mut ledger = BillingLedger::new();
    assert!(ledger.record(&id(1), 10));
    assert!(ledger.record(&id(2), 20));
    assert!(ledger.record(&id(3), 30));
    ledger
}

fn zero_nonce() -> String {
    "00".repeat(32)
}

#[test]
fn billing_export_is_idempotent() {
    let mut ledger = three();
    let mut claims = ClaimStore::new();
    let data = SigningData { nonce: zero_nonce(), tx_hashes: vec![name(1), name(2), name(3)] };
    let claim = export_bill(&mut ledger, &mut claims, &data, &KEY).unwrap();
    let payload = hex::decode(&claim.bill_claim_data).unwrap();
    assert_eq!(payload.len(), 32 + 3 * 48);
    assert_eq!(claim.signature.len(), 130);
    assert!(inspect_bill(&ledger).is_empty());
    let latest = get_last_bill_claim(&mut claims, &KEY).unwrap();
    assert_eq!(latest.bill_claim_data, claim.bill_claim_data);
    assert_eq!(latest.signature, claim.signature);
}

#[test]
fn payload_is_nonce_then_records_in_request_order() {
    let mut ledger = three();
    let nonce: Vec<u8> = (0u8..32).collect();
    let data = SigningData {
        nonce: hex::encode(&nonce),
        tx_hashes: vec![name(3), name(9), name(1), name(3), "0xabc".to_string()],
    };
    let payload = build_claim(&mut ledger, &data).unwrap();
    let mut expected = nonce.clone();
    expected.extend_from_slice(&[3u8; 32]);
    expected.extend_from_slice(&30u128.to_be_bytes());
    expected.extend_from_slice(&[1u8; 32]);
    expected.extend_from_slice(&10u128.to_be_bytes());
    assert_eq!(payload, expected);
    assert_eq!(inspect_bill(&ledger), vec![(name(2), 20u128)]);
}

#[test]
fn claim_with_large_total_uses_all_sixteen_bytes() {
    let mut ledger = BillingLedger::new();
    assert!(ledger.record(&id(5), 0x0102030405060708090a0b0c0d0e0f10));
    let data = SigningData { nonce: zero_nonce(), tx_hashes: vec![name(5)] };
    let payload = build_claim(&mut ledger, &data).unwrap();
    assert_eq!(&payload[64..], &[1u8, 2, 3, 4, 5, 6, 7, 8, 9, 10, 11, 12, 13, 14, 15, 16]);
}

#[test]
fn export_refuses_bad_requests() {
    let mut claims = ClaimStore::new();
    let mut ledger = three();
    let empty_nonce = SigningData { nonce: String::new(), tx_hashes: vec![name(1)] };
    let e = export_bill(&mut ledger, &mut claims, &empty_nonce, &KEY).unwrap_err();
    assert_eq!(e, ExportError::EmptyNonce);
    assert_eq!(e.status(), 400);
    assert_eq!(e.message(), b"Nonce must not be empty!");

    let empty_list = SigningData { nonce: zero_nonce(), tx_hashes: Vec::new() };
    let e = export_bill(&mut ledger, &mut claims, &empty_list, &KEY).unwrap_err();
    assert_eq!(e, ExportError::EmptyList);
    assert_eq!(e.message(), b"List of transaction hashes must not be empty!");

    let short = SigningData { nonce: "00".repeat(31), tx_hashes: vec![name(1)] };
    let e = export_bill(&mut ledger, &mut claims, &short, &KEY).unwrap_err();
    assert_eq!(e, ExportError::BadNonce(HexError::InvalidStringLength));
    assert_eq!(e.message(), b"Failed to decode nonce into 32 bytes: Invalid string length");

    let odd = SigningData { nonce: "0".repeat(63), tx_hashes: vec![name(1)] };
    let e = export_bill(&mut ledger, &mut claims, &odd, &KEY).unwrap_err();
    assert_eq!(e, ExportError::BadNonce(HexError::OddLength));
    assert_eq!(e.message(), b"Failed to decode nonce into 32 bytes: Odd number of digits");

    let not_hex = SigningData { nonce: format!("g{}", "0".repeat(63)), tx_hashes: vec![name(1)] };
    let e = export_bill(&mut ledger, &mut claims, &not_hex, &KEY).unwrap_err();
    assert_eq!(e, ExportError::BadNonce(HexError::InvalidHexCharacter { c: 'g', index: 0 }));
    assert_eq!(
        e.message(),
        b"Failed to decode nonce into 32 bytes: Invalid character 'g' at position 0"
    );

    let unknown = SigningData { nonce: zero_nonce(), tx_hashes: vec![name(8)] };
    let e = export_bill(&mut ledger, &mut claims, &unknown, &KEY).unwrap_err();
    assert_eq!(e, ExportError::NothingToClaim);
    assert_eq!(e.status(), 400);
    assert_eq!(e.message(), b"no billed functions in claim");

    assert_eq!(inspect_bill(&ledger).len(), 3);
    assert!(claims.last.is_none());
}

#[test]
fn uppercase_name_names_no_function() {
    let mut ledger = three();
    let data = SigningData {
        nonce: zero_nonce(),
        tx_hashes: vec![format!("0x{}", hex::encode_upper([0xabu8; 32])), name(1).to_uppercase()],
    };
    assert!(ledger.record(&id(0xab), 1));
    assert_eq!(build_claim(&mut ledger, &data).unwrap_err(), ExportError::NothingToClaim);
    assert_eq!(inspect_bill(&ledger).len(), 4);
}

#[test]
fn latest_signs_what_export_could_not() {
    let mut ledger = three();
    let mut claims = ClaimStore::new();
    let data = SigningData { nonce: zero_nonce(), tx_hashes: vec![name(2)] };
    // An empty key signs nothing.
    let e = export_bill(&mut ledger, &mut claims, &data, &[]).unwrap_err();
    assert_eq!(e, ExportError::Signing(SigningError));
    assert_eq!(e.status(), 500);
    assert_eq!(e.message(), b"Failed to sign billing data: signature error");
    // The billed total is gone and the payload is kept.
    assert_eq!(inspect_bill(&ledger), vec![(name(1), 10u128), (name(3), 30u128)]);
    let kept = claims.last.as_ref().unwrap().payload.clone();
    assert!(claims.last.as_ref().unwrap().signature.is_none());
    let e = get_last_bill_claim(&mut claims, &[]).unwrap_err();
    assert_eq!(e, LatestError::Signing(SigningError));
    assert_eq!(e.status(), 500);
    let latest = get_last_bill_claim(&mut claims, &KEY).unwrap();
    assert_eq!(latest.bill_claim_data, hex::encode(&kept));
    assert_eq!(latest.signature, sign_data(&kept, &KEY).unwrap());
    assert_eq!(claims.last.as_ref().unwrap().signature.as_ref(), Some(&latest.signature));
}

#[test]
fn latest_without_a_claim_is_refused() {
    let mut claims = ClaimStore::new();
    let e = get_last_bill_claim(&mut claims, &KEY).unwrap_err();
    assert_eq!(e, LatestError::NoClaim);
    assert_eq!(e.status(), 400);
    assert_eq!(e.message(), b"No bill claimed yet!");
}

#[test]
fn finish_export_keeps_payload_either_way() {
    let mut claims = ClaimStore::new();
    let claim = finish_export(&mut claims, vec![0xde, 0xad], Ok("beef".to_string())).unwrap();
    assert_eq!(claim.bill_claim_data, "dead");
    assert_eq!(claim.signature, "beef");
    let e = finish_export(&mut claims, vec![1, 2, 3], Err(SigningError)).unwrap_err();
    assert_eq!(e, ExportError::Signing(SigningError));
    assert_eq!(claims.last.as_ref().unwrap().payload, vec![1, 2, 3]);
    assert!(claims.last.as_ref().unwrap().signature.is_none());
}

#[test]
fn record_adds_up_and_stops_at_the_largest_number() {
    let mut ledger = BillingLedger::new();
    assert!(ledger.record(&id(1), u128::MAX - 5));
    assert!(ledger.record(&id(1), 5));
    assert!(!ledger.record(&id(1), 1));
    assert_eq!(inspect_bill(&ledger), vec![(name(1), u128::MAX)]);
    assert_eq!(ledger.remove(&id(1)), Some(u128::MAX));
    assert_eq!(ledger.remove(&id(1)), None);
    assert_eq!(ledger.len(), 0);
}

#[test]
fn settlement_takes_everything_and_clears_on_confirmation() {
    let mut ledger = three();
    let call = match billing_scheduler(&ledger, &KEY) {
        SettleStep::Submit(call) => call,
        other => panic!("nothing to submit: {:?}", other),
    };
    assert_eq!(call.tx_hashes, vec![vec![1u8; 32], vec![2u8; 32], vec![3u8; 32]]);
    assert_eq!(call.amounts, vec![10u128, 20, 30]);
    let mut signed = Vec::new();
    for (n, cost) in [(1u8, 10u128), (2, 20), (3, 30)] {
        signed.extend_from_slice(&[n; 32]);
        signed.extend_from_slice(&cost.to_be_bytes());
    }
    assert_eq!(call.signature, sign_data(&signed, &KEY).unwrap());
    assert_eq!(call.signature.len(), 130);
    settled(&mut ledger, &call, false);
    assert_eq!(ledger.len(), 3);
    settled(&mut ledger, &call, true);
    assert_eq!(ledger.len(), 0);
    assert!(matches!(billing_scheduler(&ledger, &KEY), SettleStep::Idle));
}

#[test]
fn settlement_keeps_what_was_recorded_since_the_call() {
    let mut ledger = three();
    let call = match billing_scheduler(&ledger, &KEY) {
        SettleStep::Submit(call) => call,
        other => panic!("nothing to submit: {:?}", other),
    };
    assert!(ledger.record(&id(2), 5));
    assert!(ledger.record(&id(9), 7));
    assert_eq!(ledger.remove(&id(3)), Some(30));
    settled(&mut ledger, &call, true);
    let mut left = inspect_bill(&ledger);
    left.sort();
    assert_eq!(left, vec![(name(2), 5u128), (name(9), 7u128)]);
    ledger.deduct(&id(2), 5);
    ledger.deduct(&id(9), 1);
    ledger.deduct(&id(4), 1);
    assert_eq!(inspect_bill(&ledger), vec![(name(9), 6u128)]);
}

#[test]
fn settlement_without_a_key_is_not_submitted() {
    let ledger = three();
    assert!(matches!(billing_scheduler(&ledger, &[0u8; 32]), SettleStep::Unsigned(SigningError)));
}
