use stellar_micropay::contract::{Address, StellarMicroPay};

fn addr(name: &str) -> Address {
    Address::new(name.as_bytes().to_vec())
}

fn setup_contract() -> (StellarMicroPay, Address, Address) {
    (StellarMicroPay::new(), addr("GPAYER"), addr("GRECIPIENT"))
}

#[test]
fn test_open_stream() {
    let (mut c, payer, recipient) = setup_contract();
    let stream_id = c.open_stream(payer.clone(), recipient.clone(), 1000, 1000000, 0).unwrap();
    assert_eq!(stream_id, 1);
    let stream = c.get_stream(stream_id).unwrap();
    assert_eq!(stream.payer, payer);
    assert_eq!(stream.recipient, recipient);
    assert_eq!(stream.rate_per_ledger, 1000);
    assert_eq!(stream.deposited, 1000000);
    assert_eq!(stream.claimed, 0);
}

#[test]
fn test_claim_stream_basic() {
    let (mut c, payer, recipient) = setup_contract();
    let stream_id = c.open_stream(payer.clone(), recipient.clone(), 1000, 1000000, 0).unwrap();
    let claimed = c.claim_stream(stream_id, &recipient, 10, 0).unwrap();
    assert_eq!(claimed, 10000);
    let stream = c.get_stream(stream_id).unwrap();
    assert_eq!(stream.claimed, 10000);
}

#[test]
fn test_claim_stream_multiple_times() {
    let (mut c, payer, recipient) = setup_contract();
    let stream_id = c.open_stream(payer.clone(), recipient.clone(), 1000, 1000000, 0).unwrap();
    let first_claim = c.claim_stream(stream_id, &recipient, 5, 0).unwrap();
    assert_eq!(first_claim, 5000);
    let second_claim = c.claim_stream(stream_id, &recipient, 8, 0).unwrap();
    assert_eq!(second_claim, 3000);
    let stream = c.get_stream(stream_id).unwrap();
    assert_eq!(stream.claimed, 8000);
}

#[test]
fn test_claim_stream_exceeds_deposit() {
    let (mut c, payer, recipient) = setup_contract();
    let stream_id = c.open_stream(payer.clone(), recipient.clone(), 1000, 5000, 0).unwrap();
    let claimed = c.claim_stream(stream_id, &recipient, 10, 0).unwrap();
    assert_eq!(claimed, 5000);
}

#[test]
fn test_top_up_stream() {
    let (mut c, payer, recipient) = setup_contract();
    let stream_id = c.open_stream(payer.clone(), recipient.clone(), 1000, 1000000, 0).unwrap();
    c.top_up_stream(stream_id, &payer, 500000).unwrap();
    let stream = c.get_stream(stream_id).unwrap();
    assert_eq!(stream.deposited, 1500000);
}

#[test]
fn test_close_stream_with_refund() {
    let (mut c, payer, recipient) = setup_contract();
    let stream_id = c.open_stream(payer.clone(), recipient.clone(), 1000, 1000000, 0).unwrap();
    let refund = c.close_stream(stream_id, &payer, 5, 0).unwrap();
    assert_eq!(refund, 995000);
}

#[test]
fn test_close_stream_after_claims() {
    let (mut c, payer, recipient) = setup_contract();
    let stream_id = c.open_stream(payer.clone(), recipient.clone(), 1000, 1000000, 0).unwrap();
    c.claim_stream(stream_id, &recipient, 5, 0).unwrap();
    let refund = c.close_stream(stream_id, &payer, 8, 0).unwrap();
    assert_eq!(refund, 992000);
}

#[test]
fn test_get_claimable() {
    let (mut c, payer, recipient) = setup_contract();
    let stream_id = c.open_stream(payer.clone(), recipient.clone(), 1000, 1000000, 0).unwrap();
    let claimable = c.get_claimable(stream_id, 5).unwrap();
    assert_eq!(claimable, 5000);
}

#[test]
#[should_panic(expected = "Stream not found")]
fn test_claim_nonexistent_stream() {
    let (mut c, _payer, recipient) = setup_contract();
    if let Err(e) = c.claim_stream(999, &recipient, 0, 0) {
        panic!("{}", e.message());
    }
}

#[test]
#[should_panic(expected = "Only the recipient can claim from this stream")]
fn test_unauthorized_claim() {
    let (mut c, payer, recipient) = setup_contract();
    let unauthorized = addr("GUNAUTHORIZED");
    let stream_id = c.open_stream(payer.clone(), recipient.clone(), 1000, 1000000, 0).unwrap();
    if let Err(e) = c.claim_stream(stream_id, &unauthorized, 0, 0) {
        panic!("{}", e.message());
    }
}

#[test]
#[should_panic(expected = "Only the payer can close this stream")]
fn test_unauthorized_close() {
    let (mut c, payer, recipient) = setup_contract();
    let unauthorized = addr("GUNAUTHORIZED");
    let stream_id = c.open_stream(payer.clone(), recipient.clone(), 1000, 1000000, 0).unwrap();
    if let Err(e) = c.close_stream(stream_id, &unauthorized, 0, 0) {
        panic!("{}", e.message());
    }
}

#[test]
#[should_panic(expected = "Rate per ledger must be positive")]
fn test_invalid_rate() {
    let (mut c, payer, recipient) = setup_contract();
    if let Err(e) = c.open_stream(payer, recipient, 0, 1000000, 0) {
        panic!("{}", e.message());
    }
}

#[test]
#[should_panic(expected = "Deposit must be positive")]
fn test_invalid_deposit() {
    let (mut c, payer, recipient) = setup_contract();
    if let Err(e) = c.open_stream(payer, recipient, 1000, 0, 0) {
        panic!("{}", e.message());
    }
}

#[test]
fn test_stream_starts_unresolved() {
    let (mut c, payer, recipient) = setup_contract();
    let stream_id = c.open_stream(payer.clone(), recipient.clone(), 1000, 1000000, 0).unwrap();
    let stream = c.get_stream(stream_id).unwrap();
    assert_eq!(stream.resolved_at, None);
}

#[test]
fn test_claim_resolves_when_fully_claimed() {
    let (mut c, payer, recipient) = setup_contract();
    let stream_id = c.open_stream(payer.clone(), recipient.clone(), 1000, 5000, 0).unwrap();
    let claimed = c.claim_stream(stream_id, &recipient, 10, 1000000).unwrap();
    assert_eq!(claimed, 5000);
    let stream = c.get_stream(stream_id).unwrap();
    assert_eq!(stream.claimed, 5000);
    assert_eq!(stream.resolved_at, Some(1000000));
}

#[test]
fn test_partial_claim_remains_unresolved() {
    let (mut c, payer, recipient) = setup_contract();
    let stream_id = c.open_stream(payer.clone(), recipient.clone(), 1000, 1000000, 0).unwrap();
    let claimed = c.claim_stream(stream_id, &recipient, 5, 1000000).unwrap();
    assert_eq!(claimed, 5000);
    let stream = c.get_stream(stream_id).unwrap();
    assert_eq!(stream.claimed, 5000);
    assert_eq!(stream.resolved_at, None);
}

#[test]
#[should_panic(expected = "Cannot claim from a resolved stream")]
fn test_cannot_claim_from_resolved_stream() {
    let (mut c, payer, recipient) = setup_contract();
    let stream_id = c.open_stream(payer.clone(), recipient.clone(), 1000, 5000, 0).unwrap();
    c.claim_stream(stream_id, &recipient, 10, 1000000).unwrap();
    if let Err(e) = c.claim_stream(stream_id, &recipient, 15, 2000000) {
        panic!("{}", e.message());
    }
}

#[test]
fn test_close_stream_sets_resolved_at() {
    let (mut c, payer, recipient) = setup_contract();
    let stream_id = c.open_stream(payer.clone(), recipient.clone(), 1000, 1000000, 0).unwrap();
    let refund = c.close_stream(stream_id, &payer, 5, 1500000).unwrap();
    assert_eq!(refund, 995000);
    let stream = c.get_stream(stream_id).unwrap();
    assert_eq!(stream.resolved_at, Some(1500000));
}

#[test]
#[should_panic(expected = "Stream is already resolved")]
fn test_cannot_close_already_resolved_stream() {
    let (mut c, payer, recipient) = setup_contract();
    let stream_id = c.open_stream(payer.clone(), recipient.clone(), 1000, 1000000, 0).unwrap();
    c.close_stream(stream_id, &payer, 5, 1000000).unwrap();
    if let Err(e) = c.close_stream(stream_id, &payer, 5, 1000000) {
        panic!("{}", e.message());
    }
}

#[test]
#[should_panic(expected = "Cannot top up a resolved stream")]
fn test_cannot_top_up_resolved_stream() {
    let (mut c, payer, recipient) = setup_contract();
    let stream_id = c.open_stream(payer.clone(), recipient.clone(), 1000, 1000000, 0).unwrap();
    c.close_stream(stream_id, &payer, 5, 1000000).unwrap();
    if let Err(e) = c.top_up_stream(stream_id, &payer, 500000) {
        panic!("{}", e.message());
    }
}

#[test]
fn test_top_up_reactivates_fully_claimed_stream() {
    let (mut c, payer, recipient) = setup_contract();
    let stream_id = c.open_stream(payer.clone(), recipient.clone(), 1000, 5000, 0).unwrap();
    c.claim_stream(stream_id, &recipient, 10, 1000000).unwrap();
    let stream = c.get_stream(stream_id).unwrap();
    assert_eq!(stream.resolved_at, Some(1000000));
    assert_eq!(stream.claimed, 5000);
    c.top_up_stream(stream_id, &payer, 10000).unwrap();
    let stream = c.get_stream(stream_id).unwrap();
    assert_eq!(stream.resolved_at, None);
    assert_eq!(stream.deposited, 15000);
    assert_eq!(stream.claimed, 5000);
}

#[test]
fn test_protocol_invariants_after_resolution() {
    let (mut c, payer, recipient) = setup_contract();
    let stream_id = c.open_stream(payer.clone(), recipient.clone(), 1000, 10000, 0).unwrap();
    c.claim_stream(stream_id, &recipient, 5, 1000000).unwrap();
    c.claim_stream(stream_id, &recipient, 15, 2000000).unwrap();
    let stream = c.get_stream(stream_id).unwrap();
    assert!(stream.claimed <= stream.deposited);
    assert!(stream.claimed >= 0);
    assert!(stream.deposited >= 0);
    assert!(stream.rate_per_ledger > 0);
    assert!(stream.resolved_at.is_some());
    assert_eq!(stream.claimed, stream.deposited);
}
