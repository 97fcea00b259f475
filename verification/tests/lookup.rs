use elisym_core::payment::keys::Keypair;
use elisym_core::payment::lookup::{ChainTransaction, LookupStep, PaymentLookup, SignatureInfo};
use elisym_core::payment::pending::PendingPayment;
use elisym_core::payment::solana::{
    SolanaPaymentConfig, SolanaPaymentProvider, SolanaPaymentRequestData,
};
use elisym_core::payment::PaymentStatus;

fn provider() -> SolanaPaymentProvider {
    SolanaPaymentProvider::new(SolanaPaymentConfig::default(), Keypair::new())
}

fn key(n: u8) -> String {
    solana_sdk::pubkey::Pubkey::from([n; 32]).to_string()
}

fn signature(n: u8, failed: bool) -> SignatureInfo {
    SignatureInfo {
        signature: solana_sdk::signature::Signature::from([n; 64]).to_string(),
        failed,
    }
}

fn request() -> SolanaPaymentRequestData {
    SolanaPaymentRequestData {
        recipient: key(1),
        amount: 100,
        reference: key(2),
        fee_address: Some(key(3)),
        fee_amount: Some(10),
    }
}

fn transaction(pre: u64, post: u64) -> ChainTransaction {
    ChainTransaction {
        balances: Some((vec![50, pre], vec![40, post])),
        account_keys: Some(vec![key(9), key(1)]),
    }
}

fn started(provider: &SolanaPaymentProvider) -> PaymentLookup {
    match provider.lookup_payment("req", Ok(request())) {
        LookupStep::Signatures(lookup) => lookup,
        other => panic!("{:?}", other),
    }
}

fn waiting(step: LookupStep) -> (PaymentLookup, [u8; 64]) {
    match step {
        LookupStep::Transaction(lookup, signature) => (lookup, signature),
        other => panic!("{:?}", other),
    }
}

fn done(step: LookupStep) -> PaymentStatus {
    match step {
        LookupStep::Done(result) => result.unwrap(),
        other => panic!("{:?}", other),
    }
}

fn failed(step: LookupStep) -> String {
    match step {
        LookupStep::Done(Err(error)) => error.to_string(),
        other => panic!("{:?}", other),
    }
}

#[test]
fn settled_request_needs_no_lookup() {
    let mut provider = provider();
    provider.pending.insert("req".to_string(), PendingPayment { amount: 77, settled: true });
    let status = done(provider.lookup_payment("req", Err("not JSON".to_string())));
    assert!(status.settled);
    assert_eq!(status.amount, Some(77));
}

#[test]
fn lookup_begins_with_the_reference() {
    let mut provider = provider();
    provider.pending.insert("req".to_string(), PendingPayment { amount: 77, settled: false });
    let lookup = started(&provider);
    assert_eq!(lookup.request, "req");
    assert_eq!(lookup.recipient, key(1));
    assert_eq!(lookup.reference, [2; 32]);
    assert_eq!(lookup.expected_net, 90);
}

#[test]
fn unreadable_requests_fail() {
    let provider = provider();
    assert_eq!(
        failed(provider.lookup_payment("req", Err("not JSON".to_string()))),
        "Payment error: Invalid payment request: not JSON"
    );
    let mut data = request();
    data.reference = "x".to_string();
    assert_eq!(
        failed(provider.lookup_payment("req", Ok(data))),
        "Payment error: Invalid reference pubkey: WrongSize"
    );
}

#[test]
fn fee_above_the_amount_leaves_nothing_expected() {
    let mut data = request();
    data.fee_amount = Some(101);
    assert_eq!(data.net(), 0);
    data.fee_amount = None;
    assert_eq!(data.net(), 100);
}

#[test]
fn no_signatures_means_unsettled() {
    let provider = provider();
    let status = done(provider.signatures_found(started(&provider), Ok(vec![])));
    assert!(!status.settled);
    assert_eq!(status.amount, None);
    assert_eq!(
        failed(provider.signatures_found(started(&provider), Err("down".to_string()))),
        "Payment error: Failed to query signatures: down"
    );
}

#[test]
fn payment_settles_the_request() {
    let mut provider = provider();
    provider.pending.insert("req".to_string(), PendingPayment { amount: 100, settled: false });
    provider.pending.insert("other".to_string(), PendingPayment { amount: 1, settled: false });
    let list = vec![signature(4, true), signature(5, false), signature(6, false)];
    let step = provider.signatures_found(started(&provider), Ok(list));
    // The failed transaction is skipped.
    let (lookup, wanted) = waiting(step);
    assert_eq!(wanted, [5; 64]);
    // 89 lamports are too few.
    let (lookup, wanted) = waiting(provider.transaction_found(lookup, Ok(transaction(5, 94))));
    assert_eq!(wanted, [6; 64]);
    assert!(provider.pending.contains_key("req"));
    let status = done(provider.transaction_found(lookup, Ok(transaction(5, 95))));
    assert!(status.settled);
    assert_eq!(status.amount, Some(90));
    assert!(!provider.pending.contains_key("req"));
    assert!(provider.pending.contains_key("other"));
}

#[test]
fn other_transactions_do_not_settle() {
    let mut provider = provider();
    let unrelated = vec![
        ChainTransaction { balances: None, account_keys: Some(vec![key(1)]) },
        ChainTransaction { balances: Some((vec![0], vec![500])), account_keys: None },
        ChainTransaction {
            balances: Some((vec![0], vec![500])),
            account_keys: Some(vec![key(8)]),
        },
        transaction(500, 5),
    ];
    for found in unrelated {
        let step = provider.signatures_found(started(&provider), Ok(vec![signature(4, false)]));
        let (lookup, _) = waiting(step);
        assert!(found.has_balances_of(&lookup.recipient));
        let status = done(provider.transaction_found(lookup, Ok(found)));
        assert!(!status.settled);
        assert_eq!(status.amount, None);
    }
}

#[test]
fn errors_end_the_lookup() {
    let mut provider = provider();
    let bad = SignatureInfo { signature: "x".to_string(), failed: false };
    assert_eq!(
        failed(provider.signatures_found(started(&provider), Ok(vec![bad]))),
        "Payment error: Invalid signature: WrongSize"
    );
    let step = provider.signatures_found(started(&provider), Ok(vec![signature(4, false)]));
    let (lookup, _) = waiting(step);
    assert_eq!(
        failed(provider.transaction_found(lookup, Err("down".to_string()))),
        "Payment error: Failed to get transaction: down"
    );
}

#[test]
fn unreadable_signature_of_a_failed_transaction_is_skipped() {
    let provider = provider();
    let bad = SignatureInfo { signature: "x".to_string(), failed: true };
    let status = done(provider.signatures_found(started(&provider), Ok(vec![bad])));
    assert!(!status.settled);
}

#[test]
fn balances_are_read_by_position() {
    let found = transaction(5, 95);
    assert_eq!(found.received_by(&key(1)), Some(90));
    assert_eq!(found.received_by(&key(9)), Some(0));
    assert_eq!(found.received_by(&key(8)), None);
    let short = ChainTransaction {
        balances: Some((vec![1], vec![2])),
        account_keys: Some(vec![key(9), key(1)]),
    };
    assert!(!short.has_balances_of(&key(1)));
    assert!(short.has_balances_of(&key(9)));
}
