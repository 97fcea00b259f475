use elisym_core::payment::keys::Keypair;
use elisym_core::payment::pending::{PendingPayment, PendingPayments, PENDING_MAP_CAP};
use elisym_core::payment::solana::{
    unix_time, SolanaNetwork, SolanaPaymentConfig, SolanaPaymentProvider,
    SolanaPaymentRequestData, TimedRequest, TransferPlan,
};
use elisym_core::payment::PaymentChain;
use serde_json::Value;
use solana_sdk::signature::Signer;

fn provider() -> SolanaPaymentProvider {
    SolanaPaymentProvider::new(SolanaPaymentConfig::default(), Keypair::new())
}

/// What a request string says, read the way a payer reads it.
fn decode(request: &str) -> SolanaPaymentRequestData {
    let value: Value = serde_json::from_str(request).unwrap();
    SolanaPaymentRequestData {
        recipient: value["recipient"].as_str().unwrap().to_string(),
        amount: value["amount"].as_u64().unwrap(),
        reference: value["reference"].as_str().unwrap().to_string(),
        fee_address: value["fee_address"].as_str().map(|address| address.to_string()),
        fee_amount: value["fee_amount"].as_u64(),
    }
}

/// What a request string says, with the end of its validity.
fn decode_timed(request: &str) -> TimedRequest {
    let value: Value = serde_json::from_str(request).unwrap();
    TimedRequest { data: decode(request), expires_at: value["expires_at"].as_u64() }
}

fn lasting(data: SolanaPaymentRequestData) -> TimedRequest {
    TimedRequest { data, expires_at: None }
}

fn key(n: u8) -> String {
    solana_sdk::pubkey::Pubkey::from([n; 32]).to_string()
}

fn plain_request() -> SolanaPaymentRequestData {
    SolanaPaymentRequestData {
        recipient: key(1),
        amount: 100_000,
        reference: key(2),
        fee_address: None,
        fee_amount: None,
    }
}

fn refusal(data: SolanaPaymentRequestData) -> String {
    provider().plan_payment(Ok(lasting(data)), 0).unwrap_err().to_string()
}

#[test]
fn test_config_defaults() {
    let config = SolanaPaymentConfig::default();
    assert_eq!(config.network, SolanaNetwork::Devnet);
    assert!(config.rpc_url.is_none());
}

#[test]
fn test_network_rpc_urls() {
    assert_eq!(SolanaNetwork::Mainnet.rpc_url(), "https://api.mainnet-beta.solana.com");
    assert_eq!(SolanaNetwork::Devnet.rpc_url(), "https://api.devnet.solana.com");
    assert_eq!(SolanaNetwork::Testnet.rpc_url(), "https://api.testnet.solana.com");
    assert_eq!(
        SolanaNetwork::Custom("http://localhost:8899".to_string()).rpc_url(),
        "http://localhost:8899"
    );
}

#[test]
fn test_custom_rpc_url_overrides_network() {
    let config = SolanaPaymentConfig {
        network: SolanaNetwork::Devnet,
        rpc_url: Some("http://my-rpc:8899".to_string()),
    };
    assert_eq!(config.effective_rpc_url(), "http://my-rpc:8899");
}

#[test]
fn network_url_without_custom_one() {
    assert_eq!(
        SolanaPaymentConfig::default().effective_rpc_url(),
        "https://api.devnet.solana.com"
    );
}

#[test]
fn test_request_serialization_roundtrip_sol() {
    let data = SolanaPaymentRequestData {
        recipient: "11111111111111111111111111111111".to_string(),
        amount: 10_000_000,
        reference: "22222222222222222222222222222222".to_string(),
        fee_address: None,
        fee_amount: None,
    };
    let json = data.to_json();
    assert!(!json.contains("fee_address"));
    assert!(!json.contains("fee_amount"));
    let parsed = decode(&json);
    assert_eq!(parsed.recipient, data.recipient);
    assert_eq!(parsed.amount, data.amount);
    assert_eq!(parsed.reference, data.reference);
    assert!(parsed.fee_address.is_none());
    assert!(parsed.fee_amount.is_none());
}

#[test]
fn test_request_serialization_with_fee() {
    let data = SolanaPaymentRequestData {
        recipient: "11111111111111111111111111111111".to_string(),
        amount: 100_000,
        reference: "22222222222222222222222222222222".to_string(),
        fee_address: Some("33333333333333333333333333333333".to_string()),
        fee_amount: Some(3_000),
    };
    let json = data.to_json();
    assert!(json.contains("fee_address"));
    assert!(json.contains("fee_amount"));
    let parsed = decode(&json);
    assert_eq!(parsed.fee_address.as_deref(), Some("33333333333333333333333333333333"));
    assert_eq!(parsed.fee_amount, Some(3_000));
}

#[test]
fn request_text_is_exact() {
    let data = SolanaPaymentRequestData {
        recipient: "a\"b".to_string(),
        amount: u64::MAX,
        reference: "c".to_string(),
        fee_address: Some("d".to_string()),
        fee_amount: Some(7),
    };
    assert_eq!(
        data.to_json(),
        "{\"recipient\":\"a\\\"b\",\"amount\":18446744073709551615,\"reference\":\"c\",\
         \"fee_address\":\"d\",\"fee_amount\":7}"
    );
}

#[test]
fn test_backwards_compat_no_fee() {
    // Old format without fee fields should still parse
    let json = r#"{"recipient":"11111111111111111111111111111111","amount":100000,"reference":"22222222222222222222222222222222"}"#;
    let parsed = decode(json);
    assert_eq!(parsed.amount, 100_000);
    assert!(parsed.fee_address.is_none());
    assert!(parsed.fee_amount.is_none());
    assert_eq!(parsed.to_json(), json);
}

#[test]
fn test_zero_amount_rejected() {
    let mut provider = provider();
    let result = provider.create_payment_request(0, "test", 3600);
    assert!(result.is_err());
    assert!(result.unwrap_err().to_string().contains("greater than 0"));
    assert_eq!(provider.pending.len(), 0);
}

#[test]
fn test_chain_returns_solana() {
    assert_eq!(provider().chain(), PaymentChain::Solana);
}

#[test]
fn test_address() {
    let keypair = solana_sdk::signature::Keypair::new();
    let expected = keypair.pubkey().to_string();
    let provider =
        SolanaPaymentProvider::from_bytes(SolanaPaymentConfig::default(), &keypair.to_bytes())
            .unwrap();
    assert_eq!(provider.address(), expected);
}

#[test]
fn test_create_payment_request_sol() {
    let mut provider = provider();
    let req = provider.create_payment_request(10_000_000, "test payment", 3600).unwrap();
    assert_eq!(req.chain, PaymentChain::Solana);
    assert_eq!(req.amount, 10_000_000);
    assert_eq!(req.currency_unit, "lamport");

    // Verify the request string is valid JSON with expected fields
    let data = decode(&req.request);
    assert_eq!(data.amount, 10_000_000);
    assert_eq!(data.recipient, provider.address());
    assert!(data.fee_address.is_none() && data.fee_amount.is_none());
}

#[test]
fn references_are_drawn_anew() {
    let mut provider = provider();
    let first = provider.create_payment_request(5, "", 0).unwrap();
    let second = provider.create_payment_request(5, "", 0).unwrap();
    assert_ne!(decode(&first.request).reference, decode(&second.request).reference);
    assert_ne!(decode(&first.request).reference, provider.address());
    assert_eq!(provider.pending.len(), 2);
}

#[test]
fn test_pending_map_cap_cleanup() {
    let mut provider = provider();

    // Insert settled entries up to the cap
    for i in 0..PENDING_MAP_CAP {
        provider
            .pending
            .insert(format!("request_{}", i), PendingPayment { amount: 1000, settled: true });
    }
    assert_eq!(provider.pending.len(), PENDING_MAP_CAP);

    // Creating a new request should trigger cleanup of settled entries
    let req = provider.create_payment_request(1000, "test", 3600).unwrap();
    // Only the new request should remain (all old ones were settled and cleaned)
    assert_eq!(provider.pending.len(), 1);
    assert!(provider.pending.contains_key(&req.request));
}

#[test]
fn cleanup_keeps_unsettled_requests() {
    let mut pending = PendingPayments::new();
    pending.insert("a".to_string(), PendingPayment { amount: 1, settled: true });
    pending.insert("b".to_string(), PendingPayment { amount: 2, settled: false });
    pending.insert("a".to_string(), PendingPayment { amount: 3, settled: true });
    assert_eq!(pending.len(), 2);
    assert_eq!(pending.get("a").unwrap().amount, 3);
    pending.forget_settled();
    assert_eq!(pending.len(), 1);
    assert!(pending.get("a").is_none());
    assert_eq!(pending.get("b").unwrap().amount, 2);
    pending.remove("a");
    assert_eq!(pending.len(), 1);
    pending.remove("b");
    assert_eq!(pending.len(), 0);
}

#[test]
fn request_with_fee() {
    let mut provider = provider();
    let req =
        provider.create_payment_request_with_fee(100_000, "d", 60, &key(9), 3_000).unwrap();
    let data = decode(&req.request);
    assert_eq!(data.fee_address, Some(key(9)));
    assert_eq!(data.fee_amount, Some(3_000));
    assert_eq!(data.net(), 97_000);

    let req = provider.create_payment_request_with_fee(100_000, "d", 60, &key(9), 0).unwrap();
    let data = decode(&req.request);
    assert!(data.fee_address.is_none() && data.fee_amount.is_none());

    let err = provider.create_payment_request_with_fee(10, "d", 60, &key(9), 10).unwrap_err();
    assert_eq!(err.to_string(), "Payment error: fee_amount must be less than amount");
    let err = provider.create_payment_request_with_fee(0, "d", 60, &key(9), 0).unwrap_err();
    assert_eq!(err.to_string(), "Payment error: fee_amount must be less than amount");
    assert_eq!(provider.pending.len(), 2);
}

#[test]
fn keys_are_read() {
    let keypair = solana_sdk::signature::Keypair::new();
    let text = bs58::encode(keypair.to_bytes()).into_string();
    let made =
        SolanaPaymentProvider::from_secret_key(SolanaPaymentConfig::default(), &text).unwrap();
    assert_eq!(made.address(), keypair.pubkey().to_string());
    assert_eq!(made.keypair.public(), keypair.pubkey().to_bytes());
    assert_eq!(made.keypair.secret_bytes(), &keypair.to_bytes().to_vec());

    let err = SolanaPaymentProvider::from_secret_key(SolanaPaymentConfig::default(), "0OIl")
        .err()
        .unwrap();
    let said = bs58::decode("0OIl").into_vec().unwrap_err();
    assert_eq!(err.to_string(), format!("Payment error: Invalid base58 secret key: {}", said));

    let err = SolanaPaymentProvider::from_bytes(SolanaPaymentConfig::default(), &[1, 2, 3])
        .err()
        .unwrap();
    assert!(err.to_string().starts_with("Payment error: Invalid keypair bytes: "));
}

#[test]
fn fresh_keypairs_differ() {
    assert_ne!(Keypair::new().address(), Keypair::new().address());
}

#[test]
fn payment_without_fee_is_planned() {
    let plan = provider().plan_payment(Ok(lasting(plain_request())), 0).unwrap();
    assert_eq!(plan.recipient, [1; 32]);
    assert_eq!(plan.reference, [2; 32]);
    assert_eq!(plan.amount, 100_000);
    assert!(plan.fee.is_none());

    // A fee amount without an address, an address without an amount, and a fee of zero are
    // no fee.
    let mut data = plain_request();
    data.fee_amount = Some(5);
    assert!(provider().plan_payment(Ok(lasting(data)), 0).unwrap().fee.is_none());
    let mut data = plain_request();
    data.fee_address = Some("nonsense".to_string());
    assert!(provider().plan_payment(Ok(lasting(data)), 0).unwrap().fee.is_none());
    let mut data = plain_request();
    data.fee_address = Some("nonsense".to_string());
    data.fee_amount = Some(0);
    assert!(provider().plan_payment(Ok(lasting(data)), 0).unwrap().fee.is_none());
}

#[test]
fn payment_with_fee_is_planned() {
    let mut data = plain_request();
    data.fee_address = Some(key(3));
    data.fee_amount = Some(3_000);
    let plan = provider().plan_payment(Ok(lasting(data)), 0).unwrap();
    assert_eq!(plan.fee, Some(([3; 32], 3_000)));
    assert_eq!(plan.amount, 100_000);
}

#[test]
fn bad_requests_are_refused() {
    let err = provider().plan_payment(Err("expected value".to_string()), 0).unwrap_err();
    assert_eq!(err.to_string(), "Payment error: Invalid payment request: expected value");

    let mut data = plain_request();
    data.recipient = "short".to_string();
    data.reference = "short".to_string();
    assert_eq!(refusal(data), "Payment error: Invalid recipient address: WrongSize");

    let mut data = plain_request();
    data.reference = "0".to_string();
    assert_eq!(refusal(data), "Payment error: Invalid reference pubkey: Invalid");

    let mut data = plain_request();
    data.fee_address = Some("short".to_string());
    data.fee_amount = Some(100_000);
    assert_eq!(
        refusal(data),
        "Payment error: fee_amount (100000) must be less than total amount (100000)"
    );

    let mut data = plain_request();
    data.fee_address = Some("short".to_string());
    data.fee_amount = Some(99_999);
    assert_eq!(refusal(data), "Payment error: Invalid fee address: WrongSize");
}

#[test]
#[allow(deprecated)]
fn transfer_is_what_the_sdk_builds() {
    let keypair = solana_sdk::signature::Keypair::new();
    let provider =
        SolanaPaymentProvider::from_bytes(SolanaPaymentConfig::default(), &keypair.to_bytes())
            .unwrap();
    let plan = TransferPlan {
        recipient: [1; 32],
        amount: 100_000,
        reference: [2; 32],
        fee: Some(([3; 32], 3_000)),
    };
    let made = provider.build_transfer(&plan, Ok([7; 32])).unwrap();

    let payer = keypair.pubkey();
    let hash = solana_sdk::hash::Hash::from([7; 32]);
    let mut first = solana_sdk::system_instruction::transfer(&payer, &[1; 32].into(), 97_000);
    first
        .accounts
        .push(solana_sdk::instruction::AccountMeta::new_readonly([2; 32].into(), false));
    let second = solana_sdk::system_instruction::transfer(&payer, &[3; 32].into(), 3_000);
    let message = solana_sdk::message::Message::new_with_blockhash(
        &[first, second],
        Some(&payer),
        &hash,
    );
    let expected = solana_sdk::transaction::Transaction::new(&[&keypair], message, hash);

    let header = &expected.message.header;
    assert_eq!(
        made.message.header,
        (
            header.num_required_signatures,
            header.num_readonly_signed_accounts,
            header.num_readonly_unsigned_accounts
        )
    );
    assert_eq!(made.message.header.0, 1);
    let keys: Vec<[u8; 32]> =
        expected.message.account_keys.iter().map(|key| key.to_bytes()).collect();
    assert_eq!(made.message.keys, keys);
    assert_eq!(made.message.keys[0], payer.to_bytes());
    assert!(made.message.keys.contains(&[2; 32]));
    assert_eq!(made.message.blockhash, [7; 32]);
    let calls: Vec<(u8, Vec<u8>, Vec<u8>)> = expected
        .message
        .instructions
        .iter()
        .map(|call| (call.program_id_index, call.accounts.clone(), call.data.clone()))
        .collect();
    assert_eq!(made.message.instructions, calls);
    assert_eq!(made.message.instructions[0].2, [&[2, 0, 0, 0][..], &97_000u64.to_le_bytes()].concat());
    assert_eq!(made.signatures, vec![expected.signatures[0].as_ref().to_vec()]);
    assert!(expected.verify().is_ok());
}

#[test]
fn transfer_without_fee_sends_everything() {
    let provider = provider();
    let plan = TransferPlan { recipient: [1; 32], amount: 5, reference: [2; 32], fee: None };
    let made = provider.build_transfer(&plan, Ok([7; 32])).unwrap();
    assert_eq!(made.message.instructions.len(), 1);
    assert_eq!(made.message.instructions[0].2, vec![2, 0, 0, 0, 5, 0, 0, 0, 0, 0, 0, 0]);
    let err = provider.build_transfer(&plan, Err("no route".to_string())).unwrap_err();
    assert_eq!(err.to_string(), "Payment error: Failed to get blockhash: no route");
}

#[test]
fn replies_are_passed_on() {
    let provider = provider();
    assert_eq!(provider.balance(Ok(12)).unwrap(), 12);
    assert_eq!(
        provider.balance(Err("down".to_string())).unwrap_err().to_string(),
        "Payment error: Failed to get balance: down"
    );
    assert_eq!(provider.request_airdrop(Ok("sig".to_string())).unwrap(), "sig");
    assert_eq!(
        provider.request_airdrop(Err("down".to_string())).unwrap_err().to_string(),
        "Payment error: Airdrop failed: down"
    );
    let paid = provider.payment_result(Ok("sig".to_string())).unwrap();
    assert_eq!(paid.payment_id, "sig");
    assert_eq!(paid.status, "confirmed");
    assert_eq!(
        provider.payment_result(Err("down".to_string())).unwrap_err().to_string(),
        "Payment error: Transaction failed: down"
    );
}

#[test]
fn made_request_is_paid_as_asked() {
    let mut seller = provider();
    let req = seller.create_payment_request_with_fee(100_000, "d", 60, &key(9), 3_000).unwrap();
    let asked = decode_timed(&req.request);
    let net = asked.data.net();
    let reference = asked.data.reference.clone();
    let plan = provider().plan_payment(Ok(asked), unix_time()).unwrap();
    assert_eq!(plan.recipient, seller.keypair.public());
    assert_eq!(plan.fee, Some(([9; 32], 3_000)));
    assert_eq!(solana_sdk::pubkey::Pubkey::from(plan.reference).to_string(), reference);
    assert_eq!(net, plan.amount - 3_000);
}

#[test]
fn request_expires() {
    let mut seller = provider();
    let req = seller.create_payment_request_inner(5, "d", 60, 1_000, None, &[2; 32]).unwrap();
    let asked = decode_timed(&req.request);
    assert_eq!(asked.expires_at, Some(1_060));
    assert_eq!(asked.to_json(), req.request);
    assert!(!asked.has_expired(1_060));
    assert!(asked.has_expired(1_061));
    let plan = provider().plan_payment(Ok(asked.clone()), 1_060).unwrap();
    assert_eq!(plan.recipient, seller.keypair.public());
    let err = provider().plan_payment(Ok(asked), 1_061).unwrap_err();
    assert_eq!(err.to_string(), "Payment error: Payment request has expired");
}

#[test]
fn request_without_seconds_expires_after_its_second() {
    let req = provider().create_payment_request_inner(5, "d", 0, 1_000, None, &[2; 32]).unwrap();
    let asked = decode_timed(&req.request);
    assert!(provider().plan_payment(Ok(asked.clone()), 1_000).is_ok());
    assert!(provider().plan_payment(Ok(asked), 1_001).is_err());
}

#[test]
fn request_without_end_stays_valid() {
    assert!(provider().plan_payment(Ok(lasting(plain_request())), u64::MAX).is_ok());
    let req =
        provider().create_payment_request_inner(5, "d", 9, u64::MAX - 3, None, &[2; 32]).unwrap();
    assert_eq!(decode_timed(&req.request).expires_at, Some(u64::MAX));
}

#[test]
fn validity_is_counted_from_now() {
    let before = unix_time();
    let req = provider().create_payment_request(5, "d", 3600).unwrap();
    let after = unix_time();
    let end = decode_timed(&req.request).expires_at.unwrap();
    assert!(before + 3600 <= end && end <= after + 3600);
    // Some day in 2020 has passed.
    assert!(before > 1_580_000_000);
    let req = provider().create_payment_request_with_fee(5, "d", 10, &key(9), 1).unwrap();
    let end = decode_timed(&req.request).expires_at.unwrap();
    assert!(after + 10 <= end && end <= unix_time() + 10);
}

#[test]
fn timed_request_text_is_exact() {
    let asked = TimedRequest {
        data: SolanaPaymentRequestData {
            recipient: "a".to_string(),
            amount: 1,
            reference: "b".to_string(),
            fee_address: None,
            fee_amount: None,
        },
        expires_at: Some(9),
    };
    assert_eq!(
        asked.to_json(),
        "{\"recipient\":\"a\",\"amount\":1,\"reference\":\"b\",\"expires_at\":9}"
    );
}
