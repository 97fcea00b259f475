use elisym_core::error::ElisymError;
use elisym_core::payment::{
    whether_settled, FeeConfig, PaymentChain, PaymentProvider, PaymentRequest, PaymentResult,
    PaymentStatus,
};

fn fee(bps: u64) -> FeeConfig {
    FeeConfig {
        app_fee_bps: bps,
        app_fee_address: "fees".to_string(),
        app_fee_chain: PaymentChain::Solana,
    }
}

#[test]
fn fee_is_three_percent() {
    assert_eq!(fee(300).calculate(100_000), (97_000, 3_000));
}

#[test]
fn fee_of_a_large_amount_is_its_share() {
    assert_eq!(
        fee(300).calculate(1_000_000_000_000_000_000),
        (970_000_000_000_000_000, 30_000_000_000_000_000)
    );
    assert_eq!(
        fee(2).calculate(u64::MAX),
        (u64::MAX - 3_689_348_814_741_911, 3_689_348_814_741_911)
    );
    assert_eq!(fee(9_999).calculate(u64::MAX).0, u64::MAX / 10_000);
}

#[test]
fn fee_rounds_up() {
    assert_eq!(fee(300).calculate(1), (0, 1));
    assert_eq!(fee(1).calculate(10_001), (9_999, 2));
    assert_eq!(fee(1).calculate(10_000), (9_999, 1));
}

#[test]
fn fee_never_exceeds_the_amount() {
    assert_eq!(fee(20_000).calculate(50), (0, 50));
    assert_eq!(fee(10_000).calculate(50), (0, 50));
    assert_eq!(fee(u64::MAX).calculate(u64::MAX), (0, u64::MAX));
}

#[test]
fn no_rate_no_fee() {
    assert_eq!(fee(0).calculate(u64::MAX), (u64::MAX, 0));
    assert_eq!(fee(300).calculate(0), (0, 0));
}

#[test]
fn chain_names() {
    assert_eq!(PaymentChain::Lightning.to_string(), "lightning");
    assert_eq!(PaymentChain::BitcoinOnchain.to_string(), "bitcoin-onchain");
    assert_eq!(PaymentChain::Solana.to_string(), "solana");
    assert_eq!(PaymentChain::Ethereum.to_string(), "ethereum");
    assert_eq!(PaymentChain::Custom("doge".to_string()).to_string(), "doge");
}

#[derive(Debug)]
struct Ledger {
    settled: Option<bool>,
}

impl PaymentProvider for Ledger {
    fn chain(&self) -> PaymentChain {
        PaymentChain::Custom("ledger".to_string())
    }

    fn create_payment_request(
        &self,
        amount: u64,
        _description: &str,
        _expiry_secs: u32,
    ) -> Result<PaymentRequest, ElisymError> {
        Ok(PaymentRequest {
            chain: self.chain(),
            amount,
            currency_unit: "coin".to_string(),
            request: "r".to_string(),
        })
    }

    fn pay(&self, request: &str) -> Result<PaymentResult, ElisymError> {
        Ok(PaymentResult { payment_id: request.to_string(), status: "confirmed".to_string() })
    }

    fn lookup_payment(&self, _request: &str) -> Result<PaymentStatus, ElisymError> {
        match self.settled {
            Some(settled) => Ok(PaymentStatus { settled, amount: None }),
            None => Err(ElisymError::Payment("offline".to_string())),
        }
    }
}

#[test]
fn is_paid_follows_the_lookup() {
    assert_eq!(Ledger { settled: Some(true) }.is_paid("r").unwrap(), true);
    assert_eq!(Ledger { settled: Some(false) }.is_paid("r").unwrap(), false);
    let err = Ledger { settled: None }.is_paid("r").unwrap_err();
    assert_eq!(err.to_string(), "Payment error: offline");
}

#[test]
fn settled_status_is_read() {
    assert!(whether_settled(Ok(PaymentStatus { settled: true, amount: Some(1) })).unwrap());
    assert!(!whether_settled(Ok(PaymentStatus { settled: false, amount: None })).unwrap());
}
