//! Payment provider abstraction for multi-chain support.
//!
//! This module defines the [`PaymentProvider`] trait, the core payment interface
//! that all payment backends implement.
pub mod keys;
pub mod laws;
pub mod lookup;
pub mod pending;
pub mod solana;
pub mod transfer;

use vstd::prelude::*;

use crate::error::ElisymError;

verus! {

/// Supported payment chains / networks.
#[derive(Debug, Clone, PartialEq, Eq, Hash)]
pub enum PaymentChain {
    Lightning,
    BitcoinOnchain,
    Solana,
    Ethereum,
    Custom(String),
}

impl PaymentChain {
    /// The name of the chain.
    pub open spec fn name(self) -> Seq<char> {
        match self {
            PaymentChain::Lightning => "lightning"@,
            PaymentChain::BitcoinOnchain => "bitcoin-onchain"@,
            PaymentChain::Solana => "solana"@,
            PaymentChain::Ethereum => "ethereum"@,
            PaymentChain::Custom(name) => name@,
        }
    }

    /// The name of the chain.
    pub fn to_string(&self) -> (name: String)
        ensures
            name@ == self.name(),
    {
        match self {
            PaymentChain::Lightning => "lightning".to_owned(),
            PaymentChain::BitcoinOnchain => "bitcoin-onchain".to_owned(),
            PaymentChain::Solana => "solana".to_owned(),
            PaymentChain::Ethereum => "ethereum".to_owned(),
            PaymentChain::Custom(name) => name.clone(),
        }
    }
}

/// A chain-agnostic payment request (invoice, address, etc.).
#[derive(Debug, Clone)]
pub struct PaymentRequest {
    /// Which chain this request targets.
    pub chain: PaymentChain,
    /// Amount in the chain's base unit (msat for Lightning, lamports for Solana, etc.).
    pub amount: u64,
    /// Human-readable currency unit (e.g., "msat", "sat", "lamport").
    pub currency_unit: String,
    /// The payment request string (BOLT11 invoice, Solana address, etc.).
    pub request: String,
}

/// Result of initiating a payment.
#[derive(Debug, Clone)]
pub struct PaymentResult {
    pub payment_id: String,
    pub status: String,
}

/// Status of a payment lookup.
#[derive(Debug, Clone)]
pub struct PaymentStatus {
    /// Whether the payment has been settled / confirmed.
    pub settled: bool,
    /// Amount in the chain's base unit, if known.
    pub amount: Option<u64>,
}

/// Core payment interface that all payment backends implement.
///
/// Implementations must be `Send + Sync + Debug` to allow storage in an agent.
pub trait PaymentProvider: Send + Sync + core::fmt::Debug {
    /// Which chain this provider operates on.
    fn chain(&self) -> PaymentChain;

    /// Create a payment request (invoice) for the given amount.
    ///
    /// - `amount`: amount in the chain's base unit (msat for Lightning)
    /// - `description`: human-readable description
    /// - `expiry_secs`: how long the request is valid
    fn create_payment_request(
        &self,
        amount: u64,
        description: &str,
        expiry_secs: u32,
    ) -> Result<PaymentRequest, ElisymError>;

    /// Pay a payment request string (BOLT11 invoice, etc.).
    fn pay(&self, request: &str) -> Result<PaymentResult, ElisymError>;

    /// Look up the status of a payment by its request string.
    fn lookup_payment(&self, request: &str) -> Result<PaymentStatus, ElisymError>;

    /// Check whether a payment request has been paid: what a lookup says of it.
    fn is_paid(&self, request: &str) -> (paid: Result<bool, ElisymError>)
        ensures
            exists|status: Result<PaymentStatus, ElisymError>|
                #[trigger] call_ensures(Self::lookup_payment, (self, request), status) && paid
                    == settled_of(status),
    {
        let status = self.lookup_payment(request);
        whether_settled(status)
    }
}

/// Whether a lookup found the payment settled, or its error.
pub open spec fn settled_of(status: Result<PaymentStatus, ElisymError>) -> Result<
    bool,
    ElisymError,
> {
    match status {
        Ok(status) => Ok(status.settled),
        Err(error) => Err(error),
    }
}

/// Whether a lookup found the payment settled, or its error.
pub fn whether_settled(status: Result<PaymentStatus, ElisymError>) -> (settled: Result<
    bool,
    ElisymError,
>)
    ensures
        settled == settled_of(status),
{
    match status {
        Ok(status) => Ok(status.settled),
        Err(error) => Err(error),
    }
}

/// Fee configuration for app developers.
///
/// Fee is expressed in **basis points** (1 bps = 0.01%, 100 bps = 1%, 300 bps = 3%).
/// All arithmetic is integer-only to avoid floating-point rounding errors.
#[derive(Debug, Clone)]
pub struct FeeConfig {
    /// App's fee in basis points (e.g., 300 = 3%).
    pub app_fee_bps: u64,
    /// Address to receive the app's fee.
    pub app_fee_address: String,
    /// Chain for the app's fee payment.
    pub app_fee_chain: PaymentChain,
}

/// The fee for an amount: its share in basis points, rounded up and never more than the
/// amount.
pub open spec fn fee_of(amount: u64, bps: u64) -> int {
    let share = (amount * bps + 9999) / 10000;
    if share > amount {
        amount as int
    } else {
        share
    }
}

impl FeeConfig {
    /// Calculate inclusive fee for a given payment amount.
    /// The fee is taken from the amount (not added on top).
    /// Returns `(provider_amount, fee)` where `provider_amount + fee == amount`.
    ///
    /// Uses ceiling division: `fee = (amount * bps + 9999) / 10000`.
    pub fn calculate(&self, amount: u64) -> (split: (u64, u64))
        ensures
            split.1 == fee_of(amount, self.app_fee_bps),
            split.0 + split.1 == amount,
    {
        assert(amount * self.app_fee_bps <= u64::MAX * u64::MAX) by (nonlinear_arith)
            requires
                amount <= u64::MAX,
                self.app_fee_bps <= u64::MAX,
        ;
        let share: u128 = ((amount as u128) * (self.app_fee_bps as u128) + 9999) / 10_000;
        let fee: u64 = if share > amount as u128 {
            amount
        } else {
            share as u64
        };
        (amount - fee, fee)
    }
}

/// Up to one hundred percent, the fee is the smallest whole number that covers the share.
pub proof fn fee_is_rounded_up(amount: u64, bps: u64)
    requires
        bps <= 10000,
    ensures
        fee_of(amount, bps) * 10000 >= amount * bps,
        fee_of(amount, bps) > 0 ==> (fee_of(amount, bps) - 1) * 10000 < amount * bps,
{
    assert(amount * bps <= amount * 10000) by (nonlinear_arith)
        requires
            bps <= 10000,
    ;
}

/// No fee rate means no fee.
pub proof fn no_rate_means_no_fee(amount: u64)
    ensures
        fee_of(amount, 0) == 0,
{
}

/// From one hundred percent on, the fee is the whole amount.
pub proof fn full_rate_takes_everything(amount: u64, bps: u64)
    requires
        bps >= 10000,
    ensures
        fee_of(amount, bps) == amount,
{
    assert(amount * bps >= amount * 10000) by (nonlinear_arith)
        requires
            bps >= 10000,
    ;
}

/// Whether a payment is settled is what the lookup said, and its error is passed on.
pub proof fn settlement_is_what_the_lookup_said(status: PaymentStatus, error: ElisymError)
    ensures
        settled_of(Ok(status)) is Ok && settled_of(Ok(status))->Ok_0 == status.settled,
        settled_of(Err(error)) is Err && settled_of(Err(error))->Err_0 == error,
{
}

} // verus!
