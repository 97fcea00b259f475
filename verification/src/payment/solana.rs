//! Solana payment provider: native SOL transfers.
//!
//! Uses a reference-based payment detection approach: each payment request includes
//! a unique ephemeral reference pubkey added as a read-only non-signer to the transfer
//! instruction. The provider detects payment by asking for the signatures on the reference.
use vstd::bytes::lemma_auto_spec_u64_to_from_le_bytes;
use vstd::prelude::*;

use crate::error::{is_payment_error, payment_error, ElisymError};
use crate::json::{
    by_name, distinct_names, json_object_members, json_object_text, scalar_views, write_json_object,
    JsonMemberView, JsonScalar, JsonScalarView,
};
use crate::number::{decimal, decimal_text};
use crate::payment::keys::{
    address_text, base58_decoded, decode_base58, is_address_of, keypair_public_key, parsed_address,
    read_address, write_address, Keypair,
};
use crate::payment::pending::{unsettled, PendingPayment, PendingPayments, PENDING_MAP_CAP};
use crate::payment::transfer::{
    compile_message, fits_message, instruction_views, makes_calls, message_of, sign_message,
    signature_views, signatures_of, signed_by, transfer, transfer_of, AccountMeta, AccountMetaView,
    Instruction, InstructionView, Message,
};
use crate::payment::{PaymentChain, PaymentRequest, PaymentResult};

verus! {

/// Solana network selection.
#[derive(Debug, Clone, PartialEq, Eq)]
pub enum SolanaNetwork {
    Mainnet,
    Devnet,
    Testnet,
    Custom(String),
}

impl SolanaNetwork {
    /// Default RPC URL for this network.
    pub open spec fn url(self) -> Seq<char> {
        match self {
            SolanaNetwork::Mainnet => "https://api.mainnet-beta.solana.com"@,
            SolanaNetwork::Devnet => "https://api.devnet.solana.com"@,
            SolanaNetwork::Testnet => "https://api.testnet.solana.com"@,
            SolanaNetwork::Custom(url) => url@,
        }
    }

    /// Default RPC URL for this network.
    pub fn rpc_url(&self) -> (url: String)
        ensures
            url@ == self.url(),
    {
        match self {
            SolanaNetwork::Mainnet => "https://api.mainnet-beta.solana.com".to_owned(),
            SolanaNetwork::Devnet => "https://api.devnet.solana.com".to_owned(),
            SolanaNetwork::Testnet => "https://api.testnet.solana.com".to_owned(),
            SolanaNetwork::Custom(url) => url.clone(),
        }
    }
}

/// Configuration for the Solana payment provider.
#[derive(Debug, Clone)]
pub struct SolanaPaymentConfig {
    /// Network to connect to.
    pub network: SolanaNetwork,
    /// Custom RPC URL (overrides the network default if set).
    pub rpc_url: Option<String>,
}

impl Default for SolanaPaymentConfig {
    fn default() -> (config: Self)
        ensures
            config.network is Devnet,
            config.rpc_url is None,
    {
        SolanaPaymentConfig { network: SolanaNetwork::Devnet, rpc_url: None }
    }
}

impl SolanaPaymentConfig {
    /// The URL that requests go to: the custom one if set, else the network's.
    pub fn effective_rpc_url(&self) -> (url: String)
        ensures
            url@ == (match self.rpc_url {
                Some(url) => url@,
                None => self.network.url(),
            }),
    {
        match &self.rpc_url {
            Some(url) => url.clone(),
            None => self.network.rpc_url(),
        }
    }
}

/// What a payment request string says in JSON.
#[derive(Debug, Clone)]
pub struct SolanaPaymentRequestData {
    /// Recipient's base58 public key.
    pub recipient: String,
    /// Amount in lamports.
    pub amount: u64,
    /// Ephemeral reference pubkey for payment detection.
    pub reference: String,
    /// Fee recipient address (omitted when no fee configured).
    pub fee_address: Option<String>,
    /// Fee amount in lamports (omitted when no fee configured).
    pub fee_amount: Option<u64>,
}

/// The contents of a [`SolanaPaymentRequestData`].
pub struct RequestDataView {
    pub recipient: Seq<char>,
    pub amount: u64,
    pub reference: Seq<char>,
    pub fee_address: Option<Seq<char>>,
    pub fee_amount: Option<u64>,
}

impl View for SolanaPaymentRequestData {
    type V = RequestDataView;

    open spec fn view(&self) -> RequestDataView {
        RequestDataView {
            recipient: self.recipient@,
            amount: self.amount,
            reference: self.reference@,
            fee_address: match self.fee_address {
                Some(address) => Some(address@),
                None => None,
            },
            fee_amount: self.fee_amount,
        }
    }
}

impl RequestDataView {
    /// The members of the JSON object: the fee's only where there is one.
    pub open spec fn members(self) -> Seq<JsonMemberView> {
        let always = seq![
            ("recipient"@, Some(JsonScalarView::Text(self.recipient))),
            ("amount"@, Some(JsonScalarView::Number(self.amount))),
            ("reference"@, Some(JsonScalarView::Text(self.reference))),
        ];
        let with_address = match self.fee_address {
            Some(address) => always.push(("fee_address"@, Some(JsonScalarView::Text(address)))),
            None => always,
        };
        match self.fee_amount {
            Some(amount) => with_address.push(("fee_amount"@, Some(JsonScalarView::Number(amount)))),
            None => with_address,
        }
    }

    /// Whether a JSON text holds this request.
    pub open spec fn stands_in(self, text: Seq<char>) -> bool {
        json_object_members(text) == Some(by_name(self.members()))
    }

    /// The amount that the recipient should receive: what is left after the fee.
    pub open spec fn net_amount(self) -> u64 {
        let fee = match self.fee_amount {
            Some(fee) => fee,
            None => 0,
        };
        if fee <= self.amount {
            (self.amount - fee) as u64
        } else {
            0
        }
    }
}

/// A payment request with the end of the time for which it is valid.
#[derive(Debug, Clone)]
pub struct TimedRequest {
    pub data: SolanaPaymentRequestData,
    /// The last second at which the request is valid, counted from the Unix epoch; a request
    /// without it stays valid.
    pub expires_at: Option<u64>,
}

/// The contents of a [`TimedRequest`].
pub struct TimedRequestView {
    pub data: RequestDataView,
    pub expires_at: Option<u64>,
}

impl View for TimedRequest {
    type V = TimedRequestView;

    open spec fn view(&self) -> TimedRequestView {
        TimedRequestView { data: self.data@, expires_at: self.expires_at }
    }
}

impl TimedRequestView {
    /// The members of the JSON object: those of the request, and the end of its validity where
    /// it has one.
    pub open spec fn members(self) -> Seq<JsonMemberView> {
        match self.expires_at {
            Some(end) => self.data.members().push(
                ("expires_at"@, Some(JsonScalarView::Number(end))),
            ),
            None => self.data.members(),
        }
    }

    /// Whether a JSON text holds this request.
    pub open spec fn stands_in(self, text: Seq<char>) -> bool {
        json_object_members(text) == Some(by_name(self.members()))
    }

    /// Whether the request is no longer valid at `now`, in seconds since the Unix epoch.
    pub open spec fn is_expired(self, now: u64) -> bool {
        self.expires_at matches Some(end) && now > end
    }
}

/// No two of a request's members share a name.
pub proof fn lemma_member_names(request: TimedRequestView)
    ensures
        distinct_names(request.members()),
        distinct_names(request.data.members()),
{
    reveal_strlit("recipient");
    reveal_strlit("amount");
    reveal_strlit("reference");
    reveal_strlit("fee_address");
    reveal_strlit("fee_amount");
    assert("recipient"@.len() == 9 && "recipient"@[2] == 'c');
    assert("amount"@.len() == 6);
    assert("reference"@.len() == 9 && "reference"@[2] == 'f');
    assert("fee_address"@.len() == 11);
    assert("fee_amount"@.len() == 10 && "fee_amount"@[0] == 'f');
    reveal_strlit("expires_at");
    assert("expires_at"@.len() == 10 && "expires_at"@[0] == 'e');
    assert(distinct_names(request.data.members()));
}

impl SolanaPaymentRequestData {
    /// The members of the JSON object.
    fn json_members(&self) -> (members: Vec<(String, JsonScalar)>)
        ensures
            scalar_views(members@) == self@.members(),
    {
        let mut members: Vec<(String, JsonScalar)> = Vec::new();
        members.push(("recipient".to_owned(), JsonScalar::Text(self.recipient.clone())));
        members.push(("amount".to_owned(), JsonScalar::Number(self.amount)));
        members.push(("reference".to_owned(), JsonScalar::Text(self.reference.clone())));
        if let Some(address) = &self.fee_address {
            members.push(("fee_address".to_owned(), JsonScalar::Text(address.clone())));
        }
        if let Some(amount) = self.fee_amount {
            members.push(("fee_amount".to_owned(), JsonScalar::Number(amount)));
        }
        assert(scalar_views(members@) =~= self@.members());
        members
    }

    /// The request as compact JSON.
    pub fn to_json(&self) -> (text: String)
        ensures
            text@ == json_object_text(self@.members()),
            self@.stands_in(text@),
    {
        let members = self.json_members();
        proof {
            lemma_member_names(TimedRequestView { data: self@, expires_at: None });
        }
        write_json_object(&members)
    }

    /// The amount that the recipient should receive: what is left after the fee.
    pub fn net(&self) -> (amount: u64)
        ensures
            amount == self@.net_amount(),
    {
        match self.fee_amount {
            Some(fee) => self.amount.saturating_sub(fee),
            None => self.amount,
        }
    }
}

impl TimedRequest {
    /// The request as compact JSON.
    pub fn to_json(&self) -> (text: String)
        ensures
            text@ == json_object_text(self@.members()),
            self@.stands_in(text@),
    {
        let mut members = self.data.json_members();
        let ghost before = members@;
        if let Some(end) = self.expires_at {
            members.push(("expires_at".to_owned(), JsonScalar::Number(end)));
            assert(scalar_views(members@) =~= scalar_views(before).push(
                ("expires_at"@, Some(JsonScalarView::Number(end))),
            ));
        }
        proof {
            lemma_member_names(self@);
        }
        write_json_object(&members)
    }

    /// Whether the request is no longer valid at `now`, in seconds since the Unix epoch.
    pub fn has_expired(&self, now: u64) -> (yes: bool)
        ensures
            yes == self@.is_expired(now),
    {
        match self.expires_at {
            Some(end) => now > end,
            None => false,
        }
    }
}

/// Calls `SystemTime::now` and gives the seconds since the Unix epoch, or zero where the clock
/// stands before it. Nothing is said of the value.
#[verifier::external_body]
pub fn unix_time() -> (seconds: u64) {
    std::time::SystemTime::now()
        .duration_since(std::time::UNIX_EPOCH)
        .map_or(0, |elapsed| elapsed.as_secs())
}

/// The last second at which a request that was made at `now` is valid.
pub open spec fn end_of_validity(now: u64, expiry_secs: u32) -> u64 {
    if now + expiry_secs <= u64::MAX {
        (now + expiry_secs) as u64
    } else {
        u64::MAX
    }
}

/// Solana payment provider supporting native SOL transfers.
///
/// Uses reference-based payment detection: each payment request includes a unique
/// ephemeral reference pubkey. Payment confirmation is done by checking the signatures on
/// that reference.
pub struct SolanaPaymentProvider {
    pub config: SolanaPaymentConfig,
    pub keypair: Keypair,
    pub pending: PendingPayments,
}

/// What a request for `amount` says, where `owner` is to be paid and `reference` was drawn
/// for it.
pub open spec fn request_data(
    owner: Seq<u8>,
    reference: Seq<u8>,
    amount: u64,
    fee: Option<(Seq<char>, u64)>,
) -> RequestDataView {
    RequestDataView {
        recipient: address_text(owner),
        amount,
        reference: address_text(reference),
        fee_address: match fee {
            Some((address, _)) => Some(address),
            None => None,
        },
        fee_amount: match fee {
            Some((_, amount)) => Some(amount),
            None => None,
        },
    }
}

/// The fee that goes into a request: none where the amount is zero.
pub open spec fn embedded_fee(address: Seq<char>, amount: u64) -> Option<(Seq<char>, u64)> {
    if amount > 0 {
        Some((address, amount))
    } else {
        None
    }
}

/// The pending payments after a request was made: where the map is full, the settled entries
/// leave it first.
pub open spec fn pending_with(
    pending: Map<Seq<char>, PendingPayment>,
    request: Seq<char>,
    amount: u64,
) -> Map<Seq<char>, PendingPayment> {
    let room = if pending.len() >= PENDING_MAP_CAP {
        unsettled(pending)
    } else {
        pending
    };
    room.insert(request, PendingPayment { amount, settled: false })
}

/// Whether `request` asks for what `asked` says.
pub open spec fn is_request_for(request: PaymentRequest, asked: TimedRequestView) -> bool {
    &&& request.chain is Solana
    &&& request.amount == asked.data.amount
    &&& request.currency_unit@ == "lamport"@
    &&& request.request@ == json_object_text(asked.members())
    &&& asked.stands_in(request.request@)
}

/// What a request for `amount` says that was made at `now` and is valid for `expiry_secs`
/// seconds.
pub open spec fn timed_request(
    owner: Seq<u8>,
    reference: Seq<u8>,
    amount: u64,
    expiry_secs: u32,
    now: u64,
    fee: Option<(Seq<char>, u64)>,
) -> TimedRequestView {
    TimedRequestView {
        data: request_data(owner, reference, amount, fee),
        expires_at: Some(end_of_validity(now, expiry_secs)),
    }
}

/// Whether making a request at `now` with the given reference turned one provider into the
/// other and gave this result.
pub open spec fn made_request(
    before: SolanaPaymentProvider,
    after: SolanaPaymentProvider,
    amount: u64,
    expiry_secs: u32,
    now: u64,
    fee: Option<(Seq<char>, u64)>,
    reference: Seq<u8>,
    made: Result<PaymentRequest, ElisymError>,
) -> bool {
    let owner = before.keypair.public_key();
    let asked = timed_request(owner, reference, amount, expiry_secs, now, fee);
    &&& after.config == before.config
    &&& after.keypair == before.keypair
    &&& if amount == 0 {
        &&& is_payment_error(made, "Payment amount must be greater than 0"@)
        &&& after.pending@ == before.pending@
    } else {
        &&& made matches Ok(request) && {
            &&& is_request_for(request, asked)
            &&& after.pending@ == pending_with(before.pending@, request.request@, amount)
        }
        &&& is_address_of(asked.data.recipient, owner)
        &&& is_address_of(asked.data.reference, reference)
    }
}

/// What a payment transfers.
#[derive(Debug, Clone, Copy)]
pub struct TransferPlan {
    pub recipient: [u8; 32],
    /// The whole amount in lamports, the fee included.
    pub amount: u64,
    pub reference: [u8; 32],
    /// Who gets the fee, and how much it is.
    pub fee: Option<([u8; 32], u64)>,
}

/// The contents of a [`TransferPlan`].
pub struct TransferPlanView {
    pub recipient: Seq<u8>,
    pub amount: u64,
    pub reference: Seq<u8>,
    pub fee: Option<(Seq<u8>, u64)>,
}

impl View for TransferPlan {
    type V = TransferPlanView;

    open spec fn view(&self) -> TransferPlanView {
        TransferPlanView {
            recipient: self.recipient@,
            amount: self.amount,
            reference: self.reference@,
            fee: match self.fee {
                Some((address, amount)) => Some((address@, amount)),
                None => None,
            },
        }
    }
}

impl TransferPlanView {
    /// The fee in lamports.
    pub open spec fn fee_amount(self) -> u64 {
        match self.fee {
            Some((_, amount)) => amount,
            None => 0,
        }
    }

    /// What the recipient gets: the amount less the fee.
    pub open spec fn provider_amount(self) -> u64 {
        if self.fee_amount() <= self.amount {
            (self.amount - self.fee_amount()) as u64
        } else {
            0
        }
    }

    /// The transfers, sent by `payer`: one to the recipient that carries the reference as a
    /// read-only account, and one of the fee where there is one.
    pub open spec fn instructions(self, payer: Seq<u8>) -> Seq<InstructionView> {
        let plain = transfer_of(payer, self.recipient, self.provider_amount());
        let referenced = InstructionView {
            accounts: plain.accounts.push(
                AccountMetaView { key: self.reference, is_signer: false, is_writable: false },
            ),
            ..plain
        };
        match self.fee {
            Some((address, amount)) => seq![referenced, transfer_of(payer, address, amount)],
            None => seq![referenced],
        }
    }
}

/// The fee of a payment: who gets it and how much it is, or what is wrong with it. A fee
/// counts where both address and amount are given and the amount is not zero.
pub open spec fn planned_fee(data: RequestDataView) -> Result<Option<(Seq<u8>, u64)>, Seq<char>> {
    match (data.fee_address, data.fee_amount) {
        (Some(address), Some(amount)) => if amount == 0 {
            Ok(None)
        } else if amount >= data.amount {
            Err(
                "fee_amount ("@ + decimal(amount as nat) + ") must be less than total amount ("@
                    + decimal(data.amount as nat) + ")"@,
            )
        } else {
            match parsed_address(address) {
                Ok(key) => Ok(Some((key, amount))),
                Err(error) => Err("Invalid fee address: "@ + error),
            }
        },
        _ => Ok(None),
    }
}

/// What paying a request transfers, or what is wrong with the request.
pub open spec fn planned(data: RequestDataView) -> Result<TransferPlanView, Seq<char>> {
    match (parsed_address(data.recipient), parsed_address(data.reference), planned_fee(data)) {
        (Err(error), _, _) => Err("Invalid recipient address: "@ + error),
        (_, Err(error), _) => Err("Invalid reference pubkey: "@ + error),
        (_, _, Err(error)) => Err(error),
        (Ok(recipient), Ok(reference), Ok(fee)) => Ok(
            TransferPlanView { recipient, amount: data.amount, reference, fee },
        ),
    }
}

/// What paying a request at `now` transfers, or why it cannot be paid: it has expired, or
/// something is wrong with it.
pub open spec fn planned_at(request: TimedRequestView, now: u64) -> Result<
    TransferPlanView,
    Seq<char>,
> {
    if request.is_expired(now) {
        Err("Payment request has expired"@)
    } else {
        planned(request.data)
    }
}

/// A transaction that is ready to be sent.
#[derive(Debug)]
pub struct SignedTransaction {
    pub message: Message,
    pub signatures: Vec<Vec<u8>>,
}

/// The fee of a payment, or the payment error that it gives.
fn read_fee(data: &SolanaPaymentRequestData) -> (fee: Result<Option<([u8; 32], u64)>, ElisymError>)
    ensures
        match planned_fee(data@) {
            Ok(Some((key, amount))) => fee matches Ok(Some(found)) && found.0@ == key && found.1
                == amount,
            Ok(None) => fee matches Ok(None),
            Err(detail) => is_payment_error(fee, detail),
        },
{
    match (&data.fee_address, data.fee_amount) {
        (Some(address), Some(amount)) => {
            if amount == 0 {
                return Ok(None);
            }
            if amount >= data.amount {
                let detail = "fee_amount (".to_owned().concat(
                    decimal_text(amount).as_str(),
                ).concat(") must be less than total amount (").concat(
                    decimal_text(data.amount).as_str(),
                ).concat(")");
                return Err(ElisymError::Payment(detail));
            }
            match read_address(address.as_str()) {
                Ok(key) => Ok(Some((key, amount))),
                Err(error) => Err(payment_error("Invalid fee address: ", error.as_str())),
            }
        },
        _ => Ok(None),
    }
}

impl SolanaPaymentProvider {
    /// Create a new Solana payment provider with the given config and keypair.
    pub fn new(config: SolanaPaymentConfig, keypair: Keypair) -> (provider: Self)
        ensures
            provider.config == config,
            provider.keypair == keypair,
            provider.pending@ == Map::<Seq<char>, PendingPayment>::empty(),
    {
        SolanaPaymentProvider { config, keypair, pending: PendingPayments::new() }
    }

    /// Create from a base58-encoded secret key.
    pub fn from_secret_key(config: SolanaPaymentConfig, base58_secret: &str) -> (provider: Result<
        Self,
        ElisymError,
    >)
        ensures
            match base58_decoded(base58_secret@) {
                Ok(bytes) => is_provider_of(provider, config, bytes),
                Err(error) => is_payment_error(provider, "Invalid base58 secret key: "@ + error),
            },
    {
        match decode_base58(base58_secret) {
            Ok(bytes) => Self::from_bytes(config, bytes.as_slice()),
            Err(error) => Err(payment_error("Invalid base58 secret key: ", error.as_str())),
        }
    }

    /// Create from raw secret key bytes.
    pub fn from_bytes(config: SolanaPaymentConfig, bytes: &[u8]) -> (provider: Result<
        Self,
        ElisymError,
    >)
        ensures
            is_provider_of(provider, config, bytes@),
    {
        match Keypair::from_bytes(bytes) {
            Ok(keypair) => Ok(Self::new(config, keypair)),
            Err(error) => Err(payment_error("Invalid keypair bytes: ", error.as_str())),
        }
    }

    /// Get this provider's Solana address (base58).
    pub fn address(&self) -> (address: String)
        ensures
            address@ == address_text(self.keypair.public_key()),
            is_address_of(address@, self.keypair.public_key()),
    {
        self.keypair.address()
    }

    /// Which chain this provider operates on.
    pub fn chain(&self) -> (chain: PaymentChain)
        ensures
            chain is Solana,
    {
        PaymentChain::Solana
    }

    /// The SOL balance in lamports, given the RPC node's reply.
    pub fn balance(&self, reply: Result<u64, String>) -> (balance: Result<u64, ElisymError>)
        ensures
            match reply {
                Ok(lamports) => balance == Ok::<u64, ElisymError>(lamports),
                Err(error) => is_payment_error(balance, "Failed to get balance: "@ + error@),
            },
    {
        match reply {
            Ok(lamports) => Ok(lamports),
            Err(error) => Err(payment_error("Failed to get balance: ", error.as_str())),
        }
    }

    /// The signature of an airdrop of SOL (devnet/testnet only), given the RPC node's reply.
    pub fn request_airdrop(&self, reply: Result<String, String>) -> (signature: Result<
        String,
        ElisymError,
    >)
        ensures
            match reply {
                Ok(text) => signature == Ok::<String, ElisymError>(text),
                Err(error) => is_payment_error(signature, "Airdrop failed: "@ + error@),
            },
    {
        match reply {
            Ok(text) => Ok(text),
            Err(error) => Err(payment_error("Airdrop failed: ", error.as_str())),
        }
    }

    /// Create a payment request for the given amount, with a reference drawn at random and
    /// valid for `expiry_secs` seconds from now.
    pub fn create_payment_request(
        &mut self,
        amount: u64,
        description: &str,
        expiry_secs: u32,
    ) -> (made: Result<PaymentRequest, ElisymError>)
        ensures
            exists|drawn: Keypair, now: u64| #[trigger]
                call_ensures(Keypair::new, (), drawn) && #[trigger] call_ensures(unix_time, (), now)
                    && made_request(
                    *old(self),
                    *final(self),
                    amount,
                    expiry_secs,
                    now,
                    None,
                    drawn.public_key(),
                    made,
                ),
    {
        let reference = Keypair::new();
        let key = reference.public();
        let now = unix_time();
        self.create_payment_request_inner(amount, description, expiry_secs, now, None, &key)
    }

    /// Create a payment request with an embedded fee split.
    ///
    /// The fee is inclusive (subtracted from `amount`, not added on top).
    /// When a customer pays this request, the transaction will
    /// send `amount - fee_amount` to the provider and `fee_amount` to `fee_address`.
    ///
    /// Fee calculation is the caller's responsibility: this method only embeds
    /// the pre-computed values into the payment request.
    ///
    /// # Example
    ///
    /// With `amount = 100_000` lamports and `fee_amount = 3_000` lamports (3%),
    /// the provider receives 97_000 lamports and the fee address receives 3_000.
    pub fn create_payment_request_with_fee(
        &mut self,
        amount: u64,
        description: &str,
        expiry_secs: u32,
        fee_address: &str,
        fee_amount: u64,
    ) -> (made: Result<PaymentRequest, ElisymError>)
        ensures
            if fee_amount >= amount {
                &&& is_payment_error(made, "fee_amount must be less than amount"@)
                &&& *final(self) == *old(self)
            } else {
                exists|drawn: Keypair, now: u64| #[trigger]
                    call_ensures(Keypair::new, (), drawn) && #[trigger] call_ensures(
                        unix_time,
                        (),
                        now,
                    ) && made_request(
                        *old(self),
                        *final(self),
                        amount,
                        expiry_secs,
                        now,
                        embedded_fee(fee_address@, fee_amount),
                        drawn.public_key(),
                        made,
                    )
            },
    {
        if fee_amount >= amount {
            return Err(ElisymError::Payment("fee_amount must be less than amount".to_owned()));
        }
        let fee = if fee_amount > 0 {
            Some((fee_address.to_owned(), fee_amount))
        } else {
            None
        };
        let reference = Keypair::new();
        let key = reference.public();
        let now = unix_time();
        self.create_payment_request_inner(amount, description, expiry_secs, now, fee, &key)
    }

    /// Shared logic for creating a payment request, with optional fee and a given reference.
    /// `now` is the time in seconds since the Unix epoch. The description does not go into the
    /// request.
    pub fn create_payment_request_inner(
        &mut self,
        amount: u64,
        _description: &str,
        expiry_secs: u32,
        now: u64,
        fee: Option<(String, u64)>,
        reference: &[u8; 32],
    ) -> (made: Result<PaymentRequest, ElisymError>)
        ensures
            made_request(
                *old(self),
                *final(self),
                amount,
                expiry_secs,
                now,
                (match fee {
                    Some((address, amount)) => Some((address@, amount)),
                    None => None,
                }),
                reference@,
                made,
            ),
    {
        if amount == 0 {
            return Err(ElisymError::Payment("Payment amount must be greater than 0".to_owned()));
        }
        let (fee_address, fee_amount) = match fee {
            Some((address, amount)) => (Some(address), Some(amount)),
            None => (None, None),
        };
        let data = SolanaPaymentRequestData {
            recipient: self.keypair.address(),
            amount,
            reference: write_address(reference),
            fee_address,
            fee_amount,
        };
        let asked = TimedRequest { data, expires_at: Some(now.saturating_add(expiry_secs as u64)) };
        let request = asked.to_json();
        if self.pending.len() >= PENDING_MAP_CAP {
            self.pending.forget_settled();
        }
        self.pending.insert(request.clone(), PendingPayment { amount, settled: false });
        Ok(
            PaymentRequest {
                chain: PaymentChain::Solana,
                amount,
                currency_unit: "lamport".to_owned(),
                request,
            },
        )
    }

    /// What paying a request transfers.
    ///
    /// `decoded` is what the request string says, or why it could not be read; `now` is the
    /// time in seconds since the Unix epoch. An expired request is refused.
    ///
    /// The caller **MUST** validate `fee_address` and `fee_amount` before: the payment request
    /// is untrusted data. Always verify that the fee parameters match the expected application
    /// fee configuration.
    pub fn plan_payment(
        &self,
        decoded: Result<TimedRequest, String>,
        now: u64,
    ) -> (plan: Result<TransferPlan, ElisymError>)
        ensures
            match decoded {
                Ok(request) => match planned_at(request@, now) {
                    Ok(expected) => plan matches Ok(plan) && plan@ == expected,
                    Err(detail) => is_payment_error(plan, detail),
                },
                Err(error) => is_payment_error(plan, "Invalid payment request: "@ + error@),
            },
    {
        let request = match decoded {
            Ok(request) => request,
            Err(error) => {
                return Err(payment_error("Invalid payment request: ", error.as_str()));
            },
        };
        if request.has_expired(now) {
            return Err(ElisymError::Payment("Payment request has expired".to_owned()));
        }
        let data = request.data;
        let recipient = match read_address(data.recipient.as_str()) {
            Ok(recipient) => recipient,
            Err(error) => {
                return Err(payment_error("Invalid recipient address: ", error.as_str()));
            },
        };
        let reference = match read_address(data.reference.as_str()) {
            Ok(reference) => reference,
            Err(error) => {
                return Err(payment_error("Invalid reference pubkey: ", error.as_str()));
            },
        };
        let fee = match read_fee(&data) {
            Ok(fee) => fee,
            Err(error) => {
                return Err(error);
            },
        };
        Ok(TransferPlan { recipient, amount: data.amount, reference, fee })
    }

    /// The transfers of a plan, sent by this provider.
    fn transfer_instructions(&self, plan: &TransferPlan) -> (instructions: Vec<Instruction>)
        ensures
            instruction_views(instructions@) == plan@.instructions(self.keypair.public_key()),
    {
        let payer = self.keypair.public();
        let provider_amount = match plan.fee {
            Some((_, fee_amount)) => plan.amount.saturating_sub(fee_amount),
            None => plan.amount,
        };
        let mut instructions: Vec<Instruction> = Vec::new();
        let mut provider_transfer = transfer(&payer, &plan.recipient, provider_amount);
        let ghost plain = provider_transfer@;
        provider_transfer.accounts.push(
            AccountMeta { key: plan.reference, is_signer: false, is_writable: false },
        );
        assert(provider_transfer@.accounts =~= plain.accounts.push(
            AccountMetaView { key: plan.reference@, is_signer: false, is_writable: false },
        ));
        instructions.push(provider_transfer);
        if let Some((fee_address, fee_amount)) = plan.fee {
            instructions.push(transfer(&payer, &fee_address, fee_amount));
        }
        assert(instruction_views(instructions@) =~= plan@.instructions(payer@));
        instructions
    }

    /// Build a native SOL transfer with reference key, signed by this provider.
    /// If there is a fee, adds a second transfer for the fee amount
    /// and sends `(amount - fee)` to the recipient.
    ///
    /// `blockhash` is the RPC node's latest blockhash, or why there is none.
    pub fn build_transfer(
        &self,
        plan: &TransferPlan,
        blockhash: Result<[u8; 32], String>,
    ) -> (transaction: Result<SignedTransaction, ElisymError>)
        ensures
            match blockhash {
                Ok(hash) => transaction matches Ok(made) && {
                    let payer = self.keypair.public_key();
                    let instructions = plan@.instructions(payer);
                    &&& made.message@ == message_of(instructions, payer, hash@)
                    &&& made.message@.blockhash == hash@
                    &&& made.message@.keys[0] == payer
                    &&& made.message@.header.0 == 1
                    &&& made.signatures@.len() == 1
                    &&& makes_calls(made.message@, instructions)
                    &&& signature_views(made.signatures@) == signatures_of(
                        self.keypair.bytes(),
                        made.message@,
                    )
                },
                Err(error) => is_payment_error(transaction, "Failed to get blockhash: "@ + error@),
            },
    {
        let instructions = self.transfer_instructions(plan);
        let blockhash = match blockhash {
            Ok(blockhash) => blockhash,
            Err(error) => {
                return Err(payment_error("Failed to get blockhash: ", error.as_str()));
            },
        };
        let payer = self.keypair.public();
        let ghost calls = plan@.instructions(payer@);
        proof {
            lemma_small_and_signed(plan@, payer@);
        }
        let message = compile_message(instructions, payer, blockhash);
        assert forall|i: int| 0 <= i < message@.instructions.len() implies (
        #[trigger] message@.instructions[i]).1.len() <= 8 && message@.instructions[i].2.len()
            <= 64 by {
            assert(calls[i].accounts.len() <= 8 && calls[i].data.len() <= 64);
        }
        let signatures = sign_message(self.keypair.secret_bytes().as_slice(), &message);
        Ok(SignedTransaction { message, signatures })
    }

    /// The result of a payment, given the signature under which the transaction was confirmed
    /// or why it was not.
    pub fn payment_result(&self, sent: Result<String, String>) -> (result: Result<
        PaymentResult,
        ElisymError,
    >)
        ensures
            match sent {
                Ok(signature) => result matches Ok(result) && result.payment_id == signature
                    && result.status@ == "confirmed"@,
                Err(error) => is_payment_error(result, "Transaction failed: "@ + error@),
            },
    {
        match sent {
            Ok(signature) => Ok(
                PaymentResult { payment_id: signature, status: "confirmed".to_owned() },
            ),
            Err(error) => Err(payment_error("Transaction failed: ", error.as_str())),
        }
    }
}

/// Whether a result is a provider with the given config and the key pair that the bytes hold,
/// or the error that they hold none.
pub open spec fn is_provider_of(
    provider: Result<SolanaPaymentProvider, ElisymError>,
    config: SolanaPaymentConfig,
    bytes: Seq<u8>,
) -> bool {
    match keypair_public_key(bytes) {
        Ok(key) => provider matches Ok(provider) && {
            &&& provider.config == config
            &&& provider.keypair.bytes() == bytes
            &&& provider.keypair.public_key() == key
            &&& provider.pending@ == Map::<Seq<char>, PendingPayment>::empty()
        },
        Err(error) => is_payment_error(provider, "Invalid keypair bytes: "@ + error),
    }
}

/// The transfers of a plan fit in a message, and nobody but the payer signs them.
proof fn lemma_small_and_signed(plan: TransferPlanView, payer: Seq<u8>)
    ensures
        fits_message(plan.instructions(payer)),
        signed_by(plan.instructions(payer), payer),
{
    lemma_auto_spec_u64_to_from_le_bytes();
}

} // verus!
