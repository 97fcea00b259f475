//! Looking up whether a payment request was paid on chain.
//!
//! A lookup alternates with the RPC node: it asks for the signatures on the request's
//! reference, then for the transactions behind them one by one, until one of them pays.
use vstd::prelude::*;

use crate::error::{is_payment_error, payment_error, ElisymError};
use crate::payment::keys::{parsed_address, parsed_signature, read_address, read_signature};
use crate::payment::solana::{SolanaPaymentProvider, SolanaPaymentRequestData};
use crate::payment::PaymentStatus;
use crate::text::{same_text, texts};

verus! {

/// A signature that was found on a reference.
#[derive(Debug)]
pub struct SignatureInfo {
    /// The signature in base58.
    pub signature: String,
    /// Whether its transaction failed.
    pub failed: bool,
}

/// The contents of a [`SignatureInfo`].
pub struct SignatureInfoView {
    pub signature: Seq<char>,
    pub failed: bool,
}

impl View for SignatureInfo {
    type V = SignatureInfoView;

    open spec fn view(&self) -> SignatureInfoView {
        SignatureInfoView { signature: self.signature@, failed: self.failed }
    }
}

/// The contents of a row of signatures.
pub open spec fn signature_infos(list: Seq<SignatureInfo>) -> Seq<SignatureInfoView> {
    list.map_values(|info: SignatureInfo| info@)
}

/// What an RPC node says of a transaction.
#[derive(Debug)]
pub struct ChainTransaction {
    /// The balances of its accounts before and after it, where its status is known.
    pub balances: Option<(Vec<u64>, Vec<u64>)>,
    /// The addresses of its accounts, where it came in JSON.
    pub account_keys: Option<Vec<String>>,
}

/// The contents of a [`ChainTransaction`].
pub struct ChainTransactionView {
    pub balances: Option<(Seq<u64>, Seq<u64>)>,
    pub account_keys: Option<Seq<Seq<char>>>,
}

impl View for ChainTransaction {
    type V = ChainTransactionView;

    open spec fn view(&self) -> ChainTransactionView {
        ChainTransactionView {
            balances: match self.balances {
                Some((pre, post)) => Some((pre@, post@)),
                None => None,
            },
            account_keys: match self.account_keys {
                Some(keys) => Some(texts(keys@)),
                None => None,
            },
        }
    }
}

impl ChainTransactionView {
    /// The position of an account.
    pub open spec fn position(self, address: Seq<char>) -> Option<int> {
        match (self.balances, self.account_keys) {
            (Some(_), Some(keys)) => keys.index_of_first(address),
            _ => None,
        }
    }

    /// Whether the balances reach as far as the given account.
    pub open spec fn covers(self, address: Seq<char>) -> bool {
        self.position(address) matches Some(i) ==> self.balances matches Some((pre, post)) && i
            < pre.len() && i < post.len()
    }

    /// By how much an account's balance grew, where the transaction tells.
    pub open spec fn received(self, address: Seq<char>) -> Option<u64> {
        match (self.position(address), self.balances) {
            (Some(i), Some((pre, post))) => Some(
                if post[i] > pre[i] {
                    (post[i] - pre[i]) as u64
                } else {
                    0
                },
            ),
            _ => None,
        }
    }

    /// Whether the transaction gave an account at least the given amount.
    pub open spec fn pays(self, address: Seq<char>, amount: u64) -> bool {
        self.received(address) matches Some(received) && received >= amount
    }
}

impl ChainTransaction {
    /// Whether the balances reach as far as the given account.
    pub fn has_balances_of(&self, address: &str) -> (yes: bool)
        ensures
            yes == self@.covers(address@),
    {
        match (&self.balances, self.position_of(address)) {
            (Some((pre, post)), Some(at)) => at < pre.len() && at < post.len(),
            _ => true,
        }
    }

    /// The position of an account.
    fn position_of(&self, address: &str) -> (at: Option<usize>)
        ensures
            match at {
                Some(at) => self@.position(address@) == Some(at as int),
                None => self@.position(address@) is None,
            },
    {
        if self.balances.is_none() {
            return None;
        }
        let keys = match &self.account_keys {
            Some(keys) => keys,
            None => {
                return None;
            },
        };
        let ghost list = texts(keys@);
        for i in 0..keys.len()
            invariant
                list == texts(keys@),
                self.balances is Some,
                self.account_keys == Some(*keys),
                forall|j: int| 0 <= j < i ==> #[trigger] list[j] != address@,
        {
            assert(list[i as int] == keys@[i as int]@);
            if same_text(keys[i].as_str(), address) {
                proof {
                    list.index_of_first_ensures(address@);
                }
                return Some(i);
            }
        }
        proof {
            list.index_of_first_ensures(address@);
        }
        None
    }

    /// By how much an account's balance grew, where the transaction tells.
    pub fn received_by(&self, address: &str) -> (received: Option<u64>)
        requires
            self@.covers(address@),
        ensures
            received == self@.received(address@),
    {
        match (&self.balances, self.position_of(address)) {
            (Some((pre, post)), Some(at)) => Some(post[at].saturating_sub(pre[at])),
            _ => None,
        }
    }
}

/// What comes next among the signatures.
pub enum Scan {
    /// None is left.
    Exhausted,
    /// One cannot be read, for the given reason.
    Unreadable(Seq<char>),
    /// The transaction of the signature at the position has to be fetched.
    Fetch(int, Seq<u8>),
}

/// What comes next among the signatures from position `from` on: those of failed
/// transactions are skipped.
pub open spec fn scan(signatures: Seq<SignatureInfoView>, from: int) -> Scan
    decreases signatures.len() - from,
{
    if from >= signatures.len() {
        Scan::Exhausted
    } else if signatures[from].failed {
        scan(signatures, from + 1)
    } else {
        match parsed_signature(signatures[from].signature) {
            Ok(signature) => Scan::Fetch(from, signature),
            Err(error) => Scan::Unreadable(error),
        }
    }
}

/// A lookup in progress.
#[derive(Debug)]
pub struct PaymentLookup {
    /// The request string.
    pub request: String,
    /// Who is to be paid.
    pub recipient: String,
    /// The address whose signatures tell of the payment.
    pub reference: [u8; 32],
    /// The amount that the recipient should receive.
    pub expected_net: u64,
    /// The signatures on the reference.
    pub signatures: Vec<SignatureInfo>,
    /// The position of the signature whose transaction is waited for.
    pub at: usize,
}

/// What a lookup needs next.
#[derive(Debug)]
pub enum LookupStep {
    /// Nothing: this is the result.
    Done(Result<PaymentStatus, ElisymError>),
    /// The signatures on the reference.
    Signatures(PaymentLookup),
    /// The transaction with the given signature.
    Transaction(PaymentLookup, [u8; 64]),
}

impl LookupStep {
    /// Whether the payment is settled with the given amount.
    pub open spec fn is_settled(self, amount: u64) -> bool {
        self matches LookupStep::Done(Ok(status)) && status.settled && status.amount == Some(amount)
    }

    /// Whether the payment is not settled.
    pub open spec fn is_unsettled(self) -> bool {
        self matches LookupStep::Done(Ok(status)) && !status.settled && status.amount is None
    }

    /// Whether the lookup failed with the given payment error.
    pub open spec fn is_failed(self, detail: Seq<char>) -> bool {
        self matches LookupStep::Done(result) && is_payment_error(result, detail)
    }

    /// Whether this is what a scan leads to, for a lookup of the given request.
    pub open spec fn follows(
        self,
        scan: Scan,
        request: Seq<char>,
        recipient: Seq<char>,
        expected_net: u64,
        signatures: Seq<SignatureInfoView>,
    ) -> bool {
        match scan {
            Scan::Exhausted => self.is_unsettled(),
            Scan::Unreadable(error) => self.is_failed("Invalid signature: "@ + error),
            Scan::Fetch(at, signature) => self matches LookupStep::Transaction(lookup, wanted) && {
                &&& wanted@ == signature
                &&& lookup.at == at
                &&& lookup.at < lookup.signatures@.len()
                &&& lookup.request@ == request
                &&& lookup.recipient@ == recipient
                &&& lookup.expected_net == expected_net
                &&& signature_infos(lookup.signatures@) == signatures
            },
        }
    }
}

/// Goes on with the signatures from position `from` on.
fn next_signature(lookup: PaymentLookup, from: usize) -> (step: LookupStep)
    requires
        from <= lookup.signatures@.len(),
    ensures
        step.follows(
            scan(signature_infos(lookup.signatures@), from as int),
            lookup.request@,
            lookup.recipient@,
            lookup.expected_net,
            signature_infos(lookup.signatures@),
        ),
{
    let ghost all = signature_infos(lookup.signatures@);
    let mut lookup = lookup;
    let mut at: usize = from;
    while at < lookup.signatures.len() && lookup.signatures[at].failed
        invariant
            from <= at <= lookup.signatures@.len(),
            all == signature_infos(lookup.signatures@),
            scan(all, from as int) == scan(all, at as int),
        decreases lookup.signatures@.len() - at,
    {
        assert(all[at as int].failed);
        at = at + 1;
    }
    if at >= lookup.signatures.len() {
        return LookupStep::Done(Ok(PaymentStatus { settled: false, amount: None }));
    }
    assert(all[at as int] == lookup.signatures@[at as int]@);
    match read_signature(lookup.signatures[at].signature.as_str()) {
        Ok(signature) => {
            lookup.at = at;
            LookupStep::Transaction(lookup, signature)
        },
        Err(error) => LookupStep::Done(Err(payment_error("Invalid signature: ", error.as_str()))),
    }
}

impl SolanaPaymentProvider {
    /// Starts to look up the status of a payment by its request string.
    ///
    /// `decoded` is what the request string says, or why it could not be read. A request that
    /// is known to be settled needs nothing more. An expired request is looked up too: it may
    /// have been paid in time.
    pub fn lookup_payment(
        &self,
        request: &str,
        decoded: Result<SolanaPaymentRequestData, String>,
    ) -> (step: LookupStep)
        ensures
            if self.pending@.contains_key(request@) && self.pending@[request@].settled {
                step.is_settled(self.pending@[request@].amount)
            } else {
                match decoded {
                    Ok(data) => match parsed_address(data@.reference) {
                        Ok(key) => step matches LookupStep::Signatures(lookup) && {
                            &&& lookup.request@ == request@
                            &&& lookup.recipient@ == data@.recipient
                            &&& lookup.reference@ == key
                            &&& lookup.expected_net == data@.net_amount()
                        },
                        Err(error) => step.is_failed("Invalid reference pubkey: "@ + error),
                    },
                    Err(error) => step.is_failed("Invalid payment request: "@ + error@),
                }
            },
    {
        if let Some(payment) = self.pending.get(request) {
            if payment.settled {
                return LookupStep::Done(
                    Ok(PaymentStatus { settled: true, amount: Some(payment.amount) }),
                );
            }
        }
        let data = match decoded {
            Ok(data) => data,
            Err(error) => {
                return LookupStep::Done(
                    Err(payment_error("Invalid payment request: ", error.as_str())),
                );
            },
        };
        let reference = match read_address(data.reference.as_str()) {
            Ok(reference) => reference,
            Err(error) => {
                return LookupStep::Done(
                    Err(payment_error("Invalid reference pubkey: ", error.as_str())),
                );
            },
        };
        LookupStep::Signatures(
            PaymentLookup {
                request: request.to_owned(),
                expected_net: data.net(),
                recipient: data.recipient,
                reference,
                signatures: Vec::new(),
                at: 0,
            },
        )
    }

    /// Goes on with the signatures that the RPC node found on the reference, or with its
    /// error.
    pub fn signatures_found(
        &self,
        lookup: PaymentLookup,
        found: Result<Vec<SignatureInfo>, String>,
    ) -> (step: LookupStep)
        ensures
            match found {
                Ok(signatures) => step.follows(
                    scan(signature_infos(signatures@), 0),
                    lookup.request@,
                    lookup.recipient@,
                    lookup.expected_net,
                    signature_infos(signatures@),
                ),
                Err(error) => step.is_failed("Failed to query signatures: "@ + error@),
            },
    {
        match found {
            Ok(signatures) => next_signature(PaymentLookup { signatures, ..lookup }, 0),
            Err(error) => LookupStep::Done(
                Err(payment_error("Failed to query signatures: ", error.as_str())),
            ),
        }
    }

    /// Goes on with the transaction that was waited for, or with the RPC node's error. Where
    /// the transaction pays, the request is no longer pending.
    pub fn transaction_found(
        &mut self,
        lookup: PaymentLookup,
        found: Result<ChainTransaction, String>,
    ) -> (step: LookupStep)
        requires
            lookup.at < lookup.signatures@.len(),
            found matches Ok(transaction) ==> transaction@.covers(lookup.recipient@),
        ensures
            final(self).config == old(self).config,
            final(self).keypair == old(self).keypair,
            match found {
                Ok(transaction) => if transaction@.pays(lookup.recipient@, lookup.expected_net) {
                    &&& step.is_settled(transaction@.received(lookup.recipient@)->0)
                    &&& final(self).pending@ == old(self).pending@.remove(lookup.request@)
                } else {
                    &&& step.follows(
                        scan(signature_infos(lookup.signatures@), lookup.at + 1),
                        lookup.request@,
                        lookup.recipient@,
                        lookup.expected_net,
                        signature_infos(lookup.signatures@),
                    )
                    &&& final(self).pending@ == old(self).pending@
                },
                Err(error) => {
                    &&& step.is_failed("Failed to get transaction: "@ + error@)
                    &&& final(self).pending@ == old(self).pending@
                },
            },
    {
        let transaction = match found {
            Ok(transaction) => transaction,
            Err(error) => {
                return LookupStep::Done(
                    Err(payment_error("Failed to get transaction: ", error.as_str())),
                );
            },
        };
        if let Some(received) = transaction.received_by(lookup.recipient.as_str()) {
            if received >= lookup.expected_net {
                self.pending.remove(lookup.request.as_str());
                return LookupStep::Done(
                    Ok(PaymentStatus { settled: true, amount: Some(received) }),
                );
            }
        }
        assert(lookup.at < lookup.signatures.len());
        let next: usize = lookup.at + 1;
        next_signature(lookup, next)
    }
}

/// What an RPC node says is seen with all its fields, one by one in lists.
pub proof fn replies_show_their_fields(
    transaction: ChainTransaction,
    info: SignatureInfo,
    list: Seq<SignatureInfo>,
)
    ensures
        transaction@.balances is Some == transaction.balances is Some,
        transaction.balances matches Some((pre, post)) ==> transaction@.balances == Some(
            (pre@, post@),
        ),
        transaction@.account_keys is Some == transaction.account_keys is Some,
        transaction.account_keys matches Some(keys) ==> transaction@.account_keys->0.len()
            == keys@.len() && (forall|i: int|
            0 <= i < keys@.len() ==> #[trigger] transaction@.account_keys->0[i] == keys@[i]@),
        info@.signature == info.signature@,
        info@.failed == info.failed,
        signature_infos(list).len() == list.len(),
        forall|i: int| 0 <= i < list.len() ==> #[trigger] signature_infos(list)[i] == list[i]@,
{
}

/// What an account received is told by its first position among the keys: the balance after is
/// the balance before and what was received, also where the account was empty, and a balance
/// that did not grow means that nothing was received.
pub proof fn received_is_the_growth_of_the_balance(
    keys: Seq<Seq<char>>,
    pre: Seq<u64>,
    post: Seq<u64>,
    address: Seq<char>,
    i: int,
    amount: u64,
)
    requires
        0 <= i < keys.len(),
        keys[i] == address,
        forall|j: int| 0 <= j < i ==> #[trigger] keys[j] != address,
        i < pre.len() && i < post.len(),
    ensures
        ({
            let transaction = ChainTransactionView {
                balances: Some((pre, post)),
                account_keys: Some(keys),
            };
            &&& transaction.covers(address)
            &&& transaction.received(address) is Some
            &&& post[i] >= pre[i] ==> pre[i] + transaction.received(address)->0 == post[i]
            &&& post[i] < pre[i] ==> transaction.received(address)->0 == 0
            &&& transaction.pays(address, amount) <==> amount == 0 || post[i] - pre[i] >= amount
        }),
{
    keys.index_of_first_ensures(address);
    let at = keys.index_of_first(address);
    assert(keys.contains(address)) by {
        assert(keys[i] == address);
    }
    assert(at == Some(i));
}

/// A transaction that knows no balances, names no accounts, or names others only, tells of no
/// receipt and pays nobody.
pub proof fn nothing_is_received_without_an_account(
    transaction: ChainTransactionView,
    address: Seq<char>,
    amount: u64,
)
    requires
        transaction.balances is None || transaction.account_keys is None || !(
        transaction.account_keys->0).contains(address),
    ensures
        transaction.covers(address),
        transaction.received(address) is None,
        !transaction.pays(address, amount),
{
    if transaction.account_keys is Some {
        (transaction.account_keys->0).index_of_first_ensures(address);
    }
}

/// The transaction to fetch is that of the first signature, from a position on, that did not
/// fail, where it can be read; where it cannot, that ends the lookup, and where there is none,
/// the signatures are exhausted.
pub proof fn first_signature_that_did_not_fail_comes_next(
    signatures: Seq<SignatureInfoView>,
    from: int,
    at: int,
)
    requires
        0 <= from <= at <= signatures.len(),
        forall|j: int| from <= j < at ==> (#[trigger] signatures[j]).failed,
        at < signatures.len() ==> !signatures[at].failed,
    ensures
        at == signatures.len() ==> scan(signatures, from) is Exhausted,
        at < signatures.len() ==> (match parsed_signature(signatures[at].signature) {
            Ok(signature) => scan(signatures, from) == Scan::Fetch(at, signature),
            Err(error) => scan(signatures, from) == Scan::Unreadable(error),
        }),
    decreases at - from,
{
    if from < at {
        assert(signatures[from].failed);
        first_signature_that_did_not_fail_comes_next(signatures, from + 1, at);
    }
}

/// What the end of a lookup says: settled with the amount, not settled and without one, or the
/// payment error with the given detail.
pub proof fn end_of_a_lookup_says_its_status(step: LookupStep, amount: u64, detail: Seq<char>)
    ensures
        step.is_settled(amount) <==> (step matches LookupStep::Done(Ok(status)) && status.settled
            && status.amount == Some(amount)),
        step.is_unsettled() <==> (step matches LookupStep::Done(Ok(status)) && !status.settled
            && status.amount is None),
        step.is_failed(detail) <==> (step matches LookupStep::Done(
            Err(ElisymError::Payment(said)),
        ) && said@ == detail),
{
}

/// A lookup that goes on keeps what it is about, and asks for the transaction of the signature
/// that the scan found; one that ends is not settled.
pub proof fn lookup_goes_on_with_what_it_is_about(
    step: LookupStep,
    next: Scan,
    request: Seq<char>,
    recipient: Seq<char>,
    expected_net: u64,
    signatures: Seq<SignatureInfoView>,
)
    requires
        step.follows(next, request, recipient, expected_net, signatures),
    ensures
        next matches Scan::Fetch(at, signature) ==> (step matches LookupStep::Transaction(
            lookup,
            wanted,
        ) && {
            &&& wanted@ == signature
            &&& lookup.at == at
            &&& lookup.at < lookup.signatures@.len()
            &&& lookup.request@ == request
            &&& lookup.recipient@ == recipient
            &&& lookup.expected_net == expected_net
            &&& lookup.signatures@.len() == signatures.len()
            &&& forall|i: int|
                0 <= i < signatures.len() ==> (#[trigger] lookup.signatures@[i]).signature@
                    == signatures[i].signature && lookup.signatures@[i].failed
                    == signatures[i].failed
        }),
        next is Exhausted ==> (step matches LookupStep::Done(Ok(status)) && !status.settled
            && status.amount is None),
        next matches Scan::Unreadable(error) ==> (step matches LookupStep::Done(
            Err(ElisymError::Payment(said)),
        ) && said@ == "Invalid signature: "@ + error),
{
    if let Scan::Fetch(_, _) = next {
        if let LookupStep::Transaction(lookup, _) = step {
            assert forall|i: int| 0 <= i < signatures.len() implies (
            #[trigger] lookup.signatures@[i]).signature@ == signatures[i].signature
                && lookup.signatures@[i].failed == signatures[i].failed by {
                assert(signature_infos(lookup.signatures@)[i] == lookup.signatures@[i]@);
            }
        }
    }
}

/// The balances reach as far as an account exactly where both lists hold its first position.
pub proof fn balances_cover_the_first_position(
    keys: Seq<Seq<char>>,
    pre: Seq<u64>,
    post: Seq<u64>,
    address: Seq<char>,
    i: int,
)
    requires
        0 <= i < keys.len(),
        keys[i] == address,
        forall|j: int| 0 <= j < i ==> #[trigger] keys[j] != address,
    ensures
        (ChainTransactionView {
            balances: Some((pre, post)),
            account_keys: Some(keys),
        }).covers(address) <==> i < pre.len() && i < post.len(),
{
    keys.index_of_first_ensures(address);
    assert(keys.contains(address)) by {
        assert(keys[i] == address);
    }
    assert(keys.index_of_first(address) == Some(i));
}

} // verus!
