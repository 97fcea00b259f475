//! What holds of payment requests from their making to their settlement.
use vstd::bytes::{
    lemma_auto_spec_u64_to_from_le_bytes, spec_u64_from_le_bytes, spec_u64_to_le_bytes,
};
use vstd::prelude::*;

use crate::error::ElisymError;
use crate::json::{by_name, json_object_members, lemma_by_name, JsonScalarView};
use crate::number::decimal;
use crate::payment::keys::{
    is_address_of, is_keypair, keypair_public_key, parsed_address, parsed_signature,
};
use crate::payment::lookup::{scan, ChainTransactionView, Scan, SignatureInfoView};
use crate::payment::pending::{PendingPayment, PENDING_MAP_CAP};
use crate::payment::solana::{
    embedded_fee, is_provider_of, lemma_member_names, made_request, pending_with, planned,
    planned_at, timed_request, RequestDataView, SolanaNetwork, SolanaPaymentConfig,
    SolanaPaymentProvider, SolanaPaymentRequestData, TimedRequest, TimedRequestView, TransferPlan, TransferPlanView,
};
use crate::payment::transfer::{
    key_at, makes_calls, same_call, transfer_of, AccountMetaView, InstructionView, MessageView,
};
use crate::payment::{PaymentChain, PaymentRequest};

verus! {

/// The value that a JSON object has under `name`.
pub open spec fn value_under(text: Seq<char>, name: Seq<char>) -> Option<JsonScalarView> {
    match json_object_members(text) {
        Some(members) => if members.contains_key(name) {
            members[name]
        } else {
            None
        },
        None => None,
    }
}

/// A request text gives back every field of its request, and nothing where the request has no
/// fee or does not expire.
pub proof fn request_is_read_back(request: TimedRequestView, text: Seq<char>)
    requires
        request.stands_in(text),
    ensures
        value_under(text, "expires_at"@) == (match request.expires_at {
            Some(end) => Some(JsonScalarView::Number(end)),
            None => None,
        }),
        value_under(text, "recipient"@) == Some(JsonScalarView::Text(request.data.recipient)),
        value_under(text, "amount"@) == Some(JsonScalarView::Number(request.data.amount)),
        value_under(text, "reference"@) == Some(JsonScalarView::Text(request.data.reference)),
        value_under(text, "fee_address"@) == (match request.data.fee_address {
            Some(address) => Some(JsonScalarView::Text(address)),
            None => None,
        }),
        value_under(text, "fee_amount"@) == (match request.data.fee_amount {
            Some(amount) => Some(JsonScalarView::Number(amount)),
            None => None,
        }),
{
    let data = request.data;
    let members = request.members();
    lemma_member_names(request);
    lemma_by_name(members);
    reveal_strlit("recipient");
    reveal_strlit("amount");
    reveal_strlit("reference");
    reveal_strlit("fee_address");
    reveal_strlit("fee_amount");
    reveal_strlit("expires_at");
    assert(members[0].0 == "recipient"@);
    assert(members[1].0 == "amount"@);
    assert(members[2].0 == "reference"@);
    assert("fee_amount"@[0] == 'f' && "expires_at"@[0] == 'e');
    if data.fee_address is Some {
        assert(members[3].0 == "fee_address"@);
    } else if by_name(members).contains_key("fee_address"@) {
        let i = choose|i: int|
            0 <= i < members.len() && (#[trigger] members[i]).0 == "fee_address"@;
        assert(members[i].0.len() == 11);
        assert(false);
    }
    if data.fee_amount is Some {
        assert(members[data.members().len() - 1].0 == "fee_amount"@);
    } else if by_name(members).contains_key("fee_amount"@) {
        let i = choose|i: int| 0 <= i < members.len() && (#[trigger] members[i]).0 == "fee_amount"@;
        assert(members[i].0.len() == 10 && members[i].0[0] == 'f');
        assert(false);
    }
    if request.expires_at is Some {
        assert(members[members.len() - 1].0 == "expires_at"@);
    } else if by_name(members).contains_key("expires_at"@) {
        let i = choose|i: int| 0 <= i < members.len() && (#[trigger] members[i]).0 == "expires_at"@;
        assert(members[i].0.len() == 10 && members[i].0[0] == 'e');
        assert(false);
    }
}

/// The lamports that a transfer moves.
pub open spec fn lamports(instruction: InstructionView) -> u64 {
    spec_u64_from_le_bytes(instruction.data.subrange(4, 12))
}

/// The lamports that a row of transfers moves.
pub open spec fn total_lamports(instructions: Seq<InstructionView>) -> int
    decreases instructions.len(),
{
    if instructions.len() == 0 {
        0
    } else {
        total_lamports(instructions.drop_last()) + lamports(instructions.last())
    }
}

/// A transfer moves the lamports that it was made for.
proof fn lemma_lamports(from: Seq<u8>, to: Seq<u8>, amount: u64)
    ensures
        lamports(transfer_of(from, to, amount)) == amount,
{
    lemma_auto_spec_u64_to_from_le_bytes();
    let bytes = spec_u64_to_le_bytes(amount);
    assert(transfer_of(from, to, amount).data.subrange(4, 12) =~= bytes);
}

/// Paying a request moves exactly its amount: the fee is taken from the amount, not added on
/// top.
pub proof fn payment_moves_the_amount(data: RequestDataView, payer: Seq<u8>)
    requires
        planned(data) is Ok,
    ensures
        total_lamports((planned(data)->Ok_0).instructions(payer)) == data.amount,
{
    let plan = planned(data)->Ok_0;
    let instructions = plan.instructions(payer);
    lemma_lamports(payer, plan.recipient, plan.provider_amount());
    assert(lamports(instructions[0]) == plan.provider_amount());
    match plan.fee {
        Some((address, amount)) => {
            lemma_lamports(payer, address, amount);
            assert(instructions.drop_last() =~= seq![instructions[0]]);
            assert(seq![instructions[0]].drop_last() =~= Seq::empty());
            assert(total_lamports(seq![instructions[0]]) == lamports(instructions[0])) by {
                reveal_with_fuel(total_lamports, 2);
            }
        },
        None => {
            assert(instructions.drop_last() =~= Seq::empty());
            reveal_with_fuel(total_lamports, 2);
        },
    }
}

/// A request that a provider made can be paid for as long as it is valid: the plan sends the
/// amount less the fee to the provider, the fee to its address, and carries the reference that
/// was drawn.
pub proof fn made_request_can_be_paid(
    before: SolanaPaymentProvider,
    after: SolanaPaymentProvider,
    amount: u64,
    expiry_secs: u32,
    made_at: u64,
    fee: Option<(Seq<char>, u64)>,
    fee_key: Seq<u8>,
    reference: Seq<u8>,
    made: Result<PaymentRequest, ElisymError>,
    now: u64,
)
    requires
        made_request(before, after, amount, expiry_secs, made_at, fee, reference, made),
        made is Ok,
        fee matches Some((address, fee_amount)) ==> 0 < fee_amount < amount && is_address_of(
            address,
            fee_key,
        ),
        now <= made_at + expiry_secs,
    ensures
        planned_at(
            timed_request(
                before.keypair.public_key(),
                reference,
                amount,
                expiry_secs,
                made_at,
                fee,
            ),
            now,
        ) == Ok::<TransferPlanView, Seq<char>>(
            TransferPlanView {
                recipient: before.keypair.public_key(),
                amount,
                reference,
                fee: match fee {
                    Some((_, fee_amount)) => Some((fee_key, fee_amount)),
                    None => None,
                },
            },
        ),
{
}

/// A request that a provider made is refused once its time has passed: whoever reads its text
/// finds the end of its validity there, and paying it then is an error.
pub proof fn made_request_expires(
    before: SolanaPaymentProvider,
    after: SolanaPaymentProvider,
    amount: u64,
    expiry_secs: u32,
    made_at: u64,
    fee: Option<(Seq<char>, u64)>,
    reference: Seq<u8>,
    made: Result<PaymentRequest, ElisymError>,
    read: TimedRequestView,
    now: u64,
)
    requires
        made_request(before, after, amount, expiry_secs, made_at, fee, reference, made),
        made is Ok,
        read.stands_in(made->Ok_0.request@),
        now > made_at + expiry_secs,
    ensures
        planned_at(read, now) == Err::<TransferPlanView, Seq<char>>("Payment request has expired"@),
{
    let asked = timed_request(
        before.keypair.public_key(),
        reference,
        amount,
        expiry_secs,
        made_at,
        fee,
    );
    request_is_read_back(asked, made->Ok_0.request@);
    request_is_read_back(read, made->Ok_0.request@);
    assert(read.expires_at == asked.expires_at);
}

/// A request without an end stays valid.
pub proof fn request_without_end_stays_valid(request: TimedRequestView, now: u64)
    requires
        request.expires_at is None,
    ensures
        planned_at(request, now) == planned(request.data),
{
}

/// Two requests that a provider made one after the other with different references are
/// different texts, so both are pending side by side.
pub proof fn different_references_make_different_requests(
    before: SolanaPaymentProvider,
    between: SolanaPaymentProvider,
    after: SolanaPaymentProvider,
    amounts: (u64, u64),
    expiries: (u32, u32),
    times: (u64, u64),
    fees: (Option<(Seq<char>, u64)>, Option<(Seq<char>, u64)>),
    references: (Seq<u8>, Seq<u8>),
    first: Result<PaymentRequest, ElisymError>,
    second: Result<PaymentRequest, ElisymError>,
)
    requires
        made_request(
            before,
            between,
            amounts.0,
            expiries.0,
            times.0,
            fees.0,
            references.0,
            first,
        ),
        made_request(between, after, amounts.1, expiries.1, times.1, fees.1, references.1, second),
        first is Ok,
        second is Ok,
        references.0 != references.1,
    ensures
        first->Ok_0.request@ != second->Ok_0.request@,
        after.pending@.contains_key(first->Ok_0.request@),
        after.pending@.contains_key(second->Ok_0.request@),
{
    let owner = before.keypair.public_key();
    request_is_read_back(
        timed_request(owner, references.0, amounts.0, expiries.0, times.0, fees.0),
        first->Ok_0.request@,
    );
    request_is_read_back(
        timed_request(owner, references.1, amounts.1, expiries.1, times.1, fees.1),
        second->Ok_0.request@,
    );
}

/// A lookup expects what paying sends to the recipient. A fee amount without a fee address is
/// left out: paying then sends the whole amount, while a lookup is content with less.
pub proof fn lookup_expects_what_paying_sends(data: RequestDataView)
    requires
        planned(data) is Ok,
        data.fee_amount is Some ==> data.fee_address is Some,
    ensures
        (planned(data)->Ok_0).provider_amount() == data.net_amount(),
{
}

/// Paying a request settles it: a transaction in which the recipient's balance grew by what
/// paying sends, or by more, is one that a lookup takes for the payment.
pub proof fn paying_settles(data: RequestDataView, transaction: ChainTransactionView)
    requires
        planned(data) is Ok,
        data.fee_amount is Some ==> data.fee_address is Some,
        transaction.received(data.recipient) matches Some(received) && received >= (planned(
            data,
        )->Ok_0).provider_amount(),
    ensures
        transaction.pays(data.recipient, data.net_amount()),
{
    lookup_expects_what_paying_sends(data);
}

/// The reference is an account of the first transfer that neither signs nor is written to.
pub proof fn reference_is_read_only(plan: TransferPlanView, payer: Seq<u8>)
    ensures
        plan.instructions(payer).len() > 0,
        plan.instructions(payer)[0].accounts.last() == (AccountMetaView {
            key: plan.reference,
            is_signer: false,
            is_writable: false,
        }),
{
}

/// A message that makes a plan's transfers names the reference and the recipient among its
/// keys, so the transaction is found by its reference and the recipient's balance is in it.
pub proof fn payment_is_found_by_its_reference(
    plan: TransferPlanView,
    payer: Seq<u8>,
    message: MessageView,
)
    requires
        makes_calls(message, plan.instructions(payer)),
    ensures
        message.keys.contains(plan.reference),
        message.keys.contains(plan.recipient),
{
    let call = plan.instructions(payer)[0];
    let compiled = message.instructions[0];
    assert(same_call(message.keys, compiled, call));
    assert(call.accounts.len() == 3);
    assert(call.accounts[1].key == plan.recipient);
    assert(call.accounts[2].key == plan.reference);
    assert(message.keys[compiled.1[1] as int] == plan.recipient);
    assert(message.keys[compiled.1[2] as int] == plan.reference);
}

/// Making a request forgets no unsettled one, and where the map was full no settled one
/// stays.
pub proof fn making_a_request_keeps_unsettled_ones(
    pending: Map<Seq<char>, PendingPayment>,
    request: Seq<char>,
    amount: u64,
    other: Seq<char>,
)
    requires
        other != request,
    ensures
        pending.contains_key(other) && !pending[other].settled ==> {
            &&& pending_with(pending, request, amount).contains_key(other)
            &&& pending_with(pending, request, amount)[other] == pending[other]
        },
        pending.len() >= PENDING_MAP_CAP && pending_with(pending, request, amount).contains_key(
            other,
        ) ==> !pending_with(pending, request, amount)[other].settled,
        pending_with(pending, request, amount).contains_key(other) ==> pending.contains_key(other),
{
}

/// What a lookup comes to.
pub enum Outcome {
    Settled(u64),
    Unsettled,
    Failed(Seq<char>),
}

/// What a lookup comes to from position `from` on, where `replies` holds for each signature
/// what the RPC node says when asked for its transaction.
pub open spec fn outcome(
    signatures: Seq<SignatureInfoView>,
    replies: Seq<Result<ChainTransactionView, Seq<char>>>,
    recipient: Seq<char>,
    expected_net: u64,
    from: int,
) -> Outcome
    decreases signatures.len() - from,
{
    if from >= signatures.len() {
        Outcome::Unsettled
    } else if signatures[from].failed {
        outcome(signatures, replies, recipient, expected_net, from + 1)
    } else if parsed_signature(signatures[from].signature) is Err {
        Outcome::Failed(
            "Invalid signature: "@ + parsed_signature(signatures[from].signature)->Err_0,
        )
    } else {
        match replies[from] {
            Ok(transaction) => if transaction.pays(recipient, expected_net) {
                Outcome::Settled(transaction.received(recipient)->0)
            } else {
                outcome(signatures, replies, recipient, expected_net, from + 1)
            },
            Err(error) => Outcome::Failed("Failed to get transaction: "@ + error),
        }
    }
}

/// The steps of a lookup, one fetched transaction at a time, come to the outcome.
pub proof fn lookup_steps_reach_the_outcome(
    signatures: Seq<SignatureInfoView>,
    replies: Seq<Result<ChainTransactionView, Seq<char>>>,
    recipient: Seq<char>,
    expected_net: u64,
    from: int,
)
    requires
        0 <= from,
    ensures
        outcome(signatures, replies, recipient, expected_net, from) == (match scan(
            signatures,
            from,
        ) {
            Scan::Exhausted => Outcome::Unsettled,
            Scan::Unreadable(error) => Outcome::Failed("Invalid signature: "@ + error),
            Scan::Fetch(at, _) => match replies[at] {
                Ok(transaction) => if transaction.pays(recipient, expected_net) {
                    Outcome::Settled(transaction.received(recipient)->0)
                } else {
                    outcome(signatures, replies, recipient, expected_net, at + 1)
                },
                Err(error) => Outcome::Failed("Failed to get transaction: "@ + error),
            },
        }),
    decreases signatures.len() - from,
{
    if from < signatures.len() && signatures[from].failed {
        lookup_steps_reach_the_outcome(signatures, replies, recipient, expected_net, from + 1);
    }
}

/// Whether the signature at a position is of a transaction that went through and pays.
pub open spec fn pays_at(
    signatures: Seq<SignatureInfoView>,
    replies: Seq<Result<ChainTransactionView, Seq<char>>>,
    recipient: Seq<char>,
    expected_net: u64,
    at: int,
) -> bool {
    &&& 0 <= at < signatures.len()
    &&& !signatures[at].failed
    &&& replies[at] matches Ok(transaction) && transaction.pays(recipient, expected_net)
}

/// A settled outcome rests on the first transaction that went through and in which the
/// recipient received at least what is expected: that amount is the one reported.
pub proof fn settled_means_paid(
    signatures: Seq<SignatureInfoView>,
    replies: Seq<Result<ChainTransactionView, Seq<char>>>,
    recipient: Seq<char>,
    expected_net: u64,
    from: int,
)
    requires
        0 <= from,
        outcome(signatures, replies, recipient, expected_net, from) is Settled,
    ensures
        exists|at: int|
            from <= at && #[trigger] pays_at(signatures, replies, recipient, expected_net, at)
                && (replies[at]->Ok_0).received(recipient) == Some(
                outcome(signatures, replies, recipient, expected_net, from)->Settled_0,
            ) && (forall|j: int|
                from <= j < at ==> !pays_at(signatures, replies, recipient, expected_net, j)),
        outcome(signatures, replies, recipient, expected_net, from)->Settled_0 >= expected_net,
    decreases signatures.len() - from,
{
    if !pays_at(signatures, replies, recipient, expected_net, from) {
        settled_means_paid(signatures, replies, recipient, expected_net, from + 1);
    }
}

/// Where every signature can be read and every transaction fetched, a payment on chain is
/// found: the outcome is settled.
pub proof fn paid_means_settled(
    signatures: Seq<SignatureInfoView>,
    replies: Seq<Result<ChainTransactionView, Seq<char>>>,
    recipient: Seq<char>,
    expected_net: u64,
    from: int,
    at: int,
)
    requires
        0 <= from <= at,
        pays_at(signatures, replies, recipient, expected_net, at),
        forall|i: int|
            from <= i <= at && !(#[trigger] signatures[i]).failed ==> parsed_signature(
                signatures[i].signature,
            ) is Ok && replies[i] is Ok,
    ensures
        outcome(signatures, replies, recipient, expected_net, from) is Settled,
    decreases signatures.len() - from,
{
    if from < at {
        assert(!signatures[from].failed ==> parsed_signature(signatures[from].signature) is Ok
            && replies[from] is Ok);
        if !pays_at(signatures, replies, recipient, expected_net, from) {
            paid_means_settled(signatures, replies, recipient, expected_net, from + 1, at);
        }
    } else {
        assert(!signatures[at].failed);
    }
}

/// What each account gets when a plan is paid: the first transfer goes from the payer to the
/// recipient and moves the amount less the fee, or nothing where the fee is larger, with the
/// reference as a third account that neither signs nor is written to; where there is a fee, a second transfer goes from the payer
/// to the fee's address and moves the fee; there are no others.
pub proof fn each_account_gets_its_share(plan: TransferPlanView, payer: Seq<u8>)
    ensures
        ({
            let calls = plan.instructions(payer);
            let fee = match plan.fee {
                Some((_, fee)) => fee as int,
                None => 0,
            };
            let rest = if fee <= plan.amount {
                plan.amount - fee
            } else {
                0
            };
            &&& calls.len() == (if plan.fee is Some {
                2int
            } else {
                1
            })
            &&& is_transfer(calls[0], payer, plan.recipient, rest)
            &&& calls[0].accounts.len() == 3
            &&& calls[0].accounts[2].key == plan.reference
            &&& !calls[0].accounts[2].is_signer && !calls[0].accounts[2].is_writable
            &&& plan.fee matches Some((address, _)) ==> is_transfer(calls[1], payer, address, fee)
                && calls[1].accounts.len() == 2
        }),
{
    lemma_lamports(payer, plan.recipient, plan.provider_amount());
    lemma_auto_spec_u64_to_from_le_bytes();
    if let Some((address, fee)) = plan.fee {
        lemma_lamports(payer, address, fee);
    }
}

/// Whether an instruction is a transfer by the system program of that many lamports, from its
/// first account, which signs, to its second, which does not.
pub open spec fn is_transfer(
    call: InstructionView,
    from: Seq<u8>,
    to: Seq<u8>,
    amount: int,
) -> bool {
    &&& call.program.len() == 32 && (forall|i: int| 0 <= i < 32 ==> #[trigger] call.program[i] == 0)
    &&& call.accounts.len() >= 2
    &&& call.accounts[0].key == from
    &&& call.accounts[0].is_signer && call.accounts[0].is_writable
    &&& call.accounts[1].key == to
    &&& !call.accounts[1].is_signer && call.accounts[1].is_writable
    &&& call.data.len() == 12
    &&& call.data[0] == 2 && call.data[1] == 0 && call.data[2] == 0 && call.data[3] == 0
    &&& spec_u64_from_le_bytes(call.data.subrange(4, 12)) == amount
}

/// A message that makes a plan's transfers moves the amount less the fee from the payer's key
/// to the recipient's, and the fee to that of its address, and makes no other call.
pub proof fn message_moves_each_share(
    plan: TransferPlanView,
    payer: Seq<u8>,
    message: MessageView,
)
    requires
        makes_calls(message, plan.instructions(payer)),
    ensures
        ({
            let fee = match plan.fee {
                Some((_, fee)) => fee as int,
                None => 0,
            };
            let rest = if fee <= plan.amount {
                plan.amount - fee
            } else {
                0
            };
            let first = message.instructions[0];
            let second = message.instructions[1];
            &&& message.instructions.len() == (if plan.fee is Some {
                2int
            } else {
                1
            })
            &&& first.1.len() == 3
            &&& message.keys[first.1[0] as int] == payer
            &&& message.keys[first.1[1] as int] == plan.recipient
            &&& message.keys[first.1[2] as int] == plan.reference
            &&& spec_u64_from_le_bytes(first.2.subrange(4, 12)) == rest
            &&& plan.fee matches Some((address, _)) ==> {
                &&& second.1.len() == 2
                &&& message.keys[second.1[0] as int] == payer
                &&& message.keys[second.1[1] as int] == address
                &&& spec_u64_from_le_bytes(second.2.subrange(4, 12)) == fee
            }
        }),
{
    let calls = plan.instructions(payer);
    each_account_gets_its_share(plan, payer);
    assert(same_call(message.keys, message.instructions[0], calls[0]));
    assert(key_at(message.keys, message.instructions[0].1[0], calls[0].accounts[0].key));
    assert(key_at(message.keys, message.instructions[0].1[1], calls[0].accounts[1].key));
    assert(key_at(message.keys, message.instructions[0].1[2], calls[0].accounts[2].key));
    if plan.fee is Some {
        assert(same_call(message.keys, message.instructions[1], calls[1]));
        assert(key_at(message.keys, message.instructions[1].1[0], calls[1].accounts[0].key));
        assert(key_at(message.keys, message.instructions[1].1[1], calls[1].accounts[1].key));
    }
}

/// A plan holds what its request says: the keys that its addresses stand for, its amount, and
/// the fee where an address and an amount above zero are given; the fee is below the amount.
pub proof fn plan_holds_what_its_request_says(data: RequestDataView)
    requires
        planned(data) is Ok,
    ensures
        ({
            let plan = planned(data)->Ok_0;
            &&& is_address_of(data.recipient, plan.recipient)
            &&& is_address_of(data.reference, plan.reference)
            &&& plan.amount == data.amount
            &&& match plan.fee {
                Some((key, fee)) => {
                    &&& data.fee_address is Some && is_address_of(data.fee_address->0, key)
                    &&& data.fee_amount == Some(fee)
                    &&& 0 < fee < data.amount
                },
                None => data.fee_address is None || data.fee_amount is None || data.fee_amount
                    == Some(0u64),
            }
        }),
{
}

/// A request can be planned exactly where its addresses can be read and its fee, where it has
/// one, is below the amount and has an address that can be read.
pub proof fn readable_request_is_planned(data: RequestDataView)
    ensures
        planned(data) is Ok <==> {
            &&& parsed_address(data.recipient) is Ok
            &&& parsed_address(data.reference) is Ok
            &&& data.fee_address is Some && data.fee_amount is Some && data.fee_amount->0 > 0 ==> {
                &&& data.fee_amount->0 < data.amount
                &&& parsed_address(data.fee_address->0) is Ok
            }
        },
{
}

/// The net amount and the fee make up the amount; a fee above the amount leaves nothing.
pub proof fn net_amount_and_fee_make_up_the_amount(data: RequestDataView)
    ensures
        data.fee_amount is None ==> data.net_amount() == data.amount,
        data.fee_amount matches Some(fee) ==> (if fee <= data.amount {
            data.net_amount() + fee == data.amount
        } else {
            data.net_amount() == 0
        }),
{
}

/// A fee goes into a request exactly where it is not zero.
pub proof fn fee_of_zero_is_left_out(address: Seq<char>, amount: u64)
    ensures
        amount == 0 ==> embedded_fee(address, amount) is None,
        amount > 0 ==> embedded_fee(address, amount) is Some && (embedded_fee(
            address,
            amount,
        )->0).0 == address && (embedded_fee(address, amount)->0).1 == amount,
{
}

/// A request is made exactly where the amount is not zero. It is for the whole amount, the fee
/// included, and so says its own text, which also names the provider's address, that of the
/// reference, the fee as it was given, and the end of its validity.
pub proof fn made_request_says_what_was_asked(
    before: SolanaPaymentProvider,
    after: SolanaPaymentProvider,
    amount: u64,
    expiry_secs: u32,
    made_at: u64,
    fee: Option<(Seq<char>, u64)>,
    reference: Seq<u8>,
    made: Result<PaymentRequest, ElisymError>,
)
    requires
        made_request(before, after, amount, expiry_secs, made_at, fee, reference, made),
    ensures
        made is Ok <==> amount > 0,
        made matches Ok(request) ==> {
            let text = request.request@;
            let recipient = value_under(text, "recipient"@);
            let named = value_under(text, "reference"@);
            &&& request.amount == amount
            &&& request.chain is Solana
            &&& request.currency_unit@ == "lamport"@
            &&& value_under(text, "amount"@) == Some(JsonScalarView::Number(request.amount))
            &&& recipient matches Some(JsonScalarView::Text(said)) && is_address_of(
                said,
                before.keypair.public_key(),
            )
            &&& named matches Some(JsonScalarView::Text(said)) && is_address_of(said, reference)
            &&& match fee {
                Some((address, fee_amount)) => {
                    &&& value_under(text, "fee_address"@) == Some(JsonScalarView::Text(address))
                    &&& value_under(text, "fee_amount"@) == Some(
                        JsonScalarView::Number(fee_amount),
                    )
                },
                None => {
                    &&& value_under(text, "fee_address"@) is None
                    &&& value_under(text, "fee_amount"@) is None
                },
            }
            &&& value_under(text, "expires_at"@) matches Some(JsonScalarView::Number(end)) && (end
                == made_at + expiry_secs || (end == u64::MAX && made_at + expiry_secs > u64::MAX))
        },
{
    if amount > 0 {
        request_is_read_back(
            timed_request(
                before.keypair.public_key(),
                reference,
                amount,
                expiry_secs,
                made_at,
                fee,
            ),
            made->Ok_0.request@,
        );
    }
}

/// Making a request changes only what is pending: the request is pending and not settled, with
/// its amount, and every other one as before, but that with ten thousand or more pending the
/// settled ones are forgotten. A request that is not made changes nothing.
pub proof fn made_request_is_pending(
    before: SolanaPaymentProvider,
    after: SolanaPaymentProvider,
    amount: u64,
    expiry_secs: u32,
    made_at: u64,
    fee: Option<(Seq<char>, u64)>,
    reference: Seq<u8>,
    made: Result<PaymentRequest, ElisymError>,
    other: Seq<char>,
)
    requires
        made_request(before, after, amount, expiry_secs, made_at, fee, reference, made),
    ensures
        after.keypair == before.keypair,
        after.config == before.config,
        made is Err ==> after.pending@ == before.pending@,
        made matches Ok(request) ==> {
            let earlier = before.pending@;
            let later = after.pending@;
            &&& later.contains_key(request.request@)
            &&& later[request.request@].amount == amount
            &&& !later[request.request@].settled
            &&& other != request.request@ ==> {
                &&& earlier.len() < 10_000 ==> later.contains_key(other) == earlier.contains_key(
                    other,
                )
                &&& earlier.len() >= 10_000 ==> later.contains_key(other)
                    == (earlier.contains_key(other) && !earlier[other].settled)
                &&& later.contains_key(other) ==> later[other] == earlier[other]
            }
        },
{
}

/// A provider is made exactly of bytes that hold a key pair: it has that key pair and the
/// given config, and nothing is pending; for other bytes the error says what is wrong.
pub proof fn provider_has_the_key_of_its_bytes(
    provider: Result<SolanaPaymentProvider, ElisymError>,
    config: SolanaPaymentConfig,
    bytes: Seq<u8>,
)
    requires
        is_provider_of(provider, config, bytes),
    ensures
        provider is Ok <==> keypair_public_key(bytes) is Ok,
        provider matches Ok(made) ==> {
            &&& is_keypair(bytes, made.keypair.public_key())
            &&& made.keypair.bytes() == bytes
            &&& made.config == config
            &&& forall|request: Seq<char>| !#[trigger] made.pending@.contains_key(request)
        },
        keypair_public_key(bytes) matches Err(error) ==> (provider matches Err(
            ElisymError::Payment(said),
        ) && said@ == "Invalid keypair bytes: "@ + error),
{
}

/// Requests and plans are seen with all their fields.
pub proof fn payment_values_show_their_fields(
    data: SolanaPaymentRequestData,
    request: TimedRequest,
    plan: TransferPlan,
)
    ensures
        data@.recipient == data.recipient@,
        data@.amount == data.amount,
        data@.reference == data.reference@,
        data@.fee_address is Some == data.fee_address is Some,
        data.fee_address matches Some(address) ==> data@.fee_address == Some(address@),
        data@.fee_amount == data.fee_amount,
        request@.data == request.data@,
        request@.expires_at == request.expires_at,
        plan@.recipient == plan.recipient@,
        plan@.amount == plan.amount,
        plan@.reference == plan.reference@,
        plan@.fee is Some == plan.fee is Some,
        plan.fee matches Some((address, fee)) ==> plan@.fee == Some((address@, fee)),
{
}

/// Whoever made it, a request is refused exactly after the end of its validity, and until then
/// it is planned as one without an end.
pub proof fn request_is_refused_after_its_end(request: TimedRequestView, end: u64, now: u64)
    requires
        request.expires_at == Some(end),
    ensures
        request.is_expired(now) <==> end < now,
        end < now ==> planned_at(request, now) == Err::<TransferPlanView, Seq<char>>(
            "Payment request has expired"@,
        ),
        now <= end ==> planned_at(request, now) == planned(request.data),
{
}

/// A request without an end stands in the same texts with and without the place for one.
pub proof fn request_without_end_has_no_member_for_it(data: RequestDataView, text: Seq<char>)
    ensures
        data.stands_in(text) <==> (TimedRequestView { data, expires_at: None }).stands_in(text),
{
}

/// The first thing that is wrong with a request is what its error says: the recipient, then
/// the reference, then a fee that is not below the amount, then the fee's address.
pub proof fn error_says_what_is_wrong_first(data: RequestDataView)
    ensures
        parsed_address(data.recipient) matches Err(error) ==> planned(data) == Err::<
            TransferPlanView,
            Seq<char>,
        >("Invalid recipient address: "@ + error),
        parsed_address(data.recipient) is Ok ==> (parsed_address(data.reference) matches Err(error)
            ==> planned(data) == Err::<TransferPlanView, Seq<char>>(
            "Invalid reference pubkey: "@ + error,
        )),
        parsed_address(data.recipient) is Ok && parsed_address(data.reference) is Ok ==> (
        data.fee_address matches Some(address) ==> (data.fee_amount matches Some(fee) ==> {
            &&& 0 < fee && data.amount <= fee ==> planned(data) == Err::<
                TransferPlanView,
                Seq<char>,
            >(
                "fee_amount ("@ + decimal(fee as nat) + ") must be less than total amount ("@
                    + decimal(data.amount as nat) + ")"@,
            )
            &&& 0 < fee < data.amount ==> (parsed_address(address) matches Err(error) ==> planned(
                data,
            ) == Err::<TransferPlanView, Seq<char>>("Invalid fee address: "@ + error))
        })),
{
}

/// A custom network has the URL and a custom chain the name that it was given; the others have
/// their own, whatever the rest.
pub proof fn custom_names_are_kept(url: String, name: String)
    ensures
        SolanaNetwork::Custom(url).url() == url@,
        PaymentChain::Custom(name).name() == name@,
        SolanaNetwork::Mainnet.url() == "https://api.mainnet-beta.solana.com"@,
        SolanaNetwork::Devnet.url() == "https://api.devnet.solana.com"@,
        SolanaNetwork::Testnet.url() == "https://api.testnet.solana.com"@,
        PaymentChain::Lightning.name() == "lightning"@,
        PaymentChain::BitcoinOnchain.name() == "bitcoin-onchain"@,
        PaymentChain::Solana.name() == "solana"@,
        PaymentChain::Ethereum.name() == "ethereum"@,
{
}

} // verus!
