//! SOL transfers: instructions, the message that carries them, and its signature.
use vstd::bytes::spec_u64_to_le_bytes;
use vstd::prelude::*;

use solana_sdk::instruction::AccountMeta as SdkAccountMeta;
use solana_sdk::instruction::CompiledInstruction as SdkCompiledInstruction;
use solana_sdk::instruction::Instruction as SdkInstruction;
use solana_sdk::message::Message as SdkMessage;
use solana_sdk::message::MessageHeader;
use solana_sdk::pubkey::Pubkey;
use solana_sdk::transaction::Transaction;

use crate::payment::keys::is_keypair;

verus! {

/// An account that an instruction touches.
#[derive(Debug, Clone, Copy)]
pub struct AccountMeta {
    pub key: [u8; 32],
    pub is_signer: bool,
    pub is_writable: bool,
}

/// The contents of an [`AccountMeta`].
pub struct AccountMetaView {
    pub key: Seq<u8>,
    pub is_signer: bool,
    pub is_writable: bool,
}

impl View for AccountMeta {
    type V = AccountMetaView;

    open spec fn view(&self) -> AccountMetaView {
        AccountMetaView {
            key: self.key@,
            is_signer: self.is_signer,
            is_writable: self.is_writable,
        }
    }
}

/// A call of an on-chain program.
#[derive(Debug)]
pub struct Instruction {
    pub program: [u8; 32],
    pub accounts: Vec<AccountMeta>,
    pub data: Vec<u8>,
}

/// The contents of an [`Instruction`].
pub struct InstructionView {
    pub program: Seq<u8>,
    pub accounts: Seq<AccountMetaView>,
    pub data: Seq<u8>,
}

impl View for Instruction {
    type V = InstructionView;

    open spec fn view(&self) -> InstructionView {
        InstructionView {
            program: self.program@,
            accounts: self.accounts@.map_values(|account: AccountMeta| account@),
            data: self.data@,
        }
    }
}

/// The contents of a list of instructions.
pub open spec fn instruction_views(instructions: Seq<Instruction>) -> Seq<InstructionView> {
    instructions.map_values(|instruction: Instruction| instruction@)
}

/// The transfer of `lamports` from one account to another: the system program's instruction
/// number 2 with the amount in little-endian order, signed by the sender.
pub open spec fn transfer_of(from: Seq<u8>, to: Seq<u8>, lamports: u64) -> InstructionView {
    InstructionView {
        program: Seq::new(32, |i: int| 0u8),
        accounts: seq![
            AccountMetaView { key: from, is_signer: true, is_writable: true },
            AccountMetaView { key: to, is_signer: false, is_writable: true },
        ],
        data: seq![2u8, 0u8, 0u8, 0u8] + spec_u64_to_le_bytes(lamports),
    }
}

/// Calls `system_instruction::transfer`, which gives the transfer described by
/// [`transfer_of`].
#[verifier::external_body]
#[allow(deprecated)]
pub(crate) fn transfer(from: &[u8; 32], to: &[u8; 32], lamports: u64) -> (made: Instruction)
    ensures
        made@ == transfer_of(from@, to@, lamports),
{
    let made = solana_sdk::system_instruction::transfer(&(*from).into(), &(*to).into(), lamports);
    Instruction {
        program: made.program_id.to_bytes(),
        accounts: made.accounts.iter().map(|account| AccountMeta {
            key: account.pubkey.to_bytes(),
            is_signer: account.is_signer,
            is_writable: account.is_writable,
        }).collect(),
        data: made.data,
    }
}

/// An instruction whose program and accounts are positions among a message's keys: the
/// program, the accounts and the data.
pub type CompiledInstruction = (u8, Vec<u8>, Vec<u8>);

/// The contents of a [`CompiledInstruction`].
pub type CompiledInstructionView = (u8, Seq<u8>, Seq<u8>);

/// The contents of one compiled instruction.
pub open spec fn compiled_view(compiled: CompiledInstruction) -> CompiledInstructionView {
    (compiled.0, compiled.1@, compiled.2@)
}

/// A transaction message.
#[derive(Debug)]
pub struct Message {
    /// How many keys must sign, how many of those are read-only, and how many of the other
    /// keys are read-only.
    pub header: (u8, u8, u8),
    pub keys: Vec<[u8; 32]>,
    pub blockhash: [u8; 32],
    pub instructions: Vec<CompiledInstruction>,
}

/// The contents of a [`Message`].
pub struct MessageView {
    pub header: (u8, u8, u8),
    pub keys: Seq<Seq<u8>>,
    pub blockhash: Seq<u8>,
    pub instructions: Seq<CompiledInstructionView>,
}

impl View for Message {
    type V = MessageView;

    open spec fn view(&self) -> MessageView {
        MessageView {
            header: self.header,
            keys: self.keys@.map_values(|key: [u8; 32]| key@),
            blockhash: self.blockhash@,
            instructions: self.instructions@.map_values(
                |compiled: CompiledInstruction| compiled_view(compiled),
            ),
        }
    }
}

/// The message that `Message::new_with_blockhash` makes of instructions, payer and blockhash.
pub uninterp spec fn message_of(
    instructions: Seq<InstructionView>,
    payer: Seq<u8>,
    blockhash: Seq<u8>,
) -> MessageView;

/// The signatures that `Transaction::new` puts on a message for one key pair.
pub uninterp spec fn signatures_of(keypair: Seq<u8>, message: MessageView) -> Seq<Seq<u8>>;

/// Whether the instructions are few and small enough for a message.
pub open spec fn fits_message(instructions: Seq<InstructionView>) -> bool {
    &&& instructions.len() <= 4
    &&& forall|i: int|
        0 <= i < instructions.len() ==> (#[trigger] instructions[i]).accounts.len() <= 8
            && instructions[i].data.len() <= 64
}

/// Whether the compiled instructions of a message are few and small.
pub open spec fn fits_wire(message: MessageView) -> bool {
    &&& message.instructions.len() <= 4
    &&& forall|i: int|
        0 <= i < message.instructions.len() ==> (#[trigger] message.instructions[i]).1.len() <= 8
            && message.instructions[i].2.len() <= 64
}

/// Whether nobody but `payer` has to sign the instructions.
pub open spec fn signed_by(instructions: Seq<InstructionView>, payer: Seq<u8>) -> bool {
    forall|i: int, j: int|
        0 <= i < instructions.len() && 0 <= j < instructions[i].accounts.len() && (
        #[trigger] instructions[i].accounts[j]).is_signer ==> instructions[i].accounts[j].key
            == payer
}

/// Whether position `at` among the keys holds `key`.
pub open spec fn key_at(keys: Seq<Seq<u8>>, at: u8, key: Seq<u8>) -> bool {
    at < keys.len() && keys[at as int] == key
}

/// Whether a compiled instruction calls the same program on the same accounts, in the same
/// order and with the same data.
pub open spec fn same_call(
    keys: Seq<Seq<u8>>,
    compiled: CompiledInstructionView,
    instruction: InstructionView,
) -> bool {
    &&& key_at(keys, compiled.0, instruction.program)
    &&& compiled.1.len() == instruction.accounts.len()
    &&& forall|j: int|
        0 <= j < compiled.1.len() ==> key_at(
            keys,
            #[trigger] compiled.1[j],
            instruction.accounts[j].key,
        )
    &&& compiled.2 == instruction.data
}

/// Whether a message makes the given calls, in order.
pub open spec fn makes_calls(message: MessageView, instructions: Seq<InstructionView>) -> bool {
    &&& message.instructions.len() == instructions.len()
    &&& forall|i: int|
        0 <= i < instructions.len() ==> same_call(
            message.keys,
            #[trigger] message.instructions[i],
            instructions[i],
        )
}

/// Calls `Message::new_with_blockhash`: the message depends on the arguments alone, carries
/// the blockhash, makes the calls in order, and has the payer as its first key. Where nobody
/// else has to sign, one signature is required. The order of the other keys is not stated.
#[verifier::external_body]
pub(crate) fn compile_message(
    calls: Vec<Instruction>,
    payer: [u8; 32],
    blockhash: [u8; 32],
) -> (message: Message)
    requires
        fits_message(instruction_views(calls@)),
    ensures
        message@ == message_of(instruction_views(calls@), payer@, blockhash@),
        message@.blockhash == blockhash@,
        0 < message@.keys.len() <= 64 && message@.keys[0] == payer@,
        makes_calls(message@, instruction_views(calls@)),
        signed_by(instruction_views(calls@), payer@) ==> message@.header.0 == 1,
{
    let calls: Vec<SdkInstruction> = calls.into_iter().map(|call| SdkInstruction {
        program_id: call.program.into(),
        accounts: call.accounts.iter().map(|&AccountMeta { key, is_signer, is_writable }|
            SdkAccountMeta { pubkey: key.into(), is_signer, is_writable }).collect(),
        data: call.data
    }).collect();
    let made = SdkMessage::new_with_blockhash(&calls, Some(&payer.into()), &blockhash.into());
    let h = made.header;
    Message {
        header: (h.num_required_signatures, h.num_readonly_signed_accounts, h.num_readonly_unsigned_accounts),
        keys: made.account_keys.into_iter().map(Pubkey::to_bytes).collect(),
        blockhash,
        instructions: made.instructions.into_iter().map(|c| (c.program_id_index, c.accounts, c.data)).collect()
    }
}

/// Calls `Transaction::new` with one key pair: the signatures depend on the key pair and the
/// message alone, and there is one of 64 bytes.
#[verifier::external_body]
pub(crate) fn sign_message(keypair: &[u8], message: &Message) -> (signatures: Vec<Vec<u8>>)
    requires
        message@.header.0 == 1,
        0 < message@.keys.len() <= 64 && is_keypair(keypair@, message@.keys[0]),
        fits_wire(message@),
    ensures
        signature_views(signatures@) == signatures_of(keypair@, message@),
        signatures@.len() == 1 && signatures@[0]@.len() == 64,
{
    let made = SdkMessage {
        header: MessageHeader {
            num_required_signatures: message.header.0,
            num_readonly_signed_accounts: message.header.1,
            num_readonly_unsigned_accounts: message.header.2,
        },
        account_keys: message.keys.iter().map(|key| Pubkey::from(*key)).collect(),
        recent_blockhash: message.blockhash.into(),
        instructions: message.instructions.iter().map(|call| SdkCompiledInstruction {
            program_id_index: call.0, accounts: call.1.clone(), data: call.2.clone() }).collect(),
    };
    let keypair = solana_sdk::signature::Keypair::try_from(keypair).unwrap();
    let signed = Transaction::new(&[&keypair], made, message.blockhash.into());
    signed.signatures.iter().map(|signature| signature.as_ref().to_vec()).collect()
}

/// The contents of a row of signatures.
pub open spec fn signature_views(signatures: Seq<Vec<u8>>) -> Seq<Seq<u8>> {
    signatures.map_values(|signature: Vec<u8>| signature@)
}

} // verus!
