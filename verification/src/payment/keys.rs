//! Solana key pairs, addresses and transaction signatures.
use core::str::FromStr;
use vstd::prelude::*;
use vstd::slice::slice_to_vec;

use solana_sdk::signature::Signer;

verus! {

/// The bytes that base58 text stands for, or what `bs58` says is wrong with it.
pub uninterp spec fn base58_decoded(text: Seq<char>) -> Result<Seq<u8>, Seq<char>>;

/// The public key of the key pair that the bytes hold, or what `Keypair::try_from` says is
/// wrong with them.
pub uninterp spec fn keypair_public_key(bytes: Seq<u8>) -> Result<Seq<u8>, Seq<char>>;

/// Whether the bytes hold a key pair with the given public key.
pub open spec fn is_keypair(bytes: Seq<u8>, public_key: Seq<u8>) -> bool {
    keypair_public_key(bytes) == Ok::<Seq<u8>, Seq<char>>(public_key)
}

/// The base58 text of an address.
pub uninterp spec fn address_text(key: Seq<u8>) -> Seq<char>;

/// The address that a text stands for, or what `Pubkey::from_str` says is wrong with it.
pub uninterp spec fn parsed_address(text: Seq<char>) -> Result<Seq<u8>, Seq<char>>;

/// Whether a text stands for the given address.
pub open spec fn is_address_of(text: Seq<char>, key: Seq<u8>) -> bool {
    parsed_address(text) == Ok::<Seq<u8>, Seq<char>>(key)
}

/// The transaction signature that a text stands for, or what `Signature::from_str` says is
/// wrong with it.
pub uninterp spec fn parsed_signature(text: Seq<char>) -> Result<Seq<u8>, Seq<char>>;

/// Calls `bs58::decode(..).into_vec()`: the bytes, or the text of the error, depend on the
/// given text alone.
#[verifier::external_body]
pub(crate) fn decode_base58(text: &str) -> (bytes: Result<Vec<u8>, String>)
    ensures
        match bytes {
            Ok(bytes) => base58_decoded(text@) == Ok::<Seq<u8>, Seq<char>>(bytes@),
            Err(error) => base58_decoded(text@) == Err::<Seq<u8>, Seq<char>>(error@),
        },
{
    bs58::decode(text).into_vec().map_err(|error| error.to_string())
}

/// Calls `Keypair::try_from`: whether the bytes are a key pair depends on them alone. A key
/// pair has 64 bytes, and the second half of them is its public key.
#[verifier::external_body]
fn read_keypair(bytes: &[u8]) -> (key: Result<[u8; 32], String>)
    ensures
        match key {
            Ok(key) => {
                &&& is_keypair(bytes@, key@)
                &&& bytes@.len() == 64
                &&& key@ == bytes@.subrange(32, 64)
            },
            Err(error) => keypair_public_key(bytes@) == Err::<Seq<u8>, Seq<char>>(error@),
        },
{
    match solana_sdk::signature::Keypair::try_from(bytes) {
        Ok(keypair) => Ok(keypair.pubkey().to_bytes()),
        Err(error) => Err(error.to_string()),
    }
}

/// Calls `Keypair::new`, which draws a key pair at random: its bytes are a key pair, with the
/// public key in the second half.
#[verifier::external_body]
fn fresh_keypair() -> (bytes: Vec<u8>)
    ensures
        bytes@.len() == 64,
        is_keypair(bytes@, bytes@.subrange(32, 64)),
{
    solana_sdk::signature::Keypair::new().to_bytes().to_vec()
}

/// Calls `to_string` on a `Pubkey`: the text depends on the key alone, and reading it gives
/// back the key.
#[verifier::external_body]
pub(crate) fn write_address(key: &[u8; 32]) -> (text: String)
    ensures
        text@ == address_text(key@),
        is_address_of(text@, key@),
{
    solana_sdk::pubkey::Pubkey::from(*key).to_string()
}

/// Calls `Pubkey::from_str`: the key, or the name of the error, depends on the text alone.
#[verifier::external_body]
pub(crate) fn read_address(text: &str) -> (key: Result<[u8; 32], String>)
    ensures
        match key {
            Ok(key) => parsed_address(text@) == Ok::<Seq<u8>, Seq<char>>(key@),
            Err(error) => parsed_address(text@) == Err::<Seq<u8>, Seq<char>>(error@),
        },
{
    match solana_sdk::pubkey::Pubkey::from_str(text) {
        Ok(key) => Ok(key.to_bytes()),
        Err(error) => Err(format!("{:?}", error)),
    }
}

/// Calls `Signature::from_str`: the signature, or the name of the error, depends on the text
/// alone.
#[verifier::external_body]
pub(crate) fn read_signature(text: &str) -> (signature: Result<[u8; 64], String>)
    ensures
        match signature {
            Ok(signature) => parsed_signature(text@) == Ok::<Seq<u8>, Seq<char>>(signature@),
            Err(error) => parsed_signature(text@) == Err::<Seq<u8>, Seq<char>>(error@),
        },
{
    match solana_sdk::signature::Signature::from_str(text) {
        Ok(signature) => Ok(signature.into()),
        Err(error) => Err(format!("{:?}", error)),
    }
}

/// A Solana key pair.
pub struct Keypair {
    bytes: Vec<u8>,
    public_key: [u8; 32],
}

impl Keypair {
    /// The secret key followed by the public key.
    pub closed spec fn bytes(self) -> Seq<u8> {
        self.bytes@
    }

    /// The public key.
    pub closed spec fn public_key(self) -> Seq<u8> {
        self.public_key@
    }

    #[verifier::type_invariant]
    spec fn belongs_together(self) -> bool {
        is_keypair(self.bytes@, self.public_key@)
    }

    /// A key pair drawn at random.
    pub fn new() -> (keypair: Self)
        ensures
            is_keypair(keypair.bytes(), keypair.public_key()),
    {
        let bytes = fresh_keypair();
        let public_key = match read_keypair(bytes.as_slice()) {
            Ok(public_key) => public_key,
            Err(_) => {
                assert(false);
                [0u8; 32]
            },
        };
        Keypair { bytes, public_key }
    }

    /// The key pair that the bytes hold, or what is wrong with them.
    pub fn from_bytes(bytes: &[u8]) -> (keypair: Result<Self, String>)
        ensures
            match keypair {
                Ok(keypair) => {
                    &&& keypair.bytes() == bytes@
                    &&& is_keypair(bytes@, keypair.public_key())
                },
                Err(error) => keypair_public_key(bytes@) == Err::<Seq<u8>, Seq<char>>(error@),
            },
    {
        match read_keypair(bytes) {
            Ok(public_key) => Ok(Keypair { bytes: slice_to_vec(bytes), public_key }),
            Err(error) => Err(error),
        }
    }

    /// The public key.
    pub fn public(&self) -> (key: [u8; 32])
        ensures
            key@ == self.public_key(),
            is_keypair(self.bytes(), self.public_key()),
    {
        proof {
            use_type_invariant(self);
        }
        self.public_key
    }

    /// The address in base58.
    pub fn address(&self) -> (address: String)
        ensures
            address@ == address_text(self.public_key()),
            is_address_of(address@, self.public_key()),
    {
        write_address(&self.public_key)
    }

    /// The secret key followed by the public key.
    pub fn secret_bytes(&self) -> (bytes: &Vec<u8>)
        ensures
            bytes@ == self.bytes(),
            is_keypair(self.bytes(), self.public_key()),
    {
        proof {
            use_type_invariant(self);
        }
        &self.bytes
    }
}

} // verus!
