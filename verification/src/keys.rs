//! Key material, and what the keypair, JSON and hex libraries do for the
//! search: generation, validation, the text form of a public key.

use vstd::prelude::*;
use solana_keypair::{Address, Keypair};
use solana_signer::Signer;
use crate::text::hex_text;

verus! {

/// The error of `serde_json`, carried through and never looked into.
#[verifier::external_type_specification]
#[verifier::external_body]
pub struct ExJsonError(serde_json::Error);

/// The error of `Keypair::try_from`, carried through and never looked into.
#[verifier::external_type_specification]
#[verifier::external_body]
pub struct ExSignatureError(solana_keypair::SignatureError);

/// The text form of a public key: what `Display` of `solana_keypair::Address`
/// writes for an address made of these 32 bytes.
pub uninterp spec fn address_text(public: Seq<u8>) -> Seq<char>;

/// The bytes that `serde_json::from_str` reads from a text as a `Vec<u8>`,
/// or `None` where it reports an error.
pub uninterp spec fn json_byte_array(text: Seq<char>) -> Option<Seq<u8>>;

/// Whether `Keypair::try_from` takes these bytes for a keypair.
pub uninterp spec fn keypair_accepts(bytes: Seq<u8>) -> bool;

/// A keypair as plain bytes.
#[derive(Debug)]
pub struct KeyMaterial {
    /// The secret material: the 32-byte seed, then the public key.
    pub secret: [u8; 64],
    /// The public-key image.
    pub public: [u8; 32],
}

impl KeyMaterial {
    /// The material is a keypair: `Keypair::try_from` takes the secret
    /// material, and its second half is the public key.
    pub open spec fn wf(&self) -> bool {
        &&& keypair_accepts(self.secret@)
        &&& self.secret@.subrange(32, 64) == self.public@
    }

    /// A new random keypair. Which one is left open; it is a keypair.
    pub fn generate() -> (k: KeyMaterial)
        ensures
            k.wf(),
            keypair_accepts(k.secret@),
            k.secret@.subrange(32, 64) == k.public@,
    {
        new_keypair()
    }

    /// The text form of the public key.
    pub fn address(&self) -> (s: String)
        ensures
            s@ == address_text(self.public@),
    {
        encode_address(&self.public)
    }
}

/// `Keypair::new`, with the keypair taken apart by `Keypair::to_bytes` and
/// `Signer::pubkey`. The keypair is random, so of the bytes only this is
/// said: the last 32 bytes of `to_bytes` are the public key, and the 64
/// bytes are a seed with the key derived from it, which is what
/// `Keypair::try_from` recomputes and takes.
#[verifier::external_body]
fn new_keypair() -> (k: KeyMaterial)
    ensures
        keypair_accepts(k.secret@),
        k.secret@.subrange(32, 64) == k.public@,
{
    let keypair = Keypair::new();
    KeyMaterial { secret: keypair.to_bytes(), public: keypair.pubkey().to_bytes() }
}

/// `Keypair::try_from` on a byte slice. It takes only slices of 64 bytes
/// whose second half is the public key of the first half, and the public key
/// of the keypair it builds is that second half. Which 64 bytes it takes is
/// left to `keypair_accepts`.
#[verifier::external_body]
pub(crate) fn keypair_public_image(bytes: &[u8]) -> (r: Result<
    [u8; 32],
    solana_keypair::SignatureError,
>)
    ensures
        r is Ok <==> keypair_accepts(bytes@),
        r matches Ok(public) ==> bytes@.len() == 64 && public@ == bytes@.subrange(32, 64),
{
    match Keypair::try_from(bytes) {
        Ok(keypair) => Ok(keypair.pubkey().to_bytes()),
        Err(e) => Err(e),
    }
}

/// `Display` of `solana_keypair::Address`: the base58 text of the 32 bytes.
#[verifier::external_body]
pub(crate) fn encode_address(public: &[u8; 32]) -> (s: String)
    ensures
        s@ == address_text(public@),
{
    Address::from(*public).to_string()
}

/// `hex::encode`: two lower-case hexadecimal digits for each byte, the high
/// half first.
#[verifier::external_body]
pub(crate) fn hex_encode(bytes: &[u8]) -> (s: String)
    ensures
        s@ == hex_text(bytes@),
{
    hex::encode(bytes)
}

/// `Display` of `serde_json::Error`: the parser's message, with the line and
/// the column where it has them. Nothing is said of the text.
#[verifier::external_body]
pub(crate) fn json_error_text(e: &serde_json::Error) -> (s: String) {
    e.to_string()
}

/// `Display` of `solana_keypair::SignatureError`: it writes the same two
/// words for every error and keeps the cause to itself.
#[verifier::external_body]
pub(crate) fn signature_error_text(e: &solana_keypair::SignatureError) -> (s: String)
    ensures
        s@ == "signature error"@,
{
    e.to_string()
}

/// `serde_json::from_str` at the type `Vec<u8>`.
#[verifier::external_body]
pub(crate) fn json_bytes(text: &str) -> (r: Result<Vec<u8>, serde_json::Error>)
    ensures
        match r {
            Ok(bytes) => json_byte_array(text@) == Some(bytes@),
            Err(_) => json_byte_array(text@).is_none(),
        },
{
    serde_json::from_str::<Vec<u8>>(text)
}

} // verus!
