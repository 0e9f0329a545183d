//! Key-pair generation: random scalar draws, public-key derivation, and the
//! hash-based address, produced in batches.
use vstd::prelude::*;
use rand::Rng;
use sha3::Digest;
use crate::hexcode::{hex_encoding, is_hex_digit, lemma_hex_encoding_digits, encode_hex};

verus! {

/// Whether a 32-byte string is a valid secret scalar for the curve:
/// not all zeros and below the curve order read as a big-endian integer.
/// Left abstract; `derive_public_key` decides it.
pub uninterp spec fn valid_secret_scalar(s: Seq<u8>) -> bool;

/// The 65-byte uncompressed encoding of the public key derived from a valid
/// secret scalar. A function of the scalar alone.
pub uninterp spec fn public_key_uncompressed(s: Seq<u8>) -> Seq<u8>;

/// The Keccak-256 digest of a byte string. A function of the input alone.
pub uninterp spec fn keccak256_of(data: Seq<u8>) -> Seq<u8>;

/// Overwrite the buffer with bytes from a cryptographically sound
/// process-local generator.
///
/// Relies on `rand::rng` and `rand::Rng::fill_bytes`: the buffer is filled in
/// place, so its length does not change. Nothing is promised of the values.
#[verifier::external_body]
fn fill_random(buf: &mut Vec<u8>)
    ensures
        final(buf)@.len() == old(buf)@.len(),
{
    rand::rng().fill_bytes(buf.as_mut_slice());
}

/// Derive the uncompressed public-key encoding for a 32-byte secret scalar,
/// or nothing when the bytes are not a valid scalar.
///
/// Relies on `secp256k1::SecretKey::from_secret_bytes`, which accepts exactly
/// the valid scalars (not all-zero and below the curve order), and on
/// `secp256k1::PublicKey::from_secret_key` followed by
/// `serialize_uncompressed`, which give the 65-byte uncompressed encoding,
/// a function of the scalar alone.
#[verifier::external_body]
fn derive_public_key(secret: &Vec<u8>) -> (r: Option<Vec<u8>>)
    requires
        secret@.len() == 32,
    ensures
        r is Some <==> valid_secret_scalar(secret@),
        r matches Some(p) ==> (p@ == public_key_uncompressed(secret@) && p@.len() == 65),
{
    let mut arr = [0u8; 32];
    arr.copy_from_slice(secret.as_slice());
    match secp256k1::SecretKey::from_secret_bytes(arr) {
        Ok(sk) => Some(
            secp256k1::PublicKey::from_secret_key(&sk).serialize_uncompressed().to_vec(),
        ),
        Err(_) => None,
    }
}

/// Keccak-256 digest of a byte string.
///
/// Relies on `sha3::Keccak256` (through `Digest::digest`): a 32-byte digest
/// that depends on the input alone.
#[verifier::external_body]
fn keccak256(data: &Vec<u8>) -> (r: Vec<u8>)
    ensures
        r@ == keccak256_of(data@),
        r@.len() == 32,
{
    sha3::Keccak256::digest(data.as_slice()).to_vec()
}

/// Render the winning secret key as lowercase hexadecimal.
///
/// Relies on `hex::encode`: lowercase hexadecimal, two digits per byte, high
/// nibble first.
#[verifier::external_body]
pub(crate) fn key_to_hex(secret: &Vec<u8>) -> (r: Vec<u8>)
    ensures
        r@ == hex_encoding(secret@),
{
    hex::encode(secret.as_slice()).into_bytes()
}

/// Length of a secret key, in bytes.
pub const SECRET_LEN: usize = 32;

/// Length of an address, in lowercase hexadecimal digits: the low 20 bytes of
/// the digest, two digits per byte.
pub const ADDRESS_LEN: usize = 40;

/// The address derived from a secret scalar: the Keccak-256 digest of the
/// uncompressed public-key encoding without its leading format byte, low 20
/// bytes, rendered as lowercase hexadecimal.
pub open spec fn spec_address_of(secret: Seq<u8>) -> Seq<u8> {
    hex_encoding(keccak256_of(public_key_uncompressed(secret).skip(1)).skip(12))
}

/// One candidate: a secret key and the address derived from it.
pub struct KeyPair {
    /// The raw secret scalar, 32 bytes.
    pub secret: Vec<u8>,
    /// The derived address, 40 lowercase hexadecimal digits.
    pub address: Vec<u8>,
}

impl KeyPair {
    /// The secret is a valid scalar and the address is its derived address.
    pub open spec fn wf(self) -> bool {
        &&& self.secret@.len() == SECRET_LEN
        &&& valid_secret_scalar(self.secret@)
        &&& self.address@ == spec_address_of(self.secret@)
        &&& self.address@.len() == ADDRESS_LEN
        &&& forall|i: int| 0 <= i < self.address@.len() ==> is_hex_digit(#[trigger] self.address@[i])
    }
}

/// Copy of the tail of `v`, from `start` on.
fn tail_from(v: &Vec<u8>, start: usize) -> (r: Vec<u8>)
    requires
        start <= v@.len(),
    ensures
        r@ == v@.skip(start as int),
{
    let mut out: Vec<u8> = Vec::new();
    let mut i: usize = start;
    while i < v.len()
        invariant
            start <= i <= v@.len(),
            out@ == v@.subrange(start as int, i as int),
        decreases v@.len() - i,
    {
        out.push(v[i]);
        proof {
            assert(out@ =~= v@.subrange(start as int, i + 1));
        }
        i = i + 1;
    }
    proof {
        assert(v@.subrange(start as int, v@.len() as int) =~= v@.skip(start as int));
    }
    out
}

/// Build the key pair for a given 32-byte secret: succeeds exactly when the
/// bytes are a valid scalar, and then derives the address from them.
pub fn keypair_from_secret(secret: &Vec<u8>) -> (r: Option<KeyPair>)
    ensures
        r is Some <==> (secret@.len() == SECRET_LEN && valid_secret_scalar(secret@)),
        r matches Some(kp) ==> (kp.wf() && kp.secret@ == secret@),
{
    if secret.len() != SECRET_LEN {
        return None;
    }
    match derive_public_key(secret) {
        Some(pubkey) => {
            let body = tail_from(&pubkey, 1);
            let digest = keccak256(&body);
            let low = tail_from(&digest, 12);
            let address = encode_hex(&low);
            proof {
                lemma_hex_encoding_digits(low@);
            }
            let mut copy: Vec<u8> = Vec::new();
            let mut i: usize = 0;
            while i < secret.len()
                invariant
                    i <= secret@.len(),
                    copy@ == secret@.take(i as int),
                decreases secret@.len() - i,
            {
                copy.push(secret[i]);
                proof {
                    assert(copy@ =~= secret@.take(i + 1));
                }
                i = i + 1;
            }
            proof {
                assert(secret@.take(secret@.len() as int) =~= secret@);
            }
            Some(KeyPair { secret: copy, address })
        },
        None => None,
    }
}

/// Draw one random 32-byte string and build its key pair. A draw that is not
/// a valid scalar (vanishingly rare) yields nothing; the caller simply draws
/// again, so the anomaly is never surfaced.
pub fn try_generate_keypair() -> (r: Option<KeyPair>)
    ensures
        r matches Some(kp) ==> kp.wf(),
{
    let mut secret: Vec<u8> = Vec::new();
    let mut i: usize = 0;
    while i < SECRET_LEN
        invariant
            secret@.len() == i,
            i <= SECRET_LEN,
        decreases SECRET_LEN - i,
    {
        secret.push(0);
        i = i + 1;
    }
    fill_random(&mut secret);
    keypair_from_secret(&secret)
}

/// Produce up to `count` fresh candidates in a row, reusing the derivation
/// context; a candidate is skipped only when its draw was not a valid scalar.
pub fn generate_batch(count: usize) -> (r: Vec<KeyPair>)
    ensures
        r@.len() <= count,
        forall|i: int| 0 <= i < r@.len() ==> (#[trigger] r@[i]).wf(),
{
    let mut out: Vec<KeyPair> = Vec::new();
    let mut i: usize = 0;
    while i < count
        invariant
            out@.len() <= i,
            i <= count,
            forall|j: int| 0 <= j < out@.len() ==> (#[trigger] out@[j]).wf(),
        decreases count - i,
    {
        match try_generate_keypair() {
            Some(kp) => out.push(kp),
            None => {},
        }
        i = i + 1;
    }
    out
}

} // verus!
