//! The Diffie-Hellman key agreement: key generation, the 8-byte handshake
//! frame, and derivation of the keystream seed from the shared secret.
//! Transport reads and writes stay with the caller; this module computes
//! what is sent and interprets what arrived.

use vstd::prelude::*;
use crate::modexp::{lemma_dh_agreement, mod_pow, pow_mod};

verus! {

/// Fixed prime-like 64-bit modulus both peers hold out of band.
pub const DH_MODULUS: u64 = 0xD87FA3E291B4C7F3;

/// Fixed generator both peers hold out of band.
pub const DH_GENERATOR: u64 = 2;

/// Handshake parameters, passed in at construction so an alternate set can
/// be substituted without touching the algorithm.
pub struct DhParams {
    pub p: u64,
    pub g: u64,
}

impl DhParams {
    /// The modulus may not be zero; reduction modulo zero is undefined.
    pub open spec fn wf(&self) -> bool {
        self.p >= 1
    }

    /// The session's fixed parameter set.
    pub fn standard() -> (r: DhParams)
        ensures
            r.wf(),
            r.p == DH_MODULUS,
            r.g == DH_GENERATOR,
    {
        DhParams { p: DH_MODULUS, g: DH_GENERATOR }
    }
}

/// How a handshake fails: the stream closed before the peer's full frame
/// arrived, or the transport itself faulted.  Both are fatal; no retry.
#[derive(Clone, Copy, Debug, PartialEq, Eq, Structural)]
pub enum ExchangeError {
    IncompleteHandshake,
    TransportError,
}

/// Byte `i` of the most-significant-byte-first encoding of `x`.
pub open spec fn be_byte(x: u64, i: int) -> u8
    recommends
        0 <= i < 8,
{
    ((x >> ((8 * (7 - i)) as u64)) & 0xFF) as u8
}

/// The 8-byte, most-significant-byte-first wire form of a public key.
pub open spec fn u64_to_be_bytes_spec(x: u64) -> Seq<u8> {
    Seq::new(8, |i: int| be_byte(x, i))
}

/// The value an 8-byte most-significant-byte-first frame encodes.
pub open spec fn u64_from_be_bytes_spec(s: Seq<u8>) -> u64
    recommends
        s.len() == 8,
{
    ((s[0] as u64) << 56) | ((s[1] as u64) << 48) | ((s[2] as u64) << 40) | ((s[3] as u64) << 32)
        | ((s[4] as u64) << 24) | ((s[5] as u64) << 16) | ((s[6] as u64) << 8) | (s[7] as u64)
}

/// The keystream seed is the high half of the shared secret.
pub open spec fn seed_of(secret: u64) -> u32 {
    (secret >> 32) as u32
}

proof fn lemma_masked_byte(x: u64, k: u64)
    ensures
        (x >> k) & 0xFF < 256,
{
    assert((x >> k) & 0xFF < 256) by (bit_vector);
}

fn be_byte_at(x: u64, i: usize) -> (b: u8)
    requires
        i < 8,
    ensures
        b == be_byte(x, i as int),
{
    let shift: u64 = (8 * (7 - i)) as u64;
    proof {
        lemma_masked_byte(x, shift);
    }
    ((x >> shift) & 0xFF) as u8
}

/// The handshake frame for a public key: exactly 8 bytes, most significant
/// first.
pub fn encode_public_key(x: u64) -> (out: Vec<u8>)
    ensures
        out@ == u64_to_be_bytes_spec(x),
        out@.len() == 8,
{
    let mut out: Vec<u8> = Vec::new();
    let mut i: usize = 0;
    while i < 8
        invariant
            i <= 8,
            out@.len() == i,
            forall|j: int| 0 <= j < i ==> out@[j] == be_byte(x, j),
        decreases 8 - i,
    {
        out.push(be_byte_at(x, i));
        i = i + 1;
    }
    proof {
        assert(out@ =~= u64_to_be_bytes_spec(x));
    }
    out
}

/// The value the peer's 8 handshake bytes encode, most significant first.
pub fn decode_public_key(bytes: &[u8]) -> (x: u64)
    requires
        bytes@.len() == 8,
    ensures
        x == u64_from_be_bytes_spec(bytes@),
{
    ((bytes[0] as u64) << 56) | ((bytes[1] as u64) << 48) | ((bytes[2] as u64) << 40)
        | ((bytes[3] as u64) << 32) | ((bytes[4] as u64) << 24) | ((bytes[5] as u64) << 16)
        | ((bytes[6] as u64) << 8) | (bytes[7] as u64)
}

/// Encoding a key and reading the frame back yields the key: the wire format
/// loses nothing, so correctly exchanged public keys arrive exactly.
pub proof fn lemma_public_key_round_trip(x: u64)
    ensures
        u64_from_be_bytes_spec(u64_to_be_bytes_spec(x)) == x,
{
    let s = u64_to_be_bytes_spec(x);
    lemma_masked_byte(x, 56);
    lemma_masked_byte(x, 48);
    lemma_masked_byte(x, 40);
    lemma_masked_byte(x, 32);
    lemma_masked_byte(x, 24);
    lemma_masked_byte(x, 16);
    lemma_masked_byte(x, 8);
    lemma_masked_byte(x, 0);
    assert((((x >> 56) & 0xFF) << 56) | (((x >> 48) & 0xFF) << 48) | (((x >> 40) & 0xFF) << 40)
        | (((x >> 32) & 0xFF) << 32) | (((x >> 24) & 0xFF) << 24) | (((x >> 16) & 0xFF) << 16)
        | (((x >> 8) & 0xFF) << 8) | ((x >> 0) & 0xFF) == x) by (bit_vector);
    assert(s[7] as u64 == (x >> 0) & 0xFF);
}

/// Relies on rand::random: a fresh draw of a uniformly random 64-bit value.
/// Nothing is promised of the value drawn.
#[verifier::external_body]
fn random_u64() -> u64 {
    rand::random::<u64>()
}

/// Steps one and two of the handshake: draw a fresh private key and compute
/// the public key to transmit.  Whatever value the draw returns, the public
/// key is the generator raised to it modulo the shared modulus.
pub fn generate_keypair(params: &DhParams) -> (kp: (u64, u64))
    requires
        params.wf(),
    ensures
        kp.1 == pow_mod(params.g, kp.0, params.p),
{
    let private_key = random_u64();
    let public_key = mod_pow(params.g, private_key, params.p);
    (private_key, public_key)
}

/// The seed kept for the session: the top 32 bits of the shared secret.
pub fn derive_seed(secret: u64) -> (seed: u32)
    ensures
        seed == seed_of(secret),
{
    let high = secret >> 32;
    proof {
        assert(secret >> 32 < 0x100000000) by (bit_vector);
    }
    high as u32
}

/// Steps four to six of the handshake: interpret the bytes read for the
/// peer's public key, raise them to the local private key, and keep the top
/// half of the shared secret as the keystream seed.  A short read means the
/// stream closed mid-handshake, which is fatal.
pub fn complete_exchange(params: &DhParams, private_key: u64, received: &[u8]) -> (r: Result<
    u32,
    ExchangeError,
>)
    requires
        params.wf(),
    ensures
        received@.len() == 8 ==> r == Ok::<u32, ExchangeError>(
            seed_of(pow_mod(u64_from_be_bytes_spec(received@), private_key, params.p)),
        ),
        received@.len() != 8 ==> r == Err::<u32, ExchangeError>(ExchangeError::IncompleteHandshake),
{
    if received.len() != 8 {
        return Err(ExchangeError::IncompleteHandshake);
    }
    let peer_public = decode_public_key(received);
    let shared_secret = mod_pow(peer_public, private_key, params.p);
    Ok(derive_seed(shared_secret))
}

/// Agreement carried to the seed: with correctly exchanged public keys, the
/// two peers' independently computed shared secrets coincide, so the seeds
/// they keep for the session coincide too.
pub proof fn lemma_seed_agreement(params: DhParams, a: u64, b: u64)
    requires
        params.wf(),
    ensures
        seed_of(pow_mod(pow_mod(params.g, a, params.p), b, params.p)) == seed_of(
            pow_mod(pow_mod(params.g, b, params.p), a, params.p),
        ),
{
    lemma_dh_agreement(params.g, a, b, params.p);
}

} // verus!
