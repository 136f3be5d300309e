//! The session's symmetric cipher: a linear-congruential byte generator and
//! the XOR keystream it drives.

use vstd::prelude::*;
use vstd::arithmetic::div_mod::lemma_mod_bound;

verus! {

/// Multiplier of the session's linear-congruential recurrence.
pub const LCG_MULTIPLIER: u32 = 1103515245;

/// Increment of the session's linear-congruential recurrence.
pub const LCG_INCREMENT: u32 = 12345;

/// One step of the recurrence: `(a * s + c) mod 2^32`.
pub open spec fn lcg_step(a: u32, c: u32, s: u32) -> u32 {
    ((a as int * s as int + c as int) % 0x100000000) as u32
}

/// The byte a generator emits from state `s`: the top 8 bits of the state
/// reached after one step.
pub open spec fn lcg_byte(a: u32, c: u32, s: u32) -> u8 {
    (lcg_step(a, c, s) >> 24) as u8
}

/// The state reached after `n` steps from `seed`.
pub open spec fn nth_state(a: u32, c: u32, seed: u32, n: nat) -> u32
    decreases n,
{
    if n == 0 {
        seed
    } else {
        lcg_step(a, c, nth_state(a, c, seed, (n - 1) as nat))
    }
}

/// The first `n` keystream bytes produced from `seed`.
pub open spec fn keystream(a: u32, c: u32, seed: u32, n: nat) -> Seq<u8> {
    Seq::new(n, |i: int| lcg_byte(a, c, nth_state(a, c, seed, i as nat)))
}

/// `data` combined bytewise, by XOR, with the keystream from `seed`.
pub open spec fn xor_with_keystream(a: u32, c: u32, seed: u32, data: Seq<u8>) -> Seq<u8> {
    Seq::new(data.len(), |i: int| data[i] ^ lcg_byte(a, c, nth_state(a, c, seed, i as nat)))
}

/// The keystream generator.  Its modulus is realized as wraparound of 32-bit
/// state, so the stored modulus field is fixed at `2^32`.
pub struct LCG {
    a: u32,
    c: u32,
    m: u64,
    next: u32,
}

impl LCG {
    /// The stored modulus matches the 32-bit wraparound the recurrence assumes.
    pub closed spec fn wf(&self) -> bool {
        self.m == 0x100000000
    }

    pub closed spec fn multiplier(&self) -> u32 {
        self.a
    }

    pub closed spec fn increment(&self) -> u32 {
        self.c
    }

    pub closed spec fn state(&self) -> u32 {
        self.next
    }

    /// A generator with the session's fixed parameters, positioned at `seed`.
    pub fn new(seed: u32) -> (g: LCG)
        ensures
            g.wf(),
            g.multiplier() == LCG_MULTIPLIER,
            g.increment() == LCG_INCREMENT,
            g.state() == seed,
    {
        LCG { a: LCG_MULTIPLIER, c: LCG_INCREMENT, m: 0x100000000, next: seed }
    }

    /// A generator over an alternate parameter set, for callers that swap in
    /// their own recurrence constants.
    pub fn with_params(a: u32, c: u32, seed: u32) -> (g: LCG)
        ensures
            g.wf(),
            g.multiplier() == a,
            g.increment() == c,
            g.state() == seed,
    {
        LCG { a, c, m: 0x100000000, next: seed }
    }

    /// Advance the state once and emit the top 8 bits of the new state.
    pub fn next_byte(&mut self) -> (byte: u8)
        requires
            old(self).wf(),
        ensures
            final(self).wf(),
            final(self).multiplier() == old(self).multiplier(),
            final(self).increment() == old(self).increment(),
            final(self).state() == lcg_step(old(self).multiplier(), old(self).increment(), old(self).state()),
            byte == lcg_byte(old(self).multiplier(), old(self).increment(), old(self).state()),
    {
        proof {
            assert(0 <= (self.a as int) * (self.next as int) + (self.c as int)
                < 0x10000000000000000) by (nonlinear_arith)
                requires
                    self.a <= 0xFFFFFFFFu32,
                    self.next <= 0xFFFFFFFFu32,
                    self.c <= 0xFFFFFFFFu32,
            ;
            lemma_mod_bound(self.a as int * self.next as int + self.c as int, 0x100000000);
        }
        self.next = ((self.a as u64 * self.next as u64 + self.c as u64) % self.m) as u32;
        let s = self.next;
        proof {
            assert(s >> 24 < 256) by (bit_vector);
        }
        (s >> 24) as u8
    }

    /// XOR `data` with the next `data.len()` keystream bytes.  Encryption and
    /// decryption are this same operation; the state advances exactly once
    /// per byte handled.
    pub fn apply_keystream(&mut self, data: &[u8]) -> (out: Vec<u8>)
        requires
            old(self).wf(),
        ensures
            final(self).wf(),
            final(self).multiplier() == old(self).multiplier(),
            final(self).increment() == old(self).increment(),
            final(self).state() == nth_state(
                old(self).multiplier(),
                old(self).increment(),
                old(self).state(),
                data@.len(),
            ),
            out@ == xor_with_keystream(
                old(self).multiplier(),
                old(self).increment(),
                old(self).state(),
                data@,
            ),
    {
        let ghost a = old(self).multiplier();
        let ghost c = old(self).increment();
        let ghost s0 = old(self).state();
        let mut out: Vec<u8> = Vec::new();
        let mut i: usize = 0;
        while i < data.len()
            invariant
                self.wf(),
                self.multiplier() == a,
                self.increment() == c,
                i <= data@.len(),
                self.state() == nth_state(a, c, s0, i as nat),
                out@.len() == i,
                forall|j: int|
                    0 <= j < i ==> out@[j] == data@[j] ^ lcg_byte(a, c, nth_state(a, c, s0, j as nat)),
            decreases data@.len() - i,
        {
            let k = self.next_byte();
            out.push(data[i] ^ k);
            i = i + 1;
        }
        proof {
            assert(out@ =~= xor_with_keystream(a, c, s0, data@));
        }
        out
    }
}

/// A single XOR with the same byte twice restores the original byte.
proof fn lemma_xor_involution(x: u8, k: u8)
    ensures
        (x ^ k) ^ k == x,
{
    assert((x ^ k) ^ k == x) by (bit_vector);
}

/// Determinism of the generator: from equal seeds, equal parameter sets
/// produce the identical byte sequence, however many bytes are drawn.
pub proof fn lemma_keystream_deterministic(a: u32, c: u32, s1: u32, s2: u32, n: nat)
    requires
        s1 == s2,
    ensures
        keystream(a, c, s1, n) == keystream(a, c, s2, n),
{
}

/// Round trip of the stream cipher: XOR-decrypting with a freshly seeded
/// generator what was XOR-encrypted under an identically seeded generator
/// restores the message, byte for byte.
pub proof fn lemma_xor_round_trip(a: u32, c: u32, seed: u32, message: Seq<u8>)
    ensures
        xor_with_keystream(a, c, seed, xor_with_keystream(a, c, seed, message)) == message,
{
    let enc = xor_with_keystream(a, c, seed, message);
    let dec = xor_with_keystream(a, c, seed, enc);
    assert forall|i: int| 0 <= i < message.len() implies dec[i] == message[i] by {
        lemma_xor_involution(message[i], lcg_byte(a, c, nth_state(a, c, seed, i as nat)));
    }
    assert(dec =~= message);
}

} // verus!
