//! One peer's half of the chat loop: the role-dependent turn order and the
//! two turn bodies, local-line encryption and received-frame decryption.
//! Reading the keyboard and the socket stays with the caller; this module
//! decides what each turn does to the generator and what bytes go out.

use vstd::prelude::*;
use crate::keystream::{nth_state, xor_with_keystream, LCG, LCG_INCREMENT, LCG_MULTIPLIER};

verus! {

/// Which action a peer performs first each round.  The listener speaks
/// first; the connector listens first, so the two never both block on a
/// read.
#[derive(Clone, Copy, Debug, PartialEq, Eq, Structural)]
pub enum Role {
    FirstSender,
    FirstReceiver,
}

/// The two halves of a round.
#[derive(Clone, Copy, Debug, PartialEq, Eq, Structural)]
pub enum Action {
    Send,
    Receive,
}

impl Role {
    /// The action this role opens every round with.
    pub fn first_action(&self) -> (a: Action)
        ensures
            *self == Role::FirstSender ==> a == Action::Send,
            *self == Role::FirstReceiver ==> a == Action::Receive,
    {
        match self {
            Role::FirstSender => Action::Send,
            Role::FirstReceiver => Action::Receive,
        }
    }
}

/// The whitespace bytes stripped from the end of a typed line: space,
/// horizontal tab, line feed, vertical tab, form feed and carriage return.
/// A turn handles the line as raw bytes, which need not be valid UTF-8, so
/// the line boundary is drawn at single whitespace bytes; multi-byte
/// sequences that would decode to non-ASCII whitespace are message content
/// and are encrypted with the rest.
pub open spec fn is_whitespace_byte(b: u8) -> bool {
    b == 32 || b == 9 || b == 10 || b == 11 || b == 12 || b == 13
}

/// `s` without its trailing whitespace bytes.
pub open spec fn trim_back(s: Seq<u8>) -> Seq<u8>
    decreases s.len(),
{
    if s.len() > 0 && is_whitespace_byte(s.last()) {
        trim_back(s.drop_last())
    } else {
        s
    }
}

fn is_whitespace(b: u8) -> (r: bool)
    ensures
        r == is_whitespace_byte(b),
{
    b == 32 || b == 9 || b == 10 || b == 11 || b == 12 || b == 13
}

/// The line with its trailing whitespace stripped.
pub fn trim_trailing_whitespace(line: &[u8]) -> (out: Vec<u8>)
    ensures
        out@ == trim_back(line@),
{
    let len = line.len();
    proof {
        assert(line@.subrange(0, len as int) =~= line@);
    }
    let mut end: usize = len;
    while end > 0 && is_whitespace(line[end - 1])
        invariant
            len == line@.len(),
            end <= len,
            trim_back(line@) == trim_back(line@.subrange(0, end as int)),
        decreases end,
    {
        proof {
            assert(line@.subrange(0, end as int).drop_last() =~= line@.subrange(
                0,
                end as int - 1,
            ));
        }
        end = end - 1;
    }
    proof {
        assert(trim_back(line@) =~= line@.subrange(0, end as int));
    }
    let mut out: Vec<u8> = Vec::new();
    let mut i: usize = 0;
    while i < end
        invariant
            i <= end <= len,
            len == line@.len(),
            out@ =~= line@.subrange(0, i as int),
        decreases end - i,
    {
        out.push(line[i]);
        proof {
            assert(out@ =~= line@.subrange(0, i as int + 1));
        }
        i = i + 1;
    }
    proof {
        assert(out@ =~= trim_back(line@));
    }
    out
}

/// What a receive turn found: the peer closed the stream, or one frame of
/// ciphertext was decrypted.
pub enum ReceiveOutcome {
    Closed,
    Message(Vec<u8>),
}

/// One peer's session: its role and its own keystream generator, seeded once
/// with the agreed seed and advanced only when bytes are produced.
pub struct ChatSession {
    role: Role,
    gen: LCG,
}

impl ChatSession {
    /// The generator still carries the session's fixed recurrence parameters.
    pub closed spec fn wf(&self) -> bool {
        &&& self.gen.wf()
        &&& self.gen.multiplier() == LCG_MULTIPLIER
        &&& self.gen.increment() == LCG_INCREMENT
    }

    /// The generator's current state.
    pub closed spec fn state(&self) -> u32 {
        self.gen.state()
    }

    /// The role this session was built for.
    pub closed spec fn session_role(&self) -> Role {
        self.role
    }

    /// A session for `role`, its generator freshly seeded.
    pub fn new(role: Role, seed: u32) -> (s: ChatSession)
        ensures
            s.wf(),
            s.session_role() == role,
            s.state() == seed,
    {
        ChatSession { role, gen: LCG::new(seed) }
    }

    /// The sending half of a turn.  Trailing whitespace is stripped from
    /// the typed line; an empty result skips the turn with no transport
    /// write and no keystream consumed.  Otherwise the trimmed line is XORed with the next
    /// keystream bytes into a ciphertext of equal length.
    pub fn send_turn(&mut self, line: &[u8]) -> (out: Option<Vec<u8>>)
        requires
            old(self).wf(),
        ensures
            final(self).wf(),
            final(self).session_role() == old(self).session_role(),
            trim_back(line@).len() == 0 ==> out is None && *final(self) == *old(self),
            trim_back(line@).len() > 0 ==> {
                &&& out matches Some(cipher) && cipher@ == xor_with_keystream(
                    LCG_MULTIPLIER,
                    LCG_INCREMENT,
                    old(self).state(),
                    trim_back(line@),
                )
                &&& final(self).state() == nth_state(
                    LCG_MULTIPLIER,
                    LCG_INCREMENT,
                    old(self).state(),
                    trim_back(line@).len(),
                )
            },
    {
        let message = trim_trailing_whitespace(line);
        if message.len() == 0 {
            None
        } else {
            Some(self.gen.apply_keystream(message.as_slice()))
        }
    }

    /// The receiving half of a turn.  Zero bytes read mean the peer closed
    /// the stream: the session ends and the generator is untouched.
    /// Otherwise one read's worth of bytes is one message, XORed with the
    /// next keystream bytes back into plaintext of equal length.
    pub fn receive_turn(&mut self, received: &[u8]) -> (out: ReceiveOutcome)
        requires
            old(self).wf(),
        ensures
            final(self).wf(),
            final(self).session_role() == old(self).session_role(),
            received@.len() == 0 ==> out is Closed && *final(self) == *old(self),
            received@.len() > 0 ==> {
                &&& out matches ReceiveOutcome::Message(plain) && plain@ == xor_with_keystream(
                    LCG_MULTIPLIER,
                    LCG_INCREMENT,
                    old(self).state(),
                    received@,
                )
                &&& final(self).state() == nth_state(
                    LCG_MULTIPLIER,
                    LCG_INCREMENT,
                    old(self).state(),
                    received@.len(),
                )
            },
    {
        if received.len() == 0 {
            ReceiveOutcome::Closed
        } else {
            ReceiveOutcome::Message(self.gen.apply_keystream(received))
        }
    }
}

} // verus!
