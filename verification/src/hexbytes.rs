//! Parsing whitespace-separated hexadecimal byte values: the text form in
//! which bytes to be written arrive on the command line.

use vstd::prelude::*;
use vstd::string::StrSliceExecFns;
use crate::offset::{digit_of, parse_digits};
use crate::words::{split_words, words_of};

verus! {

/// What one token denotes: an optional plus sign, then hexadecimal digits
/// whose value fits one byte.
pub open spec fn hex_byte_spec(s: Seq<char>) -> Option<u8> {
    let digits = if s.len() > 0 && s[0] == '+' {
        s.drop_first()
    } else {
        s
    };
    if digits.len() == 0 {
        None
    } else {
        match parse_digits(digits, 16, 0) {
            Option::None => None,
            Option::Some(v) => if v <= 255 {
                Some(v as u8)
            } else {
                None
            },
        }
    }
}

/// Read one token as a hexadecimal byte.
pub fn parse_hex_byte(token: &str) -> (r: Option<u8>)
    ensures
        r == hex_byte_spec(token@),
{
    let n = token.unicode_len();
    proof {
        assert(token@.subrange(0, n as int) =~= token@);
    }
    let mut i: usize = 0;
    if 0 < n && token.get_char(0) == '+' {
        i = 1;
    }
    let ghost digits = if token@.len() > 0 && token@[0] == '+' {
        token@.drop_first()
    } else {
        token@
    };
    proof {
        assert(digits =~= token@.subrange(i as int, n as int));
    }
    if i == n {
        return None;
    }
    let mut acc: u64 = 0;
    let mut j: usize = i;
    while j < n
        invariant
            n == token@.len(),
            i <= j <= n,
            digits == token@.subrange(i as int, n as int),
            digits.len() > 0,
            hex_byte_spec(token@) == (match parse_digits(digits, 16, 0) {
                Option::None => None,
                Option::Some(v) => if v <= 255 {
                    Some(v as u8)
                } else {
                    None
                },
            }),
            parse_digits(digits, 16, 0) == parse_digits(
                token@.subrange(j as int, n as int),
                16,
                acc as int,
            ),
        decreases n - j,
    {
        let c = token.get_char(j);
        let ghost rest = token@.subrange(j as int, n as int);
        proof {
            assert(rest[0] == token@[j as int]);
            assert(rest.drop_first() =~= token@.subrange(j as int + 1, n as int));
        }
        match digit_of(c, 16) {
            None => {
                return None;
            },
            Some(d) => {
                proof {
                    assert(0 <= (acc as int) * 16 + (d as int)
                        < 0x100000000000000000000000000000000) by (nonlinear_arith)
                        requires
                            acc <= 0xFFFFFFFFFFFFFFFFu64,
                            d <= 255u8,
                    ;
                }
                let wide: u128 = acc as u128 * 16 + d as u128;
                if wide > 0xFFFFFFFFFFFFFFFF {
                    return None;
                }
                acc = wide as u64;
            },
        }
        j = j + 1;
    }
    proof {
        assert(token@.subrange(n as int, n as int) =~= Seq::<char>::empty());
        assert(parse_digits(digits, 16, 0) == Some(acc as int));
    }
    if acc <= 255 {
        Some(acc as u8)
    } else {
        None
    }
}

/// Read a whole argument of whitespace-separated hexadecimal bytes.  Every
/// token must parse; one bad token rejects the whole argument.
pub fn parse_hex_bytes(text: &str) -> (r: Option<Vec<u8>>)
    ensures
        r matches Some(v) ==> v@.len() == words_of(text@).len() && forall|i: int|
            0 <= i < v@.len() ==> #[trigger] hex_byte_spec(words_of(text@)[i]) == Some(v@[i]),
        r is None ==> exists|i: int|
            0 <= i < words_of(text@).len() && #[trigger] hex_byte_spec(words_of(text@)[i])
                is None,
{
    let words = split_words(text);
    let mut out: Vec<u8> = Vec::new();
    let mut i: usize = 0;
    while i < words.len()
        invariant
            words@.len() == words_of(text@).len(),
            forall|k: int| 0 <= k < words@.len() ==> words@[k]@ == words_of(text@)[k],
            i <= words@.len(),
            out@.len() == i,
            forall|k: int|
                0 <= k < i as int ==> #[trigger] hex_byte_spec(words_of(text@)[k]) == Some(
                    out@[k],
                ),
        decreases words@.len() - i,
    {
        match parse_hex_byte(words[i].as_str()) {
            None => {
                proof {
                    assert(hex_byte_spec(words_of(text@)[i as int]) is None);
                }
                return None;
            },
            Some(b) => {
                out.push(b);
            },
        }
        i = i + 1;
    }
    Some(out)
}

} // verus!
