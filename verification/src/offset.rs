//! Parsing a byte offset from command-line text: decimal, or hexadecimal
//! behind a `0x` prefix, with surrounding whitespace ignored.

use vstd::prelude::*;
use vstd::string::{StringExecFns, StrSliceExecFns};

verus! {

/// The characters ignored around an offset argument: the Unicode
/// White_Space set, as the standard trim strips it.
pub open spec fn is_whitespace_char(c: char) -> bool {
    let u = c as u32;
    u == 9 || u == 10 || u == 11 || u == 12 || u == 13 || u == 32 || u == 0x85 || u == 0xA0
        || u == 0x1680 || (0x2000 <= u && u <= 0x200A) || u == 0x2028 || u == 0x2029 || u == 0x202F
        || u == 0x205F || u == 0x3000
}

/// `s` without its leading whitespace.
pub open spec fn trim_front_chars(s: Seq<char>) -> Seq<char>
    decreases s.len(),
{
    if s.len() > 0 && is_whitespace_char(s[0]) {
        trim_front_chars(s.drop_first())
    } else {
        s
    }
}

/// `s` without its trailing whitespace.
pub open spec fn trim_back_chars(s: Seq<char>) -> Seq<char>
    decreases s.len(),
{
    if s.len() > 0 && is_whitespace_char(s.last()) {
        trim_back_chars(s.drop_last())
    } else {
        s
    }
}

/// `s` without whitespace at either end: the text the parser looks at and
/// the text a rejection quotes.
pub open spec fn trim_chars(s: Seq<char>) -> Seq<char> {
    trim_back_chars(trim_front_chars(s))
}

/// The numeric value of an ASCII digit under `radix`, where one exists.
pub open spec fn digit_value(c: char, radix: u8) -> Option<u8> {
    let u = c as u32;
    if 48 <= u && u <= 57 && u - 48 < radix as u32 {
        Some((u - 48) as u8)
    } else if 97 <= u && u <= 102 && u - 87 < radix as u32 {
        Some((u - 87) as u8)
    } else if 65 <= u && u <= 70 && u - 55 < radix as u32 {
        Some((u - 55) as u8)
    } else {
        None
    }
}

/// Accumulate digits left to right onto `acc`; none where a character is no
/// digit or the value leaves 64 bits.
pub open spec fn parse_digits(s: Seq<char>, radix: u8, acc: int) -> Option<int>
    decreases s.len(),
{
    if s.len() == 0 {
        Some(acc)
    } else {
        match digit_value(s[0], radix) {
            Option::None => None,
            Option::Some(d) => {
                let acc2 = acc * radix + d;
                if acc2 > 0xFFFFFFFFFFFFFFFF {
                    None
                } else {
                    parse_digits(s.drop_first(), radix, acc2)
                }
            },
        }
    }
}

/// What an offset argument denotes: trim whitespace, read a `0x` prefix as
/// hexadecimal and anything else as decimal, allow one leading plus sign,
/// and demand at least one digit with the value within 64 bits.
pub open spec fn parse_offset_spec(s: Seq<char>) -> Option<u64> {
    let t = trim_chars(s);
    let hex = t.len() >= 2 && t[0] == '0' && t[1] == 'x';
    let radix: u8 = if hex { 16 } else { 10 };
    let body = if hex { t.skip(2) } else { t };
    let digits = if body.len() > 0 && body[0] == '+' {
        body.drop_first()
    } else {
        body
    };
    if digits.len() == 0 {
        None
    } else {
        match parse_digits(digits, radix, 0) {
            Option::None => None,
            Option::Some(v) => Some(v as u64),
        }
    }
}

fn is_whitespace(c: char) -> (r: bool)
    ensures
        r == is_whitespace_char(c),
{
    let u = c as u32;
    u == 9 || u == 10 || u == 11 || u == 12 || u == 13 || u == 32 || u == 0x85 || u == 0xA0
        || u == 0x1680 || (0x2000 <= u && u <= 0x200A) || u == 0x2028 || u == 0x2029 || u == 0x202F
        || u == 0x205F || u == 0x3000
}

pub(crate) fn digit_of(c: char, radix: u8) -> (r: Option<u8>)
    ensures
        r == digit_value(c, radix),
{
    let u = c as u32;
    if 48 <= u && u <= 57 && u - 48 < radix as u32 {
        Some((u - 48) as u8)
    } else if 97 <= u && u <= 102 && u - 87 < radix as u32 {
        Some((u - 87) as u8)
    } else if 65 <= u && u <= 70 && u - 55 < radix as u32 {
        Some((u - 55) as u8)
    } else {
        None
    }
}

// The rejection quotes the trimmed argument, `s` between the character
// positions `from` and `to`.
fn invalid_offset_message(s: &str, from: usize, to: usize) -> (m: String)
    requires
        from <= to <= s@.len(),
    ensures
        m@ == "Invalid offset: "@ + s@.subrange(from as int, to as int),
{
    let mut m = "Invalid offset: ".to_owned();
    m.append(s.substring_char(from, to));
    m
}

/// Read an offset argument: decimal, or hexadecimal with a `0x` prefix.
/// Exactly the arguments `parse_offset_spec` accepts come back as values;
/// every other argument earns the diagnostic quoting its trimmed text.
pub fn parse_offset(s: &str) -> (r: Result<u64, String>)
    ensures
        parse_offset_spec(s@) matches Some(v) ==> r == Ok::<u64, String>(v),
        parse_offset_spec(s@) is None ==> (r matches Err(m) && m@ == "Invalid offset: "@
            + trim_chars(s@)),
{
    let n = s.unicode_len();
    proof {
        assert(s@.subrange(0, n as int) =~= s@);
    }
    let mut from: usize = 0;
    while from < n && is_whitespace(s.get_char(from))
        invariant
            n == s@.len(),
            from <= n,
            trim_front_chars(s@) == trim_front_chars(s@.subrange(from as int, n as int)),
        decreases n - from,
    {
        proof {
            assert(s@.subrange(from as int, n as int).drop_first() =~= s@.subrange(
                from as int + 1,
                n as int,
            ));
        }
        from = from + 1;
    }
    proof {
        assert(trim_front_chars(s@) =~= s@.subrange(from as int, n as int));
    }
    let mut to: usize = n;
    while to > from && is_whitespace(s.get_char(to - 1))
        invariant
            n == s@.len(),
            from <= to <= n,
            trim_front_chars(s@) == s@.subrange(from as int, n as int),
            trim_back_chars(s@.subrange(from as int, n as int)) == trim_back_chars(
                s@.subrange(from as int, to as int),
            ),
        decreases to,
    {
        proof {
            assert(s@.subrange(from as int, to as int).drop_last() =~= s@.subrange(
                from as int,
                to as int - 1,
            ));
        }
        to = to - 1;
    }
    proof {
        assert(trim_chars(s@) =~= s@.subrange(from as int, to as int));
    }
    let ghost tv = trim_chars(s@);
    let hex = to - from >= 2 && s.get_char(from) == '0' && s.get_char(from + 1) == 'x';
    let radix: u8 = if hex {
        16
    } else {
        10
    };
    let mut i: usize = if hex {
        from + 2
    } else {
        from
    };
    let ghost body = if hex {
        tv.skip(2)
    } else {
        tv
    };
    proof {
        assert(body =~= s@.subrange(i as int, to as int));
    }
    if i < to && s.get_char(i) == '+' {
        i = i + 1;
    }
    let ghost digits = if body.len() > 0 && body[0] == '+' {
        body.drop_first()
    } else {
        body
    };
    proof {
        assert(digits =~= s@.subrange(i as int, to as int));
    }
    if i == to {
        return Err(invalid_offset_message(s, from, to));
    }
    proof {
        assert(parse_offset_spec(s@) == (match parse_digits(digits, radix, 0) {
            Option::None => None,
            Option::Some(v) => Some(v as u64),
        }));
    }
    let mut acc: u64 = 0;
    let mut j: usize = i;
    while j < to
        invariant
            n == s@.len(),
            tv == trim_chars(s@),
            tv == s@.subrange(from as int, to as int),
            radix == 10 || radix == 16,
            from <= i <= j <= to <= n,
            digits == s@.subrange(i as int, to as int),
            digits.len() > 0,
            parse_offset_spec(s@) == (match parse_digits(digits, radix, 0) {
                Option::None => None,
                Option::Some(v) => Some(v as u64),
            }),
            parse_digits(digits, radix, 0) == parse_digits(
                s@.subrange(j as int, to as int),
                radix,
                acc as int,
            ),
        decreases to - j,
    {
        let c = s.get_char(j);
        let ghost rest = s@.subrange(j as int, to as int);
        proof {
            assert(rest[0] == s@[j as int]);
            assert(rest.drop_first() =~= s@.subrange(j as int + 1, to as int));
        }
        match digit_of(c, radix) {
            None => {
                return Err(invalid_offset_message(s, from, to));
            },
            Some(d) => {
                proof {
                    assert(0 <= (acc as int) * (radix as int) + (d as int)
                        < 0x100000000000000000000000000000000) by (nonlinear_arith)
                        requires
                            acc <= 0xFFFFFFFFFFFFFFFFu64,
                            radix <= 16u8,
                            d <= 255u8,
                    ;
                }
                let wide: u128 = acc as u128 * radix as u128 + d as u128;
                if wide > 0xFFFFFFFFFFFFFFFF {
                    return Err(invalid_offset_message(s, from, to));
                }
                acc = wide as u64;
            },
        }
        j = j + 1;
    }
    proof {
        assert(s@.subrange(to as int, to as int) =~= Seq::<char>::empty());
        assert(parse_digits(digits, radix, 0) == Some(acc as int));
    }
    Ok(acc)
}

} // verus!
