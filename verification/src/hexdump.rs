//! Rendering bytes as a hex dump: one line per sixteen bytes, holding the
//! line's absolute offset, each byte in two-digit hexadecimal, blank
//! padding for a short final line, and the printable-text gutter.  Lines
//! are ASCII bytes; printing them is the caller's affair.

use vstd::prelude::*;

verus! {

/// The ASCII code of a hexadecimal digit, lower case.
pub open spec fn hex_digit(n: u8) -> u8
    recommends
        n < 16,
{
    if n < 10 {
        (48 + n) as u8
    } else {
        (87 + n) as u8
    }
}

/// The eight hexadecimal digits of a line's offset, most significant first.
pub open spec fn hex8(x: u64) -> Seq<u8> {
    Seq::new(8, |i: int| hex_digit((((x >> ((4 * (7 - i)) as u64)) & 0xF) as u8)))
}

/// The two hexadecimal digits of one byte.
pub open spec fn hex2(b: u8) -> Seq<u8> {
    seq![hex_digit((b / 16) as u8), hex_digit((b % 16) as u8)]
}

/// The hex columns of a chunk: two digits and a space for each byte.
pub open spec fn hex_columns(chunk: Seq<u8>) -> Seq<u8>
    decreases chunk.len(),
{
    if chunk.len() == 0 {
        Seq::empty()
    } else {
        hex_columns(chunk.drop_last()) + hex2(chunk.last()) + seq![32u8]
    }
}

/// Blank columns standing in for the bytes a short final chunk lacks.
pub open spec fn pad_columns(missing: nat) -> Seq<u8> {
    Seq::new(3 * missing, |i: int| 32u8)
}

/// How a byte shows in the text gutter: printable ASCII and the space as
/// themselves, anything else as a dot.
pub open spec fn gutter_byte(b: u8) -> u8 {
    if (33 <= b && b <= 126) || b == 32 {
        b
    } else {
        46
    }
}

/// The text gutter of a chunk.
pub open spec fn gutter(chunk: Seq<u8>) -> Seq<u8> {
    chunk.map_values(|b: u8| gutter_byte(b))
}

/// One rendered line: offset, colon, hex columns padded to sixteen, and
/// the gutter between bars.
pub open spec fn line_spec(chunk: Seq<u8>, off: u64) -> Seq<u8>
    recommends
        chunk.len() <= 16,
{
    hex8(off) + seq![58u8, 32u8] + hex_columns(chunk) + pad_columns((16 - chunk.len()) as nat)
        + seq![124u8] + gutter(chunk) + seq![124u8]
}

/// The `i`th sixteen-byte chunk of the data; the last may be short.
pub open spec fn chunk_of(data: Seq<u8>, i: int) -> Seq<u8> {
    data.subrange(
        16 * i,
        if 16 * i + 16 <= data.len() {
            16 * i + 16
        } else {
            data.len() as int
        },
    )
}

fn hex_digit_of(n: u8) -> (r: u8)
    requires
        n < 16,
    ensures
        r == hex_digit(n),
{
    if n < 10 {
        48 + n
    } else {
        87 + n
    }
}

fn push_hex8(out: &mut Vec<u8>, x: u64)
    ensures
        final(out)@ == old(out)@ + hex8(x),
{
    let ghost base = out@;
    let mut i: usize = 0;
    while i < 8
        invariant
            i <= 8,
            out@ == base + hex8(x).take(i as int),
        decreases 8 - i,
    {
        let shift: u64 = 4 * (7 - i as u64);
        proof {
            assert((x >> shift) & 0xF < 16) by (bit_vector);
        }
        let d = ((x >> shift) & 0xF) as u8;
        out.push(hex_digit_of(d));
        proof {
            assert(hex8(x)[i as int] == hex_digit(d));
            assert(base + hex8(x).take(i as int + 1) =~= (base + hex8(x).take(i as int)).push(
                hex_digit(d),
            ));
        }
        i = i + 1;
    }
    proof {
        assert(hex8(x).take(8) =~= hex8(x));
    }
}

fn push_hex_byte(out: &mut Vec<u8>, b: u8)
    ensures
        final(out)@ == old(out)@ + hex2(b) + seq![32u8],
{
    out.push(hex_digit_of(b / 16));
    out.push(hex_digit_of(b % 16));
    out.push(32);
    proof {
        assert(final(out)@ =~= old(out)@ + hex2(b) + seq![32u8]);
    }
}

/// Render `data` as hex-dump lines, the first line labelled `offset`.
/// Every sixteen bytes make one line; the count and the exact bytes of
/// each line are fixed by `line_spec`.
pub fn hex_dump(data: &[u8], offset: u64) -> (lines: Vec<Vec<u8>>)
    requires
        offset + data@.len() <= 0xFFFFFFFFFFFFFFFF,
    ensures
        lines@.len() == (data@.len() + 15) / 16,
        forall|i: int|
            0 <= i < lines@.len() ==> #[trigger] lines@[i]@ == line_spec(
                chunk_of(data@, i),
                (offset + 16 * i) as u64,
            ),
{
    let len = data.len();
    let total: usize = if len == 0 {
        0
    } else {
        (len - 1) / 16 + 1
    };
    proof {
        assert(total as int == (len as int + 15) / 16);
    }
    let mut lines: Vec<Vec<u8>> = Vec::new();
    let mut k: usize = 0;
    while k < total
        invariant
            len == data@.len(),
            offset + data@.len() <= 0xFFFFFFFFFFFFFFFF,
            total as int == (len as int + 15) / 16,
            len > 0 ==> total as int == (len as int - 1) / 16 + 1,
            k <= total,
            lines@.len() == k,
            forall|i: int|
                0 <= i < k as int ==> #[trigger] lines@[i]@ == line_spec(
                    chunk_of(data@, i),
                    (offset + 16 * i) as u64,
                ),
        decreases total - k,
    {
        proof {
            assert(16 * (k as int) <= 16 * ((len as int - 1) / 16));
            assert(16 * ((len as int - 1) / 16) <= len as int - 1);
        }
        let pos: usize = 16 * k;
        let end: usize = if len - pos > 16 {
            pos + 16
        } else {
            len
        };
        let line_off: u64 = offset + (pos as u64);
        let ghost chunk = data@.subrange(pos as int, end as int);
        proof {
            assert(chunk =~= chunk_of(data@, k as int));
        }
        let mut line: Vec<u8> = Vec::new();
        push_hex8(&mut line, line_off);
        line.push(58);
        line.push(32);
        proof {
            assert(line@ =~= hex8(line_off) + seq![58u8, 32u8] + hex_columns(
                data@.subrange(pos as int, pos as int),
            ));
        }
        let mut q: usize = pos;
        while q < end
            invariant
                len == data@.len(),
                pos <= q <= end <= len,
                line@ == hex8(line_off) + seq![58u8, 32u8] + hex_columns(
                    data@.subrange(pos as int, q as int),
                ),
            decreases end - q,
        {
            push_hex_byte(&mut line, data[q]);
            proof {
                assert(data@.subrange(pos as int, q as int + 1).drop_last() =~= data@.subrange(
                    pos as int,
                    q as int,
                ));
            }
            q = q + 1;
        }
        let mut filled: usize = end - pos;
        proof {
            assert(pad_columns(0) =~= Seq::<u8>::empty());
        }
        while filled < 16
            invariant
                end as int - pos as int <= filled <= 16,
                line@ == hex8(line_off) + seq![58u8, 32u8] + hex_columns(
                    data@.subrange(pos as int, end as int),
                ) + pad_columns((filled - (end - pos)) as nat),
            decreases 16 - filled,
        {
            line.push(32);
            line.push(32);
            line.push(32);
            proof {
                assert(pad_columns((filled + 1 - (end - pos)) as nat) =~= pad_columns(
                    (filled - (end - pos)) as nat,
                ) + seq![32u8, 32u8, 32u8]);
            }
            filled = filled + 1;
        }
        line.push(124);
        let ghost before_gutter = line@;
        let mut q2: usize = pos;
        proof {
            assert(gutter(data@.subrange(pos as int, pos as int)) =~= Seq::<u8>::empty());
        }
        while q2 < end
            invariant
                len == data@.len(),
                pos <= q2 <= end <= len,
                line@ == before_gutter + gutter(data@.subrange(pos as int, q2 as int)),
            decreases end - q2,
        {
            let b = data[q2];
            let shown = if (33 <= b && b <= 126) || b == 32 {
                b
            } else {
                46
            };
            line.push(shown);
            proof {
                assert(gutter(data@.subrange(pos as int, q2 as int + 1)) =~= gutter(
                    data@.subrange(pos as int, q2 as int),
                ).push(gutter_byte(data@[q2 as int])));
            }
            q2 = q2 + 1;
        }
        line.push(124);
        proof {
            assert(line@ =~= line_spec(chunk, line_off));
        }
        lines.push(line);
        k = k + 1;
    }
    lines
}

} // verus!
