//! Sparkplug array packing into a single `bytes_value` field.
//!
//! - numeric/temporal arrays: fixed-width little-endian elements (1/2/4/8 bytes);
//!   `DateTime` is epoch-ms `i64` (8 bytes).
//! - `BooleanArray`: a 4-byte little-endian element count, then `ceil(n/8)`
//!   bytes, bits packed most significant first within each byte.
//! - `StringArray`: each UTF-8 string followed by a single `0x00` terminator.
use vstd::bytes::*;
use vstd::prelude::*;
use vstd::utf8::*;

use crate::datatype::{dt_width, DataType};
use crate::error::{ErrorKind, SparkplugError};
use crate::value::{strings_view, MetricValue, MetricValueView};
use crate::codec::wire::append_bytes;
use crate::util::from_utf8;

verus! {

// ---------------------------------------------------------------------------
// Specification
// ---------------------------------------------------------------------------

/// The little-endian bytes of the low `width` bytes of `w` (`width` is 1, 2, 4 or 8).
pub open spec fn word_le(w: u64, width: nat) -> Seq<u8> {
    if width == 1 {
        seq![w as u8]
    } else if width == 2 {
        spec_u16_to_le_bytes(w as u16)
    } else if width == 4 {
        spec_u32_to_le_bytes(w as u32)
    } else {
        spec_u64_to_le_bytes(w)
    }
}

/// The word held by `width` little-endian bytes.
pub open spec fn word_from_le(b: Seq<u8>, width: nat) -> u64 {
    if width == 1 {
        b[0] as u64
    } else if width == 2 {
        spec_u16_from_le_bytes(b) as u64
    } else if width == 4 {
        spec_u32_from_le_bytes(b) as u64
    } else {
        spec_u64_from_le_bytes(b)
    }
}

/// Words packed one after another, `width` bytes each.
pub open spec fn pack_words(ws: Seq<u64>, width: nat) -> Seq<u8>
    decreases ws.len(),
{
    if ws.len() == 0 {
        seq![]
    } else {
        pack_words(ws.drop_last(), width) + word_le(ws.last(), width)
    }
}

/// The words packed in `data`, `width` bytes each; a shorter tail is ignored.
pub open spec fn unpack_words(data: Seq<u8>, width: nat) -> Seq<u64>
    decreases data.len(),
{
    if width == 0 || data.len() < width {
        seq![]
    } else {
        seq![word_from_le(data.take(width as int), width)] + unpack_words(data.skip(width as int), width)
    }
}

/// Packed array elements lie one after another: `n` elements take `n * width`
/// bytes, and element `i` is the little-endian bytes at `[i * width, (i + 1) * width)`.
pub proof fn lemma_pack_words_layout(ws: Seq<u64>, width: nat)
    requires
        width == 1 || width == 2 || width == 4 || width == 8,
    ensures
        pack_words(ws, width).len() == ws.len() * width,
        forall|i: int| 0 <= i < ws.len() ==> pack_words(ws, width).subrange(i * width, i * width + width)
            == (if width == 1 {
            seq![ws[i] as u8]
        } else if width == 2 {
            spec_u16_to_le_bytes(ws[i] as u16)
        } else if width == 4 {
            spec_u32_to_le_bytes(ws[i] as u32)
        } else {
            spec_u64_to_le_bytes(#[trigger] ws[i])
        }),
    decreases ws.len(),
{
    lemma_auto_spec_u16_to_from_le_bytes();
    lemma_auto_spec_u32_to_from_le_bytes();
    lemma_auto_spec_u64_to_from_le_bytes();
    if ws.len() > 0 {
        let prev = ws.drop_last();
        lemma_pack_words_layout(prev, width);
        let p = pack_words(prev, width);
        let last = word_le(ws.last(), width);
        assert(last.len() == width);
        let n = ws.len();
        assert(p.len() + width == n * width) by (nonlinear_arith)
            requires
                p.len() == (n - 1) * width,
        ;
        assert forall|i: int| 0 <= i < ws.len() implies pack_words(ws, width).subrange(i * width, i * width + width)
            == (if width == 1 {
            seq![ws[i] as u8]
        } else if width == 2 {
            spec_u16_to_le_bytes(ws[i] as u16)
        } else if width == 4 {
            spec_u32_to_le_bytes(ws[i] as u32)
        } else {
            spec_u64_to_le_bytes(#[trigger] ws[i])
        }) by {
            let all = pack_words(ws, width);
            assert(all == p + last);
            if i < n - 1 {
                assert(i * width + width <= (n - 1) * width) by (nonlinear_arith)
                    requires
                        i < n - 1,
                        0 <= i,
                ;
                assert(0 <= i * width) by (nonlinear_arith)
                    requires
                        0 <= i,
                ;
                assert(all.subrange(i * width, i * width + width) =~= p.subrange(i * width, i * width + width));
                assert(prev[i] == ws[i]);
            } else {
                assert(i * width == (n - 1) * width);
                assert(all.subrange(i * width, i * width + width) =~= last);
                assert(ws[i] == ws.last());
            }
        }
    }
}

/// Whether the `i`-th boolean is present and set.
pub open spec fn bit_at(bs: Seq<bool>, i: int) -> bool {
    0 <= i < bs.len() && bs[i]
}

/// The bit of position `k` (0 = most significant) when `b` holds.
pub open spec fn bit_val(b: bool, k: int) -> u8 {
    if b {
        (128u8 >> (k as u8)) as u8
    } else {
        0
    }
}

/// The first `k` bits of byte `j` of a packed boolean array.
pub open spec fn partial_byte(bs: Seq<bool>, j: int, k: nat) -> u8
    decreases k,
{
    if k == 0 {
        0
    } else {
        partial_byte(bs, j, (k - 1) as nat) | bit_val(bit_at(bs, 8 * j + k - 1), k - 1)
    }
}

/// The packed bytes of a boolean array: eight booleans per byte, most significant bit first.
pub open spec fn bool_bytes(bs: Seq<bool>) -> Seq<u8> {
    Seq::new(((bs.len() + 7) / 8) as nat, |j: int| partial_byte(bs, j, 8))
}

/// The strings, each followed by a NUL byte.
pub open spec fn strings_pack(ss: Seq<Seq<char>>) -> Seq<u8>
    decreases ss.len(),
{
    if ss.len() == 0 {
        seq![]
    } else {
        strings_pack(ss.drop_last()) + encode_utf8(ss.last()) + seq![0u8]
    }
}

/// The `bytes_value` of an array-typed metric value (empty for other values).
pub open spec fn pack(v: MetricValueView) -> Seq<u8> {
    match v {
        MetricValueView::Int8Array(xs) => pack_words(xs.map_values(|x: i8| (x as u8) as u64), 1),
        MetricValueView::Int16Array(xs) => pack_words(xs.map_values(|x: i16| (x as u16) as u64), 2),
        MetricValueView::Int32Array(xs) => pack_words(xs.map_values(|x: i32| (x as u32) as u64), 4),
        MetricValueView::Int64Array(xs) => pack_words(xs.map_values(|x: i64| x as u64), 8),
        MetricValueView::UInt8Array(xs) => pack_words(xs.map_values(|x: u8| x as u64), 1),
        MetricValueView::UInt16Array(xs) => pack_words(xs.map_values(|x: u16| x as u64), 2),
        MetricValueView::UInt32Array(xs) => pack_words(xs.map_values(|x: u32| x as u64), 4),
        MetricValueView::UInt64Array(xs) => pack_words(xs.map_values(|x: u64| x as u64), 8),
        MetricValueView::FloatArray(xs) => pack_words(xs.map_values(|x: u32| x as u64), 4),
        MetricValueView::DoubleArray(xs) => pack_words(xs.map_values(|x: u64| x as u64), 8),
        MetricValueView::DateTimeArray(xs) => pack_words(xs.map_values(|x: i64| x as u64), 8),
        MetricValueView::BooleanArray(bs) => spec_u32_to_le_bytes(bs.len() as u32) + bool_bytes(bs),
        MetricValueView::StringArray(ss) => strings_pack(ss),
        _ => seq![],
    }
}

/// The pieces of `data` between NUL bytes (`n` NULs give `n + 1` pieces).
pub open spec fn split_nul(data: Seq<u8>) -> Seq<Seq<u8>>
    decreases data.len(),
{
    if data.len() == 0 {
        seq![seq![]]
    } else if data.last() == 0 {
        split_nul(data.drop_last()).push(seq![])
    } else {
        let s = split_nul(data.drop_last());
        s.update(s.len() - 1, s.last().push(data.last()))
    }
}

/// Decode each piece as UTF-8, stopping at the first piece that is not.
pub open spec fn decode_pieces(ps: Seq<Seq<u8>>) -> Result<Seq<Seq<char>>, ErrorKind>
    decreases ps.len(),
{
    if ps.len() == 0 {
        Ok(seq![])
    } else {
        match decode_pieces(ps.drop_last()) {
            Err(e) => Err(e),
            Ok(ss) => if valid_utf8(ps.last()) {
                Ok(ss.push(decode_utf8(ps.last())))
            } else {
                Err(ErrorKind::InvalidUtf8)
            },
        }
    }
}

/// Unpack a NUL-terminated string array.
pub open spec fn unpack_strings(data: Seq<u8>) -> Result<MetricValueView, ErrorKind> {
    if data.len() == 0 {
        Ok(MetricValueView::StringArray(seq![]))
    } else {
        let pieces = if data.last() == 0 {
            split_nul(data).drop_last()
        } else {
            split_nul(data)
        };
        match decode_pieces(pieces) {
            Ok(ss) => Ok(MetricValueView::StringArray(ss)),
            Err(e) => Err(e),
        }
    }
}

/// Unpack a boolean array: a 4-byte count, then the packed bits.
pub open spec fn unpack_bool(data: Seq<u8>) -> Result<MetricValueView, ErrorKind> {
    if data.len() < 4 {
        Err(ErrorKind::Truncated)
    } else {
        let count = spec_u32_from_le_bytes(data.take(4)) as nat;
        let bits = data.skip(4);
        if bits.len() < (count + 7) / 8 {
            Err(ErrorKind::Truncated)
        } else {
            Ok(MetricValueView::BooleanArray(
                Seq::new(count, |i: int| bits[i / 8] & ((128u8 >> ((i % 8) as u8)) as u8) != 0),
            ))
        }
    }
}

/// Unpack a `bytes_value` into an array-typed value of datatype `dt`.
pub open spec fn unpack(dt: DataType, data: Seq<u8>) -> Result<MetricValueView, ErrorKind> {
    if dt == DataType::BooleanArray {
        unpack_bool(data)
    } else if dt == DataType::StringArray {
        unpack_strings(data)
    } else {
        match dt_width(dt) {
            None => Err(ErrorKind::ValueTypeMismatch),
            Some(w) => if data.len() % (w as nat) != 0 {
                Err(ErrorKind::ArrayLength(data.len() as usize, w))
            } else {
                let ws = unpack_words(data, w as nat);
                match dt {
                    DataType::Int8Array => Ok(MetricValueView::Int8Array(ws.map_values(|w: u64| (w as u8) as i8))),
                    DataType::Int16Array => Ok(MetricValueView::Int16Array(ws.map_values(|w: u64| (w as u16) as i16))),
                    DataType::Int32Array => Ok(MetricValueView::Int32Array(ws.map_values(|w: u64| (w as u32) as i32))),
                    DataType::Int64Array => Ok(MetricValueView::Int64Array(ws.map_values(|w: u64| w as i64))),
                    DataType::UInt8Array => Ok(MetricValueView::UInt8Array(ws.map_values(|w: u64| w as u8))),
                    DataType::UInt16Array => Ok(MetricValueView::UInt16Array(ws.map_values(|w: u64| w as u16))),
                    DataType::UInt32Array => Ok(MetricValueView::UInt32Array(ws.map_values(|w: u64| w as u32))),
                    DataType::UInt64Array => Ok(MetricValueView::UInt64Array(ws.map_values(|w: u64| w as u64))),
                    DataType::FloatArray => Ok(MetricValueView::FloatArray(ws.map_values(|w: u64| w as u32))),
                    DataType::DoubleArray => Ok(MetricValueView::DoubleArray(ws.map_values(|w: u64| w as u64))),
                    DataType::DateTimeArray => Ok(MetricValueView::DateTimeArray(ws.map_values(|w: u64| w as i64))),
                    _ => Err(ErrorKind::ValueTypeMismatch),
                }
            },
        }
    }
}

// ---------------------------------------------------------------------------
// Executable packing
// ---------------------------------------------------------------------------

/// Append the little-endian bytes of one word.
fn put_word(buf: &mut Vec<u8>, w: u64, width: usize)
    requires
        width == 1 || width == 2 || width == 4 || width == 8,
    ensures
        final(buf)@ == old(buf)@ + word_le(w, width as nat),
{
    if width == 1 {
        let ghost before = buf@;
        buf.push(w as u8);
        proof {
            assert(buf@ =~= before + word_le(w, 1));
        }
    } else if width == 2 {
        let b = u16_to_le_bytes(w as u16);
        append_bytes(buf, b.as_slice());
    } else if width == 4 {
        let b = u32_to_le_bytes(w as u32);
        append_bytes(buf, b.as_slice());
    } else {
        let b = u64_to_le_bytes(w);
        append_bytes(buf, b.as_slice());
    }
}

/// Read one word from exactly `width` bytes.
fn get_word(b: &[u8], width: usize) -> (w: u64)
    requires
        width == 1 || width == 2 || width == 4 || width == 8,
        b@.len() == width,
    ensures
        w == word_from_le(b@, width as nat),
{
    if width == 1 {
        b[0] as u64
    } else if width == 2 {
        u16_from_le_bytes(b) as u64
    } else if width == 4 {
        u32_from_le_bytes(b) as u64
    } else {
        u64_from_le_bytes(b)
    }
}


fn pack_int8array(xs: &Vec<i8>, buf: &mut Vec<u8>)
    ensures
        final(buf)@ == old(buf)@ + pack_words(xs@.map_values(|x: i8| (x as u8) as u64), 1),
{
    let ghost f = |x: i8| (x as u8) as u64;
    let mut i: usize = 0;
    while i < xs.len()
        invariant
            i <= xs@.len(),
            f == (|x: i8| (x as u8) as u64),
            buf@ == old(buf)@ + pack_words(xs@.take(i as int).map_values(f), 1),
        decreases xs@.len() - i,
    {
        let x = xs[i];
        put_word(buf, (x as u8) as u64, 1);
        proof {
            let ws = xs@.take(i + 1).map_values(f);
            assert(ws.drop_last() =~= xs@.take(i as int).map_values(f));
            assert(ws.last() == (x as u8) as u64);
        }
        i = i + 1;
    }
    proof {
        assert(xs@.take(xs@.len() as int) =~= xs@);
    }
}

fn pack_int16array(xs: &Vec<i16>, buf: &mut Vec<u8>)
    ensures
        final(buf)@ == old(buf)@ + pack_words(xs@.map_values(|x: i16| (x as u16) as u64), 2),
{
    let ghost f = |x: i16| (x as u16) as u64;
    let mut i: usize = 0;
    while i < xs.len()
        invariant
            i <= xs@.len(),
            f == (|x: i16| (x as u16) as u64),
            buf@ == old(buf)@ + pack_words(xs@.take(i as int).map_values(f), 2),
        decreases xs@.len() - i,
    {
        let x = xs[i];
        put_word(buf, (x as u16) as u64, 2);
        proof {
            let ws = xs@.take(i + 1).map_values(f);
            assert(ws.drop_last() =~= xs@.take(i as int).map_values(f));
            assert(ws.last() == (x as u16) as u64);
        }
        i = i + 1;
    }
    proof {
        assert(xs@.take(xs@.len() as int) =~= xs@);
    }
}

fn pack_int32array(xs: &Vec<i32>, buf: &mut Vec<u8>)
    ensures
        final(buf)@ == old(buf)@ + pack_words(xs@.map_values(|x: i32| (x as u32) as u64), 4),
{
    let ghost f = |x: i32| (x as u32) as u64;
    let mut i: usize = 0;
    while i < xs.len()
        invariant
            i <= xs@.len(),
            f == (|x: i32| (x as u32) as u64),
            buf@ == old(buf)@ + pack_words(xs@.take(i as int).map_values(f), 4),
        decreases xs@.len() - i,
    {
        let x = xs[i];
        put_word(buf, (x as u32) as u64, 4);
        proof {
            let ws = xs@.take(i + 1).map_values(f);
            assert(ws.drop_last() =~= xs@.take(i as int).map_values(f));
            assert(ws.last() == (x as u32) as u64);
        }
        i = i + 1;
    }
    proof {
        assert(xs@.take(xs@.len() as int) =~= xs@);
    }
}

fn pack_int64array(xs: &Vec<i64>, buf: &mut Vec<u8>)
    ensures
        final(buf)@ == old(buf)@ + pack_words(xs@.map_values(|x: i64| x as u64), 8),
{
    let ghost f = |x: i64| x as u64;
    let mut i: usize = 0;
    while i < xs.len()
        invariant
            i <= xs@.len(),
            f == (|x: i64| x as u64),
            buf@ == old(buf)@ + pack_words(xs@.take(i as int).map_values(f), 8),
        decreases xs@.len() - i,
    {
        let x = xs[i];
        put_word(buf, x as u64, 8);
        proof {
            let ws = xs@.take(i + 1).map_values(f);
            assert(ws.drop_last() =~= xs@.take(i as int).map_values(f));
            assert(ws.last() == x as u64);
        }
        i = i + 1;
    }
    proof {
        assert(xs@.take(xs@.len() as int) =~= xs@);
    }
}

fn pack_uint8array(xs: &Vec<u8>, buf: &mut Vec<u8>)
    ensures
        final(buf)@ == old(buf)@ + pack_words(xs@.map_values(|x: u8| x as u64), 1),
{
    let ghost f = |x: u8| x as u64;
    let mut i: usize = 0;
    while i < xs.len()
        invariant
            i <= xs@.len(),
            f == (|x: u8| x as u64),
            buf@ == old(buf)@ + pack_words(xs@.take(i as int).map_values(f), 1),
        decreases xs@.len() - i,
    {
        let x = xs[i];
        put_word(buf, x as u64, 1);
        proof {
            let ws = xs@.take(i + 1).map_values(f);
            assert(ws.drop_last() =~= xs@.take(i as int).map_values(f));
            assert(ws.last() == x as u64);
        }
        i = i + 1;
    }
    proof {
        assert(xs@.take(xs@.len() as int) =~= xs@);
    }
}

fn pack_uint16array(xs: &Vec<u16>, buf: &mut Vec<u8>)
    ensures
        final(buf)@ == old(buf)@ + pack_words(xs@.map_values(|x: u16| x as u64), 2),
{
    let ghost f = |x: u16| x as u64;
    let mut i: usize = 0;
    while i < xs.len()
        invariant
            i <= xs@.len(),
            f == (|x: u16| x as u64),
            buf@ == old(buf)@ + pack_words(xs@.take(i as int).map_values(f), 2),
        decreases xs@.len() - i,
    {
        let x = xs[i];
        put_word(buf, x as u64, 2);
        proof {
            let ws = xs@.take(i + 1).map_values(f);
            assert(ws.drop_last() =~= xs@.take(i as int).map_values(f));
            assert(ws.last() == x as u64);
        }
        i = i + 1;
    }
    proof {
        assert(xs@.take(xs@.len() as int) =~= xs@);
    }
}

fn pack_uint32array(xs: &Vec<u32>, buf: &mut Vec<u8>)
    ensures
        final(buf)@ == old(buf)@ + pack_words(xs@.map_values(|x: u32| x as u64), 4),
{
    let ghost f = |x: u32| x as u64;
    let mut i: usize = 0;
    while i < xs.len()
        invariant
            i <= xs@.len(),
            f == (|x: u32| x as u64),
            buf@ == old(buf)@ + pack_words(xs@.take(i as int).map_values(f), 4),
        decreases xs@.len() - i,
    {
        let x = xs[i];
        put_word(buf, x as u64, 4);
        proof {
            let ws = xs@.take(i + 1).map_values(f);
            assert(ws.drop_last() =~= xs@.take(i as int).map_values(f));
            assert(ws.last() == x as u64);
        }
        i = i + 1;
    }
    proof {
        assert(xs@.take(xs@.len() as int) =~= xs@);
    }
}

fn pack_uint64array(xs: &Vec<u64>, buf: &mut Vec<u8>)
    ensures
        final(buf)@ == old(buf)@ + pack_words(xs@.map_values(|x: u64| x as u64), 8),
{
    let ghost f = |x: u64| x as u64;
    let mut i: usize = 0;
    while i < xs.len()
        invariant
            i <= xs@.len(),
            f == (|x: u64| x as u64),
            buf@ == old(buf)@ + pack_words(xs@.take(i as int).map_values(f), 8),
        decreases xs@.len() - i,
    {
        let x = xs[i];
        put_word(buf, x as u64, 8);
        proof {
            let ws = xs@.take(i + 1).map_values(f);
            assert(ws.drop_last() =~= xs@.take(i as int).map_values(f));
            assert(ws.last() == x as u64);
        }
        i = i + 1;
    }
    proof {
        assert(xs@.take(xs@.len() as int) =~= xs@);
    }
}

fn pack_floatarray(xs: &Vec<u32>, buf: &mut Vec<u8>)
    ensures
        final(buf)@ == old(buf)@ + pack_words(xs@.map_values(|x: u32| x as u64), 4),
{
    let ghost f = |x: u32| x as u64;
    let mut i: usize = 0;
    while i < xs.len()
        invariant
            i <= xs@.len(),
            f == (|x: u32| x as u64),
            buf@ == old(buf)@ + pack_words(xs@.take(i as int).map_values(f), 4),
        decreases xs@.len() - i,
    {
        let x = xs[i];
        put_word(buf, x as u64, 4);
        proof {
            let ws = xs@.take(i + 1).map_values(f);
            assert(ws.drop_last() =~= xs@.take(i as int).map_values(f));
            assert(ws.last() == x as u64);
        }
        i = i + 1;
    }
    proof {
        assert(xs@.take(xs@.len() as int) =~= xs@);
    }
}

fn pack_doublearray(xs: &Vec<u64>, buf: &mut Vec<u8>)
    ensures
        final(buf)@ == old(buf)@ + pack_words(xs@.map_values(|x: u64| x as u64), 8),
{
    let ghost f = |x: u64| x as u64;
    let mut i: usize = 0;
    while i < xs.len()
        invariant
            i <= xs@.len(),
            f == (|x: u64| x as u64),
            buf@ == old(buf)@ + pack_words(xs@.take(i as int).map_values(f), 8),
        decreases xs@.len() - i,
    {
        let x = xs[i];
        put_word(buf, x as u64, 8);
        proof {
            let ws = xs@.take(i + 1).map_values(f);
            assert(ws.drop_last() =~= xs@.take(i as int).map_values(f));
            assert(ws.last() == x as u64);
        }
        i = i + 1;
    }
    proof {
        assert(xs@.take(xs@.len() as int) =~= xs@);
    }
}

fn pack_datetimearray(xs: &Vec<i64>, buf: &mut Vec<u8>)
    ensures
        final(buf)@ == old(buf)@ + pack_words(xs@.map_values(|x: i64| x as u64), 8),
{
    let ghost f = |x: i64| x as u64;
    let mut i: usize = 0;
    while i < xs.len()
        invariant
            i <= xs@.len(),
            f == (|x: i64| x as u64),
            buf@ == old(buf)@ + pack_words(xs@.take(i as int).map_values(f), 8),
        decreases xs@.len() - i,
    {
        let x = xs[i];
        put_word(buf, x as u64, 8);
        proof {
            let ws = xs@.take(i + 1).map_values(f);
            assert(ws.drop_last() =~= xs@.take(i as int).map_values(f));
            assert(ws.last() == x as u64);
        }
        i = i + 1;
    }
    proof {
        assert(xs@.take(xs@.len() as int) =~= xs@);
    }
}

/// The value of the first `k` bits of a byte under construction.
proof fn lemma_partial_byte_step(bs: Seq<bool>, j: int, k: nat)
    ensures
        partial_byte(bs, j, k + 1) == partial_byte(bs, j, k) | bit_val(bit_at(bs, 8 * j + k), k as int),
{
}

fn pack_booleanarray(bs: &Vec<bool>, buf: &mut Vec<u8>)
    ensures
        final(buf)@ == old(buf)@ + spec_u32_to_le_bytes(bs@.len() as u32) + bool_bytes(bs@),
{
    let count = u32_to_le_bytes(bs.len() as u32);
    append_bytes(buf, count.as_slice());
    let ghost start = buf@;
    let n = bs.len();
    let nbytes = n / 8 + if n % 8 == 0 { 0 } else { 1 };
    proof {
        assert(nbytes == (n + 7) / 8);
    }
    let mut j: usize = 0;
    while j < nbytes
        invariant
            n == bs@.len(),
            nbytes == (n + 7) / 8,
            j <= nbytes,
            start == old(buf)@ + spec_u32_to_le_bytes(n as u32),
            buf@ == start + bool_bytes(bs@).take(j as int),
        decreases nbytes - j,
    {
        let mut byte: u8 = 0;
        let mut k: usize = 0;
        while k < 8
            invariant
                n == bs@.len(),
                j < nbytes,
                nbytes == (n + 7) / 8,
                k <= 8,
                byte == partial_byte(bs@, j as int, k as nat),
            decreases 8 - k,
        {
            proof {
                lemma_partial_byte_step(bs@, j as int, k as nat);
            }
            let idx = 8 * j + k;
            if idx < n && bs[idx] {
                byte = byte | (128u8 >> (k as u8));
            } else {
                proof {
                    assert(byte | 0u8 == byte) by (bit_vector);
                }
            }
            k = k + 1;
        }
        buf.push(byte);
        proof {
            assert(bool_bytes(bs@).take(j + 1) =~= bool_bytes(bs@).take(j as int).push(byte));
        }
        j = j + 1;
    }
    proof {
        assert(bool_bytes(bs@).take(nbytes as int) =~= bool_bytes(bs@));
    }
}

fn pack_stringarray(ss: &Vec<String>, buf: &mut Vec<u8>)
    ensures
        final(buf)@ == old(buf)@ + strings_pack(strings_view(ss@)),
{
    let mut i: usize = 0;
    while i < ss.len()
        invariant
            i <= ss@.len(),
            buf@ == old(buf)@ + strings_pack(strings_view(ss@.take(i as int))),
        decreases ss@.len() - i,
    {
        let ghost mid = buf@;
        append_bytes(buf, ss[i].as_str().as_bytes());
        let ghost before = buf@;
        buf.push(0u8);
        proof {
            let t = ss@.take(i + 1);
            assert(t.drop_last() =~= ss@.take(i as int));
            assert(t.last() == ss@[i as int]);
            let sv = strings_view(t);
            assert(sv == strings_view(t.drop_last()).push(t.last()@));
            assert(sv.drop_last() =~= strings_view(ss@.take(i as int)));
            assert(sv.last() == ss@[i as int]@);
            assert(strings_pack(sv) == strings_pack(sv.drop_last()) + encode_utf8(sv.last()) + seq![0u8]);
            assert(before == mid + encode_utf8(ss@[i as int]@));
            assert(buf@ =~= old(buf)@ + strings_pack(strings_view(t)));
        }
        i = i + 1;
    }
    proof {
        assert(ss@.take(ss@.len() as int) =~= ss@);
    }
}

/// Pack an array-typed [`MetricValue`] into its `bytes_value` representation.
/// Non-array values yield empty bytes (the encoder only calls this for arrays).
pub fn pack_array(value: &MetricValue) -> (out: Vec<u8>)
    ensures
        out@ == pack(value@),
{
    let mut buf: Vec<u8> = Vec::new();
    match value {
        MetricValue::Int8Array(xs) => pack_int8array(xs, &mut buf),
        MetricValue::Int16Array(xs) => pack_int16array(xs, &mut buf),
        MetricValue::Int32Array(xs) => pack_int32array(xs, &mut buf),
        MetricValue::Int64Array(xs) => pack_int64array(xs, &mut buf),
        MetricValue::UInt8Array(xs) => pack_uint8array(xs, &mut buf),
        MetricValue::UInt16Array(xs) => pack_uint16array(xs, &mut buf),
        MetricValue::UInt32Array(xs) => pack_uint32array(xs, &mut buf),
        MetricValue::UInt64Array(xs) => pack_uint64array(xs, &mut buf),
        MetricValue::FloatArray(xs) => pack_floatarray(xs, &mut buf),
        MetricValue::DoubleArray(xs) => pack_doublearray(xs, &mut buf),
        MetricValue::DateTimeArray(xs) => pack_datetimearray(xs, &mut buf),
        MetricValue::BooleanArray(bs) => pack_booleanarray(bs, &mut buf),
        MetricValue::StringArray(ss) => pack_stringarray(ss, &mut buf),
        _ => {},
    }
    proof {
        assert(buf@ =~= pack(value@));
    }
    buf
}

// ---------------------------------------------------------------------------
// Executable unpacking
// ---------------------------------------------------------------------------

/// Read every `width`-byte word of `data` (whose length is a multiple of `width`).
fn unpack_words_exec(data: &[u8], width: usize) -> (ws: Vec<u64>)
    requires
        width == 1 || width == 2 || width == 4 || width == 8,
    ensures
        ws@ == unpack_words(data@, width as nat),
{
    let mut ws: Vec<u64> = Vec::new();
    let mut off: usize = 0;
    proof {
        assert(data@.skip(0) =~= data@);
        assert(ws@ + unpack_words(data@, width as nat) =~= unpack_words(data@, width as nat));
    }
    while width <= data.len() - off
        invariant
            width == 1 || width == 2 || width == 4 || width == 8,
            off <= data@.len(),
            unpack_words(data@, width as nat) == ws@ + unpack_words(data@.skip(off as int), width as nat),
        decreases data@.len() - off,
    {
        let chunk = vstd::slice::slice_subrange(data, off, off + width);
        let w = get_word(chunk, width);
        let ghost rest = data@.skip(off as int);
        proof {
            assert(chunk@ =~= rest.take(width as int));
            assert(rest.skip(width as int) =~= data@.skip(off + width));
            assert(ws@.push(w) + unpack_words(data@.skip(off + width), width as nat)
                =~= ws@ + unpack_words(rest, width as nat));
        }
        ws.push(w);
        off = off + width;
    }
    proof {
        assert(unpack_words(data@.skip(off as int), width as nat) =~= Seq::<u64>::empty());
    }
    ws
}


fn words_to_int8array(ws: &Vec<u64>) -> (xs: Vec<i8>)
    ensures
        xs@ == ws@.map_values(|w: u64| (w as u8) as i8),
{
    let ghost f = |w: u64| (w as u8) as i8;
    let mut xs: Vec<i8> = Vec::new();
    let mut i: usize = 0;
    while i < ws.len()
        invariant
            i <= ws@.len(),
            f == (|w: u64| (w as u8) as i8),
            xs@ == ws@.take(i as int).map_values(f),
        decreases ws@.len() - i,
    {
        let w = ws[i];
        xs.push((w as u8) as i8);
        proof {
            assert(ws@.take(i + 1).map_values(f) =~= ws@.take(i as int).map_values(f).push(f(w)));
        }
        i = i + 1;
    }
    proof {
        assert(ws@.take(ws@.len() as int) =~= ws@);
    }
    xs
}

fn words_to_int16array(ws: &Vec<u64>) -> (xs: Vec<i16>)
    ensures
        xs@ == ws@.map_values(|w: u64| (w as u16) as i16),
{
    let ghost f = |w: u64| (w as u16) as i16;
    let mut xs: Vec<i16> = Vec::new();
    let mut i: usize = 0;
    while i < ws.len()
        invariant
            i <= ws@.len(),
            f == (|w: u64| (w as u16) as i16),
            xs@ == ws@.take(i as int).map_values(f),
        decreases ws@.len() - i,
    {
        let w = ws[i];
        xs.push((w as u16) as i16);
        proof {
            assert(ws@.take(i + 1).map_values(f) =~= ws@.take(i as int).map_values(f).push(f(w)));
        }
        i = i + 1;
    }
    proof {
        assert(ws@.take(ws@.len() as int) =~= ws@);
    }
    xs
}

fn words_to_int32array(ws: &Vec<u64>) -> (xs: Vec<i32>)
    ensures
        xs@ == ws@.map_values(|w: u64| (w as u32) as i32),
{
    let ghost f = |w: u64| (w as u32) as i32;
    let mut xs: Vec<i32> = Vec::new();
    let mut i: usize = 0;
    while i < ws.len()
        invariant
            i <= ws@.len(),
            f == (|w: u64| (w as u32) as i32),
            xs@ == ws@.take(i as int).map_values(f),
        decreases ws@.len() - i,
    {
        let w = ws[i];
        xs.push((w as u32) as i32);
        proof {
            assert(ws@.take(i + 1).map_values(f) =~= ws@.take(i as int).map_values(f).push(f(w)));
        }
        i = i + 1;
    }
    proof {
        assert(ws@.take(ws@.len() as int) =~= ws@);
    }
    xs
}

fn words_to_int64array(ws: &Vec<u64>) -> (xs: Vec<i64>)
    ensures
        xs@ == ws@.map_values(|w: u64| w as i64),
{
    let ghost f = |w: u64| w as i64;
    let mut xs: Vec<i64> = Vec::new();
    let mut i: usize = 0;
    while i < ws.len()
        invariant
            i <= ws@.len(),
            f == (|w: u64| w as i64),
            xs@ == ws@.take(i as int).map_values(f),
        decreases ws@.len() - i,
    {
        let w = ws[i];
        xs.push(w as i64);
        proof {
            assert(ws@.take(i + 1).map_values(f) =~= ws@.take(i as int).map_values(f).push(f(w)));
        }
        i = i + 1;
    }
    proof {
        assert(ws@.take(ws@.len() as int) =~= ws@);
    }
    xs
}

fn words_to_uint8array(ws: &Vec<u64>) -> (xs: Vec<u8>)
    ensures
        xs@ == ws@.map_values(|w: u64| w as u8),
{
    let ghost f = |w: u64| w as u8;
    let mut xs: Vec<u8> = Vec::new();
    let mut i: usize = 0;
    while i < ws.len()
        invariant
            i <= ws@.len(),
            f == (|w: u64| w as u8),
            xs@ == ws@.take(i as int).map_values(f),
        decreases ws@.len() - i,
    {
        let w = ws[i];
        xs.push(w as u8);
        proof {
            assert(ws@.take(i + 1).map_values(f) =~= ws@.take(i as int).map_values(f).push(f(w)));
        }
        i = i + 1;
    }
    proof {
        assert(ws@.take(ws@.len() as int) =~= ws@);
    }
    xs
}

fn words_to_uint16array(ws: &Vec<u64>) -> (xs: Vec<u16>)
    ensures
        xs@ == ws@.map_values(|w: u64| w as u16),
{
    let ghost f = |w: u64| w as u16;
    let mut xs: Vec<u16> = Vec::new();
    let mut i: usize = 0;
    while i < ws.len()
        invariant
            i <= ws@.len(),
            f == (|w: u64| w as u16),
            xs@ == ws@.take(i as int).map_values(f),
        decreases ws@.len() - i,
    {
        let w = ws[i];
        xs.push(w as u16);
        proof {
            assert(ws@.take(i + 1).map_values(f) =~= ws@.take(i as int).map_values(f).push(f(w)));
        }
        i = i + 1;
    }
    proof {
        assert(ws@.take(ws@.len() as int) =~= ws@);
    }
    xs
}

fn words_to_uint32array(ws: &Vec<u64>) -> (xs: Vec<u32>)
    ensures
        xs@ == ws@.map_values(|w: u64| w as u32),
{
    let ghost f = |w: u64| w as u32;
    let mut xs: Vec<u32> = Vec::new();
    let mut i: usize = 0;
    while i < ws.len()
        invariant
            i <= ws@.len(),
            f == (|w: u64| w as u32),
            xs@ == ws@.take(i as int).map_values(f),
        decreases ws@.len() - i,
    {
        let w = ws[i];
        xs.push(w as u32);
        proof {
            assert(ws@.take(i + 1).map_values(f) =~= ws@.take(i as int).map_values(f).push(f(w)));
        }
        i = i + 1;
    }
    proof {
        assert(ws@.take(ws@.len() as int) =~= ws@);
    }
    xs
}

fn words_to_uint64array(ws: &Vec<u64>) -> (xs: Vec<u64>)
    ensures
        xs@ == ws@.map_values(|w: u64| w as u64),
{
    let ghost f = |w: u64| w as u64;
    let mut xs: Vec<u64> = Vec::new();
    let mut i: usize = 0;
    while i < ws.len()
        invariant
            i <= ws@.len(),
            f == (|w: u64| w as u64),
            xs@ == ws@.take(i as int).map_values(f),
        decreases ws@.len() - i,
    {
        let w = ws[i];
        xs.push(w as u64);
        proof {
            assert(ws@.take(i + 1).map_values(f) =~= ws@.take(i as int).map_values(f).push(f(w)));
        }
        i = i + 1;
    }
    proof {
        assert(ws@.take(ws@.len() as int) =~= ws@);
    }
    xs
}

fn words_to_floatarray(ws: &Vec<u64>) -> (xs: Vec<u32>)
    ensures
        xs@ == ws@.map_values(|w: u64| w as u32),
{
    let ghost f = |w: u64| w as u32;
    let mut xs: Vec<u32> = Vec::new();
    let mut i: usize = 0;
    while i < ws.len()
        invariant
            i <= ws@.len(),
            f == (|w: u64| w as u32),
            xs@ == ws@.take(i as int).map_values(f),
        decreases ws@.len() - i,
    {
        let w = ws[i];
        xs.push(w as u32);
        proof {
            assert(ws@.take(i + 1).map_values(f) =~= ws@.take(i as int).map_values(f).push(f(w)));
        }
        i = i + 1;
    }
    proof {
        assert(ws@.take(ws@.len() as int) =~= ws@);
    }
    xs
}

fn words_to_doublearray(ws: &Vec<u64>) -> (xs: Vec<u64>)
    ensures
        xs@ == ws@.map_values(|w: u64| w as u64),
{
    let ghost f = |w: u64| w as u64;
    let mut xs: Vec<u64> = Vec::new();
    let mut i: usize = 0;
    while i < ws.len()
        invariant
            i <= ws@.len(),
            f == (|w: u64| w as u64),
            xs@ == ws@.take(i as int).map_values(f),
        decreases ws@.len() - i,
    {
        let w = ws[i];
        xs.push(w as u64);
        proof {
            assert(ws@.take(i + 1).map_values(f) =~= ws@.take(i as int).map_values(f).push(f(w)));
        }
        i = i + 1;
    }
    proof {
        assert(ws@.take(ws@.len() as int) =~= ws@);
    }
    xs
}

fn words_to_datetimearray(ws: &Vec<u64>) -> (xs: Vec<i64>)
    ensures
        xs@ == ws@.map_values(|w: u64| w as i64),
{
    let ghost f = |w: u64| w as i64;
    let mut xs: Vec<i64> = Vec::new();
    let mut i: usize = 0;
    while i < ws.len()
        invariant
            i <= ws@.len(),
            f == (|w: u64| w as i64),
            xs@ == ws@.take(i as int).map_values(f),
        decreases ws@.len() - i,
    {
        let w = ws[i];
        xs.push(w as i64);
        proof {
            assert(ws@.take(i + 1).map_values(f) =~= ws@.take(i as int).map_values(f).push(f(w)));
        }
        i = i + 1;
    }
    proof {
        assert(ws@.take(ws@.len() as int) =~= ws@);
    }
    xs
}

fn unpack_bool_exec(data: &[u8]) -> (res: Result<MetricValue, SparkplugError>)
    ensures
        match unpack_bool(data@) {
            Ok(v) => res matches Ok(x) && x@ == v,
            Err(k) => res matches Err(e) && e.kind() == k,
        },
{
    if data.len() < 4 {
        return Err(SparkplugError::Truncated);
    }
    let head = vstd::slice::slice_subrange(data, 0, 4);
    let count = u32_from_le_bytes(head) as usize;
    let bits = vstd::slice::slice_subrange(data, 4, data.len());
    proof {
        assert(head@ =~= data@.take(4));
        assert(bits@ =~= data@.skip(4));
    }
    let needed = count / 8 + if count % 8 == 0 { 0 } else { 1 };
    proof {
        assert(needed == (count + 7) / 8);
    }
    if bits.len() < needed {
        return Err(SparkplugError::Truncated);
    }
    let ghost spec_out = Seq::new(count as nat, |i: int| bits@[i / 8] & ((128u8 >> ((i % 8) as u8)) as u8) != 0);
    let mut out: Vec<bool> = Vec::new();
    let mut i: usize = 0;
    while i < count
        invariant
            i <= count,
            bits@.len() >= (count + 7) / 8,
            spec_out == Seq::new(count as nat, |i: int| bits@[i / 8] & ((128u8 >> ((i % 8) as u8)) as u8) != 0),
            out@ == spec_out.take(i as int),
        decreases count - i,
    {
        let byte = bits[i / 8];
        let b = byte & (128u8 >> ((i % 8) as u8)) != 0;
        out.push(b);
        proof {
            assert(out@ =~= spec_out.take(i + 1));
        }
        i = i + 1;
    }
    proof {
        assert(spec_out.take(count as int) =~= spec_out);
    }
    Ok(MetricValue::BooleanArray(out))
}

fn decode_piece(piece: &[u8]) -> (res: Result<String, SparkplugError>)
    ensures
        valid_utf8(piece@) ==> (res matches Ok(s) && s@ == decode_utf8(piece@)),
        !valid_utf8(piece@) ==> (res matches Err(e) && e.kind() == ErrorKind::InvalidUtf8),
{
    match from_utf8(piece) {
        Some(s) => Ok(s.to_owned()),
        None => Err(SparkplugError::InvalidUtf8),
    }
}

fn unpack_strings_exec(data: &[u8]) -> (res: Result<MetricValue, SparkplugError>)
    ensures
        match unpack_strings(data@) {
            Ok(v) => res matches Ok(x) && x@ == v,
            Err(k) => res matches Err(e) && e.kind() == k,
        },
{
    let mut out: Vec<String> = Vec::new();
    if data.len() == 0 {
        proof {
            assert(strings_view(out@) =~= Seq::<Seq<char>>::empty());
        }
        return Ok(MetricValue::StringArray(out));
    }
    let mut start: usize = 0;
    let mut i: usize = 0;
    let ghost mut pieces: Seq<Seq<u8>> = seq![];
    proof {
        assert(data@.take(0) =~= Seq::<u8>::empty());
        assert(data@.subrange(0, 0) =~= Seq::<u8>::empty());
        assert(strings_view(out@) =~= Seq::<Seq<char>>::empty());
    }
    while i < data.len()
        invariant
            start <= i <= data@.len(),
            i > 0 && data@[i - 1] == 0 ==> start == i,
            split_nul(data@.take(i as int)) == pieces.push(data@.subrange(start as int, i as int)),
            decode_pieces(pieces) == Ok::<Seq<Seq<char>>, ErrorKind>(strings_view(out@)),
        decreases data@.len() - i,
    {
        let ghost t = data@.take(i + 1);
        proof {
            assert(t.drop_last() =~= data@.take(i as int));
            assert(t.last() == data@[i as int]);
        }
        if data[i] == 0 {
            let piece = vstd::slice::slice_subrange(data, start, i);
            let s = decode_piece(piece);
            proof {
                assert(piece@ =~= data@.subrange(start as int, i as int));
                let np = pieces.push(piece@);
                assert(np.drop_last() =~= pieces);
            }
            match s {
                Ok(s) => {
                    let ghost old_out = out@;
                    out.push(s);
                    proof {
                        assert(out@.drop_last() =~= old_out);
                        pieces = pieces.push(piece@);
                        assert(split_nul(t) == split_nul(data@.take(i as int)).push(seq![]));
                        assert(data@.subrange(i + 1, i + 1) =~= Seq::<u8>::empty());
                        assert(split_nul(t) =~= pieces.push(data@.subrange(i + 1, i + 1)));
                    }
                },
                Err(e) => {
                    proof {
                        let np = pieces.push(piece@);
                        assert(split_nul(t) == split_nul(data@.take(i as int)).push(seq![]));
                        assert(split_nul(t) =~= np.push(seq![]));
                        let rest = data@.skip(i + 1);
                        assert(data@ =~= t + rest);
                        lemma_split_concat(t, rest);
                        lemma_split_nonempty(rest);
                        assert(split_nul(data@) =~= np + split_nul(rest));
                        lemma_pieces_error_more(np, split_nul(rest));
                        lemma_pieces_error_more(np, split_nul(rest).drop_last());
                        assert(split_nul(data@).drop_last() =~= np + split_nul(rest).drop_last());
                    }
                    return Err(e);
                },
            }
            start = i + 1;
        } else {
            proof {
                let s = split_nul(data@.take(i as int));
                assert(s.last().push(data@[i as int]) =~= data@.subrange(start as int, i + 1));
                assert(split_nul(t) =~= pieces.push(data@.subrange(start as int, i + 1)));
            }
        }
        i = i + 1;
    }
    proof {
        assert(data@.take(data@.len() as int) =~= data@);
    }
    if data[data.len() - 1] == 0 {
        proof {
            assert(start == data@.len());
            assert(data@.subrange(start as int, data@.len() as int) =~= Seq::<u8>::empty());
            assert(split_nul(data@).drop_last() =~= pieces);
        }
        Ok(MetricValue::StringArray(out))
    } else {
        let piece = vstd::slice::slice_subrange(data, start, data.len());
        let s = decode_piece(piece);
        proof {
            assert(piece@ =~= data@.subrange(start as int, data@.len() as int));
            let np = pieces.push(piece@);
            assert(np.drop_last() =~= pieces);
        }
        match s {
            Ok(s) => {
                let ghost old_out = out@;
                out.push(s);
                proof {
                    assert(out@.drop_last() =~= old_out);
                }
                Ok(MetricValue::StringArray(out))
            },
            Err(e) => Err(e),
        }
    }
}

/// Splitting always yields at least one piece.
proof fn lemma_split_nonempty(data: Seq<u8>)
    ensures
        split_nul(data).len() >= 1,
    decreases data.len(),
{
    if data.len() > 0 {
        lemma_split_nonempty(data.drop_last());
    }
}

/// Splitting a concatenation whose first part ends with a NUL.
proof fn lemma_split_concat(x: Seq<u8>, y: Seq<u8>)
    requires
        x.len() > 0,
        x.last() == 0,
    ensures
        split_nul(x + y) == split_nul(x).drop_last() + split_nul(y),
    decreases y.len(),
{
    lemma_split_nonempty(y);
    if y.len() == 0 {
        assert(x + y =~= x);
        assert(split_nul(x) == split_nul(x.drop_last()).push(seq![]));
        assert(split_nul(y) =~= seq![Seq::<u8>::empty()]);
        assert(split_nul(x).drop_last() + split_nul(y) =~= split_nul(x));
    } else {
        let xy = x + y;
        assert(xy.drop_last() =~= x + y.drop_last());
        assert(xy.last() == y.last());
        lemma_split_concat(x, y.drop_last());
        lemma_split_nonempty(y.drop_last());
        let a = split_nul(x).drop_last();
        let b = split_nul(y.drop_last());
        if y.last() == 0 {
            assert(split_nul(xy) =~= a + split_nul(y));
        } else {
            let s = a + b;
            assert(s.last() == b.last());
            assert(s.update(s.len() - 1, s.last().push(y.last()))
                =~= a + b.update(b.len() - 1, b.last().push(y.last())));
        }
    }
}

proof fn lemma_pieces_error_more(ps: Seq<Seq<u8>>, more: Seq<Seq<u8>>)
    requires
        decode_pieces(ps) is Err,
    ensures
        decode_pieces(ps + more) == decode_pieces(ps),
    decreases more.len(),
{
    if more.len() == 0 {
        assert(ps + more =~= ps);
    } else {
        lemma_pieces_error_more(ps, more.drop_last());
        assert((ps + more).drop_last() =~= ps + more.drop_last());
    }
}

/// Unpack a `bytes_value` slice into an array-typed [`MetricValue`] given its
/// declared [`DataType`].
pub fn unpack_array(dt: DataType, data: &[u8]) -> (res: Result<MetricValue, SparkplugError>)
    ensures
        match unpack(dt, data@) {
            Ok(v) => res matches Ok(x) && x@ == v,
            Err(k) => res matches Err(e) && e.kind() == k,
        },
{
    match dt {
        DataType::BooleanArray => return unpack_bool_exec(data),
        DataType::StringArray => return unpack_strings_exec(data),
        _ => {},
    }
    let width = match dt.array_element_width() {
        Some(w) => w,
        None => {
            let msg = crate::util::concat_str(dt.name(), " is not a numeric array");
            return Err(SparkplugError::ValueTypeMismatch(msg));
        },
    };
    if data.len() % width != 0 {
        return Err(SparkplugError::ArrayLength { len: data.len(), width });
    }
    let ws = unpack_words_exec(data, width);
    match dt {
        DataType::Int8Array => Ok(MetricValue::Int8Array(words_to_int8array(&ws))),
        DataType::Int16Array => Ok(MetricValue::Int16Array(words_to_int16array(&ws))),
        DataType::Int32Array => Ok(MetricValue::Int32Array(words_to_int32array(&ws))),
        DataType::Int64Array => Ok(MetricValue::Int64Array(words_to_int64array(&ws))),
        DataType::UInt8Array => Ok(MetricValue::UInt8Array(words_to_uint8array(&ws))),
        DataType::UInt16Array => Ok(MetricValue::UInt16Array(words_to_uint16array(&ws))),
        DataType::UInt32Array => Ok(MetricValue::UInt32Array(words_to_uint32array(&ws))),
        DataType::UInt64Array => Ok(MetricValue::UInt64Array(words_to_uint64array(&ws))),
        DataType::FloatArray => Ok(MetricValue::FloatArray(words_to_floatarray(&ws))),
        DataType::DoubleArray => Ok(MetricValue::DoubleArray(words_to_doublearray(&ws))),
        DataType::DateTimeArray => Ok(MetricValue::DateTimeArray(words_to_datetimearray(&ws))),
        _ => {
            let msg = crate::util::concat_str(dt.name(), " is not a numeric array");
            Err(SparkplugError::ValueTypeMismatch(msg))
        },
    }
}

} // verus!
