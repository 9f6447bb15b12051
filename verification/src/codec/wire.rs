//! Minimal protobuf (proto2) wire primitives: exactly what Sparkplug B needs.
//!
//! A message is a sequence of [`Field`]s; [`fields_bytes`] is its encoding and
//! [`tokenize`] reads fields back one after another until the bytes end or a
//! field cannot be read. [`lemma_tokenize_fields_bytes`] proves that tokenizing
//! an encoding gives back exactly the encoded fields.
use vstd::bytes::*;
use vstd::prelude::*;

use crate::error::{ErrorKind, SparkplugError};

verus! {

// ---------------------------------------------------------------------------
// Specification
// ---------------------------------------------------------------------------

/// A field value as it appears on the wire.
pub enum Wire {
    /// Wire type 0.
    Varint(u64),
    /// Wire type 1 (`double`).
    Fixed64(u64),
    /// Wire type 2 (`string`/`bytes`/messages).
    Bytes(Seq<u8>),
    /// Wire type 5 (`float`).
    Fixed32(u32),
}

/// A protobuf field: its number and its value.
pub struct Field {
    pub num: u32,
    pub val: Wire,
}

/// The protobuf wire type of a value.
pub open spec fn wire_type(w: Wire) -> u64 {
    match w {
        Wire::Varint(_) => 0,
        Wire::Fixed64(_) => 1,
        Wire::Bytes(_) => 2,
        Wire::Fixed32(_) => 5,
    }
}

/// The base-128 varint encoding of `v`: seven bits per byte, least significant
/// group first, the high bit set on every byte but the last.
pub open spec fn varint_bytes(v: u64) -> Seq<u8>
    decreases v,
{
    if v < 128 {
        seq![v as u8]
    } else {
        seq![(v % 128 + 128) as u8] + varint_bytes(v / 128)
    }
}

/// The key of a field: `num << 3 | wire_type`.
pub open spec fn field_key(f: Field) -> u64 {
    (f.num * 8 + wire_type(f.val)) as u64
}

/// The bytes after a field's key.
pub open spec fn wire_bytes(w: Wire) -> Seq<u8> {
    match w {
        Wire::Varint(v) => varint_bytes(v),
        Wire::Fixed64(v) => spec_u64_to_le_bytes(v),
        Wire::Bytes(b) => varint_bytes(b.len() as u64) + b,
        Wire::Fixed32(v) => spec_u32_to_le_bytes(v),
    }
}

/// The encoding of one field.
pub open spec fn field_bytes(f: Field) -> Seq<u8> {
    varint_bytes(field_key(f)) + wire_bytes(f.val)
}

/// The encoding of a message: its fields, in order.
pub open spec fn fields_bytes(fs: Seq<Field>) -> Seq<u8>
    decreases fs.len(),
{
    if fs.len() == 0 {
        seq![]
    } else {
        fields_bytes(fs.drop_last()) + field_bytes(fs.last())
    }
}

/// `128^k`.
pub open spec fn pow128(k: nat) -> nat
    decreases k,
{
    if k == 0 {
        1
    } else {
        128 * pow128((k - 1) as nat)
    }
}

/// The value of the first `k` bytes of `s` read as base-128 digits, least
/// significant first (the high bit of each byte ignored).
pub open spec fn vsum(s: Seq<u8>, k: nat) -> nat
    decreases k,
{
    if k == 0 {
        0
    } else {
        vsum(s, (k - 1) as nat) + (s[k - 1] % 128) as nat * pow128((k - 1) as nat)
    }
}

/// The length of the varint at the start of `s`, scanning from byte `k`: at
/// most ten bytes are read; running out of bytes is `Truncated`, a tenth byte
/// with its high bit set is `VarintOverflow`.
pub open spec fn varint_end(s: Seq<u8>, k: nat) -> Result<nat, ErrorKind>
    decreases 10 - k,
{
    if k >= 10 {
        Err(ErrorKind::VarintOverflow)
    } else if k >= s.len() {
        Err(ErrorKind::Truncated)
    } else if s[k as int] < 128 {
        Ok(k + 1)
    } else {
        varint_end(s, k + 1)
    }
}

/// Read a varint from the start of `s`: its value (wrapping at 64 bits) and its length.
pub open spec fn read_varint(s: Seq<u8>) -> Result<(u64, nat), ErrorKind> {
    match varint_end(s, 0) {
        Ok(n) => Ok(((vsum(s, n) % 0x1_0000_0000_0000_0000) as u64, n)),
        Err(e) => Err(e),
    }
}

/// Read one field from the start of `s`: the field and the number of bytes it takes.
pub open spec fn read_field(s: Seq<u8>) -> Result<(Field, nat), ErrorKind> {
    match read_varint(s) {
        Err(e) => Err(e),
        Ok((key, n)) => if key / 8 > u32::MAX {
            Err(ErrorKind::InvalidWireType(0))
        } else {
            let num = (key / 8) as u32;
            let w = key % 8;
            let rest = s.skip(n as int);
            if w == 0 {
                match read_varint(rest) {
                    Ok((v, m)) => Ok((Field { num, val: Wire::Varint(v) }, n + m)),
                    Err(e) => Err(e),
                }
            } else if w == 1 {
                if rest.len() >= 8 {
                    Ok((Field { num, val: Wire::Fixed64(spec_u64_from_le_bytes(rest.take(8))) }, n + 8))
                } else {
                    Err(ErrorKind::Truncated)
                }
            } else if w == 2 {
                match read_varint(rest) {
                    Err(e) => Err(e),
                    Ok((len, m)) => if m + len <= rest.len() {
                        Ok((Field { num, val: Wire::Bytes(rest.subrange(m as int, m + len)) }, (n + m + len) as nat))
                    } else {
                        Err(ErrorKind::Truncated)
                    },
                }
            } else if w == 5 {
                if rest.len() >= 4 {
                    Ok((Field { num, val: Wire::Fixed32(spec_u32_from_le_bytes(rest.take(4))) }, n + 4))
                } else {
                    Err(ErrorKind::Truncated)
                }
            } else {
                Err(ErrorKind::InvalidWireType(w as u8))
            }
        },
    }
}

/// Read fields one after another: the fields read before the bytes ended or a
/// field could not be read, and the error that stopped the reading, if any.
pub open spec fn tokenize(s: Seq<u8>) -> (Seq<Field>, Option<ErrorKind>)
    decreases s.len(),
{
    if s.len() == 0 {
        (seq![], None)
    } else {
        match read_field(s) {
            Err(e) => (seq![], Some(e)),
            Ok((f, n)) => if 0 < n <= s.len() {
                let (fs, e) = tokenize(s.skip(n as int));
                (seq![f] + fs, e)
            } else {
                (seq![], None)
            },
        }
    }
}

/// Apply `step` to each field in order, stopping at the first error.
pub open spec fn fold_fields<A>(
    fs: Seq<Field>,
    init: A,
    step: spec_fn(A, Field) -> Result<A, ErrorKind>,
) -> Result<A, ErrorKind>
    decreases fs.len(),
{
    if fs.len() == 0 {
        Ok(init)
    } else {
        match fold_fields(fs.drop_last(), init, step) {
            Ok(a) => step(a, fs.last()),
            Err(e) => Err(e),
        }
    }
}

/// Decode a message: read its fields one after another, interpreting each with
/// `step` as soon as it is read. The first error met, in reading or in
/// interpreting, is the result.
pub open spec fn run_fields<A>(
    s: Seq<u8>,
    init: A,
    step: spec_fn(A, Field) -> Result<A, ErrorKind>,
) -> Result<A, ErrorKind> {
    let (fs, err) = tokenize(s);
    match fold_fields(fs, init, step) {
        Err(e) => Err(e),
        Ok(a) => match err {
            Some(e) => Err(e),
            None => Ok(a),
        },
    }
}

/// `tokens` are the fields read from `s` before the suffix `rest` was reached.
pub open spec fn tokens_before(s: Seq<u8>, tokens: Seq<Field>, rest: Seq<u8>) -> bool {
    &&& tokenize(s).0 == tokens + tokenize(rest).0
    &&& tokenize(s).1 == tokenize(rest).1
}

// ---------------------------------------------------------------------------
// Lemmas: varints
// ---------------------------------------------------------------------------

/// `128^k` is positive and `128^10` exceeds every `u64`.
pub proof fn lemma_pow128(k: nat)
    ensures
        pow128(k) >= 1,
        pow128(10) == 0x40_0000_0000_0000_0000,
    decreases k,
{
    if k > 0 {
        lemma_pow128((k - 1) as nat);
    }
    assert(pow128(0) == 1);
    assert(pow128(1) == 128);
    assert(pow128(2) == 0x4000);
    assert(pow128(3) == 0x20_0000);
    assert(pow128(4) == 0x1000_0000);
    assert(pow128(5) == 0x8_0000_0000);
    assert(pow128(6) == 0x400_0000_0000);
    assert(pow128(7) == 0x2_0000_0000_0000);
    assert(pow128(8) == 0x100_0000_0000_0000);
    assert(pow128(9) == 0x8000_0000_0000_0000);
    assert(pow128(10) == 0x40_0000_0000_0000_0000);
}

/// The bytes of a varint: every byte but the last has its high bit set.
pub proof fn lemma_varint_bytes_shape(v: u64)
    ensures
        1 <= varint_bytes(v).len() <= 10,
        forall|i: int| 0 <= i < varint_bytes(v).len() - 1 ==> varint_bytes(v)[i] >= 128,
        varint_bytes(v)[varint_bytes(v).len() - 1] < 128,
{
    lemma_pow128(10);
    lemma_varint_len(v, 10);
    lemma_varint_high_bits(v);
}

proof fn lemma_varint_len(v: u64, k: nat)
    requires
        v < pow128(k),
        k >= 1,
    ensures
        varint_bytes(v).len() <= k,
        varint_bytes(v).len() >= 1,
    decreases v,
{
    lemma_pow128(k);
    if v >= 128 {
        assert(k >= 1) by {
            if k == 0 {
                assert(pow128(0) == 1);
            }
        }
        assert(pow128(k) == 128 * pow128((k - 1) as nat));
        assert((v / 128) < pow128((k - 1) as nat));
        assert(k >= 2) by {
            if k == 1 {
                assert(pow128(0) == 1);
            }
        }
        lemma_varint_len(v / 128, (k - 1) as nat);
        assert(varint_bytes(v).len() == 1 + varint_bytes(v / 128).len());
    }
}

proof fn lemma_varint_high_bits(v: u64)
    ensures
        forall|i: int| 0 <= i < varint_bytes(v).len() - 1 ==> varint_bytes(v)[i] >= 128,
        varint_bytes(v)[varint_bytes(v).len() - 1] < 128,
    decreases v,
{
    if v >= 128 {
        lemma_varint_high_bits(v / 128);
        let t = varint_bytes(v / 128);
        assert(varint_bytes(v) == seq![(v % 128 + 128) as u8] + t);
        assert forall|i: int| 0 <= i < varint_bytes(v).len() - 1 implies varint_bytes(v)[i] >= 128 by {
            if i > 0 {
                assert(varint_bytes(v)[i] == t[i - 1]);
            }
        }
    }
}

/// Scanning for the end of a varint that begins the sequence finds its end.
proof fn lemma_varint_end_prefix(v: u64, rest: Seq<u8>, k: nat)
    requires
        k < varint_bytes(v).len(),
    ensures
        varint_end(varint_bytes(v) + rest, k) == Ok::<nat, ErrorKind>(varint_bytes(v).len()),
    decreases varint_bytes(v).len() - k,
{
    lemma_varint_bytes_shape(v);
    let s = varint_bytes(v) + rest;
    assert(s[k as int] == varint_bytes(v)[k as int]);
    if k + 1 < varint_bytes(v).len() {
        lemma_varint_end_prefix(v, rest, k + 1);
    }
}

/// `vsum` of a byte followed by `t`.
proof fn lemma_vsum_cons(b: u8, t: Seq<u8>, k: nat)
    requires
        k <= t.len(),
    ensures
        vsum(seq![b] + t, k + 1) == (b % 128) as nat + 128 * vsum(t, k),
    decreases k,
{
    let s = seq![b] + t;
    assert(pow128(0) == 1);
    if k == 0 {
        assert(s[0] == b);
        assert(vsum(s, 0) == 0);
        assert(vsum(t, 0) == 0);
        assert(vsum(s, 1) == vsum(s, 0) + (s[0] % 128) as nat * pow128(0));
    } else {
        lemma_vsum_cons(b, t, (k - 1) as nat);
        assert(s[k as int] == t[k - 1]);
        let d = (t[k - 1] % 128) as nat;
        let p = pow128((k - 1) as nat);
        assert(pow128(k) == 128 * p);
        assert(d * (128 * p) == 128 * (d * p)) by (nonlinear_arith);
    }
}

/// `vsum` only reads the bytes it counts.
proof fn lemma_vsum_prefix(s: Seq<u8>, t: Seq<u8>, k: nat)
    requires
        k <= s.len(),
        k <= t.len(),
        s.take(k as int) == t.take(k as int),
    ensures
        vsum(s, k) == vsum(t, k),
    decreases k,
{
    if k > 0 {
        assert(s[k - 1] == s.take(k as int)[k - 1]);
        assert(t[k - 1] == t.take(k as int)[k - 1]);
        assert(s.take(k - 1) == s.take(k as int).take(k - 1));
        assert(t.take(k - 1) == t.take(k as int).take(k - 1));
        lemma_vsum_prefix(s, t, (k - 1) as nat);
    }
}

/// The varint digits of `v` sum back to `v`.
proof fn lemma_vsum_varint(v: u64)
    ensures
        vsum(varint_bytes(v), varint_bytes(v).len()) == v,
    decreases v,
{
    lemma_varint_bytes_shape(v);
    if v < 128 {
        assert(pow128(0) == 1);
        assert(vsum(varint_bytes(v), 0) == 0);
        let s = varint_bytes(v);
        assert(s[0] == v as u8);
        assert(vsum(s, 1) == vsum(s, 0) + (s[0] % 128) as nat * pow128(0));
    } else {
        let b = (v % 128 + 128) as u8;
        let t = varint_bytes(v / 128);
        lemma_vsum_varint(v / 128);
        lemma_vsum_cons(b, t, t.len());
        assert(varint_bytes(v) == seq![b] + t);
    }
}

/// Reading a varint from its encoding, followed by anything, gives back the value.
pub proof fn lemma_read_varint_bytes(v: u64, rest: Seq<u8>)
    ensures
        read_varint(varint_bytes(v) + rest) == Ok::<(u64, nat), ErrorKind>((v, varint_bytes(v).len())),
{
    let s = varint_bytes(v) + rest;
    let n = varint_bytes(v).len();
    lemma_varint_bytes_shape(v);
    lemma_varint_end_prefix(v, rest, 0);
    assert(s.take(n as int) == varint_bytes(v).take(n as int));
    lemma_vsum_prefix(s, varint_bytes(v), n);
    lemma_vsum_varint(v);
}

// ---------------------------------------------------------------------------
// Lemmas: fields and messages
// ---------------------------------------------------------------------------

/// The length of a field's payload (zero unless it is length-delimited).
pub open spec fn payload_len(f: Field) -> nat {
    match f.val {
        Wire::Bytes(b) => b.len(),
        _ => 0,
    }
}

/// Every length-delimited payload of `fs` fits in 64 bits.
pub open spec fn payloads_fit(fs: Seq<Field>) -> bool {
    forall|i: int| 0 <= i < fs.len() ==> payload_len(#[trigger] fs[i]) <= u64::MAX
}

/// Encoding a message with a field in front.
pub proof fn lemma_fields_bytes_cons(f: Field, fs: Seq<Field>)
    ensures
        fields_bytes(seq![f] + fs) == field_bytes(f) + fields_bytes(fs),
    decreases fs.len(),
{
    let all = seq![f] + fs;
    if fs.len() == 0 {
        assert(all.drop_last() =~= Seq::<Field>::empty());
        assert(fields_bytes(all.drop_last()) == Seq::<u8>::empty());
        assert(fields_bytes(all) =~= field_bytes(f) + fields_bytes(fs));
    } else {
        assert(all.drop_last() =~= seq![f] + fs.drop_last());
        lemma_fields_bytes_cons(f, fs.drop_last());
        assert(all.last() == fs.last());
        assert(fields_bytes(all) =~= field_bytes(f) + fields_bytes(fs));
    }
}

/// A field's encoding is longer than its payload.
pub proof fn lemma_field_bytes_len(f: Field)
    ensures
        field_bytes(f).len() > payload_len(f),
{
    lemma_varint_bytes_shape(field_key(f));
    match f.val {
        Wire::Bytes(b) => {
            lemma_varint_bytes_shape(b.len() as u64);
        },
        _ => {},
    }
}

/// Each field's encoding lies within the message's encoding.
pub proof fn lemma_fields_bytes_contains(fs: Seq<Field>, i: int)
    requires
        0 <= i < fs.len(),
    ensures
        fields_bytes(fs).len() >= field_bytes(fs[i]).len(),
        fields_bytes(fs).len() > payload_len(fs[i]),
    decreases fs.len(),
{
    lemma_field_bytes_len(fs[i]);
    if i < fs.len() - 1 {
        lemma_fields_bytes_contains(fs.drop_last(), i);
    }
}

/// The payloads of a message that fits in 64 bits fit in 64 bits.
pub proof fn lemma_payloads_fit(fs: Seq<Field>)
    requires
        fields_bytes(fs).len() <= u64::MAX,
    ensures
        payloads_fit(fs),
{
    assert forall|i: int| 0 <= i < fs.len() implies payload_len(#[trigger] fs[i]) <= u64::MAX by {
        lemma_fields_bytes_contains(fs, i);
    }
}

/// Reading a field from its encoding, followed by anything, gives back the field.
pub proof fn lemma_read_field_bytes(f: Field, rest: Seq<u8>)
    requires
        payload_len(f) <= u64::MAX,
    ensures
        read_field(field_bytes(f) + rest) == Ok::<(Field, nat), ErrorKind>((f, field_bytes(f).len())),
{
    let key = field_key(f);
    let s = field_bytes(f) + rest;
    let rest2 = wire_bytes(f.val) + rest;
    assert(s == varint_bytes(key) + rest2);
    lemma_read_varint_bytes(key, rest2);
    let n = varint_bytes(key).len();
    assert(s.skip(n as int) == rest2);
    assert(key / 8 == f.num);
    assert(key % 8 == wire_type(f.val));
    lemma_auto_spec_u64_to_from_le_bytes();
    lemma_auto_spec_u32_to_from_le_bytes();
    match f.val {
        Wire::Varint(v) => {
            lemma_read_varint_bytes(v, rest);
        },
        Wire::Fixed64(v) => {
            let le = spec_u64_to_le_bytes(v);
            assert(le.len() == 8);
            assert(rest2.take(8) == le);
        },
        Wire::Bytes(b) => {
            let len = b.len() as u64;
            assert(len == b.len());
            assert(rest2 == varint_bytes(len) + (b + rest));
            lemma_read_varint_bytes(len, b + rest);
            let m = varint_bytes(len).len();
            assert(rest2.subrange(m as int, m + len) == b);
        },
        Wire::Fixed32(v) => {
            let le = spec_u32_to_le_bytes(v);
            assert(le.len() == 4);
            assert(rest2.take(4) == le);
        },
    }
}

/// Tokenizing the encoding of a message gives back its fields, with no error.
pub proof fn lemma_tokenize_fields_bytes(fs: Seq<Field>)
    requires
        payloads_fit(fs),
    ensures
        tokenize(fields_bytes(fs)) == (fs, Option::<ErrorKind>::None),
    decreases fs.len(),
{
    if fs.len() > 0 {
        let f = fs[0];
        let tail = fs.drop_first();
        assert(fs == seq![f] + tail);
        lemma_fields_bytes_cons(f, tail);
        assert(payload_len(fs[0]) <= u64::MAX);
        lemma_read_field_bytes(f, fields_bytes(tail));
        lemma_field_bytes_len(f);
        assert(payloads_fit(tail)) by {
            assert forall|i: int| 0 <= i < tail.len() implies payload_len(#[trigger] tail[i]) <= u64::MAX by {
                assert(tail[i] == fs[i + 1]);
            }
        }
        lemma_tokenize_fields_bytes(tail);
        let s = fields_bytes(fs);
        assert(s.skip(field_bytes(f).len() as int) == fields_bytes(tail));
    } else {
        assert(fields_bytes(fs) == Seq::<u8>::empty());
    }
}

/// A field that is read takes at least one byte and no more than there are, and
/// its payload is shorter than what it takes.
pub proof fn lemma_read_field_len(s: Seq<u8>)
    ensures
        read_field(s) matches Ok((f, n)) ==> 0 < n <= s.len() && payload_len(f) < n,
{
    lemma_varint_end_bounds(s, 0);
    match read_varint(s) {
        Ok((key, n)) => {
            let rest = s.skip(n as int);
            lemma_varint_end_bounds(rest, 0);
        },
        Err(_) => {},
    }
}

/// A varint that is read takes at least one byte and no more than there are.
pub proof fn lemma_read_varint_len(s: Seq<u8>)
    ensures
        read_varint(s) matches Ok((v, n)) ==> 0 < n <= s.len(),
{
    lemma_varint_end_bounds(s, 0);
}

proof fn lemma_varint_end_bounds(s: Seq<u8>, k: nat)
    ensures
        varint_end(s, k) matches Ok(n) ==> k < n <= s.len(),
    decreases 10 - k,
{
    if k < 10 && k < s.len() && s[k as int] >= 128 {
        lemma_varint_end_bounds(s, k + 1);
    }
}

/// Tokenizing `s` starts with the field read first.
pub proof fn lemma_tokenize_step(s: Seq<u8>)
    requires
        s.len() > 0,
    ensures
        match read_field(s) {
            Err(e) => tokenize(s) == (Seq::<Field>::empty(), Some(e)),
            Ok((f, n)) => 0 < n <= s.len() && tokenize(s) == (
                seq![f] + tokenize(s.skip(n as int)).0,
                tokenize(s.skip(n as int)).1,
            ),
        },
{
    lemma_read_field_len(s);
}

/// Folding one more field.
pub proof fn lemma_fold_push<A>(fs: Seq<Field>, f: Field, init: A, step: spec_fn(A, Field) -> Result<A, ErrorKind>)
    ensures
        fold_fields(fs.push(f), init, step) == (match fold_fields(fs, init, step) {
            Ok(a) => step(a, f),
            Err(e) => Err(e),
        }),
{
    assert(fs.push(f).drop_last() =~= fs);
}

/// Encoding one more field appends its encoding, which is longer than its payload.
pub proof fn lemma_fields_bytes_push(fs: Seq<Field>, f: Field)
    ensures
        fields_bytes(fs.push(f)) == fields_bytes(fs) + field_bytes(f),
        field_bytes(f).len() > payload_len(f),
{
    assert(fs.push(f).drop_last() =~= fs);
    lemma_field_bytes_len(f);
}

/// Reading the encoding of a message that fits in 64 bits interprets exactly its fields.
pub proof fn lemma_run_encoded<A>(fs: Seq<Field>, init: A, step: spec_fn(A, Field) -> Result<A, ErrorKind>)
    requires
        fields_bytes(fs).len() <= u64::MAX,
    ensures
        run_fields(fields_bytes(fs), init, step) == fold_fields(fs, init, step),
{
    lemma_payloads_fit(fs);
    lemma_tokenize_fields_bytes(fs);
}

/// Once a prefix of the fields fails, the whole fold fails the same way.
pub proof fn lemma_fold_fields_error<A>(
    a: Seq<Field>,
    b: Seq<Field>,
    init: A,
    step: spec_fn(A, Field) -> Result<A, ErrorKind>,
)
    requires
        fold_fields(a, init, step) is Err,
    ensures
        fold_fields(a + b, init, step) == fold_fields(a, init, step),
    decreases b.len(),
{
    if b.len() > 0 {
        lemma_fold_fields_error(a, b.drop_last(), init, step);
        assert((a + b).drop_last() =~= a + b.drop_last());
    } else {
        assert(a + b =~= a);
    }
}

// ---------------------------------------------------------------------------
// Executable writer
// ---------------------------------------------------------------------------

/// Append the varint encoding of `v` to `buf`.
pub fn write_varint(buf: &mut Vec<u8>, v: u64)
    ensures
        final(buf)@ == old(buf)@ + varint_bytes(v),
{
    let ghost target = old(buf)@ + varint_bytes(v);
    let mut value = v;
    while value >= 128
        invariant
            buf@ + varint_bytes(value) == target,
        decreases value,
    {
        let ghost before = buf@;
        buf.push((value % 128 + 128) as u8);
        proof {
            assert(varint_bytes(value) == seq![(value % 128 + 128) as u8] + varint_bytes(value / 128));
            assert(buf@ + varint_bytes(value / 128) =~= before + varint_bytes(value));
        }
        value = value / 128;
    }
    let ghost before = buf@;
    buf.push(value as u8);
    proof {
        assert(buf@ =~= before + varint_bytes(value));
    }
}

/// Append `b` to `buf`.
pub fn append_bytes(buf: &mut Vec<u8>, b: &[u8])
    ensures
        final(buf)@ == old(buf)@ + b@,
{
    let mut i: usize = 0;
    while i < b.len()
        invariant
            i <= b@.len(),
            buf@ == old(buf)@ + b@.take(i as int),
        decreases b@.len() - i,
    {
        buf.push(b[i]);
        proof {
            assert(b@.take(i + 1) =~= b@.take(i as int).push(b@[i as int]));
        }
        i = i + 1;
    }
    proof {
        assert(b@.take(b@.len() as int) =~= b@);
    }
}

/// A protobuf message under construction: the bytes written so far are the
/// encoding of the fields written so far.
pub struct Writer {
    buf: Vec<u8>,
    fields: Ghost<Seq<Field>>,
}

impl Writer {
    /// The fields written so far.
    pub closed spec fn fields(&self) -> Seq<Field> {
        self.fields@
    }

    /// The bytes written are the encoding of the fields written.
    #[verifier::type_invariant]
    spec fn wf(&self) -> bool {
        self.buf@ == fields_bytes(self.fields@)
    }

    /// An empty message.
    pub fn new() -> (w: Writer)
        ensures
            w.fields() == Seq::<Field>::empty(),
    {
        Writer { buf: Vec::new(), fields: Ghost(Seq::empty()) }
    }

    /// The encoding of the message.
    pub fn into_bytes(self) -> (b: Vec<u8>)
        ensures
            b@ == fields_bytes(self.fields()),
    {
        proof {
            use_type_invariant(&self);
        }
        self.buf
    }

    /// Take out the bytes and the fields written so far, leaving an empty message.
    fn open(&mut self) -> (parts: (Vec<u8>, Ghost<Seq<Field>>))
        ensures
            parts.0@ == fields_bytes(parts.1@),
            parts.1@ == old(self).fields(),
    {
        let mut w = Writer::new();
        std::mem::swap(self, &mut w);
        proof {
            use_type_invariant(&w);
        }
        let Writer { buf, fields } = w;
        (buf, fields)
    }

    /// Write a varint field (`uint32`/`uint64`/`bool`).
    pub fn varint_field(&mut self, num: u32, v: u64)
        ensures
            final(self).fields() == old(self).fields().push(Field { num, val: Wire::Varint(v) }),
    {
        let (mut buf, fields) = self.open();
        let ghost f = Field { num, val: Wire::Varint(v) };
        proof {
            lemma_fields_bytes_push(fields@, f);
        }
        write_varint(&mut buf, num as u64 * 8);
        write_varint(&mut buf, v);
        proof {
            assert(buf@ =~= fields_bytes(fields@.push(f)));
        }
        *self = Writer { buf, fields: Ghost(fields@.push(f)) };
    }

    /// Write a `bool` field.
    pub fn bool_field(&mut self, num: u32, v: bool)
        ensures
            final(self).fields() == old(self).fields().push(
                Field { num, val: Wire::Varint(if v { 1 } else { 0 }) },
            ),
    {
        self.varint_field(num, if v { 1 } else { 0 });
    }

    /// Write a fixed 64-bit field (`double`).
    pub fn fixed64_field(&mut self, num: u32, v: u64)
        ensures
            final(self).fields() == old(self).fields().push(Field { num, val: Wire::Fixed64(v) }),
    {
        let (mut buf, fields) = self.open();
        let ghost f = Field { num, val: Wire::Fixed64(v) };
        proof {
            lemma_fields_bytes_push(fields@, f);
        }
        write_varint(&mut buf, num as u64 * 8 + 1);
        let le = u64_to_le_bytes(v);
        append_bytes(&mut buf, le.as_slice());
        proof {
            assert(buf@ =~= fields_bytes(fields@.push(f)));
        }
        *self = Writer { buf, fields: Ghost(fields@.push(f)) };
    }

    /// Write a fixed 32-bit field (`float`).
    pub fn fixed32_field(&mut self, num: u32, v: u32)
        ensures
            final(self).fields() == old(self).fields().push(Field { num, val: Wire::Fixed32(v) }),
    {
        let (mut buf, fields) = self.open();
        let ghost f = Field { num, val: Wire::Fixed32(v) };
        proof {
            lemma_fields_bytes_push(fields@, f);
        }
        write_varint(&mut buf, num as u64 * 8 + 5);
        let le = u32_to_le_bytes(v);
        append_bytes(&mut buf, le.as_slice());
        proof {
            assert(buf@ =~= fields_bytes(fields@.push(f)));
        }
        *self = Writer { buf, fields: Ghost(fields@.push(f)) };
    }

    /// Write a length-delimited field (`bytes`, or an embedded message).
    pub fn bytes_field(&mut self, num: u32, b: &[u8])
        ensures
            final(self).fields() == old(self).fields().push(Field { num, val: Wire::Bytes(b@) }),
    {
        let (mut buf, fields) = self.open();
        let ghost f = Field { num, val: Wire::Bytes(b@) };
        proof {
            lemma_fields_bytes_push(fields@, f);
        }
        write_varint(&mut buf, num as u64 * 8 + 2);
        write_varint(&mut buf, b.len() as u64);
        append_bytes(&mut buf, b);
        proof {
            assert(buf@ =~= fields_bytes(fields@.push(f)));
        }
        *self = Writer { buf, fields: Ghost(fields@.push(f)) };
    }

    /// Write a `string` field: its UTF-8 bytes.
    pub fn str_field(&mut self, num: u32, s: &str)
        ensures
            final(self).fields() == old(self).fields().push(
                Field { num, val: Wire::Bytes(vstd::utf8::encode_utf8(s@)) },
            ),
    {
        self.bytes_field(num, s.as_bytes());
    }
}

// ---------------------------------------------------------------------------
// Executable reader
// ---------------------------------------------------------------------------

/// A field value read from a buffer; length-delimited payloads borrow the buffer.
pub enum WireValue<'a> {
    Varint(u64),
    Fixed64(u64),
    Bytes(&'a [u8]),
    Fixed32(u32),
}

impl<'a> View for WireValue<'a> {
    type V = Wire;

    open spec fn view(&self) -> Wire {
        match self {
            WireValue::Varint(v) => Wire::Varint(*v),
            WireValue::Fixed64(v) => Wire::Fixed64(*v),
            WireValue::Bytes(b) => Wire::Bytes(b@),
            WireValue::Fixed32(v) => Wire::Fixed32(*v),
        }
    }
}

/// A protobuf reader over a borrowed buffer.
pub struct Reader<'a> {
    buf: &'a [u8],
    pos: usize,
}

impl<'a> Reader<'a> {
    /// The bytes not read yet.
    pub closed spec fn rest(&self) -> Seq<u8> {
        self.buf@.subrange(self.pos as int, self.buf@.len() as int)
    }

    /// The read position lies within the buffer.
    #[verifier::type_invariant]
    spec fn wf(&self) -> bool {
        self.pos <= self.buf@.len()
    }

    /// A reader at the start of `buf`.
    pub fn new(buf: &'a [u8]) -> (r: Reader<'a>)
        ensures
            r.rest() == buf@,
    {
        let r = Reader { buf, pos: 0 };
        proof {
            assert(r.rest() =~= buf@);
        }
        r
    }

    /// Whether every byte has been read.
    pub fn is_empty(&self) -> (b: bool)
        ensures
            b == (self.rest().len() == 0),
    {
        proof {
            use_type_invariant(self);
        }
        self.pos >= self.buf.len()
    }

    /// Read a varint.
    pub fn read_varint(&mut self) -> (res: Result<u64, SparkplugError>)
        ensures
            match read_varint(old(self).rest()) {
                Ok((v, n)) => res == Ok::<u64, SparkplugError>(v) && final(self).rest() == old(self).rest().skip(n as int),
                Err(k) => res matches Err(e) && e.kind() == k,
            },
    {
        proof {
            use_type_invariant(&*self);
        }
        let ghost s = self.rest();
        let mut acc: u128 = 0;
        let mut mult: u128 = 1;
        let mut k: usize = 0;
        proof {
            lemma_pow128(0);
        }
        loop
            invariant
                self.pos <= self.buf@.len(),
                s == self.rest(),
                s == old(self).rest(),
                self.buf == old(self).buf,
                k < 10,
                acc == vsum(s, k as nat),
                mult == pow128(k as nat),
                acc < mult,
                varint_end(s, 0) == varint_end(s, k as nat),
            decreases 10 - k,
        {
            if k >= self.buf.len() - self.pos {
                return Err(SparkplugError::Truncated);
            }
            let b = self.buf[self.pos + k];
            proof {
                assert(vsum(s, (k + 1) as nat) == vsum(s, k as nat) + (s[k as int] % 128) as nat * pow128(k as nat));
                assert(s[k as int] == b);
                lemma_pow128(10);
                lemma_pow128_mono(k as nat, 9);
                assert((b % 128) as u128 * mult <= 127 * mult) by (nonlinear_arith)
                    requires
                        b % 128 <= 127,
                ;
            }
            acc = acc + (b % 128) as u128 * mult;
            if b < 128 {
                let n = k + 1;
                self.pos = self.pos + n;
                proof {
                    assert(self.rest() =~= s.skip(n as int));
                    lemma_u128_mod(acc);
                }
                return Ok((acc % 0x1_0000_0000_0000_0000) as u64);
            }
            k = k + 1;
            mult = mult * 128;
            if k >= 10 {
                return Err(SparkplugError::VarintOverflow);
            }
        }
    }

    /// Read one field: its number and its value.
    pub fn read_field(&mut self) -> (res: Result<(u32, WireValue<'a>), SparkplugError>)
        ensures
            match read_field(old(self).rest()) {
                Ok((f, n)) => res matches Ok((num, w)) && num == f.num && w@ == f.val
                    && final(self).rest() == old(self).rest().skip(n as int),
                Err(k) => res matches Err(e) && e.kind() == k,
            },
    {
        proof {
            use_type_invariant(&*self);
        }
        let ghost s = self.rest();
        let key = self.read_varint()?;
        let ghost n = read_varint(s)->Ok_0.1;
        let ghost rest = s.skip(n as int);
        proof {
            lemma_read_varint_len(s);
            lemma_read_varint_len(rest);
        }
        if key / 8 > u32::MAX as u64 {
            return Err(SparkplugError::InvalidWireType(0));
        }
        let num = (key / 8) as u32;
        let w = key % 8;
        if w == 0 {
            let v = self.read_varint()?;
            proof {
                let m = read_varint(rest)->Ok_0.1;
                assert(rest.skip(m as int) =~= s.skip((n + m) as int));
            }
            Ok((num, WireValue::Varint(v)))
        } else if w == 1 {
            match self.read_slice(8) {
                Some(b) => {
                    let v = u64_from_le_bytes(b);
                    proof {
                        assert(rest.skip(8) =~= s.skip((n + 8) as int));
                    }
                    Ok((num, WireValue::Fixed64(v)))
                },
                None => Err(SparkplugError::Truncated),
            }
        } else if w == 2 {
            let len = self.read_varint()?;
            let ghost m = read_varint(rest)->Ok_0.1;
            let ghost rest2 = rest.skip(m as int);
            proof {
                use_type_invariant(&*self);
                assert(self.rest() == rest2);
                assert(rest2.len() == rest.len() - m);
                assert(self.rest().len() == self.buf@.len() - self.pos);
            }
            if len > (self.buf.len() - self.pos) as u64 {
                return Err(SparkplugError::Truncated);
            }
            match self.read_slice(len as usize) {
                Some(b) => {
                    proof {
                        assert(b@ =~= rest.subrange(m as int, m + len));
                        assert(rest2.skip(len as int) =~= s.skip(n + m + len));
                    }
                    Ok((num, WireValue::Bytes(b)))
                },
                None => Err(SparkplugError::Truncated),
            }
        } else if w == 5 {
            match self.read_slice(4) {
                Some(b) => {
                    let v = u32_from_le_bytes(b);
                    proof {
                        assert(rest.skip(4) =~= s.skip((n + 4) as int));
                    }
                    Ok((num, WireValue::Fixed32(v)))
                },
                None => Err(SparkplugError::Truncated),
            }
        } else {
            Err(SparkplugError::InvalidWireType(w as u8))
        }
    }

    /// Read exactly `n` bytes.
    fn read_slice(&mut self, n: usize) -> (res: Option<&'a [u8]>)
        ensures
            n <= old(self).rest().len() ==> (res matches Some(b) && b@ == old(self).rest().take(n as int)
                && final(self).rest() == old(self).rest().skip(n as int)),
            n > old(self).rest().len() ==> res is None,
    {
        proof {
            use_type_invariant(&*self);
        }
        if n > self.buf.len() - self.pos {
            return None;
        }
        let b = vstd::slice::slice_subrange(self.buf, self.pos, self.pos + n);
        let ghost s = self.rest();
        self.pos = self.pos + n;
        proof {
            assert(b@ =~= s.take(n as int));
            assert(self.rest() =~= s.skip(n as int));
        }
        Some(b)
    }
}

proof fn lemma_pow128_mono(i: nat, j: nat)
    requires
        i <= j,
    ensures
        pow128(i) <= pow128(j),
    decreases j,
{
    if i < j {
        lemma_pow128_mono(i, (j - 1) as nat);
        lemma_pow128((j - 1) as nat);
    }
}

proof fn lemma_u128_mod(acc: u128)
    ensures
        (acc % 0x1_0000_0000_0000_0000) as u64 == (acc as nat % 0x1_0000_0000_0000_0000) as u64,
{
}

} // verus!
