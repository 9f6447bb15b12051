//! Payload compression envelope.
//!
//! A compressed payload is a *new* payload whose `uuid` is the
//! [`crate::COMPRESSED_PAYLOAD_UUID`] sentinel and whose `body` holds the
//! compressed bytes of the inner payload. A `String` metric named `algorithm`
//! selects GZIP; its absence implies DEFLATE. The compression itself is done by
//! `flate2`; [`lemma_decompress_compress`] proves that opening an envelope gives
//! back the payload that was sealed in it.
use std::io::{Read, Write};

use flate2::read::{DeflateDecoder, GzDecoder};
use flate2::write::{DeflateEncoder, GzEncoder};
use flate2::Compression as FlateLevel;
use vstd::prelude::*;

use crate::alias::AliasRegistry;
use crate::codec::decode::types_index;
use crate::codec::parse::{decode_payload_spec, TypeIndex};
use crate::codec::roundtrip::{lemma_decode_encode, payload_wf};
use crate::codec::{decode, encode, encoding, EncodeOptions};
use crate::error::{ErrorKind, SparkplugError};
use crate::model::{Metric, MetricView, Payload, PayloadView};
use crate::util::str_eq;
use crate::value::{MetricValue, MetricValueView, ScalarView};

verus! {

/// The compression algorithm used for a payload envelope.
#[derive(Clone, Copy, Debug, PartialEq, Eq, Structural)]
pub enum Compression {
    /// Raw DEFLATE (the default when no `algorithm` metric is present).
    Deflate,
    /// GZIP.
    Gzip,
}

/// What `flate2`'s `DeflateEncoder` at the default level writes for `data`.
pub uninterp spec fn deflated(data: Seq<u8>) -> Seq<u8>;

/// What `flate2`'s `DeflateDecoder` reads out of `data`, or `None` when it fails.
pub uninterp spec fn inflated(data: Seq<u8>) -> Option<Seq<u8>>;

/// What `flate2`'s `GzEncoder` at the default level (default header) writes for `data`.
pub uninterp spec fn gzipped(data: Seq<u8>) -> Seq<u8>;

/// What `flate2`'s `GzDecoder` reads out of `data`, or `None` when it fails.
pub uninterp spec fn gunzipped(data: Seq<u8>) -> Option<Seq<u8>>;

/// Compress `data` with `flate2::write::DeflateEncoder` (default level) into a
/// `Vec`. Claimed of it: it succeeds (writing into a `Vec` never fails, and the
/// backend fails only on bad parameters or a failed output write), the output is
/// a function of the input (the encoder is deterministic), and `DeflateDecoder`
/// reads the input back from it (DEFLATE is lossless).
#[verifier::external_body]
fn deflate(data: &[u8]) -> (res: Result<Vec<u8>, std::io::Error>)
    ensures
        res is Ok,
        res matches Ok(out) ==> out@ == deflated(data@) && inflated(out@) == Some(data@),
{
    let mut encoder = DeflateEncoder::new(Vec::new(), FlateLevel::default());
    encoder.write_all(data)?;
    encoder.finish()
}

/// Decompress `data` with `flate2::read::DeflateDecoder` (`read_to_end`).
/// Claimed of it: success and output depend on the input alone.
#[verifier::external_body]
fn inflate(data: &[u8]) -> (res: Result<Vec<u8>, std::io::Error>)
    ensures
        match res {
            Ok(out) => inflated(data@) == Some(out@),
            Err(_) => inflated(data@) is None,
        },
{
    let mut decoder = DeflateDecoder::new(data);
    let mut out = Vec::new();
    decoder.read_to_end(&mut out)?;
    Ok(out)
}

/// Compress `data` with `flate2::write::GzEncoder` (default level, default
/// header: no name, no mtime) into a `Vec`. Claimed of it: it succeeds (as
/// [`deflate`] does, the header and trailer being written into the `Vec` too),
/// the output is a function of the input, and `GzDecoder` reads the input back
/// from it.
#[verifier::external_body]
fn gzip(data: &[u8]) -> (res: Result<Vec<u8>, std::io::Error>)
    ensures
        res is Ok,
        res matches Ok(out) ==> out@ == gzipped(data@) && gunzipped(out@) == Some(data@),
{
    let mut encoder = GzEncoder::new(Vec::new(), FlateLevel::default());
    encoder.write_all(data)?;
    encoder.finish()
}

/// Decompress `data` with `flate2::read::GzDecoder` (`read_to_end`).
/// Claimed of it: success and output depend on the input alone.
#[verifier::external_body]
fn gunzip(data: &[u8]) -> (res: Result<Vec<u8>, std::io::Error>)
    ensures
        match res {
            Ok(out) => gunzipped(data@) == Some(out@),
            Err(_) => gunzipped(data@) is None,
        },
{
    let mut decoder = GzDecoder::new(data);
    let mut out = Vec::new();
    decoder.read_to_end(&mut out)?;
    Ok(out)
}

/// The characters of the envelope sentinel `SPBV1.0_COMPRESSED`.
pub open spec fn compressed_uuid() -> Seq<char> {
    seq!['S', 'P', 'B', 'V', '1', '.', '0', '_', 'C', 'O', 'M', 'P', 'R', 'E', 'S', 'S', 'E', 'D']
}

/// The characters of `algorithm`.
pub open spec fn algorithm_name() -> Seq<char> {
    seq!['a', 'l', 'g', 'o', 'r', 'i', 't', 'h', 'm']
}

/// The characters of `GZIP`.
pub open spec fn gzip_name() -> Seq<char> {
    seq!['G', 'Z', 'I', 'P']
}

/// ASCII case folding of one character, as a code point.
pub open spec fn ascii_lower(c: char) -> u32 {
    if 65 <= (c as u32) <= 90 {
        ((c as u32) + 32) as u32
    } else {
        c as u32
    }
}

/// Equality up to ASCII case, as `str::eq_ignore_ascii_case`.
pub open spec fn eq_ignore_ascii_case(a: Seq<char>, b: Seq<char>) -> bool {
    a.len() == b.len() && forall|i: int| 0 <= i < a.len() ==> ascii_lower(#[trigger] a[i]) == ascii_lower(b[i])
}

/// The `algorithm` metric that marks a GZIP envelope.
pub open spec fn is_gzip_marker(m: MetricView) -> bool {
    &&& m.name == Some(algorithm_name())
    &&& m.value matches MetricValueView::Scalar(ScalarView::String(s)) && eq_ignore_ascii_case(s, gzip_name())
}

/// The algorithm an envelope names: GZIP when it has the marker metric, else DEFLATE.
pub open spec fn envelope_algorithm(env: PayloadView) -> Compression {
    if exists|i: int| 0 <= i < env.metrics.len() && is_gzip_marker(#[trigger] env.metrics[i]) {
        Compression::Gzip
    } else {
        Compression::Deflate
    }
}

/// Whether `s` spells `GZIP` in any mix of upper and lower case.
pub open spec fn spells_gzip(s: Seq<char>) -> bool {
    &&& s.len() == 4
    &&& (s[0] == 'G' || s[0] == 'g')
    &&& (s[1] == 'Z' || s[1] == 'z')
    &&& (s[2] == 'I' || s[2] == 'i')
    &&& (s[3] == 'P' || s[3] == 'p')
}

/// An envelope is opened with GZIP exactly when one of its metrics is named
/// `algorithm` and holds a `String` that spells `GZIP` up to ASCII case; with
/// any other `algorithm` value (such as `DEFLATE`), or none, it is opened with
/// DEFLATE.
pub proof fn lemma_envelope_algorithm(env: PayloadView)
    ensures
        (envelope_algorithm(env) == Compression::Gzip) <==> exists|i: int|
            0 <= i < env.metrics.len() && (#[trigger] env.metrics[i]).name == Some(
                seq!['a', 'l', 'g', 'o', 'r', 'i', 't', 'h', 'm'],
            ) && (env.metrics[i].value matches MetricValueView::Scalar(ScalarView::String(s))
                && spells_gzip(s)),
        (envelope_algorithm(env) == Compression::Deflate) <==> envelope_algorithm(env) != Compression::Gzip,
{
    assert forall|m: MetricView| is_gzip_marker(m) <==> (m.name == Some(
        seq!['a', 'l', 'g', 'o', 'r', 'i', 't', 'h', 'm'],
    ) && (m.value matches MetricValueView::Scalar(ScalarView::String(s)) && spells_gzip(s))) by {
        if let MetricValueView::Scalar(ScalarView::String(s)) = m.value {
            lemma_gzip_case(s);
        }
        assert(algorithm_name() =~= seq!['a', 'l', 'g', 'o', 'r', 'i', 't', 'h', 'm']);
    }
}

/// An upper-case ASCII letter folds together with its lower-case form and nothing else.
proof fn lemma_fold_letter(c: char, up: char, lo: char)
    requires
        65 <= (up as u32) <= 90,
        (lo as u32) == (up as u32) + 32,
    ensures
        (ascii_lower(c) == ascii_lower(up)) <==> (c == up || c == lo),
{
    let u = c as u32;
    if 65 <= u <= 90 {
        if ascii_lower(c) == ascii_lower(up) {
            assert(u == (up as u32));
        }
    } else {
        if ascii_lower(c) == ascii_lower(up) {
            assert(u == (lo as u32));
        }
    }
}

/// Equality with `GZIP` up to ASCII case is spelling it in any case.
proof fn lemma_gzip_case(s: Seq<char>)
    ensures
        eq_ignore_ascii_case(s, gzip_name()) <==> spells_gzip(s),
{
    let g = gzip_name();
    if s.len() == 4 {
        lemma_fold_letter(s[0], 'G', 'g');
        lemma_fold_letter(s[1], 'Z', 'z');
        lemma_fold_letter(s[2], 'I', 'i');
        lemma_fold_letter(s[3], 'P', 'p');
        assert(g[0] == 'G' && g[1] == 'Z' && g[2] == 'I' && g[3] == 'P');
        if spells_gzip(s) {
            assert forall|k: int| 0 <= k < s.len() implies ascii_lower(#[trigger] s[k]) == ascii_lower(g[k]) by {
                if k == 0 {
                } else if k == 1 {
                } else if k == 2 {
                } else {
                }
            }
        }
        if eq_ignore_ascii_case(s, g) {
            assert(ascii_lower(s[0]) == ascii_lower(g[0]));
            assert(ascii_lower(s[1]) == ascii_lower(g[1]));
            assert(ascii_lower(s[2]) == ascii_lower(g[2]));
            assert(ascii_lower(s[3]) == ascii_lower(g[3]));
        }
    }
}

/// The marker metric of a GZIP envelope.
pub open spec fn gzip_marker() -> MetricView {
    MetricView {
        name: Some(algorithm_name()),
        alias: None,
        timestamp: None,
        value: MetricValueView::Scalar(ScalarView::String(gzip_name())),
        is_historical: None,
        is_transient: None,
        metadata: None,
        properties: None,
    }
}

/// The compressed form of `raw` under `algo`.
pub open spec fn compressed(algo: Compression, raw: Seq<u8>) -> Seq<u8> {
    match algo {
        Compression::Deflate => deflated(raw),
        Compression::Gzip => gzipped(raw),
    }
}

/// What decompressing `body` under `algo` gives, or `None` when it fails.
pub open spec fn decompressed(algo: Compression, body: Seq<u8>) -> Option<Seq<u8>> {
    match algo {
        Compression::Deflate => inflated(body),
        Compression::Gzip => gunzipped(body),
    }
}

/// The envelope sealing `body` compressed with `algo`, keeping the inner payload's `seq`.
pub open spec fn envelope(seq: Option<u8>, algo: Compression, body: Seq<u8>) -> PayloadView {
    PayloadView {
        timestamp: None,
        metrics: if algo == Compression::Gzip {
            seq![gzip_marker()]
        } else {
            seq![]
        },
        seq,
        uuid: Some(compressed_uuid()),
        body: Some(body),
    }
}

/// Opening an envelope: it must carry the sentinel and a body; the body is
/// decompressed with the algorithm it names and decoded.
pub open spec fn open_envelope(env: PayloadView, types: Option<TypeIndex>) -> Result<PayloadView, ErrorKind> {
    if env.uuid != Some(compressed_uuid()) {
        Err(ErrorKind::ValueTypeMismatch)
    } else {
        match env.body {
            None => Err(ErrorKind::ValueTypeMismatch),
            Some(b) => match decompressed(envelope_algorithm(env), b) {
                None => Err(ErrorKind::Io),
                Some(raw) => decode_payload_spec(raw, types),
            },
        }
    }
}

/// Whether two strings are equal up to ASCII case.
pub fn eq_ignore_case(a: &str, b: &str) -> (r: bool)
    ensures
        r == eq_ignore_ascii_case(a@, b@),
{
    let x = crate::util::chars_of(a);
    let y = crate::util::chars_of(b);
    if x.len() != y.len() {
        return false;
    }
    let mut i: usize = 0;
    while i < x.len()
        invariant
            x@ == a@,
            y@ == b@,
            x@.len() == y@.len(),
            i <= x@.len(),
            forall|k: int| 0 <= k < i ==> ascii_lower(#[trigger] x@[k]) == ascii_lower(y@[k]),
        decreases x@.len() - i,
    {
        let c = x[i] as u32;
        let d = y[i] as u32;
        let lc: u32 = if 65 <= c && c <= 90 { c + 32 } else { c };
        let ld: u32 = if 65 <= d && d <= 90 { d + 32 } else { d };
        if lc != ld {
            return false;
        }
        i = i + 1;
    }
    true
}

/// Whether `m` is the `algorithm` metric marking a GZIP envelope.
fn is_gzip_metric(m: &Metric) -> (r: bool)
    ensures
        r == is_gzip_marker(m@),
{
    proof {
        reveal_strlit("algorithm");
        reveal_strlit("GZIP");
        assert("algorithm"@ =~= algorithm_name());
        assert("GZIP"@ =~= gzip_name());
    }
    let named = match &m.name {
        Some(n) => str_eq(n.as_str(), "algorithm"),
        None => false,
    };
    if !named {
        return false;
    }
    match &m.value {
        MetricValue::String(s) => eq_ignore_case(s.as_str(), "GZIP"),
        _ => false,
    }
}

/// Encode `payload` with `opts`, compress the bytes, and wrap them in a
/// compression-envelope [`Payload`]. It always succeeds; the envelope opens,
/// with any registry under which the payload survives encoding, to the payload.
pub fn compress(payload: &Payload, opts: EncodeOptions, algo: Compression) -> (res: Result<Payload, SparkplugError>)
    ensures
        res is Ok,
        res matches Ok(env) ==> env@ == envelope(
            payload@.seq,
            algo,
            compressed(algo, encoding(payload@, opts.strip_datatypes)),
        ) && decompressed(algo, compressed(algo, encoding(payload@, opts.strip_datatypes))) == Some(
            encoding(payload@, opts.strip_datatypes),
        ),
        res matches Ok(env) ==> forall|types: Option<TypeIndex>|
            payload_wf(payload@, opts.strip_datatypes, types) && encoding(payload@, opts.strip_datatypes).len()
                <= u64::MAX ==> #[trigger] open_envelope(env@, types) == Ok::<PayloadView, ErrorKind>(payload@),
{
    let raw = encode(payload, opts);
    let body = match algo {
        Compression::Deflate => deflate(raw.as_slice()),
        Compression::Gzip => gzip(raw.as_slice()),
    };
    let body = match body {
        Ok(b) => b,
        Err(e) => return Err(SparkplugError::Io(e)),
    };
    proof {
        reveal_strlit("SPBV1.0_COMPRESSED");
        assert(crate::COMPRESSED_PAYLOAD_UUID@ =~= compressed_uuid());
    }
    let mut env = Payload::new();
    env.uuid = Some(String::from_str(crate::COMPRESSED_PAYLOAD_UUID));
    env.seq = payload.seq;
    env.body = Some(body);
    if algo == Compression::Gzip {
        proof {
            reveal_strlit("algorithm");
            reveal_strlit("GZIP");
            assert("algorithm"@ =~= algorithm_name());
            assert("GZIP"@ =~= gzip_name());
        }
        let marker = Metric::new("algorithm", MetricValue::String(String::from_str("GZIP")));
        let ghost before = env.metrics@;
        env.metrics.push(marker);
        proof {
            assert(env.metrics@.drop_last() =~= before);
            assert(crate::model::metrics_view(before) =~= Seq::<MetricView>::empty());
            assert(env.metrics@.last()@ == gzip_marker());
            assert(crate::model::metrics_view(env.metrics@) =~= seq![gzip_marker()]);
        }
    }
    proof {
        let enc = encoding(payload@, opts.strip_datatypes);
        assert(env@ == envelope(payload@.seq, algo, compressed(algo, enc)));
        assert forall|types: Option<TypeIndex>|
            payload_wf(payload@, opts.strip_datatypes, types) && enc.len() <= u64::MAX implies
            #[trigger] open_envelope(env@, types) == Ok::<PayloadView, ErrorKind>(payload@) by {
            lemma_decompress_compress(payload@, opts.strip_datatypes, algo, types);
        }
    }
    Ok(env)
}

/// The algorithm an envelope names.
fn algorithm_of(env: &Payload) -> (algo: Compression)
    ensures
        algo == envelope_algorithm(env@),
{
    let ghost mv = crate::model::metrics_view(env.metrics@);
    proof {
        crate::model::lemma_metrics_view(env.metrics@);
    }
    let mut gz = false;
    let mut i: usize = 0;
    while i < env.metrics.len()
        invariant
            i <= env.metrics@.len(),
            mv == crate::model::metrics_view(env.metrics@),
            mv.len() == env.metrics@.len(),
            forall|k: int| 0 <= k < env.metrics@.len() ==> #[trigger] mv[k] == env.metrics@[k]@,
            gz == exists|k: int| 0 <= k < i && is_gzip_marker(#[trigger] mv[k]),
        decreases env.metrics@.len() - i,
    {
        let found = is_gzip_metric(&env.metrics[i]);
        proof {
            assert(mv[i as int] == env.metrics@[i as int]@);
            assert(found == is_gzip_marker(mv[i as int]));
        }
        if found {
            gz = true;
        }
        i = i + 1;
    }
    proof {
        assert(env@.metrics == mv);
        assert(i == mv.len());
    }
    if gz {
        Compression::Gzip
    } else {
        Compression::Deflate
    }
}

/// Reverse [`compress`]: decompress an envelope's body and decode the inner
/// payload. A payload that is not an envelope, or has no body, is
/// `ValueTypeMismatch`; a decompression failure is `Io`.
pub fn decompress(env: &Payload, types: Option<&AliasRegistry>) -> (res: Result<Payload, SparkplugError>)
    ensures
        match open_envelope(env@, types_index(types)) {
            Ok(v) => res matches Ok(p) && p@ == v,
            Err(k) => res matches Err(e) && e.kind() == k,
        },
{
    proof {
        reveal_strlit("SPBV1.0_COMPRESSED");
        assert(crate::COMPRESSED_PAYLOAD_UUID@ =~= compressed_uuid());
    }
    let sealed = match &env.uuid {
        Some(u) => str_eq(u.as_str(), crate::COMPRESSED_PAYLOAD_UUID),
        None => false,
    };
    if !sealed {
        return Err(SparkplugError::ValueTypeMismatch(String::from_str("payload is not a SPBV1.0_COMPRESSED envelope")));
    }
    let body = match &env.body {
        Some(b) => b,
        None => return Err(SparkplugError::ValueTypeMismatch(String::from_str("compressed envelope has no body"))),
    };
    let algo = algorithm_of(env);
    let raw = match algo {
        Compression::Deflate => inflate(body.as_slice()),
        Compression::Gzip => gunzip(body.as_slice()),
    };
    let raw = match raw {
        Ok(r) => r,
        Err(e) => return Err(SparkplugError::Io(e)),
    };
    decode(raw.as_slice(), types)
}

/// Opening an envelope that [`compress`] sealed gives back the payload that was
/// sealed in it, for every payload that survives encoding (see
/// [`crate::codec::roundtrip::lemma_decode_encode`]) and either algorithm. The
/// body's read-back is what [`compress`] states of every envelope it returns.
pub proof fn lemma_decompress_compress(p: PayloadView, strip: bool, algo: Compression, types: Option<TypeIndex>)
    requires
        payload_wf(p, strip, types),
        encoding(p, strip).len() <= u64::MAX,
        decompressed(algo, compressed(algo, encoding(p, strip))) == Some(encoding(p, strip)),
    ensures
        open_envelope(envelope(p.seq, algo, compressed(algo, encoding(p, strip))), types)
            == Ok::<PayloadView, ErrorKind>(p),
{
    let env = envelope(p.seq, algo, compressed(algo, encoding(p, strip)));
    if algo == Compression::Gzip {
        assert(is_gzip_marker(env.metrics[0]));
    } else {
        assert(env.metrics.len() == 0);
    }
    assert(envelope_algorithm(env) == algo);
    lemma_decode_encode(p, strip, types);
}

} // verus!
