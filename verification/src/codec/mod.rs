//! Sparkplug B protobuf (proto2) codec, hand-written.
//!
//! The codec is pure: it has no notion of seq/bdSeq/STATE/transport. Encoding is
//! total; decoding never panics on hostile input. [`encode`] is specified by the
//! field lists of [`fields`], [`decode`] by the step functions of [`parse`], and
//! [`roundtrip`] proves that decoding an encoding gives the payload back.
use vstd::prelude::*;

pub mod arrays;
pub mod decode;
pub mod encode;
pub mod fields;
pub mod parse;
pub mod roundtrip;
pub mod wire;

use crate::alias::AliasRegistry;
use crate::codec::decode::{decode_payload, types_index};
use crate::codec::encode::encode_payload;
use crate::codec::fields::payload_fields;
use crate::codec::parse::decode_payload_spec;
use crate::codec::wire::fields_bytes;
use crate::error::SparkplugError;
use crate::model::{Payload, PayloadView};

verus! {

/// Options controlling how a payload is encoded.
#[derive(Clone, Copy, Debug, Default)]
pub struct EncodeOptions {
    /// When `true`, per-metric `datatype` fields are omitted (DATA/CMD messages).
    /// Decoding such a payload then requires an [`AliasRegistry`] built from the
    /// corresponding birth.
    pub strip_datatypes: bool,
}

impl EncodeOptions {
    /// Options for a BIRTH/DEATH message: datatypes included.
    pub fn birth() -> (o: Self)
        ensures
            !o.strip_datatypes,
    {
        EncodeOptions { strip_datatypes: false }
    }

    /// Options for a DATA/CMD message: datatypes stripped.
    pub fn data() -> (o: Self)
        ensures
            o.strip_datatypes,
    {
        EncodeOptions { strip_datatypes: true }
    }
}

/// The Sparkplug B protobuf encoding of a payload.
pub open spec fn encoding(p: PayloadView, strip: bool) -> Seq<u8> {
    fields_bytes(payload_fields(p, strip))
}

/// Encode a [`Payload`] to Sparkplug B protobuf bytes.
pub fn encode(payload: &Payload, opts: EncodeOptions) -> (out: Vec<u8>)
    ensures
        out@ == encoding(payload@, opts.strip_datatypes),
{
    encode_payload(payload, opts.strip_datatypes)
}

/// Decode Sparkplug B protobuf bytes into a [`Payload`].
///
/// Pass `types` (an [`AliasRegistry`] built from the birth) to recover datatypes
/// for stripped DATA/CMD metrics; pass `None` for BIRTH/DEATH payloads, which
/// carry their own datatypes. Malformed input (truncation, invalid wire/field
/// types, unknown datatypes, a stripped metric whose datatype cannot be
/// recovered, an inconsistent DataSet/PropertySet, or excessive nesting) gives
/// the error that [`decode_payload_spec`] names.
pub fn decode(bytes: &[u8], types: Option<&AliasRegistry>) -> (res: Result<Payload, SparkplugError>)
    ensures
        match decode_payload_spec(bytes@, types_index(types)) {
            Ok(v) => res matches Ok(p) && p@ == v,
            Err(k) => res matches Err(e) && e.kind() == k,
        },
{
    decode_payload(bytes, types)
}

} // verus!
