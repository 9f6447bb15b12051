//! The crate-wide error type.
use vstd::prelude::*;

verus! {

/// The I/O error type of std, carried by [`SparkplugError::Io`].
#[verifier::external_type_specification]
#[verifier::external_body]
pub struct ExIoError(std::io::Error);

/// Errors produced while building, encoding, decoding, or parsing Sparkplug B data.
#[derive(Debug)]
#[non_exhaustive]
pub enum SparkplugError {
    /// A topic string was not a valid Sparkplug B topic.
    InvalidTopic(String),
    /// A Group/Edge-Node/Device identifier was empty or contained a reserved
    /// character (`+`, `/`, `#`).
    InvalidId(String),
    /// The protobuf byte stream ended unexpectedly.
    Truncated,
    /// A protobuf varint exceeded 64 bits.
    VarintOverflow,
    /// A protobuf field used a wire type the schema does not allow.
    InvalidWireType(u8),
    /// A string field was not valid UTF-8.
    InvalidUtf8,
    /// A datatype code on the wire was not one of the enumerated Sparkplug data types.
    UnknownDataType(u32),
    /// A DATA/CMD metric omitted its datatype and it could not be recovered
    /// from a prior birth (by name or alias).
    MissingDataType(String),
    /// A packed numeric array had a length that is not a multiple of the element width.
    ArrayLength {
        /// The byte length found on the wire.
        len: usize,
        /// The expected per-element width in bytes.
        width: usize,
    },
    /// A DataSet's `columns`/`types`/`rows` shapes were inconsistent.
    DataSetShape(String),
    /// A metric's value did not match the field set expected for its datatype.
    ValueTypeMismatch(String),
    /// Decoding hit the maximum nesting depth (defends against hostile inputs).
    RecursionLimit,
    /// A STATE JSON payload was malformed.
    InvalidState(String),
    /// An I/O error (bdSeq persistence, compression).
    Io(std::io::Error),
}

/// The kind of a [`SparkplugError`]: the variant with its integer payload, without
/// the human-readable message. Contracts speak of errors through this view.
#[derive(PartialEq, Eq, Structural, Clone, Copy, Debug)]
pub enum ErrorKind {
    InvalidTopic,
    InvalidId,
    Truncated,
    VarintOverflow,
    InvalidWireType(u8),
    InvalidUtf8,
    UnknownDataType(u32),
    MissingDataType,
    ArrayLength(usize, usize),
    DataSetShape,
    ValueTypeMismatch,
    RecursionLimit,
    InvalidState,
    Io,
}

impl SparkplugError {
    /// The kind of this error.
    pub open spec fn kind(&self) -> ErrorKind {
        match self {
            SparkplugError::InvalidTopic(_) => ErrorKind::InvalidTopic,
            SparkplugError::InvalidId(_) => ErrorKind::InvalidId,
            SparkplugError::Truncated => ErrorKind::Truncated,
            SparkplugError::VarintOverflow => ErrorKind::VarintOverflow,
            SparkplugError::InvalidWireType(w) => ErrorKind::InvalidWireType(*w),
            SparkplugError::InvalidUtf8 => ErrorKind::InvalidUtf8,
            SparkplugError::UnknownDataType(c) => ErrorKind::UnknownDataType(*c),
            SparkplugError::MissingDataType(_) => ErrorKind::MissingDataType,
            SparkplugError::ArrayLength { len, width } => ErrorKind::ArrayLength(*len, *width),
            SparkplugError::DataSetShape(_) => ErrorKind::DataSetShape,
            SparkplugError::ValueTypeMismatch(_) => ErrorKind::ValueTypeMismatch,
            SparkplugError::RecursionLimit => ErrorKind::RecursionLimit,
            SparkplugError::InvalidState(_) => ErrorKind::InvalidState,
            SparkplugError::Io(_) => ErrorKind::Io,
        }
    }

    /// Build an error of the given kind, with `msg` as its message where the kind
    /// carries one.
    pub fn from_kind(kind: ErrorKind, msg: String) -> (e: SparkplugError)
        requires
            kind != ErrorKind::Io,
        ensures
            e.kind() == kind,
    {
        match kind {
            ErrorKind::InvalidTopic => SparkplugError::InvalidTopic(msg),
            ErrorKind::InvalidId => SparkplugError::InvalidId(msg),
            ErrorKind::Truncated => SparkplugError::Truncated,
            ErrorKind::VarintOverflow => SparkplugError::VarintOverflow,
            ErrorKind::InvalidWireType(w) => SparkplugError::InvalidWireType(w),
            ErrorKind::InvalidUtf8 => SparkplugError::InvalidUtf8,
            ErrorKind::UnknownDataType(c) => SparkplugError::UnknownDataType(c),
            ErrorKind::MissingDataType => SparkplugError::MissingDataType(msg),
            ErrorKind::ArrayLength(len, width) => SparkplugError::ArrayLength { len, width },
            ErrorKind::DataSetShape => SparkplugError::DataSetShape(msg),
            ErrorKind::ValueTypeMismatch => SparkplugError::ValueTypeMismatch(msg),
            ErrorKind::RecursionLimit => SparkplugError::RecursionLimit,
            ErrorKind::InvalidState => SparkplugError::InvalidState(msg),
            ErrorKind::Io => SparkplugError::InvalidState(msg),
        }
    }
}

} // verus!
