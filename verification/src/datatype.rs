//! Sparkplug B data types (codes 0..=34).
//!
//! The integer codes are shared across the metric, DataSet-column, template-
//! parameter, and property-value sub-domains; this single [`DataType`] models
//! all of them and exposes classifiers (`is_basic`, `is_array`, ...).
use vstd::prelude::*;

use crate::error::SparkplugError;

verus! {

/// A Sparkplug B data type code.
///
/// Values `1..=14` are the *basic* scalar types (valid as DataSet columns,
/// template parameters, and property values). `15..=19` add UUID/DataSet/Bytes/
/// File/Template. `20..=21` are property-value-only (`PropertySet`/list).
/// `22..=34` are the array types.
#[derive(Clone, Copy, Debug, PartialEq, Eq, Structural, Hash)]
#[allow(missing_docs)]
pub enum DataType {
    Unknown,
    Int8,
    Int16,
    Int32,
    Int64,
    UInt8,
    UInt16,
    UInt32,
    UInt64,
    Float,
    Double,
    Boolean,
    String,
    DateTime,
    Text,
    Uuid,
    DataSet,
    Bytes,
    File,
    Template,
    PropertySet,
    PropertySetList,
    Int8Array,
    Int16Array,
    Int32Array,
    Int64Array,
    UInt8Array,
    UInt16Array,
    UInt32Array,
    UInt64Array,
    FloatArray,
    DoubleArray,
    BooleanArray,
    StringArray,
    DateTimeArray,
}

/// The wire code of a datatype.
pub open spec fn dt_code(dt: DataType) -> u32 {
    match dt {
        DataType::Unknown => 0,
        DataType::Int8 => 1,
        DataType::Int16 => 2,
        DataType::Int32 => 3,
        DataType::Int64 => 4,
        DataType::UInt8 => 5,
        DataType::UInt16 => 6,
        DataType::UInt32 => 7,
        DataType::UInt64 => 8,
        DataType::Float => 9,
        DataType::Double => 10,
        DataType::Boolean => 11,
        DataType::String => 12,
        DataType::DateTime => 13,
        DataType::Text => 14,
        DataType::Uuid => 15,
        DataType::DataSet => 16,
        DataType::Bytes => 17,
        DataType::File => 18,
        DataType::Template => 19,
        DataType::PropertySet => 20,
        DataType::PropertySetList => 21,
        DataType::Int8Array => 22,
        DataType::Int16Array => 23,
        DataType::Int32Array => 24,
        DataType::Int64Array => 25,
        DataType::UInt8Array => 26,
        DataType::UInt16Array => 27,
        DataType::UInt32Array => 28,
        DataType::UInt64Array => 29,
        DataType::FloatArray => 30,
        DataType::DoubleArray => 31,
        DataType::BooleanArray => 32,
        DataType::StringArray => 33,
        DataType::DateTimeArray => 34,
    }
}

/// The datatype with a given wire code, if the code is one of `0..=34`.
pub open spec fn dt_from_code(c: u32) -> Option<DataType> {
    if c == 0 { Some(DataType::Unknown) } else
    if c == 1 { Some(DataType::Int8) } else
    if c == 2 { Some(DataType::Int16) } else
    if c == 3 { Some(DataType::Int32) } else
    if c == 4 { Some(DataType::Int64) } else
    if c == 5 { Some(DataType::UInt8) } else
    if c == 6 { Some(DataType::UInt16) } else
    if c == 7 { Some(DataType::UInt32) } else
    if c == 8 { Some(DataType::UInt64) } else
    if c == 9 { Some(DataType::Float) } else
    if c == 10 { Some(DataType::Double) } else
    if c == 11 { Some(DataType::Boolean) } else
    if c == 12 { Some(DataType::String) } else
    if c == 13 { Some(DataType::DateTime) } else
    if c == 14 { Some(DataType::Text) } else
    if c == 15 { Some(DataType::Uuid) } else
    if c == 16 { Some(DataType::DataSet) } else
    if c == 17 { Some(DataType::Bytes) } else
    if c == 18 { Some(DataType::File) } else
    if c == 19 { Some(DataType::Template) } else
    if c == 20 { Some(DataType::PropertySet) } else
    if c == 21 { Some(DataType::PropertySetList) } else
    if c == 22 { Some(DataType::Int8Array) } else
    if c == 23 { Some(DataType::Int16Array) } else
    if c == 24 { Some(DataType::Int32Array) } else
    if c == 25 { Some(DataType::Int64Array) } else
    if c == 26 { Some(DataType::UInt8Array) } else
    if c == 27 { Some(DataType::UInt16Array) } else
    if c == 28 { Some(DataType::UInt32Array) } else
    if c == 29 { Some(DataType::UInt64Array) } else
    if c == 30 { Some(DataType::FloatArray) } else
    if c == 31 { Some(DataType::DoubleArray) } else
    if c == 32 { Some(DataType::BooleanArray) } else
    if c == 33 { Some(DataType::StringArray) } else
    if c == 34 { Some(DataType::DateTimeArray) } else
    { None }
}

/// The element width of the fixed-width array types.
pub open spec fn dt_width(dt: DataType) -> Option<usize> {
    match dt {
        DataType::Int8Array | DataType::UInt8Array => Some(1),
        DataType::Int16Array | DataType::UInt16Array => Some(2),
        DataType::Int32Array | DataType::UInt32Array | DataType::FloatArray => Some(4),
        DataType::Int64Array | DataType::UInt64Array | DataType::DoubleArray
        | DataType::DateTimeArray => Some(8),
        _ => None,
    }
}

/// The Sparkplug B datatype table: each datatype's wire code (`Float` is 9,
/// `Double` is 10, the arrays run from `Int8Array` = 22 to `DateTimeArray` = 34),
/// the same code read back to the same datatype, and the element width of each
/// fixed-width array type (every other datatype has none).
pub proof fn lemma_datatype_table()
    ensures
        dt_code(DataType::Unknown) == 0 && dt_from_code(0) == Some(DataType::Unknown),
        dt_code(DataType::Int8) == 1 && dt_from_code(1) == Some(DataType::Int8),
        dt_code(DataType::Int16) == 2 && dt_from_code(2) == Some(DataType::Int16),
        dt_code(DataType::Int32) == 3 && dt_from_code(3) == Some(DataType::Int32),
        dt_code(DataType::Int64) == 4 && dt_from_code(4) == Some(DataType::Int64),
        dt_code(DataType::UInt8) == 5 && dt_from_code(5) == Some(DataType::UInt8),
        dt_code(DataType::UInt16) == 6 && dt_from_code(6) == Some(DataType::UInt16),
        dt_code(DataType::UInt32) == 7 && dt_from_code(7) == Some(DataType::UInt32),
        dt_code(DataType::UInt64) == 8 && dt_from_code(8) == Some(DataType::UInt64),
        dt_code(DataType::Float) == 9 && dt_from_code(9) == Some(DataType::Float),
        dt_code(DataType::Double) == 10 && dt_from_code(10) == Some(DataType::Double),
        dt_code(DataType::Boolean) == 11 && dt_from_code(11) == Some(DataType::Boolean),
        dt_code(DataType::String) == 12 && dt_from_code(12) == Some(DataType::String),
        dt_code(DataType::DateTime) == 13 && dt_from_code(13) == Some(DataType::DateTime),
        dt_code(DataType::Text) == 14 && dt_from_code(14) == Some(DataType::Text),
        dt_code(DataType::Uuid) == 15 && dt_from_code(15) == Some(DataType::Uuid),
        dt_code(DataType::DataSet) == 16 && dt_from_code(16) == Some(DataType::DataSet),
        dt_code(DataType::Bytes) == 17 && dt_from_code(17) == Some(DataType::Bytes),
        dt_code(DataType::File) == 18 && dt_from_code(18) == Some(DataType::File),
        dt_code(DataType::Template) == 19 && dt_from_code(19) == Some(DataType::Template),
        dt_code(DataType::PropertySet) == 20 && dt_from_code(20) == Some(DataType::PropertySet),
        dt_code(DataType::PropertySetList) == 21 && dt_from_code(21) == Some(DataType::PropertySetList),
        dt_code(DataType::Int8Array) == 22 && dt_from_code(22) == Some(DataType::Int8Array),
        dt_code(DataType::Int16Array) == 23 && dt_from_code(23) == Some(DataType::Int16Array),
        dt_code(DataType::Int32Array) == 24 && dt_from_code(24) == Some(DataType::Int32Array),
        dt_code(DataType::Int64Array) == 25 && dt_from_code(25) == Some(DataType::Int64Array),
        dt_code(DataType::UInt8Array) == 26 && dt_from_code(26) == Some(DataType::UInt8Array),
        dt_code(DataType::UInt16Array) == 27 && dt_from_code(27) == Some(DataType::UInt16Array),
        dt_code(DataType::UInt32Array) == 28 && dt_from_code(28) == Some(DataType::UInt32Array),
        dt_code(DataType::UInt64Array) == 29 && dt_from_code(29) == Some(DataType::UInt64Array),
        dt_code(DataType::FloatArray) == 30 && dt_from_code(30) == Some(DataType::FloatArray),
        dt_code(DataType::DoubleArray) == 31 && dt_from_code(31) == Some(DataType::DoubleArray),
        dt_code(DataType::BooleanArray) == 32 && dt_from_code(32) == Some(DataType::BooleanArray),
        dt_code(DataType::StringArray) == 33 && dt_from_code(33) == Some(DataType::StringArray),
        dt_code(DataType::DateTimeArray) == 34 && dt_from_code(34) == Some(DataType::DateTimeArray),
        dt_width(DataType::Unknown) is None,
        dt_width(DataType::Int8) is None,
        dt_width(DataType::Int16) is None,
        dt_width(DataType::Int32) is None,
        dt_width(DataType::Int64) is None,
        dt_width(DataType::UInt8) is None,
        dt_width(DataType::UInt16) is None,
        dt_width(DataType::UInt32) is None,
        dt_width(DataType::UInt64) is None,
        dt_width(DataType::Float) is None,
        dt_width(DataType::Double) is None,
        dt_width(DataType::Boolean) is None,
        dt_width(DataType::String) is None,
        dt_width(DataType::DateTime) is None,
        dt_width(DataType::Text) is None,
        dt_width(DataType::Uuid) is None,
        dt_width(DataType::DataSet) is None,
        dt_width(DataType::Bytes) is None,
        dt_width(DataType::File) is None,
        dt_width(DataType::Template) is None,
        dt_width(DataType::PropertySet) is None,
        dt_width(DataType::PropertySetList) is None,
        dt_width(DataType::Int8Array) == Some(1usize),
        dt_width(DataType::Int16Array) == Some(2usize),
        dt_width(DataType::Int32Array) == Some(4usize),
        dt_width(DataType::Int64Array) == Some(8usize),
        dt_width(DataType::UInt8Array) == Some(1usize),
        dt_width(DataType::UInt16Array) == Some(2usize),
        dt_width(DataType::UInt32Array) == Some(4usize),
        dt_width(DataType::UInt64Array) == Some(8usize),
        dt_width(DataType::FloatArray) == Some(4usize),
        dt_width(DataType::DoubleArray) == Some(8usize),
        dt_width(DataType::BooleanArray) is None,
        dt_width(DataType::StringArray) is None,
        dt_width(DataType::DateTimeArray) == Some(8usize),
{
}

/// A datatype code and its datatype determine each other.
pub proof fn lemma_dt_code_roundtrip(dt: DataType, c: u32)
    ensures
        dt_from_code(dt_code(dt)) == Some(dt),
        dt_code(dt) <= 34,
        dt_from_code(c) is Some <==> c <= 34,
        dt_from_code(c) matches Some(d) ==> dt_code(d) == c,
{
}

/// The name of a data type's variant, as `{:?}` prints it.
pub open spec fn dt_name(d: DataType) -> Seq<char> {
    match d {
        DataType::Unknown => "Unknown"@,
        DataType::Int8 => "Int8"@,
        DataType::Int16 => "Int16"@,
        DataType::Int32 => "Int32"@,
        DataType::Int64 => "Int64"@,
        DataType::UInt8 => "UInt8"@,
        DataType::UInt16 => "UInt16"@,
        DataType::UInt32 => "UInt32"@,
        DataType::UInt64 => "UInt64"@,
        DataType::Float => "Float"@,
        DataType::Double => "Double"@,
        DataType::Boolean => "Boolean"@,
        DataType::String => "String"@,
        DataType::DateTime => "DateTime"@,
        DataType::Text => "Text"@,
        DataType::Uuid => "Uuid"@,
        DataType::DataSet => "DataSet"@,
        DataType::Bytes => "Bytes"@,
        DataType::File => "File"@,
        DataType::Template => "Template"@,
        DataType::PropertySet => "PropertySet"@,
        DataType::PropertySetList => "PropertySetList"@,
        DataType::Int8Array => "Int8Array"@,
        DataType::Int16Array => "Int16Array"@,
        DataType::Int32Array => "Int32Array"@,
        DataType::Int64Array => "Int64Array"@,
        DataType::UInt8Array => "UInt8Array"@,
        DataType::UInt16Array => "UInt16Array"@,
        DataType::UInt32Array => "UInt32Array"@,
        DataType::UInt64Array => "UInt64Array"@,
        DataType::FloatArray => "FloatArray"@,
        DataType::DoubleArray => "DoubleArray"@,
        DataType::BooleanArray => "BooleanArray"@,
        DataType::StringArray => "StringArray"@,
        DataType::DateTimeArray => "DateTimeArray"@,
    }
}

impl DataType {
    /// The integer code as it appears on the wire (`datatype` field).
    pub fn as_u32(self) -> (c: u32)
        ensures
            c == dt_code(self),
    {
        match self {
            DataType::Unknown => 0,
            DataType::Int8 => 1,
            DataType::Int16 => 2,
            DataType::Int32 => 3,
            DataType::Int64 => 4,
            DataType::UInt8 => 5,
            DataType::UInt16 => 6,
            DataType::UInt32 => 7,
            DataType::UInt64 => 8,
            DataType::Float => 9,
            DataType::Double => 10,
            DataType::Boolean => 11,
            DataType::String => 12,
            DataType::DateTime => 13,
            DataType::Text => 14,
            DataType::Uuid => 15,
            DataType::DataSet => 16,
            DataType::Bytes => 17,
            DataType::File => 18,
            DataType::Template => 19,
            DataType::PropertySet => 20,
            DataType::PropertySetList => 21,
            DataType::Int8Array => 22,
            DataType::Int16Array => 23,
            DataType::Int32Array => 24,
            DataType::Int64Array => 25,
            DataType::UInt8Array => 26,
            DataType::UInt16Array => 27,
            DataType::UInt32Array => 28,
            DataType::UInt64Array => 29,
            DataType::FloatArray => 30,
            DataType::DoubleArray => 31,
            DataType::BooleanArray => 32,
            DataType::StringArray => 33,
            DataType::DateTimeArray => 34,
        }
    }

    /// Parse a wire datatype code, rejecting unknown values.
    ///
    /// Returns [`SparkplugError::UnknownDataType`] for codes outside `0..=34`.
    pub fn from_u32(v: u32) -> (res: Result<Self, SparkplugError>)
        ensures
            match res {
                Ok(dt) => dt_from_code(v) == Some(dt),
                Err(e) => dt_from_code(v) is None && e == SparkplugError::UnknownDataType(v),
            },
    {
        let ty = match v {
            0 => DataType::Unknown,
            1 => DataType::Int8,
            2 => DataType::Int16,
            3 => DataType::Int32,
            4 => DataType::Int64,
            5 => DataType::UInt8,
            6 => DataType::UInt16,
            7 => DataType::UInt32,
            8 => DataType::UInt64,
            9 => DataType::Float,
            10 => DataType::Double,
            11 => DataType::Boolean,
            12 => DataType::String,
            13 => DataType::DateTime,
            14 => DataType::Text,
            15 => DataType::Uuid,
            16 => DataType::DataSet,
            17 => DataType::Bytes,
            18 => DataType::File,
            19 => DataType::Template,
            20 => DataType::PropertySet,
            21 => DataType::PropertySetList,
            22 => DataType::Int8Array,
            23 => DataType::Int16Array,
            24 => DataType::Int32Array,
            25 => DataType::Int64Array,
            26 => DataType::UInt8Array,
            27 => DataType::UInt16Array,
            28 => DataType::UInt32Array,
            29 => DataType::UInt64Array,
            30 => DataType::FloatArray,
            31 => DataType::DoubleArray,
            32 => DataType::BooleanArray,
            33 => DataType::StringArray,
            34 => DataType::DateTimeArray,
            other => return Err(SparkplugError::UnknownDataType(other)),
        };
        Ok(ty)
    }

    /// `true` for the basic scalar types `1..=14`, the only types permitted as
    /// DataSet columns and template parameters.
    pub fn is_basic(self) -> (b: bool)
        ensures
            b == (1 <= dt_code(self) <= 14),
    {
        let c = self.as_u32();
        1 <= c && c <= 14
    }

    /// `true` for the array types `22..=34`.
    pub fn is_array(self) -> (b: bool)
        ensures
            b == (22 <= dt_code(self) <= 34),
    {
        let c = self.as_u32();
        22 <= c && c <= 34
    }

    /// For numeric/temporal array types, the fixed little-endian element width
    /// in bytes. `BooleanArray`/`StringArray` use special framing and return
    /// `None`, as do non-array types.
    pub fn array_element_width(self) -> (w: Option<usize>)
        ensures
            w == dt_width(self),
    {
        match self {
            DataType::Int8Array | DataType::UInt8Array => Some(1),
            DataType::Int16Array | DataType::UInt16Array => Some(2),
            DataType::Int32Array | DataType::UInt32Array | DataType::FloatArray => Some(4),
            DataType::Int64Array | DataType::UInt64Array | DataType::DoubleArray
            | DataType::DateTimeArray => Some(8),
            _ => None,
        }
    }

    /// The variant name (as `{:?}` prints it), used in error messages.
    pub(crate) fn name(self) -> (s: &'static str)
        ensures
            s@ == dt_name(self),
    {
        match self {
            DataType::Unknown => "Unknown",
            DataType::Int8 => "Int8",
            DataType::Int16 => "Int16",
            DataType::Int32 => "Int32",
            DataType::Int64 => "Int64",
            DataType::UInt8 => "UInt8",
            DataType::UInt16 => "UInt16",
            DataType::UInt32 => "UInt32",
            DataType::UInt64 => "UInt64",
            DataType::Float => "Float",
            DataType::Double => "Double",
            DataType::Boolean => "Boolean",
            DataType::String => "String",
            DataType::DateTime => "DateTime",
            DataType::Text => "Text",
            DataType::Uuid => "Uuid",
            DataType::DataSet => "DataSet",
            DataType::Bytes => "Bytes",
            DataType::File => "File",
            DataType::Template => "Template",
            DataType::PropertySet => "PropertySet",
            DataType::PropertySetList => "PropertySetList",
            DataType::Int8Array => "Int8Array",
            DataType::Int16Array => "Int16Array",
            DataType::Int32Array => "Int32Array",
            DataType::Int64Array => "Int64Array",
            DataType::UInt8Array => "UInt8Array",
            DataType::UInt16Array => "UInt16Array",
            DataType::UInt32Array => "UInt32Array",
            DataType::UInt64Array => "UInt64Array",
            DataType::FloatArray => "FloatArray",
            DataType::DoubleArray => "DoubleArray",
            DataType::BooleanArray => "BooleanArray",
            DataType::StringArray => "StringArray",
            DataType::DateTimeArray => "DateTimeArray",
        }
    }
}

} // verus!
