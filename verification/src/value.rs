//! Typed value enums. A [`MetricValue`] fuses the Sparkplug datatype with its
//! payload, so a type/value mismatch is unrepresentable.
//!
//! Floating-point values are held as their IEEE-754 bit patterns (`f32::to_bits`,
//! `f64::to_bits`), which is exactly what the wire carries.
use vstd::prelude::*;

use crate::datatype::DataType;
use crate::error::SparkplugError;
use crate::model::{
    DataSet, DataSetView, PropertySet, PropertySetList, PropertySetListView, PropertySetView,
    Template, TemplateView,
};

verus! {

/// A basic scalar value (datatype codes 1..=14), as a mathematical value.
pub enum ScalarView {
    Int8(i8),
    Int16(i16),
    Int32(i32),
    Int64(i64),
    UInt8(u8),
    UInt16(u16),
    UInt32(u32),
    UInt64(u64),
    Float(u32),
    Double(u64),
    Boolean(bool),
    String(Seq<char>),
    Text(Seq<char>),
    DateTime(i64),
}

/// The datatype of a basic scalar.
pub open spec fn scalar_dt(s: ScalarView) -> DataType {
    match s {
        ScalarView::Int8(_) => DataType::Int8,
        ScalarView::Int16(_) => DataType::Int16,
        ScalarView::Int32(_) => DataType::Int32,
        ScalarView::Int64(_) => DataType::Int64,
        ScalarView::UInt8(_) => DataType::UInt8,
        ScalarView::UInt16(_) => DataType::UInt16,
        ScalarView::UInt32(_) => DataType::UInt32,
        ScalarView::UInt64(_) => DataType::UInt64,
        ScalarView::Float(_) => DataType::Float,
        ScalarView::Double(_) => DataType::Double,
        ScalarView::Boolean(_) => DataType::Boolean,
        ScalarView::String(_) => DataType::String,
        ScalarView::Text(_) => DataType::Text,
        ScalarView::DateTime(_) => DataType::DateTime,
    }
}

/// The mathematical value of a [`MetricValue`].
pub enum MetricValueView {
    Scalar(ScalarView),
    Uuid(Seq<char>),
    Bytes(Seq<u8>),
    File(Seq<u8>),
    DataSet(DataSetView),
    Template(TemplateView),
    Int8Array(Seq<i8>),
    Int16Array(Seq<i16>),
    Int32Array(Seq<i32>),
    Int64Array(Seq<i64>),
    UInt8Array(Seq<u8>),
    UInt16Array(Seq<u16>),
    UInt32Array(Seq<u32>),
    UInt64Array(Seq<u64>),
    FloatArray(Seq<u32>),
    DoubleArray(Seq<u64>),
    BooleanArray(Seq<bool>),
    StringArray(Seq<Seq<char>>),
    DateTimeArray(Seq<i64>),
    Null(DataType),
}

/// The datatype a metric value declares on the wire.
pub open spec fn metric_value_dt(v: MetricValueView) -> DataType {
    match v {
        MetricValueView::Scalar(s) => scalar_dt(s),
        MetricValueView::Uuid(_) => DataType::Uuid,
        MetricValueView::Bytes(_) => DataType::Bytes,
        MetricValueView::File(_) => DataType::File,
        MetricValueView::DataSet(_) => DataType::DataSet,
        MetricValueView::Template(_) => DataType::Template,
        MetricValueView::Int8Array(_) => DataType::Int8Array,
        MetricValueView::Int16Array(_) => DataType::Int16Array,
        MetricValueView::Int32Array(_) => DataType::Int32Array,
        MetricValueView::Int64Array(_) => DataType::Int64Array,
        MetricValueView::UInt8Array(_) => DataType::UInt8Array,
        MetricValueView::UInt16Array(_) => DataType::UInt16Array,
        MetricValueView::UInt32Array(_) => DataType::UInt32Array,
        MetricValueView::UInt64Array(_) => DataType::UInt64Array,
        MetricValueView::FloatArray(_) => DataType::FloatArray,
        MetricValueView::DoubleArray(_) => DataType::DoubleArray,
        MetricValueView::BooleanArray(_) => DataType::BooleanArray,
        MetricValueView::StringArray(_) => DataType::StringArray,
        MetricValueView::DateTimeArray(_) => DataType::DateTimeArray,
        MetricValueView::Null(dt) => dt,
    }
}

/// The mathematical value of a [`PropertyValue`].
pub enum PropertyValueView {
    Scalar(ScalarView),
    PropertySet(PropertySetView),
    PropertySetList(PropertySetListView),
    Null(DataType),
}

/// The datatype a property value declares on the wire.
pub open spec fn property_value_dt(v: PropertyValueView) -> DataType {
    match v {
        PropertyValueView::Scalar(s) => scalar_dt(s),
        PropertyValueView::PropertySet(_) => DataType::PropertySet,
        PropertyValueView::PropertySetList(_) => DataType::PropertySetList,
        PropertyValueView::Null(dt) => dt,
    }
}

/// The value carried by a [`crate::model::Metric`].
///
/// The active variant determines the on-wire [`DataType`]; the sole exception is
/// [`MetricValue::Null`], which carries its declared datatype explicitly.
#[derive(Debug, PartialEq)]
#[allow(missing_docs)]
pub enum MetricValue {
    Int8(i8),
    Int16(i16),
    Int32(i32),
    Int64(i64),
    UInt8(u8),
    UInt16(u16),
    UInt32(u32),
    UInt64(u64),
    /// IEEE-754 bits of an `f32`.
    Float(u32),
    /// IEEE-754 bits of an `f64`.
    Double(u64),
    Boolean(bool),
    String(String),
    Text(String),
    Uuid(String),
    /// Epoch milliseconds, UTC.
    DateTime(i64),
    Bytes(Vec<u8>),
    File(Vec<u8>),
    DataSet(DataSet),
    Template(Box<Template>),
    Int8Array(Vec<i8>),
    Int16Array(Vec<i16>),
    Int32Array(Vec<i32>),
    Int64Array(Vec<i64>),
    UInt8Array(Vec<u8>),
    UInt16Array(Vec<u16>),
    UInt32Array(Vec<u32>),
    UInt64Array(Vec<u64>),
    /// IEEE-754 bits of each `f32`.
    FloatArray(Vec<u32>),
    /// IEEE-754 bits of each `f64`.
    DoubleArray(Vec<u64>),
    BooleanArray(Vec<bool>),
    StringArray(Vec<String>),
    DateTimeArray(Vec<i64>),
    /// A null value with its declared datatype (encoded as `is_null = true`).
    Null(DataType),
}

/// The views of a vector of strings.
pub open spec fn strings_view(v: Seq<String>) -> Seq<Seq<char>>
    decreases v.len(),
{
    if v.len() == 0 {
        seq![]
    } else {
        strings_view(v.drop_last()).push(v.last()@)
    }
}

/// The mathematical value of a metric value.
pub open spec fn metric_value_view(v: MetricValue) -> MetricValueView
    decreases v,
{
    match v {
        MetricValue::Int8(x) => MetricValueView::Scalar(ScalarView::Int8(x)),
        MetricValue::Int16(x) => MetricValueView::Scalar(ScalarView::Int16(x)),
        MetricValue::Int32(x) => MetricValueView::Scalar(ScalarView::Int32(x)),
        MetricValue::Int64(x) => MetricValueView::Scalar(ScalarView::Int64(x)),
        MetricValue::UInt8(x) => MetricValueView::Scalar(ScalarView::UInt8(x)),
        MetricValue::UInt16(x) => MetricValueView::Scalar(ScalarView::UInt16(x)),
        MetricValue::UInt32(x) => MetricValueView::Scalar(ScalarView::UInt32(x)),
        MetricValue::UInt64(x) => MetricValueView::Scalar(ScalarView::UInt64(x)),
        MetricValue::Float(x) => MetricValueView::Scalar(ScalarView::Float(x)),
        MetricValue::Double(x) => MetricValueView::Scalar(ScalarView::Double(x)),
        MetricValue::Boolean(x) => MetricValueView::Scalar(ScalarView::Boolean(x)),
        MetricValue::String(x) => MetricValueView::Scalar(ScalarView::String(x@)),
        MetricValue::Text(x) => MetricValueView::Scalar(ScalarView::Text(x@)),
        MetricValue::DateTime(x) => MetricValueView::Scalar(ScalarView::DateTime(x)),
        MetricValue::Uuid(x) => MetricValueView::Uuid(x@),
        MetricValue::Bytes(x) => MetricValueView::Bytes(x@),
        MetricValue::File(x) => MetricValueView::File(x@),
        MetricValue::DataSet(d) => MetricValueView::DataSet(crate::model::dataset_view(d)),
        MetricValue::Template(t) => MetricValueView::Template(crate::model::template_view(*t)),
        MetricValue::Int8Array(x) => MetricValueView::Int8Array(x@),
        MetricValue::Int16Array(x) => MetricValueView::Int16Array(x@),
        MetricValue::Int32Array(x) => MetricValueView::Int32Array(x@),
        MetricValue::Int64Array(x) => MetricValueView::Int64Array(x@),
        MetricValue::UInt8Array(x) => MetricValueView::UInt8Array(x@),
        MetricValue::UInt16Array(x) => MetricValueView::UInt16Array(x@),
        MetricValue::UInt32Array(x) => MetricValueView::UInt32Array(x@),
        MetricValue::UInt64Array(x) => MetricValueView::UInt64Array(x@),
        MetricValue::FloatArray(x) => MetricValueView::FloatArray(x@),
        MetricValue::DoubleArray(x) => MetricValueView::DoubleArray(x@),
        MetricValue::BooleanArray(x) => MetricValueView::BooleanArray(x@),
        MetricValue::StringArray(x) => MetricValueView::StringArray(strings_view(x@)),
        MetricValue::DateTimeArray(x) => MetricValueView::DateTimeArray(x@),
        MetricValue::Null(dt) => MetricValueView::Null(dt),
    }
}

impl View for MetricValue {
    type V = MetricValueView;

    open spec fn view(&self) -> MetricValueView {
        metric_value_view(*self)
    }
}

impl MetricValue {
    /// The Sparkplug [`DataType`] this value declares on the wire.
    pub fn datatype(&self) -> (dt: DataType)
        ensures
            dt == metric_value_dt(self@),
    {
        match self {
            MetricValue::Int8(_) => DataType::Int8,
            MetricValue::Int16(_) => DataType::Int16,
            MetricValue::Int32(_) => DataType::Int32,
            MetricValue::Int64(_) => DataType::Int64,
            MetricValue::UInt8(_) => DataType::UInt8,
            MetricValue::UInt16(_) => DataType::UInt16,
            MetricValue::UInt32(_) => DataType::UInt32,
            MetricValue::UInt64(_) => DataType::UInt64,
            MetricValue::Float(_) => DataType::Float,
            MetricValue::Double(_) => DataType::Double,
            MetricValue::Boolean(_) => DataType::Boolean,
            MetricValue::String(_) => DataType::String,
            MetricValue::Text(_) => DataType::Text,
            MetricValue::Uuid(_) => DataType::Uuid,
            MetricValue::DateTime(_) => DataType::DateTime,
            MetricValue::Bytes(_) => DataType::Bytes,
            MetricValue::File(_) => DataType::File,
            MetricValue::DataSet(_) => DataType::DataSet,
            MetricValue::Template(_) => DataType::Template,
            MetricValue::Int8Array(_) => DataType::Int8Array,
            MetricValue::Int16Array(_) => DataType::Int16Array,
            MetricValue::Int32Array(_) => DataType::Int32Array,
            MetricValue::Int64Array(_) => DataType::Int64Array,
            MetricValue::UInt8Array(_) => DataType::UInt8Array,
            MetricValue::UInt16Array(_) => DataType::UInt16Array,
            MetricValue::UInt32Array(_) => DataType::UInt32Array,
            MetricValue::UInt64Array(_) => DataType::UInt64Array,
            MetricValue::FloatArray(_) => DataType::FloatArray,
            MetricValue::DoubleArray(_) => DataType::DoubleArray,
            MetricValue::BooleanArray(_) => DataType::BooleanArray,
            MetricValue::StringArray(_) => DataType::StringArray,
            MetricValue::DateTimeArray(_) => DataType::DateTimeArray,
            MetricValue::Null(dt) => *dt,
        }
    }

    /// Whether this is a null value (`is_null = true` on the wire).
    pub fn is_null(&self) -> (b: bool)
        ensures
            b == (self@ is Null),
    {
        match self {
            MetricValue::Null(_) => true,
            _ => false,
        }
    }

    /// Construct a checked null value, rejecting datatypes that are invalid for
    /// a metric (`Unknown`, and the property-only `PropertySet`/`PropertySetList`).
    pub fn null(dt: DataType) -> (res: Result<Self, SparkplugError>)
        ensures
            match res {
                Ok(v) => v@ == MetricValueView::Null(dt) && dt != DataType::Unknown
                    && dt != DataType::PropertySet && dt != DataType::PropertySetList,
                Err(e) => e is ValueTypeMismatch && (dt == DataType::Unknown
                    || dt == DataType::PropertySet || dt == DataType::PropertySetList),
            },
    {
        match dt {
            DataType::Unknown | DataType::PropertySet | DataType::PropertySetList => {
                let mut msg = String::from_str(dt.name());
                msg.append(" is not a valid metric datatype");
                Err(SparkplugError::ValueTypeMismatch(msg))
            },
            _ => Ok(MetricValue::Null(dt)),
        }
    }
}

/// A single cell value inside a [`DataSet`] row. Only basic scalar types are
/// valid; a `Null` cell encodes as an unset value oneof.
#[derive(Debug, PartialEq)]
#[allow(missing_docs)]
pub enum DataSetValue {
    Int8(i8),
    Int16(i16),
    Int32(i32),
    Int64(i64),
    UInt8(u8),
    UInt16(u16),
    UInt32(u32),
    UInt64(u64),
    /// IEEE-754 bits of an `f32`.
    Float(u32),
    /// IEEE-754 bits of an `f64`.
    Double(u64),
    Boolean(bool),
    String(String),
    Text(String),
    DateTime(i64),
    Null,
}

impl Clone for DataSetValue {
    fn clone(&self) -> (c: Self)
        ensures
            c == *self,
    {
        match self {
            DataSetValue::Int8(x) => DataSetValue::Int8(*x),
            DataSetValue::Int16(x) => DataSetValue::Int16(*x),
            DataSetValue::Int32(x) => DataSetValue::Int32(*x),
            DataSetValue::Int64(x) => DataSetValue::Int64(*x),
            DataSetValue::UInt8(x) => DataSetValue::UInt8(*x),
            DataSetValue::UInt16(x) => DataSetValue::UInt16(*x),
            DataSetValue::UInt32(x) => DataSetValue::UInt32(*x),
            DataSetValue::UInt64(x) => DataSetValue::UInt64(*x),
            DataSetValue::Float(x) => DataSetValue::Float(*x),
            DataSetValue::Double(x) => DataSetValue::Double(*x),
            DataSetValue::Boolean(x) => DataSetValue::Boolean(*x),
            DataSetValue::String(s) => DataSetValue::String(s.clone()),
            DataSetValue::Text(s) => DataSetValue::Text(s.clone()),
            DataSetValue::DateTime(x) => DataSetValue::DateTime(*x),
            DataSetValue::Null => DataSetValue::Null,
        }
    }
}

impl View for DataSetValue {
    /// A cell is a basic scalar, or `None` for a null cell.
    type V = Option<ScalarView>;

    open spec fn view(&self) -> Option<ScalarView> {
        match self {
            DataSetValue::Int8(x) => Some(ScalarView::Int8(*x)),
            DataSetValue::Int16(x) => Some(ScalarView::Int16(*x)),
            DataSetValue::Int32(x) => Some(ScalarView::Int32(*x)),
            DataSetValue::Int64(x) => Some(ScalarView::Int64(*x)),
            DataSetValue::UInt8(x) => Some(ScalarView::UInt8(*x)),
            DataSetValue::UInt16(x) => Some(ScalarView::UInt16(*x)),
            DataSetValue::UInt32(x) => Some(ScalarView::UInt32(*x)),
            DataSetValue::UInt64(x) => Some(ScalarView::UInt64(*x)),
            DataSetValue::Float(x) => Some(ScalarView::Float(*x)),
            DataSetValue::Double(x) => Some(ScalarView::Double(*x)),
            DataSetValue::Boolean(x) => Some(ScalarView::Boolean(*x)),
            DataSetValue::String(x) => Some(ScalarView::String(x@)),
            DataSetValue::Text(x) => Some(ScalarView::Text(x@)),
            DataSetValue::DateTime(x) => Some(ScalarView::DateTime(*x)),
            DataSetValue::Null => None,
        }
    }
}

impl DataSetValue {
    /// The Sparkplug [`DataType`] this cell declares, or `None` for `Null`.
    pub fn datatype(&self) -> (dt: Option<DataType>)
        ensures
            dt == (match self@ {
                Some(s) => Some(scalar_dt(s)),
                None => None,
            }),
    {
        let dt = match self {
            DataSetValue::Int8(_) => DataType::Int8,
            DataSetValue::Int16(_) => DataType::Int16,
            DataSetValue::Int32(_) => DataType::Int32,
            DataSetValue::Int64(_) => DataType::Int64,
            DataSetValue::UInt8(_) => DataType::UInt8,
            DataSetValue::UInt16(_) => DataType::UInt16,
            DataSetValue::UInt32(_) => DataType::UInt32,
            DataSetValue::UInt64(_) => DataType::UInt64,
            DataSetValue::Float(_) => DataType::Float,
            DataSetValue::Double(_) => DataType::Double,
            DataSetValue::Boolean(_) => DataType::Boolean,
            DataSetValue::String(_) => DataType::String,
            DataSetValue::Text(_) => DataType::Text,
            DataSetValue::DateTime(_) => DataType::DateTime,
            DataSetValue::Null => return None,
        };
        Some(dt)
    }

    /// Whether this cell is null (unset value oneof on the wire).
    pub fn is_null(&self) -> (b: bool)
        ensures
            b == (self@ is None),
    {
        match self {
            DataSetValue::Null => true,
            _ => false,
        }
    }
}

/// A value inside a [`PropertySet`]: basic scalars plus recursive property sets.
#[derive(Debug, PartialEq)]
#[allow(missing_docs)]
pub enum PropertyValue {
    Int8(i8),
    Int16(i16),
    Int32(i32),
    Int64(i64),
    UInt8(u8),
    UInt16(u16),
    UInt32(u32),
    UInt64(u64),
    /// IEEE-754 bits of an `f32`.
    Float(u32),
    /// IEEE-754 bits of an `f64`.
    Double(u64),
    Boolean(bool),
    String(String),
    Text(String),
    DateTime(i64),
    PropertySet(PropertySet),
    PropertySetList(PropertySetList),
    /// A null property value with its declared datatype.
    Null(DataType),
}

/// The mathematical value of a property value.
pub open spec fn property_value_view(v: PropertyValue) -> PropertyValueView
    decreases v,
{
    match v {
        PropertyValue::Int8(x) => PropertyValueView::Scalar(ScalarView::Int8(x)),
        PropertyValue::Int16(x) => PropertyValueView::Scalar(ScalarView::Int16(x)),
        PropertyValue::Int32(x) => PropertyValueView::Scalar(ScalarView::Int32(x)),
        PropertyValue::Int64(x) => PropertyValueView::Scalar(ScalarView::Int64(x)),
        PropertyValue::UInt8(x) => PropertyValueView::Scalar(ScalarView::UInt8(x)),
        PropertyValue::UInt16(x) => PropertyValueView::Scalar(ScalarView::UInt16(x)),
        PropertyValue::UInt32(x) => PropertyValueView::Scalar(ScalarView::UInt32(x)),
        PropertyValue::UInt64(x) => PropertyValueView::Scalar(ScalarView::UInt64(x)),
        PropertyValue::Float(x) => PropertyValueView::Scalar(ScalarView::Float(x)),
        PropertyValue::Double(x) => PropertyValueView::Scalar(ScalarView::Double(x)),
        PropertyValue::Boolean(x) => PropertyValueView::Scalar(ScalarView::Boolean(x)),
        PropertyValue::String(x) => PropertyValueView::Scalar(ScalarView::String(x@)),
        PropertyValue::Text(x) => PropertyValueView::Scalar(ScalarView::Text(x@)),
        PropertyValue::DateTime(x) => PropertyValueView::Scalar(ScalarView::DateTime(x)),
        PropertyValue::PropertySet(ps) => PropertyValueView::PropertySet(
            crate::model::property_set_view(ps),
        ),
        PropertyValue::PropertySetList(l) => PropertyValueView::PropertySetList(
            crate::model::property_set_list_view(l),
        ),
        PropertyValue::Null(dt) => PropertyValueView::Null(dt),
    }
}

impl View for PropertyValue {
    type V = PropertyValueView;

    open spec fn view(&self) -> PropertyValueView {
        property_value_view(*self)
    }
}

impl PropertyValue {
    /// The Sparkplug [`DataType`] this property value declares on the wire.
    pub fn datatype(&self) -> (dt: DataType)
        ensures
            dt == property_value_dt(self@),
    {
        match self {
            PropertyValue::Int8(_) => DataType::Int8,
            PropertyValue::Int16(_) => DataType::Int16,
            PropertyValue::Int32(_) => DataType::Int32,
            PropertyValue::Int64(_) => DataType::Int64,
            PropertyValue::UInt8(_) => DataType::UInt8,
            PropertyValue::UInt16(_) => DataType::UInt16,
            PropertyValue::UInt32(_) => DataType::UInt32,
            PropertyValue::UInt64(_) => DataType::UInt64,
            PropertyValue::Float(_) => DataType::Float,
            PropertyValue::Double(_) => DataType::Double,
            PropertyValue::Boolean(_) => DataType::Boolean,
            PropertyValue::String(_) => DataType::String,
            PropertyValue::Text(_) => DataType::Text,
            PropertyValue::DateTime(_) => DataType::DateTime,
            PropertyValue::PropertySet(_) => DataType::PropertySet,
            PropertyValue::PropertySetList(_) => DataType::PropertySetList,
            PropertyValue::Null(dt) => *dt,
        }
    }
}

/// A template parameter value: basic scalar types only.
#[derive(Clone, Debug, PartialEq)]
#[allow(missing_docs)]
pub enum ParameterValue {
    Int8(i8),
    Int16(i16),
    Int32(i32),
    Int64(i64),
    UInt8(u8),
    UInt16(u16),
    UInt32(u32),
    UInt64(u64),
    /// IEEE-754 bits of an `f32`.
    Float(u32),
    /// IEEE-754 bits of an `f64`.
    Double(u64),
    Boolean(bool),
    String(String),
    Text(String),
    DateTime(i64),
}

impl View for ParameterValue {
    type V = ScalarView;

    open spec fn view(&self) -> ScalarView {
        match self {
            ParameterValue::Int8(x) => ScalarView::Int8(*x),
            ParameterValue::Int16(x) => ScalarView::Int16(*x),
            ParameterValue::Int32(x) => ScalarView::Int32(*x),
            ParameterValue::Int64(x) => ScalarView::Int64(*x),
            ParameterValue::UInt8(x) => ScalarView::UInt8(*x),
            ParameterValue::UInt16(x) => ScalarView::UInt16(*x),
            ParameterValue::UInt32(x) => ScalarView::UInt32(*x),
            ParameterValue::UInt64(x) => ScalarView::UInt64(*x),
            ParameterValue::Float(x) => ScalarView::Float(*x),
            ParameterValue::Double(x) => ScalarView::Double(*x),
            ParameterValue::Boolean(x) => ScalarView::Boolean(*x),
            ParameterValue::String(x) => ScalarView::String(x@),
            ParameterValue::Text(x) => ScalarView::Text(x@),
            ParameterValue::DateTime(x) => ScalarView::DateTime(*x),
        }
    }
}

impl ParameterValue {
    /// The Sparkplug [`DataType`] this parameter value declares on the wire.
    pub fn datatype(&self) -> (dt: DataType)
        ensures
            dt == scalar_dt(self@),
    {
        match self {
            ParameterValue::Int8(_) => DataType::Int8,
            ParameterValue::Int16(_) => DataType::Int16,
            ParameterValue::Int32(_) => DataType::Int32,
            ParameterValue::Int64(_) => DataType::Int64,
            ParameterValue::UInt8(_) => DataType::UInt8,
            ParameterValue::UInt16(_) => DataType::UInt16,
            ParameterValue::UInt32(_) => DataType::UInt32,
            ParameterValue::UInt64(_) => DataType::UInt64,
            ParameterValue::Float(_) => DataType::Float,
            ParameterValue::Double(_) => DataType::Double,
            ParameterValue::Boolean(_) => DataType::Boolean,
            ParameterValue::String(_) => DataType::String,
            ParameterValue::Text(_) => DataType::Text,
            ParameterValue::DateTime(_) => DataType::DateTime,
        }
    }
}

} // verus!
