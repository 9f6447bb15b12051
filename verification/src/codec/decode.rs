//! Sparkplug B protobuf bytes → domain model.
//!
//! Each decoder reads its message field by field and interprets each field as
//! soon as it is read, exactly as the step functions of [`crate::codec::parse`]
//! specify; every decoder is proved to return what its spec function gives,
//! error kind included. Decoding never panics on hostile input: truncation, bad
//! tags, unknown datatypes and over-deep nesting all return typed errors.
use vstd::prelude::*;
use vstd::slice::slice_to_vec;

use crate::alias::{type_index, AliasRegistry};
use crate::codec::arrays::unpack_array;
use crate::codec::parse::{
    any_slot, cell_step, codes_to_types, decode_cell_spec, decode_dataset_spec,
    decode_metadata_spec, decode_metric_spec, decode_parameter_spec, decode_payload_spec,
    decode_property_set_list_spec, decode_property_set_spec, decode_property_value_spec,
    decode_row_spec, decode_rows, decode_template_spec, empty_metric, empty_payload,
    empty_property_value, empty_template, metadata_step, metric_finish, metric_step,
    metric_value_finish,
    no_slots, parameter_step, payload_step, property_set_list_step, property_set_step,
    property_value_finish, property_value_step, read_packed, recover_datatype, row_step,
    scalar_from_slots, slot_step, template_step, utf8, zip_entries, DataSetAcc, MetricAcc,
    ParamAcc, PropertySetAcc, PropertyValueAcc, Slots, TypeIndex, MAX_DEPTH, dataset_step,
};
use crate::codec::wire::{
    fold_fields, lemma_fold_fields_error, lemma_fold_push, lemma_read_field_len, lemma_tokenize_step,
    read_field, run_fields, tokenize, tokens_before, Field, Reader, WireValue,
};
use crate::datatype::{dt_code, DataType};
use crate::error::{ErrorKind, SparkplugError};
use crate::model::{opt_str, MetaData, MetaDataView, Parameter};
use crate::util::from_utf8;
use crate::value::{
    DataSetValue, MetricValue, MetricValueView, ParameterValue, PropertyValue, PropertyValueView,
    ScalarView,
};

verus! {

// ---------------------------------------------------------------------------
// Reading a message field by field
// ---------------------------------------------------------------------------

/// Before anything is read, no field has been read.
proof fn lemma_tokens_start(s: Seq<u8>)
    ensures
        tokens_before(s, seq![], s),
{
    assert(Seq::<Field>::empty() + tokenize(s).0 =~= tokenize(s).0);
}

/// Reading a field from `rest` moves it to the fields read.
proof fn lemma_tokens_advance(s: Seq<u8>, fs: Seq<Field>, rest: Seq<u8>)
    requires
        tokens_before(s, fs, rest),
        rest.len() > 0,
        read_field(rest) is Ok,
    ensures
        tokens_before(s, fs.push(read_field(rest)->Ok_0.0), rest.skip(read_field(rest)->Ok_0.1 as int)),
{
    lemma_tokenize_step(rest);
    let (f, n) = read_field(rest)->Ok_0;
    let t = tokenize(rest.skip(n as int)).0;
    assert(fs + (seq![f] + t) =~= fs.push(f) + t);
}

/// A field that cannot be read ends the message with its error.
proof fn lemma_run_read_error<A>(s: Seq<u8>, fs: Seq<Field>, rest: Seq<u8>, init: A, step: spec_fn(A, Field) -> Result<A, ErrorKind>)
    requires
        tokens_before(s, fs, rest),
        rest.len() > 0,
        read_field(rest) is Err,
        fold_fields(fs, init, step) is Ok,
    ensures
        run_fields(s, init, step) == Err::<A, ErrorKind>(read_field(rest)->Err_0),
{
    lemma_tokenize_step(rest);
    assert(fs + Seq::<Field>::empty() =~= fs);
}

/// A field whose interpretation fails ends the message with that failure.
proof fn lemma_run_step_error<A>(s: Seq<u8>, fs: Seq<Field>, rest: Seq<u8>, init: A, step: spec_fn(A, Field) -> Result<A, ErrorKind>)
    requires
        tokens_before(s, fs, rest),
        fold_fields(fs, init, step) is Err,
    ensures
        run_fields(s, init, step) == fold_fields(fs, init, step),
{
    lemma_fold_fields_error(fs, tokenize(rest).0, init, step);
}

/// Once every byte is read, the message is the fold of the fields read.
proof fn lemma_run_done<A>(s: Seq<u8>, fs: Seq<Field>, rest: Seq<u8>, init: A, step: spec_fn(A, Field) -> Result<A, ErrorKind>)
    requires
        tokens_before(s, fs, rest),
        rest.len() == 0,
    ensures
        run_fields(s, init, step) == fold_fields(fs, init, step),
{
    assert(fs + Seq::<Field>::empty() =~= fs);
}

// ---------------------------------------------------------------------------
// Scalars
// ---------------------------------------------------------------------------

/// The string held by a `string` field.
fn read_str(b: &[u8]) -> (res: Result<String, SparkplugError>)
    ensures
        match utf8(b@) {
            Ok(s) => res matches Ok(x) && x@ == s,
            Err(k) => res matches Err(e) && e.kind() == k,
        },
{
    match from_utf8(b) {
        Some(s) => Ok(String::from_str(s)),
        None => Err(SparkplugError::InvalidUtf8),
    }
}

/// A `ValueTypeMismatch` error with the given message.
fn mismatch(msg: &str) -> (e: SparkplugError)
    ensures
        e.kind() == ErrorKind::ValueTypeMismatch,
{
    SparkplugError::ValueTypeMismatch(String::from_str(msg))
}

/// A `ValueTypeMismatch` error whose message is the datatype's name followed by `rest`.
fn dt_mismatch(dt: DataType, rest: &str) -> (e: SparkplugError)
    ensures
        e.kind() == ErrorKind::ValueTypeMismatch,
{
    SparkplugError::ValueTypeMismatch(crate::util::concat_str(dt.name(), rest))
}

/// The `ValueTypeMismatch` error for a scalar metric whose value field is
/// missing: the datatype's name and the field it expects.
fn scalar_mismatch(dt: DataType) -> (e: SparkplugError)
    ensures
        e.kind() == ErrorKind::ValueTypeMismatch,
{
    let field = match dt {
        DataType::Int8 | DataType::Int16 | DataType::Int32 | DataType::UInt8 | DataType::UInt16
        | DataType::UInt32 => " expected int_value",
        DataType::Int64 | DataType::UInt64 | DataType::DateTime => " expected long_value",
        DataType::Float => " expected float_value",
        DataType::Double => " expected double_value",
        DataType::Boolean => " expected boolean_value",
        _ => " expected string_value",
    };
    dt_mismatch(dt, field)
}

/// The scalar value fields of a message, collected before its datatype is known.
struct RawSlots {
    int_v: Option<u32>,
    long_v: Option<u64>,
    float_v: Option<u32>,
    double_v: Option<u64>,
    bool_v: Option<bool>,
    string_v: Option<String>,
}

impl View for RawSlots {
    type V = Slots;

    closed spec fn view(&self) -> Slots {
        Slots {
            int_v: self.int_v,
            long_v: self.long_v,
            float_v: self.float_v,
            double_v: self.double_v,
            bool_v: self.bool_v,
            string_v: opt_str(self.string_v),
        }
    }
}

impl RawSlots {
    fn new() -> (s: Self)
        ensures
            s@ == no_slots(),
    {
        RawSlots { int_v: None, long_v: None, float_v: None, double_v: None, bool_v: None, string_v: None }
    }

    /// Record field `num` when it is one of the value fields numbered from
    /// `base`; `Ok(false)` when it is not.
    fn record(&mut self, num: u32, w: &WireValue, base: u32) -> (res: Result<bool, SparkplugError>)
        requires
            base <= 10,
        ensures
            match slot_step(old(self)@, Field { num, val: w@ }, base) {
                None => res matches Ok(false) && final(self)@ == old(self)@,
                Some(Ok(sl)) => res matches Ok(true) && final(self)@ == sl,
                Some(Err(k)) => res matches Err(e) && e.kind() == k,
            },
    {
        match w {
            WireValue::Varint(v) => {
                if num == base {
                    self.int_v = Some(*v as u32);
                    Ok(true)
                } else if num == base + 1 {
                    self.long_v = Some(*v);
                    Ok(true)
                } else if num == base + 4 {
                    self.bool_v = Some(*v != 0);
                    Ok(true)
                } else {
                    Ok(false)
                }
            },
            WireValue::Fixed32(x) => {
                if num == base + 2 {
                    self.float_v = Some(*x);
                    Ok(true)
                } else {
                    Ok(false)
                }
            },
            WireValue::Fixed64(x) => {
                if num == base + 3 {
                    self.double_v = Some(*x);
                    Ok(true)
                } else {
                    Ok(false)
                }
            },
            WireValue::Bytes(b) => {
                if num == base + 5 {
                    match read_str(b) {
                        Ok(s) => {
                            self.string_v = Some(s);
                            Ok(true)
                        },
                        Err(e) => Err(e),
                    }
                } else {
                    Ok(false)
                }
            },
        }
    }

    /// Whether any value field was seen.
    fn any(&self) -> (b: bool)
        ensures
            b == any_slot(self@),
    {
        self.int_v.is_some() || self.long_v.is_some() || self.float_v.is_some()
            || self.double_v.is_some() || self.bool_v.is_some() || self.string_v.is_some()
    }

    /// The basic scalar of datatype `dt` the slots hold: `None` when `dt` is not
    /// a basic scalar type, `Some(None)` when its slot is empty.
    fn scalar(self, dt: DataType) -> (res: Option<Option<ParameterValue>>)
        ensures
            match scalar_from_slots(dt, self@) {
                None => res is None,
                Some(None) => res matches Some(None),
                Some(Some(v)) => res matches Some(Some(p)) && p@ == v,
            },
    {
        match dt {
            DataType::Int8 => Some(match self.int_v { Some(v) => Some(ParameterValue::Int8(v as i8)), None => None }),
            DataType::Int16 => Some(match self.int_v { Some(v) => Some(ParameterValue::Int16(v as i16)), None => None }),
            DataType::Int32 => Some(match self.int_v { Some(v) => Some(ParameterValue::Int32(v as i32)), None => None }),
            DataType::UInt8 => Some(match self.int_v { Some(v) => Some(ParameterValue::UInt8(v as u8)), None => None }),
            DataType::UInt16 => Some(match self.int_v { Some(v) => Some(ParameterValue::UInt16(v as u16)), None => None }),
            DataType::UInt32 => Some(match self.int_v { Some(v) => Some(ParameterValue::UInt32(v)), None => None }),
            DataType::Int64 => Some(match self.long_v { Some(v) => Some(ParameterValue::Int64(v as i64)), None => None }),
            DataType::UInt64 => Some(match self.long_v { Some(v) => Some(ParameterValue::UInt64(v)), None => None }),
            DataType::DateTime => Some(match self.long_v { Some(v) => Some(ParameterValue::DateTime(v as i64)), None => None }),
            DataType::Float => Some(match self.float_v { Some(v) => Some(ParameterValue::Float(v)), None => None }),
            DataType::Double => Some(match self.double_v { Some(v) => Some(ParameterValue::Double(v)), None => None }),
            DataType::Boolean => Some(match self.bool_v { Some(v) => Some(ParameterValue::Boolean(v)), None => None }),
            DataType::String => Some(match self.string_v { Some(v) => Some(ParameterValue::String(v)), None => None }),
            DataType::Text => Some(match self.string_v { Some(v) => Some(ParameterValue::Text(v)), None => None }),
            _ => None,
        }
    }
}

/// A basic scalar as a metric value.
fn scalar_metric_value(p: ParameterValue) -> (m: MetricValue)
    ensures
        m@ == MetricValueView::Scalar(p@),
{
    match p {
        ParameterValue::Int8(x) => MetricValue::Int8(x),
        ParameterValue::Int16(x) => MetricValue::Int16(x),
        ParameterValue::Int32(x) => MetricValue::Int32(x),
        ParameterValue::Int64(x) => MetricValue::Int64(x),
        ParameterValue::UInt8(x) => MetricValue::UInt8(x),
        ParameterValue::UInt16(x) => MetricValue::UInt16(x),
        ParameterValue::UInt32(x) => MetricValue::UInt32(x),
        ParameterValue::UInt64(x) => MetricValue::UInt64(x),
        ParameterValue::Float(x) => MetricValue::Float(x),
        ParameterValue::Double(x) => MetricValue::Double(x),
        ParameterValue::Boolean(x) => MetricValue::Boolean(x),
        ParameterValue::String(x) => MetricValue::String(x),
        ParameterValue::Text(x) => MetricValue::Text(x),
        ParameterValue::DateTime(x) => MetricValue::DateTime(x),
    }
}

/// A basic scalar as a DataSet cell.
fn scalar_cell(p: ParameterValue) -> (c: DataSetValue)
    ensures
        c@ == Some(p@),
{
    match p {
        ParameterValue::Int8(x) => DataSetValue::Int8(x),
        ParameterValue::Int16(x) => DataSetValue::Int16(x),
        ParameterValue::Int32(x) => DataSetValue::Int32(x),
        ParameterValue::Int64(x) => DataSetValue::Int64(x),
        ParameterValue::UInt8(x) => DataSetValue::UInt8(x),
        ParameterValue::UInt16(x) => DataSetValue::UInt16(x),
        ParameterValue::UInt32(x) => DataSetValue::UInt32(x),
        ParameterValue::UInt64(x) => DataSetValue::UInt64(x),
        ParameterValue::Float(x) => DataSetValue::Float(x),
        ParameterValue::Double(x) => DataSetValue::Double(x),
        ParameterValue::Boolean(x) => DataSetValue::Boolean(x),
        ParameterValue::String(x) => DataSetValue::String(x),
        ParameterValue::Text(x) => DataSetValue::Text(x),
        ParameterValue::DateTime(x) => DataSetValue::DateTime(x),
    }
}

/// A basic scalar as a property value.
fn scalar_property_value(p: ParameterValue) -> (v: PropertyValue)
    ensures
        v@ == PropertyValueView::Scalar(p@),
{
    match p {
        ParameterValue::Int8(x) => PropertyValue::Int8(x),
        ParameterValue::Int16(x) => PropertyValue::Int16(x),
        ParameterValue::Int32(x) => PropertyValue::Int32(x),
        ParameterValue::Int64(x) => PropertyValue::Int64(x),
        ParameterValue::UInt8(x) => PropertyValue::UInt8(x),
        ParameterValue::UInt16(x) => PropertyValue::UInt16(x),
        ParameterValue::UInt32(x) => PropertyValue::UInt32(x),
        ParameterValue::UInt64(x) => PropertyValue::UInt64(x),
        ParameterValue::Float(x) => PropertyValue::Float(x),
        ParameterValue::Double(x) => PropertyValue::Double(x),
        ParameterValue::Boolean(x) => PropertyValue::Boolean(x),
        ParameterValue::String(x) => PropertyValue::String(x),
        ParameterValue::Text(x) => PropertyValue::Text(x),
        ParameterValue::DateTime(x) => PropertyValue::DateTime(x),
    }
}

// ---------------------------------------------------------------------------
// MetaData
// ---------------------------------------------------------------------------

/// Decode a metadata message.
pub fn decode_metadata(bytes: &[u8]) -> (res: Result<MetaData, SparkplugError>)
    ensures
        match decode_metadata_spec(bytes@) {
            Ok(v) => res matches Ok(md) && md@ == v,
            Err(k) => res matches Err(e) && e.kind() == k,
        },
{
    let ghost step = metadata_step();
    let ghost init = crate::model::empty_metadata();
    let mut r = Reader::new(bytes);
    let mut md = MetaData::default();
    let ghost mut fs: Seq<Field> = seq![];
    proof {
        lemma_tokens_start(bytes@);
    }
    while !r.is_empty()
        invariant
            step == metadata_step(),
            init == crate::model::empty_metadata(),
            tokens_before(bytes@, fs, r.rest()),
            fold_fields(fs, init, step) == Ok::<MetaDataView, ErrorKind>(md@),
        decreases r.rest().len(),
    {
        let ghost rest = r.rest();
        let ghost md0 = md@;
        proof {
            lemma_read_field_len(rest);
        }
        let (num, w) = match r.read_field() {
            Ok(x) => x,
            Err(e) => {
                proof {
                    lemma_run_read_error(bytes@, fs, rest, init, step);
                }
                return Err(e);
            },
        };
        let ghost f = Field { num, val: w@ };
        proof {
            lemma_tokens_advance(bytes@, fs, rest);
            lemma_fold_push(fs, f, init, step);
        }
        match w {
            WireValue::Varint(v) => {
                if num == 1 {
                    md.is_multi_part = Some(v != 0);
                } else if num == 3 {
                    md.size = Some(v);
                } else if num == 4 {
                    md.seq = Some(v);
                }
            },
            WireValue::Bytes(b) => {
                if num == 2 || (5 <= num && num <= 8) {
                    let s = match read_str(b) {
                        Ok(s) => s,
                        Err(e) => {
                            proof {
                                lemma_run_step_error(bytes@, fs.push(f), r.rest(), init, step);
                            }
                            return Err(e);
                        },
                    };
                    if num == 2 {
                        md.content_type = Some(s);
                    } else if num == 5 {
                        md.file_name = Some(s);
                    } else if num == 6 {
                        md.file_type = Some(s);
                    } else if num == 7 {
                        md.md5 = Some(s);
                    } else {
                        md.description = Some(s);
                    }
                }
            },
            _ => {},
        }
        proof {
            assert(step(md0, f) == Ok::<MetaDataView, ErrorKind>(md@));
            fs = fs.push(f);
        }
    }
    proof {
        lemma_run_done(bytes@, fs, r.rest(), init, step);
    }
    Ok(md)
}

// ---------------------------------------------------------------------------
// Parameters
// ---------------------------------------------------------------------------

/// Decode a template parameter.
pub fn decode_parameter(bytes: &[u8]) -> (res: Result<Parameter, SparkplugError>)
    ensures
        match decode_parameter_spec(bytes@) {
            Ok(v) => res matches Ok(p) && p@ == v,
            Err(k) => res matches Err(e) && e.kind() == k,
        },
{
    let ghost step = parameter_step();
    let ghost init = ParamAcc { name: None, type_code: None, slots: no_slots() };
    let mut r = Reader::new(bytes);
    let mut name: Option<String> = None;
    let mut type_code: Option<u32> = None;
    let mut slots = RawSlots::new();
    let ghost mut fs: Seq<Field> = seq![];
    proof {
        lemma_tokens_start(bytes@);
    }
    while !r.is_empty()
        invariant
            step == parameter_step(),
            init == (ParamAcc { name: None, type_code: None, slots: no_slots() }),
            tokens_before(bytes@, fs, r.rest()),
            fold_fields(fs, init, step) == Ok::<ParamAcc, ErrorKind>(
                ParamAcc { name: opt_str(name), type_code, slots: slots@ },
            ),
        decreases r.rest().len(),
    {
        let ghost rest = r.rest();
        let ghost a0 = ParamAcc { name: opt_str(name), type_code, slots: slots@ };
        proof {
            lemma_read_field_len(rest);
        }
        let (num, w) = match r.read_field() {
            Ok(x) => x,
            Err(e) => {
                proof {
                    lemma_run_read_error(bytes@, fs, rest, init, step);
                }
                return Err(e);
            },
        };
        let ghost f = Field { num, val: w@ };
        proof {
            lemma_tokens_advance(bytes@, fs, rest);
            lemma_fold_push(fs, f, init, step);
        }
        match &w {
            WireValue::Bytes(b) if num == 1 => {
                match read_str(b) {
                    Ok(s) => {
                        name = Some(s);
                    },
                    Err(e) => {
                        proof {
                            lemma_run_step_error(bytes@, fs.push(f), r.rest(), init, step);
                        }
                        return Err(e);
                    },
                }
            },
            WireValue::Varint(v) if num == 2 => {
                type_code = Some(*v as u32);
            },
            _ => {
                match slots.record(num, &w, 3) {
                    Ok(_) => {},
                    Err(e) => {
                        proof {
                            lemma_run_step_error(bytes@, fs.push(f), r.rest(), init, step);
                        }
                        return Err(e);
                    },
                }
            },
        }
        proof {
            assert(step(a0, f) == Ok::<ParamAcc, ErrorKind>(
                ParamAcc { name: opt_str(name), type_code, slots: slots@ },
            ));
            fs = fs.push(f);
        }
    }
    proof {
        lemma_run_done(bytes@, fs, r.rest(), init, step);
    }
    let name = match name {
        Some(n) => n,
        None => return Err(mismatch("Parameter missing name")),
    };
    let code = match type_code {
        Some(c) => c,
        None => return Err(mismatch("Parameter missing type")),
    };
    let dt = match DataType::from_u32(code) {
        Ok(d) => d,
        Err(e) => return Err(e),
    };
    let value = if slots.any() {
        match slots.scalar(dt) {
            Some(Some(v)) => Some(v),
            Some(None) => return Err(dt_mismatch(dt, " param")),
            None => return Err(dt_mismatch(dt, " is not a valid parameter type")),
        }
    } else {
        None
    };
    Ok(Parameter { name, datatype: dt, value })
}

// ---------------------------------------------------------------------------
// DataSets
// ---------------------------------------------------------------------------

/// Decode a DataSet cell of column type `dt`.
fn decode_cell(bytes: &[u8], dt: DataType) -> (res: Result<DataSetValue, SparkplugError>)
    ensures
        match decode_cell_spec(bytes@, dt) {
            Ok(v) => res matches Ok(c) && c@ == v,
            Err(k) => res matches Err(e) && e.kind() == k,
        },
{
    let ghost step = cell_step();
    let ghost init = no_slots();
    let mut r = Reader::new(bytes);
    let mut slots = RawSlots::new();
    let ghost mut fs: Seq<Field> = seq![];
    proof {
        lemma_tokens_start(bytes@);
    }
    while !r.is_empty()
        invariant
            step == cell_step(),
            init == no_slots(),
            tokens_before(bytes@, fs, r.rest()),
            fold_fields(fs, init, step) == Ok::<Slots, ErrorKind>(slots@),
        decreases r.rest().len(),
    {
        let ghost rest = r.rest();
        let ghost a0 = slots@;
        proof {
            lemma_read_field_len(rest);
        }
        let (num, w) = match r.read_field() {
            Ok(x) => x,
            Err(e) => {
                proof {
                    lemma_run_read_error(bytes@, fs, rest, init, step);
                }
                return Err(e);
            },
        };
        let ghost f = Field { num, val: w@ };
        proof {
            lemma_tokens_advance(bytes@, fs, rest);
            lemma_fold_push(fs, f, init, step);
        }
        match slots.record(num, &w, 1) {
            Ok(_) => {},
            Err(e) => {
                proof {
                    lemma_run_step_error(bytes@, fs.push(f), r.rest(), init, step);
                }
                return Err(e);
            },
        }
        proof {
            assert(step(a0, f) == Ok::<Slots, ErrorKind>(slots@));
            fs = fs.push(f);
        }
    }
    proof {
        lemma_run_done(bytes@, fs, r.rest(), init, step);
    }
    if !slots.any() {
        return Ok(DataSetValue::Null);
    }
    match slots.scalar(dt) {
        None => {
            let msg = crate::util::concat_str(dt.name(), " is not a valid DataSet column type");
            Err(SparkplugError::DataSetShape(msg))
        },
        Some(None) => Err(dt_mismatch(dt, " cell")),
        Some(Some(v)) => Ok(scalar_cell(v)),
    }
}

/// Decode a DataSet row whose columns have the types `types`.
fn decode_row(bytes: &[u8], types: &[DataType]) -> (res: Result<Vec<DataSetValue>, SparkplugError>)
    ensures
        match decode_row_spec(bytes@, types@) {
            Ok(v) => res matches Ok(cells) && cells@.map_values(|c: DataSetValue| c@) == v,
            Err(k) => res matches Err(e) && e.kind() == k,
        },
{
    let ghost step = row_step(types@);
    let ghost init = Seq::<Option<ScalarView>>::empty();
    let mut r = Reader::new(bytes);
    let mut cells: Vec<DataSetValue> = Vec::new();
    let ghost mut fs: Seq<Field> = seq![];
    proof {
        lemma_tokens_start(bytes@);
        assert(cells@.map_values(|c: DataSetValue| c@) =~= init);
    }
    while !r.is_empty()
        invariant
            step == row_step(types@),
            init == Seq::<Option<ScalarView>>::empty(),
            tokens_before(bytes@, fs, r.rest()),
            fold_fields(fs, init, step) == Ok::<Seq<Option<ScalarView>>, ErrorKind>(
                cells@.map_values(|c: DataSetValue| c@),
            ),
        decreases r.rest().len(),
    {
        let ghost rest = r.rest();
        let ghost a0 = cells@.map_values(|c: DataSetValue| c@);
        proof {
            lemma_read_field_len(rest);
        }
        let (num, w) = match r.read_field() {
            Ok(x) => x,
            Err(e) => {
                proof {
                    lemma_run_read_error(bytes@, fs, rest, init, step);
                }
                return Err(e);
            },
        };
        let ghost f = Field { num, val: w@ };
        proof {
            lemma_tokens_advance(bytes@, fs, rest);
            lemma_fold_push(fs, f, init, step);
        }
        match w {
            WireValue::Bytes(b) if num == 1 => {
                if cells.len() >= types.len() {
                    proof {
                        lemma_run_step_error(bytes@, fs.push(f), r.rest(), init, step);
                    }
                    return Err(SparkplugError::DataSetShape(String::from_str("row wider than column types")));
                }
                let c = match decode_cell(b, types[cells.len()]) {
                    Ok(c) => c,
                    Err(e) => {
                        proof {
                            lemma_run_step_error(bytes@, fs.push(f), r.rest(), init, step);
                        }
                        return Err(e);
                    },
                };
                let ghost cv = c@;
                cells.push(c);
                proof {
                    assert(cells@.map_values(|c: DataSetValue| c@) =~= a0.push(cv));
                }
            },
            _ => {},
        }
        proof {
            assert(step(a0, f) == Ok::<Seq<Option<ScalarView>>, ErrorKind>(
                cells@.map_values(|c: DataSetValue| c@),
            ));
            fs = fs.push(f);
        }
    }
    proof {
        lemma_run_done(bytes@, fs, r.rest(), init, step);
    }
    Ok(cells)
}

/// The varints packed in `b`.
fn read_packed_codes(b: &[u8]) -> (res: Result<Vec<u32>, SparkplugError>)
    ensures
        match read_packed(b@) {
            Ok(cs) => res matches Ok(v) && v@ == cs,
            Err(k) => res matches Err(e) && e.kind() == k,
        },
{
    let mut r = Reader::new(b);
    let mut out: Vec<u32> = Vec::new();
    while !r.is_empty()
        invariant
            read_packed(b@) == (match read_packed(r.rest()) {
                Ok(t) => Ok(out@ + t),
                Err(e) => Err(e),
            }),
        decreases r.rest().len(),
    {
        let ghost rest = r.rest();
        let ghost out0 = out@;
        proof {
            crate::codec::wire::lemma_read_varint_len(rest);
        }
        let v = match r.read_varint() {
            Ok(v) => v,
            Err(e) => return Err(e),
        };
        out.push(v as u32);
        proof {
            match read_packed(r.rest()) {
                Ok(t) => {
                    assert(out0 + (seq![v as u32] + t) =~= out@ + t);
                },
                Err(_) => {},
            }
        }
    }
    proof {
        assert(out@ + Seq::<u32>::empty() =~= out@);
    }
    Ok(out)
}

/// An unknown code stops the conversion of every longer prefix at the same place.
proof fn lemma_codes_error(s: Seq<u32>, i: int, j: int)
    requires
        0 <= i <= j <= s.len(),
        codes_to_types(s.take(i)) is Err,
    ensures
        codes_to_types(s.take(j)) == codes_to_types(s.take(i)),
    decreases j - i,
{
    if j > i {
        lemma_codes_error(s, i, j - 1);
        assert(s.take(j).drop_last() =~= s.take(j - 1));
    }
}

/// A failing row stops the decoding of every longer prefix at the same place.
proof fn lemma_rows_error(s: Seq<Seq<u8>>, types: Seq<DataType>, i: int, j: int)
    requires
        0 <= i <= j <= s.len(),
        decode_rows(s.take(i), types) is Err,
    ensures
        decode_rows(s.take(j), types) == decode_rows(s.take(i), types),
    decreases j - i,
{
    if j > i {
        lemma_rows_error(s, types, i, j - 1);
        assert(s.take(j).drop_last() =~= s.take(j - 1));
    }
}

/// Decode a DataSet.
pub fn decode_dataset(bytes: &[u8]) -> (res: Result<crate::model::DataSet, SparkplugError>)
    ensures
        match decode_dataset_spec(bytes@) {
            Ok(v) => res matches Ok(d) && d@ == v,
            Err(k) => res matches Err(e) && e.kind() == k,
        },
{
    let ghost step = dataset_step();
    let ghost init = DataSetAcc { columns: seq![], codes: seq![], rows: seq![] };
    let mut r = Reader::new(bytes);
    let mut columns: Vec<String> = Vec::new();
    let mut codes: Vec<u32> = Vec::new();
    let mut row_bytes: Vec<&[u8]> = Vec::new();
    let ghost mut fs: Seq<Field> = seq![];
    proof {
        lemma_tokens_start(bytes@);
        assert(columns@.map_values(|c: String| c@) =~= Seq::<Seq<char>>::empty());
        assert(row_bytes@.map_values(|b: &[u8]| b@) =~= Seq::<Seq<u8>>::empty());
    }
    while !r.is_empty()
        invariant
            step == dataset_step(),
            init == (DataSetAcc { columns: seq![], codes: seq![], rows: seq![] }),
            tokens_before(bytes@, fs, r.rest()),
            fold_fields(fs, init, step) == Ok::<DataSetAcc, ErrorKind>(
                DataSetAcc {
                    columns: columns@.map_values(|c: String| c@),
                    codes: codes@,
                    rows: row_bytes@.map_values(|b: &[u8]| b@),
                },
            ),
        decreases r.rest().len(),
    {
        let ghost rest = r.rest();
        let ghost a0 = DataSetAcc {
            columns: columns@.map_values(|c: String| c@),
            codes: codes@,
            rows: row_bytes@.map_values(|b: &[u8]| b@),
        };
        proof {
            lemma_read_field_len(rest);
        }
        let (num, w) = match r.read_field() {
            Ok(x) => x,
            Err(e) => {
                proof {
                    lemma_run_read_error(bytes@, fs, rest, init, step);
                }
                return Err(e);
            },
        };
        let ghost f = Field { num, val: w@ };
        proof {
            lemma_tokens_advance(bytes@, fs, rest);
            lemma_fold_push(fs, f, init, step);
        }
        match w {
            WireValue::Bytes(b) if num == 2 => {
                match read_str(b) {
                    Ok(s) => {
                        let ghost sv = s@;
                        columns.push(s);
                        proof {
                            assert(columns@.map_values(|c: String| c@) =~= a0.columns.push(sv));
                        }
                    },
                    Err(e) => {
                        proof {
                            lemma_run_step_error(bytes@, fs.push(f), r.rest(), init, step);
                        }
                        return Err(e);
                    },
                }
            },
            WireValue::Varint(v) if num == 3 => {
                codes.push(v as u32);
            },
            WireValue::Bytes(b) if num == 3 => {
                match read_packed_codes(b) {
                    Ok(cs) => {
                        let mut cs = cs;
                        codes.append(&mut cs);
                    },
                    Err(e) => {
                        proof {
                            lemma_run_step_error(bytes@, fs.push(f), r.rest(), init, step);
                        }
                        return Err(e);
                    },
                }
            },
            WireValue::Bytes(b) if num == 4 => {
                row_bytes.push(b);
                proof {
                    assert(row_bytes@.map_values(|b: &[u8]| b@) =~= a0.rows.push(b@));
                }
            },
            _ => {},
        }
        proof {
            assert(step(a0, f) == Ok::<DataSetAcc, ErrorKind>(
                DataSetAcc {
                    columns: columns@.map_values(|c: String| c@),
                    codes: codes@,
                    rows: row_bytes@.map_values(|b: &[u8]| b@),
                },
            ));
            fs = fs.push(f);
        }
    }
    proof {
        lemma_run_done(bytes@, fs, r.rest(), init, step);
    }
    let ghost acc = DataSetAcc {
        columns: columns@.map_values(|c: String| c@),
        codes: codes@,
        rows: row_bytes@.map_values(|b: &[u8]| b@),
    };
    // The column types, stopping at the first unknown code.
    let mut types: Vec<DataType> = Vec::new();
    let mut i: usize = 0;
    proof {
        assert(codes@.take(0) =~= Seq::<u32>::empty());
    }
    while i < codes.len()
        invariant
            i <= codes@.len(),
            run_fields(bytes@, DataSetAcc { columns: seq![], codes: seq![], rows: seq![] }, dataset_step())
                == Ok::<DataSetAcc, ErrorKind>(acc),
            acc.codes == codes@,
            codes_to_types(codes@.take(i as int)) == Ok::<Seq<DataType>, ErrorKind>(types@),
        decreases codes@.len() - i,
    {
        proof {
            assert(codes@.take(i + 1).drop_last() =~= codes@.take(i as int));
        }
        match DataType::from_u32(codes[i]) {
            Ok(d) => {
                types.push(d);
            },
            Err(e) => {
                proof {
                    lemma_codes_error(codes@, i + 1, codes@.len() as int);
                    assert(codes@.take(codes@.len() as int) =~= codes@);
                }
                return Err(e);
            },
        }
        i = i + 1;
    }
    proof {
        assert(codes@.take(codes@.len() as int) =~= codes@);
    }
    // The rows, stopping at the first that fails.
    let ghost rows_spec = row_bytes@.map_values(|b: &[u8]| b@);
    let mut rows: Vec<Vec<DataSetValue>> = Vec::new();
    let mut j: usize = 0;
    proof {
        assert(rows_spec.take(0) =~= Seq::<Seq<u8>>::empty());
        assert(rows@.map_values(|r: Vec<DataSetValue>| r@.map_values(|c: DataSetValue| c@)) =~= Seq::<Seq<Option<ScalarView>>>::empty());
    }
    while j < row_bytes.len()
        invariant
            j <= row_bytes@.len(),
            run_fields(bytes@, DataSetAcc { columns: seq![], codes: seq![], rows: seq![] }, dataset_step())
                == Ok::<DataSetAcc, ErrorKind>(acc),
            codes_to_types(acc.codes) == Ok::<Seq<DataType>, ErrorKind>(types@),
            acc.rows == rows_spec,
            acc.columns == columns@.map_values(|c: String| c@),
            rows_spec == row_bytes@.map_values(|b: &[u8]| b@),
            decode_rows(rows_spec.take(j as int), types@) == Ok::<Seq<Seq<Option<ScalarView>>>, ErrorKind>(
                rows@.map_values(|r: Vec<DataSetValue>| r@.map_values(|c: DataSetValue| c@)),
            ),
        decreases row_bytes@.len() - j,
    {
        let ghost before = rows@.map_values(|r: Vec<DataSetValue>| r@.map_values(|c: DataSetValue| c@));
        proof {
            assert(rows_spec.take(j + 1).drop_last() =~= rows_spec.take(j as int));
            assert(rows_spec.take(j + 1).last() == row_bytes@[j as int]@);
        }
        match decode_row(row_bytes[j], types.as_slice()) {
            Ok(row) => {
                let ghost rv = row@.map_values(|c: DataSetValue| c@);
                rows.push(row);
                proof {
                    assert(rows@.map_values(|r: Vec<DataSetValue>| r@.map_values(|c: DataSetValue| c@)) =~= before.push(rv));
                }
            },
            Err(e) => {
                proof {
                    lemma_rows_error(rows_spec, types@, j + 1, rows_spec.len() as int);
                    assert(rows_spec.take(rows_spec.len() as int) =~= rows_spec);
                }
                return Err(e);
            },
        }
        j = j + 1;
    }
    proof {
        assert(rows_spec.take(rows_spec.len() as int) =~= rows_spec);
    }
    crate::model::DataSet::new(columns, types, rows)
}

// ---------------------------------------------------------------------------
// Property sets
// ---------------------------------------------------------------------------

/// The view of an optional borrowed payload.
pub open spec fn opt_slice(o: Option<&[u8]>) -> Option<Seq<u8>> {
    match o {
        Some(b) => Some(b@),
        None => None,
    }
}

/// Pair up keys and values, in order.
fn zip_entries_exec(keys: Vec<String>, values: Vec<PropertyValue>) -> (entries: Vec<(String, PropertyValue)>)
    requires
        keys@.len() == values@.len(),
    ensures
        crate::model::entries_view(entries@) == zip_entries(
            keys@.map_values(|k: String| k@),
            values@.map_values(|v: PropertyValue| v@),
        ),
{
    let ghost ks = keys@;
    let ghost vs = values@;
    let ghost n = ks.len();
    let mut keys = keys;
    let mut values = values;
    let mut rev: Vec<(String, PropertyValue)> = Vec::new();
    while values.len() > 0
        invariant
            keys@.len() == values@.len(),
            keys@.len() <= n,
            ks.len() == n,
            vs.len() == n,
            keys@ == ks.take(keys@.len() as int),
            values@ == vs.take(values@.len() as int),
            rev@.len() == n - keys@.len(),
            forall|j: int| 0 <= j < rev@.len() ==> #[trigger] rev@[j] == (ks[n - 1 - j], vs[n - 1 - j]),
        decreases values@.len(),
    {
        let m = values.len();
        let k = keys.pop().unwrap();
        let v = values.pop().unwrap();
        rev.push((k, v));
        proof {
            assert(keys@ =~= ks.take(m - 1));
            assert(values@ =~= vs.take(m - 1));
        }
    }
    let ghost rev0 = rev@;
    let mut entries: Vec<(String, PropertyValue)> = Vec::new();
    while rev.len() > 0
        invariant
            rev0.len() == n,
            rev@.len() <= n,
            rev@ == rev0.take(rev@.len() as int),
            entries@.len() == n - rev@.len(),
            ks.len() == n,
            vs.len() == n,
            forall|j: int| 0 <= j < n ==> #[trigger] rev0[j] == (ks[n - 1 - j], vs[n - 1 - j]),
            forall|j: int| 0 <= j < entries@.len() ==> #[trigger] entries@[j] == (ks[j], vs[j]),
        decreases rev@.len(),
    {
        let m = rev.len();
        let e = rev.pop().unwrap();
        proof {
            assert(e == rev0[m - 1]);
            assert(rev@ =~= rev0.take(m - 1));
        }
        entries.push(e);
    }
    proof {
        crate::model::lemma_entries_view(entries@);
        assert(crate::model::entries_view(entries@) =~= zip_entries(
            ks.map_values(|k: String| k@),
            vs.map_values(|v: PropertyValue| v@),
        ));
    }
    entries
}

/// Decode a property set at nesting `depth`.
pub fn decode_property_set(bytes: &[u8], depth: usize) -> (res: Result<crate::model::PropertySet, SparkplugError>)
    ensures
        match decode_property_set_spec(bytes@, depth as nat) {
            Ok(v) => res matches Ok(ps) && ps@ == v,
            Err(k) => res matches Err(e) && e.kind() == k,
        },
    decreases bytes@.len(),
{
    if depth > MAX_DEPTH {
        return Err(SparkplugError::RecursionLimit);
    }
    let ghost step = property_set_step(depth as nat, bytes@.len());
    let ghost init = PropertySetAcc { keys: seq![], values: seq![] };
    let mut r = Reader::new(bytes);
    let mut keys: Vec<String> = Vec::new();
    let mut values: Vec<PropertyValue> = Vec::new();
    let ghost mut fs: Seq<Field> = seq![];
    proof {
        lemma_tokens_start(bytes@);
        assert(keys@.map_values(|k: String| k@) =~= Seq::<Seq<char>>::empty());
        assert(values@.map_values(|v: PropertyValue| v@) =~= Seq::<PropertyValueView>::empty());
    }
    while !r.is_empty()
        invariant
            depth <= MAX_DEPTH,
            step == property_set_step(depth as nat, bytes@.len()),
            init == (PropertySetAcc { keys: seq![], values: seq![] }),
            tokens_before(bytes@, fs, r.rest()),
            fold_fields(fs, init, step) == Ok::<PropertySetAcc, ErrorKind>(
                PropertySetAcc {
                    keys: keys@.map_values(|k: String| k@),
                    values: values@.map_values(|v: PropertyValue| v@),
                },
            ),
        decreases r.rest().len(),
    {
        let ghost rest = r.rest();
        let ghost a0 = PropertySetAcc {
            keys: keys@.map_values(|k: String| k@),
            values: values@.map_values(|v: PropertyValue| v@),
        };
        proof {
            lemma_read_field_len(rest);
        }
        let (num, w) = match r.read_field() {
            Ok(x) => x,
            Err(e) => {
                proof {
                    lemma_run_read_error(bytes@, fs, rest, init, step);
                }
                return Err(e);
            },
        };
        let ghost f = Field { num, val: w@ };
        proof {
            lemma_tokens_advance(bytes@, fs, rest);
            lemma_fold_push(fs, f, init, step);
        }
        match w {
            WireValue::Bytes(b) if num == 1 => {
                match read_str(b) {
                    Ok(k) => {
                        let ghost kv = k@;
                        keys.push(k);
                        proof {
                            assert(keys@.map_values(|k: String| k@) =~= a0.keys.push(kv));
                        }
                    },
                    Err(e) => {
                        proof {
                            lemma_run_step_error(bytes@, fs.push(f), r.rest(), init, step);
                        }
                        return Err(e);
                    },
                }
            },
            WireValue::Bytes(b) if num == 2 => {
                if b.len() >= bytes.len() {
                    proof {
                        lemma_run_step_error(bytes@, fs.push(f), r.rest(), init, step);
                    }
                    return Err(SparkplugError::RecursionLimit);
                }
                match decode_property_value(b, depth + 1) {
                    Ok(v) => {
                        let ghost vv = v@;
                        values.push(v);
                        proof {
                            assert(values@.map_values(|v: PropertyValue| v@) =~= a0.values.push(vv));
                        }
                    },
                    Err(e) => {
                        proof {
                            lemma_run_step_error(bytes@, fs.push(f), r.rest(), init, step);
                        }
                        return Err(e);
                    },
                }
            },
            _ => {},
        }
        proof {
            assert(step(a0, f) == Ok::<PropertySetAcc, ErrorKind>(
                PropertySetAcc {
                    keys: keys@.map_values(|k: String| k@),
                    values: values@.map_values(|v: PropertyValue| v@),
                },
            ));
            fs = fs.push(f);
        }
    }
    proof {
        lemma_run_done(bytes@, fs, r.rest(), init, step);
    }
    if keys.len() != values.len() {
        let mut msg = String::from_str("PropertySet has ");
        crate::state::append_decimal(&mut msg, keys.len() as u64);
        msg.append(" keys but ");
        crate::state::append_decimal(&mut msg, values.len() as u64);
        msg.append(" values");
        return Err(SparkplugError::ValueTypeMismatch(msg));
    }
    let entries = zip_entries_exec(keys, values);
    Ok(crate::model::PropertySet { entries })
}

/// Decode a property value at nesting `depth`.
pub fn decode_property_value(bytes: &[u8], depth: usize) -> (res: Result<PropertyValue, SparkplugError>)
    ensures
        match decode_property_value_spec(bytes@, depth as nat) {
            Ok(v) => res matches Ok(x) && x@ == v,
            Err(k) => res matches Err(e) && e.kind() == k,
        },
    decreases bytes@.len(),
{
    if depth > MAX_DEPTH {
        return Err(SparkplugError::RecursionLimit);
    }
    let ghost step = property_value_step();
    let ghost init = empty_property_value();
    let mut r = Reader::new(bytes);
    let mut type_code: Option<u32> = None;
    let mut is_null = false;
    let mut slots = RawSlots::new();
    let mut set: Option<&[u8]> = None;
    let mut list: Option<&[u8]> = None;
    let ghost mut fs: Seq<Field> = seq![];
    proof {
        lemma_tokens_start(bytes@);
    }
    while !r.is_empty()
        invariant
            depth <= MAX_DEPTH,
            step == property_value_step(),
            init == empty_property_value(),
            tokens_before(bytes@, fs, r.rest()),
            fold_fields(fs, init, step) == Ok::<PropertyValueAcc, ErrorKind>(
                PropertyValueAcc { type_code, is_null, slots: slots@, set: opt_slice(set), list: opt_slice(list) },
            ),
        decreases r.rest().len(),
    {
        let ghost rest = r.rest();
        let ghost a0 = PropertyValueAcc { type_code, is_null, slots: slots@, set: opt_slice(set), list: opt_slice(list) };
        proof {
            lemma_read_field_len(rest);
        }
        let (num, w) = match r.read_field() {
            Ok(x) => x,
            Err(e) => {
                proof {
                    lemma_run_read_error(bytes@, fs, rest, init, step);
                }
                return Err(e);
            },
        };
        let ghost f = Field { num, val: w@ };
        proof {
            lemma_tokens_advance(bytes@, fs, rest);
            lemma_fold_push(fs, f, init, step);
        }
        match &w {
            WireValue::Varint(v) if num == 1 => {
                type_code = Some(*v as u32);
            },
            WireValue::Varint(v) if num == 2 => {
                is_null = *v != 0;
            },
            WireValue::Bytes(b) if num == 9 => {
                set = Some(*b);
            },
            WireValue::Bytes(b) if num == 10 => {
                list = Some(*b);
            },
            _ => {
                match slots.record(num, &w, 3) {
                    Ok(_) => {},
                    Err(e) => {
                        proof {
                            lemma_run_step_error(bytes@, fs.push(f), r.rest(), init, step);
                        }
                        return Err(e);
                    },
                }
            },
        }
        proof {
            assert(step(a0, f) == Ok::<PropertyValueAcc, ErrorKind>(
                PropertyValueAcc { type_code, is_null, slots: slots@, set: opt_slice(set), list: opt_slice(list) },
            ));
            fs = fs.push(f);
        }
    }
    proof {
        lemma_run_done(bytes@, fs, r.rest(), init, step);
    }
    let code = match type_code {
        Some(c) => c,
        None => return Err(mismatch("PropertyValue missing type")),
    };
    let dt = match DataType::from_u32(code) {
        Ok(d) => d,
        Err(e) => return Err(e),
    };
    if is_null {
        return Ok(PropertyValue::Null(dt));
    }
    match slots.scalar(dt) {
        Some(Some(v)) => Ok(scalar_property_value(v)),
        Some(None) => Err(dt_mismatch(dt, "")),
        None => {
            if dt == DataType::PropertySet {
                match set {
                    None => Err(mismatch("PropertySet value missing")),
                    Some(b) => {
                        if b.len() >= bytes.len() {
                            return Err(SparkplugError::RecursionLimit);
                        }
                        match decode_property_set(b, depth + 1) {
                            Ok(ps) => Ok(PropertyValue::PropertySet(ps)),
                            Err(e) => Err(e),
                        }
                    },
                }
            } else if dt == DataType::PropertySetList {
                match list {
                    None => Err(mismatch("PropertySetList value missing")),
                    Some(b) => {
                        if b.len() >= bytes.len() {
                            return Err(SparkplugError::RecursionLimit);
                        }
                        match decode_property_set_list(b, depth + 1) {
                            Ok(l) => Ok(PropertyValue::PropertySetList(l)),
                            Err(e) => Err(e),
                        }
                    },
                }
            } else {
                Err(dt_mismatch(dt, " is not a valid property value type"))
            }
        },
    }
}

/// Decode a property-set list at nesting `depth`.
pub fn decode_property_set_list(bytes: &[u8], depth: usize) -> (res: Result<crate::model::PropertySetList, SparkplugError>)
    ensures
        match decode_property_set_list_spec(bytes@, depth as nat) {
            Ok(v) => res matches Ok(l) && l@ == v,
            Err(k) => res matches Err(e) && e.kind() == k,
        },
    decreases bytes@.len(),
{
    if depth > MAX_DEPTH {
        return Err(SparkplugError::RecursionLimit);
    }
    let ghost step = property_set_list_step(depth as nat, bytes@.len());
    let ghost init = Seq::<crate::model::PropertySetView>::empty();
    let mut r = Reader::new(bytes);
    let mut sets: Vec<crate::model::PropertySet> = Vec::new();
    let ghost mut fs: Seq<Field> = seq![];
    proof {
        lemma_tokens_start(bytes@);
    }
    while !r.is_empty()
        invariant
            depth <= MAX_DEPTH,
            step == property_set_list_step(depth as nat, bytes@.len()),
            init == Seq::<crate::model::PropertySetView>::empty(),
            tokens_before(bytes@, fs, r.rest()),
            fold_fields(fs, init, step) == Ok::<Seq<crate::model::PropertySetView>, ErrorKind>(
                crate::model::sets_view(sets@),
            ),
        decreases r.rest().len(),
    {
        let ghost rest = r.rest();
        let ghost a0 = crate::model::sets_view(sets@);
        let ghost sets0 = sets@;
        proof {
            lemma_read_field_len(rest);
        }
        let (num, w) = match r.read_field() {
            Ok(x) => x,
            Err(e) => {
                proof {
                    lemma_run_read_error(bytes@, fs, rest, init, step);
                }
                return Err(e);
            },
        };
        let ghost f = Field { num, val: w@ };
        proof {
            lemma_tokens_advance(bytes@, fs, rest);
            lemma_fold_push(fs, f, init, step);
        }
        match w {
            WireValue::Bytes(b) if num == 1 => {
                if b.len() >= bytes.len() {
                    proof {
                        lemma_run_step_error(bytes@, fs.push(f), r.rest(), init, step);
                    }
                    return Err(SparkplugError::RecursionLimit);
                }
                match decode_property_set(b, depth + 1) {
                    Ok(ps) => {
                        sets.push(ps);
                        proof {
                            assert(sets@.drop_last() =~= sets0);
                        }
                    },
                    Err(e) => {
                        proof {
                            lemma_run_step_error(bytes@, fs.push(f), r.rest(), init, step);
                        }
                        return Err(e);
                    },
                }
            },
            _ => {},
        }
        proof {
            assert(step(a0, f) == Ok::<Seq<crate::model::PropertySetView>, ErrorKind>(
                crate::model::sets_view(sets@),
            ));
            fs = fs.push(f);
        }
    }
    proof {
        lemma_run_done(bytes@, fs, r.rest(), init, step);
    }
    Ok(crate::model::PropertySetList { sets })
}

// ---------------------------------------------------------------------------
// Metrics and templates
// ---------------------------------------------------------------------------

/// The datatype index a registry offers to decoding.
pub open spec fn types_index(types: Option<&AliasRegistry>) -> Option<TypeIndex> {
    match types {
        Some(reg) => Some(type_index(reg@)),
        None => None,
    }
}

/// What a metric message has shown so far.
struct RawMetric<'a> {
    name: Option<String>,
    alias: Option<u64>,
    timestamp: Option<u64>,
    datatype: Option<u32>,
    is_historical: Option<bool>,
    is_transient: Option<bool>,
    is_null: bool,
    metadata: Option<MetaData>,
    properties: Option<crate::model::PropertySet>,
    slots: RawSlots,
    bytes_v: Option<&'a [u8]>,
    dataset_v: Option<&'a [u8]>,
    template_v: Option<&'a [u8]>,
}

impl<'a> View for RawMetric<'a> {
    type V = MetricAcc;

    closed spec fn view(&self) -> MetricAcc {
        MetricAcc {
            name: opt_str(self.name),
            alias: self.alias,
            timestamp: self.timestamp,
            datatype: self.datatype,
            is_historical: self.is_historical,
            is_transient: self.is_transient,
            is_null: self.is_null,
            metadata: match self.metadata {
                Some(md) => Some(md@),
                None => None,
            },
            properties: match self.properties {
                Some(ps) => Some(ps@),
                None => None,
            },
            slots: self.slots@,
            bytes_v: opt_slice(self.bytes_v),
            dataset_v: opt_slice(self.dataset_v),
            template_v: opt_slice(self.template_v),
        }
    }
}

/// The datatype of a stripped metric, recovered from the registry by name, else by alias.
fn recover(types: Option<&AliasRegistry>, name: &Option<String>, alias: Option<u64>) -> (dt: Option<DataType>)
    ensures
        dt == recover_datatype(types_index(types), opt_str(*name), alias),
{
    match types {
        None => None,
        Some(reg) => match name {
            Some(n) => reg.datatype_for_name(n.as_str()),
            None => match alias {
                Some(a) => reg.datatype_for_alias(a),
                None => None,
            },
        },
    }
}

/// The value of a non-null metric of datatype `dt` other than `Template`.
fn build_value(
    dt: DataType,
    slots: RawSlots,
    bytes_v: Option<&[u8]>,
    dataset_v: Option<&[u8]>,
    Ghost(a): Ghost<MetricAcc>,
    Ghost(types): Ghost<Option<TypeIndex>>,
    Ghost(depth): Ghost<nat>,
    Ghost(bound): Ghost<nat>,
) -> (res: Result<MetricValue, SparkplugError>)
    requires
        dt != DataType::Template,
        a.slots == slots@,
        a.bytes_v == opt_slice(bytes_v),
        a.dataset_v == opt_slice(dataset_v),
    ensures
        match metric_value_finish(dt, a, types, depth, bound) {
            Ok(v) => res matches Ok(x) && x@ == v,
            Err(k) => res matches Err(e) && e.kind() == k,
        },
{
    if dt == DataType::Uuid {
        return match slots.string_v {
            Some(s) => Ok(MetricValue::Uuid(s)),
            None => Err(mismatch("Uuid expected string_value")),
        };
    }
    if dt == DataType::Bytes || dt == DataType::File {
        return match bytes_v {
            Some(b) => {
                let v = slice_to_vec(b);
                if dt == DataType::Bytes {
                    Ok(MetricValue::Bytes(v))
                } else {
                    Ok(MetricValue::File(v))
                }
            },
            None => Err(dt_mismatch(dt, " expected bytes_value")),
        };
    }
    if dt == DataType::DataSet {
        return match dataset_v {
            Some(b) => match decode_dataset(b) {
                Ok(d) => Ok(MetricValue::DataSet(d)),
                Err(e) => Err(e),
            },
            None => Err(mismatch("DataSet expected dataset_value")),
        };
    }
    if dt.is_array() {
        return match bytes_v {
            Some(b) => unpack_array(dt, b),
            None => Err(dt_mismatch(dt, " expected bytes_value")),
        };
    }
    match slots.scalar(dt) {
        Some(Some(v)) => Ok(scalar_metric_value(v)),
        Some(None) => Err(scalar_mismatch(dt)),
        None => Err(dt_mismatch(dt, " is not a valid metric value type")),
    }
}

/// Decode a metric at nesting `depth`; `types` recovers a stripped datatype.
pub fn decode_metric(bytes: &[u8], types: Option<&AliasRegistry>, depth: usize) -> (res: Result<crate::model::Metric, SparkplugError>)
    ensures
        match decode_metric_spec(bytes@, types_index(types), depth as nat) {
            Ok(v) => res matches Ok(m) && m@ == v,
            Err(k) => res matches Err(e) && e.kind() == k,
        },
    decreases bytes@.len(),
{
    if depth > MAX_DEPTH {
        return Err(SparkplugError::RecursionLimit);
    }
    let ghost step = metric_step(depth as nat, bytes@.len());
    let ghost init = empty_metric();
    let mut r = Reader::new(bytes);
    let mut raw = RawMetric {
        name: None,
        alias: None,
        timestamp: None,
        datatype: None,
        is_historical: None,
        is_transient: None,
        is_null: false,
        metadata: None,
        properties: None,
        slots: RawSlots::new(),
        bytes_v: None,
        dataset_v: None,
        template_v: None,
    };
    let ghost mut fs: Seq<Field> = seq![];
    proof {
        lemma_tokens_start(bytes@);
    }
    while !r.is_empty()
        invariant
            depth <= MAX_DEPTH,
            step == metric_step(depth as nat, bytes@.len()),
            init == empty_metric(),
            tokens_before(bytes@, fs, r.rest()),
            fold_fields(fs, init, step) == Ok::<MetricAcc, ErrorKind>(raw@),
        decreases r.rest().len(),
    {
        let ghost rest = r.rest();
        let ghost a0 = raw@;
        proof {
            lemma_read_field_len(rest);
        }
        let (num, w) = match r.read_field() {
            Ok(x) => x,
            Err(e) => {
                proof {
                    lemma_run_read_error(bytes@, fs, rest, init, step);
                }
                return Err(e);
            },
        };
        let ghost f = Field { num, val: w@ };
        proof {
            lemma_tokens_advance(bytes@, fs, rest);
            lemma_fold_push(fs, f, init, step);
        }
        match &w {
            WireValue::Bytes(b) if num == 1 => {
                match read_str(b) {
                    Ok(s) => {
                        raw.name = Some(s);
                    },
                    Err(e) => {
                        proof {
                            lemma_run_step_error(bytes@, fs.push(f), r.rest(), init, step);
                        }
                        return Err(e);
                    },
                }
            },
            WireValue::Varint(v) if num == 2 => {
                raw.alias = Some(*v);
            },
            WireValue::Varint(v) if num == 3 => {
                raw.timestamp = Some(*v);
            },
            WireValue::Varint(v) if num == 4 => {
                raw.datatype = Some(*v as u32);
            },
            WireValue::Varint(v) if num == 5 => {
                raw.is_historical = Some(*v != 0);
            },
            WireValue::Varint(v) if num == 6 => {
                raw.is_transient = Some(*v != 0);
            },
            WireValue::Varint(v) if num == 7 => {
                raw.is_null = *v != 0;
            },
            WireValue::Bytes(b) if num == 8 => {
                match decode_metadata(b) {
                    Ok(md) => {
                        raw.metadata = Some(md);
                    },
                    Err(e) => {
                        proof {
                            lemma_run_step_error(bytes@, fs.push(f), r.rest(), init, step);
                        }
                        return Err(e);
                    },
                }
            },
            WireValue::Bytes(b) if num == 9 => {
                if b.len() >= bytes.len() {
                    proof {
                        lemma_run_step_error(bytes@, fs.push(f), r.rest(), init, step);
                    }
                    return Err(SparkplugError::RecursionLimit);
                }
                match decode_property_set(b, depth + 1) {
                    Ok(ps) => {
                        raw.properties = Some(ps);
                    },
                    Err(e) => {
                        proof {
                            lemma_run_step_error(bytes@, fs.push(f), r.rest(), init, step);
                        }
                        return Err(e);
                    },
                }
            },
            WireValue::Bytes(b) if num == 16 => {
                raw.bytes_v = Some(*b);
            },
            WireValue::Bytes(b) if num == 17 => {
                raw.dataset_v = Some(*b);
            },
            WireValue::Bytes(b) if num == 18 => {
                raw.template_v = Some(*b);
            },
            _ => {
                match raw.slots.record(num, &w, 10) {
                    Ok(_) => {},
                    Err(e) => {
                        proof {
                            lemma_run_step_error(bytes@, fs.push(f), r.rest(), init, step);
                        }
                        return Err(e);
                    },
                }
            },
        }
        proof {
            assert(step(a0, f) == Ok::<MetricAcc, ErrorKind>(raw@));
            fs = fs.push(f);
        }
    }
    proof {
        lemma_run_done(bytes@, fs, r.rest(), init, step);
    }
    let ghost a = raw@;
    let dt = match raw.datatype {
        Some(c) => match DataType::from_u32(c) {
            Ok(d) => d,
            Err(e) => return Err(e),
        },
        None => match recover(types, &raw.name, raw.alias) {
            Some(d) => d,
            None => {
                let msg = match (&raw.name, raw.alias) {
                    (Some(n), _) => {
                        let mut m = crate::util::concat_str("name \"", n.as_str());
                        m.append("\"");
                        m
                    },
                    (None, Some(a)) => {
                        let mut m = String::from_str("alias ");
                        crate::state::append_decimal(&mut m, a);
                        m
                    },
                    (None, None) => String::from_str("anonymous metric"),
                };
                return Err(SparkplugError::MissingDataType(msg));
            },
        },
    };
    let RawMetric {
        name,
        alias,
        timestamp,
        datatype: _,
        is_historical,
        is_transient,
        is_null,
        metadata,
        properties,
        slots,
        bytes_v,
        dataset_v,
        template_v,
    } = raw;
    let value = if is_null {
        MetricValue::Null(dt)
    } else if dt == DataType::Template {
        match template_v {
            None => return Err(mismatch("Template expected template_value")),
            Some(b) => {
                if b.len() >= bytes.len() {
                    return Err(SparkplugError::RecursionLimit);
                }
                match decode_template(b, types, depth + 1) {
                    Ok(t) => MetricValue::Template(Box::new(t)),
                    Err(e) => return Err(e),
                }
            },
        }
    } else {
        match build_value(dt, slots, bytes_v, dataset_v, Ghost(a), Ghost(types_index(types)), Ghost(depth as nat), Ghost(bytes@.len())) {
            Ok(v) => v,
            Err(e) => return Err(e),
        }
    };
    Ok(crate::model::Metric { name, alias, timestamp, value, is_historical, is_transient, metadata, properties })
}

/// Decode a template at nesting `depth`.
pub fn decode_template(bytes: &[u8], types: Option<&AliasRegistry>, depth: usize) -> (res: Result<crate::model::Template, SparkplugError>)
    ensures
        match decode_template_spec(bytes@, types_index(types), depth as nat) {
            Ok(v) => res matches Ok(t) && t@ == v,
            Err(k) => res matches Err(e) && e.kind() == k,
        },
    decreases bytes@.len(),
{
    if depth > MAX_DEPTH {
        return Err(SparkplugError::RecursionLimit);
    }
    let ghost step = template_step(types_index(types), depth as nat, bytes@.len());
    let ghost init = empty_template();
    let mut r = Reader::new(bytes);
    let mut t = crate::model::Template::default();
    let ghost mut fs: Seq<Field> = seq![];
    proof {
        lemma_tokens_start(bytes@);
    }
    while !r.is_empty()
        invariant
            depth <= MAX_DEPTH,
            step == template_step(types_index(types), depth as nat, bytes@.len()),
            init == empty_template(),
            tokens_before(bytes@, fs, r.rest()),
            fold_fields(fs, init, step) == Ok::<crate::model::TemplateView, ErrorKind>(t@),
        decreases r.rest().len(),
    {
        let ghost rest = r.rest();
        let ghost a0 = t@;
        let ghost metrics0 = t.metrics@;
        let ghost params0 = t.parameters@;
        proof {
            lemma_read_field_len(rest);
        }
        let (num, w) = match r.read_field() {
            Ok(x) => x,
            Err(e) => {
                proof {
                    lemma_run_read_error(bytes@, fs, rest, init, step);
                }
                return Err(e);
            },
        };
        let ghost f = Field { num, val: w@ };
        proof {
            lemma_tokens_advance(bytes@, fs, rest);
            lemma_fold_push(fs, f, init, step);
        }
        match w {
            WireValue::Bytes(b) if num == 1 || num == 4 => {
                match read_str(b) {
                    Ok(s) => {
                        if num == 1 {
                            t.version = Some(s);
                        } else {
                            t.template_ref = Some(s);
                        }
                    },
                    Err(e) => {
                        proof {
                            lemma_run_step_error(bytes@, fs.push(f), r.rest(), init, step);
                        }
                        return Err(e);
                    },
                }
            },
            WireValue::Bytes(b) if num == 2 => {
                if b.len() >= bytes.len() {
                    proof {
                        lemma_run_step_error(bytes@, fs.push(f), r.rest(), init, step);
                    }
                    return Err(SparkplugError::RecursionLimit);
                }
                match decode_metric(b, types, depth + 1) {
                    Ok(m) => {
                        t.metrics.push(m);
                        proof {
                            assert(t.metrics@.drop_last() =~= metrics0);
                        }
                    },
                    Err(e) => {
                        proof {
                            lemma_run_step_error(bytes@, fs.push(f), r.rest(), init, step);
                        }
                        return Err(e);
                    },
                }
            },
            WireValue::Bytes(b) if num == 3 => {
                match decode_parameter(b) {
                    Ok(p) => {
                        let ghost pv = p@;
                        t.parameters.push(p);
                        proof {
                            assert(t.parameters@.map_values(|p: Parameter| p@) =~= params0.map_values(
                                |p: Parameter| p@,
                            ).push(pv));
                        }
                    },
                    Err(e) => {
                        proof {
                            lemma_run_step_error(bytes@, fs.push(f), r.rest(), init, step);
                        }
                        return Err(e);
                    },
                }
            },
            WireValue::Varint(v) if num == 5 => {
                t.is_definition = v != 0;
            },
            _ => {},
        }
        proof {
            assert(step(a0, f) == Ok::<crate::model::TemplateView, ErrorKind>(t@));
            fs = fs.push(f);
        }
    }
    proof {
        lemma_run_done(bytes@, fs, r.rest(), init, step);
    }
    Ok(t)
}

// ---------------------------------------------------------------------------
// Payload
// ---------------------------------------------------------------------------

/// Decode a Sparkplug B payload; `types` recovers stripped datatypes.
pub fn decode_payload(bytes: &[u8], types: Option<&AliasRegistry>) -> (res: Result<crate::model::Payload, SparkplugError>)
    ensures
        match decode_payload_spec(bytes@, types_index(types)) {
            Ok(v) => res matches Ok(p) && p@ == v,
            Err(k) => res matches Err(e) && e.kind() == k,
        },
{
    let ghost step = payload_step(types_index(types));
    let ghost init = empty_payload();
    let mut r = Reader::new(bytes);
    let mut p = crate::model::Payload::new();
    let ghost mut fs: Seq<Field> = seq![];
    proof {
        lemma_tokens_start(bytes@);
    }
    while !r.is_empty()
        invariant
            step == payload_step(types_index(types)),
            init == empty_payload(),
            tokens_before(bytes@, fs, r.rest()),
            fold_fields(fs, init, step) == Ok::<crate::model::PayloadView, ErrorKind>(p@),
        decreases r.rest().len(),
    {
        let ghost rest = r.rest();
        let ghost a0 = p@;
        let ghost metrics0 = p.metrics@;
        proof {
            lemma_read_field_len(rest);
        }
        let (num, w) = match r.read_field() {
            Ok(x) => x,
            Err(e) => {
                proof {
                    lemma_run_read_error(bytes@, fs, rest, init, step);
                }
                return Err(e);
            },
        };
        let ghost f = Field { num, val: w@ };
        proof {
            lemma_tokens_advance(bytes@, fs, rest);
            lemma_fold_push(fs, f, init, step);
        }
        match w {
            WireValue::Varint(v) if num == 1 => {
                p.timestamp = Some(v);
            },
            WireValue::Bytes(b) if num == 2 => {
                match decode_metric(b, types, 0) {
                    Ok(m) => {
                        p.metrics.push(m);
                        proof {
                            assert(p.metrics@.drop_last() =~= metrics0);
                        }
                    },
                    Err(e) => {
                        proof {
                            lemma_run_step_error(bytes@, fs.push(f), r.rest(), init, step);
                        }
                        return Err(e);
                    },
                }
            },
            WireValue::Varint(v) if num == 3 => {
                p.seq = Some(v as u8);
            },
            WireValue::Bytes(b) if num == 4 => {
                match read_str(b) {
                    Ok(s) => {
                        p.uuid = Some(s);
                    },
                    Err(e) => {
                        proof {
                            lemma_run_step_error(bytes@, fs.push(f), r.rest(), init, step);
                        }
                        return Err(e);
                    },
                }
            },
            WireValue::Bytes(b) if num == 5 => {
                p.body = Some(slice_to_vec(b));
            },
            _ => {},
        }
        proof {
            assert(step(a0, f) == Ok::<crate::model::PayloadView, ErrorKind>(p@));
            fs = fs.push(f);
        }
    }
    proof {
        lemma_run_done(bytes@, fs, r.rest(), init, step);
    }
    Ok(p)
}

} // verus!
