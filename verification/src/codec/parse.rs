//! The specification of decoding: each message is read field by field
//! ([`run_fields`]) and each field is interpreted by the message's step function
//! as soon as it is read; nested messages are decoded when their field is met.
//! Nesting deeper than [`MAX_DEPTH`] is refused.
use vstd::prelude::*;
use vstd::utf8::*;

use crate::codec::arrays::unpack;
use crate::codec::wire::{read_varint, run_fields, Field, Wire};
use crate::datatype::{dt_code, dt_from_code, DataType};
use crate::error::ErrorKind;
use crate::model::{
    dataset_wf, empty_metadata, DataSetView, MetaDataView, MetricView, ParameterView, PayloadView,
    PropertySetListView, PropertySetView, TemplateView,
};
use crate::value::{MetricValueView, PropertyValueView, ScalarView};

verus! {

/// Maximum nesting depth (templates / property sets) before decoding bails out.
pub const MAX_DEPTH: usize = 32;

/// The datatypes a birth declared, by metric name and by alias.
pub struct TypeIndex {
    pub by_name: Map<Seq<char>, DataType>,
    pub by_alias: Map<u64, DataType>,
}

/// The datatype of a metric whose datatype field was stripped: looked up by
/// name when it has one, else by alias.
pub open spec fn recover_datatype(types: Option<TypeIndex>, name: Option<Seq<char>>, alias: Option<u64>) -> Option<DataType> {
    match types {
        None => None,
        Some(t) => match name {
            Some(n) => if t.by_name.contains_key(n) {
                Some(t.by_name[n])
            } else {
                None
            },
            None => match alias {
                Some(a) => if t.by_alias.contains_key(a) {
                    Some(t.by_alias[a])
                } else {
                    None
                },
                None => None,
            },
        },
    }
}

/// The characters of a `string` field, or `InvalidUtf8`.
pub open spec fn utf8(b: Seq<u8>) -> Result<Seq<char>, ErrorKind> {
    if valid_utf8(b) {
        Ok(decode_utf8(b))
    } else {
        Err(ErrorKind::InvalidUtf8)
    }
}

/// The varint of a field, if the field has wire type 0.
pub open spec fn varint_of(w: Wire) -> Option<u64> {
    match w {
        Wire::Varint(v) => Some(v),
        _ => None,
    }
}

/// The payload of a field, if the field is length-delimited.
pub open spec fn bytes_of(w: Wire) -> Option<Seq<u8>> {
    match w {
        Wire::Bytes(b) => Some(b),
        _ => None,
    }
}

/// The scalar value fields seen so far (the last occurrence of each wins).
pub struct Slots {
    pub int_v: Option<u32>,
    pub long_v: Option<u64>,
    pub float_v: Option<u32>,
    pub double_v: Option<u64>,
    pub bool_v: Option<bool>,
    pub string_v: Option<Seq<char>>,
}

/// No scalar value field seen.
pub open spec fn no_slots() -> Slots {
    Slots { int_v: None, long_v: None, float_v: None, double_v: None, bool_v: None, string_v: None }
}

/// Whether any scalar value field was seen.
pub open spec fn any_slot(s: Slots) -> bool {
    s.int_v is Some || s.long_v is Some || s.float_v is Some || s.double_v is Some
        || s.bool_v is Some || s.string_v is Some
}

/// Interpret `f` as one of the scalar value fields numbered from `base`; `None`
/// when it is not one of them.
pub open spec fn slot_step(sl: Slots, f: Field, base: u32) -> Option<Result<Slots, ErrorKind>> {
    match f.val {
        Wire::Varint(v) => if f.num == base {
            Some(Ok(Slots { int_v: Some(v as u32), ..sl }))
        } else if f.num == base + 1 {
            Some(Ok(Slots { long_v: Some(v), ..sl }))
        } else if f.num == base + 4 {
            Some(Ok(Slots { bool_v: Some(v != 0), ..sl }))
        } else {
            None
        },
        Wire::Fixed32(x) => if f.num == base + 2 {
            Some(Ok(Slots { float_v: Some(x), ..sl }))
        } else {
            None
        },
        Wire::Fixed64(x) => if f.num == base + 3 {
            Some(Ok(Slots { double_v: Some(x), ..sl }))
        } else {
            None
        },
        Wire::Bytes(b) => if f.num == base + 5 {
            match utf8(b) {
                Ok(s) => Some(Ok(Slots { string_v: Some(s), ..sl })),
                Err(e) => Some(Err(e)),
            }
        } else {
            None
        },
    }
}

/// The basic scalar of datatype `dt` held by the slots: `None` when `dt` is not
/// a basic scalar type, `Some(None)` when its slot was not seen.
pub open spec fn scalar_from_slots(dt: DataType, sl: Slots) -> Option<Option<ScalarView>> {
    match dt {
        DataType::Int8 => Some(match sl.int_v { Some(v) => Some(ScalarView::Int8(v as i8)), None => None }),
        DataType::Int16 => Some(match sl.int_v { Some(v) => Some(ScalarView::Int16(v as i16)), None => None }),
        DataType::Int32 => Some(match sl.int_v { Some(v) => Some(ScalarView::Int32(v as i32)), None => None }),
        DataType::UInt8 => Some(match sl.int_v { Some(v) => Some(ScalarView::UInt8(v as u8)), None => None }),
        DataType::UInt16 => Some(match sl.int_v { Some(v) => Some(ScalarView::UInt16(v as u16)), None => None }),
        DataType::UInt32 => Some(match sl.int_v { Some(v) => Some(ScalarView::UInt32(v)), None => None }),
        DataType::Int64 => Some(match sl.long_v { Some(v) => Some(ScalarView::Int64(v as i64)), None => None }),
        DataType::UInt64 => Some(match sl.long_v { Some(v) => Some(ScalarView::UInt64(v)), None => None }),
        DataType::DateTime => Some(match sl.long_v { Some(v) => Some(ScalarView::DateTime(v as i64)), None => None }),
        DataType::Float => Some(match sl.float_v { Some(v) => Some(ScalarView::Float(v)), None => None }),
        DataType::Double => Some(match sl.double_v { Some(v) => Some(ScalarView::Double(v)), None => None }),
        DataType::Boolean => Some(match sl.bool_v { Some(v) => Some(ScalarView::Boolean(v)), None => None }),
        DataType::String => Some(match sl.string_v { Some(v) => Some(ScalarView::String(v)), None => None }),
        DataType::Text => Some(match sl.string_v { Some(v) => Some(ScalarView::Text(v)), None => None }),
        _ => None,
    }
}

// ---------------------------------------------------------------------------
// MetaData
// ---------------------------------------------------------------------------

/// The step of a metadata message.
pub open spec fn metadata_step() -> spec_fn(MetaDataView, Field) -> Result<MetaDataView, ErrorKind> {
    |md: MetaDataView, f: Field| if f.num == 1 && varint_of(f.val) is Some {
        Ok(MetaDataView { is_multi_part: Some(varint_of(f.val)->0 != 0), ..md })
    } else if f.num == 3 && varint_of(f.val) is Some {
        Ok(MetaDataView { size: Some(varint_of(f.val)->0), ..md })
    } else if f.num == 4 && varint_of(f.val) is Some {
        Ok(MetaDataView { seq: Some(varint_of(f.val)->0), ..md })
    } else if (f.num == 2 || 5 <= f.num <= 8) && bytes_of(f.val) is Some {
        match utf8(bytes_of(f.val)->0) {
            Err(e) => Err(e),
            Ok(s) => Ok(if f.num == 2 {
                MetaDataView { content_type: Some(s), ..md }
            } else if f.num == 5 {
                MetaDataView { file_name: Some(s), ..md }
            } else if f.num == 6 {
                MetaDataView { file_type: Some(s), ..md }
            } else if f.num == 7 {
                MetaDataView { md5: Some(s), ..md }
            } else {
                MetaDataView { description: Some(s), ..md }
            }),
        }
    } else {
        Ok(md)
    }
}

/// Decode a metadata message.
pub open spec fn decode_metadata_spec(s: Seq<u8>) -> Result<MetaDataView, ErrorKind> {
    run_fields(s, empty_metadata(), metadata_step())
}

// ---------------------------------------------------------------------------
// Parameters and DataSets
// ---------------------------------------------------------------------------

/// What a parameter message has shown so far.
pub struct ParamAcc {
    pub name: Option<Seq<char>>,
    pub type_code: Option<u32>,
    pub slots: Slots,
}

/// The step of a parameter message.
pub open spec fn parameter_step() -> spec_fn(ParamAcc, Field) -> Result<ParamAcc, ErrorKind> {
    |a: ParamAcc, f: Field| if f.num == 1 && bytes_of(f.val) is Some {
        match utf8(bytes_of(f.val)->0) {
            Ok(s) => Ok(ParamAcc { name: Some(s), ..a }),
            Err(e) => Err(e),
        }
    } else if f.num == 2 && varint_of(f.val) is Some {
        Ok(ParamAcc { type_code: Some(varint_of(f.val)->0 as u32), ..a })
    } else {
        match slot_step(a.slots, f, 3) {
            Some(Ok(sl)) => Ok(ParamAcc { slots: sl, ..a }),
            Some(Err(e)) => Err(e),
            None => Ok(a),
        }
    }
}

/// Decode a template parameter.
pub open spec fn decode_parameter_spec(s: Seq<u8>) -> Result<ParameterView, ErrorKind> {
    match run_fields(s, ParamAcc { name: None, type_code: None, slots: no_slots() }, parameter_step()) {
        Err(e) => Err(e),
        Ok(a) => match a.name {
            None => Err(ErrorKind::ValueTypeMismatch),
            Some(name) => match a.type_code {
                None => Err(ErrorKind::ValueTypeMismatch),
                Some(c) => match dt_from_code(c) {
                    None => Err(ErrorKind::UnknownDataType(c)),
                    Some(dt) => if any_slot(a.slots) {
                        match scalar_from_slots(dt, a.slots) {
                            Some(Some(v)) => Ok(ParameterView { name, datatype: dt, value: Some(v) }),
                            _ => Err(ErrorKind::ValueTypeMismatch),
                        }
                    } else {
                        Ok(ParameterView { name, datatype: dt, value: None })
                    },
                },
            },
        },
    }
}

/// The step of a DataSet cell.
pub open spec fn cell_step() -> spec_fn(Slots, Field) -> Result<Slots, ErrorKind> {
    |sl: Slots, f: Field| match slot_step(sl, f, 1) {
        Some(r) => r,
        None => Ok(sl),
    }
}

/// Decode a DataSet cell of column type `dt` (no value field: a null cell).
pub open spec fn decode_cell_spec(s: Seq<u8>, dt: DataType) -> Result<Option<ScalarView>, ErrorKind> {
    match run_fields(s, no_slots(), cell_step()) {
        Err(e) => Err(e),
        Ok(sl) => if !any_slot(sl) {
            Ok(None)
        } else {
            match scalar_from_slots(dt, sl) {
                None => Err(ErrorKind::DataSetShape),
                Some(None) => Err(ErrorKind::ValueTypeMismatch),
                Some(Some(v)) => Ok(Some(v)),
            }
        },
    }
}

/// The step of a DataSet row: the `i`-th cell has the `i`-th column type.
pub open spec fn row_step(types: Seq<DataType>) -> spec_fn(Seq<Option<ScalarView>>, Field) -> Result<Seq<Option<ScalarView>>, ErrorKind> {
    |cells: Seq<Option<ScalarView>>, f: Field| if f.num == 1 && bytes_of(f.val) is Some {
        if cells.len() >= types.len() {
            Err(ErrorKind::DataSetShape)
        } else {
            match decode_cell_spec(bytes_of(f.val)->0, types[cells.len() as int]) {
                Ok(c) => Ok(cells.push(c)),
                Err(e) => Err(e),
            }
        }
    } else {
        Ok(cells)
    }
}

/// Decode a DataSet row.
pub open spec fn decode_row_spec(s: Seq<u8>, types: Seq<DataType>) -> Result<Seq<Option<ScalarView>>, ErrorKind> {
    run_fields(s, seq![], row_step(types))
}

/// The varints packed in `b`, read until `b` ends.
pub open spec fn read_packed(b: Seq<u8>) -> Result<Seq<u32>, ErrorKind>
    decreases b.len(),
{
    if b.len() == 0 {
        Ok(seq![])
    } else {
        match read_varint(b) {
            Err(e) => Err(e),
            Ok((v, n)) => if 0 < n <= b.len() {
                match read_packed(b.skip(n as int)) {
                    Ok(r) => Ok(seq![v as u32] + r),
                    Err(e) => Err(e),
                }
            } else {
                Ok(seq![])
            },
        }
    }
}

/// What a DataSet message has shown so far.
pub struct DataSetAcc {
    pub columns: Seq<Seq<char>>,
    pub codes: Seq<u32>,
    pub rows: Seq<Seq<u8>>,
}

/// The step of a DataSet message (`num_of_columns` is ignored; packed `types` are accepted).
pub open spec fn dataset_step() -> spec_fn(DataSetAcc, Field) -> Result<DataSetAcc, ErrorKind> {
    |a: DataSetAcc, f: Field| if f.num == 2 && bytes_of(f.val) is Some {
        match utf8(bytes_of(f.val)->0) {
            Ok(s) => Ok(DataSetAcc { columns: a.columns.push(s), ..a }),
            Err(e) => Err(e),
        }
    } else if f.num == 3 && varint_of(f.val) is Some {
        Ok(DataSetAcc { codes: a.codes.push(varint_of(f.val)->0 as u32), ..a })
    } else if f.num == 3 && bytes_of(f.val) is Some {
        match read_packed(bytes_of(f.val)->0) {
            Ok(cs) => Ok(DataSetAcc { codes: a.codes + cs, ..a }),
            Err(e) => Err(e),
        }
    } else if f.num == 4 && bytes_of(f.val) is Some {
        Ok(DataSetAcc { rows: a.rows.push(bytes_of(f.val)->0), ..a })
    } else {
        Ok(a)
    }
}

/// The datatypes of codes, stopping at the first unknown code.
pub open spec fn codes_to_types(codes: Seq<u32>) -> Result<Seq<DataType>, ErrorKind>
    decreases codes.len(),
{
    if codes.len() == 0 {
        Ok(seq![])
    } else {
        match codes_to_types(codes.drop_last()) {
            Err(e) => Err(e),
            Ok(ts) => match dt_from_code(codes.last()) {
                Some(d) => Ok(ts.push(d)),
                None => Err(ErrorKind::UnknownDataType(codes.last())),
            },
        }
    }
}

/// Decode each row, stopping at the first that fails.
pub open spec fn decode_rows(rows: Seq<Seq<u8>>, types: Seq<DataType>) -> Result<Seq<Seq<Option<ScalarView>>>, ErrorKind>
    decreases rows.len(),
{
    if rows.len() == 0 {
        Ok(seq![])
    } else {
        match decode_rows(rows.drop_last(), types) {
            Err(e) => Err(e),
            Ok(rs) => match decode_row_spec(rows.last(), types) {
                Ok(r) => Ok(rs.push(r)),
                Err(e) => Err(e),
            },
        }
    }
}

/// Decode a DataSet: its fields, then its types, then its rows, then its shape.
pub open spec fn decode_dataset_spec(s: Seq<u8>) -> Result<DataSetView, ErrorKind> {
    match run_fields(s, DataSetAcc { columns: seq![], codes: seq![], rows: seq![] }, dataset_step()) {
        Err(e) => Err(e),
        Ok(a) => match codes_to_types(a.codes) {
            Err(e) => Err(e),
            Ok(types) => match decode_rows(a.rows, types) {
                Err(e) => Err(e),
                Ok(rows) => {
                    let d = DataSetView { columns: a.columns, types, rows };
                    if dataset_wf(d) {
                        Ok(d)
                    } else {
                        Err(ErrorKind::DataSetShape)
                    }
                },
            },
        },
    }
}

// ---------------------------------------------------------------------------
// Property sets (recursive)
// ---------------------------------------------------------------------------

/// What a property set message has shown so far.
pub struct PropertySetAcc {
    pub keys: Seq<Seq<char>>,
    pub values: Seq<PropertyValueView>,
}

/// The step of a property set at nesting `depth`, within a message of length `bound`.
pub open spec fn property_set_step(depth: nat, bound: nat) -> spec_fn(PropertySetAcc, Field) -> Result<PropertySetAcc, ErrorKind>
    decreases bound, 0nat,
{
    |a: PropertySetAcc, f: Field| if f.num == 1 && bytes_of(f.val) is Some {
        match utf8(bytes_of(f.val)->0) {
            Ok(s) => Ok(PropertySetAcc { keys: a.keys.push(s), ..a }),
            Err(e) => Err(e),
        }
    } else if f.num == 2 && bytes_of(f.val) is Some {
        let b = bytes_of(f.val)->0;
        if b.len() < bound {
            match decode_property_value_spec(b, depth + 1) {
                Ok(v) => Ok(PropertySetAcc { values: a.values.push(v), ..a }),
                Err(e) => Err(e),
            }
        } else {
            Err(ErrorKind::RecursionLimit)
        }
    } else {
        Ok(a)
    }
}

/// Pair up keys and values.
pub open spec fn zip_entries(keys: Seq<Seq<char>>, values: Seq<PropertyValueView>) -> Seq<(Seq<char>, PropertyValueView)> {
    Seq::new(keys.len(), |i: int| (keys[i], values[i]))
}

/// Decode a property set at nesting `depth`.
pub open spec fn decode_property_set_spec(s: Seq<u8>, depth: nat) -> Result<PropertySetView, ErrorKind>
    decreases s.len(), 1nat,
{
    if depth > MAX_DEPTH {
        Err(ErrorKind::RecursionLimit)
    } else {
        match run_fields(s, PropertySetAcc { keys: seq![], values: seq![] }, property_set_step(depth, s.len())) {
            Err(e) => Err(e),
            Ok(a) => if a.keys.len() != a.values.len() {
                Err(ErrorKind::ValueTypeMismatch)
            } else {
                Ok(PropertySetView { entries: zip_entries(a.keys, a.values) })
            },
        }
    }
}

/// What a property value message has shown so far.
pub struct PropertyValueAcc {
    pub type_code: Option<u32>,
    pub is_null: bool,
    pub slots: Slots,
    pub set: Option<Seq<u8>>,
    pub list: Option<Seq<u8>>,
}

/// The step of a property value.
pub open spec fn property_value_step() -> spec_fn(PropertyValueAcc, Field) -> Result<PropertyValueAcc, ErrorKind> {
    |a: PropertyValueAcc, f: Field| if f.num == 1 && varint_of(f.val) is Some {
        Ok(PropertyValueAcc { type_code: Some(varint_of(f.val)->0 as u32), ..a })
    } else if f.num == 2 && varint_of(f.val) is Some {
        Ok(PropertyValueAcc { is_null: varint_of(f.val)->0 != 0, ..a })
    } else if f.num == 9 && bytes_of(f.val) is Some {
        Ok(PropertyValueAcc { set: Some(bytes_of(f.val)->0), ..a })
    } else if f.num == 10 && bytes_of(f.val) is Some {
        Ok(PropertyValueAcc { list: Some(bytes_of(f.val)->0), ..a })
    } else {
        match slot_step(a.slots, f, 3) {
            Some(Ok(sl)) => Ok(PropertyValueAcc { slots: sl, ..a }),
            Some(Err(e)) => Err(e),
            None => Ok(a),
        }
    }
}

/// The value of a property value message once all its fields are read.
pub open spec fn property_value_finish(a: PropertyValueAcc, depth: nat, bound: nat) -> Result<PropertyValueView, ErrorKind>
    decreases bound, 0nat,
{
    match a.type_code {
        None => Err(ErrorKind::ValueTypeMismatch),
        Some(c) => match dt_from_code(c) {
            None => Err(ErrorKind::UnknownDataType(c)),
            Some(dt) => if a.is_null {
                Ok(PropertyValueView::Null(dt))
            } else {
                match scalar_from_slots(dt, a.slots) {
                    Some(Some(v)) => Ok(PropertyValueView::Scalar(v)),
                    Some(None) => Err(ErrorKind::ValueTypeMismatch),
                    None => if dt == DataType::PropertySet {
                        match a.set {
                            None => Err(ErrorKind::ValueTypeMismatch),
                            Some(b) => if b.len() < bound {
                                match decode_property_set_spec(b, depth + 1) {
                                    Ok(ps) => Ok(PropertyValueView::PropertySet(ps)),
                                    Err(e) => Err(e),
                                }
                            } else {
                                Err(ErrorKind::RecursionLimit)
                            },
                        }
                    } else if dt == DataType::PropertySetList {
                        match a.list {
                            None => Err(ErrorKind::ValueTypeMismatch),
                            Some(b) => if b.len() < bound {
                                match decode_property_set_list_spec(b, depth + 1) {
                                    Ok(l) => Ok(PropertyValueView::PropertySetList(l)),
                                    Err(e) => Err(e),
                                }
                            } else {
                                Err(ErrorKind::RecursionLimit)
                            },
                        }
                    } else {
                        Err(ErrorKind::ValueTypeMismatch)
                    },
                }
            },
        },
    }
}

/// The property value with no field seen.
pub open spec fn empty_property_value() -> PropertyValueAcc {
    PropertyValueAcc { type_code: None, is_null: false, slots: no_slots(), set: None, list: None }
}

/// Decode a property value at nesting `depth`.
pub open spec fn decode_property_value_spec(s: Seq<u8>, depth: nat) -> Result<PropertyValueView, ErrorKind>
    decreases s.len(), 1nat,
{
    if depth > MAX_DEPTH {
        Err(ErrorKind::RecursionLimit)
    } else {
        match run_fields(s, empty_property_value(), property_value_step()) {
            Err(e) => Err(e),
            Ok(a) => property_value_finish(a, depth, s.len()),
        }
    }
}

/// The step of a property-set list.
pub open spec fn property_set_list_step(depth: nat, bound: nat) -> spec_fn(Seq<PropertySetView>, Field) -> Result<Seq<PropertySetView>, ErrorKind>
    decreases bound, 0nat,
{
    |sets: Seq<PropertySetView>, f: Field| if f.num == 1 && bytes_of(f.val) is Some {
        let b = bytes_of(f.val)->0;
        if b.len() < bound {
            match decode_property_set_spec(b, depth + 1) {
                Ok(ps) => Ok(sets.push(ps)),
                Err(e) => Err(e),
            }
        } else {
            Err(ErrorKind::RecursionLimit)
        }
    } else {
        Ok(sets)
    }
}

/// Decode a property-set list at nesting `depth`.
pub open spec fn decode_property_set_list_spec(s: Seq<u8>, depth: nat) -> Result<PropertySetListView, ErrorKind>
    decreases s.len(), 1nat,
{
    if depth > MAX_DEPTH {
        Err(ErrorKind::RecursionLimit)
    } else {
        match run_fields(s, seq![], property_set_list_step(depth, s.len())) {
            Err(e) => Err(e),
            Ok(sets) => Ok(PropertySetListView { sets }),
        }
    }
}

// ---------------------------------------------------------------------------
// Metrics and templates (recursive)
// ---------------------------------------------------------------------------

/// What a metric message has shown so far.
pub struct MetricAcc {
    pub name: Option<Seq<char>>,
    pub alias: Option<u64>,
    pub timestamp: Option<u64>,
    pub datatype: Option<u32>,
    pub is_historical: Option<bool>,
    pub is_transient: Option<bool>,
    pub is_null: bool,
    pub metadata: Option<MetaDataView>,
    pub properties: Option<PropertySetView>,
    pub slots: Slots,
    pub bytes_v: Option<Seq<u8>>,
    pub dataset_v: Option<Seq<u8>>,
    pub template_v: Option<Seq<u8>>,
}

/// The metric with no field seen.
pub open spec fn empty_metric() -> MetricAcc {
    MetricAcc {
        name: None,
        alias: None,
        timestamp: None,
        datatype: None,
        is_historical: None,
        is_transient: None,
        is_null: false,
        metadata: None,
        properties: None,
        slots: no_slots(),
        bytes_v: None,
        dataset_v: None,
        template_v: None,
    }
}

/// The step of a metric at nesting `depth`, within a message of length `bound`.
pub open spec fn metric_step(depth: nat, bound: nat) -> spec_fn(MetricAcc, Field) -> Result<MetricAcc, ErrorKind>
    decreases bound, 0nat,
{
    |a: MetricAcc, f: Field| if f.num == 1 && bytes_of(f.val) is Some {
        match utf8(bytes_of(f.val)->0) {
            Ok(s) => Ok(MetricAcc { name: Some(s), ..a }),
            Err(e) => Err(e),
        }
    } else if f.num == 2 && varint_of(f.val) is Some {
        Ok(MetricAcc { alias: Some(varint_of(f.val)->0), ..a })
    } else if f.num == 3 && varint_of(f.val) is Some {
        Ok(MetricAcc { timestamp: Some(varint_of(f.val)->0), ..a })
    } else if f.num == 4 && varint_of(f.val) is Some {
        Ok(MetricAcc { datatype: Some(varint_of(f.val)->0 as u32), ..a })
    } else if f.num == 5 && varint_of(f.val) is Some {
        Ok(MetricAcc { is_historical: Some(varint_of(f.val)->0 != 0), ..a })
    } else if f.num == 6 && varint_of(f.val) is Some {
        Ok(MetricAcc { is_transient: Some(varint_of(f.val)->0 != 0), ..a })
    } else if f.num == 7 && varint_of(f.val) is Some {
        Ok(MetricAcc { is_null: varint_of(f.val)->0 != 0, ..a })
    } else if f.num == 8 && bytes_of(f.val) is Some {
        match decode_metadata_spec(bytes_of(f.val)->0) {
            Ok(md) => Ok(MetricAcc { metadata: Some(md), ..a }),
            Err(e) => Err(e),
        }
    } else if f.num == 9 && bytes_of(f.val) is Some {
        let b = bytes_of(f.val)->0;
        if b.len() < bound {
            match decode_property_set_spec(b, depth + 1) {
                Ok(ps) => Ok(MetricAcc { properties: Some(ps), ..a }),
                Err(e) => Err(e),
            }
        } else {
            Err(ErrorKind::RecursionLimit)
        }
    } else if f.num == 16 && bytes_of(f.val) is Some {
        Ok(MetricAcc { bytes_v: Some(bytes_of(f.val)->0), ..a })
    } else if f.num == 17 && bytes_of(f.val) is Some {
        Ok(MetricAcc { dataset_v: Some(bytes_of(f.val)->0), ..a })
    } else if f.num == 18 && bytes_of(f.val) is Some {
        Ok(MetricAcc { template_v: Some(bytes_of(f.val)->0), ..a })
    } else {
        match slot_step(a.slots, f, 10) {
            Some(Ok(sl)) => Ok(MetricAcc { slots: sl, ..a }),
            Some(Err(e)) => Err(e),
            None => Ok(a),
        }
    }
}

/// The value of a metric of datatype `dt` from what its message showed.
pub open spec fn metric_value_finish(dt: DataType, a: MetricAcc, types: Option<TypeIndex>, depth: nat, bound: nat) -> Result<MetricValueView, ErrorKind>
    decreases bound, 0nat,
{
    match scalar_from_slots(dt, a.slots) {
        Some(Some(v)) => Ok(MetricValueView::Scalar(v)),
        Some(None) => Err(ErrorKind::ValueTypeMismatch),
        None => if dt == DataType::Uuid {
            match a.slots.string_v {
                Some(s) => Ok(MetricValueView::Uuid(s)),
                None => Err(ErrorKind::ValueTypeMismatch),
            }
        } else if dt == DataType::Bytes {
            match a.bytes_v {
                Some(b) => Ok(MetricValueView::Bytes(b)),
                None => Err(ErrorKind::ValueTypeMismatch),
            }
        } else if dt == DataType::File {
            match a.bytes_v {
                Some(b) => Ok(MetricValueView::File(b)),
                None => Err(ErrorKind::ValueTypeMismatch),
            }
        } else if dt == DataType::DataSet {
            match a.dataset_v {
                None => Err(ErrorKind::ValueTypeMismatch),
                Some(b) => match decode_dataset_spec(b) {
                    Ok(d) => Ok(MetricValueView::DataSet(d)),
                    Err(e) => Err(e),
                },
            }
        } else if dt == DataType::Template {
            match a.template_v {
                None => Err(ErrorKind::ValueTypeMismatch),
                Some(b) => if b.len() < bound {
                    match decode_template_spec(b, types, depth + 1) {
                        Ok(t) => Ok(MetricValueView::Template(t)),
                        Err(e) => Err(e),
                    }
                } else {
                    Err(ErrorKind::RecursionLimit)
                },
            }
        } else if 22 <= dt_code(dt) <= 34 {
            match a.bytes_v {
                None => Err(ErrorKind::ValueTypeMismatch),
                Some(b) => unpack(dt, b),
            }
        } else {
            Err(ErrorKind::ValueTypeMismatch)
        },
    }
}

/// The metric once all its fields are read: its datatype is its datatype field,
/// or, when stripped, what `types` records for it.
pub open spec fn metric_finish(a: MetricAcc, types: Option<TypeIndex>, depth: nat, bound: nat) -> Result<MetricView, ErrorKind>
    decreases bound, 1nat,
{
    let dt = match a.datatype {
        Some(c) => match dt_from_code(c) {
            Some(d) => Ok(d),
            None => Err(ErrorKind::UnknownDataType(c)),
        },
        None => match recover_datatype(types, a.name, a.alias) {
            Some(d) => Ok(d),
            None => Err(ErrorKind::MissingDataType),
        },
    };
    match dt {
        Err(e) => Err(e),
        Ok(dt) => {
            let value = if a.is_null {
                Ok(MetricValueView::Null(dt))
            } else {
                metric_value_finish(dt, a, types, depth, bound)
            };
            match value {
                Err(e) => Err(e),
                Ok(v) => Ok(MetricView {
                    name: a.name,
                    alias: a.alias,
                    timestamp: a.timestamp,
                    value: v,
                    is_historical: a.is_historical,
                    is_transient: a.is_transient,
                    metadata: a.metadata,
                    properties: a.properties,
                }),
            }
        },
    }
}

/// Decode a metric at nesting `depth`.
pub open spec fn decode_metric_spec(s: Seq<u8>, types: Option<TypeIndex>, depth: nat) -> Result<MetricView, ErrorKind>
    decreases s.len(), 2nat,
{
    if depth > MAX_DEPTH {
        Err(ErrorKind::RecursionLimit)
    } else {
        match run_fields(s, empty_metric(), metric_step(depth, s.len())) {
            Err(e) => Err(e),
            Ok(a) => metric_finish(a, types, depth, s.len()),
        }
    }
}

/// The template with no field seen.
pub open spec fn empty_template() -> TemplateView {
    TemplateView { version: None, template_ref: None, is_definition: false, metrics: seq![], parameters: seq![] }
}

/// The step of a template at nesting `depth`, within a message of length `bound`.
pub open spec fn template_step(types: Option<TypeIndex>, depth: nat, bound: nat) -> spec_fn(TemplateView, Field) -> Result<TemplateView, ErrorKind>
    decreases bound, 0nat,
{
    |t: TemplateView, f: Field| if (f.num == 1 || f.num == 4) && bytes_of(f.val) is Some {
        match utf8(bytes_of(f.val)->0) {
            Ok(s) => Ok(if f.num == 1 {
                TemplateView { version: Some(s), ..t }
            } else {
                TemplateView { template_ref: Some(s), ..t }
            }),
            Err(e) => Err(e),
        }
    } else if f.num == 2 && bytes_of(f.val) is Some {
        let b = bytes_of(f.val)->0;
        if b.len() < bound {
            match decode_metric_spec(b, types, depth + 1) {
                Ok(m) => Ok(TemplateView { metrics: t.metrics.push(m), ..t }),
                Err(e) => Err(e),
            }
        } else {
            Err(ErrorKind::RecursionLimit)
        }
    } else if f.num == 3 && bytes_of(f.val) is Some {
        match decode_parameter_spec(bytes_of(f.val)->0) {
            Ok(p) => Ok(TemplateView { parameters: t.parameters.push(p), ..t }),
            Err(e) => Err(e),
        }
    } else if f.num == 5 && varint_of(f.val) is Some {
        Ok(TemplateView { is_definition: varint_of(f.val)->0 != 0, ..t })
    } else {
        Ok(t)
    }
}

/// Decode a template at nesting `depth`.
pub open spec fn decode_template_spec(s: Seq<u8>, types: Option<TypeIndex>, depth: nat) -> Result<TemplateView, ErrorKind>
    decreases s.len(), 2nat,
{
    if depth > MAX_DEPTH {
        Err(ErrorKind::RecursionLimit)
    } else {
        run_fields(s, empty_template(), template_step(types, depth, s.len()))
    }
}

// ---------------------------------------------------------------------------
// Payload
// ---------------------------------------------------------------------------

/// The payload with no field seen.
pub open spec fn empty_payload() -> PayloadView {
    PayloadView { timestamp: None, metrics: seq![], seq: None, uuid: None, body: None }
}

/// The step of a payload.
pub open spec fn payload_step(types: Option<TypeIndex>) -> spec_fn(PayloadView, Field) -> Result<PayloadView, ErrorKind> {
    |p: PayloadView, f: Field| if f.num == 1 && varint_of(f.val) is Some {
        Ok(PayloadView { timestamp: Some(varint_of(f.val)->0), ..p })
    } else if f.num == 2 && bytes_of(f.val) is Some {
        match decode_metric_spec(bytes_of(f.val)->0, types, 0) {
            Ok(m) => Ok(PayloadView { metrics: p.metrics.push(m), ..p }),
            Err(e) => Err(e),
        }
    } else if f.num == 3 && varint_of(f.val) is Some {
        Ok(PayloadView { seq: Some(varint_of(f.val)->0 as u8), ..p })
    } else if f.num == 4 && bytes_of(f.val) is Some {
        match utf8(bytes_of(f.val)->0) {
            Ok(s) => Ok(PayloadView { uuid: Some(s), ..p }),
            Err(e) => Err(e),
        }
    } else if f.num == 5 && bytes_of(f.val) is Some {
        Ok(PayloadView { body: Some(bytes_of(f.val)->0), ..p })
    } else {
        Ok(p)
    }
}

/// Decode a Sparkplug B payload; `types` recovers stripped datatypes.
pub open spec fn decode_payload_spec(s: Seq<u8>, types: Option<TypeIndex>) -> Result<PayloadView, ErrorKind> {
    run_fields(s, empty_payload(), payload_step(types))
}

} // verus!
