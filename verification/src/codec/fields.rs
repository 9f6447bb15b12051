//! The field lists that encode each message of the payload model.
//!
//! `encode(p)` is `fields_bytes(payload_fields(p@, strip))`: every message is
//! specified as the list of its fields, in the order they are written.
use vstd::prelude::*;
use vstd::utf8::*;

use crate::codec::arrays::pack;
use crate::codec::wire::{field_bytes, fields_bytes, varint_bytes, Field, Wire};
use crate::datatype::{dt_code, DataType};
use crate::model::{
    DataSetView, MetaDataView, MetricView, ParameterView, PayloadView, PropertySetListView,
    PropertySetView, TemplateView,
};
use crate::value::{metric_value_dt, property_value_dt, MetricValueView, PropertyValueView, ScalarView};

verus! {

/// Append `o`'s field, if any.
pub open spec fn push_opt(fs: Seq<Field>, o: Option<Field>) -> Seq<Field> {
    match o {
        Some(f) => fs.push(f),
        None => fs,
    }
}

/// A `string` field.
pub open spec fn str_field(num: u32, s: Seq<char>) -> Field {
    Field { num, val: Wire::Bytes(encode_utf8(s)) }
}

/// A `bool` field's value.
pub open spec fn bool_wire(b: bool) -> Wire {
    Wire::Varint(if b { 1 } else { 0 })
}

/// An embedded-message field.
pub open spec fn msg_field(num: u32, fs: Seq<Field>) -> Field {
    Field { num, val: Wire::Bytes(fields_bytes(fs)) }
}

/// An optional `string` field.
pub open spec fn opt_str_field(num: u32, o: Option<Seq<char>>) -> Option<Field> {
    match o {
        Some(s) => Some(str_field(num, s)),
        None => None,
    }
}

/// An optional `uint64` field.
pub open spec fn opt_u64_field(num: u32, o: Option<u64>) -> Option<Field> {
    match o {
        Some(v) => Some(Field { num, val: Wire::Varint(v) }),
        None => None,
    }
}

/// An optional `bool` field.
pub open spec fn opt_bool_field(num: u32, o: Option<bool>) -> Option<Field> {
    match o {
        Some(b) => Some(Field { num, val: bool_wire(b) }),
        None => None,
    }
}

/// The field of a datatype code.
pub open spec fn dt_field(num: u32, dt: DataType) -> Field {
    Field { num, val: Wire::Varint(dt_code(dt) as u64) }
}

/// The value field of a basic scalar. The scalar value fields of every message
/// come in the same order from `base`: int, long, float, double, bool, string.
pub open spec fn scalar_field(s: ScalarView, base: u32) -> Field {
    match s {
        ScalarView::Int8(x) => Field { num: base, val: Wire::Varint(((x as i32) as u32) as u64) },
        ScalarView::Int16(x) => Field { num: base, val: Wire::Varint(((x as i32) as u32) as u64) },
        ScalarView::Int32(x) => Field { num: base, val: Wire::Varint((x as u32) as u64) },
        ScalarView::UInt8(x) => Field { num: base, val: Wire::Varint(x as u64) },
        ScalarView::UInt16(x) => Field { num: base, val: Wire::Varint(x as u64) },
        ScalarView::UInt32(x) => Field { num: base, val: Wire::Varint(x as u64) },
        ScalarView::Int64(x) => Field { num: (base + 1) as u32, val: Wire::Varint(x as u64) },
        ScalarView::UInt64(x) => Field { num: (base + 1) as u32, val: Wire::Varint(x) },
        ScalarView::DateTime(x) => Field { num: (base + 1) as u32, val: Wire::Varint(x as u64) },
        ScalarView::Float(x) => Field { num: (base + 2) as u32, val: Wire::Fixed32(x) },
        ScalarView::Double(x) => Field { num: (base + 3) as u32, val: Wire::Fixed64(x) },
        ScalarView::Boolean(x) => Field { num: (base + 4) as u32, val: bool_wire(x) },
        ScalarView::String(x) => str_field((base + 5) as u32, x),
        ScalarView::Text(x) => str_field((base + 5) as u32, x),
    }
}

/// The fields of a metadata message.
pub open spec fn metadata_fields(md: MetaDataView) -> Seq<Field> {
    let f = push_opt(seq![], opt_bool_field(1, md.is_multi_part));
    let f = push_opt(f, opt_str_field(2, md.content_type));
    let f = push_opt(f, opt_u64_field(3, md.size));
    let f = push_opt(f, opt_u64_field(4, md.seq));
    let f = push_opt(f, opt_str_field(5, md.file_name));
    let f = push_opt(f, opt_str_field(6, md.file_type));
    let f = push_opt(f, opt_str_field(7, md.md5));
    push_opt(f, opt_str_field(8, md.description))
}

/// The fields of a metric; with `strip`, the datatype field is left out.
pub open spec fn metric_fields(m: MetricView, strip: bool) -> Seq<Field>
    decreases m,
{
    let f = push_opt(seq![], opt_str_field(1, m.name));
    let f = push_opt(f, opt_u64_field(2, m.alias));
    let f = push_opt(f, opt_u64_field(3, m.timestamp));
    let f = if strip {
        f
    } else {
        f.push(dt_field(4, metric_value_dt(m.value)))
    };
    let f = push_opt(f, opt_bool_field(5, m.is_historical));
    let f = push_opt(f, opt_bool_field(6, m.is_transient));
    let f = if m.value is Null {
        f.push(Field { num: 7, val: Wire::Varint(1) })
    } else {
        f
    };
    let f = match m.metadata {
        Some(md) => f.push(msg_field(8, metadata_fields(md))),
        None => f,
    };
    let f = match m.properties {
        Some(ps) => f.push(msg_field(9, property_set_fields(ps))),
        None => f,
    };
    push_opt(f, metric_value_field(m.value, strip))
}

/// The value field of a metric value (none for a null value).
pub open spec fn metric_value_field(v: MetricValueView, strip: bool) -> Option<Field>
    decreases v,
{
    match v {
        MetricValueView::Scalar(s) => Some(scalar_field(s, 10)),
        MetricValueView::Uuid(s) => Some(str_field(15, s)),
        MetricValueView::Bytes(b) => Some(Field { num: 16, val: Wire::Bytes(b) }),
        MetricValueView::File(b) => Some(Field { num: 16, val: Wire::Bytes(b) }),
        MetricValueView::DataSet(d) => Some(msg_field(17, dataset_fields(d))),
        MetricValueView::Template(t) => Some(msg_field(18, template_fields(t, strip))),
        MetricValueView::Null(_) => None,
        _ => Some(Field { num: 16, val: Wire::Bytes(pack(v)) }),
    }
}

/// Append one field `num` per metric, each holding the metric's encoding.
pub open spec fn push_metrics(fs: Seq<Field>, ms: Seq<MetricView>, strip: bool) -> Seq<Field>
    decreases ms,
{
    if ms.len() == 0 {
        fs
    } else {
        push_metrics(fs, ms.drop_last(), strip).push(msg_field(2, metric_fields(ms.last(), strip)))
    }
}

/// The fields of a template.
pub open spec fn template_fields(t: TemplateView, strip: bool) -> Seq<Field>
    decreases t,
{
    let f = push_opt(seq![], opt_str_field(1, t.version));
    let f = push_metrics(f, t.metrics, strip);
    let f = push_parameters(f, t.parameters);
    let f = push_opt(f, opt_str_field(4, t.template_ref));
    f.push(Field { num: 5, val: bool_wire(t.is_definition) })
}

/// The fields of a template parameter.
pub open spec fn parameter_fields(p: ParameterView) -> Seq<Field> {
    let f = seq![str_field(1, p.name), dt_field(2, p.datatype)];
    match p.value {
        Some(v) => f.push(scalar_field(v, 3)),
        None => f,
    }
}

/// Append one field 3 per parameter.
pub open spec fn push_parameters(fs: Seq<Field>, ps: Seq<ParameterView>) -> Seq<Field>
    decreases ps.len(),
{
    if ps.len() == 0 {
        fs
    } else {
        push_parameters(fs, ps.drop_last()).push(msg_field(3, parameter_fields(ps.last())))
    }
}

/// The fields of a property set: all keys (field 1), then all values (field 2).
pub open spec fn property_set_fields(ps: PropertySetView) -> Seq<Field>
    decreases ps,
{
    push_property_values(push_keys(seq![], ps.entries), ps.entries)
}

/// Append one key field per entry.
pub open spec fn push_keys(fs: Seq<Field>, es: Seq<(Seq<char>, PropertyValueView)>) -> Seq<Field>
    decreases es.len(),
{
    if es.len() == 0 {
        fs
    } else {
        push_keys(fs, es.drop_last()).push(str_field(1, es.last().0))
    }
}

/// Append one value field per entry.
pub open spec fn push_property_values(fs: Seq<Field>, es: Seq<(Seq<char>, PropertyValueView)>) -> Seq<Field>
    decreases es,
{
    if es.len() == 0 {
        fs
    } else {
        push_property_values(fs, es.drop_last()).push(msg_field(2, property_value_fields(es.last().1)))
    }
}

/// The fields of a property value.
pub open spec fn property_value_fields(v: PropertyValueView) -> Seq<Field>
    decreases v,
{
    let f = seq![dt_field(1, property_value_dt(v))];
    match v {
        PropertyValueView::Null(_) => f.push(Field { num: 2, val: Wire::Varint(1) }),
        PropertyValueView::Scalar(s) => f.push(scalar_field(s, 3)),
        PropertyValueView::PropertySet(ps) => f.push(msg_field(9, property_set_fields(ps))),
        PropertyValueView::PropertySetList(l) => f.push(msg_field(10, property_set_list_fields(l))),
    }
}

/// The fields of a property-set list.
pub open spec fn property_set_list_fields(l: PropertySetListView) -> Seq<Field>
    decreases l,
{
    push_sets(seq![], l.sets)
}

/// Append one field 1 per property set.
pub open spec fn push_sets(fs: Seq<Field>, ss: Seq<PropertySetView>) -> Seq<Field>
    decreases ss,
{
    if ss.len() == 0 {
        fs
    } else {
        push_sets(fs, ss.drop_last()).push(msg_field(1, property_set_fields(ss.last())))
    }
}

/// Append one `string` field `num` per string.
pub open spec fn push_strs(fs: Seq<Field>, num: u32, ss: Seq<Seq<char>>) -> Seq<Field>
    decreases ss.len(),
{
    if ss.len() == 0 {
        fs
    } else {
        push_strs(fs, num, ss.drop_last()).push(str_field(num, ss.last()))
    }
}

/// Append one datatype field `num` per datatype.
pub open spec fn push_types(fs: Seq<Field>, num: u32, ts: Seq<DataType>) -> Seq<Field>
    decreases ts.len(),
{
    if ts.len() == 0 {
        fs
    } else {
        push_types(fs, num, ts.drop_last()).push(dt_field(num, ts.last()))
    }
}

/// The fields of a DataSet cell (none for a null cell).
pub open spec fn cell_fields(c: Option<ScalarView>) -> Seq<Field> {
    match c {
        Some(s) => seq![scalar_field(s, 1)],
        None => seq![],
    }
}

/// The fields of a DataSet row: one field 1 per cell.
pub open spec fn row_fields(row: Seq<Option<ScalarView>>) -> Seq<Field>
    decreases row.len(),
{
    if row.len() == 0 {
        seq![]
    } else {
        row_fields(row.drop_last()).push(msg_field(1, cell_fields(row.last())))
    }
}

/// Append one field 4 per row.
pub open spec fn push_rows(fs: Seq<Field>, rows: Seq<Seq<Option<ScalarView>>>) -> Seq<Field>
    decreases rows.len(),
{
    if rows.len() == 0 {
        fs
    } else {
        push_rows(fs, rows.drop_last()).push(msg_field(4, row_fields(rows.last())))
    }
}

/// The fields of a DataSet.
pub open spec fn dataset_fields(d: DataSetView) -> Seq<Field> {
    let f = seq![Field { num: 1, val: Wire::Varint(d.columns.len() as u64) }];
    let f = push_strs(f, 2, d.columns);
    let f = push_types(f, 3, d.types);
    push_rows(f, d.rows)
}

/// The fields of a payload; with `strip`, the metrics' datatype fields are left out.
pub open spec fn payload_fields(p: PayloadView, strip: bool) -> Seq<Field> {
    let f = push_opt(seq![], opt_u64_field(1, p.timestamp));
    let f = push_metrics(f, p.metrics, strip);
    let f = match p.seq {
        Some(s) => f.push(Field { num: 3, val: Wire::Varint(s as u64) }),
        None => f,
    };
    let f = push_opt(f, opt_str_field(4, p.uuid));
    match p.body {
        Some(b) => f.push(Field { num: 5, val: Wire::Bytes(b) }),
        None => f,
    }
}

/// The Sparkplug B schema of a metric carrying a name and a basic scalar value:
/// the name is field 1 (a string); unless datatypes are stripped, the datatype
/// code is field 4 (`Int8`..`UInt64` = 1..8, `Float` = 9, `Double` = 10,
/// `Boolean` = 11, `String` = 12, `DateTime` = 13, `Text` = 14); the value is
/// `int_value` (10) for 8/16/32-bit integers, `long_value` (11) for 64-bit
/// integers and date-times, `float_value` (12, fixed 32-bit), `double_value`
/// (13, fixed 64-bit), `boolean_value` (14) or `string_value` (15).
pub proof fn lemma_scalar_metric_schema(m: MetricView, s: ScalarView, strip: bool)
    requires
        m.name is Some,
        m.alias is None,
        m.timestamp is None,
        m.is_historical is None,
        m.is_transient is None,
        m.metadata is None,
        m.properties is None,
        m.value == MetricValueView::Scalar(s),
    ensures
        ({
            let name = Field { num: 1, val: Wire::Bytes(encode_utf8(m.name->0)) };
            let code: u64 = match s {
                ScalarView::Int8(_) => 1,
                ScalarView::Int16(_) => 2,
                ScalarView::Int32(_) => 3,
                ScalarView::Int64(_) => 4,
                ScalarView::UInt8(_) => 5,
                ScalarView::UInt16(_) => 6,
                ScalarView::UInt32(_) => 7,
                ScalarView::UInt64(_) => 8,
                ScalarView::Float(_) => 9,
                ScalarView::Double(_) => 10,
                ScalarView::Boolean(_) => 11,
                ScalarView::String(_) => 12,
                ScalarView::DateTime(_) => 13,
                ScalarView::Text(_) => 14,
            };
            let value = match s {
                ScalarView::Int8(x) => Field { num: 10, val: Wire::Varint(((x as i32) as u32) as u64) },
                ScalarView::Int16(x) => Field { num: 10, val: Wire::Varint(((x as i32) as u32) as u64) },
                ScalarView::Int32(x) => Field { num: 10, val: Wire::Varint((x as u32) as u64) },
                ScalarView::UInt8(x) => Field { num: 10, val: Wire::Varint(x as u64) },
                ScalarView::UInt16(x) => Field { num: 10, val: Wire::Varint(x as u64) },
                ScalarView::UInt32(x) => Field { num: 10, val: Wire::Varint(x as u64) },
                ScalarView::Int64(x) => Field { num: 11, val: Wire::Varint(x as u64) },
                ScalarView::UInt64(x) => Field { num: 11, val: Wire::Varint(x) },
                ScalarView::DateTime(x) => Field { num: 11, val: Wire::Varint(x as u64) },
                ScalarView::Float(x) => Field { num: 12, val: Wire::Fixed32(x) },
                ScalarView::Double(x) => Field { num: 13, val: Wire::Fixed64(x) },
                ScalarView::Boolean(x) => Field { num: 14, val: Wire::Varint(if x { 1 } else { 0 }) },
                ScalarView::String(x) => Field { num: 15, val: Wire::Bytes(encode_utf8(x)) },
                ScalarView::Text(x) => Field { num: 15, val: Wire::Bytes(encode_utf8(x)) },
            };
            metric_fields(m, strip) == if strip {
                seq![name, value]
            } else {
                seq![name, Field { num: 4, val: Wire::Varint(code) }, value]
            }
        }),
{
    let name = Field { num: 1, val: Wire::Bytes(encode_utf8(m.name->0)) };
    let f1 = push_opt(seq![], opt_str_field(1, m.name));
    assert(f1 =~= seq![name]);
    assert(metric_fields(m, strip) =~= (if strip { f1 } else { f1.push(dt_field(4, metric_value_dt(m.value))) }).push(
        scalar_field(s, 10),
    ));
}

/// The bytes of a BIRTH metric holding a `Double`, named by a name of fewer than
/// 128 UTF-8 bytes: `0x0A len name…` (field 1), `0x20 0x0A` (field 4: datatype
/// 10, `Double`), then `0x69` and the value's eight little-endian bytes (field
/// 13, `double_value`).
pub proof fn lemma_double_metric_bytes(m: MetricView, x: u64)
    requires
        m.name is Some,
        encode_utf8(m.name->0).len() < 128,
        m.alias is None,
        m.timestamp is None,
        m.is_historical is None,
        m.is_transient is None,
        m.metadata is None,
        m.properties is None,
        m.value == MetricValueView::Scalar(ScalarView::Double(x)),
    ensures
        fields_bytes(metric_fields(m, false)) == seq![0x0Au8, encode_utf8(m.name->0).len() as u8] + encode_utf8(
            m.name->0,
        ) + seq![0x20u8, 0x0Au8, 0x69u8] + vstd::bytes::spec_u64_to_le_bytes(x),
{
    lemma_scalar_metric_schema(m, ScalarView::Double(x), false);
    let u = encode_utf8(m.name->0);
    let a = Field { num: 1, val: Wire::Bytes(u) };
    let b = Field { num: 4, val: Wire::Varint(10) };
    let c = Field { num: 13, val: Wire::Fixed64(x) };
    let fs = seq![a, b, c];
    assert(fs.drop_last() =~= seq![a, b]);
    assert(seq![a, b].drop_last() =~= seq![a]);
    assert(seq![a].drop_last() =~= Seq::<Field>::empty());
    assert(fields_bytes(Seq::<Field>::empty()) == Seq::<u8>::empty());
    assert(fields_bytes(seq![a]) =~= field_bytes(a));
    assert(fields_bytes(seq![a, b]) =~= field_bytes(a) + field_bytes(b));
    assert(fields_bytes(fs) =~= field_bytes(a) + field_bytes(b) + field_bytes(c));
    assert(varint_bytes(10) == seq![10u8]);
    assert(varint_bytes(u.len() as u64) == seq![u.len() as u8]);
    assert(varint_bytes(32) == seq![32u8]);
    assert(varint_bytes(105) == seq![105u8]);
    assert(field_bytes(a) =~= seq![0x0Au8, u.len() as u8] + u);
    assert(field_bytes(b) =~= seq![0x20u8, 0x0Au8]);
    assert(field_bytes(c) =~= seq![0x69u8] + vstd::bytes::spec_u64_to_le_bytes(x));
    assert(field_bytes(a) + field_bytes(b) + field_bytes(c) =~= seq![0x0Au8, u.len() as u8] + u + seq![
        0x20u8,
        0x0Au8,
        0x69u8,
    ] + vstd::bytes::spec_u64_to_le_bytes(x));
}

} // verus!
