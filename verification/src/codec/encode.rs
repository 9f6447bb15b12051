//! Payload model to Sparkplug B protobuf bytes.
use vstd::prelude::*;

use crate::codec::arrays::pack_array;
use crate::codec::fields::{
    cell_fields, dataset_fields, metadata_fields, metric_fields, metric_value_field, opt_bool_field,
    opt_str_field, opt_u64_field, parameter_fields, payload_fields, property_set_fields,
    property_set_list_fields, property_value_fields, push_keys, push_metrics, push_opt,
    push_parameters, push_property_values, push_rows, push_sets, push_strs, push_types, row_fields,
    scalar_field, template_fields,
};
use crate::codec::wire::{fields_bytes, Writer};
use crate::model::{
    entries_view, lemma_entries_view, lemma_metrics_view, lemma_sets_view, metric_view, metrics_view,
    opt_str, property_set_view, sets_view, DataSet, MetaData, Metric, MetricView, Parameter,
    ParameterView, Payload, PropertySet, PropertySetList, PropertySetView, Template,
};
use crate::value::{
    property_value_view, DataSetValue, MetricValue, MetricValueView, ParameterValue, PropertyValue,
    PropertyValueView, ScalarView,
};

verus! {

/// A basic scalar borrowed from one of the value enums.
pub enum ScalarRef<'a> {
    Int8(i8),
    Int16(i16),
    Int32(i32),
    Int64(i64),
    UInt8(u8),
    UInt16(u16),
    UInt32(u32),
    UInt64(u64),
    Float(u32),
    Double(u64),
    Boolean(bool),
    String(&'a str),
    Text(&'a str),
    DateTime(i64),
}

impl<'a> View for ScalarRef<'a> {
    type V = ScalarView;

    open spec fn view(&self) -> ScalarView {
        match self {
            ScalarRef::Int8(x) => ScalarView::Int8(*x),
            ScalarRef::Int16(x) => ScalarView::Int16(*x),
            ScalarRef::Int32(x) => ScalarView::Int32(*x),
            ScalarRef::Int64(x) => ScalarView::Int64(*x),
            ScalarRef::UInt8(x) => ScalarView::UInt8(*x),
            ScalarRef::UInt16(x) => ScalarView::UInt16(*x),
            ScalarRef::UInt32(x) => ScalarView::UInt32(*x),
            ScalarRef::UInt64(x) => ScalarView::UInt64(*x),
            ScalarRef::Float(x) => ScalarView::Float(*x),
            ScalarRef::Double(x) => ScalarView::Double(*x),
            ScalarRef::Boolean(x) => ScalarView::Boolean(*x),
            ScalarRef::String(x) => ScalarView::String(x@),
            ScalarRef::Text(x) => ScalarView::Text(x@),
            ScalarRef::DateTime(x) => ScalarView::DateTime(*x),
        }
    }
}

/// Write the value field of a basic scalar, numbered from `base`.
fn write_scalar(w: &mut Writer, s: ScalarRef, base: u32)
    requires
        base <= 10,
    ensures
        final(w).fields() == old(w).fields().push(scalar_field(s@, base)),
{
    match s {
        ScalarRef::Int8(x) => w.varint_field(base, (x as i32) as u32 as u64),
        ScalarRef::Int16(x) => w.varint_field(base, (x as i32) as u32 as u64),
        ScalarRef::Int32(x) => w.varint_field(base, x as u32 as u64),
        ScalarRef::UInt8(x) => w.varint_field(base, x as u64),
        ScalarRef::UInt16(x) => w.varint_field(base, x as u64),
        ScalarRef::UInt32(x) => w.varint_field(base, x as u64),
        ScalarRef::Int64(x) => w.varint_field(base + 1, x as u64),
        ScalarRef::UInt64(x) => w.varint_field(base + 1, x),
        ScalarRef::DateTime(x) => w.varint_field(base + 1, x as u64),
        ScalarRef::Float(x) => w.fixed32_field(base + 2, x),
        ScalarRef::Double(x) => w.fixed64_field(base + 3, x),
        ScalarRef::Boolean(x) => w.bool_field(base + 4, x),
        ScalarRef::String(x) => w.str_field(base + 5, x),
        ScalarRef::Text(x) => w.str_field(base + 5, x),
    }
}

/// The scalar held by a metric value, if it holds a basic scalar.
fn metric_scalar(v: &MetricValue) -> (r: Option<ScalarRef<'_>>)
    ensures
        match r {
            Some(s) => v@ == MetricValueView::Scalar(s@),
            None => !(v@ is Scalar),
        },
{
    match v {
        MetricValue::Int8(x) => Some(ScalarRef::Int8(*x)),
        MetricValue::Int16(x) => Some(ScalarRef::Int16(*x)),
        MetricValue::Int32(x) => Some(ScalarRef::Int32(*x)),
        MetricValue::Int64(x) => Some(ScalarRef::Int64(*x)),
        MetricValue::UInt8(x) => Some(ScalarRef::UInt8(*x)),
        MetricValue::UInt16(x) => Some(ScalarRef::UInt16(*x)),
        MetricValue::UInt32(x) => Some(ScalarRef::UInt32(*x)),
        MetricValue::UInt64(x) => Some(ScalarRef::UInt64(*x)),
        MetricValue::Float(x) => Some(ScalarRef::Float(*x)),
        MetricValue::Double(x) => Some(ScalarRef::Double(*x)),
        MetricValue::Boolean(x) => Some(ScalarRef::Boolean(*x)),
        MetricValue::String(x) => Some(ScalarRef::String(x.as_str())),
        MetricValue::Text(x) => Some(ScalarRef::Text(x.as_str())),
        MetricValue::DateTime(x) => Some(ScalarRef::DateTime(*x)),
        _ => None,
    }
}

/// The scalar held by a property value, if it holds a basic scalar.
fn property_scalar(v: &PropertyValue) -> (r: Option<ScalarRef<'_>>)
    ensures
        match r {
            Some(s) => v@ == PropertyValueView::Scalar(s@),
            None => !(v@ is Scalar),
        },
{
    match v {
        PropertyValue::Int8(x) => Some(ScalarRef::Int8(*x)),
        PropertyValue::Int16(x) => Some(ScalarRef::Int16(*x)),
        PropertyValue::Int32(x) => Some(ScalarRef::Int32(*x)),
        PropertyValue::Int64(x) => Some(ScalarRef::Int64(*x)),
        PropertyValue::UInt8(x) => Some(ScalarRef::UInt8(*x)),
        PropertyValue::UInt16(x) => Some(ScalarRef::UInt16(*x)),
        PropertyValue::UInt32(x) => Some(ScalarRef::UInt32(*x)),
        PropertyValue::UInt64(x) => Some(ScalarRef::UInt64(*x)),
        PropertyValue::Float(x) => Some(ScalarRef::Float(*x)),
        PropertyValue::Double(x) => Some(ScalarRef::Double(*x)),
        PropertyValue::Boolean(x) => Some(ScalarRef::Boolean(*x)),
        PropertyValue::String(x) => Some(ScalarRef::String(x.as_str())),
        PropertyValue::Text(x) => Some(ScalarRef::Text(x.as_str())),
        PropertyValue::DateTime(x) => Some(ScalarRef::DateTime(*x)),
        _ => None,
    }
}

/// The scalar held by a parameter value.
fn parameter_scalar(v: &ParameterValue) -> (r: ScalarRef<'_>)
    ensures
        r@ == v@,
{
    match v {
        ParameterValue::Int8(x) => ScalarRef::Int8(*x),
        ParameterValue::Int16(x) => ScalarRef::Int16(*x),
        ParameterValue::Int32(x) => ScalarRef::Int32(*x),
        ParameterValue::Int64(x) => ScalarRef::Int64(*x),
        ParameterValue::UInt8(x) => ScalarRef::UInt8(*x),
        ParameterValue::UInt16(x) => ScalarRef::UInt16(*x),
        ParameterValue::UInt32(x) => ScalarRef::UInt32(*x),
        ParameterValue::UInt64(x) => ScalarRef::UInt64(*x),
        ParameterValue::Float(x) => ScalarRef::Float(*x),
        ParameterValue::Double(x) => ScalarRef::Double(*x),
        ParameterValue::Boolean(x) => ScalarRef::Boolean(*x),
        ParameterValue::String(x) => ScalarRef::String(x.as_str()),
        ParameterValue::Text(x) => ScalarRef::Text(x.as_str()),
        ParameterValue::DateTime(x) => ScalarRef::DateTime(*x),
    }
}

/// The scalar held by a DataSet cell, if it is not null.
fn cell_scalar(v: &DataSetValue) -> (r: Option<ScalarRef<'_>>)
    ensures
        match r {
            Some(s) => v@ == Some(s@),
            None => v@ is None,
        },
{
    match v {
        DataSetValue::Int8(x) => Some(ScalarRef::Int8(*x)),
        DataSetValue::Int16(x) => Some(ScalarRef::Int16(*x)),
        DataSetValue::Int32(x) => Some(ScalarRef::Int32(*x)),
        DataSetValue::Int64(x) => Some(ScalarRef::Int64(*x)),
        DataSetValue::UInt8(x) => Some(ScalarRef::UInt8(*x)),
        DataSetValue::UInt16(x) => Some(ScalarRef::UInt16(*x)),
        DataSetValue::UInt32(x) => Some(ScalarRef::UInt32(*x)),
        DataSetValue::UInt64(x) => Some(ScalarRef::UInt64(*x)),
        DataSetValue::Float(x) => Some(ScalarRef::Float(*x)),
        DataSetValue::Double(x) => Some(ScalarRef::Double(*x)),
        DataSetValue::Boolean(x) => Some(ScalarRef::Boolean(*x)),
        DataSetValue::String(x) => Some(ScalarRef::String(x.as_str())),
        DataSetValue::Text(x) => Some(ScalarRef::Text(x.as_str())),
        DataSetValue::DateTime(x) => Some(ScalarRef::DateTime(*x)),
        DataSetValue::Null => None,
    }
}

/// Write an optional `string` field.
fn write_opt_str(w: &mut Writer, num: u32, o: &Option<String>)
    ensures
        final(w).fields() == push_opt(old(w).fields(), opt_str_field(num, opt_str(*o))),
{
    match o {
        Some(s) => w.str_field(num, s.as_str()),
        None => {},
    }
}

/// Write an optional `uint64` field.
fn write_opt_u64(w: &mut Writer, num: u32, o: Option<u64>)
    ensures
        final(w).fields() == push_opt(old(w).fields(), opt_u64_field(num, o)),
{
    match o {
        Some(v) => w.varint_field(num, v),
        None => {},
    }
}

/// Write an optional `bool` field.
fn write_opt_bool(w: &mut Writer, num: u32, o: Option<bool>)
    ensures
        final(w).fields() == push_opt(old(w).fields(), opt_bool_field(num, o)),
{
    match o {
        Some(v) => w.bool_field(num, v),
        None => {},
    }
}

/// Encode a metadata message.
pub fn encode_metadata(md: &MetaData) -> (out: Vec<u8>)
    ensures
        out@ == fields_bytes(metadata_fields(md@)),
{
    let mut w = Writer::new();
    write_opt_bool(&mut w, 1, md.is_multi_part);
    write_opt_str(&mut w, 2, &md.content_type);
    write_opt_u64(&mut w, 3, md.size);
    write_opt_u64(&mut w, 4, md.seq);
    write_opt_str(&mut w, 5, &md.file_name);
    write_opt_str(&mut w, 6, &md.file_type);
    write_opt_str(&mut w, 7, &md.md5);
    write_opt_str(&mut w, 8, &md.description);
    w.into_bytes()
}

/// Encode a metric.
pub fn encode_metric(m: &Metric, strip: bool) -> (out: Vec<u8>)
    ensures
        out@ == fields_bytes(metric_fields(m@, strip)),
    decreases m,
{
    let mut w = Writer::new();
    write_opt_str(&mut w, 1, &m.name);
    write_opt_u64(&mut w, 2, m.alias);
    write_opt_u64(&mut w, 3, m.timestamp);
    if !strip {
        w.varint_field(4, m.value.datatype().as_u32() as u64);
    }
    write_opt_bool(&mut w, 5, m.is_historical);
    write_opt_bool(&mut w, 6, m.is_transient);
    let is_null = m.value.is_null();
    if is_null {
        w.bool_field(7, true);
    }
    match &m.metadata {
        Some(md) => {
            let body = encode_metadata(md);
            w.bytes_field(8, body.as_slice());
        },
        None => {},
    }
    match &m.properties {
        Some(ps) => {
            let body = encode_property_set(ps);
            w.bytes_field(9, body.as_slice());
        },
        None => {},
    }
    write_metric_value(&mut w, &m.value, strip);
    w.into_bytes()
}

/// Write a metric's value field (nothing for a null value).
fn write_metric_value(w: &mut Writer, v: &MetricValue, strip: bool)
    ensures
        final(w).fields() == push_opt(old(w).fields(), metric_value_field(v@, strip)),
    decreases v,
{
    match metric_scalar(v) {
        Some(s) => {
            write_scalar(w, s, 10);
            return;
        },
        None => {},
    }
    match v {
        MetricValue::Uuid(s) => w.str_field(15, s.as_str()),
        MetricValue::Bytes(b) => w.bytes_field(16, b.as_slice()),
        MetricValue::File(b) => w.bytes_field(16, b.as_slice()),
        MetricValue::DataSet(d) => {
            let body = encode_dataset(d);
            w.bytes_field(17, body.as_slice());
        },
        MetricValue::Template(t) => {
            let body = encode_template(t, strip);
            w.bytes_field(18, body.as_slice());
        },
        MetricValue::Null(_) => {},
        _ => {
            let packed = pack_array(v);
            w.bytes_field(16, packed.as_slice());
        },
    }
}

/// Encode a template.
pub fn encode_template(t: &Template, strip: bool) -> (out: Vec<u8>)
    ensures
        out@ == fields_bytes(template_fields(t@, strip)),
    decreases t,
{
    let mut w = Writer::new();
    write_opt_str(&mut w, 1, &t.version);
    let ghost f0 = w.fields();
    let ghost mv = metrics_view(t.metrics@);
    proof {
        lemma_metrics_view(t.metrics@);
        assert(mv.take(0) =~= Seq::<MetricView>::empty());
    }
    let mut i: usize = 0;
    while i < t.metrics.len()
        invariant
            i <= t.metrics@.len(),
            mv == metrics_view(t.metrics@),
            mv.len() == t.metrics@.len(),
            forall|k: int| 0 <= k < t.metrics@.len() ==> #[trigger] mv[k] == metric_view(t.metrics@[k]),
            w.fields() == push_metrics(f0, mv.take(i as int), strip),
        decreases t.metrics@.len() - i,
    {
        let body = encode_metric(&t.metrics[i], strip);
        w.bytes_field(2, body.as_slice());
        proof {
            assert(mv.take(i + 1).drop_last() =~= mv.take(i as int));
            assert(mv.take(i + 1).last() == metric_view(t.metrics@[i as int]));
        }
        i = i + 1;
    }
    proof {
        assert(mv.take(t.metrics@.len() as int) =~= mv);
    }
    let ghost f1 = w.fields();
    let ghost pv = t.parameters@.map_values(|p: Parameter| p@);
    proof {
        assert(pv.take(0) =~= Seq::<ParameterView>::empty());
    }
    let mut j: usize = 0;
    while j < t.parameters.len()
        invariant
            j <= t.parameters@.len(),
            pv == t.parameters@.map_values(|p: Parameter| p@),
            w.fields() == push_parameters(f1, pv.take(j as int)),
        decreases t.parameters@.len() - j,
    {
        let body = encode_parameter(&t.parameters[j]);
        w.bytes_field(3, body.as_slice());
        proof {
            assert(pv.take(j + 1).drop_last() =~= pv.take(j as int));
        }
        j = j + 1;
    }
    proof {
        assert(pv.take(t.parameters@.len() as int) =~= pv);
    }
    write_opt_str(&mut w, 4, &t.template_ref);
    w.bool_field(5, t.is_definition);
    w.into_bytes()
}

/// Encode a template parameter.
pub fn encode_parameter(p: &Parameter) -> (out: Vec<u8>)
    ensures
        out@ == fields_bytes(parameter_fields(p@)),
{
    let mut w = Writer::new();
    w.str_field(1, p.name.as_str());
    w.varint_field(2, p.datatype.as_u32() as u64);
    match &p.value {
        Some(v) => write_scalar(&mut w, parameter_scalar(v), 3),
        None => {},
    }
    proof {
        assert(w.fields() =~= parameter_fields(p@));
    }
    w.into_bytes()
}

/// Encode a property set: all keys, then all values.
pub fn encode_property_set(ps: &PropertySet) -> (out: Vec<u8>)
    ensures
        out@ == fields_bytes(property_set_fields(ps@)),
    decreases ps,
{
    let mut w = Writer::new();
    let ghost ev = ps@.entries;
    proof {
        lemma_entries_view(ps.entries@);
        assert(ev.take(0) =~= Seq::<(Seq<char>, PropertyValueView)>::empty());
    }
    let mut i: usize = 0;
    while i < ps.entries.len()
        invariant
            i <= ps.entries@.len(),
            ev == entries_view(ps.entries@),
            ev.len() == ps.entries@.len(),
            forall|k: int| 0 <= k < ps.entries@.len() ==> #[trigger] ev[k]
                == (ps.entries@[k].0@, property_value_view(ps.entries@[k].1)),
            w.fields() == push_keys(seq![], ev.take(i as int)),
        decreases ps.entries@.len() - i,
    {
        w.str_field(1, ps.entries[i].0.as_str());
        proof {
            assert(ev.take(i + 1).drop_last() =~= ev.take(i as int));
            assert(ev.take(i + 1).last() == ev[i as int]);
        }
        i = i + 1;
    }
    proof {
        assert(ev.take(ps.entries@.len() as int) =~= ev);
    }
    let ghost f1 = w.fields();
    let mut j: usize = 0;
    while j < ps.entries.len()
        invariant
            j <= ps.entries@.len(),
            ev == entries_view(ps.entries@),
            ev.len() == ps.entries@.len(),
            forall|k: int| 0 <= k < ps.entries@.len() ==> #[trigger] ev[k]
                == (ps.entries@[k].0@, property_value_view(ps.entries@[k].1)),
            w.fields() == push_property_values(f1, ev.take(j as int)),
        decreases ps.entries@.len() - j,
    {
        let body = encode_property_value(&ps.entries[j].1);
        w.bytes_field(2, body.as_slice());
        proof {
            assert(ev.take(j + 1).drop_last() =~= ev.take(j as int));
            assert(ev.take(j + 1).last() == ev[j as int]);
        }
        j = j + 1;
    }
    proof {
        assert(ev.take(ps.entries@.len() as int) =~= ev);
    }
    w.into_bytes()
}

/// Encode a property value.
pub fn encode_property_value(v: &PropertyValue) -> (out: Vec<u8>)
    ensures
        out@ == fields_bytes(property_value_fields(v@)),
    decreases v,
{
    let mut w = Writer::new();
    w.varint_field(1, v.datatype().as_u32() as u64);
    match property_scalar(v) {
        Some(s) => write_scalar(&mut w, s, 3),
        None => match v {
            PropertyValue::Null(_) => w.bool_field(2, true),
            PropertyValue::PropertySet(ps) => {
                let body = encode_property_set(ps);
                w.bytes_field(9, body.as_slice());
            },
            PropertyValue::PropertySetList(l) => {
                let body = encode_property_set_list(l);
                w.bytes_field(10, body.as_slice());
            },
            _ => {},
        },
    }
    proof {
        assert(w.fields() =~= property_value_fields(v@));
    }
    w.into_bytes()
}

/// Encode a property-set list.
pub fn encode_property_set_list(l: &PropertySetList) -> (out: Vec<u8>)
    ensures
        out@ == fields_bytes(property_set_list_fields(l@)),
    decreases l,
{
    let mut w = Writer::new();
    let ghost sv = l@.sets;
    proof {
        lemma_sets_view(l.sets@);
        assert(sv.take(0) =~= Seq::<PropertySetView>::empty());
    }
    let mut i: usize = 0;
    while i < l.sets.len()
        invariant
            i <= l.sets@.len(),
            sv == sets_view(l.sets@),
            sv.len() == l.sets@.len(),
            forall|k: int| 0 <= k < l.sets@.len() ==> #[trigger] sv[k] == property_set_view(l.sets@[k]),
            w.fields() == push_sets(seq![], sv.take(i as int)),
        decreases l.sets@.len() - i,
    {
        let body = encode_property_set(&l.sets[i]);
        w.bytes_field(1, body.as_slice());
        proof {
            assert(sv.take(i + 1).drop_last() =~= sv.take(i as int));
            assert(sv.take(i + 1).last() == sv[i as int]);
        }
        i = i + 1;
    }
    proof {
        assert(sv.take(l.sets@.len() as int) =~= sv);
    }
    w.into_bytes()
}

/// Encode a DataSet cell.
fn encode_cell(c: &DataSetValue) -> (out: Vec<u8>)
    ensures
        out@ == fields_bytes(cell_fields(c@)),
{
    let mut w = Writer::new();
    match cell_scalar(c) {
        Some(s) => write_scalar(&mut w, s, 1),
        None => {},
    }
    proof {
        assert(w.fields() =~= cell_fields(c@));
    }
    w.into_bytes()
}

/// Encode a DataSet row.
fn encode_row(row: &Vec<DataSetValue>) -> (out: Vec<u8>)
    ensures
        out@ == fields_bytes(row_fields(row@.map_values(|c: DataSetValue| c@))),
{
    let mut w = Writer::new();
    let ghost rv = row@.map_values(|c: DataSetValue| c@);
    proof {
        assert(rv.take(0) =~= Seq::<Option<ScalarView>>::empty());
    }
    let mut i: usize = 0;
    while i < row.len()
        invariant
            i <= row@.len(),
            rv == row@.map_values(|c: DataSetValue| c@),
            w.fields() == row_fields(rv.take(i as int)),
        decreases row@.len() - i,
    {
        let body = encode_cell(&row[i]);
        w.bytes_field(1, body.as_slice());
        proof {
            assert(rv.take(i + 1).drop_last() =~= rv.take(i as int));
        }
        i = i + 1;
    }
    proof {
        assert(rv.take(row@.len() as int) =~= rv);
    }
    w.into_bytes()
}

/// Encode a DataSet.
pub fn encode_dataset(d: &DataSet) -> (out: Vec<u8>)
    ensures
        out@ == fields_bytes(dataset_fields(d@)),
{
    let mut w = Writer::new();
    w.varint_field(1, d.num_of_columns());
    let columns = d.columns();
    let ghost cv = d@.columns;
    proof {
        assert(cv.take(0) =~= Seq::<Seq<char>>::empty());
    }
    let ghost f0 = w.fields();
    let mut i: usize = 0;
    while i < columns.len()
        invariant
            i <= columns@.len(),
            cv == columns@.map_values(|s: String| s@),
            w.fields() == push_strs(f0, 2, cv.take(i as int)),
        decreases columns@.len() - i,
    {
        w.str_field(2, columns[i].as_str());
        proof {
            assert(cv.take(i + 1).drop_last() =~= cv.take(i as int));
        }
        i = i + 1;
    }
    proof {
        assert(cv.take(columns@.len() as int) =~= cv);
    }
    let types = d.types();
    let ghost f1 = w.fields();
    proof {
        assert(types@.take(0) =~= Seq::<crate::datatype::DataType>::empty());
    }
    let mut j: usize = 0;
    while j < types.len()
        invariant
            j <= types@.len(),
            w.fields() == push_types(f1, 3, types@.take(j as int)),
        decreases types@.len() - j,
    {
        w.varint_field(3, types[j].as_u32() as u64);
        proof {
            assert(types@.take(j + 1).drop_last() =~= types@.take(j as int));
        }
        j = j + 1;
    }
    proof {
        assert(types@.take(types@.len() as int) =~= types@);
    }
    let rows = d.rows();
    let ghost rv = d@.rows;
    let ghost f2 = w.fields();
    proof {
        assert(rv.take(0) =~= Seq::<Seq<Option<ScalarView>>>::empty());
    }
    let mut k: usize = 0;
    while k < rows.len()
        invariant
            k <= rows@.len(),
            rv == rows@.map_values(|r: Vec<DataSetValue>| r@.map_values(|c: DataSetValue| c@)),
            w.fields() == push_rows(f2, rv.take(k as int)),
        decreases rows@.len() - k,
    {
        let body = encode_row(&rows[k]);
        w.bytes_field(4, body.as_slice());
        proof {
            assert(rv.take(k + 1).drop_last() =~= rv.take(k as int));
        }
        k = k + 1;
    }
    proof {
        assert(rv.take(rows@.len() as int) =~= rv);
    }
    w.into_bytes()
}

/// Encode a full payload. With `strip`, per-metric datatype fields are omitted
/// (DATA/CMD messages); decoding then requires a birth-derived registry.
pub fn encode_payload(p: &Payload, strip: bool) -> (out: Vec<u8>)
    ensures
        out@ == fields_bytes(payload_fields(p@, strip)),
{
    let mut w = Writer::new();
    write_opt_u64(&mut w, 1, p.timestamp);
    let ghost f0 = w.fields();
    let ghost mv = metrics_view(p.metrics@);
    proof {
        lemma_metrics_view(p.metrics@);
        assert(mv.take(0) =~= Seq::<MetricView>::empty());
    }
    let mut i: usize = 0;
    while i < p.metrics.len()
        invariant
            i <= p.metrics@.len(),
            mv == metrics_view(p.metrics@),
            mv.len() == p.metrics@.len(),
            forall|k: int| 0 <= k < p.metrics@.len() ==> #[trigger] mv[k] == metric_view(p.metrics@[k]),
            w.fields() == push_metrics(f0, mv.take(i as int), strip),
        decreases p.metrics@.len() - i,
    {
        let body = encode_metric(&p.metrics[i], strip);
        w.bytes_field(2, body.as_slice());
        proof {
            assert(mv.take(i + 1).drop_last() =~= mv.take(i as int));
            assert(mv.take(i + 1).last() == metric_view(p.metrics@[i as int]));
        }
        i = i + 1;
    }
    proof {
        assert(mv.take(p.metrics@.len() as int) =~= mv);
    }
    match p.seq {
        Some(s) => w.varint_field(3, s as u64),
        None => {},
    }
    write_opt_str(&mut w, 4, &p.uuid);
    match &p.body {
        Some(b) => w.bytes_field(5, b.as_slice()),
        None => {},
    }
    w.into_bytes()
}

} // verus!
