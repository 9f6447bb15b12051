//! Decoding an encoding gives the payload back.
//!
//! The well-formedness predicates below say which payloads survive the trip
//! (the rest are refused by the decoder, exactly as the codec specifies); the
//! public proof functions state the laws.
use vstd::bytes::*;
use vstd::prelude::*;
use vstd::utf8::*;

use crate::codec::arrays::{
    bit_at, bit_val, bool_bytes, decode_pieces, pack, pack_words, partial_byte, split_nul,
    strings_pack, unpack, unpack_words, word_from_le, word_le,
};
use crate::codec::fields::{
    bool_wire, cell_fields, dataset_fields, dt_field, metadata_fields, msg_field, opt_bool_field,
    opt_str_field, opt_u64_field, parameter_fields, property_set_fields, property_set_list_fields,
    property_value_fields, push_keys, push_opt, push_property_values, push_rows, push_sets,
    push_strs, push_types, row_fields, scalar_field, str_field, metric_fields, metric_value_field,
    push_metrics, push_parameters, template_fields, payload_fields,
};
use crate::codec::parse::{
    any_slot, cell_step, codes_to_types, dataset_step, decode_cell_spec, decode_dataset_spec,
    decode_metadata_spec, decode_parameter_spec, decode_row_spec, decode_rows, metadata_step,
    decode_property_set_list_spec, decode_property_set_spec, decode_property_value_spec,
    empty_property_value, no_slots, parameter_step, property_set_list_step, property_set_step,
    property_value_finish, property_value_step, row_step, scalar_from_slots, slot_step, utf8,
    zip_entries, DataSetAcc, ParamAcc, PropertySetAcc, PropertyValueAcc, Slots, MAX_DEPTH,
    decode_metric_spec, decode_payload_spec, decode_template_spec, empty_metric, empty_payload,
    empty_template, metric_finish, metric_step, metric_value_finish, payload_step,
    recover_datatype, template_step, MetricAcc, TypeIndex,
};
use crate::codec::wire::{
    field_bytes, fields_bytes, fold_fields, lemma_fields_bytes_push, lemma_fold_push,
    lemma_run_encoded, payload_len, Field, Wire,
};
use crate::datatype::{dt_code, dt_width, lemma_dt_code_roundtrip, DataType};
use crate::error::ErrorKind;
use crate::model::{
    dataset_wf, empty_metadata, DataSetView, MetaDataView, MetricView, ParameterView, PayloadView,
    PropertySetListView, PropertySetView, TemplateView,
};
use crate::value::{
    metric_value_dt, property_value_dt, scalar_dt, MetricValueView, PropertyValueView, ScalarView,
};

verus! {

broadcast use {encode_utf8_valid_utf8, encode_utf8_decode_utf8};

// ---------------------------------------------------------------------------
// Building blocks
// ---------------------------------------------------------------------------

/// A `string` field reads back as its characters.
proof fn lemma_utf8(s: Seq<char>)
    ensures
        utf8(encode_utf8(s)) == Ok::<Seq<char>, ErrorKind>(s),
{
}

/// Folding over an optional field, and what it does to the encoding's length.
proof fn lemma_fold_push_opt<A>(fs: Seq<Field>, o: Option<Field>, init: A, step: spec_fn(A, Field) -> Result<A, ErrorKind>)
    ensures
        fold_fields(push_opt(fs, o), init, step) == (match o {
            None => fold_fields(fs, init, step),
            Some(f) => match fold_fields(fs, init, step) {
                Ok(a) => step(a, f),
                Err(e) => Err(e),
            },
        }),
        fields_bytes(push_opt(fs, o)).len() >= fields_bytes(fs).len(),
        o matches Some(f) ==> payload_len(f) < fields_bytes(push_opt(fs, o)).len(),
{
    match o {
        Some(f) => {
            lemma_fold_push(fs, f, init, step);
            lemma_fields_bytes_push(fs, f);
        },
        None => {},
    }
}

/// Folding over one more field, and what it does to the encoding's length.
proof fn lemma_fold_push_field<A>(fs: Seq<Field>, f: Field, init: A, step: spec_fn(A, Field) -> Result<A, ErrorKind>)
    ensures
        fold_fields(fs.push(f), init, step) == (match fold_fields(fs, init, step) {
            Ok(a) => step(a, f),
            Err(e) => Err(e),
        }),
        fields_bytes(fs.push(f)).len() >= fields_bytes(fs).len(),
        payload_len(f) < fields_bytes(fs.push(f)).len(),
{
    lemma_fold_push(fs, f, init, step);
    lemma_fields_bytes_push(fs, f);
}

/// The value field of a basic scalar fills the slot its datatype reads.
proof fn lemma_scalar_slot(sl: Slots, s: ScalarView, base: u32)
    requires
        base <= 10,
    ensures
        slot_step(sl, scalar_field(s, base), base) matches Some(Ok(sl2)) && scalar_from_slots(scalar_dt(s), sl2)
            == Some(Some(s)) && any_slot(sl2),
{
    match s {
        ScalarView::Int8(x) => {
            assert(((((x as i32) as u32) as u64) as u32) as i8 == x) by (bit_vector);
        },
        ScalarView::Int16(x) => {
            assert(((((x as i32) as u32) as u64) as u32) as i16 == x) by (bit_vector);
        },
        ScalarView::Int32(x) => {
            assert((((x as u32) as u64) as u32) as i32 == x) by (bit_vector);
        },
        ScalarView::UInt8(x) => {
            assert(((x as u64) as u32) as u8 == x) by (bit_vector);
        },
        ScalarView::UInt16(x) => {
            assert(((x as u64) as u32) as u16 == x) by (bit_vector);
        },
        ScalarView::UInt32(x) => {
            assert((x as u64) as u32 == x) by (bit_vector);
        },
        ScalarView::Int64(x) => {
            assert((x as u64) as i64 == x) by (bit_vector);
        },
        ScalarView::DateTime(x) => {
            assert((x as u64) as i64 == x) by (bit_vector);
        },
        ScalarView::String(x) => {
            lemma_utf8(x);
        },
        ScalarView::Text(x) => {
            lemma_utf8(x);
        },
        _ => {},
    }
}

// ---------------------------------------------------------------------------
// MetaData and parameters
// ---------------------------------------------------------------------------

/// Decoding the encoding of any metadata message gives it back, every field
/// kept. The encoding must fit in 64 bits.
pub proof fn lemma_metadata_roundtrip(md: MetaDataView)
    requires
        fields_bytes(metadata_fields(md)).len() <= u64::MAX,
    ensures
        decode_metadata_spec(fields_bytes(metadata_fields(md))) == Ok::<MetaDataView, ErrorKind>(md),
{
    let step = metadata_step();
    let init = empty_metadata();
    let f0 = Seq::<Field>::empty();
    let f1 = push_opt(f0, opt_bool_field(1, md.is_multi_part));
    let f2 = push_opt(f1, opt_str_field(2, md.content_type));
    let f3 = push_opt(f2, opt_u64_field(3, md.size));
    let f4 = push_opt(f3, opt_u64_field(4, md.seq));
    let f5 = push_opt(f4, opt_str_field(5, md.file_name));
    let f6 = push_opt(f5, opt_str_field(6, md.file_type));
    let f7 = push_opt(f6, opt_str_field(7, md.md5));
    let f8 = push_opt(f7, opt_str_field(8, md.description));
    assert(f8 == metadata_fields(md));
    lemma_run_encoded(f8, init, step);
    lemma_fold_push_opt(f0, opt_bool_field(1, md.is_multi_part), init, step);
    let a1 = MetaDataView { is_multi_part: md.is_multi_part, ..init };
    assert(fold_fields(f1, init, step) == Ok::<MetaDataView, ErrorKind>(a1));
    lemma_fold_push_opt(f1, opt_str_field(2, md.content_type), init, step);
    let a2 = MetaDataView { content_type: md.content_type, ..a1 };
    if let Some(s) = md.content_type {
        lemma_utf8(s);
    }
    assert(fold_fields(f2, init, step) == Ok::<MetaDataView, ErrorKind>(a2));
    lemma_fold_push_opt(f2, opt_u64_field(3, md.size), init, step);
    let a3 = MetaDataView { size: md.size, ..a2 };
    assert(fold_fields(f3, init, step) == Ok::<MetaDataView, ErrorKind>(a3));
    lemma_fold_push_opt(f3, opt_u64_field(4, md.seq), init, step);
    let a4 = MetaDataView { seq: md.seq, ..a3 };
    assert(fold_fields(f4, init, step) == Ok::<MetaDataView, ErrorKind>(a4));
    lemma_fold_push_opt(f4, opt_str_field(5, md.file_name), init, step);
    let a5 = MetaDataView { file_name: md.file_name, ..a4 };
    if let Some(s) = md.file_name {
        lemma_utf8(s);
    }
    assert(fold_fields(f5, init, step) == Ok::<MetaDataView, ErrorKind>(a5));
    lemma_fold_push_opt(f5, opt_str_field(6, md.file_type), init, step);
    let a6 = MetaDataView { file_type: md.file_type, ..a5 };
    if let Some(s) = md.file_type {
        lemma_utf8(s);
    }
    assert(fold_fields(f6, init, step) == Ok::<MetaDataView, ErrorKind>(a6));
    lemma_fold_push_opt(f6, opt_str_field(7, md.md5), init, step);
    let a7 = MetaDataView { md5: md.md5, ..a6 };
    if let Some(s) = md.md5 {
        lemma_utf8(s);
    }
    assert(fold_fields(f7, init, step) == Ok::<MetaDataView, ErrorKind>(a7));
    lemma_fold_push_opt(f7, opt_str_field(8, md.description), init, step);
    if let Some(s) = md.description {
        lemma_utf8(s);
    }
    assert(fold_fields(f8, init, step) == Ok::<MetaDataView, ErrorKind>(md));
}

/// A parameter whose value, if any, has the parameter's datatype.
pub open spec fn parameter_wf(p: ParameterView) -> bool {
    match p.value {
        Some(v) => scalar_dt(v) == p.datatype,
        None => true,
    }
}

/// Decoding the encoding of a template parameter gives it back, when its value
/// is of its declared type. The encoding must fit in 64 bits.
pub proof fn lemma_parameter_roundtrip(p: ParameterView)
    requires
        parameter_wf(p),
        fields_bytes(parameter_fields(p)).len() <= u64::MAX,
    ensures
        decode_parameter_spec(fields_bytes(parameter_fields(p))) == Ok::<ParameterView, ErrorKind>(p),
{
    let step = parameter_step();
    let init = ParamAcc { name: None, type_code: None, slots: no_slots() };
    let f0 = Seq::<Field>::empty();
    let f1 = f0.push(str_field(1, p.name));
    let f2 = f1.push(crate::codec::fields::dt_field(2, p.datatype));
    assert(f2 =~= seq![str_field(1, p.name), crate::codec::fields::dt_field(2, p.datatype)]);
    lemma_utf8(p.name);
    lemma_dt_code_roundtrip(p.datatype, 0);
    lemma_fold_push_field(f0, str_field(1, p.name), init, step);
    let a1 = ParamAcc { name: Some(p.name), ..init };
    assert(fold_fields(f1, init, step) == Ok::<ParamAcc, ErrorKind>(a1));
    lemma_fold_push_field(f1, crate::codec::fields::dt_field(2, p.datatype), init, step);
    let a2 = ParamAcc { type_code: Some(dt_code(p.datatype)), ..a1 };
    assert(fold_fields(f2, init, step) == Ok::<ParamAcc, ErrorKind>(a2));
    match p.value {
        Some(v) => {
            let f3 = f2.push(scalar_field(v, 3));
            assert(f3 == parameter_fields(p));
            lemma_run_encoded(f3, init, step);
            lemma_fold_push_field(f2, scalar_field(v, 3), init, step);
            lemma_scalar_slot(no_slots(), v, 3);
            let sl = slot_step(no_slots(), scalar_field(v, 3), 3)->Some_0->Ok_0;
            assert(fold_fields(f3, init, step) == Ok::<ParamAcc, ErrorKind>(ParamAcc { slots: sl, ..a2 }));
        },
        None => {
            assert(f2 == parameter_fields(p));
            lemma_run_encoded(f2, init, step);
        },
    }
}

// ---------------------------------------------------------------------------
// DataSets
// ---------------------------------------------------------------------------

/// A cell of its column's type decodes back.
proof fn lemma_cell_roundtrip(c: Option<ScalarView>, dt: DataType)
    requires
        c matches Some(s) ==> scalar_dt(s) == dt,
        fields_bytes(cell_fields(c)).len() <= u64::MAX,
    ensures
        decode_cell_spec(fields_bytes(cell_fields(c)), dt) == Ok::<Option<ScalarView>, ErrorKind>(c),
{
    let step = cell_step();
    lemma_run_encoded(cell_fields(c), no_slots(), step);
    match c {
        Some(s) => {
            assert(cell_fields(c) =~= Seq::<Field>::empty().push(scalar_field(s, 1)));
            lemma_fold_push(Seq::<Field>::empty(), scalar_field(s, 1), no_slots(), step);
            lemma_scalar_slot(no_slots(), s, 1);
        },
        None => {
            assert(!any_slot(no_slots()));
        },
    }
}

/// A row of cells of the given column types decodes back, within a message of length `bound`.
proof fn lemma_row_fold(row: Seq<Option<ScalarView>>, types: Seq<DataType>)
    requires
        row.len() <= types.len(),
        forall|i: int| 0 <= i < row.len() ==> (#[trigger] row[i] matches Some(s) ==> scalar_dt(s) == types[i]),
        fields_bytes(row_fields(row)).len() <= u64::MAX,
    ensures
        fold_fields(row_fields(row), Seq::<Option<ScalarView>>::empty(), row_step(types))
            == Ok::<Seq<Option<ScalarView>>, ErrorKind>(row),
    decreases row.len(),
{
    if row.len() > 0 {
        let prev = row.drop_last();
        let f = crate::codec::fields::msg_field(1, cell_fields(row.last()));
        lemma_fold_push_field(row_fields(prev), f, Seq::<Option<ScalarView>>::empty(), row_step(types));
        assert forall|i: int| 0 <= i < prev.len() implies (#[trigger] prev[i] matches Some(s) ==> scalar_dt(s) == types[i]) by {
            assert(prev[i] == row[i]);
        }
        lemma_row_fold(prev, types);
        let k = row.len() - 1;
        assert(row[k] == row.last());
        lemma_cell_roundtrip(row.last(), types[k]);
        assert(prev.push(row.last()) =~= row);
    } else {
        assert(row =~= Seq::<Option<ScalarView>>::empty());
    }
}

/// A row decodes back.
proof fn lemma_row_roundtrip(row: Seq<Option<ScalarView>>, types: Seq<DataType>)
    requires
        row.len() <= types.len(),
        forall|i: int| 0 <= i < row.len() ==> (#[trigger] row[i] matches Some(s) ==> scalar_dt(s) == types[i]),
        fields_bytes(row_fields(row)).len() <= u64::MAX,
    ensures
        decode_row_spec(fields_bytes(row_fields(row)), types) == Ok::<Seq<Option<ScalarView>>, ErrorKind>(row),
{
    lemma_run_encoded(row_fields(row), Seq::<Option<ScalarView>>::empty(), row_step(types));
    lemma_row_fold(row, types);
}

/// The encodings of the rows of a DataSet.
pub open spec fn rows_bytes(rows: Seq<Seq<Option<ScalarView>>>) -> Seq<Seq<u8>> {
    rows.map_values(|r: Seq<Option<ScalarView>>| fields_bytes(row_fields(r)))
}

/// Folding the column names.
proof fn lemma_strs_fold(prefix: Seq<Field>, cols: Seq<Seq<char>>, acc: DataSetAcc)
    requires
        fold_fields(prefix, DataSetAcc { columns: seq![], codes: seq![], rows: seq![] }, dataset_step())
            == Ok::<DataSetAcc, ErrorKind>(acc),
    ensures
        fold_fields(push_strs(prefix, 2, cols), DataSetAcc { columns: seq![], codes: seq![], rows: seq![] }, dataset_step())
            == Ok::<DataSetAcc, ErrorKind>(DataSetAcc { columns: acc.columns + cols, ..acc }),
        fields_bytes(push_strs(prefix, 2, cols)).len() >= fields_bytes(prefix).len(),
    decreases cols.len(),
{
    let init = DataSetAcc { columns: seq![], codes: seq![], rows: seq![] };
    if cols.len() == 0 {
        assert(acc.columns + cols =~= acc.columns);
    } else {
        lemma_strs_fold(prefix, cols.drop_last(), acc);
        lemma_fold_push_field(push_strs(prefix, 2, cols.drop_last()), str_field(2, cols.last()), init, dataset_step());
        lemma_utf8(cols.last());
        assert((acc.columns + cols.drop_last()).push(cols.last()) =~= acc.columns + cols);
    }
}

/// Folding the column types.
proof fn lemma_types_fold(prefix: Seq<Field>, types: Seq<DataType>, acc: DataSetAcc)
    requires
        fold_fields(prefix, DataSetAcc { columns: seq![], codes: seq![], rows: seq![] }, dataset_step())
            == Ok::<DataSetAcc, ErrorKind>(acc),
    ensures
        fold_fields(push_types(prefix, 3, types), DataSetAcc { columns: seq![], codes: seq![], rows: seq![] }, dataset_step())
            == Ok::<DataSetAcc, ErrorKind>(DataSetAcc { codes: acc.codes + types.map_values(|t: DataType| dt_code(t)), ..acc }),
        fields_bytes(push_types(prefix, 3, types)).len() >= fields_bytes(prefix).len(),
    decreases types.len(),
{
    let init = DataSetAcc { columns: seq![], codes: seq![], rows: seq![] };
    if types.len() == 0 {
        assert(acc.codes + types.map_values(|t: DataType| dt_code(t)) =~= acc.codes);
    } else {
        lemma_types_fold(prefix, types.drop_last(), acc);
        lemma_fold_push_field(push_types(prefix, 3, types.drop_last()), dt_field(3, types.last()), init, dataset_step());
        assert((acc.codes + types.drop_last().map_values(|t: DataType| dt_code(t))).push(dt_code(types.last()))
            =~= acc.codes + types.map_values(|t: DataType| dt_code(t)));
    }
}

/// Folding the rows.
proof fn lemma_rows_fold(prefix: Seq<Field>, rows: Seq<Seq<Option<ScalarView>>>, acc: DataSetAcc)
    requires
        fold_fields(prefix, DataSetAcc { columns: seq![], codes: seq![], rows: seq![] }, dataset_step())
            == Ok::<DataSetAcc, ErrorKind>(acc),
    ensures
        fold_fields(push_rows(prefix, rows), DataSetAcc { columns: seq![], codes: seq![], rows: seq![] }, dataset_step())
            == Ok::<DataSetAcc, ErrorKind>(DataSetAcc { rows: acc.rows + rows_bytes(rows), ..acc }),
        fields_bytes(push_rows(prefix, rows)).len() >= fields_bytes(prefix).len(),
        forall|i: int| 0 <= i < rows.len() ==> fields_bytes(row_fields(#[trigger] rows[i])).len() < fields_bytes(push_rows(prefix, rows)).len(),
    decreases rows.len(),
{
    let init = DataSetAcc { columns: seq![], codes: seq![], rows: seq![] };
    if rows.len() == 0 {
        assert(acc.rows + rows_bytes(rows) =~= acc.rows);
    } else {
        let prev = rows.drop_last();
        lemma_rows_fold(prefix, prev, acc);
        lemma_fold_push_field(push_rows(prefix, prev), msg_field(4, row_fields(rows.last())), init, dataset_step());
        assert((acc.rows + rows_bytes(prev)).push(fields_bytes(row_fields(rows.last()))) =~= acc.rows + rows_bytes(rows));
        assert forall|i: int| 0 <= i < rows.len() implies fields_bytes(row_fields(#[trigger] rows[i])).len()
            < fields_bytes(push_rows(prefix, rows)).len() by {
            if i < prev.len() {
                assert(rows[i] == prev[i]);
            }
        }
    }
}

/// Codes of datatypes convert back.
proof fn lemma_codes_roundtrip(types: Seq<DataType>)
    ensures
        codes_to_types(types.map_values(|t: DataType| dt_code(t))) == Ok::<Seq<DataType>, ErrorKind>(types),
    decreases types.len(),
{
    if types.len() > 0 {
        lemma_codes_roundtrip(types.drop_last());
        let codes = types.map_values(|t: DataType| dt_code(t));
        assert(codes.drop_last() =~= types.drop_last().map_values(|t: DataType| dt_code(t)));
        lemma_dt_code_roundtrip(types.last(), 0);
        assert(codes.last() == dt_code(types.last()));
        assert(types.drop_last().push(types.last()) =~= types);
        assert(codes_to_types(codes.drop_last()) == Ok::<Seq<DataType>, ErrorKind>(types.drop_last()));
    } else {
        assert(types.map_values(|t: DataType| dt_code(t)) =~= Seq::<u32>::empty());
        assert(types =~= Seq::<DataType>::empty());
    }
}

/// Rows of a well-formed DataSet decode back.
proof fn lemma_rows_roundtrip(rows: Seq<Seq<Option<ScalarView>>>, types: Seq<DataType>)
    requires
        forall|r: int| 0 <= r < rows.len() ==> (#[trigger] rows[r]).len() == types.len(),
        forall|r: int, c: int|
            0 <= r < rows.len() && 0 <= c < rows[r].len() ==> match #[trigger] rows[r][c] {
                Some(s) => scalar_dt(s) == types[c],
                None => true,
            },
        forall|r: int| 0 <= r < rows.len() ==> fields_bytes(row_fields(#[trigger] rows[r])).len() <= u64::MAX,
    ensures
        decode_rows(rows_bytes(rows), types) == Ok::<Seq<Seq<Option<ScalarView>>>, ErrorKind>(rows),
    decreases rows.len(),
{
    if rows.len() > 0 {
        let prev = rows.drop_last();
        assert forall|r: int, c: int| 0 <= r < prev.len() && 0 <= c < prev[r].len() implies match #[trigger] prev[r][c] {
            Some(s) => scalar_dt(s) == types[c],
            None => true,
        } by {
            assert(prev[r] == rows[r]);
        }
        assert forall|r: int| 0 <= r < prev.len() implies (#[trigger] prev[r]).len() == types.len()
            && fields_bytes(row_fields(prev[r])).len() <= u64::MAX by {
            assert(prev[r] == rows[r]);
        }
        lemma_rows_roundtrip(prev, types);
        assert(rows_bytes(rows).drop_last() =~= rows_bytes(prev));
        let k = rows.len() - 1;
        let row = rows[k];
        assert forall|i: int| 0 <= i < row.len() implies (#[trigger] row[i] matches Some(s) ==> scalar_dt(s) == types[i]) by {
            assert(rows[k][i] == row[i]);
        }
        lemma_row_roundtrip(row, types);
        let rb = rows_bytes(rows);
        assert(rb.last() == fields_bytes(row_fields(row)));
        assert(prev.push(row) =~= rows);
        assert(decode_rows(rb.drop_last(), types) == Ok::<Seq<Seq<Option<ScalarView>>>, ErrorKind>(prev));
        assert(decode_row_spec(rb.last(), types) == Ok::<Seq<Option<ScalarView>>, ErrorKind>(row));
    } else {
        assert(rows_bytes(rows) =~= Seq::<Seq<u8>>::empty());
        assert(rows =~= Seq::<Seq<Option<ScalarView>>>::empty());
    }
}

/// Decoding the encoding of a well-formed DataSet gives it back, rows and
/// column types included. The encoding must fit in 64 bits.
pub proof fn lemma_dataset_roundtrip(d: DataSetView)
    requires
        dataset_wf(d),
        fields_bytes(dataset_fields(d)).len() <= u64::MAX,
    ensures
        decode_dataset_spec(fields_bytes(dataset_fields(d))) == Ok::<DataSetView, ErrorKind>(d),
{
    let init = DataSetAcc { columns: seq![], codes: seq![], rows: seq![] };
    let step = dataset_step();
    let f0 = Seq::<Field>::empty();
    let nf = Field { num: 1, val: Wire::Varint(d.columns.len() as u64) };
    let f1 = f0.push(nf);
    assert(f1 =~= seq![nf]);
    lemma_fold_push_field(f0, nf, init, step);
    assert(fold_fields(f1, init, step) == Ok::<DataSetAcc, ErrorKind>(init));
    let f2 = push_strs(f1, 2, d.columns);
    lemma_strs_fold(f1, d.columns, init);
    let a2 = DataSetAcc { columns: d.columns, ..init };
    assert(Seq::<Seq<char>>::empty() + d.columns =~= d.columns);
    let f3 = push_types(f2, 3, d.types);
    lemma_types_fold(f2, d.types, a2);
    let codes = d.types.map_values(|t: DataType| dt_code(t));
    assert(Seq::<u32>::empty() + codes =~= codes);
    let a3 = DataSetAcc { codes, ..a2 };
    let f4 = push_rows(f3, d.rows);
    lemma_rows_fold(f3, d.rows, a3);
    assert(Seq::<Seq<u8>>::empty() + rows_bytes(d.rows) =~= rows_bytes(d.rows));
    assert(f4 == dataset_fields(d));
    lemma_run_encoded(f4, init, step);
    lemma_codes_roundtrip(d.types);
    lemma_rows_roundtrip(d.rows, d.types);
}

// ---------------------------------------------------------------------------
// Property sets
// ---------------------------------------------------------------------------

/// A property value read at nesting `depth` stays within the decoder's depth limit.
pub open spec fn property_value_wf(v: PropertyValueView, depth: nat) -> bool
    decreases v,
{
    depth <= MAX_DEPTH && match v {
        PropertyValueView::PropertySet(ps) => property_set_wf(ps, depth + 1),
        PropertyValueView::PropertySetList(l) => property_set_list_wf(l, depth + 1),
        _ => true,
    }
}

/// A property set read at nesting `depth` stays within the decoder's depth limit.
pub open spec fn property_set_wf(ps: PropertySetView, depth: nat) -> bool
    decreases ps,
{
    depth <= MAX_DEPTH && entries_wf(ps.entries, depth + 1)
}

/// Each entry's value, read at nesting `depth`, stays within the depth limit.
pub open spec fn entries_wf(es: Seq<(Seq<char>, PropertyValueView)>, depth: nat) -> bool
    decreases es,
{
    es.len() == 0 || (entries_wf(es.drop_last(), depth) && property_value_wf(es.last().1, depth))
}

/// A property-set list read at nesting `depth` stays within the decoder's depth limit.
pub open spec fn property_set_list_wf(l: PropertySetListView, depth: nat) -> bool
    decreases l,
{
    depth <= MAX_DEPTH && sets_wf(l.sets, depth + 1)
}

/// Each property set, read at nesting `depth`, stays within the depth limit.
pub open spec fn sets_wf(ss: Seq<PropertySetView>, depth: nat) -> bool
    decreases ss,
{
    ss.len() == 0 || (sets_wf(ss.drop_last(), depth) && property_set_wf(ss.last(), depth))
}

/// The keys of property-set entries.
pub open spec fn entry_keys(es: Seq<(Seq<char>, PropertyValueView)>) -> Seq<Seq<char>> {
    es.map_values(|e: (Seq<char>, PropertyValueView)| e.0)
}

/// The values of property-set entries.
pub open spec fn entry_values(es: Seq<(Seq<char>, PropertyValueView)>) -> Seq<PropertyValueView> {
    es.map_values(|e: (Seq<char>, PropertyValueView)| e.1)
}

/// Folding the keys of a property set.
proof fn lemma_keys_fold(prefix: Seq<Field>, es: Seq<(Seq<char>, PropertyValueView)>, depth: nat, bound: nat, acc: PropertySetAcc)
    requires
        fold_fields(prefix, PropertySetAcc { keys: seq![], values: seq![] }, property_set_step(depth, bound))
            == Ok::<PropertySetAcc, ErrorKind>(acc),
    ensures
        fold_fields(push_keys(prefix, es), PropertySetAcc { keys: seq![], values: seq![] }, property_set_step(depth, bound))
            == Ok::<PropertySetAcc, ErrorKind>(PropertySetAcc { keys: acc.keys + entry_keys(es), ..acc }),
        fields_bytes(push_keys(prefix, es)).len() >= fields_bytes(prefix).len(),
    decreases es.len(),
{
    let init = PropertySetAcc { keys: seq![], values: seq![] };
    if es.len() == 0 {
        assert(acc.keys + entry_keys(es) =~= acc.keys);
    } else {
        lemma_keys_fold(prefix, es.drop_last(), depth, bound, acc);
        lemma_fold_push_field(push_keys(prefix, es.drop_last()), str_field(1, es.last().0), init, property_set_step(depth, bound));
        lemma_utf8(es.last().0);
        assert((acc.keys + entry_keys(es.drop_last())).push(es.last().0) =~= acc.keys + entry_keys(es));
    }
}

/// Folding the values of a property set.
proof fn lemma_values_fold(prefix: Seq<Field>, es: Seq<(Seq<char>, PropertyValueView)>, depth: nat, bound: nat, acc: PropertySetAcc)
    requires
        fold_fields(prefix, PropertySetAcc { keys: seq![], values: seq![] }, property_set_step(depth, bound))
            == Ok::<PropertySetAcc, ErrorKind>(acc),
        entries_wf(es, depth + 1),
        fields_bytes(push_property_values(prefix, es)).len() <= bound,
        bound <= u64::MAX,
    ensures
        fold_fields(push_property_values(prefix, es), PropertySetAcc { keys: seq![], values: seq![] }, property_set_step(depth, bound))
            == Ok::<PropertySetAcc, ErrorKind>(PropertySetAcc { values: acc.values + entry_values(es), ..acc }),
    decreases es,
{
    let init = PropertySetAcc { keys: seq![], values: seq![] };
    if es.len() == 0 {
        assert(acc.values + entry_values(es) =~= acc.values);
    } else {
        let prev = es.drop_last();
        let v = es.last().1;
        let f = msg_field(2, property_value_fields(v));
        lemma_fold_push_field(push_property_values(prefix, prev), f, init, property_set_step(depth, bound));
        lemma_values_fold(prefix, prev, depth, bound, acc);
        lemma_property_value_roundtrip(v, depth + 1);
        assert((acc.values + entry_values(prev)).push(v) =~= acc.values + entry_values(es));
    }
}

/// Folding the sets of a property-set list.
proof fn lemma_sets_fold(prefix: Seq<Field>, ss: Seq<PropertySetView>, depth: nat, bound: nat, acc: Seq<PropertySetView>)
    requires
        fold_fields(prefix, Seq::<PropertySetView>::empty(), property_set_list_step(depth, bound))
            == Ok::<Seq<PropertySetView>, ErrorKind>(acc),
        sets_wf(ss, depth + 1),
        fields_bytes(push_sets(prefix, ss)).len() <= bound,
        bound <= u64::MAX,
    ensures
        fold_fields(push_sets(prefix, ss), Seq::<PropertySetView>::empty(), property_set_list_step(depth, bound))
            == Ok::<Seq<PropertySetView>, ErrorKind>(acc + ss),
    decreases ss,
{
    if ss.len() == 0 {
        assert(acc + ss =~= acc);
    } else {
        let prev = ss.drop_last();
        let f = msg_field(1, property_set_fields(ss.last()));
        lemma_fold_push_field(push_sets(prefix, prev), f, Seq::<PropertySetView>::empty(), property_set_list_step(depth, bound));
        lemma_sets_fold(prefix, prev, depth, bound, acc);
        lemma_property_set_roundtrip(ss.last(), depth + 1);
        assert((acc + prev).push(ss.last()) =~= acc + ss);
    }
}

/// Decoding the encoding of a property set read at nesting `depth` gives it
/// back, key order, nested sets and lists kept, when it is well formed at that
/// depth. The encoding must fit in 64 bits.
pub proof fn lemma_property_set_roundtrip(ps: PropertySetView, depth: nat)
    requires
        property_set_wf(ps, depth),
        fields_bytes(property_set_fields(ps)).len() <= u64::MAX,
    ensures
        decode_property_set_spec(fields_bytes(property_set_fields(ps)), depth) == Ok::<PropertySetView, ErrorKind>(ps),
    decreases ps,
{
    let fs = property_set_fields(ps);
    let bound = fields_bytes(fs).len();
    let init = PropertySetAcc { keys: seq![], values: seq![] };
    let step = property_set_step(depth, bound);
    let es = ps.entries;
    let keys = push_keys(Seq::<Field>::empty(), es);
    lemma_keys_fold(Seq::<Field>::empty(), es, depth, bound, init);
    assert(Seq::<Seq<char>>::empty() + entry_keys(es) =~= entry_keys(es));
    let a1 = PropertySetAcc { keys: entry_keys(es), values: seq![] };
    lemma_values_fold(keys, es, depth, bound, a1);
    assert(Seq::<PropertyValueView>::empty() + entry_values(es) =~= entry_values(es));
    lemma_run_encoded(fs, init, step);
    assert(zip_entries(entry_keys(es), entry_values(es)) =~= es);
}

/// Decoding the encoding of a property-set list read at nesting `depth` gives
/// it back, when it is well formed at that depth. The encoding must fit in 64
/// bits.
pub proof fn lemma_property_set_list_roundtrip(l: PropertySetListView, depth: nat)
    requires
        property_set_list_wf(l, depth),
        fields_bytes(property_set_list_fields(l)).len() <= u64::MAX,
    ensures
        decode_property_set_list_spec(fields_bytes(property_set_list_fields(l)), depth)
            == Ok::<PropertySetListView, ErrorKind>(l),
    decreases l,
{
    let fs = property_set_list_fields(l);
    let bound = fields_bytes(fs).len();
    lemma_sets_fold(Seq::<Field>::empty(), l.sets, depth, bound, Seq::<PropertySetView>::empty());
    assert(Seq::<PropertySetView>::empty() + l.sets =~= l.sets);
    lemma_run_encoded(fs, Seq::<PropertySetView>::empty(), property_set_list_step(depth, bound));
}

/// Decoding the encoding of a property value read at nesting `depth` gives it
/// back (a null keeps its declared datatype), when it is well formed at that
/// depth. The encoding must fit in 64 bits.
pub proof fn lemma_property_value_roundtrip(v: PropertyValueView, depth: nat)
    requires
        property_value_wf(v, depth),
        fields_bytes(property_value_fields(v)).len() <= u64::MAX,
    ensures
        decode_property_value_spec(fields_bytes(property_value_fields(v)), depth) == Ok::<PropertyValueView, ErrorKind>(v),
    decreases v,
{
    let fs = property_value_fields(v);
    let bound = fields_bytes(fs).len();
    let init = empty_property_value();
    let step = property_value_step();
    let dtf = dt_field(1, property_value_dt(v));
    let f1 = Seq::<Field>::empty().push(dtf);
    assert(f1 =~= seq![dtf]);
    lemma_fold_push_field(Seq::<Field>::empty(), dtf, init, step);
    lemma_dt_code_roundtrip(property_value_dt(v), 0);
    let a1 = PropertyValueAcc { type_code: Some(dt_code(property_value_dt(v))), ..init };
    assert(fold_fields(f1, init, step) == Ok::<PropertyValueAcc, ErrorKind>(a1));
    lemma_run_encoded(fs, init, step);
    match v {
        PropertyValueView::Null(dt) => {
            let f = Field { num: 2, val: Wire::Varint(1) };
            lemma_fold_push_field(f1, f, init, step);
            assert(fold_fields(fs, init, step) == Ok::<PropertyValueAcc, ErrorKind>(PropertyValueAcc { is_null: true, ..a1 }));
        },
        PropertyValueView::Scalar(sc) => {
            let f = scalar_field(sc, 3);
            lemma_fold_push_field(f1, f, init, step);
            lemma_scalar_slot(no_slots(), sc, 3);
            let sl = slot_step(no_slots(), f, 3)->Some_0->Ok_0;
            assert(fold_fields(fs, init, step) == Ok::<PropertyValueAcc, ErrorKind>(PropertyValueAcc { slots: sl, ..a1 }));
        },
        PropertyValueView::PropertySet(ps) => {
            let f = msg_field(9, property_set_fields(ps));
            lemma_fold_push_field(f1, f, init, step);
            let a2 = PropertyValueAcc { set: Some(fields_bytes(property_set_fields(ps))), ..a1 };
            assert(fold_fields(fs, init, step) == Ok::<PropertyValueAcc, ErrorKind>(a2));
            lemma_property_set_roundtrip(ps, depth + 1);
            assert(property_value_finish(a2, depth, bound) == Ok::<PropertyValueView, ErrorKind>(v));
        },
        PropertyValueView::PropertySetList(l) => {
            let f = msg_field(10, property_set_list_fields(l));
            lemma_fold_push_field(f1, f, init, step);
            let a2 = PropertyValueAcc { list: Some(fields_bytes(property_set_list_fields(l))), ..a1 };
            assert(fold_fields(fs, init, step) == Ok::<PropertyValueAcc, ErrorKind>(a2));
            lemma_property_set_list_roundtrip(l, depth + 1);
            assert(property_value_finish(a2, depth, bound) == Ok::<PropertyValueView, ErrorKind>(v));
        },
    }
}

// ---------------------------------------------------------------------------
// Arrays
// ---------------------------------------------------------------------------

/// `w` fits in `width` bytes.
pub open spec fn word_fits(w: u64, width: nat) -> bool {
    if width == 1 {
        w < 0x100
    } else if width == 2 {
        w < 0x1_0000
    } else if width == 4 {
        w < 0x1_0000_0000
    } else {
        true
    }
}

/// A word that fits reads back from its little-endian bytes.
proof fn lemma_word_roundtrip(w: u64, width: nat)
    requires
        width == 1 || width == 2 || width == 4 || width == 8,
        word_fits(w, width),
    ensures
        word_le(w, width).len() == width,
        word_from_le(word_le(w, width), width) == w,
{
    lemma_auto_spec_u16_to_from_le_bytes();
    lemma_auto_spec_u32_to_from_le_bytes();
    lemma_auto_spec_u64_to_from_le_bytes();
    if width == 1 {
        assert((w as u8) as u64 == w);
    } else if width == 2 {
        assert((w as u16) as u64 == w);
    } else if width == 4 {
        assert((w as u32) as u64 == w);
    }
}

/// Packing words with one in front.
proof fn lemma_pack_words_cons(w: u64, ws: Seq<u64>, width: nat)
    ensures
        pack_words(seq![w] + ws, width) == word_le(w, width) + pack_words(ws, width),
    decreases ws.len(),
{
    let all = seq![w] + ws;
    if ws.len() == 0 {
        assert(all.drop_last() =~= Seq::<u64>::empty());
        assert(all.last() == w);
        assert(pack_words(Seq::<u64>::empty(), width) == Seq::<u8>::empty());
        assert(pack_words(all, width) =~= word_le(w, width) + pack_words(ws, width));
    } else {
        assert(all.drop_last() =~= seq![w] + ws.drop_last());
        assert(all.last() == ws.last());
        lemma_pack_words_cons(w, ws.drop_last(), width);
        assert(pack_words(all, width) =~= word_le(w, width) + pack_words(ws, width));
    }
}

/// Words that fit read back from their packing.
proof fn lemma_words_roundtrip(ws: Seq<u64>, width: nat)
    requires
        width == 1 || width == 2 || width == 4 || width == 8,
        forall|i: int| 0 <= i < ws.len() ==> word_fits(#[trigger] ws[i], width),
    ensures
        unpack_words(pack_words(ws, width), width) == ws,
        pack_words(ws, width).len() == ws.len() * width,
    decreases ws.len(),
{
    if ws.len() == 0 {
        assert(ws =~= Seq::<u64>::empty());
    } else {
        let w = ws[0];
        let tail = ws.drop_first();
        assert(ws =~= seq![w] + tail);
        lemma_pack_words_cons(w, tail, width);
        lemma_word_roundtrip(w, width);
        assert forall|i: int| 0 <= i < tail.len() implies word_fits(#[trigger] tail[i], width) by {
            assert(tail[i] == ws[i + 1]);
        }
        lemma_words_roundtrip(tail, width);
        let data = pack_words(ws, width);
        assert(data.take(width as int) =~= word_le(w, width));
        assert(data.skip(width as int) =~= pack_words(tail, width));
        assert(tail.len() * width + width == ws.len() * width) by (nonlinear_arith)
            requires
                tail.len() + 1 == ws.len(),
        ;
        assert(seq![w] + tail =~= ws);
    }
}

/// `n` whole words of `width` bytes leave no remainder.
proof fn lemma_whole_words(n: nat, width: nat)
    requires
        width > 0,
    ensures
        (n * width) % width == 0,
{
    vstd::arithmetic::div_mod::lemma_mod_multiples_basic(n as int, width as int);
}

/// The NUL-separated pieces of packed strings with no NUL in them.
proof fn lemma_split_strings(ss: Seq<Seq<char>>)
    requires
        forall|i: int| 0 <= i < ss.len() ==> !encode_utf8(#[trigger] ss[i]).contains(0u8),
    ensures
        split_nul(strings_pack(ss)) == ss.map_values(|s: Seq<char>| encode_utf8(s)).push(seq![]),
    decreases ss.len(),
{
    if ss.len() == 0 {
        assert(split_nul(strings_pack(ss)) =~= seq![Seq::<u8>::empty()]);
        assert(ss.map_values(|s: Seq<char>| encode_utf8(s)).push(seq![]) =~= seq![Seq::<u8>::empty()]);
    } else {
        let prev = ss.drop_last();
        assert forall|i: int| 0 <= i < prev.len() implies !encode_utf8(#[trigger] prev[i]).contains(0u8) by {
            assert(prev[i] == ss[i]);
        }
        lemma_split_strings(prev);
        let e = encode_utf8(ss.last());
        assert(!e.contains(0u8)) by {
            assert(ss[ss.len() - 1] == ss.last());
        }
        let x = strings_pack(prev);
        lemma_split_append(x, e);
        let data = strings_pack(ss);
        assert(data =~= (x + e).push(0u8));
        assert(data.drop_last() =~= x + e);
        let es = ss.map_values(|s: Seq<char>| encode_utf8(s));
        let ps = prev.map_values(|s: Seq<char>| encode_utf8(s));
        let sp = split_nul(x);
        assert(sp == ps.push(seq![]));
        assert(sp.last() + e =~= e);
        assert(sp.update(sp.len() - 1, e) =~= ps.push(e));
        assert(ps.push(e) =~= es) by {
            assert(es.last() == e);
        }
        assert(split_nul(x + e) == es);
        assert(data.last() == 0u8);
        assert(split_nul(data) == split_nul(data.drop_last()).push(seq![]));
    }
}

/// Appending NUL-free bytes extends the last piece.
proof fn lemma_split_append(x: Seq<u8>, e: Seq<u8>)
    requires
        !e.contains(0u8),
    ensures
        ({
            let sp = split_nul(x);
            split_nul(x + e) == sp.update(sp.len() - 1, sp.last() + e)
        }),
    decreases e.len(),
{
    lemma_split_nonempty_public(x);
    if e.len() == 0 {
        let sp = split_nul(x);
        assert(x + e =~= x);
        assert(sp.update(sp.len() - 1, sp.last() + e) =~= sp);
    } else {
        let e0 = e.drop_last();
        assert(!e0.contains(0u8)) by {
            if e0.contains(0u8) {
                let k = choose|k: int| 0 <= k < e0.len() && e0[k] == 0u8;
                assert(e[k] == 0u8);
            }
        }
        assert(e.last() != 0u8) by {
            assert(e[e.len() - 1] == e.last());
        }
        lemma_split_append(x, e0);
        assert((x + e).drop_last() =~= x + e0);
        assert((x + e).last() == e.last());
        let sp = split_nul(x);
        let s0 = split_nul(x + e0);
        let l = sp.len() - 1;
        assert(s0 == sp.update(l, sp.last() + e0));
        assert(s0.len() == sp.len());
        assert(s0.last() == sp.last() + e0);
        assert(e0.push(e.last()) =~= e);
        assert((sp.last() + e0).push(e.last()) =~= sp.last() + e);
        assert(split_nul(x + e) == s0.update(l, s0.last().push(e.last())));
        assert(s0.update(l, s0.last().push(e.last())) =~= sp.update(l, sp.last() + e));
    }
}

/// There is always at least one piece.
proof fn lemma_split_nonempty_public(data: Seq<u8>)
    ensures
        split_nul(data).len() >= 1,
    decreases data.len(),
{
    if data.len() > 0 {
        lemma_split_nonempty_public(data.drop_last());
    }
}

/// The pieces of UTF-8 encodings decode back.
proof fn lemma_pieces_roundtrip(ss: Seq<Seq<char>>)
    ensures
        decode_pieces(ss.map_values(|s: Seq<char>| encode_utf8(s))) == Ok::<Seq<Seq<char>>, ErrorKind>(ss),
    decreases ss.len(),
{
    let es = ss.map_values(|s: Seq<char>| encode_utf8(s));
    if ss.len() == 0 {
        assert(es =~= Seq::<Seq<u8>>::empty());
        assert(ss =~= Seq::<Seq<char>>::empty());
    } else {
        lemma_pieces_roundtrip(ss.drop_last());
        assert(es.drop_last() =~= ss.drop_last().map_values(|s: Seq<char>| encode_utf8(s)));
        assert(es.last() == encode_utf8(ss.last()));
        assert(ss.drop_last().push(ss.last()) =~= ss);
    }
}

/// A packed array whose elements can be packed (booleans: no more than `u32::MAX` of them;
/// strings: no NUL inside) reads back.
pub open spec fn array_wf(v: MetricValueView) -> bool {
    match v {
        MetricValueView::BooleanArray(bs) => bs.len() <= u32::MAX,
        MetricValueView::StringArray(ss) => forall|i: int| 0 <= i < ss.len() ==> !encode_utf8(#[trigger] ss[i]).contains(0u8),
        _ => true,
    }
}

/// The mask of bit `k` (0 = most significant) of a byte.
spec fn bit_mask(k: int) -> u8 {
    (128u8 >> (k as u8)) as u8
}

/// The byte whose bits, most significant first, are `b0..b7`.
spec fn byte_of(b0: bool, b1: bool, b2: bool, b3: bool, b4: bool, b5: bool, b6: bool, b7: bool) -> u8 {
    let x0: u8 = if b0 { 128u8 } else { 0u8 };
    let x1: u8 = if b1 { 64u8 } else { 0u8 };
    let x2: u8 = if b2 { 32u8 } else { 0u8 };
    let x3: u8 = if b3 { 16u8 } else { 0u8 };
    let x4: u8 = if b4 { 8u8 } else { 0u8 };
    let x5: u8 = if b5 { 4u8 } else { 0u8 };
    let x6: u8 = if b6 { 2u8 } else { 0u8 };
    let x7: u8 = if b7 { 1u8 } else { 0u8 };
    (((((((0u8 | x0) | x1) | x2) | x3) | x4) | x5) | x6) | x7
}

/// Each bit of a byte is the boolean it was built from.
proof fn lemma_byte_bits(b0: bool, b1: bool, b2: bool, b3: bool, b4: bool, b5: bool, b6: bool, b7: bool)
    by (bit_vector)
    ensures
        (byte_of(b0, b1, b2, b3, b4, b5, b6, b7) & 128u8 != 0u8) == b0,
        (byte_of(b0, b1, b2, b3, b4, b5, b6, b7) & 64u8 != 0u8) == b1,
        (byte_of(b0, b1, b2, b3, b4, b5, b6, b7) & 32u8 != 0u8) == b2,
        (byte_of(b0, b1, b2, b3, b4, b5, b6, b7) & 16u8 != 0u8) == b3,
        (byte_of(b0, b1, b2, b3, b4, b5, b6, b7) & 8u8 != 0u8) == b4,
        (byte_of(b0, b1, b2, b3, b4, b5, b6, b7) & 4u8 != 0u8) == b5,
        (byte_of(b0, b1, b2, b3, b4, b5, b6, b7) & 2u8 != 0u8) == b6,
        (byte_of(b0, b1, b2, b3, b4, b5, b6, b7) & 1u8 != 0u8) == b7,
{
}

/// The masks of the eight bits.
proof fn lemma_masks()
    ensures
        bit_mask(0) == 128u8,
        bit_mask(1) == 64u8,
        bit_mask(2) == 32u8,
        bit_mask(3) == 16u8,
        bit_mask(4) == 8u8,
        bit_mask(5) == 4u8,
        bit_mask(6) == 2u8,
        bit_mask(7) == 1u8,
{
    assert((128u8 >> 0u8) == 128u8) by (bit_vector);
    assert((128u8 >> 1u8) == 64u8) by (bit_vector);
    assert((128u8 >> 2u8) == 32u8) by (bit_vector);
    assert((128u8 >> 3u8) == 16u8) by (bit_vector);
    assert((128u8 >> 4u8) == 8u8) by (bit_vector);
    assert((128u8 >> 5u8) == 4u8) by (bit_vector);
    assert((128u8 >> 6u8) == 2u8) by (bit_vector);
    assert((128u8 >> 7u8) == 1u8) by (bit_vector);
}

/// Bit `i` of packed booleans is boolean `i`.
proof fn lemma_bool_bit(bs: Seq<bool>, i: int)
    requires
        0 <= i < bs.len(),
    ensures
        (partial_byte(bs, i / 8, 8) & bit_mask(i % 8) != 0u8) == bs[i],
{
    let j = i / 8;
    lemma_masks();
    let b0 = bit_at(bs, 8 * j);
    let b1 = bit_at(bs, 8 * j + 1);
    let b2 = bit_at(bs, 8 * j + 2);
    let b3 = bit_at(bs, 8 * j + 3);
    let b4 = bit_at(bs, 8 * j + 4);
    let b5 = bit_at(bs, 8 * j + 5);
    let b6 = bit_at(bs, 8 * j + 6);
    let b7 = bit_at(bs, 8 * j + 7);
    assert(bit_val(b0, 0) == (if b0 { 128u8 } else { 0u8 }));
    assert(bit_val(b1, 1) == (if b1 { 64u8 } else { 0u8 }));
    assert(bit_val(b2, 2) == (if b2 { 32u8 } else { 0u8 }));
    assert(bit_val(b3, 3) == (if b3 { 16u8 } else { 0u8 }));
    assert(bit_val(b4, 4) == (if b4 { 8u8 } else { 0u8 }));
    assert(bit_val(b5, 5) == (if b5 { 4u8 } else { 0u8 }));
    assert(bit_val(b6, 6) == (if b6 { 2u8 } else { 0u8 }));
    assert(bit_val(b7, 7) == (if b7 { 1u8 } else { 0u8 }));
    reveal_with_fuel(partial_byte, 9);
    assert(partial_byte(bs, j, 8) == byte_of(b0, b1, b2, b3, b4, b5, b6, b7));
    lemma_byte_bits(b0, b1, b2, b3, b4, b5, b6, b7);
    let k = i % 8;
    assert(i == 8 * j + k);
}

/// The layout of a packed `BooleanArray`: the element count as four
/// little-endian bytes, then one bit per boolean, eight to a byte, the first of
/// each eight in the most significant bit (`128 >> (i % 8)` of byte `i / 8`).
pub proof fn lemma_boolean_array_layout(bs: Seq<bool>)
    ensures
        pack(MetricValueView::BooleanArray(bs)).len() == 4 + (bs.len() + 7) / 8,
        pack(MetricValueView::BooleanArray(bs)).take(4) == vstd::bytes::spec_u32_to_le_bytes(bs.len() as u32),
        forall|i: int| 0 <= i < bs.len() ==> ((pack(MetricValueView::BooleanArray(bs))[4 + i / 8] & (128u8 >> ((i
            % 8) as u8))) != 0u8) == #[trigger] bs[i],
{
    vstd::bytes::lemma_auto_spec_u32_to_from_le_bytes();
    let head = vstd::bytes::spec_u32_to_le_bytes(bs.len() as u32);
    let body = bool_bytes(bs);
    let all = pack(MetricValueView::BooleanArray(bs));
    assert(all == head + body);
    assert(all.take(4) =~= head);
    assert forall|i: int| 0 <= i < bs.len() implies ((all[4 + i / 8] & (128u8 >> ((i % 8) as u8))) != 0u8)
        == #[trigger] bs[i] by {
        lemma_bool_bit(bs, i);
        assert(i / 8 < (bs.len() + 7) / 8);
        assert(all[4 + i / 8] == body[i / 8]);
        assert(body[i / 8] == partial_byte(bs, i / 8, 8));
    }
}

/// A packed array-typed value reads back.
pub proof fn lemma_array_roundtrip(v: MetricValueView)
    requires
        22 <= dt_code(metric_value_dt(v)) <= 34,
        !(v is Null),
        array_wf(v),
    ensures
        unpack(metric_value_dt(v), pack(v)) == Ok::<MetricValueView, ErrorKind>(v),
{
    match v {
        MetricValueView::Int8Array(xs) => {
            let ws = xs.map_values(|x: i8| (x as u8) as u64);
            assert forall|i: int| 0 <= i < ws.len() implies word_fits(#[trigger] ws[i], 1) && (ws[i] as u8) as i8 == xs[i] by {
                let x = xs[i];
                assert(((x as u8) as u64) < 0x100) by (bit_vector);
                assert((((x as u8) as u64) as u8) as i8 == x) by (bit_vector);
            }
            lemma_words_roundtrip(ws, 1);
            lemma_whole_words(ws.len(), 1);
            assert(pack(v) == pack_words(ws, 1));
            assert(pack(v).len() % 1 == 0);
            assert(dt_width(metric_value_dt(v)) == Some(1usize));
            assert(unpack_words(pack(v), 1).map_values(|w: u64| (w as u8) as i8) =~= xs);
            assert(unpack(metric_value_dt(v), pack(v)) == Ok::<MetricValueView, ErrorKind>(MetricValueView::Int8Array(unpack_words(pack(v), 1).map_values(|w: u64| (w as u8) as i8))));
            assert(unpack(metric_value_dt(v), pack(v)) == Ok::<MetricValueView, ErrorKind>(v));
        },
        MetricValueView::Int16Array(xs) => {
            let ws = xs.map_values(|x: i16| (x as u16) as u64);
            assert forall|i: int| 0 <= i < ws.len() implies word_fits(#[trigger] ws[i], 2) && (ws[i] as u16) as i16 == xs[i] by {
                let x = xs[i];
                assert(((x as u16) as u64) < 0x1_0000) by (bit_vector);
                assert((((x as u16) as u64) as u16) as i16 == x) by (bit_vector);
            }
            lemma_words_roundtrip(ws, 2);
            lemma_whole_words(ws.len(), 2);
            assert(pack(v) == pack_words(ws, 2));
            assert(unpack_words(pack(v), 2).map_values(|w: u64| (w as u16) as i16) =~= xs);
            assert(unpack(metric_value_dt(v), pack(v)) == Ok::<MetricValueView, ErrorKind>(MetricValueView::Int16Array(unpack_words(pack(v), 2).map_values(|w: u64| (w as u16) as i16))));
        },
        MetricValueView::Int32Array(xs) => {
            let ws = xs.map_values(|x: i32| (x as u32) as u64);
            assert forall|i: int| 0 <= i < ws.len() implies word_fits(#[trigger] ws[i], 4) && (ws[i] as u32) as i32 == xs[i] by {
                let x = xs[i];
                assert(((x as u32) as u64) < 0x1_0000_0000) by (bit_vector);
                assert((((x as u32) as u64) as u32) as i32 == x) by (bit_vector);
            }
            lemma_words_roundtrip(ws, 4);
            lemma_whole_words(ws.len(), 4);
            assert(pack(v) == pack_words(ws, 4));
            assert(unpack_words(pack(v), 4).map_values(|w: u64| (w as u32) as i32) =~= xs);
            assert(unpack(metric_value_dt(v), pack(v)) == Ok::<MetricValueView, ErrorKind>(MetricValueView::Int32Array(unpack_words(pack(v), 4).map_values(|w: u64| (w as u32) as i32))));
        },
        MetricValueView::Int64Array(xs) => {
            let ws = xs.map_values(|x: i64| x as u64);
            assert forall|i: int| 0 <= i < ws.len() implies word_fits(#[trigger] ws[i], 8) && ws[i] as i64 == xs[i] by {
                let x = xs[i];
                assert((x as u64) as i64 == x) by (bit_vector);
            }
            lemma_words_roundtrip(ws, 8);
            lemma_whole_words(ws.len(), 8);
            assert(pack(v) == pack_words(ws, 8));
            assert(unpack_words(pack(v), 8).map_values(|w: u64| w as i64) =~= xs);
            assert(unpack(metric_value_dt(v), pack(v)) == Ok::<MetricValueView, ErrorKind>(MetricValueView::Int64Array(unpack_words(pack(v), 8).map_values(|w: u64| w as i64))));
        },
        MetricValueView::UInt8Array(xs) => {
            let ws = xs.map_values(|x: u8| x as u64);
            assert forall|i: int| 0 <= i < ws.len() implies word_fits(#[trigger] ws[i], 1) && ws[i] as u8 == xs[i] by {
                let x = xs[i];
                assert((x as u64) < 0x100) by (bit_vector);
                assert((x as u64) as u8 == x) by (bit_vector);
            }
            lemma_words_roundtrip(ws, 1);
            lemma_whole_words(ws.len(), 1);
            assert(pack(v) == pack_words(ws, 1));
            assert(unpack_words(pack(v), 1).map_values(|w: u64| w as u8) =~= xs);
            assert(unpack(metric_value_dt(v), pack(v)) == Ok::<MetricValueView, ErrorKind>(MetricValueView::UInt8Array(unpack_words(pack(v), 1).map_values(|w: u64| w as u8))));
        },
        MetricValueView::UInt16Array(xs) => {
            let ws = xs.map_values(|x: u16| x as u64);
            assert forall|i: int| 0 <= i < ws.len() implies word_fits(#[trigger] ws[i], 2) && ws[i] as u16 == xs[i] by {
                let x = xs[i];
                assert((x as u64) < 0x1_0000) by (bit_vector);
                assert((x as u64) as u16 == x) by (bit_vector);
            }
            lemma_words_roundtrip(ws, 2);
            lemma_whole_words(ws.len(), 2);
            assert(pack(v) == pack_words(ws, 2));
            assert(unpack_words(pack(v), 2).map_values(|w: u64| w as u16) =~= xs);
            assert(unpack(metric_value_dt(v), pack(v)) == Ok::<MetricValueView, ErrorKind>(MetricValueView::UInt16Array(unpack_words(pack(v), 2).map_values(|w: u64| w as u16))));
        },
        MetricValueView::UInt32Array(xs) => {
            let ws = xs.map_values(|x: u32| x as u64);
            assert forall|i: int| 0 <= i < ws.len() implies word_fits(#[trigger] ws[i], 4) && ws[i] as u32 == xs[i] by {
                let x = xs[i];
                assert((x as u64) < 0x1_0000_0000) by (bit_vector);
                assert((x as u64) as u32 == x) by (bit_vector);
            }
            lemma_words_roundtrip(ws, 4);
            lemma_whole_words(ws.len(), 4);
            assert(pack(v) == pack_words(ws, 4));
            assert(unpack_words(pack(v), 4).map_values(|w: u64| w as u32) =~= xs);
            assert(unpack(metric_value_dt(v), pack(v)) == Ok::<MetricValueView, ErrorKind>(MetricValueView::UInt32Array(unpack_words(pack(v), 4).map_values(|w: u64| w as u32))));
        },
        MetricValueView::UInt64Array(xs) => {
            let ws = xs.map_values(|x: u64| x as u64);
            assert forall|i: int| 0 <= i < ws.len() implies word_fits(#[trigger] ws[i], 8) && ws[i] as u64 == xs[i] by {
                let x = xs[i];
                assert((x as u64) as u64 == x) by (bit_vector);
            }
            lemma_words_roundtrip(ws, 8);
            lemma_whole_words(ws.len(), 8);
            assert(pack(v) == pack_words(ws, 8));
            assert(unpack_words(pack(v), 8).map_values(|w: u64| w as u64) =~= xs);
            assert(unpack(metric_value_dt(v), pack(v)) == Ok::<MetricValueView, ErrorKind>(MetricValueView::UInt64Array(unpack_words(pack(v), 8).map_values(|w: u64| w as u64))));
        },
        MetricValueView::FloatArray(xs) => {
            let ws = xs.map_values(|x: u32| x as u64);
            assert forall|i: int| 0 <= i < ws.len() implies word_fits(#[trigger] ws[i], 4) && ws[i] as u32 == xs[i] by {
                let x = xs[i];
                assert((x as u64) < 0x1_0000_0000) by (bit_vector);
                assert((x as u64) as u32 == x) by (bit_vector);
            }
            lemma_words_roundtrip(ws, 4);
            lemma_whole_words(ws.len(), 4);
            assert(pack(v) == pack_words(ws, 4));
            assert(unpack_words(pack(v), 4).map_values(|w: u64| w as u32) =~= xs);
            assert(unpack(metric_value_dt(v), pack(v)) == Ok::<MetricValueView, ErrorKind>(MetricValueView::FloatArray(unpack_words(pack(v), 4).map_values(|w: u64| w as u32))));
        },
        MetricValueView::DoubleArray(xs) => {
            let ws = xs.map_values(|x: u64| x as u64);
            assert forall|i: int| 0 <= i < ws.len() implies word_fits(#[trigger] ws[i], 8) && ws[i] as u64 == xs[i] by {
                let x = xs[i];
                assert((x as u64) as u64 == x) by (bit_vector);
            }
            lemma_words_roundtrip(ws, 8);
            lemma_whole_words(ws.len(), 8);
            assert(pack(v) == pack_words(ws, 8));
            assert(unpack_words(pack(v), 8).map_values(|w: u64| w as u64) =~= xs);
            assert(unpack(metric_value_dt(v), pack(v)) == Ok::<MetricValueView, ErrorKind>(MetricValueView::DoubleArray(unpack_words(pack(v), 8).map_values(|w: u64| w as u64))));
        },
        MetricValueView::DateTimeArray(xs) => {
            let ws = xs.map_values(|x: i64| x as u64);
            assert forall|i: int| 0 <= i < ws.len() implies word_fits(#[trigger] ws[i], 8) && ws[i] as i64 == xs[i] by {
                let x = xs[i];
                assert((x as u64) as i64 == x) by (bit_vector);
            }
            lemma_words_roundtrip(ws, 8);
            lemma_whole_words(ws.len(), 8);
            assert(pack(v) == pack_words(ws, 8));
            assert(unpack_words(pack(v), 8).map_values(|w: u64| w as i64) =~= xs);
            assert(unpack(metric_value_dt(v), pack(v)) == Ok::<MetricValueView, ErrorKind>(MetricValueView::DateTimeArray(unpack_words(pack(v), 8).map_values(|w: u64| w as i64))));
        },
        MetricValueView::BooleanArray(bs) => {
            lemma_auto_spec_u32_to_from_le_bytes();
            let data = pack(v);
            let n = bs.len();
            let prefix = spec_u32_to_le_bytes(n as u32);
            assert(data.take(4) =~= prefix);
            assert(data.skip(4) =~= bool_bytes(bs));
            let bits = data.skip(4);
            let out = Seq::new(n, |i: int| bits[i / 8] & ((128u8 >> ((i % 8) as u8)) as u8) != 0);
            assert forall|i: int| 0 <= i < n implies #[trigger] out[i] == bs[i] by {
                lemma_bool_bit(bs, i);
                assert(bits[i / 8] == partial_byte(bs, i / 8, 8));
            }
            assert(out =~= bs);
            assert(unpack(metric_value_dt(v), pack(v)) == Ok::<MetricValueView, ErrorKind>(v));
        },
        MetricValueView::StringArray(ss) => {
            lemma_pieces_roundtrip(ss);
            if ss.len() > 0 {
                lemma_split_strings(ss);
                let data = strings_pack(ss);
                assert(data.last() == 0u8);
                assert(split_nul(data).drop_last() =~= ss.map_values(|s: Seq<char>| encode_utf8(s)));
            } else {
                assert(strings_pack(ss) =~= Seq::<u8>::empty());
                assert(ss =~= Seq::<Seq<char>>::empty());
            }
        },
        _ => {},
    }
}

// ---------------------------------------------------------------------------
// Metrics, templates and payloads
// ---------------------------------------------------------------------------

/// A metric read at nesting `depth` decodes back: its nesting stays within the
/// decoder's depth limit, a DataSet value is well formed, an array value can be
/// packed, a template's parameters have their declared types, and, when
/// datatypes are stripped, `types` records the metric's datatype.
pub open spec fn metric_wf(m: MetricView, strip: bool, types: Option<TypeIndex>, depth: nat) -> bool
    decreases m,
{
    &&& depth <= MAX_DEPTH
    &&& (strip ==> recover_datatype(types, m.name, m.alias) == Some(metric_value_dt(m.value)))
    &&& match m.properties {
        Some(ps) => property_set_wf(ps, depth + 1),
        None => true,
    }
    &&& match m.value {
        MetricValueView::DataSet(d) => dataset_wf(d),
        MetricValueView::Template(t) => template_wf(t, strip, types, depth + 1),
        _ => array_wf(m.value),
    }
}

/// A template read at nesting `depth` decodes back.
pub open spec fn template_wf(t: TemplateView, strip: bool, types: Option<TypeIndex>, depth: nat) -> bool
    decreases t,
{
    &&& depth <= MAX_DEPTH
    &&& metrics_wf(t.metrics, strip, types, depth + 1)
    &&& forall|i: int| 0 <= i < t.parameters.len() ==> parameter_wf(#[trigger] t.parameters[i])
}

/// Each metric, read at nesting `depth`, decodes back.
pub open spec fn metrics_wf(ms: Seq<MetricView>, strip: bool, types: Option<TypeIndex>, depth: nat) -> bool
    decreases ms,
{
    ms.len() == 0 || (metrics_wf(ms.drop_last(), strip, types, depth) && metric_wf(ms.last(), strip, types, depth))
}

/// The scalar slots a metric value's field fills.
pub open spec fn value_slots(v: MetricValueView) -> Slots {
    match v {
        MetricValueView::Scalar(s) => slot_step(no_slots(), scalar_field(s, 10), 10)->Some_0->Ok_0,
        MetricValueView::Uuid(s) => Slots { string_v: Some(s), ..no_slots() },
        _ => no_slots(),
    }
}

/// What reading the fields of a metric's encoding shows.
pub open spec fn encoded_metric_acc(m: MetricView, strip: bool) -> MetricAcc {
    MetricAcc {
        name: m.name,
        alias: m.alias,
        timestamp: m.timestamp,
        datatype: if strip {
            None
        } else {
            Some(dt_code(metric_value_dt(m.value)))
        },
        is_historical: m.is_historical,
        is_transient: m.is_transient,
        is_null: m.value is Null,
        metadata: m.metadata,
        properties: m.properties,
        slots: value_slots(m.value),
        bytes_v: match m.value {
            MetricValueView::Bytes(b) => Some(b),
            MetricValueView::File(b) => Some(b),
            MetricValueView::Scalar(_) => None,
            MetricValueView::Uuid(_) => None,
            MetricValueView::DataSet(_) => None,
            MetricValueView::Template(_) => None,
            MetricValueView::Null(_) => None,
            _ => Some(pack(m.value)),
        },
        dataset_v: match m.value {
            MetricValueView::DataSet(d) => Some(fields_bytes(dataset_fields(d))),
            _ => None,
        },
        template_v: match m.value {
            MetricValueView::Template(t) => Some(fields_bytes(template_fields(t, strip))),
            _ => None,
        },
    }
}

/// Reading the fields of a metric's encoding.
#[verifier::rlimit(40)]
proof fn lemma_metric_fold(m: MetricView, strip: bool, types: Option<TypeIndex>, depth: nat, bound: nat)
    requires
        metric_wf(m, strip, types, depth),
        fields_bytes(metric_fields(m, strip)).len() <= bound,
        bound <= u64::MAX,
    ensures
        fold_fields(metric_fields(m, strip), empty_metric(), metric_step(depth, bound))
            == Ok::<MetricAcc, ErrorKind>(encoded_metric_acc(m, strip)),
{
    let init = empty_metric();
    let step = metric_step(depth, bound);
    let f0 = Seq::<Field>::empty();
    let f1 = push_opt(f0, opt_str_field(1, m.name));
    let f2 = push_opt(f1, opt_u64_field(2, m.alias));
    let f3 = push_opt(f2, opt_u64_field(3, m.timestamp));
    let dtf = dt_field(4, metric_value_dt(m.value));
    let f4 = if strip { f3 } else { f3.push(dtf) };
    let f5 = push_opt(f4, opt_bool_field(5, m.is_historical));
    let f6 = push_opt(f5, opt_bool_field(6, m.is_transient));
    let nf = Field { num: 7, val: Wire::Varint(1) };
    let f7 = if m.value is Null { f6.push(nf) } else { f6 };
    let f8 = match m.metadata {
        Some(md) => f7.push(msg_field(8, metadata_fields(md))),
        None => f7,
    };
    let f9 = match m.properties {
        Some(ps) => f8.push(msg_field(9, property_set_fields(ps))),
        None => f8,
    };
    let vf = metric_value_field(m.value, strip);
    let f10 = push_opt(f9, vf);
    assert(f10 == metric_fields(m, strip));
    // The length of each prefix bounds the earlier ones.
    lemma_fold_push_opt(f9, vf, init, step);
    match m.properties {
        Some(ps) => {
            lemma_fold_push_field(f8, msg_field(9, property_set_fields(ps)), init, step);
        },
        None => {},
    }
    match m.metadata {
        Some(md) => {
            lemma_fold_push_field(f7, msg_field(8, metadata_fields(md)), init, step);
        },
        None => {},
    }
    if m.value is Null {
        lemma_fold_push_field(f6, nf, init, step);
    }
    lemma_fold_push_opt(f5, opt_bool_field(6, m.is_transient), init, step);
    lemma_fold_push_opt(f4, opt_bool_field(5, m.is_historical), init, step);
    if !strip {
        lemma_fold_push_field(f3, dtf, init, step);
    }
    lemma_fold_push_opt(f2, opt_u64_field(3, m.timestamp), init, step);
    lemma_fold_push_opt(f1, opt_u64_field(2, m.alias), init, step);
    lemma_fold_push_opt(f0, opt_str_field(1, m.name), init, step);
    // The fields, one by one.
    if let Some(n) = m.name {
        lemma_utf8(n);
    }
    let a1 = MetricAcc { name: m.name, ..init };
    assert(fold_fields(f1, init, step) == Ok::<MetricAcc, ErrorKind>(a1));
    let a2 = MetricAcc { alias: m.alias, ..a1 };
    assert(fold_fields(f2, init, step) == Ok::<MetricAcc, ErrorKind>(a2));
    let a3 = MetricAcc { timestamp: m.timestamp, ..a2 };
    assert(fold_fields(f3, init, step) == Ok::<MetricAcc, ErrorKind>(a3));
    let a4 = MetricAcc { datatype: encoded_metric_acc(m, strip).datatype, ..a3 };
    assert(fold_fields(f4, init, step) == Ok::<MetricAcc, ErrorKind>(a4));
    let a5 = MetricAcc { is_historical: m.is_historical, ..a4 };
    assert(fold_fields(f5, init, step) == Ok::<MetricAcc, ErrorKind>(a5));
    let a6 = MetricAcc { is_transient: m.is_transient, ..a5 };
    assert(fold_fields(f6, init, step) == Ok::<MetricAcc, ErrorKind>(a6));
    let a7 = MetricAcc { is_null: m.value is Null, ..a6 };
    assert(fold_fields(f7, init, step) == Ok::<MetricAcc, ErrorKind>(a7));
    if let Some(md) = m.metadata {
        lemma_metadata_roundtrip(md);
    }
    let a8 = MetricAcc { metadata: m.metadata, ..a7 };
    assert(fold_fields(f8, init, step) == Ok::<MetricAcc, ErrorKind>(a8));
    if let Some(ps) = m.properties {
        lemma_property_set_roundtrip(ps, depth + 1);
    }
    let a9 = MetricAcc { properties: m.properties, ..a8 };
    assert(fold_fields(f9, init, step) == Ok::<MetricAcc, ErrorKind>(a9));
    match m.value {
        MetricValueView::Scalar(s) => {
            lemma_scalar_slot(no_slots(), s, 10);
        },
        MetricValueView::Uuid(s) => {
            lemma_utf8(s);
        },
        _ => {},
    }
    assert(fold_fields(f10, init, step) == Ok::<MetricAcc, ErrorKind>(encoded_metric_acc(m, strip)));
}

/// Decoding the encoding of a metric read at nesting `depth` gives it back,
/// when it is well formed at that depth (with datatypes stripped, the registry
/// must record its datatype). The encoding must fit in 64 bits.
#[verifier::rlimit(100)]
pub proof fn lemma_metric_roundtrip(m: MetricView, strip: bool, types: Option<TypeIndex>, depth: nat)
    requires
        metric_wf(m, strip, types, depth),
        fields_bytes(metric_fields(m, strip)).len() <= u64::MAX,
    ensures
        decode_metric_spec(fields_bytes(metric_fields(m, strip)), types, depth) == Ok::<MetricView, ErrorKind>(m),
    decreases m,
{
    let fs = metric_fields(m, strip);
    let bound = fields_bytes(fs).len();
    let a = encoded_metric_acc(m, strip);
    lemma_metric_fold(m, strip, types, depth, bound);
    lemma_run_encoded(fs, empty_metric(), metric_step(depth, bound));
    lemma_dt_code_roundtrip(metric_value_dt(m.value), 0);
    let dt = metric_value_dt(m.value);
    if let Some(f) = metric_value_field(m.value, strip) {
        assert(fs.len() > 0 && fs.last() == f);
        crate::codec::wire::lemma_fields_bytes_contains(fs, fs.len() - 1);
        assert(payload_len(f) < bound);
    }
    if !(m.value is Null) {
        match m.value {
            MetricValueView::DataSet(d) => {
                lemma_dataset_roundtrip(d);
            },
            MetricValueView::Template(t) => {
                let tfs = template_fields(t, strip);
                let tb = fields_bytes(tfs).len();
                lemma_template_fold(t, strip, types, depth + 1, tb);
                lemma_run_encoded(tfs, empty_template(), template_step(types, depth + 1, tb));
            },
            MetricValueView::Scalar(sc) => {
                lemma_scalar_slot(no_slots(), sc, 10);
            },
            MetricValueView::Uuid(_) => {},
            MetricValueView::Bytes(_) => {},
            MetricValueView::File(_) => {},
            _ => {
                lemma_array_roundtrip(m.value);
            },
        }
        assert(metric_value_finish(dt, a, types, depth, bound) == Ok::<MetricValueView, ErrorKind>(m.value));
    }
    assert(metric_finish(a, types, depth, bound) == Ok::<MetricView, ErrorKind>(m));
}

/// Folding the metrics of a template.
#[verifier::rlimit(100)]
proof fn lemma_template_metrics_fold(
    prefix: Seq<Field>,
    ms: Seq<MetricView>,
    strip: bool,
    types: Option<TypeIndex>,
    depth: nat,
    bound: nat,
    acc: TemplateView,
)
    requires
        fold_fields(prefix, empty_template(), template_step(types, depth, bound)) == Ok::<TemplateView, ErrorKind>(acc),
        metrics_wf(ms, strip, types, depth + 1),
        fields_bytes(push_metrics(prefix, ms, strip)).len() <= bound,
        bound <= u64::MAX,
    ensures
        fold_fields(push_metrics(prefix, ms, strip), empty_template(), template_step(types, depth, bound))
            == Ok::<TemplateView, ErrorKind>(TemplateView { metrics: acc.metrics + ms, ..acc }),
        fields_bytes(push_metrics(prefix, ms, strip)).len() >= fields_bytes(prefix).len(),
    decreases ms,
{
    if ms.len() == 0 {
        assert(acc.metrics + ms =~= acc.metrics);
    } else {
        let prev = ms.drop_last();
        let f = msg_field(2, metric_fields(ms.last(), strip));
        lemma_fold_push_field(push_metrics(prefix, prev, strip), f, empty_template(), template_step(types, depth, bound));
        lemma_template_metrics_fold(prefix, prev, strip, types, depth, bound, acc);
        lemma_metric_roundtrip(ms.last(), strip, types, depth + 1);
        assert((acc.metrics + prev).push(ms.last()) =~= acc.metrics + ms);
    }
}

/// Folding the parameters of a template.
proof fn lemma_template_params_fold(
    prefix: Seq<Field>,
    ps: Seq<ParameterView>,
    types: Option<TypeIndex>,
    depth: nat,
    bound: nat,
    acc: TemplateView,
)
    requires
        fold_fields(prefix, empty_template(), template_step(types, depth, bound)) == Ok::<TemplateView, ErrorKind>(acc),
        forall|i: int| 0 <= i < ps.len() ==> parameter_wf(#[trigger] ps[i]),
        fields_bytes(push_parameters(prefix, ps)).len() <= bound,
        bound <= u64::MAX,
    ensures
        fold_fields(push_parameters(prefix, ps), empty_template(), template_step(types, depth, bound))
            == Ok::<TemplateView, ErrorKind>(TemplateView { parameters: acc.parameters + ps, ..acc }),
        fields_bytes(push_parameters(prefix, ps)).len() >= fields_bytes(prefix).len(),
    decreases ps.len(),
{
    if ps.len() == 0 {
        assert(acc.parameters + ps =~= acc.parameters);
    } else {
        let prev = ps.drop_last();
        let f = msg_field(3, parameter_fields(ps.last()));
        lemma_fold_push_field(push_parameters(prefix, prev), f, empty_template(), template_step(types, depth, bound));
        assert forall|i: int| 0 <= i < prev.len() implies parameter_wf(#[trigger] prev[i]) by {
            assert(prev[i] == ps[i]);
        }
        lemma_template_params_fold(prefix, prev, types, depth, bound, acc);
        assert(parameter_wf(ps[ps.len() - 1]));
        lemma_parameter_roundtrip(ps.last());
        assert((acc.parameters + prev).push(ps.last()) =~= acc.parameters + ps);
    }
}

/// Appending parameters only lengthens an encoding.
proof fn lemma_push_parameters_len(prefix: Seq<Field>, ps: Seq<ParameterView>)
    ensures
        fields_bytes(push_parameters(prefix, ps)).len() >= fields_bytes(prefix).len(),
    decreases ps.len(),
{
    if ps.len() > 0 {
        lemma_push_parameters_len(prefix, ps.drop_last());
        lemma_fields_bytes_push(push_parameters(prefix, ps.drop_last()), msg_field(3, parameter_fields(ps.last())));
    }
}

/// Reading the fields of a template's encoding.
#[verifier::rlimit(100)]
proof fn lemma_template_fold(t: TemplateView, strip: bool, types: Option<TypeIndex>, depth: nat, bound: nat)
    requires
        template_wf(t, strip, types, depth),
        fields_bytes(template_fields(t, strip)).len() <= bound,
        bound <= u64::MAX,
    ensures
        fold_fields(template_fields(t, strip), empty_template(), template_step(types, depth, bound))
            == Ok::<TemplateView, ErrorKind>(t),
    decreases t,
{
    let init = empty_template();
    let step = template_step(types, depth, bound);
    let f0 = Seq::<Field>::empty();
    let f1 = push_opt(f0, opt_str_field(1, t.version));
    let f2 = push_metrics(f1, t.metrics, strip);
    let f3 = push_parameters(f2, t.parameters);
    let f4 = push_opt(f3, opt_str_field(4, t.template_ref));
    let lf = Field { num: 5, val: bool_wire(t.is_definition) };
    let f5 = f4.push(lf);
    assert(f5 == template_fields(t, strip));
    lemma_fold_push_field(f4, lf, init, step);
    lemma_fold_push_opt(f3, opt_str_field(4, t.template_ref), init, step);
    lemma_push_parameters_len(f2, t.parameters);
    let a1 = TemplateView { version: t.version, ..init };
    assert(fold_fields(f1, init, step) == Ok::<TemplateView, ErrorKind>(a1)) by {
        lemma_fold_push_opt(f0, opt_str_field(1, t.version), init, step);
        if let Some(v) = t.version {
            lemma_utf8(v);
        }
    }
    let a2 = TemplateView { metrics: t.metrics, ..a1 };
    lemma_template_metrics_fold(f1, t.metrics, strip, types, depth, bound, a1);
    assert(a1.metrics + t.metrics =~= t.metrics);
    let a3 = TemplateView { parameters: t.parameters, ..a2 };
    lemma_template_params_fold(f2, t.parameters, types, depth, bound, a2);
    assert(a2.parameters + t.parameters =~= t.parameters);
    let a4 = TemplateView { template_ref: t.template_ref, ..a3 };
    assert(fold_fields(f4, init, step) == Ok::<TemplateView, ErrorKind>(a4)) by {
        if let Some(r) = t.template_ref {
            lemma_utf8(r);
        }
    }
    assert(fold_fields(f5, init, step) == Ok::<TemplateView, ErrorKind>(t));
}

/// Folding the metrics of a payload.
#[verifier::rlimit(100)]
proof fn lemma_payload_metrics_fold(
    prefix: Seq<Field>,
    ms: Seq<MetricView>,
    strip: bool,
    types: Option<TypeIndex>,
    acc: PayloadView,
)
    requires
        fold_fields(prefix, empty_payload(), payload_step(types)) == Ok::<PayloadView, ErrorKind>(acc),
        metrics_wf(ms, strip, types, 0),
        fields_bytes(push_metrics(prefix, ms, strip)).len() <= u64::MAX,
    ensures
        fold_fields(push_metrics(prefix, ms, strip), empty_payload(), payload_step(types))
            == Ok::<PayloadView, ErrorKind>(PayloadView { metrics: acc.metrics + ms, ..acc }),
        fields_bytes(push_metrics(prefix, ms, strip)).len() >= fields_bytes(prefix).len(),
    decreases ms.len(),
{
    if ms.len() == 0 {
        assert(acc.metrics + ms =~= acc.metrics);
    } else {
        let prev = ms.drop_last();
        let f = msg_field(2, metric_fields(ms.last(), strip));
        lemma_fold_push_field(push_metrics(prefix, prev, strip), f, empty_payload(), payload_step(types));
        lemma_payload_metrics_fold(prefix, prev, strip, types, acc);
        lemma_metric_roundtrip(ms.last(), strip, types, 0);
        assert((acc.metrics + prev).push(ms.last()) =~= acc.metrics + ms);
    }
}

/// A payload survives encoding and decoding: every metric (template members
/// included) is well formed at its nesting depth, and, when datatypes are
/// stripped, the registry given to the decoder records each one.
pub open spec fn payload_wf(p: PayloadView, strip: bool, types: Option<TypeIndex>) -> bool {
    metrics_wf(p.metrics, strip, types, 0)
}

/// Decoding the encoding of a well-formed payload gives the payload back. With
/// datatypes kept (BIRTH/DEATH) no registry is needed; with datatypes stripped
/// (DATA/CMD) the registry must record each metric's datatype, as one built
/// from the matching BIRTH does. The encoding must fit in 64 bits.
pub proof fn lemma_decode_encode(p: PayloadView, strip: bool, types: Option<TypeIndex>)
    requires
        payload_wf(p, strip, types),
        fields_bytes(payload_fields(p, strip)).len() <= u64::MAX,
    ensures
        decode_payload_spec(fields_bytes(payload_fields(p, strip)), types) == Ok::<PayloadView, ErrorKind>(p),
{
    let fs = payload_fields(p, strip);
    let init = empty_payload();
    let step = payload_step(types);
    let f0 = Seq::<Field>::empty();
    let f1 = push_opt(f0, opt_u64_field(1, p.timestamp));
    let f2 = push_metrics(f1, p.metrics, strip);
    let sf = match p.seq {
        Some(sq) => Some(Field { num: 3, val: Wire::Varint(sq as u64) }),
        None => None,
    };
    let f3 = push_opt(f2, sf);
    let f4 = push_opt(f3, opt_str_field(4, p.uuid));
    let bf = match p.body {
        Some(b) => Some(Field { num: 5, val: Wire::Bytes(b) }),
        None => None,
    };
    let f5 = push_opt(f4, bf);
    assert(f5 == fs);
    lemma_fold_push_opt(f4, bf, init, step);
    lemma_fold_push_opt(f3, opt_str_field(4, p.uuid), init, step);
    lemma_fold_push_opt(f2, sf, init, step);
    lemma_fold_push_opt(f0, opt_u64_field(1, p.timestamp), init, step);
    let a1 = PayloadView { timestamp: p.timestamp, ..init };
    assert(fold_fields(f1, init, step) == Ok::<PayloadView, ErrorKind>(a1));
    lemma_payload_metrics_fold(f1, p.metrics, strip, types, a1);
    assert(a1.metrics + p.metrics =~= p.metrics);
    let a2 = PayloadView { metrics: p.metrics, ..a1 };
    assert(fold_fields(f2, init, step) == Ok::<PayloadView, ErrorKind>(a2));
    let a3 = PayloadView { seq: p.seq, ..a2 };
    assert(fold_fields(f3, init, step) == Ok::<PayloadView, ErrorKind>(a3));
    if let Some(u) = p.uuid {
        lemma_utf8(u);
    }
    let a4 = PayloadView { uuid: p.uuid, ..a3 };
    assert(fold_fields(f4, init, step) == Ok::<PayloadView, ErrorKind>(a4));
    assert(fold_fields(f5, init, step) == Ok::<PayloadView, ErrorKind>(p));
    lemma_run_encoded(fs, init, step);
}

} // verus!
