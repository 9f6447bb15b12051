//! The Sparkplug B payload object model. Plain data structs; values are typed
//! via the enums in [`crate::value`]. Each type has a mathematical view (the
//! `...View` structs) over which the codec is specified.
use vstd::prelude::*;

use crate::datatype::{dt_code, DataType};
use crate::error::SparkplugError;
use crate::util::{concat_str, str_eq};
use crate::value::{
    metric_value_dt, metric_value_view, property_value_view, scalar_dt, DataSetValue,
    MetricValue, MetricValueView, ParameterValue, PropertyValue, PropertyValueView, ScalarView,
};

verus! {

// ---------------------------------------------------------------------------
// Mathematical views
// ---------------------------------------------------------------------------

/// The mathematical value of a [`Payload`].
pub struct PayloadView {
    pub timestamp: Option<u64>,
    pub metrics: Seq<MetricView>,
    pub seq: Option<u8>,
    pub uuid: Option<Seq<char>>,
    pub body: Option<Seq<u8>>,
}

/// The mathematical value of a [`Metric`].
pub struct MetricView {
    pub name: Option<Seq<char>>,
    pub alias: Option<u64>,
    pub timestamp: Option<u64>,
    pub value: MetricValueView,
    pub is_historical: Option<bool>,
    pub is_transient: Option<bool>,
    pub metadata: Option<MetaDataView>,
    pub properties: Option<PropertySetView>,
}

/// The mathematical value of a [`MetaData`].
pub struct MetaDataView {
    pub is_multi_part: Option<bool>,
    pub content_type: Option<Seq<char>>,
    pub size: Option<u64>,
    pub seq: Option<u64>,
    pub file_name: Option<Seq<char>>,
    pub file_type: Option<Seq<char>>,
    pub md5: Option<Seq<char>>,
    pub description: Option<Seq<char>>,
}

/// The mathematical value of a [`PropertySet`].
pub struct PropertySetView {
    pub entries: Seq<(Seq<char>, PropertyValueView)>,
}

/// The mathematical value of a [`PropertySetList`].
pub struct PropertySetListView {
    pub sets: Seq<PropertySetView>,
}

/// The mathematical value of a [`DataSet`]; a cell is `None` when null.
pub struct DataSetView {
    pub columns: Seq<Seq<char>>,
    pub types: Seq<DataType>,
    pub rows: Seq<Seq<Option<ScalarView>>>,
}

/// The mathematical value of a [`Template`].
pub struct TemplateView {
    pub version: Option<Seq<char>>,
    pub template_ref: Option<Seq<char>>,
    pub is_definition: bool,
    pub metrics: Seq<MetricView>,
    pub parameters: Seq<ParameterView>,
}

/// The mathematical value of a [`Parameter`].
pub struct ParameterView {
    pub name: Seq<char>,
    pub datatype: DataType,
    pub value: Option<ScalarView>,
}

/// The view of an optional string.
pub open spec fn opt_str(o: Option<String>) -> Option<Seq<char>> {
    match o {
        Some(s) => Some(s@),
        None => None,
    }
}

/// The view of optional bytes.
pub open spec fn opt_bytes(o: Option<Vec<u8>>) -> Option<Seq<u8>> {
    match o {
        Some(b) => Some(b@),
        None => None,
    }
}

/// The view of a metric.
pub open spec fn metric_view(m: Metric) -> MetricView
    decreases m,
{
    MetricView {
        name: opt_str(m.name),
        alias: m.alias,
        timestamp: m.timestamp,
        value: metric_value_view(m.value),
        is_historical: m.is_historical,
        is_transient: m.is_transient,
        metadata: match m.metadata {
            Some(md) => Some(md@),
            None => None,
        },
        properties: match m.properties {
            Some(ps) => Some(property_set_view(ps)),
            None => None,
        },
    }
}

/// The views of a sequence of metrics.
pub open spec fn metrics_view(s: Seq<Metric>) -> Seq<MetricView>
    decreases s,
{
    if s.len() == 0 {
        seq![]
    } else {
        metrics_view(s.drop_last()).push(metric_view(s.last()))
    }
}

/// The view of a template.
pub open spec fn template_view(t: Template) -> TemplateView
    decreases t,
{
    TemplateView {
        version: opt_str(t.version),
        template_ref: opt_str(t.template_ref),
        is_definition: t.is_definition,
        metrics: metrics_view(t.metrics@),
        parameters: t.parameters@.map_values(|p: Parameter| p@),
    }
}

/// The view of a property set.
pub open spec fn property_set_view(ps: PropertySet) -> PropertySetView
    decreases ps,
{
    PropertySetView { entries: entries_view(ps.entries@) }
}

/// The views of property-set entries.
pub open spec fn entries_view(s: Seq<(String, PropertyValue)>) -> Seq<(Seq<char>, PropertyValueView)>
    decreases s,
{
    if s.len() == 0 {
        seq![]
    } else {
        entries_view(s.drop_last()).push((s.last().0@, property_value_view(s.last().1)))
    }
}

/// The view of a property-set list.
pub open spec fn property_set_list_view(l: PropertySetList) -> PropertySetListView
    decreases l,
{
    PropertySetListView { sets: sets_view(l.sets@) }
}

/// The views of a sequence of property sets.
pub open spec fn sets_view(s: Seq<PropertySet>) -> Seq<PropertySetView>
    decreases s,
{
    if s.len() == 0 {
        seq![]
    } else {
        sets_view(s.drop_last()).push(property_set_view(s.last()))
    }
}

/// The view of a DataSet.
pub closed spec fn dataset_view(d: DataSet) -> DataSetView {
    dataset_view_of(d.columns@, d.types@, d.rows@)
}

/// The view of a DataSet built from the given columns, types and rows.
pub open spec fn dataset_view_of(
    columns: Seq<String>,
    types: Seq<DataType>,
    rows: Seq<Vec<DataSetValue>>,
) -> DataSetView {
    DataSetView {
        columns: columns.map_values(|c: String| c@),
        types: types,
        rows: rows.map_values(|r: Vec<DataSetValue>| r@.map_values(|c: DataSetValue| c@)),
    }
}

/// A DataSet is well formed: as many column types as column names, every
/// column type a basic scalar, and every row as wide as the column list with
/// each non-null cell of its column's type.
pub open spec fn dataset_wf(d: DataSetView) -> bool {
    &&& d.columns.len() == d.types.len()
    &&& forall|i: int| 0 <= i < d.types.len() ==> 1 <= #[trigger] dt_code(d.types[i]) <= 14
    &&& forall|r: int| 0 <= r < d.rows.len() ==> (#[trigger] d.rows[r]).len() == d.columns.len()
    &&& forall|r: int, c: int|
        0 <= r < d.rows.len() && 0 <= c < d.rows[r].len() ==> match #[trigger] d.rows[r][c] {
            Some(s) => scalar_dt(s) == d.types[c],
            None => true,
        }
}

// ---------------------------------------------------------------------------
// Executable model
// ---------------------------------------------------------------------------

/// A complete Sparkplug B payload (the body of an N/D BIRTH/DATA/DEATH/CMD message).
#[derive(Debug, PartialEq)]
pub struct Payload {
    /// Message send time, epoch milliseconds UTC.
    pub timestamp: Option<u64>,
    /// The metrics carried by this payload.
    pub metrics: Vec<Metric>,
    /// The Sparkplug sequence number (`0..=255`); absent on NDEATH/NCMD/DCMD.
    pub seq: Option<u8>,
    /// Optional schema UUID; also the `SPBV1.0_COMPRESSED` sentinel for the
    /// compression envelope.
    pub uuid: Option<String>,
    /// Optional opaque body (used by the compression envelope).
    pub body: Option<Vec<u8>>,
}

impl View for Payload {
    type V = PayloadView;

    open spec fn view(&self) -> PayloadView {
        PayloadView {
            timestamp: self.timestamp,
            metrics: metrics_view(self.metrics@),
            seq: self.seq,
            uuid: opt_str(self.uuid),
            body: opt_bytes(self.body),
        }
    }
}

impl Default for Payload {
    fn default() -> (p: Self)
        ensures
            p@ == (PayloadView {
                timestamp: None,
                metrics: seq![],
                seq: None,
                uuid: None,
                body: None,
            }),
    {
        Payload { timestamp: None, metrics: Vec::new(), seq: None, uuid: None, body: None }
    }
}

impl Payload {
    /// Create an empty payload.
    pub fn new() -> (p: Self)
        ensures
            p@ == (PayloadView {
                timestamp: None,
                metrics: seq![],
                seq: None,
                uuid: None,
                body: None,
            }),
    {
        Payload { timestamp: None, metrics: Vec::new(), seq: None, uuid: None, body: None }
    }

    /// Builder-style setter for the payload timestamp.
    pub fn with_timestamp(self, ts: u64) -> (p: Self)
        ensures
            p@ == (PayloadView { timestamp: Some(ts), ..self@ }),
    {
        let mut p = self;
        p.timestamp = Some(ts);
        p
    }

    /// Builder-style setter for the sequence number.
    pub fn with_seq(self, seq: u8) -> (p: Self)
        ensures
            p@ == (PayloadView { seq: Some(seq), ..self@ }),
    {
        let mut p = self;
        p.seq = Some(seq);
        p
    }

    /// Append a metric, consuming and returning `self` for chaining.
    pub fn with_metric(self, metric: Metric) -> (p: Self)
        ensures
            p@ == (PayloadView { metrics: self@.metrics.push(metric_view(metric)), ..self@ }),
    {
        let mut p = self;
        let ghost old_metrics = p.metrics@;
        p.metrics.push(metric);
        proof {
            assert(p.metrics@.drop_last() =~= old_metrics);
        }
        p
    }
}

/// A single named/aliased typed value, the unit of all Sparkplug data.
///
/// `name` and `alias` are both optional: BIRTH metrics carry the name (and,
/// when aliasing, an alias); DATA metrics may carry only the alias.
#[derive(Debug, PartialEq)]
pub struct Metric {
    /// Metric name.
    pub name: Option<String>,
    /// Metric alias (unique per Edge Node).
    pub alias: Option<u64>,
    /// Acquisition timestamp, epoch milliseconds UTC.
    pub timestamp: Option<u64>,
    /// The typed value (carries the datatype; `Null` carries the declared type).
    pub value: MetricValue,
    /// Whether this is historical data (should not update the live tag).
    pub is_historical: Option<bool>,
    /// Whether this value should not be stored as a tag.
    pub is_transient: Option<bool>,
    /// Optional metadata (esp. for `Bytes`/`File`/multi-part transfers).
    pub metadata: Option<MetaData>,
    /// Optional property set (engineering units, quality, ...).
    pub properties: Option<PropertySet>,
}

impl View for Metric {
    type V = MetricView;

    open spec fn view(&self) -> MetricView {
        metric_view(*self)
    }
}

impl Metric {
    /// A named metric with the given value and no other fields set.
    pub fn new(name: &str, value: MetricValue) -> (m: Self)
        ensures
            m@ == (MetricView {
                name: Some(name@),
                alias: None,
                timestamp: None,
                value: value@,
                is_historical: None,
                is_transient: None,
                metadata: None,
                properties: None,
            }),
    {
        Metric {
            name: Some(String::from_str(name)),
            alias: None,
            timestamp: None,
            value,
            is_historical: None,
            is_transient: None,
            metadata: None,
            properties: None,
        }
    }

    /// An alias-only metric (no name), as used in DATA/CMD messages.
    pub fn aliased(alias: u64, value: MetricValue) -> (m: Self)
        ensures
            m@ == (MetricView {
                name: None,
                alias: Some(alias),
                timestamp: None,
                value: value@,
                is_historical: None,
                is_transient: None,
                metadata: None,
                properties: None,
            }),
    {
        Metric {
            name: None,
            alias: Some(alias),
            timestamp: None,
            value,
            is_historical: None,
            is_transient: None,
            metadata: None,
            properties: None,
        }
    }

    /// Builder-style setter for the alias.
    pub fn with_alias(self, alias: u64) -> (m: Self)
        ensures
            m@ == (MetricView { alias: Some(alias), ..self@ }),
    {
        let mut m = self;
        m.alias = Some(alias);
        m
    }

    /// Builder-style setter for the timestamp (epoch ms).
    pub fn with_timestamp(self, ts: u64) -> (m: Self)
        ensures
            m@ == (MetricView { timestamp: Some(ts), ..self@ }),
    {
        let mut m = self;
        m.timestamp = Some(ts);
        m
    }

    /// Builder-style setter for the property set.
    pub fn with_properties(self, props: PropertySet) -> (m: Self)
        ensures
            m@ == (MetricView { properties: Some(property_set_view(props)), ..self@ }),
    {
        let mut m = self;
        m.properties = Some(props);
        m
    }

    /// The datatype this metric declares on the wire.
    pub fn datatype(&self) -> (dt: DataType)
        ensures
            dt == metric_value_dt(self@.value),
    {
        self.value.datatype()
    }
}

/// Optional per-metric metadata, especially for `File`/`Bytes`/multi-part transfers.
#[derive(Clone, Debug, PartialEq)]
pub struct MetaData {
    /// Whether the payload is one part of a multi-part transfer.
    pub is_multi_part: Option<bool>,
    /// Content/media type.
    pub content_type: Option<String>,
    /// File/string/multi-part size in bytes.
    pub size: Option<u64>,
    /// Multi-part sequence number (distinct from the payload-level Sparkplug seq).
    pub seq: Option<u64>,
    /// File name (for `File` metrics).
    pub file_name: Option<String>,
    /// File type (e.g. `xml`, `json`).
    pub file_type: Option<String>,
    /// MD5 of the data.
    pub md5: Option<String>,
    /// Free-form description.
    pub description: Option<String>,
}

impl View for MetaData {
    type V = MetaDataView;

    open spec fn view(&self) -> MetaDataView {
        MetaDataView {
            is_multi_part: self.is_multi_part,
            content_type: opt_str(self.content_type),
            size: self.size,
            seq: self.seq,
            file_name: opt_str(self.file_name),
            file_type: opt_str(self.file_type),
            md5: opt_str(self.md5),
            description: opt_str(self.description),
        }
    }
}

/// The metadata with no field set.
pub open spec fn empty_metadata() -> MetaDataView {
    MetaDataView {
        is_multi_part: None,
        content_type: None,
        size: None,
        seq: None,
        file_name: None,
        file_type: None,
        md5: None,
        description: None,
    }
}

impl Default for MetaData {
    fn default() -> (md: Self)
        ensures
            md@ == empty_metadata(),
    {
        MetaData {
            is_multi_part: None,
            content_type: None,
            size: None,
            seq: None,
            file_name: None,
            file_type: None,
            md5: None,
            description: None,
        }
    }
}

/// A set of named properties attached to a metric. Order is preserved (it is
/// significant on the wire, where keys and values are parallel arrays).
#[derive(Debug, PartialEq)]
pub struct PropertySet {
    /// The (key, value) entries, in wire order.
    pub entries: Vec<(String, PropertyValue)>,
}

impl View for PropertySet {
    type V = PropertySetView;

    open spec fn view(&self) -> PropertySetView {
        property_set_view(*self)
    }
}

impl Default for PropertySet {
    fn default() -> (ps: Self)
        ensures
            ps@.entries == Seq::<(Seq<char>, PropertyValueView)>::empty(),
    {
        PropertySet { entries: Vec::new() }
    }
}

/// The index of the first entry with key `key`, if any.
pub open spec fn first_key_index(entries: Seq<(Seq<char>, PropertyValueView)>, key: Seq<char>) -> Option<int>
    decreases entries.len(),
{
    if entries.len() == 0 {
        None
    } else {
        match first_key_index(entries.drop_last(), key) {
            Some(i) => Some(i),
            None => if entries.last().0 == key {
                Some(entries.len() - 1)
            } else {
                None
            },
        }
    }
}

/// The views of property-set entries agree with the entries, element by element.
pub proof fn lemma_entries_view(s: Seq<(String, PropertyValue)>)
    ensures
        entries_view(s).len() == s.len(),
        forall|i: int| 0 <= i < s.len() ==> #[trigger] entries_view(s)[i] == (s[i].0@, property_value_view(s[i].1)),
    decreases s.len(),
{
    if s.len() > 0 {
        lemma_entries_view(s.drop_last());
    }
}

/// The views of metrics agree with the metrics, element by element.
pub proof fn lemma_metrics_view(s: Seq<Metric>)
    ensures
        metrics_view(s).len() == s.len(),
        forall|i: int| 0 <= i < s.len() ==> #[trigger] metrics_view(s)[i] == metric_view(s[i]),
    decreases s.len(),
{
    if s.len() > 0 {
        lemma_metrics_view(s.drop_last());
    }
}

/// The views of property sets agree with the sets, element by element.
pub proof fn lemma_sets_view(s: Seq<PropertySet>)
    ensures
        sets_view(s).len() == s.len(),
        forall|i: int| 0 <= i < s.len() ==> #[trigger] sets_view(s)[i] == property_set_view(s[i]),
    decreases s.len(),
{
    if s.len() > 0 {
        lemma_sets_view(s.drop_last());
    }
}

/// `first_key_index` finds the first matching entry.
pub proof fn lemma_first_key_index(entries: Seq<(Seq<char>, PropertyValueView)>, key: Seq<char>)
    ensures
        match first_key_index(entries, key) {
            Some(i) => 0 <= i < entries.len() && entries[i].0 == key
                && forall|j: int| 0 <= j < i ==> entries[j].0 != key,
            None => forall|j: int| 0 <= j < entries.len() ==> entries[j].0 != key,
        },
    decreases entries.len(),
{
    if entries.len() > 0 {
        let init = entries.drop_last();
        lemma_first_key_index(init, key);
        assert forall|j: int| 0 <= j < init.len() implies init[j] == entries[j] by {}
    }
}

impl PropertySet {
    /// An empty property set.
    pub fn new() -> (ps: Self)
        ensures
            ps@.entries == Seq::<(Seq<char>, PropertyValueView)>::empty(),
    {
        PropertySet { entries: Vec::new() }
    }

    /// Append a property, returning `self` for chaining.
    pub fn with(self, key: &str, value: PropertyValue) -> (ps: Self)
        ensures
            ps@.entries == self@.entries.push((key@, value@)),
    {
        let mut ps = self;
        let ghost old_entries = ps.entries@;
        ps.entries.push((String::from_str(key), value));
        proof {
            assert(ps.entries@.drop_last() =~= old_entries);
        }
        ps
    }

    /// Look up a property value by key (first match).
    pub fn get(&self, key: &str) -> (res: Option<&PropertyValue>)
        ensures
            match first_key_index(self@.entries, key@) {
                Some(i) => res is Some && res.unwrap()@ == self@.entries[i].1,
                None => res is None,
            },
    {
        proof {
            lemma_entries_view(self.entries@);
            lemma_first_key_index(self@.entries, key@);
        }
        let mut i: usize = 0;
        while i < self.entries.len()
            invariant
                i <= self.entries@.len(),
                self@.entries == entries_view(self.entries@),
                entries_view(self.entries@).len() == self.entries@.len(),
                forall|k: int| 0 <= k < self.entries@.len() ==> #[trigger] entries_view(self.entries@)[k]
                    == (self.entries@[k].0@, property_value_view(self.entries@[k].1)),
                forall|j: int| 0 <= j < i ==> self@.entries[j].0 != key@,
                match first_key_index(self@.entries, key@) {
                    Some(f) => 0 <= f < self@.entries.len() && self@.entries[f].0 == key@
                        && forall|j: int| 0 <= j < f ==> self@.entries[j].0 != key@,
                    None => forall|j: int| 0 <= j < self@.entries.len() ==> self@.entries[j].0 != key@,
                },
            decreases self.entries@.len() - i,
        {
            if str_eq(self.entries[i].0.as_str(), key) {
                proof {
                    assert(self@.entries[i as int] == entries_view(self.entries@)[i as int]);
                    assert(self@.entries[i as int].0 == key@);
                }
                return Some(&self.entries[i].1);
            }
            proof {
                assert(self@.entries[i as int] == entries_view(self.entries@)[i as int]);
            }
            i = i + 1;
        }
        None
    }

    /// Number of properties.
    pub fn len(&self) -> (n: usize)
        ensures
            n == self@.entries.len(),
    {
        proof {
            lemma_entries_view(self.entries@);
        }
        self.entries.len()
    }

    /// Whether the set is empty.
    pub fn is_empty(&self) -> (b: bool)
        ensures
            b == (self@.entries.len() == 0),
    {
        proof {
            lemma_entries_view(self.entries@);
        }
        self.entries.len() == 0
    }
}

/// A list of property sets (`PropertySetList` datatype).
#[derive(Debug, PartialEq)]
pub struct PropertySetList {
    /// The property sets.
    pub sets: Vec<PropertySet>,
}

impl View for PropertySetList {
    type V = PropertySetListView;

    open spec fn view(&self) -> PropertySetListView {
        property_set_list_view(*self)
    }
}

impl Default for PropertySetList {
    fn default() -> (l: Self)
        ensures
            l@.sets == Seq::<PropertySetView>::empty(),
    {
        PropertySetList { sets: Vec::new() }
    }
}

/// A column-oriented table value (the `DataSet` datatype).
///
/// Construct via [`DataSet::new`], which validates that `columns`, `types`, and
/// every row share the same width.
#[derive(Debug, PartialEq)]
pub struct DataSet {
    columns: Vec<String>,
    types: Vec<DataType>,
    rows: Vec<Vec<DataSetValue>>,
}

impl Clone for DataSet {
    fn clone(&self) -> (c: Self)
        ensures
            c@ == self@,
    {
        proof {
            use_type_invariant(self);
        }
        let columns = self.columns.clone();
        let types = self.types.clone();
        let mut rows: Vec<Vec<DataSetValue>> = Vec::new();
        let mut i: usize = 0;
        while i < self.rows.len()
            invariant
                i <= self.rows@.len(),
                rows@.len() == i,
                forall|k: int| 0 <= k < i ==> (#[trigger] rows@[k])@ == self.rows@[k]@,
            decreases self.rows@.len() - i,
        {
            let r = self.rows[i].clone();
            proof {
                assert forall|j: int| 0 <= j < r@.len() implies r@[j] == self.rows@[i as int]@[j] by {
                    assert(cloned::<DataSetValue>(self.rows@[i as int]@[j], r@[j]));
                }
                assert(r@ =~= self.rows@[i as int]@);
            }
            rows.push(r);
            i = i + 1;
        }
        proof {
            assert forall|k: int| 0 <= k < columns@.len() implies columns@[k] == self.columns@[k] by {
                assert(cloned::<String>(self.columns@[k], columns@[k]));
            }
            assert(columns@ =~= self.columns@);
            assert forall|k: int| 0 <= k < types@.len() implies types@[k] == self.types@[k] by {
                assert(cloned::<DataType>(self.types@[k], types@[k]));
            }
            assert(types@ =~= self.types@);
            let f = |r: Vec<DataSetValue>| r@.map_values(|c: DataSetValue| c@);
            assert forall|k: int| 0 <= k < rows@.len() implies #[trigger] rows@.map_values(f)[k]
                == self.rows@.map_values(f)[k] by {
                assert(rows@[k]@ == self.rows@[k]@);
            }
            assert(rows@.map_values(f) =~= self.rows@.map_values(f));
            assert(dataset_view_of(columns@, types@, rows@) == dataset_view(*self));
        }
        DataSet { columns, types, rows }
    }
}

impl View for DataSet {
    type V = DataSetView;

    open spec fn view(&self) -> DataSetView {
        dataset_view(*self)
    }
}

impl DataSet {
    /// Build and validate a DataSet.
    ///
    /// Returns [`SparkplugError::DataSetShape`] if `columns.len() != types.len()`,
    /// any column type is not a basic scalar, or any row's width differs from
    /// the column count, or a non-null cell's type differs from its column's.
    pub fn new(columns: Vec<String>, types: Vec<DataType>, rows: Vec<Vec<DataSetValue>>) -> (res:
        Result<Self, SparkplugError>)
        ensures
            ({
                let v = dataset_view_of(columns@, types@, rows@);
                match res {
                    Ok(d) => dataset_wf(v) && d@ == v,
                    Err(e) => !dataset_wf(v) && e is DataSetShape,
                }
            }),
    {
        let ghost v = dataset_view_of(columns@, types@, rows@);
        if columns.len() != types.len() {
            let mut msg = columns.len().to_string();
            msg.append(" columns but ");
            let t = types.len().to_string();
            msg.append(t.as_str());
            msg.append(" types");
            return Err(SparkplugError::DataSetShape(msg));
        }
        let mut i: usize = 0;
        while i < types.len()
            invariant
                i <= types@.len(),
                v.types == types@,
                v == dataset_view_of(columns@, types@, rows@),
                forall|k: int| 0 <= k < i ==> 1 <= #[trigger] dt_code(types@[k]) <= 14,
            decreases types@.len() - i,
        {
            if !types[i].is_basic() {
                let msg = concat_str("column type ", types[i].name());
                let msg = concat_str(msg.as_str(), " is not a basic scalar type");
                return Err(SparkplugError::DataSetShape(msg));
            }
            i = i + 1;
        }
        let mut r: usize = 0;
        while r < rows.len()
            invariant
                r <= rows@.len(),
                columns@.len() == types@.len(),
                v.rows.len() == rows@.len(),
                v.columns.len() == columns@.len(),
                v == dataset_view_of(columns@, types@, rows@),
                forall|k: int| 0 <= k < types@.len() ==> 1 <= #[trigger] dt_code(types@[k]) <= 14,
                v.types == types@,
                forall|k: int| 0 <= k < rows@.len() ==> #[trigger] v.rows[k] == rows@[k]@.map_values(|c: DataSetValue| c@),
                forall|k: int| 0 <= k < r ==> (#[trigger] v.rows[k]).len() == v.columns.len(),
                forall|k: int, c: int|
                    0 <= k < r && 0 <= c < v.rows[k].len() ==> match #[trigger] v.rows[k][c] {
                        Some(s) => scalar_dt(s) == v.types[c],
                        None => true,
                    },
            decreases rows@.len() - r,
        {
            let row = &rows[r];
            if row.len() != columns.len() {
                let mut msg = String::from_str("row ");
                let rs = r.to_string();
                msg.append(rs.as_str());
                msg.append(" has ");
                let ls = row.len().to_string();
                msg.append(ls.as_str());
                msg.append(" cells but there are ");
                let cs = columns.len().to_string();
                msg.append(cs.as_str());
                msg.append(" columns");
                proof {
                    assert(v.rows[r as int] == rows@[r as int]@.map_values(|c: DataSetValue| c@));
                    assert(v.rows[r as int].len() != v.columns.len());
                    assert(!dataset_wf(v));
                }
                return Err(SparkplugError::DataSetShape(msg));
            }
            let mut c: usize = 0;
            while c < row.len()
                invariant
                    c <= row@.len(),
                    row@.len() == columns@.len(),
                    columns@.len() == types@.len(),
                    r < rows@.len(),
                    *row == rows@[r as int],
                    v.rows[r as int] == row@.map_values(|c: DataSetValue| c@),
                    v.types == types@,
                    v == dataset_view_of(columns@, types@, rows@),
                    forall|k: int| 0 <= k < c ==> match #[trigger] v.rows[r as int][k] {
                        Some(s) => scalar_dt(s) == v.types[k],
                        None => true,
                    },
                decreases row@.len() - c,
            {
                match row[c].datatype() {
                    Some(cell_ty) => {
                        if cell_ty != types[c] {
                            let mut msg = String::from_str("row ");
                            let rs = r.to_string();
                            msg.append(rs.as_str());
                            msg.append(" column ");
                            let cs = c.to_string();
                            msg.append(cs.as_str());
                            msg.append(": cell type ");
                            msg.append(cell_ty.name());
                            msg.append(" does not match column type ");
                            msg.append(types[c].name());
                            proof {
                                assert(v.rows[r as int][c as int] == row@[c as int]@);
                                assert(0 <= c < v.rows[r as int].len());
                                assert(!(match v.rows[r as int][c as int] {
                                    Some(s) => scalar_dt(s) == v.types[c as int],
                                    None => true,
                                }));
                                assert(!dataset_wf(v));
                            }
                            return Err(SparkplugError::DataSetShape(msg));
                        }
                    },
                    None => {},
                }
                proof {
                    assert(v.rows[r as int][c as int] == row@[c as int]@);
                }
                c = c + 1;
            }
            r = r + 1;
        }
        proof {
            assert(dataset_view_of(columns@, types@, rows@) == v);
        }
        let d = DataSet { columns, types, rows };
        proof {
            assert(d@ == v);
        }
        Ok(d)
    }

    /// Every DataSet is well formed: [`DataSet::new`] is its only constructor.
    #[verifier::type_invariant]
    spec fn well_formed(self) -> bool {
        dataset_wf(dataset_view(self))
    }

    /// The number of columns (`num_of_columns` on the wire).
    pub fn num_of_columns(&self) -> (n: u64)
        ensures
            n == self@.columns.len(),
            dataset_wf(self@),
    {
        proof {
            use_type_invariant(self);
        }
        self.columns.len() as u64
    }

    /// The column names.
    pub fn columns(&self) -> (c: &[String])
        ensures
            c@.map_values(|s: String| s@) == self@.columns,
            dataset_wf(self@),
    {
        proof {
            use_type_invariant(self);
        }
        self.columns.as_slice()
    }

    /// The per-column datatypes.
    pub fn types(&self) -> (t: &[DataType])
        ensures
            t@ == self@.types,
            dataset_wf(self@),
    {
        proof {
            use_type_invariant(self);
        }
        self.types.as_slice()
    }

    /// The rows (each row has one [`DataSetValue`] per column).
    pub fn rows(&self) -> (r: &[Vec<DataSetValue>])
        ensures
            r@.map_values(|r: Vec<DataSetValue>| r@.map_values(|c: DataSetValue| c@)) == self@.rows,
            dataset_wf(self@),
    {
        proof {
            use_type_invariant(self);
        }
        self.rows.as_slice()
    }
}

/// A user-defined type (UDT) definition or instance (the `Template` datatype).
#[derive(Debug, PartialEq)]
pub struct Template {
    /// Optional template version string.
    pub version: Option<String>,
    /// Reference to the definition's name: set on instances, omitted on definitions.
    pub template_ref: Option<String>,
    /// `true` for a definition, `false` for an instance.
    pub is_definition: bool,
    /// Member metrics.
    pub metrics: Vec<Metric>,
    /// Template parameters.
    pub parameters: Vec<Parameter>,
}

impl View for Template {
    type V = TemplateView;

    open spec fn view(&self) -> TemplateView {
        template_view(*self)
    }
}

impl Default for Template {
    fn default() -> (t: Self)
        ensures
            t@ == (TemplateView {
                version: None,
                template_ref: None,
                is_definition: false,
                metrics: seq![],
                parameters: seq![],
            }),
    {
        let t = Template {
            version: None,
            template_ref: None,
            is_definition: false,
            metrics: Vec::new(),
            parameters: Vec::new(),
        };
        proof {
            assert(t.parameters@.map_values(|p: Parameter| p@) =~= seq![]);
        }
        t
    }
}

/// A named, typed template parameter.
#[derive(Clone, Debug, PartialEq)]
pub struct Parameter {
    /// Parameter name.
    pub name: String,
    /// Parameter datatype (a basic scalar).
    pub datatype: DataType,
    /// Parameter value; a definition may omit it.
    pub value: Option<ParameterValue>,
}

impl View for Parameter {
    type V = ParameterView;

    open spec fn view(&self) -> ParameterView {
        ParameterView {
            name: self.name@,
            datatype: self.datatype,
            value: match self.value {
                Some(v) => Some(v@),
                None => None,
            },
        }
    }
}

} // verus!
