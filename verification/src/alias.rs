//! Alias registry: the name ↔ alias ↔ datatype bindings established by a BIRTH.
//!
//! BIRTH metrics carry name + alias + datatype; later DATA/CMD metrics may carry
//! only an alias and omit the datatype. Decoding such a payload requires
//! recovering the datatype from this registry (built from the birth).
//! [`AliasRegistry::clear`] clears every map.
use vstd::hash_map::{HashMapWithView, StringHashMap};
use vstd::prelude::*;

use crate::codec::parse::TypeIndex;
use crate::datatype::DataType;
use crate::error::SparkplugError;

verus! {

/// A lookup key: either a metric name or an alias.
#[derive(Clone, Debug, PartialEq, Eq, Hash)]
pub enum MetricKey {
    /// Look up by metric name.
    Name(String),
    /// Look up by alias.
    Alias(u64),
}

/// The bindings of a registry.
pub struct AliasView {
    pub name_to_alias: Map<Seq<char>, u64>,
    pub alias_to_name: Map<u64, Seq<char>>,
    pub dt_by_name: Map<Seq<char>, DataType>,
    pub dt_by_alias: Map<u64, DataType>,
}

/// The registry with no binding.
pub open spec fn empty_aliases() -> AliasView {
    AliasView {
        name_to_alias: Map::empty(),
        alias_to_name: Map::empty(),
        dt_by_name: Map::empty(),
        dt_by_alias: Map::empty(),
    }
}

/// The bindings after binding `name` (and `alias`, when given) to `dt`.
pub open spec fn bound(v: AliasView, name: Seq<char>, alias: Option<u64>, dt: DataType) -> AliasView {
    match alias {
        None => AliasView { dt_by_name: v.dt_by_name.insert(name, dt), ..v },
        Some(a) => AliasView {
            name_to_alias: v.name_to_alias.insert(name, a),
            alias_to_name: v.alias_to_name.insert(a, name),
            dt_by_name: v.dt_by_name.insert(name, dt),
            dt_by_alias: v.dt_by_alias.insert(a, dt),
        },
    }
}

/// Binding `name` to `alias` clashes with an earlier binding of `alias` to another name.
pub open spec fn alias_clash(v: AliasView, name: Seq<char>, alias: Option<u64>) -> bool {
    match alias {
        None => false,
        Some(a) => v.alias_to_name.contains_key(a) && v.alias_to_name[a] != name,
    }
}

/// What a lookup in `m` gives.
pub open spec fn lookup<K, V>(m: Map<K, V>, k: K) -> Option<V> {
    if m.contains_key(k) {
        Some(m[k])
    } else {
        None
    }
}

/// The datatype index that decoding consults.
pub open spec fn type_index(v: AliasView) -> TypeIndex {
    TypeIndex { by_name: v.dt_by_name, by_alias: v.dt_by_alias }
}

/// Binding a metric records its name (and alias) with its datatype and the
/// name↔alias pair, and keeps every binding of every other name and alias as it
/// was: binding alias 2 leaves what alias 1 resolves to unchanged.
pub proof fn lemma_bind_keeps_others(v: AliasView, name: Seq<char>, alias: Option<u64>, dt: DataType)
    ensures
        lookup(bound(v, name, alias, dt).dt_by_name, name) == Some(dt),
        alias matches Some(a) ==> lookup(bound(v, name, alias, dt).dt_by_alias, a) == Some(dt)
            && lookup(bound(v, name, alias, dt).alias_to_name, a) == Some(name)
            && lookup(bound(v, name, alias, dt).name_to_alias, name) == Some(a),
        alias is None ==> bound(v, name, alias, dt).dt_by_alias == v.dt_by_alias
            && bound(v, name, alias, dt).alias_to_name == v.alias_to_name
            && bound(v, name, alias, dt).name_to_alias == v.name_to_alias,
        forall|n: Seq<char>| n != name ==> #[trigger] lookup(bound(v, name, alias, dt).dt_by_name, n) == lookup(
            v.dt_by_name,
            n,
        ) && lookup(bound(v, name, alias, dt).name_to_alias, n) == lookup(v.name_to_alias, n),
        forall|k: u64| alias != Some(k) ==> #[trigger] lookup(bound(v, name, alias, dt).dt_by_alias, k) == lookup(
            v.dt_by_alias,
            k,
        ) && lookup(bound(v, name, alias, dt).alias_to_name, k) == lookup(v.alias_to_name, k),
{
}

/// Bidirectional name↔alias bindings plus a datatype index, scoped to one
/// Edge Node or Device.
pub struct AliasRegistry {
    name_to_alias: StringHashMap<u64>,
    alias_to_name: HashMapWithView<u64, String>,
    dt_by_name: StringHashMap<DataType>,
    dt_by_alias: HashMapWithView<u64, DataType>,
}

impl View for AliasRegistry {
    type V = AliasView;

    closed spec fn view(&self) -> AliasView {
        AliasView {
            name_to_alias: self.name_to_alias@,
            alias_to_name: self.alias_to_name@.map_values(|s: String| s@),
            dt_by_name: self.dt_by_name@,
            dt_by_alias: self.dt_by_alias@,
        }
    }
}

impl Default for AliasRegistry {
    fn default() -> (r: Self)
        ensures
            r@ == empty_aliases(),
    {
        AliasRegistry::new()
    }
}

impl AliasRegistry {
    /// An empty registry.
    pub fn new() -> (r: Self)
        ensures
            r@ == empty_aliases(),
    {
        let r = AliasRegistry {
            name_to_alias: StringHashMap::new(),
            alias_to_name: HashMapWithView::new(),
            dt_by_name: StringHashMap::new(),
            dt_by_alias: HashMapWithView::new(),
        };
        proof {
            assert(r@.alias_to_name =~= Map::<u64, Seq<char>>::empty());
        }
        r
    }

    /// Bind a metric's name (and optional alias) to its datatype, as declared in
    /// a BIRTH.
    pub fn bind(&mut self, name: &str, alias: Option<u64>, datatype: DataType)
        ensures
            final(self)@ == bound(old(self)@, name@, alias, datatype),
            lookup(final(self)@.dt_by_name, name@) == Some(datatype),
            alias matches Some(a) ==> lookup(final(self)@.dt_by_alias, a) == Some(datatype)
                && lookup(final(self)@.alias_to_name, a) == Some(name@)
                && lookup(final(self)@.name_to_alias, name@) == Some(a),
            alias is None ==> final(self)@.dt_by_alias == old(self)@.dt_by_alias
                && final(self)@.alias_to_name == old(self)@.alias_to_name
                && final(self)@.name_to_alias == old(self)@.name_to_alias,
            forall|n: Seq<char>| n != name@ ==> #[trigger] lookup(final(self)@.dt_by_name, n) == lookup(
                old(self)@.dt_by_name,
                n,
            ) && lookup(final(self)@.name_to_alias, n) == lookup(old(self)@.name_to_alias, n),
            forall|k: u64| alias != Some(k) ==> #[trigger] lookup(final(self)@.dt_by_alias, k) == lookup(
                old(self)@.dt_by_alias,
                k,
            ) && lookup(final(self)@.alias_to_name, k) == lookup(old(self)@.alias_to_name, k),
    {
        proof {
            lemma_bind_keeps_others(self@, name@, alias, datatype);
        }
        self.dt_by_name.insert(String::from_str(name), datatype);
        if let Some(a) = alias {
            let ghost before = self.alias_to_name@;
            self.name_to_alias.insert(String::from_str(name), a);
            let n = String::from_str(name);
            let ghost nv = n@;
            self.alias_to_name.insert(a, n);
            self.dt_by_alias.insert(a, datatype);
            proof {
                assert(self.alias_to_name@.map_values(|s: String| s@) =~= before.map_values(
                    |s: String| s@,
                ).insert(a, nv));
            }
        }
    }

    /// Bind like [`AliasRegistry::bind`], refusing an alias already bound to
    /// another name (a duplicate alias in a birth is fatal); the registry is
    /// then left unchanged.
    pub fn try_bind(&mut self, name: &str, alias: Option<u64>, datatype: DataType) -> (res: Result<
        (),
        SparkplugError,
    >)
        ensures
            alias_clash(old(self)@, name@, alias) ==> res is Err && final(self)@ == old(self)@,
            !alias_clash(old(self)@, name@, alias) ==> res is Ok && final(self)@ == bound(
                old(self)@,
                name@,
                alias,
                datatype,
            ),
            res matches Err(e) ==> e is InvalidId,
    {
        if let Some(a) = alias {
            match self.name_for_alias(a) {
                Some(existing) => {
                    if !crate::util::str_eq(existing, name) {
                        let mut msg = String::from_str("alias already bound to ");
                        msg.append(existing);
                        return Err(SparkplugError::InvalidId(msg));
                    }
                },
                None => {},
            }
        }
        self.bind(name, alias, datatype);
        Ok(())
    }

    /// The datatype declared for `name`, if any.
    pub fn datatype_for_name(&self, name: &str) -> (dt: Option<DataType>)
        ensures
            dt == lookup(self@.dt_by_name, name@),
    {
        match self.dt_by_name.get(name) {
            Some(d) => Some(*d),
            None => None,
        }
    }

    /// The datatype declared for `alias`, if any.
    pub fn datatype_for_alias(&self, alias: u64) -> (dt: Option<DataType>)
        ensures
            dt == lookup(self@.dt_by_alias, alias),
    {
        match self.dt_by_alias.get(&alias) {
            Some(d) => Some(*d),
            None => None,
        }
    }

    /// The datatype for a [`MetricKey`].
    pub fn datatype_for(&self, key: &MetricKey) -> (dt: Option<DataType>)
        ensures
            dt == (match key {
                MetricKey::Name(n) => lookup(self@.dt_by_name, n@),
                MetricKey::Alias(a) => lookup(self@.dt_by_alias, *a),
            }),
    {
        match key {
            MetricKey::Name(n) => self.datatype_for_name(n.as_str()),
            MetricKey::Alias(a) => self.datatype_for_alias(*a),
        }
    }

    /// The name bound to `alias`, if any.
    pub fn name_for_alias(&self, alias: u64) -> (name: Option<&str>)
        ensures
            match name {
                Some(n) => self@.alias_to_name.contains_key(alias) && n@ == self@.alias_to_name[alias],
                None => !self@.alias_to_name.contains_key(alias),
            },
    {
        match self.alias_to_name.get(&alias) {
            Some(n) => Some(n.as_str()),
            None => None,
        }
    }

    /// The alias bound to `name`, if any.
    pub fn alias_for_name(&self, name: &str) -> (alias: Option<u64>)
        ensures
            alias == lookup(self@.name_to_alias, name@),
    {
        match self.name_to_alias.get(name) {
            Some(a) => Some(*a),
            None => None,
        }
    }

    /// Whether `alias` is already bound (to detect duplicate aliases in a birth).
    pub fn alias_exists(&self, alias: u64) -> (b: bool)
        ensures
            b == self@.alias_to_name.contains_key(alias),
    {
        self.alias_to_name.contains_key(&alias)
    }

    /// Clear every binding (call before re-binding on a new birth).
    pub fn clear(&mut self)
        ensures
            final(self)@ == empty_aliases(),
    {
        self.name_to_alias.clear();
        self.alias_to_name.clear();
        self.dt_by_name.clear();
        self.dt_by_alias.clear();
        proof {
            assert(self@.alias_to_name =~= Map::<u64, Seq<char>>::empty());
        }
    }
}

} // verus!
