//! Top-level metadata: entries grouped by property in insertion order, held in an
//! `indexmap::IndexMap`, and the searches over them.
use vstd::prelude::*;
use crate::keyed::split_vec;
use indexmap::IndexMap;
use crate::consts;
use crate::element::{Attribute, TextDirection};
use crate::entries::{EpubContributor, EpubIdentifier, EpubLanguage, EpubTag, EpubTitle};
use crate::keyed::key_index;
use crate::metadata::{
    EpubLink, EpubMetaEntry, EpubMetaEntryData, EpubVersion, attr_value, property_index,
};
use crate::package::{EpubPackageData, EpubPackageMetaContext};
use crate::metawrite::{entries_of, DetachedEpubMetaEntry};
use crate::text::{opt_as_str, opt_eq_str, opt_str_view, opt_string_view, str_eq, trim};

verus! {

broadcast use vstd::string::group_string_axioms;

#[verifier::external_type_specification]
#[verifier::external_body]
#[verifier::reject_recursive_types(K)]
#[verifier::reject_recursive_types(V)]
#[verifier::reject_recursive_types(S)]
pub struct ExIndexMap<K, V, S>(IndexMap<K, V, S>);

/// The groups held by a map: each property with its entries, in map order.
pub uninterp spec fn group_entries(m: IndexMap<String, Vec<EpubMetaEntryData>>) -> Seq<
    (Seq<char>, Seq<EpubMetaEntryData>),
>;

/// Position of the group with property `key`, or `-1`.
pub open spec fn group_pos(g: Seq<(Seq<char>, Seq<EpubMetaEntryData>)>, key: Seq<char>) -> int
    decreases g.len(),
{
    if g.len() == 0 {
        -1
    } else if g[0].0 == key {
        0
    } else {
        let r = group_pos(g.drop_first(), key);
        if r < 0 {
            -1
        } else {
            r + 1
        }
    }
}

pub proof fn lemma_group_pos(g: Seq<(Seq<char>, Seq<EpubMetaEntryData>)>, key: Seq<char>)
    ensures
        -1 <= group_pos(g, key) < g.len(),
        group_pos(g, key) >= 0 ==> g[group_pos(g, key)].0 == key,
        forall|j: int|
            0 <= j < g.len() && (group_pos(g, key) < 0 || j < group_pos(g, key)) ==> g[j].0 != key,
    decreases g.len(),
{
    if g.len() > 0 && g[0].0 != key {
        lemma_group_pos(g.drop_first(), key);
        assert forall|j: int|
            0 <= j < g.len() && (group_pos(g, key) < 0 || j < group_pos(g, key)) implies g[j].0
            != key by {
            if j > 0 {
                assert(g[j] == g.drop_first()[j - 1]);
            }
        }
    }
}

/// No two groups share a property.
pub open spec fn distinct_keys(g: Seq<(Seq<char>, Seq<EpubMetaEntryData>)>) -> bool {
    forall|i: int, j: int| 0 <= i < j < g.len() ==> g[i].0 != g[j].0
}

/// The entries of the group with property `key` (empty when absent).
pub open spec fn group_of(g: Seq<(Seq<char>, Seq<EpubMetaEntryData>)>, key: Seq<char>) -> Seq<
    EpubMetaEntryData,
> {
    let i = group_pos(g, key);
    if i >= 0 {
        g[i].1
    } else {
        Seq::empty()
    }
}

/// `IndexMap::new`: an empty map.
#[verifier::external_body]
fn groups_new() -> (r: IndexMap<String, Vec<EpubMetaEntryData>>)
    ensures
        group_entries(r) == Seq::<(Seq<char>, Seq<EpubMetaEntryData>)>::empty(),
{
    IndexMap::new()
}

/// `IndexMap::len`: the number of groups.
#[verifier::external_body]
fn groups_len(m: &IndexMap<String, Vec<EpubMetaEntryData>>) -> (r: usize)
    ensures
        r == group_entries(*m).len(),
{
    m.len()
}

/// `IndexMap::get`: the entries of the group with the given property. A map holds
/// each key once, so the group found is the first with that key.
#[verifier::external_body]
fn groups_get<'a>(m: &'a IndexMap<String, Vec<EpubMetaEntryData>>, key: &str) -> (r: Option<
    &'a Vec<EpubMetaEntryData>,
>)
    ensures
        match r {
            Some(v) => group_pos(group_entries(*m), key@) >= 0 && v@ == group_entries(*m)[group_pos(
                group_entries(*m),
                key@,
            )].1,
            None => group_pos(group_entries(*m), key@) == -1,
        },
{
    m.get(key)
}

/// `IndexMap::get_mut`: the entries of the group with the given property, for
/// modification; the group keeps its key and position.
#[verifier::external_body]
fn groups_get_mut<'a>(m: &'a mut IndexMap<String, Vec<EpubMetaEntryData>>, key: &str) -> (r:
    Option<&'a mut Vec<EpubMetaEntryData>>)
    ensures
        match r {
            Some(v) => {
                let g = group_entries(*old(m));
                let i = group_pos(g, key@);
                &&& i >= 0
                &&& v@ == g[i].1
                &&& group_entries(*final(m)) == g.update(i, (g[i].0, final(v)@))
            },
            None => group_pos(group_entries(*old(m)), key@) == -1 && group_entries(*final(m))
                == group_entries(*old(m)),
        },
{
    m.get_mut(key)
}

/// `IndexMap::get_index`: the property and entries of the group at `index`.
#[verifier::external_body]
fn groups_get_index<'a>(m: &'a IndexMap<String, Vec<EpubMetaEntryData>>, index: usize) -> (r:
    Option<(&'a String, &'a Vec<EpubMetaEntryData>)>)
    ensures
        match r {
            Some((k, v)) => index < group_entries(*m).len() && k@ == group_entries(*m)[index as int].0
                && v@ == group_entries(*m)[index as int].1,
            None => index >= group_entries(*m).len(),
        },
{
    m.get_index(index)
}

/// `IndexMap::get_index_mut`: the entries of the group at `index`, for modification.
#[verifier::external_body]
fn groups_get_index_mut<'a>(m: &'a mut IndexMap<String, Vec<EpubMetaEntryData>>, index: usize) -> (r:
    Option<&'a mut Vec<EpubMetaEntryData>>)
    ensures
        match r {
            Some(v) => {
                let g = group_entries(*old(m));
                &&& index < g.len()
                &&& v@ == g[index as int].1
                &&& group_entries(*final(m)) == g.update(index as int, (g[index as int].0, final(v)@))
            },
            None => index >= group_entries(*old(m)).len() && group_entries(*final(m))
                == group_entries(*old(m)),
        },
{
    m.get_index_mut(index).map(|(_, v)| v)
}

/// `IndexMap::insert`: replaces the entries of an existing group in place (returning
/// the previous entries), or appends a new group.
#[verifier::external_body]
fn groups_insert(
    m: &mut IndexMap<String, Vec<EpubMetaEntryData>>,
    key: String,
    value: Vec<EpubMetaEntryData>,
) -> (r: Option<Vec<EpubMetaEntryData>>)
    ensures
        ({
            let g = group_entries(*old(m));
            let i = group_pos(g, key@);
            if i >= 0 {
                &&& r matches Some(v) && v@ == g[i].1
                &&& group_entries(*final(m)) == g.update(i, (g[i].0, value@))
            } else {
                &&& r is None
                &&& group_entries(*final(m)) == g.push((key@, value@))
            }
        }),
{
    m.insert(key, value)
}

/// `IndexMap::shift_remove`: removes the group with the given property, keeping the
/// order of the others.
#[verifier::external_body]
fn groups_shift_remove(m: &mut IndexMap<String, Vec<EpubMetaEntryData>>, key: &str) -> (r: Option<
    Vec<EpubMetaEntryData>,
>)
    ensures
        ({
            let g = group_entries(*old(m));
            let i = group_pos(g, key@);
            if i >= 0 {
                &&& r matches Some(v) && v@ == g[i].1
                &&& group_entries(*final(m)) == g.remove(i)
            } else {
                &&& r is None
                &&& group_entries(*final(m)) == g
            }
        }),
{
    m.shift_remove(key)
}

/// `IndexMap::shift_remove_index`: removes the group at `index`, keeping the order of
/// the others.
#[verifier::external_body]
fn groups_shift_remove_index(m: &mut IndexMap<String, Vec<EpubMetaEntryData>>, index: usize) -> (r:
    Option<(String, Vec<EpubMetaEntryData>)>)
    ensures
        ({
            let g = group_entries(*old(m));
            if index < g.len() {
                &&& r matches Some((k, v)) && k@ == g[index as int].0 && v@ == g[index as int].1
                &&& group_entries(*final(m)) == g.remove(index as int)
            } else {
                &&& r is None
                &&& group_entries(*final(m)) == g
            }
        }),
{
    m.shift_remove_index(index)
}

/// `IndexMap::clear`: removes every group.
#[verifier::external_body]
fn groups_clear(m: &mut IndexMap<String, Vec<EpubMetaEntryData>>)
    ensures
        group_entries(*final(m)) == Seq::<(Seq<char>, Seq<EpubMetaEntryData>)>::empty(),
{
    m.clear()
}


/// `g` with `e` appended to the group of its property (a new last group when absent).
pub open spec fn push_entry(
    g: Seq<(Seq<char>, Seq<EpubMetaEntryData>)>,
    e: EpubMetaEntryData,
) -> Seq<(Seq<char>, Seq<EpubMetaEntryData>)> {
    let i = group_pos(g, e.property@);
    if i >= 0 {
        g.update(i, (g[i].0, g[i].1.push(e)))
    } else {
        g.push((e.property@, seq![e]))
    }
}

/// How many of the entries `s` have property `p`.
pub open spec fn count_property(s: Seq<EpubMetaEntryData>, p: Seq<char>) -> nat
    decreases s.len(),
{
    if s.len() == 0 {
        0
    } else {
        count_property(s.drop_last(), p) + if s.last().property@ == p {
            1nat
        } else {
            0nat
        }
    }
}

/// `g` with each of `ds` appended in turn to the group of its property (see
/// [`push_entry`]).
pub open spec fn push_entries(
    g: Seq<(Seq<char>, Seq<EpubMetaEntryData>)>,
    ds: Seq<EpubMetaEntryData>,
) -> Seq<(Seq<char>, Seq<EpubMetaEntryData>)>
    decreases ds.len(),
{
    if ds.len() == 0 {
        g
    } else {
        push_entry(push_entries(g, ds.drop_last()), ds.last())
    }
}

/// `g` with the entries `ds` inserted at `index` within the groups of their
/// properties: those of one property stay together and in order, starting at `index`
/// clamped to that group's length (the position grows by one for each earlier entry
/// of the batch with that property, saturating at `usize::MAX`); a property without a
/// group gets a new last group, new groups coming in order of first appearance.
pub open spec fn insert_entries(
    g: Seq<(Seq<char>, Seq<EpubMetaEntryData>)>,
    index: int,
    ds: Seq<EpubMetaEntryData>,
) -> Seq<(Seq<char>, Seq<EpubMetaEntryData>)>
    decreases ds.len(),
{
    if ds.len() == 0 {
        g
    } else {
        let init = ds.drop_last();
        let at = index + count_property(init, ds.last().property@);
        insert_entry(
            insert_entries(g, index, init),
            if at > usize::MAX {
                usize::MAX as int
            } else {
                at
            },
            ds.last(),
        )
    }
}

/// `g` with `e` inserted into the group of its property at `index` (clamped to the
/// group's length), or in a new last group when absent.
pub open spec fn insert_entry(
    g: Seq<(Seq<char>, Seq<EpubMetaEntryData>)>,
    index: int,
    e: EpubMetaEntryData,
) -> Seq<(Seq<char>, Seq<EpubMetaEntryData>)> {
    let i = group_pos(g, e.property@);
    if i >= 0 {
        let at = if index < g[i].1.len() {
            index
        } else {
            g[i].1.len() as int
        };
        g.update(i, (g[i].0, g[i].1.insert(at, e)))
    } else {
        g.push((e.property@, seq![e]))
    }
}

/// Every entry of every group, groups in order.
pub open spec fn all_entries(g: Seq<(Seq<char>, Seq<EpubMetaEntryData>)>) -> Seq<EpubMetaEntryData>
    decreases g.len(),
{
    if g.len() == 0 {
        Seq::empty()
    } else {
        all_entries(g.drop_last()) + g.last().1
    }
}

/// The groups with the entries `ds` decides to keep (`keep`), groups left empty
/// dropped.
pub open spec fn retained_groups(
    g: Seq<(Seq<char>, Seq<EpubMetaEntryData>)>,
    ds: Seq<Seq<bool>>,
    keep: bool,
) -> Seq<(Seq<char>, Seq<EpubMetaEntryData>)>
    decreases g.len(),
{
    if g.len() == 0 || ds.len() == 0 {
        Seq::empty()
    } else {
        let rest = retained_groups(g.drop_last(), ds.drop_last(), keep);
        let sel = crate::keyed::select(g.last().1, ds.last(), keep);
        if sel.len() > 0 {
            rest.push((g.last().0, sel))
        } else {
            rest
        }
    }
}

/// The entries `ds` selects (those answered `pick`), group after group.
pub open spec fn selected_entries(
    g: Seq<(Seq<char>, Seq<EpubMetaEntryData>)>,
    ds: Seq<Seq<bool>>,
    pick: bool,
) -> Seq<EpubMetaEntryData>
    decreases g.len(),
{
    if g.len() == 0 || ds.len() == 0 {
        Seq::empty()
    } else {
        selected_entries(g.drop_last(), ds.drop_last(), pick) + crate::keyed::select(g.last().1, ds.last(), pick)
    }
}

/// Each group of the retained groups has the property of some group of `g`.
proof fn lemma_retained_keys(g: Seq<(Seq<char>, Seq<EpubMetaEntryData>)>, ds: Seq<Seq<bool>>, keep: bool)
    requires
        ds.len() == g.len(),
    ensures
        forall|j: int|
            0 <= j < retained_groups(g, ds, keep).len() ==> exists|i: int|
                0 <= i < g.len() && (#[trigger] retained_groups(g, ds, keep)[j]).0 == g[i].0,
    decreases g.len(),
{
    if g.len() > 0 {
        lemma_retained_keys(g.drop_last(), ds.drop_last(), keep);
        let rest = retained_groups(g.drop_last(), ds.drop_last(), keep);
        assert forall|j: int| 0 <= j < retained_groups(g, ds, keep).len() implies exists|i: int|
            0 <= i < g.len() && (#[trigger] retained_groups(g, ds, keep)[j]).0 == g[i].0 by {
            if j < rest.len() {
                assert(retained_groups(g, ds, keep)[j] == rest[j]);
                let i = choose|i: int| 0 <= i < g.drop_last().len() && rest[j].0 == g.drop_last()[i].0;
                assert(g.drop_last()[i] == g[i]);
            } else {
                assert(retained_groups(g, ds, keep)[j].0 == g[g.len() - 1].0);
            }
        }
    }
}

proof fn lemma_push_entry_distinct(g: Seq<(Seq<char>, Seq<EpubMetaEntryData>)>, e: EpubMetaEntryData)
    requires
        distinct_keys(g),
    ensures
        distinct_keys(push_entry(g, e)),
{
    lemma_group_pos(g, e.property@);
}

proof fn lemma_insert_entry_distinct(
    g: Seq<(Seq<char>, Seq<EpubMetaEntryData>)>,
    index: int,
    e: EpubMetaEntryData,
)
    requires
        distinct_keys(g),
    ensures
        distinct_keys(insert_entry(g, index, e)),
{
    lemma_group_pos(g, e.property@);
}

/// The metadata entries of a package, grouped by property.
#[derive(Debug)]
pub struct EpubMetadataData {
    entries: IndexMap<String, Vec<EpubMetaEntryData>>,
}

impl EpubMetadataData {
    #[verifier::type_invariant]
    spec fn inv(&self) -> bool {
        distinct_keys(group_entries(self.entries))
    }

    /// The groups, in order.
    pub closed spec fn groups(&self) -> Seq<(Seq<char>, Seq<EpubMetaEntryData>)> {
        group_entries(self.entries)
    }

    /// No metadata.
    pub fn empty() -> (r: Self)
        ensures
            r.groups().len() == 0,
    {
        EpubMetadataData { entries: groups_new() }
    }

    /// The number of groups.
    pub fn group_count(&self) -> (r: usize)
        ensures
            r == self.groups().len(),
    {
        groups_len(&self.entries)
    }

    /// The entries with the given property, if any.
    pub fn group(&self, property: &str) -> (r: Option<&Vec<EpubMetaEntryData>>)
        ensures
            match r {
                Some(v) => group_pos(self.groups(), property@) >= 0 && v@ == group_of(
                    self.groups(),
                    property@,
                ),
                None => group_pos(self.groups(), property@) == -1,
            },
    {
        groups_get(&self.entries, property)
    }

    /// The property and entries of the group at `index`.
    pub fn group_at(&self, index: usize) -> (r: Option<(&String, &Vec<EpubMetaEntryData>)>)
        ensures
            match r {
                Some((k, v)) => index < self.groups().len() && k@ == self.groups()[index as int].0
                    && v@ == self.groups()[index as int].1,
                None => index >= self.groups().len(),
            },
    {
        groups_get_index(&self.entries, index)
    }



    /// Adds a group for a property that has none yet, as the last group.
    pub(crate) fn push_group(&mut self, property: String, entries: Vec<EpubMetaEntryData>)
        requires
            group_pos(old(self).groups(), property@) < 0,
        ensures
            final(self).groups() == old(self).groups().push((property@, entries@)),
    {
        proof {
            use_type_invariant(&*self);
            lemma_group_pos(self.groups(), property@);
        }
        let mut m = self.take_entries();
        let _ = groups_insert(&mut m, property, entries);
        self.entries = m;
    }

    /// Moves the groups out, leaving none.
    fn take_entries(&mut self) -> (r: IndexMap<String, Vec<EpubMetaEntryData>>)
        ensures
            group_entries(r) == old(self).groups(),
            final(self).groups().len() == 0,
    {
        let mut m = groups_new();
        std::mem::swap(&mut m, &mut self.entries);
        m
    }

    /// Appends an entry to the group of its property, creating the group when absent.
    pub fn push_entry(&mut self, entry: EpubMetaEntryData)
        ensures
            final(self).groups() == push_entry(old(self).groups(), entry),
    {
        proof {
            use_type_invariant(&*self);
            lemma_push_entry_distinct(self.groups(), entry);
            lemma_group_pos(self.groups(), entry.property@);
        }
        let ghost e = entry;
        let mut m = self.take_entries();
        match groups_get_mut(&mut m, entry.property.as_str()) {
            Some(group) => {
                group.push(entry);
                self.entries = m;
                return ;
            },
            None => {},
        }
        let property = entry.property.clone();
        let mut v: Vec<EpubMetaEntryData> = Vec::new();
        v.push(entry);
        proof {
            assert(v@ =~= seq![e]);
        }
        groups_insert(&mut m, property, v);
        self.entries = m;
    }

    /// Inserts an entry into the group of its property at `index` (clamped to the
    /// group's length), creating the group when absent.
    pub fn insert_entry(&mut self, index: usize, entry: EpubMetaEntryData)
        ensures
            final(self).groups() == insert_entry(old(self).groups(), index as int, entry),
    {
        proof {
            use_type_invariant(&*self);
            lemma_insert_entry_distinct(self.groups(), index as int, entry);
            lemma_group_pos(self.groups(), entry.property@);
        }
        let ghost e = entry;
        let mut m = self.take_entries();
        match groups_get_mut(&mut m, entry.property.as_str()) {
            Some(group) => {
                let at = if index < group.len() {
                    index
                } else {
                    group.len()
                };
                group.insert(at, entry);
                self.entries = m;
                return ;
            },
            None => {},
        }
        let property = entry.property.clone();
        let mut v: Vec<EpubMetaEntryData> = Vec::new();
        v.push(entry);
        proof {
            assert(v@ =~= seq![e]);
        }
        groups_insert(&mut m, property, v);
        self.entries = m;
    }


    /// When the first `cover` entry names `old_id` (its value), sets its value to `new_id`.
    pub fn rename_cover(&mut self, old_id: &str, new_id: &str)
        ensures
            ({
                let g = old(self).groups();
                let i = group_pos(g, consts::COVER@);
                if i >= 0 && g[i].1.len() > 0 && g[i].1[0].value@ == old_id@ {
                    &&& final(self).groups().len() == g.len()
                    &&& forall|j: int| 0 <= j < g.len() && j != i ==> final(self).groups()[j] == g[j]
                    &&& final(self).groups()[i].0 == g[i].0
                    &&& final(self).groups()[i].1.len() == g[i].1.len()
                    &&& forall|k: int| 0 < k < g[i].1.len() ==> final(self).groups()[i].1[k] == g[i].1[k]
                    &&& final(self).groups()[i].1[0].value@ == new_id@
                    &&& final(self).groups()[i].1[0] == (EpubMetaEntryData {
                        value: final(self).groups()[i].1[0].value,
                        ..g[i].1[0]
                    })
                } else {
                    final(self).groups() == g
                }
            }),
    {
        proof {
            use_type_invariant(&*self);
            lemma_group_pos(self.groups(), consts::COVER@);
        }
        let ghost g = self.groups();
        let mut m = self.take_entries();
        match groups_get_mut(&mut m, consts::COVER) {
            Some(group) => {
                if group.len() > 0 && crate::text::str_eq(group[0].value.as_str(), old_id) {
                    group[0].value = crate::text::to_string(new_id);
                }
            },
            None => {},
        }
        proof {
            let i = group_pos(g, consts::COVER@);
            let h = group_entries(m);
            assert forall|a: int, b: int| 0 <= a < b < h.len() implies h[a].0 != h[b].0 by {
                if i >= 0 {
                    assert(h[a].0 == g[a].0);
                    assert(h[b].0 == g[b].0);
                }
            }
        }
        self.entries = m;
    }

    /// Removes and returns the group with the given property.
    pub fn remove_group(&mut self, property: &str) -> (r: Option<Vec<EpubMetaEntryData>>)
        ensures
            ({
                let g = old(self).groups();
                let i = group_pos(g, property@);
                if i >= 0 {
                    &&& r matches Some(v) && v@ == g[i].1
                    &&& final(self).groups() == g.remove(i)
                } else {
                    &&& r is None
                    &&& final(self).groups() == g
                }
            }),
    {
        proof {
            use_type_invariant(&*self);
            let g = self.groups();
            let i = group_pos(g, property@);
            lemma_group_pos(g, property@);
            if i >= 0 {
                assert forall|a: int, b: int| 0 <= a < b < g.remove(i).len() implies g.remove(i)[a].0
                    != g.remove(i)[b].0 by {
                    let a2 = if a < i { a } else { a + 1 };
                    let b2 = if b < i { b } else { b + 1 };
                    assert(g.remove(i)[a] == g[a2]);
                    assert(g.remove(i)[b] == g[b2]);
                }
            }
        }
        let mut m = self.take_entries();
        let r = groups_shift_remove(&mut m, property);
        self.entries = m;
        r
    }

    /// Splits every group by `f`: the entries answered `keep` stay (groups left empty
    /// are dropped), the others are returned, group after group.
    pub fn split_groups<F: Fn(&EpubMetaEntryData) -> bool>(&mut self, f: &F, keep: bool) -> (r: Vec<EpubMetaEntryData>)
        requires
            forall|x: &EpubMetaEntryData| #[trigger] f.requires((x,)),
        ensures
            exists|ds: Seq<Seq<bool>>|
                #![trigger retained_groups(old(self).groups(), ds, keep)]
                ds.len() == old(self).groups().len() && (forall|i: int|
                    0 <= i < ds.len() ==> (#[trigger] ds[i]).len() == old(self).groups()[i].1.len()
                        && forall|j: int| 0 <= j < ds[i].len() ==> f.ensures((&old(self).groups()[i].1[j],), #[trigger] ds[i][j]))
                    && final(self).groups() == retained_groups(old(self).groups(), ds, keep) && r@
                    == selected_entries(old(self).groups(), ds, !keep),
    {
        proof {
            use_type_invariant(&*self);
        }
        let ghost all = self.groups();
        let mut kept = EpubMetadataData::empty();
        let mut out: Vec<EpubMetaEntryData> = Vec::new();
        let ghost mut ds: Seq<Seq<bool>> = Seq::empty();
        let ghost mut done: int = 0;
        assert(all.skip(0) =~= all);
        assert(all.take(0) =~= Seq::<(Seq<char>, Seq<EpubMetaEntryData>)>::empty());
        while self.group_count() > 0
            invariant
                forall|x: &EpubMetaEntryData| #[trigger] f.requires((x,)),
                distinct_keys(all),
                0 <= done <= all.len(),
                self.groups() == all.skip(done),
                ds.len() == done,
                forall|i: int|
                    0 <= i < ds.len() ==> (#[trigger] ds[i]).len() == all[i].1.len() && forall|j: int|
                        0 <= j < ds[i].len() ==> f.ensures((&all[i].1[j],), #[trigger] ds[i][j]),
                kept.groups() == retained_groups(all.take(done), ds, keep),
                out@ == selected_entries(all.take(done), ds, !keep),
            decreases all.len() - done,
        {
            let (key, entries) = self.remove_first_group().unwrap();
            proof {
                assert(all.skip(done)[0] == all[done]);
                assert(all.skip(done).drop_first() =~= all.skip(done + 1));
            }
            let (t, fl) = split_vec(entries, f);
            let ghost d = choose|d: Seq<bool>|
                #![trigger crate::keyed::select(all[done].1, d, true)]
                d.len() == all[done].1.len() && (forall|i: int|
                    0 <= i < d.len() ==> f.ensures((&all[done].1[i],), #[trigger] d[i])) && t@
                    == crate::keyed::select(all[done].1, d, true) && fl@ == crate::keyed::select(
                    all[done].1,
                    d,
                    false,
                );
            let (stay, go) = if keep {
                (t, fl)
            } else {
                (fl, t)
            };
            let ghost prev = kept.groups();
            let ghost ds2 = ds.push(d);
            proof {
                let g2 = all.take(done + 1);
                assert(g2.drop_last() =~= all.take(done));
                assert(g2.last() == all[done]);
                assert(ds2.drop_last() =~= ds);
                assert(ds2.last() == d);
                assert(stay@ == crate::keyed::select(all[done].1, d, keep));
                assert(go@ == crate::keyed::select(all[done].1, d, !keep));
            }
            if stay.len() > 0 {
                proof {
                    lemma_retained_keys(all.take(done), ds, keep);
                    lemma_group_pos(prev, key@);
                    if group_pos(prev, key@) >= 0 {
                        let p = group_pos(prev, key@);
                        let i = choose|i: int| 0 <= i < all.take(done).len() && (#[trigger] retained_groups(all.take(done), ds, keep)[p]).0 == all.take(done)[i].0;
                        assert(all.take(done)[i] == all[i]);
                    }
                }
                kept.push_group(key, stay);
            }
            let mut go = go;
            out.append(&mut go);
            proof {
                ds = ds2;
                done = done + 1;
            }
        }
        proof {
            assert(all.take(done) =~= all);
        }
        std::mem::swap(self, &mut kept);
        out
    }

    /// Removes and returns the first entry with `id`, looking through the groups in
    /// order and each group depth first (an entry before its refinements).
    pub fn remove_by_id(&mut self, id: &str) -> (r: Option<EpubMetaEntryData>)
        ensures
            ({
                let g = old(self).groups();
                let gi = group_with_id(id@, g, 0);
                if gi < 0 {
                    r is None && final(self).groups() == g
                } else {
                    &&& r is Some
                    &&& final(self).groups().len() == g.len()
                    &&& forall|j: int| 0 <= j < g.len() && j != gi ==> #[trigger] final(self).groups()[j] == g[j]
                    &&& final(self).groups()[gi].0 == g[gi].0
                    &&& removed_from(id@, g[gi].1, final(self).groups()[gi].1, r, 0)
                }
            }),
    {
        proof {
            use_type_invariant(&*self);
        }
        let n = self.group_count();
        let mut gi: usize = 0;
        while gi < n
            invariant
                n == self.groups().len(),
                gi <= n,
                self.groups() == old(self).groups(),
                group_with_id(id@, self.groups(), 0) == group_with_id(id@, self.groups(), gi as int),
                distinct_keys(self.groups()),
            decreases n - gi,
        {
            let (_, group) = self.group_at(gi).unwrap();
            if group_contains(id, group) {
                let ghost g = self.groups();
                let mut m = self.take_entries();
                let v = groups_get_index_mut(&mut m, gi).unwrap();
                let r = remove_in(id, v);
                proof {
                    lemma_removed_found(id@, g[gi as int].1, group_entries(m)[gi as int].1, r, 0);
                    let h = group_entries(m);
                    assert forall|a: int, b: int| 0 <= a < b < h.len() implies h[a].0 != h[b].0 by {
                        assert(h[a].0 == g[a].0 && h[b].0 == g[b].0);
                    }
                }
                self.entries = m;
                return r;
            }
            gi = gi + 1;
        }
        None
    }

    /// Removes and returns the first group.
    pub fn remove_first_group(&mut self) -> (r: Option<(String, Vec<EpubMetaEntryData>)>)
        ensures
            ({
                let g = old(self).groups();
                if g.len() > 0 {
                    &&& r matches Some((k, v)) && k@ == g[0].0 && v@ == g[0].1
                    &&& final(self).groups() == g.drop_first()
                } else {
                    &&& r is None
                    &&& final(self).groups() == g
                }
            }),
    {
        proof {
            use_type_invariant(&*self);
            let g = self.groups();
            if g.len() > 0 {
                assert(g.remove(0) =~= g.drop_first());
                assert forall|a: int, b: int| 0 <= a < b < g.remove(0).len() implies g.remove(0)[a].0
                    != g.remove(0)[b].0 by {
                    assert(g.remove(0)[a] == g[a + 1]);
                    assert(g.remove(0)[b] == g[b + 1]);
                }
            }
        }
        let mut m = self.take_entries();
        let r = groups_shift_remove_index(&mut m, 0);
        self.entries = m;
        proof {
            let g = old(self).groups();
            if g.len() > 0 {
                assert(g.remove(0) =~= g.drop_first());
            }
        }
        r
    }

    /// Removes every group.
    pub fn clear(&mut self)
        ensures
            final(self).groups().len() == 0,
    {
        let mut m = self.take_entries();
        groups_clear(&mut m);
        self.entries = m;
    }

    /// The value of the first `cover` entry (the EPUB 2 cover image `id`).
    pub fn epub2_cover_image_id(&self) -> (r: Option<&str>)
        ensures
            ({
                let s = group_of(self.groups(), crate::consts::COVER@);
                match r {
                    Some(v) => s.len() > 0 && v@ == s[0].value@,
                    None => s.len() == 0,
                }
            }),
    {
        match groups_get(&self.entries, crate::consts::COVER) {
            Some(v) => {
                if v.len() > 0 {
                    Some(v[0].value.as_str())
                } else {
                    None
                }
            },
            None => None,
        }
    }
}


// ---------------------------------------------------------------------------
// Searches
// ---------------------------------------------------------------------------

/// The entry with the given `id` within `e` (the entry itself, else depth first through
/// its refinements in order), as `(index, refines, data)`: the position of the found
/// entry among its siblings (`index` for `e` itself), the `id` of its parent when it is
/// a direct refinement of the entry being searched, and its data.
pub open spec fn find_by_id(id: Seq<char>, e: EpubMetaEntryData, index: int) -> Option<
    (int, Option<Seq<char>>, EpubMetaEntryData),
>
    decreases e, 1int, 0int,
{
    if opt_string_view(e.id) == Some(id) {
        Some((index, None, e))
    } else {
        find_in_refinements(id, e, 0)
    }
}

/// The search of [`find_by_id`] over the refinements of `parent`, from position `k`.
pub open spec fn find_in_refinements(id: Seq<char>, parent: EpubMetaEntryData, k: int) -> Option<
    (int, Option<Seq<char>>, EpubMetaEntryData),
>
    decreases parent, 0int, parent.refinements.0@.len() - k,
{
    let rs = parent.refinements.0@;
    if k < 0 || k >= rs.len() {
        None
    } else {
        match find_by_id(id, rs[k], k) {
            Some(f) => if opt_string_view(rs[k].id) == Some(id) {
                Some((f.0, opt_string_view(parent.id), f.2))
            } else {
                Some(f)
            },
            None => find_in_refinements(id, parent, k + 1),
        }
    }
}

/// The search of [`find_by_id`] over the entries of one group, from position `k`.
pub open spec fn find_in_group(id: Seq<char>, s: Seq<EpubMetaEntryData>, k: int) -> Option<
    (int, Option<Seq<char>>, EpubMetaEntryData),
>
    decreases s.len() - k,
{
    if k < 0 || k >= s.len() {
        None
    } else {
        match find_by_id(id, s[k], k) {
            Some(f) => Some(f),
            None => find_in_group(id, s, k + 1),
        }
    }
}

/// The search of [`find_by_id`] over the groups, from group `gi`.
pub open spec fn find_in_groups(
    id: Seq<char>,
    g: Seq<(Seq<char>, Seq<EpubMetaEntryData>)>,
    gi: int,
) -> Option<(int, Option<Seq<char>>, EpubMetaEntryData)>
    decreases g.len() - gi,
{
    if gi < 0 || gi >= g.len() {
        None
    } else {
        match find_in_group(id, g[gi].1, 0) {
            Some(f) => Some(f),
            None => find_in_groups(id, g, gi + 1),
        }
    }
}

/// `t` is `s` with the first entry carrying `id` from position `k` on removed, looking
/// depth first (an entry before its refinements); `r` is that entry, `None` (and `t`
/// is `s`) when there is none.
pub open spec fn removed_from(
    id: Seq<char>,
    s: Seq<EpubMetaEntryData>,
    t: Seq<EpubMetaEntryData>,
    r: Option<EpubMetaEntryData>,
    k: int,
) -> bool
    decreases s, s.len() - k,
{
    if k < 0 || k >= s.len() {
        t == s && r is None
    } else if opt_string_view(s[k].id) == Some(id) {
        t == s.remove(k) && r == Some(s[k])
    } else if find_in_group(id, s[k].refinements.0@, 0) is Some {
        &&& t.len() == s.len()
        &&& forall|j: int| 0 <= j < s.len() && j != k ==> #[trigger] t[j] == s[j]
        &&& t[k] == (EpubMetaEntryData { refinements: t[k].refinements, ..s[k] })
        &&& removed_from(id, s[k].refinements.0@, t[k].refinements.0@, r, 0)
    } else {
        removed_from(id, s, t, r, k + 1)
    }
}

/// Searching the refinements of an entry finds something exactly when searching them
/// as a list does.
proof fn lemma_find_refinements_list(id: Seq<char>, e: EpubMetaEntryData, k: int)
    ensures
        (find_in_refinements(id, e, k) is Some) == (find_in_group(id, e.refinements.0@, k) is Some),
    decreases e.refinements.0@.len() - k,
{
    let rs = e.refinements.0@;
    if 0 <= k < rs.len() {
        lemma_find_refinements_list(id, e, k + 1);
    }
}

/// The entry removed is there exactly when the search finds one.
proof fn lemma_removed_found(id: Seq<char>, s: Seq<EpubMetaEntryData>, t: Seq<EpubMetaEntryData>, r: Option<EpubMetaEntryData>, k: int)
    requires
        removed_from(id, s, t, r, k),
        0 <= k,
    ensures
        (r is Some) == (find_in_group(id, s, k) is Some),
    decreases s, s.len() - k,
{
    if k < s.len() {
        if opt_string_view(s[k].id) == Some(id) {
        } else if find_in_group(id, s[k].refinements.0@, 0) is Some {
            lemma_removed_found(id, s[k].refinements.0@, t[k].refinements.0@, r, 0);
            lemma_find_refinements_list(id, s[k], 0);
        } else {
            lemma_removed_found(id, s, t, r, k + 1);
            lemma_find_refinements_list(id, s[k], 0);
        }
    }
}

/// The data found by searching the refinements of an entry is the data found by
/// searching them as a list.
proof fn lemma_find_refinements_data(id: Seq<char>, e: EpubMetaEntryData, k: int)
    ensures
        match find_in_refinements(id, e, k) {
            Some(f) => find_in_group(id, e.refinements.0@, k) matches Some(h) && h.2 == f.2,
            None => find_in_group(id, e.refinements.0@, k) is None,
        },
    decreases e.refinements.0@.len() - k,
{
    let rs = e.refinements.0@;
    if 0 <= k < rs.len() {
        lemma_find_refinements_data(id, e, k + 1);
    }
}

/// The entry that [`removed_from`] takes out is the one the depth-first search finds.
pub proof fn law_removed_is_found(
    id: Seq<char>,
    s: Seq<EpubMetaEntryData>,
    t: Seq<EpubMetaEntryData>,
    r: Option<EpubMetaEntryData>,
    k: int,
)
    requires
        removed_from(id, s, t, r, k),
        0 <= k,
    ensures
        match find_in_group(id, s, k) {
            Some(f) => r == Some(f.2),
            None => r is None && t == s,
        },
    decreases s, s.len() - k,
{
    if k < s.len() {
        if opt_string_view(s[k].id) == Some(id) {
        } else if find_in_group(id, s[k].refinements.0@, 0) is Some {
            law_removed_is_found(id, s[k].refinements.0@, t[k].refinements.0@, r, 0);
            lemma_find_refinements_data(id, s[k], 0);
        } else {
            law_removed_is_found(id, s, t, r, k + 1);
            lemma_find_refinements_data(id, s[k], 0);
        }
    }
}

proof fn lemma_group_with_id(id: Seq<char>, g: Seq<(Seq<char>, Seq<EpubMetaEntryData>)>, gi: int)
    requires
        0 <= gi,
    ensures
        group_with_id(id, g, gi) >= 0 ==> find_in_groups(id, g, gi) == find_in_group(id, g[group_with_id(id, g, gi)].1, 0),
        group_with_id(id, g, gi) < 0 ==> find_in_groups(id, g, gi) is None,
        group_with_id(id, g, gi) >= 0 ==> gi <= group_with_id(id, g, gi) < g.len() && find_in_group(id, g[group_with_id(id, g, gi)].1, 0) is Some,
    decreases g.len() - gi,
{
    if gi < g.len() && find_in_group(id, g[gi].1, 0) is None {
        lemma_group_with_id(id, g, gi + 1);
    }
}

/// What removing by `id` takes out of the metadata is the entry that looking up `id`
/// gives; when the lookup gives nothing, nothing is removed.
pub proof fn law_remove_by_id_takes_lookup(
    id: Seq<char>,
    g: Seq<(Seq<char>, Seq<EpubMetaEntryData>)>,
    t: Seq<EpubMetaEntryData>,
    r: Option<EpubMetaEntryData>,
)
    requires
        group_with_id(id, g, 0) >= 0,
        removed_from(id, g[group_with_id(id, g, 0)].1, t, r, 0),
    ensures
        find_in_groups(id, g, 0) matches Some(f) && r == Some(f.2),
{
    lemma_group_with_id(id, g, 0);
    law_removed_is_found(id, g[group_with_id(id, g, 0)].1, t, r, 0);
}

/// Removes the first entry carrying `id` from `entries`, looking depth first.
fn remove_in(id: &str, entries: &mut Vec<EpubMetaEntryData>) -> (r: Option<EpubMetaEntryData>)
    ensures
        removed_from(id@, old(entries)@, final(entries)@, r, 0),
    decreases old(entries)@,
{
    let ghost s = entries@;
    let n = entries.len();
    let mut i: usize = 0;
    while i < n
        invariant
            n == s.len(),
            i <= n,
            entries@ == s,
            s == old(entries)@,
            forall|t: Seq<EpubMetaEntryData>, r: Option<EpubMetaEntryData>|
                #[trigger] removed_from(id@, s, t, r, 0) == removed_from(id@, s, t, r, i as int),
        decreases n - i,
    {
        if opt_eq_str(&entries[i].id, id) {
            let r = entries.remove(i);
            proof {
                assert(removed_from(id@, s, entries@, Some(r), i as int));
            }
            return Some(r);
        }
        proof {
            assert(decreases_to!(s => s[i as int]));
            assert(decreases_to!(s[i as int] => s[i as int].refinements));
            assert(decreases_to!(s[i as int].refinements => s[i as int].refinements.0));
            assert(decreases_to!(s[i as int].refinements.0 => s[i as int].refinements.0@));
        }
        let inside = dfs_by_id(id, &entries[i], i).is_some();
        proof {
            lemma_find_refinements_list(id@, s[i as int], 0);
        }
        if inside {
            let found = remove_in(id, &mut entries[i].refinements.0);
            proof {
                lemma_removed_found(id@, s[i as int].refinements.0@, entries@[i as int].refinements.0@, found, 0);
                assert(removed_from(id@, s, entries@, found, i as int));
            }
            return found;
        }
        proof {
            assert forall|t: Seq<EpubMetaEntryData>, r: Option<EpubMetaEntryData>|
                #[trigger] removed_from(id@, s, t, r, 0) == removed_from(id@, s, t, r, i + 1) by {
                assert(removed_from(id@, s, t, r, 0) == removed_from(id@, s, t, r, i as int));
            }
        }
        i = i + 1;
    }
    None
}

/// The first group from position `gi` on that holds an entry with `id` (at any depth),
/// or `-1`.
pub open spec fn group_with_id(id: Seq<char>, g: Seq<(Seq<char>, Seq<EpubMetaEntryData>)>, gi: int) -> int
    decreases g.len() - gi,
{
    if gi < 0 || gi >= g.len() {
        -1
    } else if find_in_group(id, g[gi].1, 0) is Some {
        gi
    } else {
        group_with_id(id, g, gi + 1)
    }
}

/// Whether some entry of `group` (at any depth) has `id`.
fn group_contains(id: &str, group: &Vec<EpubMetaEntryData>) -> (r: bool)
    ensures
        r == (find_in_group(id@, group@, 0) is Some),
{
    let m = group.len();
    let mut k: usize = 0;
    while k < m
        invariant
            m == group@.len(),
            k <= m,
            find_in_group(id@, group@, 0) == find_in_group(id@, group@, k as int),
        decreases m - k,
    {
        if dfs_by_id(id, &group[k], k).is_some() {
            return true;
        }
        k = k + 1;
    }
    false
}

fn dfs_by_id<'a>(id: &str, entry: &'a EpubMetaEntryData, index: usize) -> (r: Option<
    (usize, Option<&'a str>, &'a EpubMetaEntryData),
>)
    ensures
        match r {
            Some(t) => find_by_id(id@, *entry, index as int) == Some(
                (t.0 as int, opt_str_view(t.1), *t.2),
            ),
            None => find_by_id(id@, *entry, index as int) is None,
        },
    decreases *entry,
{
    if opt_eq_str(&entry.id, id) {
        return Some((index, None, entry));
    }
    let n = entry.refinements.0.len();
    let mut i: usize = 0;
    while i < n
        invariant
            n == entry.refinements.0@.len(),
            i <= n,
            opt_string_view(entry.id) != Some(id@),
            find_by_id(id@, *entry, index as int) == find_in_refinements(id@, *entry, i as int),
        decreases n - i,
    {
        let r = &entry.refinements.0[i];
        proof {
            assert(decreases_to!(*entry => entry.refinements));
            assert(decreases_to!(entry.refinements => entry.refinements.0));
            assert(decreases_to!(entry.refinements.0 => entry.refinements.0@));
            assert(decreases_to!(entry.refinements.0@ => entry.refinements.0@[i as int]));
        }
        match dfs_by_id(id, r, i) {
            Some(found) => {
                if opt_eq_str(&r.id, id) {
                    return Some((found.0, opt_as_str(&entry.id), found.2));
                }
                return Some(found);
            },
            None => {},
        }
        i = i + 1;
    }
    None
}

/// The position of the first entry of `s` that satisfies `p`, or `-1`.
pub open spec fn first_where(s: Seq<EpubMetaEntryData>, p: spec_fn(EpubMetaEntryData) -> bool) -> int
    decreases s.len(),
{
    if s.len() == 0 {
        -1
    } else if p(s[0]) {
        0
    } else {
        let r = first_where(s.drop_first(), p);
        if r < 0 {
            -1
        } else {
            r + 1
        }
    }
}

pub proof fn lemma_first_where(s: Seq<EpubMetaEntryData>, p: spec_fn(EpubMetaEntryData) -> bool)
    ensures
        -1 <= first_where(s, p) < s.len(),
        first_where(s, p) >= 0 ==> p(s[first_where(s, p)]),
        forall|j: int|
            0 <= j < s.len() && (first_where(s, p) < 0 || j < first_where(s, p)) ==> !p(
                #[trigger] s[j],
            ),
    decreases s.len(),
{
    if s.len() > 0 && !p(s[0]) {
        lemma_first_where(s.drop_first(), p);
        assert forall|j: int|
            0 <= j < s.len() && (first_where(s, p) < 0 || j < first_where(s, p)) implies !p(
            #[trigger] s[j],
        ) by {
            if j > 0 {
                assert(s[j] == s.drop_first()[j - 1]);
            }
        }
    }
}

/// The first position `>= k` ... as [`first_where`] but for the suffix from `k`.
proof fn lemma_first_where_step(s: Seq<EpubMetaEntryData>, p: spec_fn(EpubMetaEntryData) -> bool, k: int)
    requires
        0 <= k < s.len(),
        forall|j: int| 0 <= j < k ==> !p(#[trigger] s[j]),
    ensures
        p(s[k]) ==> first_where(s, p) == k,
        !p(s[k]) ==> forall|j: int| 0 <= j <= k ==> !p(#[trigger] s[j]),
{
    lemma_first_where(s, p);
}

/// `dc:date` entries that declare themselves the publication date.
pub open spec fn is_publication(e: EpubMetaEntryData) -> bool {
    let i = key_index(e.attributes@, consts::OPF_EVENT@);
    i >= 0 && trim(e.attributes@[i].spec_value()) == consts::PUBLICATION@
}

/// `dc:date` entries without an `opf:event` attribute.
pub open spec fn has_no_event(e: EpubMetaEntryData) -> bool {
    key_index(e.attributes@, consts::OPF_EVENT@) < 0
}

/// `dc:date` entries that declare themselves the modification date.
pub open spec fn is_modification(e: EpubMetaEntryData) -> bool {
    attr_value(e.attributes@, consts::OPF_EVENT@) == Some(consts::MODIFICATION@)
}

/// The position of the publication date among the `dc:date` entries: the first marked
/// `publication`, else the first without an event, else `-1`.
pub open spec fn published_index(s: Seq<EpubMetaEntryData>) -> int {
    let p = first_where(s, |e: EpubMetaEntryData| is_publication(e));
    if p >= 0 {
        p
    } else {
        first_where(s, |e: EpubMetaEntryData| has_no_event(e))
    }
}

/// Titles whose first `title-type` refinement is `main`.
pub open spec fn is_main_title_type(e: EpubMetaEntryData) -> bool {
    let refs = e.refinements.0@;
    let i = property_index(refs, consts::TITLE_TYPE@);
    i >= 0 && refs[i].value@ == consts::MAIN_TITLE_TYPE@
}

/// The position of the main title: the first with a `main` title type, else `0`.
pub open spec fn main_title_index(s: Seq<EpubMetaEntryData>) -> int {
    let p = first_where(s, |e: EpubMetaEntryData| is_main_title_type(e));
    if p >= 0 {
        p
    } else {
        0
    }
}

/// Each group's entries with their positions, groups in order.
pub open spec fn flat_entries(g: Seq<(Seq<char>, Seq<EpubMetaEntryData>)>) -> Seq<
    (int, EpubMetaEntryData),
>
    decreases g.len(),
{
    if g.len() == 0 {
        Seq::empty()
    } else {
        flat_entries(g.drop_last()) + Seq::new(
            g.last().1.len(),
            |k: int| (k, g.last().1[k]),
        )
    }
}

/// `e` views the top-level entry `d` at position `i` under `ctx`.
pub open spec fn views(e: EpubMetaEntry, ctx: EpubPackageMetaContext, d: EpubMetaEntryData, i: int) -> bool {
    &&& e.spec_data() == d
    &&& e.spec_index() == i
    &&& e.spec_refines() is None
    &&& e.spec_ctx() == ctx
}


/// The position of the first entry of `s` that `f` accepts, where `f` decides `p`.
fn scan<F: Fn(&EpubMetaEntryData) -> bool>(
    s: &Vec<EpubMetaEntryData>,
    f: F,
    Ghost(p): Ghost<spec_fn(EpubMetaEntryData) -> bool>,
) -> (r: Option<usize>)
    requires
        forall|e: &EpubMetaEntryData| #[trigger] f.requires((e,)),
        forall|e: &EpubMetaEntryData, b: bool| f.ensures((e,), b) ==> b == p(*e),
    ensures
        match r {
            Some(i) => i as int == first_where(s@, p) && i < s@.len(),
            None => first_where(s@, p) == -1,
        },
{
    proof {
        lemma_first_where(s@, p);
    }
    let mut i: usize = 0;
    while i < s.len()
        invariant
            i <= s@.len(),
            forall|e: &EpubMetaEntryData| #[trigger] f.requires((e,)),
            forall|e: &EpubMetaEntryData, b: bool| f.ensures((e,), b) ==> b == p(*e),
            forall|j: int| 0 <= j < i ==> !p(#[trigger] s@[j]),
        decreases s.len() - i,
    {
        if f(&s[i]) {
            proof {
                lemma_first_where_step(s@, p, i as int);
            }
            return Some(i);
        }
        i = i + 1;
    }
    proof {
        lemma_first_where(s@, p);
        if first_where(s@, p) >= 0 {
            assert(!p(s@[first_where(s@, p)]));
        }
    }
    None
}

fn check_publication(e: &EpubMetaEntryData) -> (r: bool)
    ensures
        r == is_publication(*e),
{
    match e.attributes.by_name(consts::OPF_EVENT) {
        Some(a) => str_eq(a.value(), consts::PUBLICATION),
        None => false,
    }
}

fn check_no_event(e: &EpubMetaEntryData) -> (r: bool)
    ensures
        r == has_no_event(*e),
{
    e.attributes.by_name(consts::OPF_EVENT).is_none()
}

fn check_modification(e: &EpubMetaEntryData) -> (r: bool)
    ensures
        r == is_modification(*e),
{
    match e.attributes.get_value(consts::OPF_EVENT) {
        Some(v) => str_eq(v, consts::MODIFICATION),
        None => false,
    }
}

fn check_main_title_type(e: &EpubMetaEntryData) -> (r: bool)
    ensures
        r == is_main_title_type(*e),
{
    match e.refinements.by_refinement(consts::TITLE_TYPE) {
        Some(t) => str_eq(t.value.as_str(), consts::MAIN_TITLE_TYPE),
        None => false,
    }
}

/// Entries whose `id` is the given one.
pub open spec fn has_id(e: EpubMetaEntryData, id: Seq<char>) -> bool {
    opt_string_view(e.id) == Some(id)
}

// ---------------------------------------------------------------------------
// The metadata view
// ---------------------------------------------------------------------------

/// A read-only view over the metadata of a package.
#[derive(Copy, Clone, Debug)]
pub struct EpubMetadata<'ebook> {
    ctx: EpubPackageMetaContext<'ebook>,
    package: &'ebook EpubPackageData,
    data: &'ebook EpubMetadataData,
}

impl<'ebook> EpubMetadata<'ebook> {
    pub closed spec fn spec_groups(&self) -> Seq<(Seq<char>, Seq<EpubMetaEntryData>)> {
        self.data.groups()
    }

    pub closed spec fn spec_package(&self) -> EpubPackageData {
        *self.package
    }

    pub closed spec fn spec_ctx(&self) -> EpubPackageMetaContext<'ebook> {
        self.ctx
    }

    pub fn new(package: &'ebook EpubPackageData, data: &'ebook EpubMetadataData) -> (r: Self)
        ensures
            r.spec_groups() == data.groups(),
            r.spec_package() == *package,
            r.spec_ctx() == EpubPackageMetaContext(Some(package)),
    {
        EpubMetadata { ctx: EpubPackageMetaContext::new(package), package, data }
    }

    /// Views over the entries of `s`.
    fn entries_of(&self, s: Option<&'ebook Vec<EpubMetaEntryData>>) -> (r: Vec<EpubMetaEntry<'ebook>>)
        ensures
            ({
                let src = match s {
                    Some(v) => v@,
                    None => Seq::empty(),
                };
                &&& r@.len() == src.len()
                &&& forall|k: int| 0 <= k < r@.len() ==> views(#[trigger] r@[k], self.spec_ctx(), src[k], k)
            }),
    {
        let mut out: Vec<EpubMetaEntry<'ebook>> = Vec::new();
        match s {
            Some(v) => {
                let mut i: usize = 0;
                while i < v.len()
                    invariant
                        i <= v@.len(),
                        out@.len() == i,
                        forall|k: int| 0 <= k < i ==> views(#[trigger] out@[k], self.ctx, v@[k], k),
                    decreases v.len() - i,
                {
                    out.push(EpubMetaEntry::new(self.ctx, None, &v[i], i));
                    i = i + 1;
                }
            },
            None => {},
        }
        out
    }

    /// The top-level entries with the given property, in order.
    pub fn by_property(&self, property: &str) -> (r: Vec<EpubMetaEntry<'ebook>>)
        ensures
            r@.len() == group_of(self.spec_groups(), property@).len(),
            forall|k: int|
                0 <= k < r@.len() ==> views(
                    #[trigger] r@[k],
                    self.spec_ctx(),
                    group_of(self.spec_groups(), property@)[k],
                    k,
                ),
    {
        self.entries_of(self.data.group(property))
    }

    /// The entry (top-level or refinement, at any depth) with the given `id`.
    pub fn by_id(&self, id: &str) -> (r: Option<EpubMetaEntry<'ebook>>)
        ensures
            match r {
                Some(e) => find_in_groups(id@, self.spec_groups(), 0) == Some(
                    (e.spec_index() as int, e.spec_refines(), e.spec_data()),
                ) && e.spec_ctx() == self.spec_ctx(),
                None => find_in_groups(id@, self.spec_groups(), 0) is None,
            },
    {
        let n = self.data.group_count();
        let mut gi: usize = 0;
        while gi < n
            invariant
                n == self.data.groups().len(),
                gi <= n,
                find_in_groups(id@, self.data.groups(), 0) == find_in_groups(
                    id@,
                    self.data.groups(),
                    gi as int,
                ),
            decreases n - gi,
        {
            let (_, group) = self.data.group_at(gi).unwrap();
            let m = group.len();
            let mut k: usize = 0;
            while k < m
                invariant
                    m == group@.len(),
                    k <= m,
                    gi < n,
                    n == self.data.groups().len(),
                    group@ == self.data.groups()[gi as int].1,
                    find_in_groups(id@, self.data.groups(), 0) == find_in_groups(
                        id@,
                        self.data.groups(),
                        gi as int,
                    ),
                    find_in_group(id@, group@, 0) == find_in_group(id@, group@, k as int),
                decreases m - k,
            {
                match dfs_by_id(id, &group[k], k) {
                    Some((i, refines, data)) => {
                        return Some(EpubMetaEntry::new(self.ctx, refines, data, i));
                    },
                    None => {},
                }
                k = k + 1;
            }
            gi = gi + 1;
        }
        None
    }

    /// The EPUB version.
    pub fn version(&self) -> (r: EpubVersion)
        ensures
            r == self.spec_package().version.parsed,
    {
        self.package.version.parsed
    }

    /// The version string as written in the package.
    pub fn version_str(&self) -> (r: &'ebook str)
        ensures
            r@ == self.spec_package().version.raw@,
    {
        self.package.version.raw.as_str()
    }

    /// Every top-level entry: the groups in order, each group's entries in order.
    pub fn iter(&self) -> (r: Vec<EpubMetaEntry<'ebook>>)
        ensures
            r@.len() == flat_entries(self.spec_groups()).len(),
            forall|k: int|
                0 <= k < r@.len() ==> views(
                    #[trigger] r@[k],
                    self.spec_ctx(),
                    flat_entries(self.spec_groups())[k].1,
                    flat_entries(self.spec_groups())[k].0,
                ),
    {
        let n = self.data.group_count();
        let ghost g = self.data.groups();
        let mut out: Vec<EpubMetaEntry<'ebook>> = Vec::new();
        let mut gi: usize = 0;
        while gi < n
            invariant
                n == g.len(),
                g == self.data.groups(),
                gi <= n,
                out@.len() == flat_entries(g.take(gi as int)).len(),
                forall|k: int|
                    0 <= k < out@.len() ==> views(
                        #[trigger] out@[k],
                        self.ctx,
                        flat_entries(g.take(gi as int))[k].1,
                        flat_entries(g.take(gi as int))[k].0,
                    ),
            decreases n - gi,
        {
            let (_, group) = self.data.group_at(gi).unwrap();
            let ghost before = out@;
            let ghost prev = flat_entries(g.take(gi as int));
            assert(g.take(gi + 1).drop_last() =~= g.take(gi as int));
            assert(g.take(gi + 1).last() == g[gi as int]);
            let m = group.len();
            let mut k: usize = 0;
            while k < m
                invariant
                    m == group@.len(),
                    k <= m,
                    out@.len() == before.len() + k,
                    before.len() == prev.len(),
                    forall|j: int| 0 <= j < before.len() ==> out@[j] == before[j],
                    forall|j: int|
                        0 <= j < k ==> views(
                            #[trigger] out@[before.len() + j],
                            self.ctx,
                            group@[j],
                            j,
                        ),
                decreases m - k,
            {
                out.push(EpubMetaEntry::new(self.ctx, None, &group[k], k));
                k = k + 1;
            }
            proof {
                let next = flat_entries(g.take(gi + 1));
                assert(next =~= prev + Seq::new(group@.len(), |j: int| (j, group@[j])));
                assert forall|j: int| 0 <= j < out@.len() implies views(
                    #[trigger] out@[j],
                    self.ctx,
                    next[j].1,
                    next[j].0,
                ) by {
                    if j < before.len() {
                        assert(out@[j] == before[j]);
                    } else {
                        assert(out@[before.len() + (j - before.len())] == out@[j]);
                    }
                }
            }
            gi = gi + 1;
        }
        assert(g.take(n as int) =~= g);
        out
    }

    /// The `<link>` entries among [`Self::iter`], in order.
    pub fn links(&self) -> (r: Vec<EpubLink<'ebook>>)
        ensures
            r@.len() == flat_entries(self.spec_groups()).filter(
                |x: (int, EpubMetaEntryData)| x.1.kind is Link,
            ).len(),
            forall|k: int|
                0 <= k < r@.len() ==> ({
                    let x = flat_entries(self.spec_groups()).filter(
                        |x: (int, EpubMetaEntryData)| x.1.kind is Link,
                    )[k];
                    views((#[trigger] r@[k]).spec_entry(), self.spec_ctx(), x.1, x.0)
                }),
    {
        let all = self.iter();
        let ghost src = flat_entries(self.spec_groups());
        let ghost pred = |x: (int, EpubMetaEntryData)| x.1.kind is Link;
        let mut out: Vec<EpubLink<'ebook>> = Vec::new();
        let mut i: usize = 0;
        while i < all.len()
            invariant
                i <= all@.len(),
                pred == (|x: (int, EpubMetaEntryData)| x.1.kind is Link),
                src == flat_entries(self.spec_groups()),
                all@.len() == src.len(),
                forall|k: int| 0 <= k < all@.len() ==> views(#[trigger] all@[k], self.ctx, src[k].1, src[k].0),
                out@.len() == src.take(i as int).filter(pred).len(),
                forall|k: int| 0 <= k < out@.len() ==> ({
                    let x = src.take(i as int).filter(pred)[k];
                    views((#[trigger] out@[k]).spec_entry(), self.ctx, x.1, x.0)
                }),
            decreases all.len() - i,
        {
            proof {
                assert(src.take(i + 1) =~= src.take(i as int).push(src[i as int]));
                src.take(i as int).lemma_filter_push(src[i as int], pred);
            }
            let ghost before = out@;
            assert(views(all@[i as int], self.ctx, src[i as int].1, src[i as int].0));
            match all[i].as_link() {
                Some(l) => {
                    out.push(l);
                    proof {
                        assert(pred(src[i as int]));
                        assert(src.take(i + 1).filter(pred) == src.take(i as int).filter(pred).push(src[i as int]));
                        assert(out@ == before.push(l));
                    }
                },
                None => {
                    proof {
                        assert(!pred(src[i as int]));
                        assert(src.take(i + 1).filter(pred) == src.take(i as int).filter(pred));
                    }
                },
            }
            i = i + 1;
        }
        assert(src.take(all@.len() as int) =~= src);
        out
    }

    /// The publication date entry: the first `dc:date` marked `opf:event="publication"`,
    /// else the first `dc:date` without an `opf:event`.
    pub fn published_entry(&self) -> (r: Option<EpubMetaEntry<'ebook>>)
        ensures
            ({
                let s = group_of(self.spec_groups(), consts::DC_DATE@);
                let i = published_index(s);
                match r {
                    Some(e) => i >= 0 && views(e, self.spec_ctx(), s[i], i),
                    None => i < 0,
                }
            }),
    {
        let dates = match self.data.group(consts::DC_DATE) {
            Some(v) => v,
            None => {
                return None;
            },
        };
        let ghost pp = |e: EpubMetaEntryData| is_publication(e);
        let ghost pn = |e: EpubMetaEntryData| has_no_event(e);
        let found = scan(dates, |e: &EpubMetaEntryData| -> (b: bool)
            ensures b == is_publication(*e)
        { check_publication(e) }, Ghost(pp));
        match found {
            Some(i) => {
                return Some(EpubMetaEntry::new(self.ctx, None, &dates[i], i));
            },
            None => {},
        }
        let inferred = scan(dates, |e: &EpubMetaEntryData| -> (b: bool)
            ensures b == has_no_event(*e)
        { check_no_event(e) }, Ghost(pn));
        match inferred {
            Some(i) => Some(EpubMetaEntry::new(self.ctx, None, &dates[i], i)),
            None => None,
        }
    }

    /// The modification date entry: the first `dcterms:modified`, else the first `dc:date`
    /// marked `opf:event="modification"`.
    pub fn modified_entry(&self) -> (r: Option<EpubMetaEntry<'ebook>>)
        ensures
            ({
                let m = group_of(self.spec_groups(), consts::DC_MODIFIED@);
                let s = group_of(self.spec_groups(), consts::DC_DATE@);
                let i = first_where(s, |e: EpubMetaEntryData| is_modification(e));
                if m.len() > 0 {
                    r matches Some(e) && views(e, self.spec_ctx(), m[0], 0)
                } else {
                    match r {
                        Some(e) => i >= 0 && views(e, self.spec_ctx(), s[i], i),
                        None => i < 0,
                    }
                }
            }),
    {
        match self.data.group(consts::DC_MODIFIED) {
            Some(v) => {
                if v.len() > 0 {
                    return Some(EpubMetaEntry::new(self.ctx, None, &v[0], 0));
                }
            },
            None => {},
        }
        let dates = match self.data.group(consts::DC_DATE) {
            Some(v) => v,
            None => {
                return None;
            },
        };
        let ghost pm = |e: EpubMetaEntryData| is_modification(e);
        let found = scan(dates, |e: &EpubMetaEntryData| -> (b: bool)
            ensures b == is_modification(*e)
        { check_modification(e) }, Ghost(pm));
        match found {
            Some(i) => Some(EpubMetaEntry::new(self.ctx, None, &dates[i], i)),
            None => None,
        }
    }

    /// The unique identifier: the `dc:identifier` whose `id` is the package's unique
    /// identifier reference.
    pub fn identifier(&self) -> (r: Option<EpubIdentifier<'ebook>>)
        ensures
            ({
                let s = group_of(self.spec_groups(), consts::DC_IDENTIFIER@);
                let uid = self.spec_package().unique_identifier@;
                let i = first_where(s, |e: EpubMetaEntryData| has_id(e, uid));
                match r {
                    Some(x) => i >= 0 && views(x.spec_entry(), self.spec_ctx(), s[i], i),
                    None => i < 0,
                }
            }),
    {
        let ids = match self.data.group(consts::DC_IDENTIFIER) {
            Some(v) => v,
            None => {
                return None;
            },
        };
        let uid = self.package.unique_identifier.as_str();
        let ghost pu = |e: EpubMetaEntryData| has_id(e, uid@);
        let found = scan(ids, |e: &EpubMetaEntryData| -> (b: bool)
            ensures b == has_id(*e, uid@)
        { opt_eq_str(&e.id, uid) }, Ghost(pu));
        match found {
            Some(i) => Some(EpubIdentifier::new(EpubMetaEntry::new(self.ctx, None, &ids[i], i))),
            None => None,
        }
    }

    /// Every `dc:identifier`, in order.
    pub fn identifiers(&self) -> (r: Vec<EpubIdentifier<'ebook>>)
        ensures
            r@.len() == group_of(self.spec_groups(), consts::DC_IDENTIFIER@).len(),
            forall|k: int|
                0 <= k < r@.len() ==> views(
                    (#[trigger] r@[k]).spec_entry(),
                    self.spec_ctx(),
                    group_of(self.spec_groups(), consts::DC_IDENTIFIER@)[k],
                    k,
                ),
    {
        let all = self.by_property(consts::DC_IDENTIFIER);
        let mut out: Vec<EpubIdentifier<'ebook>> = Vec::new();
        let mut i: usize = 0;
        while i < all.len()
            invariant
                i <= all@.len(),
                out@.len() == i,
                forall|k: int| 0 <= k < i ==> (#[trigger] out@[k]).spec_entry() == all@[k],
            decreases all.len() - i,
        {
            out.push(EpubIdentifier::new(all[i]));
            i = i + 1;
        }
        out
    }

    /// Every `dc:language`, in order.
    pub fn languages(&self) -> (r: Vec<EpubLanguage<'ebook>>)
        ensures
            r@.len() == group_of(self.spec_groups(), consts::DC_LANGUAGE@).len(),
            forall|k: int|
                0 <= k < r@.len() ==> views(
                    (#[trigger] r@[k]).spec_entry(),
                    self.spec_ctx(),
                    group_of(self.spec_groups(), consts::DC_LANGUAGE@)[k],
                    k,
                ),
    {
        let all = self.by_property(consts::DC_LANGUAGE);
        let mut out: Vec<EpubLanguage<'ebook>> = Vec::new();
        let mut i: usize = 0;
        while i < all.len()
            invariant
                i <= all@.len(),
                out@.len() == i,
                forall|k: int| 0 <= k < i ==> (#[trigger] out@[k]).spec_entry() == all@[k],
            decreases all.len() - i,
        {
            out.push(EpubLanguage::new(all[i]));
            i = i + 1;
        }
        out
    }

    /// The first `dc:language`.
    pub fn language(&self) -> (r: Option<EpubLanguage<'ebook>>)
        ensures
            ({
                let s = group_of(self.spec_groups(), consts::DC_LANGUAGE@);
                match r {
                    Some(x) => s.len() > 0 && views(x.spec_entry(), self.spec_ctx(), s[0], 0),
                    None => s.len() == 0,
                }
            }),
    {
        let all = self.languages();
        if all.len() > 0 {
            Some(all[0])
        } else {
            None
        }
    }

    /// Every `dc:title`, in order; the main title is the first whose `title-type` is
    /// `main`, else the first title.
    pub fn titles(&self) -> (r: Vec<EpubTitle<'ebook>>)
        ensures
            ({
                let s = group_of(self.spec_groups(), consts::DC_TITLE@);
                &&& r@.len() == s.len()
                &&& forall|k: int|
                    0 <= k < r@.len() ==> views((#[trigger] r@[k]).spec_entry(), self.spec_ctx(), s[k], k)
                        && r@[k].spec_is_main() == (k == main_title_index(s))
            }),
    {
        let all = self.by_property(consts::DC_TITLE);
        let ghost s = group_of(self.spec_groups(), consts::DC_TITLE@);
        let main: usize = match self.data.group(consts::DC_TITLE) {
            Some(v) => {
                let ghost pm = |e: EpubMetaEntryData| is_main_title_type(e);
                match scan(v, |e: &EpubMetaEntryData| -> (b: bool)
                    ensures b == is_main_title_type(*e)
                { check_main_title_type(e) }, Ghost(pm)) {
                    Some(i) => i,
                    None => 0,
                }
            },
            None => 0,
        };
        let mut out: Vec<EpubTitle<'ebook>> = Vec::new();
        let mut i: usize = 0;
        while i < all.len()
            invariant
                i <= all@.len(),
                out@.len() == i,
                forall|k: int|
                    0 <= k < i ==> (#[trigger] out@[k]).spec_entry() == all@[k] && out@[k].spec_is_main()
                        == (k == main),
            decreases all.len() - i,
        {
            out.push(EpubTitle::new(all[i], i == main));
            i = i + 1;
        }
        out
    }

    /// The main title.
    pub fn title(&self) -> (r: Option<EpubTitle<'ebook>>)
        ensures
            ({
                let s = group_of(self.spec_groups(), consts::DC_TITLE@);
                let i = main_title_index(s);
                match r {
                    Some(x) => s.len() > 0 && views(x.spec_entry(), self.spec_ctx(), s[i], i)
                        && x.spec_is_main(),
                    None => s.len() == 0,
                }
            }),
    {
        let all = self.titles();
        let ghost s = group_of(self.spec_groups(), consts::DC_TITLE@);
        let mut i: usize = 0;
        while i < all.len()
            invariant
                i <= all@.len(),
                s == group_of(self.spec_groups(), consts::DC_TITLE@),
                all@.len() == s.len(),
                forall|k: int|
                    0 <= k < all@.len() ==> views((#[trigger] all@[k]).spec_entry(), self.ctx, s[k], k)
                        && all@[k].spec_is_main() == (k == main_title_index(s)),
                i as int <= main_title_index(s),
            decreases all.len() - i,
        {
            if all[i].is_main_title() {
                let t = all[i];
                proof {
                    assert(views(all@[i as int].spec_entry(), self.ctx, s[i as int], i as int));
                    assert(i as int == main_title_index(s));
                }
                return Some(t);
            }
            i = i + 1;
        }
        proof {
            let m = main_title_index(s);
            lemma_first_where(s, |e: EpubMetaEntryData| is_main_title_type(e));
            assert(!(0 <= m < s.len()));
        }
        None
    }

    /// Every `dc:description`, in order.
    pub fn descriptions(&self) -> (r: Vec<EpubMetaEntry<'ebook>>)
        ensures
            r@.len() == group_of(self.spec_groups(), consts::DC_DESCRIPTION@).len(),
            forall|k: int|
                0 <= k < r@.len() ==> views(
                    #[trigger] r@[k],
                    self.spec_ctx(),
                    group_of(self.spec_groups(), consts::DC_DESCRIPTION@)[k],
                    k,
                ),
    {
        self.by_property(consts::DC_DESCRIPTION)
    }

    /// The first `dc:description`.
    pub fn description(&self) -> (r: Option<EpubMetaEntry<'ebook>>)
        ensures
            ({
                let s = group_of(self.spec_groups(), consts::DC_DESCRIPTION@);
                match r {
                    Some(x) => s.len() > 0 && views(x, self.spec_ctx(), s[0], 0),
                    None => s.len() == 0,
                }
            }),
    {
        let all = self.descriptions();
        if all.len() > 0 {
            Some(all[0])
        } else {
            None
        }
    }

    fn contributors_of(&self, property: &str) -> (r: Vec<EpubContributor<'ebook>>)
        ensures
            r@.len() == group_of(self.spec_groups(), property@).len(),
            forall|k: int|
                0 <= k < r@.len() ==> views(
                    (#[trigger] r@[k]).spec_entry(),
                    self.spec_ctx(),
                    group_of(self.spec_groups(), property@)[k],
                    k,
                ),
    {
        let all = self.by_property(property);
        let mut out: Vec<EpubContributor<'ebook>> = Vec::new();
        let mut i: usize = 0;
        while i < all.len()
            invariant
                i <= all@.len(),
                out@.len() == i,
                forall|k: int| 0 <= k < i ==> (#[trigger] out@[k]).spec_entry() == all@[k],
            decreases all.len() - i,
        {
            out.push(EpubContributor::new(all[i]));
            i = i + 1;
        }
        out
    }

    /// Every `dc:creator`, in order.
    pub fn creators(&self) -> (r: Vec<EpubContributor<'ebook>>)
        ensures
            r@.len() == group_of(self.spec_groups(), consts::DC_CREATOR@).len(),
            forall|k: int|
                0 <= k < r@.len() ==> views(
                    (#[trigger] r@[k]).spec_entry(),
                    self.spec_ctx(),
                    group_of(self.spec_groups(), consts::DC_CREATOR@)[k],
                    k,
                ),
    {
        self.contributors_of(consts::DC_CREATOR)
    }

    /// Every `dc:contributor`, in order.
    pub fn contributors(&self) -> (r: Vec<EpubContributor<'ebook>>)
        ensures
            r@.len() == group_of(self.spec_groups(), consts::DC_CONTRIBUTOR@).len(),
            forall|k: int|
                0 <= k < r@.len() ==> views(
                    (#[trigger] r@[k]).spec_entry(),
                    self.spec_ctx(),
                    group_of(self.spec_groups(), consts::DC_CONTRIBUTOR@)[k],
                    k,
                ),
    {
        self.contributors_of(consts::DC_CONTRIBUTOR)
    }

    /// Every `dc:publisher`, in order.
    pub fn publishers(&self) -> (r: Vec<EpubContributor<'ebook>>)
        ensures
            r@.len() == group_of(self.spec_groups(), consts::DC_PUBLISHER@).len(),
            forall|k: int|
                0 <= k < r@.len() ==> views(
                    (#[trigger] r@[k]).spec_entry(),
                    self.spec_ctx(),
                    group_of(self.spec_groups(), consts::DC_PUBLISHER@)[k],
                    k,
                ),
    {
        self.contributors_of(consts::DC_PUBLISHER)
    }

    /// Every `generator` entry, in order.
    pub fn generators(&self) -> (r: Vec<EpubMetaEntry<'ebook>>)
        ensures
            r@.len() == group_of(self.spec_groups(), consts::GENERATOR@).len(),
            forall|k: int|
                0 <= k < r@.len() ==> views(
                    #[trigger] r@[k],
                    self.spec_ctx(),
                    group_of(self.spec_groups(), consts::GENERATOR@)[k],
                    k,
                ),
    {
        self.by_property(consts::GENERATOR)
    }

    /// Every `dc:subject`, in order.
    pub fn tags(&self) -> (r: Vec<EpubTag<'ebook>>)
        ensures
            r@.len() == group_of(self.spec_groups(), consts::DC_SUBJECT@).len(),
            forall|k: int|
                0 <= k < r@.len() ==> views(
                    (#[trigger] r@[k]).spec_entry(),
                    self.spec_ctx(),
                    group_of(self.spec_groups(), consts::DC_SUBJECT@)[k],
                    k,
                ),
    {
        let all = self.by_property(consts::DC_SUBJECT);
        let mut out: Vec<EpubTag<'ebook>> = Vec::new();
        let mut i: usize = 0;
        while i < all.len()
            invariant
                i <= all@.len(),
                out@.len() == i,
                forall|k: int| 0 <= k < i ==> (#[trigger] out@[k]).spec_entry() == all@[k],
            decreases all.len() - i,
        {
            out.push(EpubTag::new(all[i]));
            i = i + 1;
        }
        out
    }
}


// ---------------------------------------------------------------------------
// Editing
// ---------------------------------------------------------------------------

/// A mutable view over the metadata of a package.
pub struct EpubMetadataMut<'ebook> {
    pub package: &'ebook mut EpubPackageData,
    pub metadata: &'ebook mut EpubMetadataData,
}

impl<'ebook> EpubMetadataMut<'ebook> {
    /// Appends an entry to the end of the group of its property (a new group when absent).
    pub fn push<M>(&mut self, detached: DetachedEpubMetaEntry<M>)
        ensures
            (*final(self).metadata).groups() == push_entry(
                (*old(self).metadata).groups(),
                detached.spec_data(),
            ),
            *final(self).package == *old(self).package,
            *final(final(self).metadata) == *final(old(self).metadata),
            *final(final(self).package) == *final(old(self).package),
    {
        self.metadata.push_entry(detached.into_data());
    }

    /// Inserts an entry at `index` within the group of its property (clamped to the
    /// group's length; a new group when absent).
    pub fn insert<M>(&mut self, index: usize, detached: DetachedEpubMetaEntry<M>)
        ensures
            (*final(self).metadata).groups() == insert_entry(
                (*old(self).metadata).groups(),
                index as int,
                detached.spec_data(),
            ),
            *final(self).package == *old(self).package,
            *final(final(self).metadata) == *final(old(self).metadata),
            *final(final(self).package) == *final(old(self).package),
    {
        self.metadata.insert_entry(index, detached.into_data());
    }

    /// Appends several entries, each to the end of the group of its property (a new
    /// group when absent), in order.
    pub fn push_many<M>(&mut self, detached: Vec<DetachedEpubMetaEntry<M>>)
        ensures
            (*final(self).metadata).groups() == push_entries((*old(self).metadata).groups(), entries_of(detached@)),
            *final(self).package == *old(self).package,
            *final(final(self).metadata) == *final(old(self).metadata),
            *final(final(self).package) == *final(old(self).package),
    {
        let ghost g0 = self.metadata.groups();
        let ghost all = detached@;
        let ghost ds = entries_of(all);
        let mut rest = detached;
        let ghost mut k: int = 0;
        assert(all.skip(0) =~= all);
        assert(ds.take(0) =~= Seq::<EpubMetaEntryData>::empty());
        while rest.len() > 0
            invariant
                0 <= k <= all.len(),
                ds == entries_of(all),
                ds.len() == all.len(),
                rest@ == all.skip(k),
                self.metadata.groups() == push_entries(g0, ds.take(k)),
                *self.package == *old(self).package,
                *final(self.metadata) == *final(old(self).metadata),
                *final(self.package) == *final(old(self).package),
            decreases rest.len(),
        {
            let d = rest.remove(0);
            proof {
                assert(d == all[k]);
                assert(rest@ =~= all.skip(k + 1));
                assert(ds.take(k + 1).drop_last() =~= ds.take(k));
                assert(ds.take(k + 1).last() == d.spec_data());
            }
            self.metadata.push_entry(d.into_data());
            proof {
                k = k + 1;
            }
        }
        proof {
            assert(ds.take(k) =~= ds);
        }
    }

    /// Inserts several entries at `index` within the groups of their properties (see
    /// [`insert_entries`]); entries of one property stay together, in order.
    pub fn insert_many<M>(&mut self, index: usize, detached: Vec<DetachedEpubMetaEntry<M>>)
        ensures
            (*final(self).metadata).groups() == insert_entries(
                (*old(self).metadata).groups(),
                index as int,
                entries_of(detached@),
            ),
            *final(self).package == *old(self).package,
            *final(final(self).metadata) == *final(old(self).metadata),
            *final(final(self).package) == *final(old(self).package),
    {
        let ghost g0 = self.metadata.groups();
        let ghost all = detached@;
        let ghost ds = entries_of(all);
        let mut rest = detached;
        let mut seen: Vec<String> = Vec::new();
        let ghost mut k: int = 0;
        assert(all.skip(0) =~= all);
        assert(ds.take(0) =~= Seq::<EpubMetaEntryData>::empty());
        while rest.len() > 0
            invariant
                0 <= k <= all.len(),
                ds == entries_of(all),
                ds.len() == all.len(),
                rest@ == all.skip(k),
                seen@.len() == k,
                forall|j: int| 0 <= j < k ==> (#[trigger] seen@[j])@ == ds[j].property@,
                self.metadata.groups() == insert_entries(g0, index as int, ds.take(k)),
                *self.package == *old(self).package,
                *final(self.metadata) == *final(old(self).metadata),
                *final(self.package) == *final(old(self).package),
            decreases rest.len(),
        {
            let d = rest.remove(0).into_data();
            proof {
                assert(rest@ =~= all.skip(k + 1));
                assert(ds[k] == d);
            }
            let mut c: usize = 0;
            let mut j: usize = 0;
            while j < seen.len()
                invariant
                    0 <= j <= seen@.len(),
                    seen@.len() == k,
                    k <= ds.len(),
                    forall|i: int| 0 <= i < k ==> (#[trigger] seen@[i])@ == ds[i].property@,
                    c == count_property(ds.take(j as int), d.property@),
                    c <= j,
                decreases seen.len() - j,
            {
                proof {
                    assert(ds.take(j + 1).drop_last() =~= ds.take(j as int));
                    assert(ds.take(j + 1).last() == ds[j as int]);
                }
                if str_eq(seen[j].as_str(), d.property.as_str()) {
                    c = c + 1;
                }
                j = j + 1;
            }
            proof {
                assert(ds.take(k + 1).drop_last() =~= ds.take(k));
                assert(ds.take(k + 1).last() == d);
            }
            let at = index.saturating_add(c);
            seen.push(d.property.clone());
            self.metadata.insert_entry(at, d);
            proof {
                k = k + 1;
            }
        }
        proof {
            assert(ds.take(k) =~= ds);
        }
    }

    /// Removes and returns the first entry with `id` (see
    /// [`EpubMetadataData::remove_by_id`]).
    pub fn remove_by_id(&mut self, id: &str) -> (r: Option<DetachedEpubMetaEntry>)
        ensures
            ({
                let g = (*old(self).metadata).groups();
                let gi = group_with_id(id@, g, 0);
                if gi < 0 {
                    r is None && (*final(self).metadata).groups() == g
                } else {
                    &&& r is Some
                    &&& (*final(self).metadata).groups().len() == g.len()
                    &&& forall|j: int| 0 <= j < g.len() && j != gi ==> #[trigger] (*final(self).metadata).groups()[j] == g[j]
                    &&& (*final(self).metadata).groups()[gi].0 == g[gi].0
                    &&& removed_from(id@, g[gi].1, (*final(self).metadata).groups()[gi].1, Some(r->0.spec_data()), 0)
                }
            }),
            *final(self).package == *old(self).package,
            *final(final(self).metadata) == *final(old(self).metadata),
            *final(final(self).package) == *final(old(self).package),
    {
        match self.metadata.remove_by_id(id) {
            Some(d) => Some(DetachedEpubMetaEntry::from_data(d)),
            None => None,
        }
    }

    /// Keeps only the entries for which `f` returns `true`; groups left empty are
    /// removed.
    pub fn retain<F: Fn(&EpubMetaEntryData) -> bool>(&mut self, f: F)
        requires
            forall|x: &EpubMetaEntryData| #[trigger] f.requires((x,)),
        ensures
            exists|ds: Seq<Seq<bool>>|
                #![trigger retained_groups((*old(self).metadata).groups(), ds, true)]
                ds.len() == (*old(self).metadata).groups().len() && (forall|i: int|
                    0 <= i < ds.len() ==> (#[trigger] ds[i]).len() == (*old(self).metadata).groups()[i].1.len()
                        && forall|j: int|
                        0 <= j < ds[i].len() ==> f.ensures((&(*old(self).metadata).groups()[i].1[j],), #[trigger] ds[i][j]))
                    && (*final(self).metadata).groups() == retained_groups((*old(self).metadata).groups(), ds, true),
            *final(self).package == *old(self).package,
            *final(final(self).metadata) == *final(old(self).metadata),
            *final(final(self).package) == *final(old(self).package),
    {
        let _ = self.metadata.split_groups(&f, true);
    }

    /// Removes and returns the entries for which `f` returns `true`, group after group;
    /// groups left empty are removed.
    pub fn extract_if<F: Fn(&EpubMetaEntryData) -> bool>(&mut self, f: F) -> (r: Vec<DetachedEpubMetaEntry>)
        requires
            forall|x: &EpubMetaEntryData| #[trigger] f.requires((x,)),
        ensures
            exists|ds: Seq<Seq<bool>>|
                #![trigger retained_groups((*old(self).metadata).groups(), ds, false)]
                ds.len() == (*old(self).metadata).groups().len() && (forall|i: int|
                    0 <= i < ds.len() ==> (#[trigger] ds[i]).len() == (*old(self).metadata).groups()[i].1.len()
                        && forall|j: int|
                        0 <= j < ds[i].len() ==> f.ensures((&(*old(self).metadata).groups()[i].1[j],), #[trigger] ds[i][j]))
                    && (*final(self).metadata).groups() == retained_groups((*old(self).metadata).groups(), ds, false)
                    && r@.len() == selected_entries((*old(self).metadata).groups(), ds, true).len() && forall|k: int|
                    0 <= k < r@.len() ==> (#[trigger] r@[k]).spec_data() == selected_entries((*old(self).metadata).groups(), ds, true)[k],
            *final(self).package == *old(self).package,
            *final(final(self).metadata) == *final(old(self).metadata),
            *final(final(self).package) == *final(old(self).package),
    {
        let taken = self.metadata.split_groups(&f, false);
        detach_all(taken)
    }

    /// Removes and returns every top-level entry with the given property, in order.
    pub fn remove_by_property(&mut self, property: &str) -> (r: Vec<DetachedEpubMetaEntry>)
        ensures
            ({
                let g = (*old(self).metadata).groups();
                let i = group_pos(g, property@);
                &&& r@.len() == group_of(g, property@).len()
                &&& forall|k: int|
                    0 <= k < r@.len() ==> (#[trigger] r@[k]).spec_data() == group_of(g, property@)[k]
                &&& (*final(self).metadata).groups() == if i >= 0 {
                    g.remove(i)
                } else {
                    g
                }
            }),
            *final(self).package == *old(self).package,
            *final(final(self).metadata) == *final(old(self).metadata),
            *final(final(self).package) == *final(old(self).package),
    {
        let removed = self.metadata.remove_group(property);
        match removed {
            Some(v) => detach_all(v),
            None => Vec::new(),
        }
    }

    /// Removes and returns every top-level entry, groups in order.
    pub fn drain(&mut self) -> (r: Vec<DetachedEpubMetaEntry>)
        ensures
            r@.len() == all_entries((*old(self).metadata).groups()).len(),
            forall|k: int|
                0 <= k < r@.len() ==> (#[trigger] r@[k]).spec_data() == all_entries(
                    (*old(self).metadata).groups(),
                )[k],
            (*final(self).metadata).groups().len() == 0,
            *final(self).package == *old(self).package,
            *final(final(self).metadata) == *final(old(self).metadata),
            *final(final(self).package) == *final(old(self).package),
    {
        let ghost all = self.metadata.groups();
        let mut out: Vec<DetachedEpubMetaEntry> = Vec::new();
        let ghost mut done: int = 0;
        assert(all.skip(0) =~= all);
        assert(all_entries(all.take(0)) =~= Seq::<EpubMetaEntryData>::empty());
        while self.metadata.group_count() > 0
            invariant
                0 <= done <= all.len(),
                self.metadata.groups() == all.skip(done),
                out@.len() == all_entries(all.take(done)).len(),
                forall|k: int|
                    0 <= k < out@.len() ==> (#[trigger] out@[k]).spec_data() == all_entries(
                        all.take(done),
                    )[k],
                *self.package == *old(self).package,
                *final(self.metadata) == *final(old(self).metadata),
                *final(self.package) == *final(old(self).package),
            decreases self.metadata.groups().len(),
        {
            let (_, group) = self.metadata.remove_first_group().unwrap();
            let ghost gs = group@;
            let ghost before = out@;
            let ghost prev = all_entries(all.take(done));
            proof {
                assert(gs == all[done].1);
                assert(all.take(done + 1).drop_last() =~= all.take(done));
                assert(all.take(done + 1).last() == all[done]);
                assert(all.skip(done + 1) =~= all.skip(done).drop_first());
            }
            let mut items = group;
            let ghost mut taken: int = 0;
            assert(gs.skip(0) =~= gs);
            while items.len() > 0
                invariant
                    0 <= taken <= gs.len(),
                    items@ == gs.skip(taken),
                    out@.len() == before.len() + taken,
                    before.len() == prev.len(),
                    forall|k: int| 0 <= k < before.len() ==> out@[k] == before[k],
                    forall|k: int| 0 <= k < taken ==> (#[trigger] out@[before.len() + k]).spec_data() == gs[k],
                decreases items.len(),
            {
                let x = items.remove(0);
                proof {
                    assert(x == gs[taken]);
                    assert(gs.skip(taken + 1) =~= gs.skip(taken).drop_first());
                    taken = taken + 1;
                }
                out.push(DetachedEpubMetaEntry::from_data(x));
            }
            proof {
                let next = all_entries(all.take(done + 1));
                assert(next =~= prev + gs);
                assert forall|k: int| 0 <= k < out@.len() implies (#[trigger] out@[k]).spec_data() == next[k] by {
                    if k < before.len() {
                        assert(out@[k] == before[k]);
                    } else {
                        assert(out@[before.len() + (k - before.len())] == out@[k]);
                    }
                }
                done = done + 1;
            }
        }
        proof {
            assert(all.skip(done).len() == 0);
            assert(all.take(done) =~= all);
        }
        out
    }

    /// Removes every top-level entry.
    pub fn clear(&mut self)
        ensures
            (*final(self).metadata).groups().len() == 0,
            *final(self).package == *old(self).package,
            *final(final(self).metadata) == *final(old(self).metadata),
            *final(final(self).package) == *final(old(self).package),
    {
        self.metadata.clear();
    }

    /// A read-only view over the metadata.
    pub fn as_view(&self) -> (r: EpubMetadata<'_>)
        ensures
            r.spec_groups() == (*old(self.metadata)).groups(),
            r.spec_package() == *old(self.package),
    {
        EpubMetadata::new(&*self.package, &*self.metadata)
    }
}

/// Detaches each entry, in order.
fn detach_all(v: Vec<EpubMetaEntryData>) -> (r: Vec<DetachedEpubMetaEntry>)
    ensures
        r@.len() == v@.len(),
        forall|k: int| 0 <= k < r@.len() ==> (#[trigger] r@[k]).spec_data() == v@[k],
{
    let mut items = v;
    let ghost all = items@;
    let mut out: Vec<DetachedEpubMetaEntry> = Vec::new();
    let ghost mut done: int = 0;
    assert(all.skip(0) =~= all);
    while items.len() > 0
        invariant
            0 <= done <= all.len(),
            items@ == all.skip(done),
            out@.len() == done,
            forall|k: int| 0 <= k < done ==> (#[trigger] out@[k]).spec_data() == all[k],
        decreases items.len(),
    {
        let x = items.remove(0);
        proof {
            assert(x == all[done]);
            assert(all.skip(done + 1) =~= all.skip(done).drop_first());
            done = done + 1;
        }
        out.push(DetachedEpubMetaEntry::from_data(x));
    }
    out
}

} // verus!
