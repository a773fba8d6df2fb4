//! The manifest: resources keyed by `id` in document order, held in an
//! `indexmap::IndexMap`, with lookups, unique names for new resources, and the
//! references between items.
use vstd::prelude::*;
use vstd::set_lib::{lemma_int_range, lemma_len_subset, lemma_map_size, set_int_range};
use indexmap::IndexMap;
use crate::element::{Attribute, Attributes, Href, Properties, insert_keyed, has_prop};
use crate::metawrite::DetachedEpubMetaEntry;
use crate::keyed::{lemma_select_push, select};
use crate::resource::{
    is_font_media_type, is_font_type, kind_matches, lemma_matches_one, kind_views, matches_any, matches_any_kind, ResourceKind, CSS,
    ECMASCRIPT, HTML, JAVASCRIPT, JAVASCRIPT_TEXT, XHTML,
};
use crate::overlay::{ArchiveOverlay, ResourceContent, lookup, content_of, relocated, spec_resource_key, resource_key};
use crate::uri;
use crate::metadata::{EpubRefinementsData, push_decimal_usize, spec_decimal, spec_digit};
use crate::text::{chars_of, opt_eq_str, opt_string_view, opt_as_str, rfind_char, str_eq, to_string, push_char, push_chars};
use crate::errors::EpubError;
use crate::groups::EpubMetadataData;
use crate::spine::{EpubSpineData, EpubSpineEntryData};
use crate::toc::{EpubTocData, roots_cascaded};

verus! {

broadcast use vstd::string::group_string_axioms;

/// One `<item>` of the manifest.
#[derive(Debug)]
pub struct EpubManifestEntryData {
    /// The resolved, absolute, percent-encoded location.
    pub href: String,
    /// The location as written.
    pub href_raw: String,
    pub media_type: String,
    /// The `id` of the item to use when this one cannot be rendered.
    pub fallback: Option<String>,
    /// The `id` of the media overlay of this item.
    pub media_overlay: Option<String>,
    pub properties: Properties,
    pub attributes: Attributes,
    pub refinements: EpubRefinementsData,
}

impl EpubManifestEntryData {
    /// An item with every field empty.
    pub fn empty() -> (r: Self)
        ensures
            r.href@.len() == 0 && r.href_raw@.len() == 0 && r.media_type@.len() == 0,
            r.fallback is None && r.media_overlay is None,
            r.properties@.len() == 0,
            r.attributes@.len() == 0,
            r.refinements.0@.len() == 0,
    {
        EpubManifestEntryData {
            href: String::new(),
            href_raw: String::new(),
            media_type: String::new(),
            fallback: None,
            media_overlay: None,
            properties: Properties::empty(),
            attributes: Attributes::empty(),
            refinements: EpubRefinementsData(Vec::new()),
        }
    }
}

/// The items held by a map: each `id` with its item, in map order.
pub uninterp spec fn manifest_entries(m: IndexMap<String, EpubManifestEntryData>) -> Seq<
    (Seq<char>, EpubManifestEntryData),
>;

/// Position of the item with `id`, or `-1`.
pub open spec fn id_pos(g: Seq<(Seq<char>, EpubManifestEntryData)>, id: Seq<char>) -> int
    decreases g.len(),
{
    if g.len() == 0 {
        -1
    } else if g[0].0 == id {
        0
    } else {
        let r = id_pos(g.drop_first(), id);
        if r < 0 {
            -1
        } else {
            r + 1
        }
    }
}

pub proof fn lemma_id_pos(g: Seq<(Seq<char>, EpubManifestEntryData)>, id: Seq<char>)
    ensures
        -1 <= id_pos(g, id) < g.len(),
        id_pos(g, id) >= 0 ==> g[id_pos(g, id)].0 == id,
        forall|j: int| 0 <= j < g.len() && (id_pos(g, id) < 0 || j < id_pos(g, id)) ==> g[j].0 != id,
    decreases g.len(),
{
    if g.len() > 0 && g[0].0 != id {
        lemma_id_pos(g.drop_first(), id);
        assert forall|j: int|
            0 <= j < g.len() && (id_pos(g, id) < 0 || j < id_pos(g, id)) implies g[j].0 != id by {
            if j > 0 {
                assert(g[j] == g.drop_first()[j - 1]);
            }
        }
    }
}

/// The ids of the items, in order.
pub open spec fn ids_of(g: Seq<(Seq<char>, EpubManifestEntryData)>) -> Seq<Seq<char>> {
    g.map_values(|x: (Seq<char>, EpubManifestEntryData)| x.0)
}

/// The locations of the items, in order.
pub open spec fn hrefs_of(g: Seq<(Seq<char>, EpubManifestEntryData)>) -> Seq<Seq<char>> {
    g.map_values(|x: (Seq<char>, EpubManifestEntryData)| x.1.href@)
}

/// An item other than the one at `index` has the `id` `id`.
pub open spec fn held_by_other(g: Seq<(Seq<char>, EpubManifestEntryData)>, index: int, id: Seq<char>) -> bool {
    exists|j: int| 0 <= j < g.len() && j != index && #[trigger] g[j].0 == id
}

/// No two items share an `id`.
pub open spec fn distinct_ids(g: Seq<(Seq<char>, EpubManifestEntryData)>) -> bool {
    forall|i: int, j: int| 0 <= i < j < g.len() ==> g[i].0 != g[j].0
}

/// `IndexMap::new`: an empty map.
#[verifier::external_body]
fn items_new() -> (r: IndexMap<String, EpubManifestEntryData>)
    ensures
        manifest_entries(r) == Seq::<(Seq<char>, EpubManifestEntryData)>::empty(),
{
    IndexMap::new()
}

/// `IndexMap::len`: the number of items.
#[verifier::external_body]
fn items_len(m: &IndexMap<String, EpubManifestEntryData>) -> (r: usize)
    ensures
        r == manifest_entries(*m).len(),
{
    m.len()
}

/// `IndexMap::get_index_of`: the position of the item with the given `id`. A map holds
/// each key once, so the position found is the first with that key.
#[verifier::external_body]
fn items_index_of(m: &IndexMap<String, EpubManifestEntryData>, id: &str) -> (r: Option<usize>)
    ensures
        match r {
            Some(i) => i as int == id_pos(manifest_entries(*m), id@),
            None => id_pos(manifest_entries(*m), id@) == -1,
        },
{
    m.get_index_of(id)
}

/// `IndexMap::get_index`: the `id` and item at `index`.
#[verifier::external_body]
fn items_get_index<'a>(m: &'a IndexMap<String, EpubManifestEntryData>, index: usize) -> (r: Option<
    (&'a String, &'a EpubManifestEntryData),
>)
    ensures
        match r {
            Some((k, v)) => index < manifest_entries(*m).len() && k@ == manifest_entries(
                *m,
            )[index as int].0 && *v == manifest_entries(*m)[index as int].1,
            None => index >= manifest_entries(*m).len(),
        },
{
    m.get_index(index)
}

/// `IndexMap::get_index_mut`: the item at `index`, for modification; its `id` stays.
#[verifier::external_body]
fn items_get_index_mut<'a>(m: &'a mut IndexMap<String, EpubManifestEntryData>, index: usize) -> (r:
    Option<&'a mut EpubManifestEntryData>)
    ensures
        match r {
            Some(v) => {
                let g = manifest_entries(*old(m));
                &&& index < g.len()
                &&& *v == g[index as int].1
                &&& manifest_entries(*final(m)) == g.update(index as int, (g[index as int].0, *final(v)))
            },
            None => index >= manifest_entries(*old(m)).len() && manifest_entries(*final(m))
                == manifest_entries(*old(m)),
        },
{
    m.get_index_mut(index).map(|(_, v)| v)
}

/// `IndexMap::insert`: replaces the item with the same `id` in place (returning it), or
/// appends.
#[verifier::external_body]
fn items_insert(
    m: &mut IndexMap<String, EpubManifestEntryData>,
    id: String,
    value: EpubManifestEntryData,
) -> (r: Option<EpubManifestEntryData>)
    ensures
        ({
            let g = manifest_entries(*old(m));
            let i = id_pos(g, id@);
            if i >= 0 {
                &&& r == Some(g[i].1)
                &&& manifest_entries(*final(m)) == g.update(i, (g[i].0, value))
            } else {
                &&& r is None
                &&& manifest_entries(*final(m)) == g.push((id@, value))
            }
        }),
{
    m.insert(id, value)
}

/// `IndexMap::shift_insert` of an `id` not yet present: inserts the item at `index`,
/// shifting the later ones.
#[verifier::external_body]
fn items_shift_insert(
    m: &mut IndexMap<String, EpubManifestEntryData>,
    index: usize,
    id: String,
    value: EpubManifestEntryData,
)
    requires
        index <= manifest_entries(*old(m)).len(),
        id_pos(manifest_entries(*old(m)), id@) == -1,
    ensures
        manifest_entries(*final(m)) == manifest_entries(*old(m)).insert(index as int, (id@, value)),
{
    m.shift_insert(index, id, value);
}

/// `IndexMap::shift_remove_index`: removes the item at `index`, keeping the order of the
/// others.
#[verifier::external_body]
fn items_shift_remove_index(m: &mut IndexMap<String, EpubManifestEntryData>, index: usize) -> (r:
    Option<(String, EpubManifestEntryData)>)
    ensures
        ({
            let g = manifest_entries(*old(m));
            if index < g.len() {
                &&& r matches Some((k, v)) && k@ == g[index as int].0 && v == g[index as int].1
                &&& manifest_entries(*final(m)) == g.remove(index as int)
            } else {
                &&& r is None
                &&& manifest_entries(*final(m)) == g
            }
        }),
{
    m.shift_remove_index(index)
}

/// `IndexMap::clear`: removes every item.
#[verifier::external_body]
fn items_clear(m: &mut IndexMap<String, EpubManifestEntryData>)
    ensures
        manifest_entries(*final(m)) == Seq::<(Seq<char>, EpubManifestEntryData)>::empty(),
{
    m.clear()
}

/// At most `keys.len()` distinct candidates can all be among `keys`.
pub proof fn lemma_candidates_bound(keys: Seq<Seq<char>>, cand: spec_fn(int) -> Seq<char>, k: int)
    requires
        k >= 0,
        forall|i: int, j: int| 0 <= i < k && 0 <= j < k && i != j ==> #[trigger] cand(i) != #[trigger] cand(j),
        forall|i: int| 0 <= i < k ==> keys.contains(#[trigger] cand(i)),
    ensures
        k <= keys.len(),
{
    let x = set_int_range(0, k);
    lemma_int_range(0, k);
    let y = x.map(cand);
    assert(vstd::relations::injective_on(cand, x)) by {
        assert forall|a: int, b: int| x.contains(a) && x.contains(b) && #[trigger] cand(a) == #[trigger] cand(b)
            implies a == b by {}
    }
    lemma_map_size(x, y, cand);
    let ks = keys.to_set();
    assert(y.subset_of(ks)) by {
        assert forall|v: Seq<char>| y.contains(v) implies ks.contains(v) by {
            let i = choose|i: int| x.contains(i) && cand(i) == v;
            assert(keys.contains(cand(i)));
        }
    }
    keys.lemma_cardinality_of_set();
    lemma_len_subset(y, ks);
}

/// `d` and `e` decimals are equal only for equal numbers.
pub proof fn lemma_decimal_injective(a: nat, b: nat)
    requires
        spec_decimal(a) == spec_decimal(b),
    ensures
        a == b,
    decreases a,
{
    lemma_decimal_len(a);
    lemma_decimal_len(b);
    if a < 10 && b < 10 {
        assert(spec_decimal(a)[0] == spec_decimal(b)[0]);
        assert(spec_digit(a) as int == a + 48);
        assert(spec_digit(b) as int == b + 48);
        assert(spec_decimal(a)[0] == spec_digit(a));
        assert(spec_decimal(b)[0] == spec_digit(b));
    } else if a >= 10 && b >= 10 {
        let da = spec_decimal(a);
        let db = spec_decimal(b);
        assert(da.drop_last() =~= spec_decimal(a / 10));
        assert(db.drop_last() =~= spec_decimal(b / 10));
        assert(da.last() == db.last());
        assert(da.last() == spec_digit(a % 10));
        assert(db.last() == spec_digit(b % 10));
        assert(spec_digit(a % 10) as int == a % 10 + 48);
        assert(spec_digit(b % 10) as int == b % 10 + 48);
        assert(a % 10 == b % 10);
        lemma_decimal_injective(a / 10, b / 10);
        assert(a / 10 == b / 10);
        assert(a == 10 * (a / 10) + a % 10) by (nonlinear_arith);
        assert(b == 10 * (b / 10) + b % 10) by (nonlinear_arith);
    }
}

pub proof fn lemma_decimal_len(n: nat)
    ensures
        spec_decimal(n).len() >= 1,
        n >= 10 ==> spec_decimal(n).len() >= 2,
        n < 10 ==> spec_decimal(n).len() == 1,
    decreases n,
{
    if n >= 10 {
        lemma_decimal_len(n / 10);
    }
}

/// The `k`-th candidate for a fresh `id`: the `id` itself, then `id-1`, `id-2`, ...
pub open spec fn id_candidate(base: Seq<char>, k: int) -> Seq<char> {
    if k <= 0 {
        base
    } else {
        base + seq!['-'] + spec_decimal(k as nat)
    }
}

/// The `k`-th candidate for a fresh location: the location itself, then with `1`, `2`,
/// ... inserted before the extension (at `ext`).
pub open spec fn href_candidate(base: Seq<char>, ext: int, k: int) -> Seq<char> {
    if k <= 0 {
        base
    } else {
        base.take(ext) + spec_decimal(k as nat) + base.skip(ext)
    }
}

/// Where a counter goes in a location: before its last `.`, else at its end.
pub open spec fn ext_pos(href: Seq<char>) -> int {
    let j = crate::text::last_index_of(href, '.');
    if j < 0 {
        href.len() as int
    } else {
        j
    }
}

proof fn lemma_id_candidates_distinct(base: Seq<char>, i: int, j: int)
    requires
        0 <= i,
        0 <= j,
        i != j,
    ensures
        id_candidate(base, i) != id_candidate(base, j),
{
    if i > 0 && j > 0 {
        let ci = id_candidate(base, i);
        let cj = id_candidate(base, j);
        if ci == cj {
            assert(ci.skip(base.len() as int + 1) =~= spec_decimal(i as nat));
            assert(cj.skip(base.len() as int + 1) =~= spec_decimal(j as nat));
            lemma_decimal_injective(i as nat, j as nat);
        }
    } else if i > 0 {
        lemma_decimal_len(i as nat);
        assert(id_candidate(base, i).len() > base.len());
    } else {
        lemma_decimal_len(j as nat);
        assert(id_candidate(base, j).len() > base.len());
    }
}

proof fn lemma_href_candidates_distinct(base: Seq<char>, ext: int, i: int, j: int)
    requires
        0 <= ext <= base.len(),
        0 <= i,
        0 <= j,
        i != j,
    ensures
        href_candidate(base, ext, i) != href_candidate(base, ext, j),
{
    if i > 0 && j > 0 {
        let ci = href_candidate(base, ext, i);
        let cj = href_candidate(base, ext, j);
        if ci == cj {
            lemma_decimal_len(i as nat);
            lemma_decimal_len(j as nat);
            let li = spec_decimal(i as nat).len();
            let lj = spec_decimal(j as nat).len();
            assert(ci.len() == base.len() + li);
            assert(ci.subrange(ext, ext + li) =~= spec_decimal(i as nat));
            assert(cj.subrange(ext, ext + lj) =~= spec_decimal(j as nat));
            lemma_decimal_injective(i as nat, j as nat);
        }
    } else if i > 0 {
        lemma_decimal_len(i as nat);
        assert(href_candidate(base, ext, i).len() > base.len());
    } else {
        lemma_decimal_len(j as nat);
        assert(href_candidate(base, ext, j).len() > base.len());
    }
}


/// A reference kept only when it names an existing `id`.
pub open spec fn checked_ref(r: Option<String>, ids: Seq<Seq<char>>) -> Option<String> {
    match r {
        Some(f) => if ids.contains(f@) {
            Some(f)
        } else {
            None
        },
        None => None,
    }
}

/// `after` is `before` with every fallback and media overlay that names no item dropped.
pub open spec fn references_checked(
    before: Seq<(Seq<char>, EpubManifestEntryData)>,
    after: Seq<(Seq<char>, EpubManifestEntryData)>,
) -> bool {
    &&& after.len() == before.len()
    &&& forall|i: int|
        0 <= i < before.len() ==> (#[trigger] after[i]).0 == before[i].0 && after[i].1 == (
        EpubManifestEntryData {
            fallback: checked_ref(before[i].1.fallback, ids_of(before)),
            media_overlay: checked_ref(before[i].1.media_overlay, ids_of(before)),
            ..before[i].1
        })
}


/// `after` is the reference `before`, pointed at `new` when it named `old`.
pub open spec fn ref_renamed(
    before: Option<String>,
    after: Option<String>,
    old: Seq<char>,
    new: Seq<char>,
) -> bool {
    match before {
        Some(x) => if x@ == old {
            opt_string_view(after) == Some(new)
        } else {
            after == before
        },
        None => after is None,
    }
}

/// `after` is `before` with every fallback and media overlay naming `old` pointed at
/// `new`.
pub open spec fn items_renamed(
    before: Seq<(Seq<char>, EpubManifestEntryData)>,
    after: Seq<(Seq<char>, EpubManifestEntryData)>,
    old: Seq<char>,
    new: Seq<char>,
) -> bool {
    &&& after.len() == before.len()
    &&& forall|i: int|
        0 <= i < before.len() ==> {
            &&& (#[trigger] after[i]).0 == before[i].0
            &&& ref_renamed(before[i].1.fallback, after[i].1.fallback, old, new)
            &&& ref_renamed(before[i].1.media_overlay, after[i].1.media_overlay, old, new)
            &&& after[i].1 == (EpubManifestEntryData {
                fallback: after[i].1.fallback,
                media_overlay: after[i].1.media_overlay,
                ..before[i].1
            })
        }
}

/// `after` is the spine `before` with every entry referring to `old` referring to `new`.
pub open spec fn spine_renamed(
    before: Seq<EpubSpineEntryData>,
    after: Seq<EpubSpineEntryData>,
    old: Seq<char>,
    new: Seq<char>,
) -> bool {
    &&& after.len() == before.len()
    &&& forall|i: int|
        0 <= i < before.len() ==> {
            &&& (#[trigger] after[i]).idref@ == if before[i].idref@ == old {
                new
            } else {
                before[i].idref@
            }
            &&& after[i] == (EpubSpineEntryData { idref: after[i].idref, ..before[i] })
        }
}

fn rename_ref(r: &mut Option<String>, old_id: &str, new_id: &str)
    ensures
        ref_renamed(*old(r), *final(r), old_id@, new_id@),
{
    if opt_eq_str(r, old_id) {
        *r = Some(to_string(new_id));
    }
}

/// Points every spine entry that refers to `old_id` at `new_id`.
pub fn rename_spine_idrefs(spine: &mut EpubSpineData, old_id: &str, new_id: &str)
    ensures
        spine_renamed(old(spine).entries@, final(spine).entries@, old_id@, new_id@),
        final(spine).page_direction == old(spine).page_direction,
{
    let ghost before = spine.entries@;
    let n = spine.entries.len();
    let mut i: usize = 0;
    while i < n
        invariant
            n == before.len(),
            i <= n,
            spine.entries@.len() == n,
            spine.page_direction == old(spine).page_direction,
            before == old(spine).entries@,
            forall|j: int|
                0 <= j < i ==> {
                    &&& (#[trigger] spine.entries@[j]).idref@ == if before[j].idref@ == old_id@ {
                        new_id@
                    } else {
                        before[j].idref@
                    }
                    &&& spine.entries@[j] == (EpubSpineEntryData { idref: spine.entries@[j].idref, ..before[j] })
                },
            forall|j: int| i <= j < n ==> #[trigger] spine.entries@[j] == before[j],
        decreases n - i,
    {
        if str_eq(spine.entries[i].idref.as_str(), old_id) {
            spine.entries[i].idref = to_string(new_id);
        }
        i = i + 1;
    }
}

/// The items of a publication, keyed by `id`.
#[derive(Debug)]
pub struct EpubManifestData {
    entries: IndexMap<String, EpubManifestEntryData>,
}

impl EpubManifestData {
    #[verifier::type_invariant]
    spec fn inv(&self) -> bool {
        distinct_ids(manifest_entries(self.entries))
    }

    /// The items, in order.
    pub closed spec fn items(&self) -> Seq<(Seq<char>, EpubManifestEntryData)> {
        manifest_entries(self.entries)
    }

    /// No items.
    pub fn empty() -> (r: Self)
        ensures
            r.items().len() == 0,
    {
        EpubManifestData { entries: items_new() }
    }

    /// The number of items.
    pub fn len(&self) -> (r: usize)
        ensures
            r == self.items().len(),
    {
        items_len(&self.entries)
    }

    /// The position of the item with the given `id`.
    pub fn index_of(&self, id: &str) -> (r: Option<usize>)
        ensures
            match r {
                Some(i) => i as int == id_pos(self.items(), id@) && i < self.items().len(),
                None => id_pos(self.items(), id@) == -1,
            },
    {
        proof {
            lemma_id_pos(self.items(), id@);
        }
        items_index_of(&self.entries, id)
    }

    /// The `id` and item at `index`.
    pub fn get_index(&self, index: usize) -> (r: Option<(&String, &EpubManifestEntryData)>)
        ensures
            match r {
                Some((k, v)) => index < self.items().len() && k@ == self.items()[index as int].0
                    && *v == self.items()[index as int].1,
                None => index >= self.items().len(),
            },
    {
        items_get_index(&self.entries, index)
    }

    /// The item with the given `id`, with its `id`.
    pub fn by_id(&self, id: &str) -> (r: Option<(&String, &EpubManifestEntryData)>)
        ensures
            match r {
                Some((k, v)) => {
                    let i = id_pos(self.items(), id@);
                    &&& i >= 0
                    &&& k@ == id@
                    &&& *v == self.items()[i].1
                },
                None => id_pos(self.items(), id@) == -1,
            },
    {
        proof {
            lemma_id_pos(self.items(), id@);
        }
        match self.index_of(id) {
            Some(i) => self.get_index(i),
            None => None,
        }
    }

    /// Whether an item other than the one at `index` has the given `id`.
    pub fn held_by_other(&self, index: usize, id: &str) -> (r: bool)
        ensures
            r == held_by_other(self.items(), index as int, id@),
    {
        proof {
            use_type_invariant(&*self);
            lemma_id_pos(self.items(), id@);
        }
        match self.index_of(id) {
            Some(p) => {
                if p == index {
                    proof {
                        let g = self.items();
                        if held_by_other(g, index as int, id@) {
                            let j = choose|j: int| 0 <= j < g.len() && j != index && #[trigger] g[j].0 == id@;
                            if j < index {
                                assert(g[j].0 != id@);
                            } else {
                                assert(g[index as int].0 != g[j].0);
                            }
                        }
                    }
                    false
                } else {
                    true
                }
            },
            None => false,
        }
    }

    /// Whether some item has the given `id`.
    pub fn contains_id(&self, id: &str) -> (r: bool)
        ensures
            r == ids_of(self.items()).contains(id@),
    {
        proof {
            lemma_id_pos(self.items(), id@);
            let g = self.items();
            if ids_of(g).contains(id@) {
                let j = choose|j: int| 0 <= j < ids_of(g).len() && ids_of(g)[j] == id@;
                assert(g[j].0 == id@);
            }
            if id_pos(g, id@) >= 0 {
                assert(ids_of(g)[id_pos(g, id@)] == id@);
            }
        }
        self.index_of(id).is_some()
    }

    /// Whether some item is at the given location.
    pub fn contains_href(&self, href: &str) -> (r: bool)
        ensures
            r == hrefs_of(self.items()).contains(href@),
    {
        let n = self.len();
        let mut i: usize = 0;
        while i < n
            invariant
                n == self.items().len(),
                i <= n,
                forall|j: int| 0 <= j < i ==> self.items()[j].1.href@ != href@,
            decreases n - i,
        {
            let (_, data) = self.get_index(i).unwrap();
            if str_eq(data.href.as_str(), href) {
                proof {
                    assert(hrefs_of(self.items())[i as int] == href@);
                }
                return true;
            }
            i = i + 1;
        }
        proof {
            let g = self.items();
            if hrefs_of(g).contains(href@) {
                let j = choose|j: int| 0 <= j < hrefs_of(g).len() && hrefs_of(g)[j] == href@;
                assert(g[j].1.href@ == href@);
            }
        }
        false
    }

    /// The first item whose location, resolved or as written, is `href`.
    pub fn by_href(&self, href: &str) -> (r: Option<(&String, &EpubManifestEntryData)>)
        ensures
            match r {
                Some((k, v)) => exists|i: int|
                    0 <= i < self.items().len() && k@ == self.items()[i].0 && *v == self.items()[i].1
                        && (v.href@ == href@ || v.href_raw@ == href@) && forall|j: int|
                        0 <= j < i ==> self.items()[j].1.href@ != href@ && self.items()[j].1.href_raw@
                            != href@,
                None => forall|j: int|
                    0 <= j < self.items().len() ==> self.items()[j].1.href@ != href@
                        && self.items()[j].1.href_raw@ != href@,
            },
    {
        let n = self.len();
        let mut i: usize = 0;
        while i < n
            invariant
                n == self.items().len(),
                i <= n,
                forall|j: int|
                    0 <= j < i ==> self.items()[j].1.href@ != href@ && self.items()[j].1.href_raw@
                        != href@,
            decreases n - i,
        {
            let (k, data) = self.get_index(i).unwrap();
            if str_eq(data.href.as_str(), href) || str_eq(data.href_raw.as_str(), href) {
                return Some((k, data));
            }
            i = i + 1;
        }
        None
    }


    /// Moves the items out, leaving none.
    fn take_entries(&mut self) -> (r: IndexMap<String, EpubManifestEntryData>)
        ensures
            manifest_entries(r) == old(self).items(),
            final(self).items().len() == 0,
    {
        let mut m = items_new();
        std::mem::swap(&mut m, &mut self.entries);
        m
    }

    fn ref_exists(&self, r: &Option<String>) -> (b: bool)
        ensures
            b == (checked_ref(*r, ids_of(self.items())) == *r),
    {
        match r {
            Some(f) => self.contains_id(f.as_str()),
            None => true,
        }
    }

    /// Drops every fallback and media overlay that names no item.
    pub fn remove_non_existent_references(&mut self)
        ensures
            references_checked(old(self).items(), final(self).items()),
    {
        let ghost before = self.items();
        let n = self.len();
        let mut i: usize = 0;
        while i < n
            invariant
                n == before.len(),
                i <= n,
                self.items().len() == n,
                ids_of(self.items()) == ids_of(before),
                forall|j: int| 0 <= j < n ==> (#[trigger] self.items()[j]).0 == before[j].0,
                forall|j: int|
                    0 <= j < i ==> (#[trigger] self.items()[j]).1 == (EpubManifestEntryData {
                        fallback: checked_ref(before[j].1.fallback, ids_of(before)),
                        media_overlay: checked_ref(before[j].1.media_overlay, ids_of(before)),
                        ..before[j].1
                    }),
                forall|j: int| i <= j < n ==> (#[trigger] self.items()[j]).1 == before[j].1,
            decreases n - i,
        {
            let (_, data) = self.get_index(i).unwrap();
            let keep_fallback = self.ref_exists(&data.fallback);
            let keep_overlay = self.ref_exists(&data.media_overlay);
            let ghost mid = self.items();
            proof {
                use_type_invariant(&*self);
            }
            let mut m = self.take_entries();
            let entry = items_get_index_mut(&mut m, i).unwrap();
            if !keep_fallback {
                entry.fallback = None;
            }
            if !keep_overlay {
                entry.media_overlay = None;
            }
            proof {
                assert(ids_of(manifest_entries(m)) =~= ids_of(mid));
            }
            self.entries = m;
            proof {
                assert forall|j: int| 0 <= j < n implies (#[trigger] self.items()[j]).0 == before[j].0 by {
                    assert(self.items()[j].0 == mid[j].0);
                }
            }
            i = i + 1;
        }
        proof {
            assert(ids_of(before) =~= ids_of(old(self).items()));
        }
    }


    /// Points every fallback and media overlay naming `old_id` at `new_id`.
    pub fn rename_references(&mut self, old_id: &str, new_id: &str)
        ensures
            items_renamed(old(self).items(), final(self).items(), old_id@, new_id@),
    {
        let ghost before = self.items();
        let n = self.len();
        let mut i: usize = 0;
        while i < n
            invariant
                n == before.len(),
                before == old(self).items(),
                i <= n,
                self.items().len() == n,
                forall|j: int| 0 <= j < n ==> (#[trigger] self.items()[j]).0 == before[j].0,
                forall|j: int|
                    0 <= j < i ==> {
                        &&& ref_renamed(before[j].1.fallback, (#[trigger] self.items()[j]).1.fallback, old_id@, new_id@)
                        &&& ref_renamed(before[j].1.media_overlay, self.items()[j].1.media_overlay, old_id@, new_id@)
                        &&& self.items()[j].1 == (EpubManifestEntryData {
                            fallback: self.items()[j].1.fallback,
                            media_overlay: self.items()[j].1.media_overlay,
                            ..before[j].1
                        })
                    },
                forall|j: int| i <= j < n ==> (#[trigger] self.items()[j]).1 == before[j].1,
            decreases n - i,
        {
            let ghost mid = self.items();
            proof {
                use_type_invariant(&*self);
            }
            let mut m = self.take_entries();
            let entry = items_get_index_mut(&mut m, i).unwrap();
            rename_ref(&mut entry.fallback, old_id, new_id);
            rename_ref(&mut entry.media_overlay, old_id, new_id);
            proof {
                let h = manifest_entries(m);
                assert forall|a: int, b: int| 0 <= a < b < h.len() implies h[a].0 != h[b].0 by {
                    assert(h[a].0 == mid[a].0);
                    assert(h[b].0 == mid[b].0);
                }
            }
            self.entries = m;
            proof {
                assert forall|j: int| 0 <= j < n implies (#[trigger] self.items()[j]).0 == before[j].0 by {
                    assert(self.items()[j].0 == mid[j].0);
                }
            }
            i = i + 1;
        }
    }

    /// Removes the item at `index`, keeping the order of the others.
    pub(crate) fn remove_index(&mut self, index: usize) -> (r: (String, EpubManifestEntryData))
        requires
            index < old(self).items().len(),
        ensures
            r.0@ == old(self).items()[index as int].0,
            r.1 == old(self).items()[index as int].1,
            final(self).items() == old(self).items().remove(index as int),
    {
        proof {
            use_type_invariant(&*self);
            let g = self.items();
            let h = g.remove(index as int);
            assert forall|a: int, b: int| 0 <= a < b < h.len() implies h[a].0 != h[b].0 by {
                let a2 = if a < index { a } else { a + 1 };
                let b2 = if b < index { b } else { b + 1 };
                assert(h[a] == g[a2]);
                assert(h[b] == g[b2]);
            }
        }
        let mut m = self.take_entries();
        let r = items_shift_remove_index(&mut m, index).unwrap();
        self.entries = m;
        r
    }

    /// Replaces the data of the item at `index`, keeping its `id`; returns the previous
    /// data.
    fn update_at(&mut self, index: usize, data: EpubManifestEntryData) -> (r: EpubManifestEntryData)
        requires
            index < old(self).items().len(),
        ensures
            r == old(self).items()[index as int].1,
            final(self).items() == old(self).items().update(index as int, (old(self).items()[index as int].0, data)),
    {
        proof {
            use_type_invariant(&*self);
        }
        let mut m = self.take_entries();
        let ghost g = manifest_entries(m);
        let slot = items_get_index_mut(&mut m, index).unwrap();
        let previous = crate::keyed::replace(slot, data);
        proof {
            let h = manifest_entries(m);
            assert forall|a: int, b: int| 0 <= a < b < h.len() implies h[a].0 != h[b].0 by {
                assert(h[a].0 == g[a].0 && h[b].0 == g[b].0);
            }
        }
        self.entries = m;
        previous
    }

    /// Inserts an item with an unused `id` at `index`, shifting the later ones.
    fn insert_at(&mut self, index: usize, id: String, data: EpubManifestEntryData)
        requires
            index <= old(self).items().len(),
            id_pos(old(self).items(), id@) == -1,
        ensures
            final(self).items() == old(self).items().insert(index as int, (id@, data)),
    {
        proof {
            use_type_invariant(&*self);
            let g = self.items();
            lemma_id_pos(g, id@);
            let h = g.insert(index as int, (id@, data));
            assert forall|a: int, b: int| 0 <= a < b < h.len() implies h[a].0 != h[b].0 by {
                if a == index {
                    let b2 = if b < index { b } else { b - 1 };
                    assert(h[b] == g[b2]);
                } else if b == index {
                    let a2 = if a < index { a } else { a - 1 };
                    assert(h[a] == g[a2]);
                } else {
                    let a2 = if a < index { a } else { a - 1 };
                    let b2 = if b < index { b } else { b - 1 };
                    assert(h[a] == g[a2]);
                    assert(h[b] == g[b2]);
                }
            }
        }
        let mut m = self.take_entries();
        items_shift_insert(&mut m, index, id, data);
        self.entries = m;
    }


    /// Inserts an item, replacing (and returning) the item with the same `id` in
    /// place, else appending.
    pub fn insert_item(&mut self, id: String, data: EpubManifestEntryData) -> (r: Option<EpubManifestEntryData>)
        ensures
            ({
                let g = old(self).items();
                let i = id_pos(g, id@);
                if i >= 0 {
                    &&& r == Some(g[i].1)
                    &&& final(self).items() == g.update(i, (g[i].0, data))
                } else {
                    &&& r is None
                    &&& final(self).items() == g.push((id@, data))
                }
            }),
    {
        proof {
            use_type_invariant(&*self);
            let g = self.items();
            lemma_id_pos(g, id@);
            let i = id_pos(g, id@);
            if i >= 0 {
                let h = g.update(i, (g[i].0, data));
                assert forall|a: int, b: int| 0 <= a < b < h.len() implies h[a].0 != h[b].0 by {
                    assert(h[a].0 == g[a].0);
                    assert(h[b].0 == g[b].0);
                }
            } else {
                let h = g.push((id@, data));
                assert forall|a: int, b: int| 0 <= a < b < h.len() implies h[a].0 != h[b].0 by {
                    if b < g.len() {
                        assert(h[a] == g[a]);
                        assert(h[b] == g[b]);
                    } else {
                        assert(h[a] == g[a]);
                    }
                }
            }
        }
        let mut m = self.take_entries();
        let r = items_insert(&mut m, id, data);
        self.entries = m;
        r
    }

    /// Removes and returns the item with the given `id`.
    pub fn remove_item(&mut self, id: &str) -> (r: Option<(String, EpubManifestEntryData)>)
        ensures
            ({
                let g = old(self).items();
                let i = id_pos(g, id@);
                if i >= 0 {
                    &&& r matches Some((k, v)) && k@ == g[i].0 && v == g[i].1
                    &&& final(self).items() == g.remove(i)
                } else {
                    &&& r is None
                    &&& final(self).items() == g
                }
            }),
    {
        match self.index_of(id) {
            Some(i) => Some(self.remove_index(i)),
            None => None,
        }
    }

    /// Removes every item.
    pub fn clear(&mut self)
        ensures
            final(self).items().len() == 0,
    {
        let mut m = self.take_entries();
        items_clear(&mut m);
        self.entries = m;
    }

    /// A fresh `id`: `id` itself when unused, else the first unused of `id-1`, `id-2`, ...
    pub fn generate_unique_id(&self, id: &str) -> (r: String)
        ensures
            exists|m: int|
                #![trigger id_candidate(id@, m)]
                0 <= m && r@ == id_candidate(id@, m) && !ids_of(self.items()).contains(
                    id_candidate(id@, m),
                ) && forall|j: int|
                    0 <= j < m ==> ids_of(self.items()).contains(#[trigger] id_candidate(id@, j)),
    {
        let ghost keys = ids_of(self.items());
        let total = self.len();
        let ghost cand = |k: int| id_candidate(id@, k);
        let mut current = to_string(id);
        let mut count: usize = 0;
        assert(current@ == id_candidate(id@, 0));
        while self.contains_id(current.as_str())
            invariant
                keys == ids_of(self.items()),
                keys.len() == total,
                cand == (|k: int| id_candidate(id@, k)),
                current@ == id_candidate(id@, count as int),
                forall|j: int| 0 <= j < count ==> keys.contains(#[trigger] id_candidate(id@, j)),
                count <= keys.len(),
            decreases keys.len() - count,
        {
            proof {
                assert forall|a: int, b: int| 0 <= a < count + 1 && 0 <= b < count + 1 && a != b implies #[trigger] cand(
                    a,
                ) != #[trigger] cand(b) by {
                    lemma_id_candidates_distinct(id@, a, b);
                }
                assert forall|a: int| 0 <= a < count + 1 implies keys.contains(#[trigger] cand(a)) by {
                    if a < count {
                        assert(keys.contains(id_candidate(id@, a)));
                    }
                }
                lemma_candidates_bound(keys, cand, count + 1);
            }
            count = count + 1;
            let mut next = to_string(id);
            push_char(&mut next, '-');
            push_decimal_usize(&mut next, count);
            current = next;
            assert(current@ =~= id_candidate(id@, count as int));
        }
        current
    }

    /// A fresh location: `href` itself when no item is there, else the first free of
    /// `href` with `1`, `2`, ... inserted before its extension.
    pub fn generate_unique_href(&self, href: &str) -> (r: String)
        ensures
            exists|m: int|
                #![trigger href_candidate(href@, ext_pos(href@), m)]
                0 <= m && r@ == href_candidate(href@, ext_pos(href@), m) && !hrefs_of(self.items()).contains(
                    href_candidate(href@, ext_pos(href@), m),
                ) && forall|j: int|
                    0 <= j < m ==> hrefs_of(self.items()).contains(
                        #[trigger] href_candidate(href@, ext_pos(href@), j),
                    ),
    {
        let ghost keys = hrefs_of(self.items());
        let total = self.len();
        let v = chars_of(href);
        let ext: usize = match rfind_char(&v, '.') {
            Some(j) => j,
            None => v.len(),
        };
        proof {
            crate::text::lemma_last_index_of(href@, '.');
        }
        assert(ext as int == ext_pos(href@));
        let ghost cand = |k: int| href_candidate(href@, ext as int, k);
        let head = href.substring_char(0, ext);
        let n = v.len();
        let tail = href.substring_char(ext, n);
        let mut current = to_string(href);
        let mut count: usize = 0;
        assert(current@ == href_candidate(href@, ext as int, 0));
        while self.contains_href(current.as_str())
            invariant
                keys == hrefs_of(self.items()),
                keys.len() == total,
                cand == (|k: int| href_candidate(href@, ext as int, k)),
                ext <= href@.len(),
                head@ == href@.take(ext as int),
                tail@ == href@.skip(ext as int),
                current@ == href_candidate(href@, ext as int, count as int),
                forall|j: int| 0 <= j < count ==> keys.contains(#[trigger] href_candidate(href@, ext as int, j)),
                count <= keys.len(),
            decreases keys.len() - count,
        {
            proof {
                assert forall|a: int, b: int| 0 <= a < count + 1 && 0 <= b < count + 1 && a != b implies #[trigger] cand(
                    a,
                ) != #[trigger] cand(b) by {
                    lemma_href_candidates_distinct(href@, ext as int, a, b);
                }
                assert forall|a: int| 0 <= a < count + 1 implies keys.contains(#[trigger] cand(a)) by {
                    if a < count {
                        assert(keys.contains(href_candidate(href@, ext as int, a)));
                    }
                }
                lemma_candidates_bound(keys, cand, count + 1);
            }
            count = count + 1;
            let mut next = to_string(head);
            push_decimal_usize(&mut next, count);
            push_chars(&mut next, tail);
            current = next;
            assert(current@ =~= href_candidate(href@, ext as int, count as int));
        }
        current
    }
}


/// Follows an `id` change through the references that name it: fallbacks and media
/// overlays, spine entries, and the EPUB 2 cover entry that names `old_id`.
pub fn cascade_new_id(
    manifest: &mut EpubManifestData,
    spine: &mut EpubSpineData,
    metadata: &mut EpubMetadataData,
    old_id: &str,
    new_id: &str,
)
    ensures
        items_renamed(old(manifest).items(), final(manifest).items(), old_id@, new_id@),
        spine_renamed(old(spine).entries@, final(spine).entries@, old_id@, new_id@),
        final(spine).page_direction == old(spine).page_direction,
        ({
            let g = old(metadata).groups();
            let i = crate::groups::group_pos(g, crate::consts::COVER@);
            if i >= 0 && g[i].1.len() > 0 && g[i].1[0].value@ == old_id@ {
                &&& final(metadata).groups().len() == g.len()
                &&& forall|j: int| 0 <= j < g.len() && j != i ==> final(metadata).groups()[j] == g[j]
                &&& final(metadata).groups()[i].0 == g[i].0
                &&& final(metadata).groups()[i].1.len() == g[i].1.len()
                &&& forall|k: int| 0 < k < g[i].1.len() ==> final(metadata).groups()[i].1[k] == g[i].1[k]
                &&& final(metadata).groups()[i].1[0].value@ == new_id@
                &&& final(metadata).groups()[i].1[0] == (crate::metadata::EpubMetaEntryData {
                    value: final(metadata).groups()[i].1[0].value,
                    ..g[i].1[0]
                })
            } else {
                final(metadata).groups() == g
            }
        }),
{
    manifest.rename_references(old_id, new_id);
    rename_spine_idrefs(spine, old_id, new_id);
    metadata.rename_cover(old_id, new_id);
}

/// The item at `index` of `g` has the `id` `new_id` in `g2`, in the same position and
/// with the same data; with `cascade` the references to its old `id` follow in the
/// other items and the spine (see [`cascade_new_id`]), else nothing else changed.
pub open spec fn id_updated(
    g: Seq<(Seq<char>, EpubManifestEntryData)>,
    g2: Seq<(Seq<char>, EpubManifestEntryData)>,
    s: Seq<EpubSpineEntryData>,
    s2: Seq<EpubSpineEntryData>,
    m: Seq<(Seq<char>, Seq<crate::metadata::EpubMetaEntryData>)>,
    m2: Seq<(Seq<char>, Seq<crate::metadata::EpubMetaEntryData>)>,
    index: int,
    new_id: Seq<char>,
    cascade: bool,
) -> bool {
    let rest = g.remove(index);
    &&& g2.len() == g.len()
    &&& g2[index].0 == new_id
    &&& g2[index].1 == g[index].1
    &&& if cascade {
        items_renamed(rest, g2.remove(index), g[index].0, new_id) && spine_renamed(s, s2, g[index].0, new_id)
    } else {
        g2.remove(index) == rest && s2 == s && m2 == m
    }
}

/// Gives the item at `index` the `id` `new_id`, keeping its position; with `cascade`,
/// the references to the old `id` follow (see [`cascade_new_id`]). Refused when
/// another item already has `new_id`. Returns the previous `id`.
pub fn update_entry_id(
    manifest: &mut EpubManifestData,
    spine: &mut EpubSpineData,
    metadata: &mut EpubMetadataData,
    index: usize,
    new_id: String,
    cascade: bool,
) -> (r: Result<String, EpubError>)
    requires
        index < old(manifest).items().len(),
    ensures
        held_by_other(old(manifest).items(), index as int, new_id@) ==> {
            &&& r matches Err(EpubError::DuplicateItemId(e)) && e@ == new_id@
            &&& final(manifest).items() == old(manifest).items()
            &&& final(spine).entries@ == old(spine).entries@
            &&& final(metadata).groups() == old(metadata).groups()
        },
        !held_by_other(old(manifest).items(), index as int, new_id@) ==> {
            &&& r matches Ok(o) && o@ == old(manifest).items()[index as int].0
            &&& id_updated(
                old(manifest).items(),
                final(manifest).items(),
                old(spine).entries@,
                final(spine).entries@,
                old(metadata).groups(),
                final(metadata).groups(),
                index as int,
                new_id@,
                cascade,
            )
        },
{
    if manifest.held_by_other(index, new_id.as_str()) {
        return Err(EpubError::DuplicateItemId(new_id));
    }
    let (old_id, data) = manifest.remove_index(index);
    proof {
        let g = old(manifest).items();
        lemma_id_pos(manifest.items(), new_id@);
        if id_pos(manifest.items(), new_id@) >= 0 {
            let p = id_pos(manifest.items(), new_id@);
            let q = if p < index { p } else { p + 1 };
            assert(manifest.items()[p] == g[q]);
            assert(ids_of(g)[q] == new_id@);
        }
    }
    if cascade {
        cascade_new_id(manifest, spine, metadata, old_id.as_str(), new_id.as_str());
    }
    proof {
        lemma_id_pos(manifest.items(), new_id@);
        if id_pos(manifest.items(), new_id@) >= 0 {
            let p = id_pos(manifest.items(), new_id@);
            assert(manifest.items()[p].0 == new_id@);
        }
    }
    let ghost mid = manifest.items();
    manifest.insert_at(index, new_id, data);
    proof {
        assert(manifest.items().remove(index as int) =~= mid);
    }
    Ok(old_id)
}


// ---------------------------------------------------------------------------
// Editing
// ---------------------------------------------------------------------------

/// A new `id` for an item, and whether references to the old one follow it.
#[derive(Debug)]
pub struct IdOptions {
    pub id: String,
    pub cascade: bool,
}

impl IdOptions {
    /// The given `id`; references follow it.
    pub fn new(id: String) -> (r: Self)
        ensures
            r.id == id,
            r.cascade,
    {
        IdOptions { id, cascade: true }
    }

    /// Whether references to the old `id` follow the new one.
    pub fn cascade(self, cascade: bool) -> (r: Self)
        ensures
            r.id == self.id,
            r.cascade == cascade,
    {
        IdOptions { id: self.id, cascade }
    }
}

/// A new location for an item, and whether the tables of contents follow it.
#[derive(Debug)]
pub struct HrefOptions {
    pub href: String,
    pub cascade: bool,
}

impl HrefOptions {
    /// The given location; the tables of contents follow it.
    pub fn new(href: String) -> (r: Self)
        ensures
            r.href == href,
            r.cascade,
    {
        HrefOptions { href, cascade: true }
    }

    /// Whether the tables of contents follow the new location.
    pub fn cascade(self, cascade: bool) -> (r: Self)
        ensures
            r.href == self.href,
            r.cascade == cascade,
    {
        HrefOptions { href: self.href, cascade }
    }
}

/// A manifest item that belongs to no publication yet, with the content to store.
#[derive(Debug)]
pub struct DetachedEpubManifestEntry {
    id: String,
    data: EpubManifestEntryData,
    content: Option<ResourceContent>,
}

impl DetachedEpubManifestEntry {
    pub closed spec fn spec_id(&self) -> Seq<char> {
        self.id@
    }

    pub closed spec fn spec_data(&self) -> EpubManifestEntryData {
        self.data
    }

    pub closed spec fn spec_content(&self) -> Option<ResourceContent> {
        self.content
    }

    /// An item with the given `id` and nothing else.
    pub fn new(id: &str) -> (r: Self)
        ensures
            r.spec_id() == id@,
            r.spec_content() is None,
            r.spec_data().href@.len() == 0 && r.spec_data().href_raw@.len() == 0,
            r.spec_data().media_type@.len() == 0,
            r.spec_data().fallback is None && r.spec_data().media_overlay is None,
            r.spec_data().properties@.len() == 0,
            r.spec_data().attributes@.len() == 0,
            r.spec_data().refinements.0@.len() == 0,
    {
        DetachedEpubManifestEntry { id: to_string(id), data: EpubManifestEntryData::empty(), content: None }
    }

    /// The parts of the item: `id`, data and content.
    pub fn into_parts(self) -> (r: (String, EpubManifestEntryData, Option<ResourceContent>))
        ensures
            r.0@ == self.spec_id(),
            r.1 == self.spec_data(),
            r.2 == self.spec_content(),
    {
        (self.id, self.data, self.content)
    }

    /// The content to store, if any.
    pub fn content_ref(&self) -> (r: Option<&ResourceContent>)
        ensures
            match r {
                Some(c) => self.spec_content() == Some(*c),
                None => self.spec_content() is None,
            },
    {
        match &self.content {
            Some(c) => Some(c),
            None => None,
        }
    }

    /// The content to store, for modification.
    pub fn content_mut(&mut self) -> (r: Option<&mut ResourceContent>)
        ensures
            match r {
                Some(c) => old(self).spec_content() == Some(*c) && final(self).spec_content() == Some(
                    *final(c),
                ),
                None => old(self).spec_content() is None && final(self).spec_content() is None,
            },
            final(self).spec_id() == old(self).spec_id(),
            final(self).spec_data() == old(self).spec_data(),
    {
        match &mut self.content {
            Some(c) => Some(c),
            None => None,
        }
    }

    /// Sets the content to store.
    pub fn content(self, content: ResourceContent) -> (r: Self)
        ensures
            r.spec_content() == Some(content),
            r.spec_id() == self.spec_id(),
            r.spec_data() == self.spec_data(),
    {
        let mut s = self;
        s.content = Some(content);
        s
    }

    /// Sets the `id`.
    pub fn id(self, id: &str) -> (r: Self)
        ensures
            r.spec_id() == id@,
            r.spec_content() == self.spec_content(),
            r.spec_data() == self.spec_data(),
    {
        let mut s = self;
        s.id = to_string(id);
        s
    }

    /// Sets the location as written; a detached item has no resolved location.
    pub fn href(self, raw_href: &str) -> (r: Self)
        ensures
            r.spec_data().href@.len() == 0,
            r.spec_data().href_raw@ == raw_href@,
            r.spec_data() == (EpubManifestEntryData {
                href: r.spec_data().href,
                href_raw: r.spec_data().href_raw,
                ..self.spec_data()
            }),
            r.spec_id() == self.spec_id(),
            r.spec_content() == self.spec_content(),
    {
        let mut s = self;
        s.data.href = String::new();
        s.data.href_raw = to_string(raw_href);
        s
    }

    /// Sets the media type.
    pub fn media_type(self, media_type: &str) -> (r: Self)
        ensures
            r.spec_data().media_type@ == media_type@,
            r.spec_data() == (EpubManifestEntryData {
                media_type: r.spec_data().media_type,
                ..self.spec_data()
            }),
            r.spec_id() == self.spec_id(),
            r.spec_content() == self.spec_content(),
    {
        let mut s = self;
        s.data.media_type = to_string(media_type);
        s
    }

    /// Sets (or clears) the fallback item.
    pub fn fallback(self, idref: Option<String>) -> (r: Self)
        ensures
            r.spec_data() == (EpubManifestEntryData { fallback: idref, ..self.spec_data() }),
            r.spec_id() == self.spec_id(),
            r.spec_content() == self.spec_content(),
    {
        let mut s = self;
        s.data.fallback = idref;
        s
    }

    /// Sets (or clears) the media overlay item.
    pub fn media_overlay(self, idref: Option<String>) -> (r: Self)
        ensures
            r.spec_data() == (EpubManifestEntryData { media_overlay: idref, ..self.spec_data() }),
            r.spec_id() == self.spec_id(),
            r.spec_content() == self.spec_content(),
    {
        let mut s = self;
        s.data.media_overlay = idref;
        s
    }

    /// Adds one or more whitespace-separated properties.
    pub fn property(self, property: &str) -> (r: Self)
        ensures
            r.spec_data().properties@ == crate::element::insert_props(
                self.spec_data().properties@,
                crate::text::words(property@),
            ),
            r.spec_data() == (EpubManifestEntryData {
                properties: r.spec_data().properties,
                ..self.spec_data()
            }),
            r.spec_id() == self.spec_id(),
            r.spec_content() == self.spec_content(),
    {
        let mut s = self;
        s.data.properties.insert(property);
        s
    }

    /// Inserts an attribute, replacing one with the same name in place.
    pub fn attribute(self, attribute: Attribute) -> (r: Self)
        ensures
            r.spec_data().attributes@ == insert_keyed(self.spec_data().attributes@, attribute),
            r.spec_data() == (EpubManifestEntryData {
                attributes: r.spec_data().attributes,
                ..self.spec_data()
            }),
            r.spec_id() == self.spec_id(),
            r.spec_content() == self.spec_content(),
    {
        let mut s = self;
        s.data.attributes.insert(attribute);
        s
    }

    /// Appends a refinement.
    pub fn refinement<M>(self, detached: DetachedEpubMetaEntry<M>) -> (r: Self)
        ensures
            r.spec_data().refinements.0@ == self.spec_data().refinements.0@.push(
                detached.spec_data(),
            ),
            r.spec_data() == (EpubManifestEntryData {
                refinements: r.spec_data().refinements,
                ..self.spec_data()
            }),
            r.spec_id() == self.spec_id(),
            r.spec_content() == self.spec_content(),
    {
        let mut s = self;
        s.data.refinements.0.push(detached.into_data());
        s
    }
}

/// Where a location written in the package points: normalized when absolute, else
/// resolved against the package directory `base`.
pub open spec fn spec_resolve_href(base: Seq<char>, raw: Seq<char>) -> Seq<char> {
    if raw.len() > 0 && raw[0] == '/' {
        uri::spec_normalize(raw)
    } else {
        uri::spec_resolve(base, raw)
    }
}

/// Resolves a location written in the package against the package directory `base`.
pub fn resolve_href(base: &str, raw: &str) -> (r: String)
    ensures
        r@ == spec_resolve_href(base@, raw@),
{
    let v = chars_of(raw);
    if v.len() > 0 && v[0] == '/' {
        uri::normalize(raw)
    } else {
        uri::resolve(base, raw)
    }
}


/// The media type named by a (lower-case) file extension; unknown ones are
/// `application/octet-stream`.
pub open spec fn media_type_for(ext: Seq<char>) -> Seq<char> {
    if ext == "xhtml"@ {
        "application/xhtml+xml"@
    } else if ext == "xht"@ {
        "application/xhtml+xml"@
    } else if ext == "html"@ {
        "text/html"@
    } else if ext == "htm"@ {
        "text/html"@
    } else if ext == "css"@ {
        "text/css"@
    } else if ext == "js"@ {
        "application/javascript"@
    } else if ext == "ncx"@ {
        "application/x-dtbncx+xml"@
    } else if ext == "opf"@ {
        "application/oebps-package+xml"@
    } else if ext == "smil"@ {
        "application/smil+xml"@
    } else if ext == "pls"@ {
        "application/pls+xml"@
    } else if ext == "xml"@ {
        "application/xml"@
    } else if ext == "txt"@ {
        "text/plain"@
    } else if ext == "svg"@ {
        "image/svg+xml"@
    } else if ext == "png"@ {
        "image/png"@
    } else if ext == "jpg"@ {
        "image/jpeg"@
    } else if ext == "jpeg"@ {
        "image/jpeg"@
    } else if ext == "gif"@ {
        "image/gif"@
    } else if ext == "webp"@ {
        "image/webp"@
    } else if ext == "avif"@ {
        "image/avif"@
    } else if ext == "ttf"@ {
        "font/ttf"@
    } else if ext == "otf"@ {
        "font/otf"@
    } else if ext == "woff"@ {
        "font/woff"@
    } else if ext == "woff2"@ {
        "font/woff2"@
    } else if ext == "mp3"@ {
        "audio/mpeg"@
    } else if ext == "m4a"@ {
        "audio/mp4"@
    } else if ext == "ogg"@ {
        "audio/ogg"@
    } else if ext == "opus"@ {
        "audio/opus"@
    } else if ext == "mp4"@ {
        "video/mp4"@
    } else if ext == "webm"@ {
        "video/webm"@
    } else {
        "application/octet-stream"@
    }
}

/// The media type inferred from a location: by the extension of its file name (in
/// any letter case); `application/octet-stream` without a known one.
pub open spec fn spec_infer_media_type(href: Seq<char>) -> Seq<char> {
    match uri::spec_extension(href) {
        Some(e) => media_type_for(crate::checks::lower_ascii(e)),
        None => "application/octet-stream"@,
    }
}

/// Infers a media type from a location (see [`spec_infer_media_type`]).
pub fn infer_media_type(href: &str) -> (r: String)
    ensures
        r@ == spec_infer_media_type(href@),
{
    let ext = match uri::file_extension(href) {
        Some(e) => crate::checks::lowercase_media_type(e),
        None => {
            return to_string("application/octet-stream");
        },
    };
    let e = ext.as_str();
    if str_eq(e, "xhtml") {
        to_string("application/xhtml+xml")
    } else if str_eq(e, "xht") {
        to_string("application/xhtml+xml")
    } else if str_eq(e, "html") {
        to_string("text/html")
    } else if str_eq(e, "htm") {
        to_string("text/html")
    } else if str_eq(e, "css") {
        to_string("text/css")
    } else if str_eq(e, "js") {
        to_string("application/javascript")
    } else if str_eq(e, "ncx") {
        to_string("application/x-dtbncx+xml")
    } else if str_eq(e, "opf") {
        to_string("application/oebps-package+xml")
    } else if str_eq(e, "smil") {
        to_string("application/smil+xml")
    } else if str_eq(e, "pls") {
        to_string("application/pls+xml")
    } else if str_eq(e, "xml") {
        to_string("application/xml")
    } else if str_eq(e, "txt") {
        to_string("text/plain")
    } else if str_eq(e, "svg") {
        to_string("image/svg+xml")
    } else if str_eq(e, "png") {
        to_string("image/png")
    } else if str_eq(e, "jpg") {
        to_string("image/jpeg")
    } else if str_eq(e, "jpeg") {
        to_string("image/jpeg")
    } else if str_eq(e, "gif") {
        to_string("image/gif")
    } else if str_eq(e, "webp") {
        to_string("image/webp")
    } else if str_eq(e, "avif") {
        to_string("image/avif")
    } else if str_eq(e, "ttf") {
        to_string("font/ttf")
    } else if str_eq(e, "otf") {
        to_string("font/otf")
    } else if str_eq(e, "woff") {
        to_string("font/woff")
    } else if str_eq(e, "woff2") {
        to_string("font/woff2")
    } else if str_eq(e, "mp3") {
        to_string("audio/mpeg")
    } else if str_eq(e, "m4a") {
        to_string("audio/mp4")
    } else if str_eq(e, "ogg") {
        to_string("audio/ogg")
    } else if str_eq(e, "opus") {
        to_string("audio/opus")
    } else if str_eq(e, "mp4") {
        to_string("video/mp4")
    } else if str_eq(e, "webm") {
        to_string("video/webm")
    } else {
        to_string("application/octet-stream")
    }
}

/// A call of `f` on an item with `id` and `data` may return `b`.
pub open spec fn decided<F: Fn(&str, &EpubManifestEntryData) -> bool>(
    f: F,
    id: Seq<char>,
    data: EpubManifestEntryData,
    b: bool,
) -> bool {
    exists|s: &str| s@ == id && #[trigger] f.ensures((s, &data), b)
}

/// The storage keys (decoded locations) of the items `s`, in order.
pub open spec fn item_keys(s: Seq<(Seq<char>, EpubManifestEntryData)>) -> Seq<Seq<char>> {
    s.map_values(|x: (Seq<char>, EpubManifestEntryData)| uri::spec_decode(x.1.href@))
}

/// The content that taking out the locations `ks` in turn from an archive holding
/// `a` gives for the `j`th of them: what `a` stored there, unless an earlier one of
/// `ks` is the same location (then it was taken already).
pub open spec fn taken_content(a: Seq<crate::overlay::OverlayEntry>, ks: Seq<Seq<char>>, j: int) -> Option<ResourceContent> {
    if ks.take(j).contains(ks[j]) {
        None
    } else {
        content_of(lookup(a, ks[j]))
    }
}

/// `after` is `before` with nothing stored at any of the locations `ks`.
pub open spec fn takes_out(
    before: Seq<crate::overlay::OverlayEntry>,
    after: Seq<crate::overlay::OverlayEntry>,
    ks: Seq<Seq<char>>,
) -> bool {
    forall|q: Seq<char>| #[trigger] lookup(after, q) == if ks.contains(q) {
        None
    } else {
        lookup(before, q)
    }
}

/// A mutable view over the manifest, with the parts of the publication that follow
/// changes to it.
pub struct EpubManifestMut<'ebook> {
    /// The directory that locations written in the package are relative to.
    pub base: &'ebook str,
    pub archive: &'ebook mut ArchiveOverlay,
    pub manifest: &'ebook mut EpubManifestData,
    pub metadata: &'ebook mut EpubMetadataData,
    pub spine: &'ebook mut EpubSpineData,
    pub toc: &'ebook mut EpubTocData,
}

impl<'ebook> EpubManifestMut<'ebook> {
    /// Adds an item: its location is resolved against the package directory, an empty
    /// media type is inferred from that location, its content (if any) is stored at
    /// that location, and an item with the same `id` is replaced in place (its stored
    /// content is dropped when it was elsewhere).
    pub fn push(&mut self, detached: DetachedEpubManifestEntry)
        ensures
            ({
                let g = (*old(self).manifest).items();
                let id = detached.spec_id();
                let href = spec_resolve_href(old(self).base@, detached.spec_data().href_raw@);
                let data = (*final(self).manifest).items()[if id_pos(g, id) >= 0 {
                    id_pos(g, id)
                } else {
                    g.len() as int
                }].1;
                &&& data.href@ == href
                &&& data.media_type@ == if detached.spec_data().media_type@.len() == 0 {
                    spec_infer_media_type(href)
                } else {
                    detached.spec_data().media_type@
                }
                &&& data == (EpubManifestEntryData {
                    href: data.href,
                    media_type: data.media_type,
                    ..detached.spec_data()
                })
                &&& if id_pos(g, id) >= 0 {
                    (*final(self).manifest).items() == g.update(id_pos(g, id), (g[id_pos(g, id)].0, data))
                } else {
                    (*final(self).manifest).items() == g.push((id, data))
                }
                &&& match detached.spec_content() {
                    Some(c) => lookup((*final(self).archive)@, spec_resource_key(href)) == Some(
                        crate::overlay::OverlayResource::Content(c),
                    ) || (id_pos(g, id) >= 0 && g[id_pos(g, id)].1.href@ != href
                        && uri::spec_decode(g[id_pos(g, id)].1.href@) == spec_resource_key(href)),
                    None => true,
                }
            }),
            final(self).base == old(self).base,
            *final(self).metadata == *old(self).metadata,
            *final(self).spine == *old(self).spine,
            *final(final(self).manifest) == *final(old(self).manifest),
            *final(final(self).archive) == *final(old(self).archive),
            *final(final(self).metadata) == *final(old(self).metadata),
            *final(final(self).spine) == *final(old(self).spine),
            *final(self).toc == *old(self).toc,
            *final(final(self).toc) == *final(old(self).toc),
    {
        let ghost g = self.manifest.items();
        let (id, data, content) = detached.into_parts();
        let mut data = data;
        data.href = resolve_href(self.base, data.href_raw.as_str());
        if data.media_type.as_str().unicode_len() == 0 {
            data.media_type = infer_media_type(data.href.as_str());
        }
        let key = resource_key(data.href.as_str());
        let ghost key_v = key@;
        match content {
            Some(c) => {
                self.archive.insert(key, c);
                assert(lookup(self.archive@, key_v) == Some(crate::overlay::OverlayResource::Content(c)));
            },
            None => {},
        }
        let ghost mid_archive = self.archive@;
        let new_href = to_string(data.href.as_str());
        let ghost gdata = data;
        let replaced = self.manifest.insert_item(id, data);
        proof {
            lemma_id_pos(g, detached.spec_id());
        }
        match replaced {
            Some(old_data) => {
                if !str_eq(old_data.href.as_str(), new_href.as_str()) {
                    let old_key = uri::decode(old_data.href.as_str());
                    self.archive.remove(old_key.as_str());
                    assert(lookup(self.archive@, key_v) == if key_v == old_key@ {
                        None
                    } else {
                        lookup(mid_archive, key_v)
                    });
                }
            },
            None => {},
        }
        proof {
            let i = id_pos(g, detached.spec_id());
            let idx = if i >= 0 { i } else { g.len() as int };
            assert(self.manifest.items()[idx].1 == gdata);
        }
    }

    /// Removes the item with the given `id`, with the content stored for it.
    pub fn remove_by_id(&mut self, id: &str) -> (r: Option<DetachedEpubManifestEntry>)
        ensures
            ({
                let g = (*old(self).manifest).items();
                let i = id_pos(g, id@);
                if i >= 0 {
                    &&& r matches Some(d) && d.spec_id() == g[i].0 && d.spec_data() == g[i].1
                        && d.spec_content() == content_of(
                        lookup((*old(self).archive)@, uri::spec_decode(g[i].1.href@)),
                    )
                    &&& (*final(self).manifest).items() == g.remove(i)
                    &&& lookup((*final(self).archive)@, uri::spec_decode(g[i].1.href@)) is None
                } else {
                    &&& r is None
                    &&& (*final(self).manifest).items() == g
                    &&& *final(self).archive == *old(self).archive
                }
            }),
            final(self).base == old(self).base,
            *final(self).metadata == *old(self).metadata,
            *final(self).spine == *old(self).spine,
            *final(final(self).manifest) == *final(old(self).manifest),
            *final(final(self).archive) == *final(old(self).archive),
            *final(final(self).metadata) == *final(old(self).metadata),
            *final(final(self).spine) == *final(old(self).spine),
            *final(self).toc == *old(self).toc,
            *final(final(self).toc) == *final(old(self).toc),
    {
        match self.manifest.remove_item(id) {
            Some((k, data)) => {
                let key = uri::decode(data.href.as_str());
                let content = self.archive.remove(key.as_str());
                Some(DetachedEpubManifestEntry { id: k, data, content })
            },
            None => None,
        }
    }

    /// Gives the item with `id` a new `id` (made unique first, see
    /// [`EpubManifestData::generate_unique_id`]), keeping its position; references
    /// follow when the options say so. Returns the previous `id`, or `None` when no
    /// item has `id`.
    pub fn set_id(&mut self, id: &str, options: IdOptions) -> (r: Option<String>)
        ensures
            ({
                let g = (*old(self).manifest).items();
                let i = id_pos(g, id@);
                if i >= 0 {
                    &&& r matches Some(o) && o@ == g[i].0
                    &&& exists|m: int|
                        #![trigger id_candidate(options.id@, m)]
                        0 <= m && !ids_of(g).contains(id_candidate(options.id@, m)) && (forall|j: int|
                            0 <= j < m ==> ids_of(g).contains(#[trigger] id_candidate(options.id@, j))) && id_updated(
                            g,
                            (*final(self).manifest).items(),
                            (*old(self).spine).entries@,
                            (*final(self).spine).entries@,
                            (*old(self).metadata).groups(),
                            (*final(self).metadata).groups(),
                            i,
                            id_candidate(options.id@, m),
                            options.cascade,
                        )
                } else {
                    &&& r is None
                    &&& (*final(self).manifest).items() == g
                    &&& (*final(self).spine).entries@ == (*old(self).spine).entries@
                    &&& (*final(self).metadata).groups() == (*old(self).metadata).groups()
                }
            }),
            final(self).base == old(self).base,
            *final(final(self).manifest) == *final(old(self).manifest),
            *final(final(self).archive) == *final(old(self).archive),
            *final(final(self).metadata) == *final(old(self).metadata),
            *final(final(self).spine) == *final(old(self).spine),
            *final(self).archive == *old(self).archive,
            *final(self).toc == *old(self).toc,
            *final(final(self).toc) == *final(old(self).toc),
    {
        proof {
            lemma_id_pos(self.manifest.items(), id@);
        }
        let index = match self.manifest.index_of(id) {
            Some(i) => i,
            None => {
                return None;
            },
        };
        let unique = self.manifest.generate_unique_id(options.id.as_str());
        proof {
            let g = self.manifest.items();
            if held_by_other(g, index as int, unique@) {
                let j = choose|j: int| 0 <= j < g.len() && j != index && #[trigger] g[j].0 == unique@;
                assert(ids_of(g)[j] == unique@);
            }
        }
        match update_entry_id(self.manifest, self.spine, self.metadata, index, unique, options.cascade) {
            Ok(o) => Some(o),
            Err(_) => None,
        }
    }

    /// Gives the item with `id` the new `id` of the options as it is, keeping its
    /// position; references follow when the options say so. `None` when no item has
    /// `id`; refused when another item already has the new `id`.
    pub fn try_set_id(&mut self, id: &str, options: IdOptions) -> (r: Option<Result<String, EpubError>>)
        ensures
            ({
                let g = (*old(self).manifest).items();
                let i = id_pos(g, id@);
                if i < 0 {
                    &&& r is None
                    &&& (*final(self).manifest).items() == g
                    &&& (*final(self).spine).entries@ == (*old(self).spine).entries@
                    &&& (*final(self).metadata).groups() == (*old(self).metadata).groups()
                } else if held_by_other(g, i, options.id@) {
                    &&& r matches Some(Err(EpubError::DuplicateItemId(e))) && e@ == options.id@
                    &&& (*final(self).manifest).items() == g
                    &&& (*final(self).spine).entries@ == (*old(self).spine).entries@
                    &&& (*final(self).metadata).groups() == (*old(self).metadata).groups()
                } else {
                    &&& r matches Some(Ok(o)) && o@ == g[i].0
                    &&& id_updated(
                        g,
                        (*final(self).manifest).items(),
                        (*old(self).spine).entries@,
                        (*final(self).spine).entries@,
                        (*old(self).metadata).groups(),
                        (*final(self).metadata).groups(),
                        i,
                        options.id@,
                        options.cascade,
                    )
                }
            }),
            final(self).base == old(self).base,
            *final(final(self).manifest) == *final(old(self).manifest),
            *final(final(self).archive) == *final(old(self).archive),
            *final(final(self).metadata) == *final(old(self).metadata),
            *final(final(self).spine) == *final(old(self).spine),
            *final(self).archive == *old(self).archive,
            *final(self).toc == *old(self).toc,
            *final(final(self).toc) == *final(old(self).toc),
    {
        proof {
            lemma_id_pos(self.manifest.items(), id@);
        }
        let index = match self.manifest.index_of(id) {
            Some(i) => i,
            None => {
                return None;
            },
        };
        let IdOptions { id: new_id, cascade } = options;
        Some(update_entry_id(self.manifest, self.spine, self.metadata, index, new_id, cascade))
    }

    /// The `id` of the cover image item, to edit it with the methods that take an `id`:
    /// the first item with the `cover-image` property, else the item named by the
    /// EPUB 2 `cover` entry: the same item as [`EpubManifest::cover_image`] on
    /// [`EpubManifestMut::as_view`] (both are [`cover_pos`]).
    pub fn cover_image_mut(&mut self) -> (r: Option<String>)
        ensures
            ({
                let g = (*old(self).manifest).items();
                let c = cover_pos(g, (*old(self).metadata).groups());
                match r {
                    Some(x) => 0 <= c < g.len() && x@ == g[c].0,
                    None => c < 0,
                }
            }),
            *final(self) == *old(self),
    {
        let view = EpubManifest::new(self.manifest, self.metadata);
        match view.cover_image() {
            Some(e) => Some(to_string(e.id())),
            None => None,
        }
    }

    /// The items as they stand.
    pub open spec fn current_items(&self) -> Seq<(Seq<char>, EpubManifestEntryData)> {
        self.manifest.items()
    }

    /// The metadata groups as they stand.
    pub open spec fn current_groups(&self) -> Seq<(Seq<char>, Seq<crate::metadata::EpubMetaEntryData>)> {
        self.metadata.groups()
    }

    /// A read-only view over the manifest as it stands.
    pub fn as_view(&self) -> (r: EpubManifest<'_>)
        ensures
            r.spec_items() == self.current_items(),
            r.spec_metadata() == self.current_groups(),
    {
        EpubManifest::new(self.manifest, self.metadata)
    }

    /// Stores `content` as the content of the item with `id`, at its location; returns
    /// the content stored there before, if any. `None` (and no change) when no item
    /// has `id`.
    pub fn set_content(&mut self, id: &str, content: ResourceContent) -> (r: Option<Option<ResourceContent>>)
        ensures
            ({
                let g = (*old(self).manifest).items();
                let i = id_pos(g, id@);
                if i >= 0 {
                    let key = spec_resource_key(g[i].1.href@);
                    &&& r matches Some(prev) && prev == content_of(lookup((*old(self).archive)@, key))
                    &&& lookup((*final(self).archive)@, key) == Some(crate::overlay::OverlayResource::Content(content))
                    &&& forall|k: Seq<char>| k != key ==> lookup((*final(self).archive)@, k) == lookup((*old(self).archive)@, k)
                } else {
                    &&& r is None
                    &&& *final(self).archive == *old(self).archive
                }
            }),
            final(self).base == old(self).base,
            *final(final(self).manifest) == *final(old(self).manifest),
            *final(final(self).archive) == *final(old(self).archive),
            *final(final(self).metadata) == *final(old(self).metadata),
            *final(final(self).spine) == *final(old(self).spine),
            *final(self).manifest == *old(self).manifest,
            *final(self).metadata == *old(self).metadata,
            *final(self).spine == *old(self).spine,
            *final(self).toc == *old(self).toc,
            *final(final(self).toc) == *final(old(self).toc),
    {
        proof {
            lemma_id_pos(self.manifest.items(), id@);
        }
        let index = match self.manifest.index_of(id) {
            Some(i) => i,
            None => {
                return None;
            },
        };
        let (_, item) = self.manifest.get_index(index).unwrap();
        let key = resource_key(item.href.as_str());
        Some(self.archive.insert(key, content))
    }

    /// Gives the item with `id` a new written location, resolved against the package
    /// directory; what was stored for the old location moves to the new one, and with
    /// `cascade` the table of contents entries pointing at the old location follow.
    /// Returns the previous written location, or `None` when no item has `id`.
    pub fn set_href(&mut self, id: &str, options: HrefOptions) -> (r: Option<String>)
        ensures
            ({
                let g = (*old(self).manifest).items();
                let i = id_pos(g, id@);
                match r {
                    Some(o) => {
                        let d = g[i].1;
                        let new_href = spec_resolve_href(old(self).base@, options.href@);
                        let e = (*final(self).manifest).items()[i].1;
                        &&& i >= 0
                        &&& o@ == d.href_raw@
                        &&& e.href@ == new_href
                        &&& e.href_raw@ == options.href@
                        &&& e == (EpubManifestEntryData { href: e.href, href_raw: e.href_raw, ..d })
                        &&& (*final(self).manifest).items() == g.update(i, (g[i].0, e))
                        &&& relocated(*old(self).archive, *final(self).archive, spec_resource_key(d.href@), spec_resource_key(new_href))
                        &&& if options.cascade {
                            &&& roots_cascaded(old(self).toc.entries@, final(self).toc.entries@, uri::spec_path(d.href@), new_href)
                            &&& final(self).toc.preferred_version == old(self).toc.preferred_version
                        } else {
                            *final(self).toc == *old(self).toc
                        }
                    },
                    None => i < 0 && *final(self).manifest == *old(self).manifest && *final(self).archive
                        == *old(self).archive && *final(self).toc == *old(self).toc,
                }
            }),
            final(self).base == old(self).base,
            *final(self).metadata == *old(self).metadata,
            *final(self).spine == *old(self).spine,
            *final(final(self).manifest) == *final(old(self).manifest),
            *final(final(self).archive) == *final(old(self).archive),
            *final(final(self).metadata) == *final(old(self).metadata),
            *final(final(self).spine) == *final(old(self).spine),
            *final(final(self).toc) == *final(old(self).toc),
    {
        proof {
            lemma_id_pos(self.manifest.items(), id@);
        }
        let index = match self.manifest.index_of(id) {
            Some(i) => i,
            None => {
                return None;
            },
        };
        let mut data = self.manifest.update_at(index, EpubManifestEntryData::empty());
        let new_href = resolve_href(self.base, options.href.as_str());
        let old_href = crate::keyed::replace(&mut data.href, to_string(new_href.as_str()));
        let old_raw = crate::keyed::replace(&mut data.href_raw, options.href);
        let _ = self.manifest.update_at(index, data);
        if options.cascade {
            self.toc.cascade_href(uri::path(old_href.as_str()), new_href.as_str());
        }
        let from = resource_key(old_href.as_str());
        self.archive.relocate(from.as_str(), resource_key(new_href.as_str()));
        Some(old_raw)
    }

    /// Sets the media type of the item with `id`, returning the previous one, or
    /// `None` when no item has `id`.
    pub fn set_media_type(&mut self, id: &str, media_type: &str) -> (r: Option<String>)
        ensures
            ({
                let g = (*old(self).manifest).items();
                let i = id_pos(g, id@);
                match r {
                    Some(o) => {
                        let e = (*final(self).manifest).items()[i].1;
                        &&& i >= 0
                        &&& o == g[i].1.media_type
                        &&& e.media_type@ == media_type@
                        &&& e == (EpubManifestEntryData { media_type: e.media_type, ..g[i].1 })
                        &&& (*final(self).manifest).items() == g.update(i, (g[i].0, e))
                    },
                    None => i < 0 && *final(self).manifest == *old(self).manifest,
                }
            }),
            final(self).base == old(self).base,
            *final(self).archive == *old(self).archive,
            *final(self).metadata == *old(self).metadata,
            *final(self).spine == *old(self).spine,
            *final(self).toc == *old(self).toc,
            *final(final(self).manifest) == *final(old(self).manifest),
            *final(final(self).archive) == *final(old(self).archive),
            *final(final(self).metadata) == *final(old(self).metadata),
            *final(final(self).spine) == *final(old(self).spine),
            *final(final(self).toc) == *final(old(self).toc),
    {
        proof {
            lemma_id_pos(self.manifest.items(), id@);
        }
        let index = match self.manifest.index_of(id) {
            Some(i) => i,
            None => {
                return None;
            },
        };
        let mut data = self.manifest.update_at(index, EpubManifestEntryData::empty());
        let previous = crate::keyed::replace(&mut data.media_type, to_string(media_type));
        let _ = self.manifest.update_at(index, data);
        Some(previous)
    }

    /// Sets (or clears) the fallback of the item with `id`, returning the previous one,
    /// or `None` when no item has `id`.
    pub fn set_fallback(&mut self, id: &str, idref: Option<String>) -> (r: Option<Option<String>>)
        ensures
            ({
                let g = (*old(self).manifest).items();
                let i = id_pos(g, id@);
                match r {
                    Some(o) => i >= 0 && o == g[i].1.fallback && (*final(self).manifest).items() == g.update(
                        i,
                        (g[i].0, EpubManifestEntryData { fallback: idref, ..g[i].1 }),
                    ),
                    None => i < 0 && *final(self).manifest == *old(self).manifest,
                }
            }),
            final(self).base == old(self).base,
            *final(self).archive == *old(self).archive,
            *final(self).metadata == *old(self).metadata,
            *final(self).spine == *old(self).spine,
            *final(self).toc == *old(self).toc,
            *final(final(self).manifest) == *final(old(self).manifest),
            *final(final(self).archive) == *final(old(self).archive),
            *final(final(self).metadata) == *final(old(self).metadata),
            *final(final(self).spine) == *final(old(self).spine),
            *final(final(self).toc) == *final(old(self).toc),
    {
        proof {
            lemma_id_pos(self.manifest.items(), id@);
        }
        let index = match self.manifest.index_of(id) {
            Some(i) => i,
            None => {
                return None;
            },
        };
        let mut data = self.manifest.update_at(index, EpubManifestEntryData::empty());
        let previous = crate::keyed::replace(&mut data.fallback, idref);
        let _ = self.manifest.update_at(index, data);
        Some(previous)
    }

    /// Sets (or clears) the media overlay of the item with `id`, returning the previous
    /// one, or `None` when no item has `id`.
    pub fn set_media_overlay(&mut self, id: &str, idref: Option<String>) -> (r: Option<Option<String>>)
        ensures
            ({
                let g = (*old(self).manifest).items();
                let i = id_pos(g, id@);
                match r {
                    Some(o) => i >= 0 && o == g[i].1.media_overlay && (*final(self).manifest).items()
                        == g.update(i, (g[i].0, EpubManifestEntryData { media_overlay: idref, ..g[i].1 })),
                    None => i < 0 && *final(self).manifest == *old(self).manifest,
                }
            }),
            final(self).base == old(self).base,
            *final(self).archive == *old(self).archive,
            *final(self).metadata == *old(self).metadata,
            *final(self).spine == *old(self).spine,
            *final(self).toc == *old(self).toc,
            *final(final(self).manifest) == *final(old(self).manifest),
            *final(final(self).archive) == *final(old(self).archive),
            *final(final(self).metadata) == *final(old(self).metadata),
            *final(final(self).spine) == *final(old(self).spine),
            *final(final(self).toc) == *final(old(self).toc),
    {
        proof {
            lemma_id_pos(self.manifest.items(), id@);
        }
        let index = match self.manifest.index_of(id) {
            Some(i) => i,
            None => {
                return None;
            },
        };
        let mut data = self.manifest.update_at(index, EpubManifestEntryData::empty());
        let previous = crate::keyed::replace(&mut data.media_overlay, idref);
        let _ = self.manifest.update_at(index, data);
        Some(previous)
    }

    /// Removes the item at `i`, with the content stored at its location.
    fn take_at(&mut self, i: usize) -> (d: DetachedEpubManifestEntry)
        requires
            i < (*old(self).manifest).items().len(),
        ensures
            ({
                let g = (*old(self).manifest).items();
                let key = uri::spec_decode(g[i as int].1.href@);
                &&& d.spec_id() == g[i as int].0
                &&& d.spec_data() == g[i as int].1
                &&& d.spec_content() == content_of(lookup((*old(self).archive)@, key))
                &&& (*final(self).manifest).items() == g.remove(i as int)
                &&& forall|q: Seq<char>| #[trigger] lookup((*final(self).archive)@, q) == if q == key {
                    None
                } else {
                    lookup((*old(self).archive)@, q)
                }
            }),
            final(self).base == old(self).base,
            *final(self).metadata == *old(self).metadata,
            *final(self).spine == *old(self).spine,
            *final(self).toc == *old(self).toc,
            *final(final(self).manifest) == *final(old(self).manifest),
            *final(final(self).archive) == *final(old(self).archive),
            *final(final(self).metadata) == *final(old(self).metadata),
            *final(final(self).spine) == *final(old(self).spine),
            *final(final(self).toc) == *final(old(self).toc),
    {
        let (id, data) = self.manifest.remove_index(i);
        let key = uri::decode(data.href.as_str());
        let content = self.archive.remove(key.as_str());
        DetachedEpubManifestEntry { id, data, content }
    }

    /// Removes and returns the items for which `f` returns `true` (given each item's
    /// `id` and data), in order, each with the content stored at its location; the
    /// others stay, in order.
    pub fn extract_if<F: Fn(&str, &EpubManifestEntryData) -> bool>(&mut self, f: F) -> (r: Vec<
        DetachedEpubManifestEntry,
    >)
        requires
            forall|id: &str, data: &EpubManifestEntryData| #[trigger] f.requires((id, data)),
        ensures
            exists|d: Seq<bool>|
                #![trigger select((*old(self).manifest).items(), d, true)]
                {
                    let g = (*old(self).manifest).items();
                    let out = select(g, d, true);
                    &&& d.len() == g.len()
                    &&& forall|i: int| 0 <= i < d.len() ==> #[trigger] decided(f, g[i].0, g[i].1, d[i])
                    &&& (*final(self).manifest).items() == select(g, d, false)
                    &&& r@.len() == out.len()
                    &&& forall|k: int| 0 <= k < r@.len() ==> (#[trigger] r@[k]).spec_id() == out[k].0
                        && r@[k].spec_data() == out[k].1
                        && r@[k].spec_content() == taken_content((*old(self).archive)@, item_keys(out), k)
                    &&& takes_out((*old(self).archive)@, (*final(self).archive)@, item_keys(out))
                },
            final(self).base == old(self).base,
            *final(self).metadata == *old(self).metadata,
            *final(self).spine == *old(self).spine,
            *final(self).toc == *old(self).toc,
            *final(final(self).manifest) == *final(old(self).manifest),
            *final(final(self).archive) == *final(old(self).archive),
            *final(final(self).metadata) == *final(old(self).metadata),
            *final(final(self).spine) == *final(old(self).spine),
            *final(final(self).toc) == *final(old(self).toc),
    {
        let ghost g = self.manifest.items();
        let ghost a0 = self.archive@;
        let ghost mut d: Seq<bool> = Seq::empty();
        let ghost mut k: int = 0;
        let mut out: Vec<DetachedEpubManifestEntry> = Vec::new();
        let mut i: usize = 0;
        assert(g.take(0) =~= Seq::<(Seq<char>, EpubManifestEntryData)>::empty());
        assert(g.skip(0) =~= g);
        while i < self.manifest.len()
            invariant
                forall|id: &str, data: &EpubManifestEntryData| #[trigger] f.requires((id, data)),
                0 <= k <= g.len(),
                d.len() == k,
                forall|j: int| 0 <= j < k ==> #[trigger] decided(f, g[j].0, g[j].1, d[j]),
                self.manifest.items() == select(g.take(k), d, false) + g.skip(k),
                i == select(g.take(k), d, false).len(),
                out@.len() == select(g.take(k), d, true).len(),
                forall|j: int| 0 <= j < out@.len() ==> (#[trigger] out@[j]).spec_id() == select(g.take(k), d, true)[j].0
                    && out@[j].spec_data() == select(g.take(k), d, true)[j].1
                    && out@[j].spec_content() == taken_content(a0, item_keys(select(g.take(k), d, true)), j),
                takes_out(a0, self.archive@, item_keys(select(g.take(k), d, true))),
                self.base == old(self).base,
                *self.metadata == *old(self).metadata,
                *self.spine == *old(self).spine,
                *self.toc == *old(self).toc,
                *final(self.manifest) == *final(old(self).manifest),
                *final(self.archive) == *final(old(self).archive),
                *final(self.metadata) == *final(old(self).metadata),
                *final(self.spine) == *final(old(self).spine),
                *final(self.toc) == *final(old(self).toc),
            decreases g.len() - k,
        {
            let ghost kept = select(g.take(k), d, false);
            let ghost taken = select(g.take(k), d, true);
            proof {
                assert(self.manifest.items()[i as int] == g[k]);
                assert(g.take(k + 1) =~= g.take(k).push(g[k]));
            }
            let (id, data) = self.manifest.get_index(i).unwrap();
            let ids = id.as_str();
            let b = f(ids, data);
            proof {
                lemma_select_push(g.take(k), d, false, g[k], b);
                lemma_select_push(g.take(k), d, true, g[k], b);
                assert(d.push(b)[k] == b);
                assert(*data == g[k].1);
                assert(f.ensures((ids, &g[k].1), b));
                assert(decided(f, g[k].0, g[k].1, b));
                assert forall|j: int| 0 <= j < k + 1 implies #[trigger] decided(f, g[j].0, g[j].1, d.push(b)[j]) by {
                    if j < k {
                        assert(d.push(b)[j] == d[j]);
                    }
                }
            }
            if b {
                let ghost before = self.archive@;
                let x = self.take_at(i);
                proof {
                    let key = uri::spec_decode(g[k].1.href@);
                    let ks = item_keys(taken);
                    let ks2 = item_keys(taken.push(g[k]));
                    assert(ks2 =~= ks.push(key));
                    assert(ks2.take(ks.len() as int) =~= ks);
                    assert(self.manifest.items() =~= kept + g.skip(k + 1));
                    assert forall|q: Seq<char>| #[trigger] lookup(self.archive@, q) == if ks2.contains(q) { None } else { lookup(a0, q) } by {
                        if q == key {
                        } else if ks.contains(q) {
                            let w = choose|w: int| 0 <= w < ks.len() && ks[w] == q;
                            assert(ks2[w] == q);
                        } else if ks2.contains(q) {
                            let w = choose|w: int| 0 <= w < ks2.len() && ks2[w] == q;
                            assert(w < ks.len() ==> ks[w] == q);
                        }
                    }
                    assert(x.spec_content() == taken_content(a0, ks2, ks.len() as int)) by {
                        if ks.contains(key) {
                            assert(lookup(before, key) is None);
                        } else {
                            assert(lookup(before, key) == lookup(a0, key));
                        }
                    }
                    assert forall|j: int| 0 <= j < ks.len() implies #[trigger] taken_content(a0, ks2, j) == taken_content(a0, ks, j) by {
                        assert(ks2.take(j) =~= ks.take(j));
                        assert(ks2[j] == ks[j]);
                    }
                }
                out.push(x);
                proof {
                    let t2 = taken.push(g[k]);
                    assert forall|j: int| 0 <= j < out@.len() implies (#[trigger] out@[j]).spec_id() == t2[j].0
                        && out@[j].spec_data() == t2[j].1
                        && out@[j].spec_content() == taken_content(a0, item_keys(t2), j) by {
                        if j < taken.len() {
                            assert(taken_content(a0, item_keys(t2), j) == taken_content(a0, item_keys(taken), j));
                        }
                    }
                }
            } else {
                proof {
                    assert(self.manifest.items() =~= kept.push(g[k]) + g.skip(k + 1));
                }
                i = i + 1;
            }
            proof {
                d = d.push(b);
                k = k + 1;
            }
        }
        proof {
            assert(g.take(k) =~= g);
            assert(select(g, d, true) == select(g.take(k), d, true));
        }
        out
    }

    /// Keeps only the items for which `f` returns `false` (given each item's `id` and
    /// data), in order; the others are removed, with the content stored for them.
    pub fn retain<F: Fn(&str, &EpubManifestEntryData) -> bool>(&mut self, f: F)
        requires
            forall|id: &str, data: &EpubManifestEntryData| #[trigger] f.requires((id, data)),
        ensures
            exists|d: Seq<bool>|
                #![trigger select((*old(self).manifest).items(), d, true)]
                {
                    let g = (*old(self).manifest).items();
                    &&& d.len() == g.len()
                    &&& forall|i: int| 0 <= i < d.len() ==> #[trigger] decided(f, g[i].0, g[i].1, d[i])
                    &&& (*final(self).manifest).items() == select(g, d, false)
                    &&& takes_out((*old(self).archive)@, (*final(self).archive)@, item_keys(select(g, d, true)))
                },
            final(self).base == old(self).base,
            *final(self).metadata == *old(self).metadata,
            *final(self).spine == *old(self).spine,
            *final(self).toc == *old(self).toc,
            *final(final(self).manifest) == *final(old(self).manifest),
            *final(final(self).archive) == *final(old(self).archive),
            *final(final(self).metadata) == *final(old(self).metadata),
            *final(final(self).spine) == *final(old(self).spine),
            *final(final(self).toc) == *final(old(self).toc),
    {
        let _ = self.extract_if(f);
    }

    /// Removes and returns every item, in order, each with the content stored at its
    /// location.
    pub fn drain(&mut self) -> (r: Vec<DetachedEpubManifestEntry>)
        ensures
            ({
                let g = (*old(self).manifest).items();
                &&& r@.len() == g.len()
                &&& forall|k: int| 0 <= k < r@.len() ==> (#[trigger] r@[k]).spec_id() == g[k].0
                    && r@[k].spec_data() == g[k].1
                    && r@[k].spec_content() == taken_content((*old(self).archive)@, item_keys(g), k)
                &&& (*final(self).manifest).items().len() == 0
                &&& takes_out((*old(self).archive)@, (*final(self).archive)@, item_keys(g))
            }),
            final(self).base == old(self).base,
            *final(self).metadata == *old(self).metadata,
            *final(self).spine == *old(self).spine,
            *final(self).toc == *old(self).toc,
            *final(final(self).manifest) == *final(old(self).manifest),
            *final(final(self).archive) == *final(old(self).archive),
            *final(final(self).metadata) == *final(old(self).metadata),
            *final(final(self).spine) == *final(old(self).spine),
            *final(final(self).toc) == *final(old(self).toc),
    {
        let ghost g = self.manifest.items();
        let ghost a0 = self.archive@;
        let mut out: Vec<DetachedEpubManifestEntry> = Vec::new();
        assert(g.take(0) =~= Seq::<(Seq<char>, EpubManifestEntryData)>::empty());
        assert(g.skip(0) =~= g);
        while self.manifest.len() > 0
            invariant
                out@.len() <= g.len(),
                self.manifest.items() == g.skip(out@.len() as int),
                forall|j: int| 0 <= j < out@.len() ==> (#[trigger] out@[j]).spec_id() == g[j].0
                    && out@[j].spec_data() == g[j].1
                    && out@[j].spec_content() == taken_content(a0, item_keys(g.take(out@.len() as int)), j),
                takes_out(a0, self.archive@, item_keys(g.take(out@.len() as int))),
                self.base == old(self).base,
                *self.metadata == *old(self).metadata,
                *self.spine == *old(self).spine,
                *self.toc == *old(self).toc,
                *final(self.manifest) == *final(old(self).manifest),
                *final(self.archive) == *final(old(self).archive),
                *final(self.metadata) == *final(old(self).metadata),
                *final(self.spine) == *final(old(self).spine),
                *final(self.toc) == *final(old(self).toc),
            decreases self.manifest.items().len(),
        {
            let ghost n = out@.len() as int;
            let ghost before = self.archive@;
            proof {
                assert(self.manifest.items()[0] == g[n]);
            }
            let x = self.take_at(0);
            proof {
                let key = uri::spec_decode(g[n].1.href@);
                let ks = item_keys(g.take(n));
                let ks2 = item_keys(g.take(n + 1));
                assert(ks2 =~= ks.push(key));
                assert(ks2.take(n) =~= ks);
                assert(self.manifest.items() =~= g.skip(n + 1));
                assert forall|q: Seq<char>| #[trigger] lookup(self.archive@, q) == if ks2.contains(q) { None } else { lookup(a0, q) } by {
                    if q == key {
                    } else if ks.contains(q) {
                        let w = choose|w: int| 0 <= w < ks.len() && ks[w] == q;
                        assert(ks2[w] == q);
                    } else if ks2.contains(q) {
                        let w = choose|w: int| 0 <= w < ks2.len() && ks2[w] == q;
                        assert(w < ks.len() ==> ks[w] == q);
                    }
                }
                assert(x.spec_content() == taken_content(a0, ks2, n)) by {
                    if ks.contains(key) {
                        assert(lookup(before, key) is None);
                    } else {
                        assert(lookup(before, key) == lookup(a0, key));
                    }
                }
                assert forall|j: int| 0 <= j < n implies #[trigger] taken_content(a0, ks2, j) == taken_content(a0, ks, j) by {
                    assert(ks2.take(j) =~= ks.take(j));
                    assert(ks2[j] == ks[j]);
                }
            }
            out.push(x);
        }
        proof {
            assert(g.take(out@.len() as int) =~= g);
        }
        out
    }

    /// Removes every item, with the content stored for them.
    pub fn clear(&mut self)
        ensures
            (*final(self).manifest).items().len() == 0,
            final(self).base == old(self).base,
            *final(final(self).manifest) == *final(old(self).manifest),
            *final(final(self).archive) == *final(old(self).archive),
            *final(final(self).metadata) == *final(old(self).metadata),
            *final(final(self).spine) == *final(old(self).spine),
            *final(self).toc == *old(self).toc,
            *final(final(self).toc) == *final(old(self).toc),
    {
        let n = self.manifest.len();
        let mut i: usize = 0;
        while i < n
            invariant
                n == self.manifest.items().len(),
                i <= n,
                *final(self.manifest) == *final(old(self).manifest),
                *final(self.archive) == *final(old(self).archive),
                *final(self.metadata) == *final(old(self).metadata),
                *final(self.spine) == *final(old(self).spine),
                *self.toc == *old(self).toc,
                *final(self.toc) == *final(old(self).toc),
                self.base == old(self).base,
            decreases n - i,
        {
            let (_, data) = self.manifest.get_index(i).unwrap();
            let key = uri::decode(data.href.as_str());
            self.archive.remove(key.as_str());
            i = i + 1;
        }
        self.manifest.clear();
    }
}


// ---------------------------------------------------------------------------
// Views
// ---------------------------------------------------------------------------

/// `a` and `b` hold the same item (strings by their text, attributes by name and
/// value, refinements as in [`crate::metadata::same_entry`]).
pub open spec fn same_item(a: EpubManifestEntryData, b: EpubManifestEntryData) -> bool {
    &&& a.href@ == b.href@
    &&& a.href_raw@ == b.href_raw@
    &&& a.media_type@ == b.media_type@
    &&& opt_string_view(a.fallback) == opt_string_view(b.fallback)
    &&& opt_string_view(a.media_overlay) == opt_string_view(b.media_overlay)
    &&& a.properties@ == b.properties@
    &&& crate::element::same_attributes(a.attributes@, b.attributes@)
    &&& a.refinements.0@.len() == b.refinements.0@.len()
    &&& crate::metadata::same_entries(a.refinements.0@, b.refinements.0@, a.refinements.0@.len())
}

fn copy_opt(o: &Option<String>) -> (r: Option<String>)
    ensures
        opt_string_view(r) == opt_string_view(*o),
{
    match o {
        Some(x) => Some(x.clone()),
        None => None,
    }
}

impl EpubManifestEntryData {
    /// A copy of the item.
    pub fn duplicate(&self) -> (r: Self)
        ensures
            same_item(r, *self),
    {
        EpubManifestEntryData {
            href: self.href.clone(),
            href_raw: self.href_raw.clone(),
            media_type: self.media_type.clone(),
            fallback: copy_opt(&self.fallback),
            media_overlay: copy_opt(&self.media_overlay),
            properties: self.properties.duplicate(),
            attributes: self.attributes.duplicate(),
            refinements: self.refinements.duplicate(),
        }
    }
}

/// A read-only view over one manifest item.
#[derive(Copy, Clone, Debug)]
pub struct EpubManifestEntry<'ebook> {
    id: &'ebook str,
    data: &'ebook EpubManifestEntryData,
}

impl<'ebook> EpubManifestEntry<'ebook> {
    pub closed spec fn spec_id(&self) -> Seq<char> {
        self.id@
    }

    pub closed spec fn spec_data(&self) -> EpubManifestEntryData {
        *self.data
    }

    pub fn new(id: &'ebook str, data: &'ebook EpubManifestEntryData) -> (r: Self)
        ensures
            r.spec_id() == id@,
            r.spec_data() == *data,
    {
        EpubManifestEntry { id, data }
    }

    /// A detached copy of the item, without content.
    pub fn to_detached(&self) -> (r: DetachedEpubManifestEntry)
        ensures
            r.spec_id() == self.spec_id(),
            same_item(r.spec_data(), self.spec_data()),
            r.spec_content() is None,
    {
        DetachedEpubManifestEntry { id: to_string(self.id), data: self.data.duplicate(), content: None }
    }

    /// The `id` of the item.
    pub fn id(&self) -> (r: &'ebook str)
        ensures
            r@ == self.spec_id(),
    {
        self.id
    }

    /// The resolved, absolute, percent-encoded location.
    pub fn href(&self) -> (r: Href<'ebook>)
        ensures
            r@ == self.spec_data().href@,
    {
        Href::new(self.data.href.as_str())
    }

    /// The location as written in the package.
    pub fn href_raw(&self) -> (r: Href<'ebook>)
        ensures
            r@ == self.spec_data().href_raw@,
    {
        Href::new(self.data.href_raw.as_str())
    }

    /// The media type.
    pub fn media_type(&self) -> (r: &'ebook str)
        ensures
            r@ == self.spec_data().media_type@,
    {
        self.data.media_type.as_str()
    }

    /// The kind of the item's resource, named by its media type.
    pub fn kind(&self) -> (r: ResourceKind<'ebook>)
        ensures
            r@ == self.spec_data().media_type@,
    {
        ResourceKind::new(self.media_type())
    }

    /// The `id` of the fallback item, if any.
    pub fn fallback(&self) -> (r: Option<&'ebook str>)
        ensures
            crate::text::opt_str_view(r) == opt_string_view(self.spec_data().fallback),
    {
        opt_as_str(&self.data.fallback)
    }

    /// The `id` of the media overlay item, if any.
    pub fn media_overlay(&self) -> (r: Option<&'ebook str>)
        ensures
            crate::text::opt_str_view(r) == opt_string_view(self.spec_data().media_overlay),
    {
        opt_as_str(&self.data.media_overlay)
    }

    /// The properties of the item.
    pub fn properties(&self) -> (r: &'ebook Properties)
        ensures
            *r == self.spec_data().properties,
    {
        &self.data.properties
    }

    /// The remaining attributes of the item.
    pub fn attributes(&self) -> (r: &'ebook Attributes)
        ensures
            *r == self.spec_data().attributes,
    {
        &self.data.attributes
    }
}

/// `e` views the item at position `i` of `g`.
pub open spec fn views_item(e: EpubManifestEntry, g: Seq<(Seq<char>, EpubManifestEntryData)>, i: int) -> bool {
    0 <= i < g.len() && e.spec_id() == g[i].0 && e.spec_data() == g[i].1
}

/// The positions of the items of `g` with property `p`, in order.
pub open spec fn with_property(g: Seq<(Seq<char>, EpubManifestEntryData)>, p: Seq<char>) -> Seq<int>
    decreases g.len(),
{
    if g.len() == 0 {
        Seq::empty()
    } else {
        let r = with_property(g.drop_last(), p);
        if has_prop(g.last().1.properties@, p) {
            r.push(g.len() - 1)
        } else {
            r
        }
    }
}

/// The position of the item that the item at `i` falls back to, or `-1` (also when
/// it names itself).
pub open spec fn fallback_pos(g: Seq<(Seq<char>, EpubManifestEntryData)>, i: int) -> int {
    match g[i].1.fallback {
        Some(x) => if id_pos(g, x@) == i {
            -1
        } else {
            id_pos(g, x@)
        },
        None => -1,
    }
}

/// `c` is the fallback chain of the item at `start`: its fallback, then the fallback
/// of each in turn, up to a missing fallback or one that was already visited (the item
/// itself or one of the chain): no item is visited twice.
pub open spec fn is_fallback_chain(g: Seq<(Seq<char>, EpubManifestEntryData)>, start: int, c: Seq<int>) -> bool {
    if fallback_pos(g, start) < 0 {
        c.len() == 0
    } else {
        &&& c.len() >= 1
        &&& c[0] == fallback_pos(g, start)
        &&& forall|k: int| 0 <= k < c.len() ==> 0 <= #[trigger] c[k] < g.len() && c[k] != start
        &&& forall|k: int| 1 <= k < c.len() ==> #[trigger] c[k] == fallback_pos(g, c[k - 1])
        &&& forall|j: int, k: int| 0 <= j < k < c.len() ==> #[trigger] c[j] != #[trigger] c[k]
        &&& ({
            let nx = fallback_pos(g, c[c.len() - 1]);
            nx < 0 || nx == start || exists|j: int| 0 <= j < c.len() && #[trigger] c[j] == nx
        })
    }
}

/// At most `n` distinct integers lie in `[0, n)`.
pub proof fn lemma_distinct_bound(s: Seq<int>, n: int)
    requires
        n >= 0,
        forall|i: int| 0 <= i < s.len() ==> 0 <= #[trigger] s[i] < n,
        forall|i: int, j: int| 0 <= i < j < s.len() ==> #[trigger] s[i] != #[trigger] s[j],
    ensures
        s.len() <= n,
{
    let k = s.len() as int;
    let x = set_int_range(0, k);
    lemma_int_range(0, k);
    let f = |i: int| s[i];
    let y = x.map(f);
    assert(vstd::relations::injective_on(f, x)) by {
        assert forall|a: int, b: int| x.contains(a) && x.contains(b) && #[trigger] f(a) == #[trigger] f(b)
            implies a == b by {
            if a < b {
                assert(s[a] != s[b]);
            } else if b < a {
                assert(s[b] != s[a]);
            }
        }
    }
    lemma_map_size(x, y, f);
    let z = set_int_range(0, n);
    lemma_int_range(0, n);
    assert(y.subset_of(z)) by {
        assert forall|v: int| y.contains(v) implies z.contains(v) by {
            let i = choose|i: int| x.contains(i) && f(i) == v;
            assert(0 <= s[i] < n);
        }
    }
    lemma_len_subset(y, z);
}


/// The positions of the items of `g` whose media type satisfies `p`, in order.
pub open spec fn media_positions(g: Seq<(Seq<char>, EpubManifestEntryData)>, p: spec_fn(Seq<char>) -> bool) -> Seq<int>
    decreases g.len(),
{
    if g.len() == 0 {
        Seq::empty()
    } else if p(g.last().1.media_type@) {
        media_positions(g.drop_last(), p).push(g.len() - 1)
    } else {
        media_positions(g.drop_last(), p)
    }
}

/// Media types that are fonts (when `fonts`) or of one of `kinds`.
pub open spec fn media_filter(kinds: Seq<Seq<char>>, fonts: bool) -> spec_fn(Seq<char>) -> bool {
    |m: Seq<char>| if fonts { is_font_type(m) } else { matches_any(kinds, m) }
}

proof fn lemma_media_positions_same(
    g: Seq<(Seq<char>, EpubManifestEntryData)>,
    p: spec_fn(Seq<char>) -> bool,
    q: spec_fn(Seq<char>) -> bool,
)
    requires
        forall|m: Seq<char>| #[trigger] p(m) == q(m),
    ensures
        media_positions(g, p) == media_positions(g, q),
    decreases g.len(),
{
    if g.len() > 0 {
        lemma_media_positions_same(g.drop_last(), p, q);
    }
}

/// The position of the cover image among the items `g`: the first item with the
/// `cover-image` property, else the item named by the first EPUB 2 `cover` entry of
/// `groups`; `-1` when there is neither.
pub open spec fn cover_pos(
    g: Seq<(Seq<char>, EpubManifestEntryData)>,
    groups: Seq<(Seq<char>, Seq<crate::metadata::EpubMetaEntryData>)>,
) -> int {
    let w = with_property(g, crate::consts::COVER_IMAGE@);
    let c = crate::groups::group_of(groups, crate::consts::COVER@);
    if w.len() > 0 {
        w[0]
    } else if c.len() > 0 && id_pos(g, c[0].value@) >= 0 {
        id_pos(g, c[0].value@)
    } else {
        -1
    }
}

/// A read-only view over the manifest.
#[derive(Copy, Clone, Debug)]
pub struct EpubManifest<'ebook> {
    manifest: &'ebook EpubManifestData,
    metadata: &'ebook EpubMetadataData,
}

impl<'ebook> EpubManifest<'ebook> {
    pub closed spec fn spec_items(&self) -> Seq<(Seq<char>, EpubManifestEntryData)> {
        self.manifest.items()
    }

    pub closed spec fn spec_metadata(&self) -> Seq<(Seq<char>, Seq<crate::metadata::EpubMetaEntryData>)> {
        self.metadata.groups()
    }

    pub fn new(manifest: &'ebook EpubManifestData, metadata: &'ebook EpubMetadataData) -> (r: Self)
        ensures
            r.spec_items() == manifest.items(),
            r.spec_metadata() == metadata.groups(),
    {
        EpubManifest { manifest, metadata }
    }

    /// The item with the given `id`.
    pub fn by_id(&self, id: &str) -> (r: Option<EpubManifestEntry<'ebook>>)
        ensures
            match r {
                Some(e) => views_item(e, self.spec_items(), id_pos(self.spec_items(), id@)),
                None => id_pos(self.spec_items(), id@) == -1,
            },
    {
        proof {
            lemma_id_pos(self.spec_items(), id@);
        }
        match self.manifest.by_id(id) {
            Some((k, v)) => Some(EpubManifestEntry::new(k.as_str(), v)),
            None => None,
        }
    }

    /// The first item whose location, resolved or as written, is `href`.
    pub fn by_href(&self, href: &str) -> (r: Option<EpubManifestEntry<'ebook>>)
        ensures
            match r {
                Some(e) => exists|i: int|
                    views_item(e, self.spec_items(), i) && (e.spec_data().href@ == href@
                        || e.spec_data().href_raw@ == href@) && forall|j: int|
                        0 <= j < i ==> self.spec_items()[j].1.href@ != href@
                            && self.spec_items()[j].1.href_raw@ != href@,
                None => forall|j: int|
                    0 <= j < self.spec_items().len() ==> self.spec_items()[j].1.href@ != href@
                        && self.spec_items()[j].1.href_raw@ != href@,
            },
    {
        match self.manifest.by_href(href) {
            Some((k, v)) => {
                let e = EpubManifestEntry::new(k.as_str(), v);
                proof {
                    let g = self.spec_items();
                    let i = choose|i: int|
                        0 <= i < g.len() && k@ == g[i].0 && *v == g[i].1 && (v.href@ == href@
                            || v.href_raw@ == href@) && forall|j: int|
                            0 <= j < i ==> g[j].1.href@ != href@ && g[j].1.href_raw@ != href@;
                    assert(views_item(e, g, i));
                }
                Some(e)
            },
            None => None,
        }
    }

    /// The number of items.
    pub fn len(&self) -> (r: usize)
        ensures
            r == self.spec_items().len(),
    {
        self.manifest.len()
    }

    /// Returns `true` if there are no items.
    pub fn is_empty(&self) -> (r: bool)
        ensures
            r == (self.spec_items().len() == 0),
    {
        self.manifest.len() == 0
    }

    /// Every item, in order.
    pub fn iter(&self) -> (r: Vec<EpubManifestEntry<'ebook>>)
        ensures
            r@.len() == self.spec_items().len(),
            forall|k: int| 0 <= k < r@.len() ==> views_item(#[trigger] r@[k], self.spec_items(), k),
    {
        let n = self.manifest.len();
        let mut out: Vec<EpubManifestEntry<'ebook>> = Vec::new();
        let mut i: usize = 0;
        while i < n
            invariant
                n == self.manifest.items().len(),
                i <= n,
                out@.len() == i,
                forall|k: int| 0 <= k < i ==> views_item(#[trigger] out@[k], self.manifest.items(), k),
            decreases n - i,
        {
            let (k, v) = self.manifest.get_index(i).unwrap();
            out.push(EpubManifestEntry::new(k.as_str(), v));
            i = i + 1;
        }
        out
    }

    /// The items with the given property, in order.
    pub fn by_property(&self, property: &str) -> (r: Vec<EpubManifestEntry<'ebook>>)
        ensures
            r@.len() == with_property(self.spec_items(), property@).len(),
            forall|k: int|
                0 <= k < r@.len() ==> views_item(
                    #[trigger] r@[k],
                    self.spec_items(),
                    with_property(self.spec_items(), property@)[k],
                ),
    {
        let ghost g = self.manifest.items();
        let n = self.manifest.len();
        let mut out: Vec<EpubManifestEntry<'ebook>> = Vec::new();
        let mut i: usize = 0;
        while i < n
            invariant
                g == self.manifest.items(),
                n == g.len(),
                i <= n,
                out@.len() == with_property(g.take(i as int), property@).len(),
                forall|k: int|
                    0 <= k < out@.len() ==> views_item(
                        #[trigger] out@[k],
                        g,
                        with_property(g.take(i as int), property@)[k],
                    ),
                forall|k: int|
                    0 <= k < with_property(g.take(i as int), property@).len() ==> 0 <= #[trigger] with_property(
                        g.take(i as int),
                        property@,
                    )[k] < i,
            decreases n - i,
        {
            let (k, v) = self.manifest.get_index(i).unwrap();
            assert(g.take(i + 1).drop_last() =~= g.take(i as int));
            assert(g.take(i + 1).last() == g[i as int]);
            if v.properties.has_property(property) {
                out.push(EpubManifestEntry::new(k.as_str(), v));
            }
            i = i + 1;
        }
        assert(g.take(n as int) =~= g);
        out
    }

    /// The items whose media type is a font (when `fonts`) or of one of `kinds`.
    fn by_media_type(&self, kinds: &[ResourceKind], fonts: bool) -> (r: Vec<EpubManifestEntry<'ebook>>)
        ensures
            ({
                let w = media_positions(self.spec_items(), media_filter(kind_views(kinds@), fonts));
                &&& r@.len() == w.len()
                &&& forall|k: int| 0 <= k < r@.len() ==> views_item(#[trigger] r@[k], self.spec_items(), w[k])
            }),
    {
        let ghost g = self.manifest.items();
        let ghost p = media_filter(kind_views(kinds@), fonts);
        let n = self.manifest.len();
        let mut out: Vec<EpubManifestEntry<'ebook>> = Vec::new();
        let mut i: usize = 0;
        while i < n
            invariant
                p == media_filter(kind_views(kinds@), fonts),
                g == self.manifest.items(),
                n == g.len(),
                i <= n,
                out@.len() == media_positions(g.take(i as int), p).len(),
                forall|k: int|
                    0 <= k < out@.len() ==> views_item(#[trigger] out@[k], g, media_positions(g.take(i as int), p)[k]),
                forall|k: int|
                    0 <= k < media_positions(g.take(i as int), p).len() ==> 0 <= #[trigger] media_positions(
                        g.take(i as int),
                        p,
                    )[k] < i,
            decreases n - i,
        {
            let (k, v) = self.manifest.get_index(i).unwrap();
            assert(g.take(i + 1).drop_last() =~= g.take(i as int));
            assert(g.take(i + 1).last() == g[i as int]);
            let hit = if fonts {
                is_font_media_type(v.media_type.as_str())
            } else {
                matches_any_kind(kinds, v.media_type.as_str())
            };
            if hit {
                out.push(EpubManifestEntry::new(k.as_str(), v));
            }
            i = i + 1;
        }
        assert(g.take(n as int) =~= g);
        out
    }

    /// The items whose media type is of one of the kinds `kinds` (ASCII case ignored; a
    /// kind naming a main type alone, such as `image`, stands for all of it), in order.
    pub fn by_kind(&self, kinds: &[ResourceKind]) -> (r: Vec<EpubManifestEntry<'ebook>>)
        ensures
            ({
                let w = media_positions(self.spec_items(), |m: Seq<char>| matches_any(kind_views(kinds@), m));
                &&& r@.len() == w.len()
                &&& forall|k: int| 0 <= k < r@.len() ==> views_item(#[trigger] r@[k], self.spec_items(), w[k])
            }),
    {
        proof {
            lemma_media_positions_same(
                self.spec_items(),
                media_filter(kind_views(kinds@), false),
                |m: Seq<char>| matches_any(kind_views(kinds@), m),
            );
        }
        self.by_media_type(kinds, false)
    }

    fn by_kinds(&self, kinds: Vec<ResourceKind<'static>>) -> (r: Vec<EpubManifestEntry<'ebook>>)
        ensures
            ({
                let w = media_positions(self.spec_items(), |m: Seq<char>| matches_any(kind_views(kinds@), m));
                &&& r@.len() == w.len()
                &&& forall|k: int| 0 <= k < r@.len() ==> views_item(#[trigger] r@[k], self.spec_items(), w[k])
            }),
    {
        self.by_kind(kinds.as_slice())
    }

    /// The image items (main type `image`), in order.
    pub fn images(&self) -> (r: Vec<EpubManifestEntry<'ebook>>)
        ensures
            ({
                let w = media_positions(self.spec_items(), |m: Seq<char>| kind_matches("image"@, m));
                &&& r@.len() == w.len()
                &&& forall|k: int| 0 <= k < r@.len() ==> views_item(#[trigger] r@[k], self.spec_items(), w[k])
            }),
    {
        let ks = vec![ResourceKind::image()];
        proof {
            assert(kind_views(ks@) =~= seq!["image"@]);
            lemma_matches_one("image"@);
            lemma_media_positions_same(
                self.spec_items(),
                |m: Seq<char>| matches_any(kind_views(ks@), m),
                |m: Seq<char>| kind_matches("image"@, m),
            );
        }
        self.by_kinds(ks)
    }

    /// The audio items (main type `audio`), in order.
    pub fn audio(&self) -> (r: Vec<EpubManifestEntry<'ebook>>)
        ensures
            ({
                let w = media_positions(self.spec_items(), |m: Seq<char>| kind_matches("audio"@, m));
                &&& r@.len() == w.len()
                &&& forall|k: int| 0 <= k < r@.len() ==> views_item(#[trigger] r@[k], self.spec_items(), w[k])
            }),
    {
        let ks = vec![ResourceKind::audio()];
        proof {
            assert(kind_views(ks@) =~= seq!["audio"@]);
            lemma_matches_one("audio"@);
            lemma_media_positions_same(
                self.spec_items(),
                |m: Seq<char>| matches_any(kind_views(ks@), m),
                |m: Seq<char>| kind_matches("audio"@, m),
            );
        }
        self.by_kinds(ks)
    }

    /// The video items (main type `video`), in order.
    pub fn video(&self) -> (r: Vec<EpubManifestEntry<'ebook>>)
        ensures
            ({
                let w = media_positions(self.spec_items(), |m: Seq<char>| kind_matches("video"@, m));
                &&& r@.len() == w.len()
                &&& forall|k: int| 0 <= k < r@.len() ==> views_item(#[trigger] r@[k], self.spec_items(), w[k])
            }),
    {
        let ks = vec![ResourceKind::video()];
        proof {
            assert(kind_views(ks@) =~= seq!["video"@]);
            lemma_matches_one("video"@);
            lemma_media_positions_same(
                self.spec_items(),
                |m: Seq<char>| matches_any(kind_views(ks@), m),
                |m: Seq<char>| kind_matches("video"@, m),
            );
        }
        self.by_kinds(ks)
    }

    /// The style sheet items (`text/css`), in order.
    pub fn styles(&self) -> (r: Vec<EpubManifestEntry<'ebook>>)
        ensures
            ({
                let w = media_positions(self.spec_items(), |m: Seq<char>| kind_matches(CSS@, m));
                &&& r@.len() == w.len()
                &&& forall|k: int| 0 <= k < r@.len() ==> views_item(#[trigger] r@[k], self.spec_items(), w[k])
            }),
    {
        let ks = vec![ResourceKind::new(CSS)];
        proof {
            assert(kind_views(ks@) =~= seq![CSS@]);
            lemma_matches_one(CSS@);
            lemma_media_positions_same(
                self.spec_items(),
                |m: Seq<char>| matches_any(kind_views(ks@), m),
                |m: Seq<char>| kind_matches(CSS@, m),
            );
        }
        self.by_kinds(ks)
    }

    /// The script items (`application/javascript`, `application/ecmascript` or
    /// `text/javascript`), in order.
    pub fn scripts(&self) -> (r: Vec<EpubManifestEntry<'ebook>>)
        ensures
            ({
                let w = media_positions(self.spec_items(), |m: Seq<char>| matches_any(seq![JAVASCRIPT@, ECMASCRIPT@, JAVASCRIPT_TEXT@], m));
                &&& r@.len() == w.len()
                &&& forall|k: int| 0 <= k < r@.len() ==> views_item(#[trigger] r@[k], self.spec_items(), w[k])
            }),
    {
        let ks = vec![ResourceKind::new(JAVASCRIPT), ResourceKind::new(ECMASCRIPT), ResourceKind::new(JAVASCRIPT_TEXT)];
        proof {
            assert(kind_views(ks@) =~= seq![JAVASCRIPT@, ECMASCRIPT@, JAVASCRIPT_TEXT@]);
        }
        self.by_kinds(ks)
    }

    /// The readable content items (`application/xhtml+xml` or `text/html`), in order.
    pub fn readable_content(&self) -> (r: Vec<EpubManifestEntry<'ebook>>)
        ensures
            ({
                let w = media_positions(self.spec_items(), |m: Seq<char>| matches_any(seq![XHTML@, HTML@], m));
                &&& r@.len() == w.len()
                &&& forall|k: int| 0 <= k < r@.len() ==> views_item(#[trigger] r@[k], self.spec_items(), w[k])
            }),
    {
        let ks = vec![ResourceKind::new(XHTML), ResourceKind::new(HTML)];
        proof {
            assert(kind_views(ks@) =~= seq![XHTML@, HTML@]);
        }
        self.by_kinds(ks)
    }

    /// The font items (main type `font`, or an older font media type), in order.
    pub fn fonts(&self) -> (r: Vec<EpubManifestEntry<'ebook>>)
        ensures
            ({
                let w = media_positions(self.spec_items(), |m: Seq<char>| is_font_type(m));
                &&& r@.len() == w.len()
                &&& forall|k: int| 0 <= k < r@.len() ==> views_item(#[trigger] r@[k], self.spec_items(), w[k])
            }),
    {
        let none: Vec<ResourceKind> = Vec::new();
        proof {
            lemma_media_positions_same(
                self.spec_items(),
                media_filter(kind_views(none@), true),
                |m: Seq<char>| is_font_type(m),
            );
        }
        self.by_media_type(none.as_slice(), true)
    }

    /// The cover image: the first item with the `cover-image` property, else the item
    /// named by the EPUB 2 `cover` entry (see [`cover_pos`]).
    pub fn cover_image(&self) -> (r: Option<EpubManifestEntry<'ebook>>)
        ensures
            match r {
                Some(e) => views_item(e, self.spec_items(), cover_pos(self.spec_items(), self.spec_metadata())),
                None => cover_pos(self.spec_items(), self.spec_metadata()) < 0,
            },
    {
        let covers = self.by_property(crate::consts::COVER_IMAGE);
        if covers.len() > 0 {
            return Some(covers[0]);
        }
        match self.metadata.epub2_cover_image_id() {
            Some(id) => self.by_id(id),
            None => None,
        }
    }

    fn fallback_index(&self, i: usize) -> (r: Option<usize>)
        requires
            i < self.spec_items().len(),
        ensures
            match r {
                Some(x) => x as int == fallback_pos(self.spec_items(), i as int) && x < self.spec_items().len(),
                None => fallback_pos(self.spec_items(), i as int) < 0,
            },
    {
        let (_, item) = self.manifest.get_index(i).unwrap();
        match &item.fallback {
            Some(x) => {
                proof {
                    lemma_id_pos(self.spec_items(), x@);
                }
                match self.manifest.index_of(x.as_str()) {
                    Some(p) => if p == i {
                        None
                    } else {
                        Some(p)
                    },
                    None => None,
                }
            },
            None => None,
        }
    }

    /// The fallback chain of the item with `id` (see [`is_fallback_chain`]): the items
    /// to try in turn when it cannot be rendered. Empty when no item has `id`.
    pub fn fallbacks(&self, id: &str) -> (r: Vec<EpubManifestEntry<'ebook>>)
        ensures
            ({
                let g = self.spec_items();
                let s = id_pos(g, id@);
                if s < 0 {
                    r@.len() == 0
                } else {
                    exists|c: Seq<int>|
                        is_fallback_chain(g, s, c) && c.len() == r@.len() && forall|k: int|
                            0 <= k < c.len() ==> views_item(#[trigger] r@[k], g, c[k])
                }
            }),
    {
        let ghost g = self.spec_items();
        proof {
            lemma_id_pos(g, id@);
        }
        let n = self.manifest.len();
        let start = match self.manifest.index_of(id) {
            Some(i) => i,
            None => {
                return Vec::new();
            },
        };
        let mut out: Vec<EpubManifestEntry<'ebook>> = Vec::new();
        let first = match self.fallback_index(start) {
            Some(f) => f,
            None => {
                assert(is_fallback_chain(g, start as int, Seq::<int>::empty()));
                return out;
            },
        };
        let mut visited: Vec<bool> = Vec::new();
        for j in 0..n
            invariant
                visited@.len() == j,
                forall|k: int| 0 <= k < j ==> visited@[k] == (k == start || k == first),
        {
            visited.push(j == start || j == first);
        }
        let (k0, v0) = self.manifest.get_index(first).unwrap();
        out.push(EpubManifestEntry::new(k0.as_str(), v0));
        let ghost mut c: Seq<int> = seq![first as int];
        let ghost mut seen: Seq<int> = seq![start as int, first as int];
        let mut cur = first;
        assert forall|v: int| 0 <= v < n implies (#[trigger] visited@[v] <==> (v == start || exists|k: int|
            0 <= k < c.len() && #[trigger] c[k] == v)) by {
            if v == first {
                assert(c[0] == v);
            }
        }
        loop
            invariant
                g == self.spec_items(),
                n == g.len(),
                start < n,
                cur < n,
                fallback_pos(g, start as int) == first as int,
                first != start,
                c.len() >= 1,
                c[0] == first as int,
                c[c.len() - 1] == cur as int,
                forall|k: int| 0 <= k < c.len() ==> 0 <= #[trigger] c[k] < n && c[k] != start,
                forall|k: int| 1 <= k < c.len() ==> #[trigger] c[k] == fallback_pos(g, c[k - 1]),
                forall|i: int, k: int| 0 <= i < k < c.len() ==> #[trigger] c[i] != #[trigger] c[k],
                out@.len() == c.len(),
                forall|k: int| 0 <= k < c.len() ==> views_item(#[trigger] out@[k], g, c[k]),
                seen.len() == c.len() + 1,
                seen[0] == start as int,
                forall|k: int| 0 <= k < c.len() ==> #[trigger] seen[k + 1] == c[k],
                seen.len() <= n,
                visited@.len() == n,
                forall|v: int| 0 <= v < n ==> (#[trigger] visited@[v] <==> (v == start || exists|k: int|
                    0 <= k < c.len() && #[trigger] c[k] == v)),
            ensures
                ({
                    let nx = fallback_pos(g, c[c.len() - 1]);
                    nx < 0 || nx == start || exists|k: int| 0 <= k < c.len() && #[trigger] c[k] == nx
                }),
            decreases n - seen.len(),
        {
            let nx = match self.fallback_index(cur) {
                Some(x) => x,
                None => {
                    break;
                },
            };
            if visited[nx] {
                break;
            }
            visited.set(nx, true);
            let (k1, v1) = self.manifest.get_index(nx).unwrap();
            out.push(EpubManifestEntry::new(k1.as_str(), v1));
            proof {
                let c0 = c;
                c = c.push(nx as int);
                seen = seen.push(nx as int);
                assert forall|i: int, k: int| 0 <= i < k < c.len() implies #[trigger] c[i] != #[trigger] c[k] by {
                    if k == c.len() - 1 {
                        assert(c[i] == c0[i]);
                    }
                }
                assert forall|k: int| 0 <= k < c.len() implies #[trigger] seen[k + 1] == c[k] by {}
                assert forall|i: int, j: int| 0 <= i < j < seen.len() implies #[trigger] seen[i] != #[trigger] seen[j] by {
                    let jj = j - 1;
                    assert(seen[jj + 1] == c[jj]);
                    if i > 0 {
                        let ii = i - 1;
                        assert(seen[ii + 1] == c[ii]);
                    }
                }
                assert forall|i: int| 0 <= i < seen.len() implies 0 <= #[trigger] seen[i] < n by {
                    if i > 0 {
                        let ii = i - 1;
                        assert(seen[ii + 1] == c[ii]);
                    }
                }
                lemma_distinct_bound(seen, n as int);
                assert forall|v: int| 0 <= v < n implies (#[trigger] visited@[v] <==> (v == start || exists|k: int|
                    0 <= k < c.len() && #[trigger] c[k] == v)) by {
                    if v == nx {
                        assert(c[c.len() - 1] == v);
                    } else {
                        if exists|k: int| 0 <= k < c0.len() && #[trigger] c0[k] == v {
                            let k = choose|k: int| 0 <= k < c0.len() && #[trigger] c0[k] == v;
                            assert(c[k] == v);
                        }
                        if exists|k: int| 0 <= k < c.len() && #[trigger] c[k] == v {
                            let k = choose|k: int| 0 <= k < c.len() && #[trigger] c[k] == v;
                            assert(c0[k] == v);
                        }
                    }
                }
            }
            cur = nx;
        }
        proof {
            assert(is_fallback_chain(g, start as int, c));
        }
        out
    }
}

} // verus!
