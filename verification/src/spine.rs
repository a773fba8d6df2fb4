//! The spine: the reading order of manifest items.
use vstd::prelude::*;
use crate::element::{Attribute, Attributes, Properties, insert_keyed};
use crate::keyed::{select, split_vec};
use crate::manifest::{EpubManifestData, EpubManifestEntry, id_pos, lemma_id_pos};
use crate::metadata::{EpubRefinements, EpubRefinementsData};
use crate::metawrite::EpubRefinementsMut;
use crate::package::EpubPackageMetaContext;
use crate::text::{opt_as_str, opt_eq_str, opt_string_view, str_eq};
use crate::metawrite::DetachedEpubMetaEntry;
use crate::text::{to_string, words};

verus! {

broadcast use vstd::string::group_string_axioms;

/// The direction in which pages progress.
#[derive(Copy, Clone, Debug, Hash, PartialEq, Eq, Structural)]
pub enum PageDirection {
    LeftToRight,
    RightToLeft,
    Default,
}

/// One `<itemref>` of the spine.
#[derive(Debug)]
pub struct EpubSpineEntryData {
    pub id: Option<String>,
    /// The `id` of the manifest item this entry refers to.
    pub idref: String,
    pub linear: bool,
    pub properties: Properties,
    pub attributes: Attributes,
    pub refinements: EpubRefinementsData,
}

/// The spine: page direction and entries in reading order.
#[derive(Debug)]
pub struct EpubSpineData {
    pub page_direction: PageDirection,
    pub entries: Vec<EpubSpineEntryData>,
}

impl EpubSpineData {
    /// A spine with the given direction and entries.
    pub fn new(page_direction: PageDirection, entries: Vec<EpubSpineEntryData>) -> (r: Self)
        ensures
            r.page_direction == page_direction,
            r.entries@ == entries@,
    {
        EpubSpineData { page_direction, entries }
    }

    /// An empty spine with the default direction.
    pub fn empty() -> (r: Self)
        ensures
            r.page_direction == PageDirection::Default,
            r.entries@.len() == 0,
    {
        EpubSpineData { page_direction: PageDirection::Default, entries: Vec::new() }
    }
}

/// A spine entry that belongs to no publication yet.
#[derive(Debug)]
pub struct DetachedEpubSpineEntry(EpubSpineEntryData);

impl DetachedEpubSpineEntry {
    pub closed spec fn spec_data(&self) -> EpubSpineEntryData {
        self.0
    }

    /// A linear entry referring to the manifest item `idref`, with nothing else set.
    pub fn new(idref: &str) -> (r: Self)
        ensures
            r.spec_data().idref@ == idref@,
            r.spec_data().linear,
            r.spec_data().id is None,
            r.spec_data().properties@.len() == 0,
            r.spec_data().attributes@.len() == 0,
            r.spec_data().refinements.0@.len() == 0,
    {
        DetachedEpubSpineEntry(
            EpubSpineEntryData {
                id: None,
                idref: to_string(idref),
                linear: true,
                properties: Properties::empty(),
                attributes: Attributes::empty(),
                refinements: EpubRefinementsData(Vec::new()),
            },
        )
    }

    /// The entry data.
    pub fn into_data(self) -> (r: EpubSpineEntryData)
        ensures
            r == self.spec_data(),
    {
        self.0
    }

    /// Sets (or clears) the `id`.
    pub fn id(self, id: Option<String>) -> (r: Self)
        ensures
            r.spec_data() == (EpubSpineEntryData { id: id, ..self.spec_data() }),
    {
        let mut s = self;
        s.0.id = id;
        s
    }

    /// Sets the manifest item this entry refers to.
    pub fn idref(self, idref: &str) -> (r: Self)
        ensures
            r.spec_data().idref@ == idref@,
            r.spec_data() == (EpubSpineEntryData { idref: r.spec_data().idref, ..self.spec_data() }),
    {
        let mut s = self;
        s.0.idref = to_string(idref);
        s
    }

    /// Sets whether the entry is part of the linear reading order.
    pub fn linear(self, linear: bool) -> (r: Self)
        ensures
            r.spec_data() == (EpubSpineEntryData { linear: linear, ..self.spec_data() }),
    {
        let mut s = self;
        s.0.linear = linear;
        s
    }

    /// Adds one or more whitespace-separated properties.
    pub fn property(self, property: &str) -> (r: Self)
        ensures
            r.spec_data().properties@ == crate::element::insert_props(
                self.spec_data().properties@,
                words(property@),
            ),
            r.spec_data() == (EpubSpineEntryData {
                properties: r.spec_data().properties,
                ..self.spec_data()
            }),
    {
        let mut s = self;
        s.0.properties.insert(property);
        s
    }

    /// Inserts an attribute, replacing one with the same name in place.
    pub fn attribute(self, attribute: Attribute) -> (r: Self)
        ensures
            r.spec_data().attributes@ == insert_keyed(self.spec_data().attributes@, attribute),
            r.spec_data() == (EpubSpineEntryData {
                attributes: r.spec_data().attributes,
                ..self.spec_data()
            }),
    {
        let mut s = self;
        s.0.attributes.insert(attribute);
        s
    }

    /// Appends a refinement.
    pub fn refinement<M>(self, detached: DetachedEpubMetaEntry<M>) -> (r: Self)
        ensures
            r.spec_data().refinements.0@ == self.spec_data().refinements.0@.push(
                detached.spec_data(),
            ),
            r.spec_data() == (EpubSpineEntryData {
                refinements: r.spec_data().refinements,
                ..self.spec_data()
            }),
    {
        let mut s = self;
        s.0.refinements.0.push(detached.into_data());
        s
    }
}

// ---------------------------------------------------------------------------
// Views
// ---------------------------------------------------------------------------

/// The position of the first entry with the given `id`, or `-1`.
pub open spec fn spine_id_pos(s: Seq<EpubSpineEntryData>, id: Seq<char>) -> int
    decreases s.len(),
{
    if s.len() == 0 {
        -1
    } else if opt_string_view(s[0].id) == Some(id) {
        0
    } else {
        let r = spine_id_pos(s.drop_first(), id);
        if r < 0 {
            -1
        } else {
            r + 1
        }
    }
}

pub proof fn lemma_spine_id_pos(s: Seq<EpubSpineEntryData>, id: Seq<char>)
    ensures
        -1 <= spine_id_pos(s, id) < s.len(),
        spine_id_pos(s, id) >= 0 ==> opt_string_view(s[spine_id_pos(s, id)].id) == Some(id),
        forall|j: int|
            0 <= j < s.len() && (spine_id_pos(s, id) < 0 || j < spine_id_pos(s, id)) ==> opt_string_view(
                #[trigger] s[j].id,
            ) != Some(id),
    decreases s.len(),
{
    if s.len() > 0 && opt_string_view(s[0].id) != Some(id) {
        lemma_spine_id_pos(s.drop_first(), id);
        assert forall|j: int|
            0 <= j < s.len() && (spine_id_pos(s, id) < 0 || j < spine_id_pos(s, id)) implies opt_string_view(
            #[trigger] s[j].id,
        ) != Some(id) by {
            if j > 0 {
                assert(s[j] == s.drop_first()[j - 1]);
            }
        }
    }
}

/// The positions, in order, of the first `k` entries that refer to `idref`.
pub open spec fn idref_positions(s: Seq<EpubSpineEntryData>, idref: Seq<char>, k: int) -> Seq<int>
    decreases k,
{
    if k <= 0 {
        Seq::empty()
    } else {
        let r = idref_positions(s, idref, k - 1);
        if s[k - 1].idref@ == idref {
            r.push(k - 1)
        } else {
            r
        }
    }
}

/// A read-only view over the spine.
#[derive(Copy, Clone, Debug)]
pub struct EpubSpine<'ebook> {
    ctx: EpubPackageMetaContext<'ebook>,
    manifest: &'ebook EpubManifestData,
    spine: &'ebook EpubSpineData,
}

/// A read-only view over one spine entry and its position in the reading order.
#[derive(Copy, Clone, Debug)]
pub struct EpubSpineEntry<'ebook> {
    ctx: EpubPackageMetaContext<'ebook>,
    manifest: &'ebook EpubManifestData,
    data: &'ebook EpubSpineEntryData,
    index: usize,
}

impl<'ebook> EpubSpine<'ebook> {
    pub closed spec fn spec_entries(&self) -> Seq<EpubSpineEntryData> {
        self.spine.entries@
    }

    pub closed spec fn spec_page_direction(&self) -> PageDirection {
        self.spine.page_direction
    }

    pub closed spec fn spec_manifest(&self) -> EpubManifestData {
        *self.manifest
    }

    pub closed spec fn spec_ctx(&self) -> EpubPackageMetaContext<'ebook> {
        self.ctx
    }

    pub fn new(
        ctx: EpubPackageMetaContext<'ebook>,
        manifest: &'ebook EpubManifestData,
        spine: &'ebook EpubSpineData,
    ) -> (r: Self)
        ensures
            r.spec_entries() == spine.entries@,
            r.spec_page_direction() == spine.page_direction,
            r.spec_manifest() == *manifest,
            r.spec_ctx() == ctx,
    {
        EpubSpine { ctx, manifest, spine }
    }

    fn entry(&self, index: usize) -> (r: EpubSpineEntry<'ebook>)
        requires
            index < self.spec_entries().len(),
        ensures
            r.spec_data() == self.spec_entries()[index as int],
            r.spec_order() == index,
            r.spec_manifest() == self.spec_manifest(),
            r.spec_ctx() == self.spec_ctx(),
    {
        EpubSpineEntry { ctx: self.ctx, manifest: self.manifest, data: &self.spine.entries[index], index }
    }

    /// The first entry with the given `id`.
    pub fn by_id(&self, id: &str) -> (r: Option<EpubSpineEntry<'ebook>>)
        ensures
            match r {
                Some(e) => {
                    let i = spine_id_pos(self.spec_entries(), id@);
                    &&& i >= 0
                    &&& e.spec_order() == i
                    &&& e.spec_data() == self.spec_entries()[i]
                },
                None => spine_id_pos(self.spec_entries(), id@) == -1,
            },
    {
        proof {
            lemma_spine_id_pos(self.spec_entries(), id@);
        }
        let n = self.spine.entries.len();
        let mut i: usize = 0;
        while i < n
            invariant
                n == self.spec_entries().len(),
                i <= n,
                forall|j: int| 0 <= j < i ==> opt_string_view(#[trigger] self.spec_entries()[j].id) != Some(id@),
                -1 <= spine_id_pos(self.spec_entries(), id@) < n,
                spine_id_pos(self.spec_entries(), id@) >= 0 ==> opt_string_view(
                    self.spec_entries()[spine_id_pos(self.spec_entries(), id@)].id,
                ) == Some(id@),
                forall|j: int|
                    0 <= j < n && (spine_id_pos(self.spec_entries(), id@) < 0 || j < spine_id_pos(
                        self.spec_entries(),
                        id@,
                    )) ==> opt_string_view(#[trigger] self.spec_entries()[j].id) != Some(id@),
            decreases n - i,
        {
            if opt_eq_str(&self.spine.entries[i].id, id) {
                return Some(self.entry(i));
            }
            i = i + 1;
        }
        None
    }

    /// The entries that refer to the manifest item `idref`, in reading order.
    pub fn by_idref(&self, idref: &str) -> (r: Vec<EpubSpineEntry<'ebook>>)
        ensures
            ({
                let ps = idref_positions(self.spec_entries(), idref@, self.spec_entries().len() as int);
                &&& r@.len() == ps.len()
                &&& forall|k: int|
                    0 <= k < r@.len() ==> (#[trigger] r@[k]).spec_order() == ps[k] && r@[k].spec_data()
                        == self.spec_entries()[ps[k]]
            }),
    {
        let n = self.spine.entries.len();
        let mut out: Vec<EpubSpineEntry<'ebook>> = Vec::new();
        for i in 0..n
            invariant
                n == self.spec_entries().len(),
                ({
                    let ps = idref_positions(self.spec_entries(), idref@, i as int);
                    &&& out@.len() == ps.len()
                    &&& forall|k: int|
                        0 <= k < out@.len() ==> (#[trigger] out@[k]).spec_order() == ps[k]
                            && out@[k].spec_data() == self.spec_entries()[ps[k]]
                }),
        {
            if str_eq(self.spine.entries[i].idref.as_str(), idref) {
                out.push(self.entry(i));
            }
        }
        out
    }

    /// The direction in which pages progress.
    pub fn page_direction(&self) -> (r: PageDirection)
        ensures
            r == self.spec_page_direction(),
    {
        self.spine.page_direction
    }

    /// The number of entries.
    pub fn len(&self) -> (r: usize)
        ensures
            r == self.spec_entries().len(),
    {
        self.spine.entries.len()
    }

    /// Returns `true` if there are no entries.
    pub fn is_empty(&self) -> (r: bool)
        ensures
            r == (self.spec_entries().len() == 0),
    {
        self.spine.entries.len() == 0
    }

    /// The entry at position `index` of the reading order.
    pub fn get(&self, index: usize) -> (r: Option<EpubSpineEntry<'ebook>>)
        ensures
            match r {
                Some(e) => index < self.spec_entries().len() && e.spec_order() == index && e.spec_data()
                    == self.spec_entries()[index as int],
                None => index >= self.spec_entries().len(),
            },
    {
        if index < self.spine.entries.len() {
            Some(self.entry(index))
        } else {
            None
        }
    }

    /// Every entry, in reading order.
    pub fn iter(&self) -> (r: Vec<EpubSpineEntry<'ebook>>)
        ensures
            r@.len() == self.spec_entries().len(),
            forall|k: int|
                0 <= k < r@.len() ==> (#[trigger] r@[k]).spec_order() == k && r@[k].spec_data()
                    == self.spec_entries()[k],
    {
        let n = self.spine.entries.len();
        let mut out: Vec<EpubSpineEntry<'ebook>> = Vec::new();
        for i in 0..n
            invariant
                n == self.spec_entries().len(),
                out@.len() == i,
                forall|k: int|
                    0 <= k < out@.len() ==> (#[trigger] out@[k]).spec_order() == k && out@[k].spec_data()
                        == self.spec_entries()[k],
        {
            out.push(self.entry(i));
        }
        out
    }
}

impl<'ebook> EpubSpineEntry<'ebook> {
    pub closed spec fn spec_data(&self) -> EpubSpineEntryData {
        *self.data
    }

    pub closed spec fn spec_order(&self) -> usize {
        self.index
    }

    pub closed spec fn spec_manifest(&self) -> EpubManifestData {
        *self.manifest
    }

    pub closed spec fn spec_ctx(&self) -> EpubPackageMetaContext<'ebook> {
        self.ctx
    }

    /// The `id` of the entry.
    pub fn id(&self) -> (r: Option<&'ebook str>)
        ensures
            crate::text::opt_str_view(r) == opt_string_view(self.spec_data().id),
    {
        opt_as_str(&self.data.id)
    }

    /// The `id` of the manifest item the entry refers to.
    pub fn idref(&self) -> (r: &'ebook str)
        ensures
            r@ == self.spec_data().idref@,
    {
        self.data.idref.as_str()
    }

    /// Returns `true` if the entry is part of the linear reading order.
    pub fn is_linear(&self) -> (r: bool)
        ensures
            r == self.spec_data().linear,
    {
        self.data.linear
    }

    /// The properties of the entry.
    pub fn properties(&self) -> (r: &'ebook Properties)
        ensures
            *r == self.spec_data().properties,
    {
        &self.data.properties
    }

    /// The attributes of the entry.
    pub fn attributes(&self) -> (r: &'ebook Attributes)
        ensures
            *r == self.spec_data().attributes,
    {
        &self.data.attributes
    }

    /// The refinements of the entry.
    pub fn refinements(&self) -> (r: EpubRefinements<'ebook>)
        ensures
            r.spec_data() == self.spec_data().refinements,
            r.spec_parent_id() == opt_string_view(self.spec_data().id),
            r.spec_ctx() == self.spec_ctx(),
    {
        EpubRefinements::new(self.ctx, opt_as_str(&self.data.id), &self.data.refinements)
    }

    /// The position of the entry in the reading order.
    pub fn order(&self) -> (r: usize)
        ensures
            r == self.spec_order(),
    {
        self.index
    }

    /// The manifest item the entry refers to, if there is one.
    pub fn manifest_entry(&self) -> (r: Option<EpubManifestEntry<'ebook>>)
        ensures
            match r {
                Some(m) => {
                    let i = id_pos(self.spec_manifest().items(), self.spec_data().idref@);
                    &&& i >= 0
                    &&& m.spec_id() == self.spec_data().idref@
                    &&& m.spec_data() == self.spec_manifest().items()[i].1
                },
                None => id_pos(self.spec_manifest().items(), self.spec_data().idref@) == -1,
            },
    {
        match self.manifest.by_id(self.data.idref.as_str()) {
            Some((k, v)) => Some(EpubManifestEntry::new(k.as_str(), v)),
            None => None,
        }
    }
}

/// `a` and `b` hold the same spine entry (strings by their text, attributes by name and
/// value, refinements as in [`crate::metadata::same_entry`]).
pub open spec fn same_spine_entry(a: EpubSpineEntryData, b: EpubSpineEntryData) -> bool {
    &&& opt_string_view(a.id) == opt_string_view(b.id)
    &&& a.idref@ == b.idref@
    &&& a.linear == b.linear
    &&& a.properties@ == b.properties@
    &&& crate::element::same_attributes(a.attributes@, b.attributes@)
    &&& a.refinements.0@.len() == b.refinements.0@.len()
    &&& crate::metadata::same_entries(a.refinements.0@, b.refinements.0@, a.refinements.0@.len())
}

impl EpubSpineEntryData {
    /// A copy of the entry.
    pub fn duplicate(&self) -> (r: Self)
        ensures
            same_spine_entry(r, *self),
    {
        EpubSpineEntryData {
            id: match &self.id {
                Some(x) => Some(x.clone()),
                None => None,
            },
            idref: self.idref.clone(),
            linear: self.linear,
            properties: self.properties.duplicate(),
            attributes: self.attributes.duplicate(),
            refinements: self.refinements.duplicate(),
        }
    }
}

impl<'ebook> EpubSpineEntry<'ebook> {
    /// A detached copy of the entry.
    pub fn to_detached(&self) -> (r: DetachedEpubSpineEntry)
        ensures
            same_spine_entry(r.spec_data(), self.spec_data()),
    {
        DetachedEpubSpineEntry(self.data.duplicate())
    }
}

// ---------------------------------------------------------------------------
// Editing
// ---------------------------------------------------------------------------

/// A mutable view over the spine.
pub struct EpubSpineMut<'ebook> {
    pub ctx: EpubPackageMetaContext<'ebook>,
    pub spine: &'ebook mut EpubSpineData,
}

/// A mutable view over one spine entry.
pub struct EpubSpineEntryMut<'ebook> {
    pub ctx: EpubPackageMetaContext<'ebook>,
    pub data: &'ebook mut EpubSpineEntryData,
    pub index: usize,
}

impl<'ebook> EpubSpineMut<'ebook> {
    /// Sets the page direction, returning the previous one.
    pub fn set_page_direction(&mut self, page_direction: PageDirection) -> (r: PageDirection)
        ensures
            r == old(self).spine.page_direction,
            final(self).spine.page_direction == page_direction,
            final(self).spine.entries@ == old(self).spine.entries@,
            *final(final(self).spine) == *final(old(self).spine),
    {
        let old_direction = self.spine.page_direction;
        self.spine.page_direction = page_direction;
        old_direction
    }

    /// Appends an entry at the end of the reading order.
    pub fn push(&mut self, detached: DetachedEpubSpineEntry)
        ensures
            final(self).spine.entries@ == old(self).spine.entries@.push(detached.spec_data()),
            final(self).spine.page_direction == old(self).spine.page_direction,
            *final(final(self).spine) == *final(old(self).spine),
    {
        self.spine.entries.push(detached.into_data());
    }

    /// Inserts an entry at position `index` of the reading order.
    pub fn insert(&mut self, index: usize, detached: DetachedEpubSpineEntry)
        requires
            index <= old(self).spine.entries@.len(),
        ensures
            final(self).spine.entries@ == old(self).spine.entries@.insert(index as int, detached.spec_data()),
            final(self).spine.page_direction == old(self).spine.page_direction,
            *final(final(self).spine) == *final(old(self).spine),
    {
        self.spine.entries.insert(index, detached.into_data());
    }

    /// A mutable view over the entry at `index`, if `index < len`.
    pub fn get_mut(&mut self, index: usize) -> (r: Option<EpubSpineEntryMut<'_>>)
        ensures
            match r {
                Some(e) => {
                    &&& index < old(self).spine.entries@.len()
                    &&& *e.data == old(self).spine.entries@[index as int]
                    &&& e.index == index
                    &&& e.ctx == old(self).ctx
                    &&& final(self).spine.entries@ == old(self).spine.entries@.update(index as int, *final(e.data))
                    &&& final(self).spine.page_direction == old(self).spine.page_direction
                },
                None => index >= old(self).spine.entries@.len() && *final(self).spine == *old(self).spine,
            },
            *final(final(self).spine) == *final(old(self).spine),
    {
        if index < self.spine.entries.len() {
            Some(EpubSpineEntryMut { ctx: self.ctx, data: &mut self.spine.entries[index], index })
        } else {
            None
        }
    }

    /// A mutable view over the first entry with the given `id`.
    pub fn by_id_mut(&mut self, id: &str) -> (r: Option<EpubSpineEntryMut<'_>>)
        ensures
            ({
                let i = spine_id_pos(old(self).spine.entries@, id@);
                match r {
                    Some(e) => {
                        &&& i >= 0
                        &&& *e.data == old(self).spine.entries@[i]
                        &&& e.index == i
                        &&& final(self).spine.entries@ == old(self).spine.entries@.update(i, *final(e.data))
                        &&& final(self).spine.page_direction == old(self).spine.page_direction
                    },
                    None => i == -1 && *final(self).spine == *old(self).spine,
                }
            }),
            *final(final(self).spine) == *final(old(self).spine),
    {
        match index_of_id(&self.spine.entries, id) {
            Some(i) => self.get_mut(i),
            None => None,
        }
    }

    /// Removes and returns the entry at `index`.
    pub fn remove(&mut self, index: usize) -> (r: DetachedEpubSpineEntry)
        requires
            index < old(self).spine.entries@.len(),
        ensures
            r.spec_data() == old(self).spine.entries@[index as int],
            final(self).spine.entries@ == old(self).spine.entries@.remove(index as int),
            final(self).spine.page_direction == old(self).spine.page_direction,
            *final(final(self).spine) == *final(old(self).spine),
    {
        DetachedEpubSpineEntry(self.spine.entries.remove(index))
    }

    /// Removes and returns the first entry with the given `id`, if any.
    pub fn remove_by_id(&mut self, id: &str) -> (r: Option<DetachedEpubSpineEntry>)
        ensures
            ({
                let i = spine_id_pos(old(self).spine.entries@, id@);
                match r {
                    Some(d) => i >= 0 && d.spec_data() == old(self).spine.entries@[i]
                        && final(self).spine.entries@ == old(self).spine.entries@.remove(i),
                    None => i == -1 && final(self).spine.entries@ == old(self).spine.entries@,
                }
            }),
            final(self).spine.page_direction == old(self).spine.page_direction,
            *final(final(self).spine) == *final(old(self).spine),
    {
        match index_of_id(&self.spine.entries, id) {
            Some(i) => Some(self.remove(i)),
            None => None,
        }
    }

    /// Keeps only the entries for which `f` returns `false` (those for which it returns `true` are removed), in order.
    pub fn retain<F: Fn(&EpubSpineEntryData) -> bool>(&mut self, f: F)
        requires
            forall|x: &EpubSpineEntryData| #[trigger] f.requires((x,)),
        ensures
            exists|d: Seq<bool>|
                #![trigger select(old(self).spine.entries@, d, false)]
                d.len() == old(self).spine.entries@.len() && (forall|i: int|
                    0 <= i < d.len() ==> f.ensures((&old(self).spine.entries@[i],), #[trigger] d[i]))
                    && final(self).spine.entries@ == select(old(self).spine.entries@, d, false),
            final(self).spine.page_direction == old(self).spine.page_direction,
            *final(final(self).spine) == *final(old(self).spine),
    {
        let mut items: Vec<EpubSpineEntryData> = Vec::new();
        std::mem::swap(&mut items, &mut self.spine.entries);
        let (_, kept) = split_vec(items, &f);
        self.spine.entries = kept;
    }

    /// Removes and returns the entries for which `f` returns `true`, in order.
    pub fn extract_if<F: Fn(&EpubSpineEntryData) -> bool>(&mut self, f: F) -> (r: Vec<DetachedEpubSpineEntry>)
        requires
            forall|x: &EpubSpineEntryData| #[trigger] f.requires((x,)),
        ensures
            exists|d: Seq<bool>|
                #![trigger select(old(self).spine.entries@, d, true)]
                d.len() == old(self).spine.entries@.len() && (forall|i: int|
                    0 <= i < d.len() ==> f.ensures((&old(self).spine.entries@[i],), #[trigger] d[i]))
                    && final(self).spine.entries@ == select(old(self).spine.entries@, d, false)
                    && r@.len() == select(old(self).spine.entries@, d, true).len() && forall|k: int|
                    0 <= k < r@.len() ==> (#[trigger] r@[k]).spec_data() == select(
                        old(self).spine.entries@,
                        d,
                        true,
                    )[k],
            final(self).spine.page_direction == old(self).spine.page_direction,
            *final(final(self).spine) == *final(old(self).spine),
    {
        let mut items: Vec<EpubSpineEntryData> = Vec::new();
        std::mem::swap(&mut items, &mut self.spine.entries);
        let (taken, rest) = split_vec(items, &f);
        self.spine.entries = rest;
        detach_all(taken)
    }

    /// Removes and returns every entry, in order.
    pub fn drain(&mut self) -> (r: Vec<DetachedEpubSpineEntry>)
        ensures
            r@.len() == old(self).spine.entries@.len(),
            forall|k: int| 0 <= k < r@.len() ==> (#[trigger] r@[k]).spec_data() == old(self).spine.entries@[k],
            final(self).spine.entries@.len() == 0,
            final(self).spine.page_direction == old(self).spine.page_direction,
            *final(final(self).spine) == *final(old(self).spine),
    {
        let mut items: Vec<EpubSpineEntryData> = Vec::new();
        std::mem::swap(&mut items, &mut self.spine.entries);
        detach_all(items)
    }

    /// Removes every entry.
    pub fn clear(&mut self)
        ensures
            final(self).spine.entries@.len() == 0,
            final(self).spine.page_direction == old(self).spine.page_direction,
            *final(final(self).spine) == *final(old(self).spine),
    {
        self.spine.entries.clear();
    }

    /// The spine being edited.
    pub closed spec fn spec_spine(&self) -> EpubSpineData {
        *self.spine
    }

    /// A read-only view over the spine.
    pub fn as_view<'a>(&'a self, manifest: &'a EpubManifestData) -> (r: EpubSpine<'a>)
        ensures
            r.spec_entries() == self.spec_spine().entries@,
            r.spec_page_direction() == self.spec_spine().page_direction,
            r.spec_manifest() == *manifest,
    {
        EpubSpine::new(self.ctx, manifest, self.spine)
    }
}

/// The position of the first entry with the given `id`.
fn index_of_id(entries: &Vec<EpubSpineEntryData>, id: &str) -> (r: Option<usize>)
    ensures
        match r {
            Some(i) => i as int == spine_id_pos(entries@, id@) && i < entries@.len(),
            None => spine_id_pos(entries@, id@) == -1,
        },
{
    proof {
        lemma_spine_id_pos(entries@, id@);
    }
    let n = entries.len();
    let mut i: usize = 0;
    while i < n
        invariant
            n == entries@.len(),
            i <= n,
            forall|j: int| 0 <= j < i ==> opt_string_view(#[trigger] entries@[j].id) != Some(id@),
            -1 <= spine_id_pos(entries@, id@) < n,
            spine_id_pos(entries@, id@) >= 0 ==> opt_string_view(
                entries@[spine_id_pos(entries@, id@)].id,
            ) == Some(id@),
            forall|j: int|
                0 <= j < n && (spine_id_pos(entries@, id@) < 0 || j < spine_id_pos(
                    entries@,
                    id@,
                )) ==> opt_string_view(#[trigger] entries@[j].id) != Some(id@),
        decreases n - i,
    {
        if opt_eq_str(&entries[i].id, id) {
            return Some(i);
        }
        i = i + 1;
    }
    None
}

/// Wraps each entry as detached, in order.
fn detach_all(items: Vec<EpubSpineEntryData>) -> (r: Vec<DetachedEpubSpineEntry>)
    ensures
        r@.len() == items@.len(),
        forall|k: int| 0 <= k < r@.len() ==> (#[trigger] r@[k]).spec_data() == items@[k],
{
    let ghost all = items@;
    let mut items = items;
    let mut rev: Vec<DetachedEpubSpineEntry> = Vec::new();
    while items.len() > 0
        invariant
            items@.len() + rev@.len() == all.len(),
            items@ == all.take(items@.len() as int),
            forall|k: int|
                0 <= k < rev@.len() ==> (#[trigger] rev@[k]).spec_data() == all[all.len() - 1 - k],
        decreases items@.len(),
    {
        let x = items.pop().unwrap();
        proof {
            assert(x == all[items@.len() as int]);
            assert(items@ =~= all.take(items@.len() as int));
        }
        rev.push(DetachedEpubSpineEntry(x));
    }
    let mut out: Vec<DetachedEpubSpineEntry> = Vec::new();
    while rev.len() > 0
        invariant
            rev@.len() + out@.len() == all.len(),
            forall|k: int| 0 <= k < rev@.len() ==> (#[trigger] rev@[k]).spec_data() == all[all.len() - 1 - k],
            forall|k: int| 0 <= k < out@.len() ==> (#[trigger] out@[k]).spec_data() == all[k],
        decreases rev@.len(),
    {
        let x = rev.pop().unwrap();
        out.push(x);
    }
    out
}

impl<'ebook> EpubSpineEntryMut<'ebook> {
    /// Sets (or clears) the `id`, returning the previous one.
    pub fn set_id(&mut self, id: Option<String>) -> (r: Option<String>)
        ensures
            r == old(self).data.id,
            *final(self).data == (EpubSpineEntryData { id: id, ..*old(self).data }),
            *final(final(self).data) == *final(old(self).data),
    {
        crate::keyed::replace(&mut self.data.id, id)
    }

    /// Sets the manifest item the entry refers to, returning the previous `idref`.
    pub fn set_idref(&mut self, idref: &str) -> (r: String)
        ensures
            r == old(self).data.idref,
            final(self).data.idref@ == idref@,
            *final(self).data == (EpubSpineEntryData { idref: final(self).data.idref, ..*old(self).data }),
            *final(final(self).data) == *final(old(self).data),
    {
        crate::keyed::replace(&mut self.data.idref, crate::text::to_string(idref))
    }

    /// Sets whether the entry is linear, returning the previous setting.
    pub fn set_linear(&mut self, linear: bool) -> (r: bool)
        ensures
            r == old(self).data.linear,
            *final(self).data == (EpubSpineEntryData { linear: linear, ..*old(self).data }),
            *final(final(self).data) == *final(old(self).data),
    {
        crate::keyed::replace(&mut self.data.linear, linear)
    }

    /// The properties of the entry, for editing.
    pub fn properties_mut(&mut self) -> (r: &mut Properties)
        ensures
            *r == old(self).data.properties,
            *final(self).data == (EpubSpineEntryData { properties: *final(r), ..*old(self).data }),
            *final(final(self).data) == *final(old(self).data),
    {
        &mut self.data.properties
    }

    /// The attributes of the entry, for editing.
    pub fn attributes_mut(&mut self) -> (r: &mut Attributes)
        ensures
            *r == old(self).data.attributes,
            *final(self).data == (EpubSpineEntryData { attributes: *final(r), ..*old(self).data }),
            *final(final(self).data) == *final(old(self).data),
    {
        &mut self.data.attributes
    }

    /// The refinements of the entry, for editing.
    pub fn refinements_mut(&mut self) -> (r: EpubRefinementsMut<'_>)
        ensures
            *r.data == old(self).data.refinements,
            r.ctx == old(self).ctx,
            opt_str_view_of(r.parent_id) == opt_string_view(old(self).data.id),
            *final(self).data == (EpubSpineEntryData { refinements: *final(r.data), ..*old(self).data }),
            *final(final(self).data) == *final(old(self).data),
    {
        let data = &mut *self.data;
        EpubRefinementsMut {
            ctx: self.ctx,
            parent_id: opt_as_str(&data.id),
            data: &mut data.refinements,
        }
    }
}

/// The view of an optional string slice.
pub open spec fn opt_str_view_of(o: Option<&str>) -> Option<Seq<char>> {
    crate::text::opt_str_view(o)
}

} // verus!
