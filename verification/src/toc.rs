//! Tables of contents: nested entries, their detached builder, and the update of
//! entries when a resource they point at moves.
use vstd::prelude::*;
use crate::consts;
use crate::element::{Attribute, Attributes, insert_keyed};
use crate::keyed::{select, split_vec};
use crate::manifest::{EpubManifestData, EpubManifestEntry, resolve_href, spec_resolve_href};
use crate::metadata::{EpubVersion, Version, spec_as_major};
use crate::text::{chars_of, concat, find_either, first_index_of_either, opt_as_str, opt_str_view, opt_string_view, str_eq, to_string};
use crate::uri;

verus! {

broadcast use vstd::string::group_string_axioms;

/// One entry of a table of contents, with its nested entries.
#[derive(Debug)]
pub struct EpubTocEntryData {
    pub id: Option<String>,
    pub label: String,
    pub kind: Option<String>,
    /// The resolved location, when known.
    pub href: Option<String>,
    /// The location as written.
    pub href_raw: Option<String>,
    pub attributes: Attributes,
    pub children: Vec<EpubTocEntryData>,
}

/// The query and fragment of `h` (from the first `?` or `#` on; empty without either).
pub open spec fn query_and_fragment(h: Seq<char>) -> Seq<char> {
    let i = first_index_of_either(h, '?', '#');
    if i < 0 {
        Seq::empty()
    } else {
        h.skip(i)
    }
}

/// `after` is `before` with every location (at any depth) whose path is `old` moved to
/// `new`, keeping its query and fragment and dropping the written form.
pub open spec fn cascaded(
    before: EpubTocEntryData,
    after: EpubTocEntryData,
    old: Seq<char>,
    new: Seq<char>,
) -> bool
    decreases before,
{
    &&& after.id == before.id
    &&& after.label == before.label
    &&& after.kind == before.kind
    &&& after.attributes == before.attributes
    &&& match before.href {
        Some(h) => if uri::spec_path(h@) == old {
            &&& opt_string_view(after.href) == Some(new + query_and_fragment(h@))
            &&& after.href_raw is None
        } else {
            after.href == before.href && after.href_raw == before.href_raw
        },
        None => after.href is None && after.href_raw == before.href_raw,
    }
    &&& after.children@.len() == before.children@.len()
    &&& forall|i: int|
        0 <= i < before.children@.len() ==> cascaded(
            #[trigger] before.children@[i],
            after.children@[i],
            old,
            new,
        )
}

impl EpubTocEntryData {
    /// An entry with the given label and nothing else.
    pub fn with_label(label: &str) -> (r: Self)
        ensures
            r.label@ == label@,
            r.id is None && r.kind is None && r.href is None && r.href_raw is None,
            r.attributes@.len() == 0,
            r.children@.len() == 0,
    {
        EpubTocEntryData {
            id: None,
            label: to_string(label),
            kind: None,
            href: None,
            href_raw: None,
            attributes: Attributes::empty(),
            children: Vec::new(),
        }
    }

    /// Points every location (at any depth) whose path is `old` at `new` instead,
    /// keeping its query and fragment.
    pub fn cascade_toc_href(&mut self, old_href: &str, new_href: &str)
        ensures
            cascaded(*old(self), *final(self), old_href@, new_href@),
        decreases *old(self),
    {
        let ghost before = *self;
        let mut moved: Option<String> = None;
        match &self.href {
            Some(h) => {
                if str_eq(uri::path(h.as_str()), old_href) {
                    let v = chars_of(h.as_str());
                    let tail: &str = match find_either(&v, '?', '#') {
                        Some(i) => {
                            let n = v.len();
                            h.as_str().substring_char(i, n)
                        },
                        None => {
                            let e: &str = "";
                            proof {
                                reveal_strlit("");
                            }
                            e
                        },
                    };
                    proof {
                        assert(tail@ =~= query_and_fragment(h@));
                    }
                    moved = Some(concat(new_href, tail));
                }
            },
            None => {},
        }
        match moved {
            Some(m) => {
                self.href = Some(m);
                self.href_raw = None;
            },
            None => {},
        }
        let n = self.children.len();
        let mut i: usize = 0;
        while i < n
            invariant
                n == self.children@.len(),
                n == before.children@.len(),
                before == *old(self),
                i <= n,
                self.id == before.id,
                self.label == before.label,
                self.kind == before.kind,
                self.attributes == before.attributes,
                match before.href {
                    Some(h) => if uri::spec_path(h@) == old_href@ {
                        &&& opt_string_view(self.href) == Some(new_href@ + query_and_fragment(h@))
                        &&& self.href_raw is None
                    } else {
                        self.href == before.href && self.href_raw == before.href_raw
                    },
                    None => self.href is None && self.href_raw == before.href_raw,
                },
                forall|k: int| 0 <= k < i ==> cascaded(#[trigger] before.children@[k], self.children@[k], old_href@, new_href@),
                forall|k: int| i <= k < n ==> self.children@[k] == before.children@[k],
            decreases n - i,
        {
            proof {
                assert(decreases_to!(before => before.children));
                assert(decreases_to!(before.children => before.children@));
                assert(decreases_to!(before.children@ => before.children@[i as int]));
                assert(self.children@[i as int] == before.children@[i as int]);
            }
            self.children[i].cascade_toc_href(old_href, new_href);
            i = i + 1;
        }
    }
}

/// A table of contents entry that belongs to no publication yet.
#[derive(Debug)]
pub struct DetachedEpubTocEntry {
    version: EpubVersion,
    data: EpubTocEntryData,
}

impl DetachedEpubTocEntry {
    pub closed spec fn spec_data(&self) -> EpubTocEntryData {
        self.data
    }

    pub closed spec fn spec_version(&self) -> EpubVersion {
        self.version
    }

    /// A detached copy of a root or entry of the given version.
    fn detached(version: EpubVersion, data: EpubTocEntryData) -> (r: Self)
        ensures
            r.spec_version() == version,
            r.spec_data() == data,
    {
        DetachedEpubTocEntry { version, data }
    }

    /// The version the entry was taken from.
    pub fn version(&self) -> (r: EpubVersion)
        ensures
            r == self.spec_version(),
    {
        self.version
    }

    /// An entry with the given label and nothing else; its version is unknown (`0.0`).
    pub fn new(label: &str) -> (r: Self)
        ensures
            r.spec_version() == EpubVersion::Unknown(Version(0, 0)),
            r.spec_data().label@ == label@,
            r.spec_data().id is None && r.spec_data().kind is None,
            r.spec_data().href is None && r.spec_data().href_raw is None,
            r.spec_data().attributes@.len() == 0,
            r.spec_data().children@.len() == 0,
    {
        DetachedEpubTocEntry {
            version: EpubVersion::Unknown(Version(0, 0)),
            data: EpubTocEntryData::with_label(label),
        }
    }

    /// The entry data.
    pub fn into_data(self) -> (r: EpubTocEntryData)
        ensures
            r == self.spec_data(),
    {
        self.data
    }

    /// Sets (or clears) the `id`.
    pub fn id(self, id: Option<String>) -> (r: Self)
        ensures
            r.spec_data() == (EpubTocEntryData { id: id, ..self.spec_data() }),
            r.spec_version() == self.spec_version(),
    {
        let mut s = self;
        s.data.id = id;
        s
    }

    /// Sets the label.
    pub fn label(self, label: &str) -> (r: Self)
        ensures
            r.spec_data().label@ == label@,
            r.spec_data() == (EpubTocEntryData { label: r.spec_data().label, ..self.spec_data() }),
            r.spec_version() == self.spec_version(),
    {
        let mut s = self;
        s.data.label = to_string(label);
        s
    }

    /// Sets (or clears) the kind (e.g. `toc`, `landmarks`, `bodymatter`).
    pub fn kind(self, kind: Option<String>) -> (r: Self)
        ensures
            r.spec_data() == (EpubTocEntryData { kind: kind, ..self.spec_data() }),
            r.spec_version() == self.spec_version(),
    {
        let mut s = self;
        s.data.kind = kind;
        s
    }

    /// Sets (or clears) the location as written; a detached entry has no resolved
    /// location.
    pub fn href(self, raw_href: Option<String>) -> (r: Self)
        ensures
            r.spec_data() == (EpubTocEntryData { href: None, href_raw: raw_href, ..self.spec_data() }),
            r.spec_version() == self.spec_version(),
    {
        let mut s = self;
        s.data.href = None;
        s.data.href_raw = raw_href;
        s
    }

    /// Inserts an attribute, replacing one with the same name in place.
    pub fn attribute(self, attribute: Attribute) -> (r: Self)
        ensures
            r.spec_data().attributes@ == insert_keyed(self.spec_data().attributes@, attribute),
            r.spec_data() == (EpubTocEntryData {
                attributes: r.spec_data().attributes,
                ..self.spec_data()
            }),
            r.spec_version() == self.spec_version(),
    {
        let mut s = self;
        s.data.attributes.insert(attribute);
        s
    }

    /// Appends a nested entry.
    pub fn children(self, child: DetachedEpubTocEntry) -> (r: Self)
        ensures
            r.spec_data().children@ == self.spec_data().children@.push(child.spec_data()),
            r.spec_data() == (EpubTocEntryData {
                children: r.spec_data().children,
                ..self.spec_data()
            }),
            r.spec_version() == self.spec_version(),
    {
        let mut s = self;
        s.data.children.push(child.data);
        s
    }
}

/// `a` and `b` hold the same entry: the same fields (strings by their text,
/// attributes by name and value) and, in order, the same nested entries.
pub open spec fn same_toc_entry(a: EpubTocEntryData, b: EpubTocEntryData) -> bool
    decreases a, 1int, 0int,
{
    &&& opt_string_view(a.id) == opt_string_view(b.id)
    &&& a.label@ == b.label@
    &&& opt_string_view(a.kind) == opt_string_view(b.kind)
    &&& opt_string_view(a.href) == opt_string_view(b.href)
    &&& opt_string_view(a.href_raw) == opt_string_view(b.href_raw)
    &&& crate::element::same_attributes(a.attributes@, b.attributes@)
    &&& a.children@.len() == b.children@.len()
    &&& same_toc_entries(a.children@, b.children@, a.children@.len())
}

/// The first `k` entries of `s` and `t` are the same entries (see [`same_toc_entry`]).
pub open spec fn same_toc_entries(s: Seq<EpubTocEntryData>, t: Seq<EpubTocEntryData>, k: nat) -> bool
    decreases s, 0int, k,
{
    if k == 0 || k > s.len() {
        k == 0
    } else {
        same_toc_entries(s, t, (k - 1) as nat) && same_toc_entry(s[k - 1], t[k - 1])
    }
}

proof fn lemma_same_toc_push(s: Seq<EpubTocEntryData>, t: Seq<EpubTocEntryData>, x: EpubTocEntryData, y: EpubTocEntryData, k: nat)
    requires
        k <= s.len(),
        k <= t.len(),
        same_toc_entries(s, t, k),
    ensures
        same_toc_entries(s.push(x), t.push(y), k),
    decreases k,
{
    if k > 0 {
        lemma_same_toc_push(s, t, x, y, (k - 1) as nat);
        assert(s.push(x)[k - 1] == s[k - 1]);
        assert(t.push(y)[k - 1] == t[k - 1]);
    }
}

proof fn lemma_same_toc_take(s: Seq<EpubTocEntryData>, t: Seq<EpubTocEntryData>, k: nat, m: int)
    requires
        k <= m <= t.len(),
    ensures
        same_toc_entries(s, t, k) == same_toc_entries(s, t.take(m), k),
    decreases k,
{
    if k > 0 && k <= s.len() {
        lemma_same_toc_take(s, t, (k - 1) as nat, m);
        assert(t.take(m)[k - 1] == t[k - 1]);
    }
}

fn copy_opt(o: &Option<String>) -> (r: Option<String>)
    ensures
        opt_string_view(r) == opt_string_view(*o),
{
    match o {
        Some(x) => Some(x.clone()),
        None => None,
    }
}

impl EpubTocEntryData {
    /// A copy of the entry, with copies of its nested entries.
    pub fn duplicate(&self) -> (r: Self)
        ensures
            same_toc_entry(r, *self),
        decreases *self,
    {
        let items = &self.children;
        let n = items.len();
        let mut out: Vec<EpubTocEntryData> = Vec::new();
        let mut i: usize = 0;
        while i < n
            invariant
                n == items@.len(),
                items@ == self.children@,
                i <= n,
                out@.len() == i,
                same_toc_entries(out@, items@, i as nat),
            decreases n - i,
        {
            proof {
                assert(decreases_to!(*self => self.children));
                assert(decreases_to!(self.children => self.children@));
                assert(decreases_to!(self.children@ => self.children@[i as int]));
            }
            let c = items[i].duplicate();
            proof {
                lemma_same_toc_take(out@, items@, i as nat, i as int);
                lemma_same_toc_push(out@, items@.take(i as int), c, items@[i as int], i as nat);
                assert(items@.take(i as int).push(items@[i as int]) =~= items@.take(i + 1));
                assert(out@.push(c)[i as int] == c);
                assert(same_toc_entries(out@.push(c), items@.take(i + 1), (i + 1) as nat));
                lemma_same_toc_take(out@.push(c), items@, (i + 1) as nat, (i + 1) as int);
            }
            out.push(c);
            i = i + 1;
        }
        EpubTocEntryData {
            id: copy_opt(&self.id),
            label: self.label.clone(),
            kind: copy_opt(&self.kind),
            href: copy_opt(&self.href),
            href_raw: copy_opt(&self.href_raw),
            attributes: self.attributes.duplicate(),
            children: out,
        }
    }
}

/// The entry `e` at `depth` followed by its nested entries, depth first (an entry
/// before its nested ones), each with its depth.
pub open spec fn flat_entry(e: EpubTocEntryData, depth: int) -> Seq<(EpubTocEntryData, int)>
    decreases e, 1int, 0int,
{
    seq![(e, depth)] + flat_list(e.children@, depth + 1, e.children@.len())
}

/// The first `k` entries of `s` at `depth`, each followed by its nested entries (see
/// [`flat_entry`]).
pub open spec fn flat_list(s: Seq<EpubTocEntryData>, depth: int, k: nat) -> Seq<(EpubTocEntryData, int)>
    decreases s, 0int, k,
{
    if k == 0 || k > s.len() {
        Seq::empty()
    } else {
        flat_list(s, depth, (k - 1) as nat) + flat_entry(s[k - 1], depth)
    }
}

/// How many entries a flattening gives does not depend on the depth it starts at; an
/// entry gives at least as many as any one of its nested entries, plus one.
proof fn lemma_flat_len(e: EpubTocEntryData, d1: int, d2: int)
    ensures
        flat_entry(e, d1).len() == flat_entry(e, d2).len(),
        flat_entry(e, d1).len() >= 1,
        forall|j: int| 0 <= j < e.children@.len() ==> flat_entry(e, d1).len() >= 1 + flat_entry(#[trigger] e.children@[j], d1 + 1).len(),
    decreases e, 1int, 0int,
{
    lemma_flat_list_len(e.children@, d1 + 1, d2 + 1, e.children@.len());
}

proof fn lemma_flat_list_len(s: Seq<EpubTocEntryData>, d1: int, d2: int, k: nat)
    requires
        k <= s.len(),
    ensures
        flat_list(s, d1, k).len() == flat_list(s, d2, k).len(),
        forall|j: int| 0 <= j < k ==> flat_list(s, d1, k).len() >= flat_entry(#[trigger] s[j], d1).len(),
    decreases s, 0int, k,
{
    if k > 0 {
        lemma_flat_list_len(s, d1, d2, (k - 1) as nat);
        lemma_flat_len(s[k - 1], d1, d2);
    }
}

/// Every entry of a flattening from `depth` is at least that deep.
proof fn lemma_flat_depths(e: EpubTocEntryData, depth: int)
    ensures
        forall|k: int| 0 <= k < flat_entry(e, depth).len() ==> (#[trigger] flat_entry(e, depth)[k]).1 >= depth,
    decreases e, 1int, 0int,
{
    lemma_flat_list_depths(e.children@, depth + 1, e.children@.len());
    let f = flat_entry(e, depth);
    let t = flat_list(e.children@, depth + 1, e.children@.len());
    assert forall|k: int| 0 <= k < f.len() implies (#[trigger] f[k]).1 >= depth by {
        if k > 0 {
            assert(f[k] == t[k - 1]);
        }
    }
}

/// Flattening an entry from `depth` lists the entry itself first, at `depth`, then its
/// nested entries depth first, each at least one level deeper; the flattening of each
/// nested entry comes whole, in order.
pub proof fn law_flatten_preorder(e: EpubTocEntryData, depth: int)
    ensures
        flat_entry(e, depth)[0] == (e, depth),
        forall|k: int| 1 <= k < flat_entry(e, depth).len() ==> (#[trigger] flat_entry(e, depth)[k]).1 >= depth + 1,
        flat_entry(e, depth).skip(1) == flat_list(e.children@, depth + 1, e.children@.len()),
        forall|k: nat| 0 < k <= e.children@.len() ==> #[trigger] flat_list(e.children@, depth + 1, k) == flat_list(
            e.children@,
            depth + 1,
            (k - 1) as nat,
        ) + flat_entry(e.children@[k - 1], depth + 1),
{
    lemma_flat_list_depths(e.children@, depth + 1, e.children@.len());
    let f = flat_entry(e, depth);
    let t = flat_list(e.children@, depth + 1, e.children@.len());
    assert(f.skip(1) =~= t);
    assert forall|k: int| 1 <= k < f.len() implies (#[trigger] f[k]).1 >= depth + 1 by {
        assert(f[k] == t[k - 1]);
    }
}

/// `p` is a path of child positions leading from `e` to one of its entries (the
/// empty path leads to `e` itself).
pub open spec fn valid_path(e: EpubTocEntryData, p: Seq<int>) -> bool
    decreases p.len(),
{
    p.len() == 0 || (0 <= p[0] < e.children@.len() && valid_path(e.children@[p[0]], p.drop_first()))
}

/// The entry that the path `p` leads to from `e`.
pub open spec fn node_at(e: EpubTocEntryData, p: Seq<int>) -> EpubTocEntryData
    decreases p.len(),
{
    if p.len() > 0 && 0 <= p[0] < e.children@.len() {
        node_at(e.children@[p[0]], p.drop_first())
    } else {
        e
    }
}

/// Where the entry that `p` leads to stands in the flattening of `e` (see
/// [`flat_entry`]): after `e` itself and the whole flattenings of the nested entries
/// before it on the path.
pub open spec fn path_pos(e: EpubTocEntryData, p: Seq<int>) -> int
    decreases p.len(),
{
    if p.len() > 0 && 0 <= p[0] < e.children@.len() {
        1 + flat_list(e.children@, 0, p[0] as nat).len() + path_pos(e.children@[p[0]], p.drop_first())
    } else {
        0
    }
}

/// Depth-first order on paths: a path comes before every longer path it starts, and
/// paths that part come in the order of the positions where they part.
pub open spec fn path_before(p: Seq<int>, q: Seq<int>) -> bool
    decreases p.len(),
{
    if p.len() == 0 {
        q.len() > 0
    } else if q.len() == 0 {
        false
    } else if p[0] != q[0] {
        p[0] < q[0]
    } else {
        path_before(p.drop_first(), q.drop_first())
    }
}

proof fn lemma_flat_list_at(s: Seq<EpubTocEntryData>, d: int, k: nat, i: int)
    requires
        0 <= i < k <= s.len(),
    ensures
        flat_list(s, 0, i as nat).len() + flat_entry(s[i], 0).len() <= flat_list(s, d, k).len(),
        forall|j: int| 0 <= j < flat_entry(s[i], d).len() ==> #[trigger] flat_list(s, d, k)[flat_list(s, 0, i as nat).len() + j]
            == flat_entry(s[i], d)[j],
    decreases k,
{
    lemma_flat_list_len(s, d, 0, (k - 1) as nat);
    lemma_flat_len(s[k - 1], d, 0);
    lemma_flat_len(s[i], d, 0);
    let a = flat_list(s, d, (k - 1) as nat);
    let f = flat_list(s, d, k);
    if i == k - 1 {
        assert forall|j: int| 0 <= j < flat_entry(s[i], d).len() implies #[trigger] f[flat_list(s, 0, i as nat).len() + j]
            == flat_entry(s[i], d)[j] by {
            assert(f[a.len() + j] == flat_entry(s[i], d)[j]);
        }
    } else {
        lemma_flat_list_at(s, d, (k - 1) as nat, i);
        assert forall|j: int| 0 <= j < flat_entry(s[i], d).len() implies #[trigger] f[flat_list(s, 0, i as nat).len() + j]
            == flat_entry(s[i], d)[j] by {
            assert(f[flat_list(s, 0, i as nat).len() + j] == a[flat_list(s, 0, i as nat).len() + j]);
        }
    }
}

proof fn lemma_flat_offsets(s: Seq<EpubTocEntryData>, a: int, b: nat)
    requires
        0 <= a < b <= s.len(),
    ensures
        flat_list(s, 0, a as nat).len() + flat_entry(s[a], 0).len() <= flat_list(s, 0, b).len(),
    decreases b,
{
    if a < b - 1 {
        lemma_flat_offsets(s, a, (b - 1) as nat);
    }
}

proof fn lemma_path_pos(e: EpubTocEntryData, d: int, p: Seq<int>)
    requires
        valid_path(e, p),
    ensures
        0 <= path_pos(e, p) < flat_entry(e, d).len(),
        flat_entry(e, d)[path_pos(e, p)] == (node_at(e, p), d + p.len()),
    decreases p.len(),
{
    if p.len() > 0 {
        let s = e.children@;
        let i = p[0];
        let rest = p.drop_first();
        lemma_path_pos(s[i], d + 1, rest);
        lemma_flat_list_at(s, d + 1, s.len(), i);
        lemma_flat_len(s[i], d + 1, 0);
        let off = flat_list(s, 0, i as nat).len();
        let pc = path_pos(s[i], rest);
        let t = flat_list(s, d + 1, s.len());
        assert(off + pc < t.len());
        assert(t[off + pc] == flat_entry(s[i], d + 1)[pc]);
        assert(flat_entry(e, d) == seq![(e, d)] + t);
        assert(flat_entry(e, d)[1 + off + pc] == t[off + pc]);
    }
}

proof fn lemma_flat_list_find(s: Seq<EpubTocEntryData>, d: int, k: nat, j: int) -> (i: int)
    requires
        k <= s.len(),
        0 <= j < flat_list(s, d, k).len(),
    ensures
        0 <= i < k,
        flat_list(s, 0, i as nat).len() <= j < flat_list(s, 0, i as nat).len() + flat_entry(s[i], 0).len(),
    decreases k,
{
    lemma_flat_list_len(s, d, 0, (k - 1) as nat);
    lemma_flat_len(s[k - 1], d, 0);
    if j < flat_list(s, d, (k - 1) as nat).len() {
        lemma_flat_list_find(s, d, (k - 1) as nat, j)
    } else {
        k - 1
    }
}

proof fn lemma_path_of(e: EpubTocEntryData, d: int, k: int) -> (p: Seq<int>)
    requires
        0 <= k < flat_entry(e, d).len(),
    ensures
        valid_path(e, p),
        path_pos(e, p) == k,
    decreases e,
{
    if k == 0 {
        Seq::empty()
    } else {
        let s = e.children@;
        let i = lemma_flat_list_find(s, d + 1, s.len(), k - 1);
        let off = flat_list(s, 0, i as nat).len();
        lemma_flat_len(s[i], 0, d + 1);
        assert(decreases_to!(e => e.children));
        assert(decreases_to!(e.children => e.children@));
        assert(decreases_to!(e.children@ => e.children@[i]));
        let q = lemma_path_of(s[i], d + 1, k - 1 - off);
        let p = seq![i] + q;
        assert(p.drop_first() =~= q);
        p
    }
}

proof fn lemma_path_before_pos(e: EpubTocEntryData, p: Seq<int>, q: Seq<int>)
    requires
        valid_path(e, p),
        valid_path(e, q),
        path_before(p, q),
    ensures
        path_pos(e, p) < path_pos(e, q),
    decreases p.len(),
{
    let s = e.children@;
    lemma_path_pos(s[q[0]], 0, q.drop_first());
    if p.len() > 0 {
        if p[0] == q[0] {
            lemma_path_before_pos(s[p[0]], p.drop_first(), q.drop_first());
        } else {
            lemma_path_pos(s[p[0]], 0, p.drop_first());
            lemma_flat_offsets(s, p[0], q[0] as nat);
        }
    }
}

proof fn lemma_paths_ordered(p: Seq<int>, q: Seq<int>)
    requires
        p != q,
    ensures
        path_before(p, q) || path_before(q, p),
    decreases p.len(),
{
    if p.len() == 0 && q.len() == 0 {
        assert(p =~= q);
    }
    if p.len() > 0 && q.len() > 0 && p[0] == q[0] {
        if p.drop_first() == q.drop_first() {
            assert(p =~= seq![p[0]] + p.drop_first());
            assert(q =~= seq![q[0]] + q.drop_first());
        }
        lemma_paths_ordered(p.drop_first(), q.drop_first());
    }
}

/// Place `k` of the flattening of `e` from `depth` holds the entry of some path, as
/// deep as the path is long.
pub open spec fn place_of_path(e: EpubTocEntryData, depth: int, k: int) -> bool {
    exists|p: Seq<int>| #[trigger] valid_path(e, p) && path_pos(e, p) == k && flat_entry(e, depth)[k] == (
        node_at(e, p),
        depth + p.len(),
    )
}

proof fn lemma_place_has_path(e: EpubTocEntryData, depth: int, k: int)
    requires
        0 <= k < flat_entry(e, depth).len(),
    ensures
        place_of_path(e, depth, k),
{
    let p = lemma_path_of(e, depth, k);
    lemma_path_pos(e, depth, p);
    assert(valid_path(e, p) && path_pos(e, p) == k && flat_entry(e, depth)[k] == (node_at(e, p), depth + p.len()));
}

/// Flattening an entry lists each of the entries below it exactly once: the one that
/// a path of child positions leads to stands at [`path_pos`] (counting the entry
/// itself first), as deep as the path is long, every place holds the entry of one
/// path, and the places follow the depth-first order of the paths (a parent before
/// its nested entries, siblings in order). [`EpubTocEntry::flatten`] gives these
/// places after the first, and [`EpubTocEntry::total_len`] counts them.
pub proof fn law_flatten_each_once(e: EpubTocEntryData, depth: int)
    ensures
        forall|p: Seq<int>| #[trigger] valid_path(e, p) ==> 0 <= path_pos(e, p) < flat_entry(e, depth).len()
            && flat_entry(e, depth)[path_pos(e, p)] == (node_at(e, p), depth + p.len()),
        forall|p: Seq<int>| #[trigger] valid_path(e, p) ==> (path_pos(e, p) == 0 <==> p.len() == 0),
        forall|k: int| 0 <= k < flat_entry(e, depth).len() ==> #[trigger] place_of_path(e, depth, k),
        forall|p: Seq<int>, q: Seq<int>| valid_path(e, p) && valid_path(e, q) && #[trigger] path_before(p, q)
            ==> path_pos(e, p) < path_pos(e, q),
        forall|p: Seq<int>, q: Seq<int>| #[trigger] valid_path(e, p) && #[trigger] valid_path(e, q) && p != q
            ==> path_pos(e, p) != path_pos(e, q),
        flat_entry(e, depth).skip(1) == flat_list(e.children@, depth + 1, e.children@.len()),
{
    assert forall|p: Seq<int>| #[trigger] valid_path(e, p) implies 0 <= path_pos(e, p) < flat_entry(e, depth).len()
        && flat_entry(e, depth)[path_pos(e, p)] == (node_at(e, p), depth + p.len()) by {
        lemma_path_pos(e, depth, p);
    }
    assert forall|p: Seq<int>| #[trigger] valid_path(e, p) implies (path_pos(e, p) == 0 <==> p.len() == 0) by {
        if p.len() > 0 {
            lemma_path_pos(e.children@[p[0]], 0, p.drop_first());
        }
    }
    assert forall|k: int| 0 <= k < flat_entry(e, depth).len() implies #[trigger] place_of_path(e, depth, k) by {
        lemma_place_has_path(e, depth, k);
    }
    assert forall|p: Seq<int>, q: Seq<int>| valid_path(e, p) && valid_path(e, q) && #[trigger] path_before(p, q)
        implies path_pos(e, p) < path_pos(e, q) by {
        lemma_path_before_pos(e, p, q);
    }
    assert forall|p: Seq<int>, q: Seq<int>| #[trigger] valid_path(e, p) && #[trigger] valid_path(e, q) && p != q
        implies path_pos(e, p) != path_pos(e, q) by {
        lemma_paths_ordered(p, q);
        if path_before(p, q) {
            lemma_path_before_pos(e, p, q);
        } else {
            lemma_path_before_pos(e, q, p);
        }
    }
    law_flatten_preorder(e, depth);
}

proof fn lemma_flat_list_depths(s: Seq<EpubTocEntryData>, depth: int, k: nat)
    ensures
        forall|j: int| 0 <= j < flat_list(s, depth, k).len() ==> (#[trigger] flat_list(s, depth, k)[j]).1 >= depth,
    decreases s, 0int, k,
{
    if k > 0 && k <= s.len() {
        lemma_flat_list_depths(s, depth, (k - 1) as nat);
        lemma_flat_depths(s[k - 1], depth);
        let a = flat_list(s, depth, (k - 1) as nat);
        let b = flat_entry(s[k - 1], depth);
        let f = flat_list(s, depth, k);
        assert forall|j: int| 0 <= j < f.len() implies (#[trigger] f[j]).1 >= depth by {
            if j < a.len() {
                assert(f[j] == a[j]);
            } else {
                assert(f[j] == b[j - a.len()]);
            }
        }
    }
}

// ---------------------------------------------------------------------------
// Resolving written locations
// ---------------------------------------------------------------------------

/// `after` is `before` with every written location (at any depth) resolved against
/// `base`; entries without one keep their resolved location.
pub open spec fn resolved(before: EpubTocEntryData, after: EpubTocEntryData, base: Seq<char>) -> bool
    decreases before,
{
    &&& after.id == before.id
    &&& after.label == before.label
    &&& after.kind == before.kind
    &&& after.attributes == before.attributes
    &&& after.href_raw == before.href_raw
    &&& match before.href_raw {
        Some(r) => opt_string_view(after.href) == Some(spec_resolve_href(base, r@)),
        None => after.href == before.href,
    }
    &&& after.children@.len() == before.children@.len()
    &&& forall|i: int|
        0 <= i < before.children@.len() ==> resolved(#[trigger] before.children@[i], after.children@[i], base)
}

impl EpubTocEntryData {
    /// Resolves every written location (at any depth) against `base`.
    pub fn resolve_hrefs(&mut self, base: &str)
        ensures
            resolved(*old(self), *final(self), base@),
        decreases *old(self),
    {
        let ghost before = *self;
        let new_href = match &self.href_raw {
            Some(r) => Some(resolve_href(base, r.as_str())),
            None => None,
        };
        if new_href.is_some() {
            self.href = new_href;
        }
        let n = self.children.len();
        let mut i: usize = 0;
        while i < n
            invariant
                n == self.children@.len(),
                n == before.children@.len(),
                before == *old(self),
                i <= n,
                self.id == before.id,
                self.label == before.label,
                self.kind == before.kind,
                self.attributes == before.attributes,
                self.href_raw == before.href_raw,
                match before.href_raw {
                    Some(r) => opt_string_view(self.href) == Some(spec_resolve_href(base@, r@)),
                    None => self.href == before.href,
                },
                forall|k: int| 0 <= k < i ==> resolved(#[trigger] before.children@[k], self.children@[k], base@),
                forall|k: int| i <= k < n ==> self.children@[k] == before.children@[k],
            decreases n - i,
        {
            proof {
                assert(decreases_to!(before => before.children));
                assert(decreases_to!(before.children => before.children@));
                assert(decreases_to!(before.children@ => before.children@[i as int]));
                assert(self.children@[i as int] == before.children@[i as int]);
            }
            self.children[i].resolve_hrefs(base);
            i = i + 1;
        }
    }
}

// ---------------------------------------------------------------------------
// The table of contents
// ---------------------------------------------------------------------------

/// The key of a root: its kind (e.g. `toc`, `landmarks`, `page-list`) and major version.
#[derive(Debug)]
pub struct EpubTocKey {
    pub kind: String,
    pub version: EpubVersion,
}

/// The roots of the tables of contents, by kind and version, in order; and the
/// version preferred when a kind has both.
#[derive(Debug)]
pub struct EpubTocData {
    pub preferred_version: EpubVersion,
    pub entries: Vec<(EpubTocKey, EpubTocEntryData)>,
}

/// The position of the first root with the given kind and version, or `-1`.
pub open spec fn toc_pos(s: Seq<(EpubTocKey, EpubTocEntryData)>, kind: Seq<char>, version: EpubVersion) -> int
    decreases s.len(),
{
    if s.len() == 0 {
        -1
    } else if s[0].0.kind@ == kind && s[0].0.version == version {
        0
    } else {
        let r = toc_pos(s.drop_first(), kind, version);
        if r < 0 {
            -1
        } else {
            r + 1
        }
    }
}

pub proof fn lemma_toc_pos(s: Seq<(EpubTocKey, EpubTocEntryData)>, kind: Seq<char>, version: EpubVersion)
    ensures
        -1 <= toc_pos(s, kind, version) < s.len(),
        toc_pos(s, kind, version) >= 0 ==> s[toc_pos(s, kind, version)].0.kind@ == kind && s[toc_pos(
            s,
            kind,
            version,
        )].0.version == version,
        forall|j: int|
            0 <= j < s.len() && (toc_pos(s, kind, version) < 0 || j < toc_pos(s, kind, version)) ==> !(
            (#[trigger] s[j]).0.kind@ == kind && s[j].0.version == version),
    decreases s.len(),
{
    if s.len() > 0 && !(s[0].0.kind@ == kind && s[0].0.version == version) {
        lemma_toc_pos(s.drop_first(), kind, version);
        assert forall|j: int|
            0 <= j < s.len() && (toc_pos(s, kind, version) < 0 || j < toc_pos(s, kind, version)) implies !(
            (#[trigger] s[j]).0.kind@ == kind && s[j].0.version == version) by {
            if j > 0 {
                assert(s[j] == s.drop_first()[j - 1]);
            }
        }
    }
}

/// The version preferred for a kind: the configured one for the table of contents,
/// landmarks and page list, EPUB 3 for any other kind.
pub open spec fn spec_preferred_version(preferred: EpubVersion, kind: Seq<char>) -> EpubVersion {
    if kind == consts::TOC_KIND_TOC@ || kind == consts::TOC_KIND_LANDMARKS@ || kind
        == consts::TOC_KIND_PAGE_LIST@ {
        preferred
    } else {
        EpubVersion::Epub3(Version(3, 0))
    }
}

/// The root chosen for a kind: the preferred version, else EPUB 2, else EPUB 3; `-1`
/// when there is none.
pub open spec fn kind_pos(s: Seq<(EpubTocKey, EpubTocEntryData)>, preferred: EpubVersion, kind: Seq<char>) -> int {
    let p = toc_pos(s, kind, spec_preferred_version(preferred, kind));
    let a = toc_pos(s, kind, EpubVersion::Epub2(Version(2, 0)));
    if p >= 0 {
        p
    } else if a >= 0 {
        a
    } else {
        toc_pos(s, kind, EpubVersion::Epub3(Version(3, 0)))
    }
}

/// The position of the first root with the given kind and version.
fn toc_index(entries: &Vec<(EpubTocKey, EpubTocEntryData)>, kind: &str, version: EpubVersion) -> (r: Option<usize>)
    ensures
        match r {
            Some(i) => i as int == toc_pos(entries@, kind@, version) && i < entries@.len(),
            None => toc_pos(entries@, kind@, version) == -1,
        },
{
    proof {
        lemma_toc_pos(entries@, kind@, version);
    }
    let n = entries.len();
    let mut i: usize = 0;
    while i < n
        invariant
            n == entries@.len(),
            i <= n,
            forall|j: int| 0 <= j < i ==> !((#[trigger] entries@[j]).0.kind@ == kind@ && entries@[j].0.version == version),
            -1 <= toc_pos(entries@, kind@, version) < n,
            toc_pos(entries@, kind@, version) >= 0 ==> entries@[toc_pos(entries@, kind@, version)].0.kind@ == kind@
                && entries@[toc_pos(entries@, kind@, version)].0.version == version,
            forall|j: int|
                0 <= j < n && (toc_pos(entries@, kind@, version) < 0 || j < toc_pos(entries@, kind@, version)) ==> !(
                (#[trigger] entries@[j]).0.kind@ == kind@ && entries@[j].0.version == version),
        decreases n - i,
    {
        if entries[i].0.version == version && str_eq(entries[i].0.kind.as_str(), kind) {
            return Some(i);
        }
        i = i + 1;
    }
    None
}

/// The position of the root chosen for a kind (see [`kind_pos`]).
fn kind_index(toc: &EpubTocData, kind: &str) -> (r: Option<usize>)
    ensures
        match r {
            Some(i) => i as int == kind_pos(toc.entries@, toc.preferred_version, kind@) && i < toc.entries@.len(),
            None => kind_pos(toc.entries@, toc.preferred_version, kind@) == -1,
        },
{
    let preferred = toc.preferred_version(kind);
    match toc_index(&toc.entries, kind, preferred) {
        Some(i) => Some(i),
        None => match toc_index(&toc.entries, kind, EpubVersion::epub2()) {
            Some(i) => Some(i),
            None => toc_index(&toc.entries, kind, EpubVersion::epub3()),
        },
    }
}

impl EpubTocData {
    /// No roots, preferring EPUB 3.
    pub fn empty() -> (r: Self)
        ensures
            r.entries@.len() == 0,
            r.preferred_version == EpubVersion::Epub3(Version(3, 0)),
    {
        EpubTocData { preferred_version: EpubVersion::epub3(), entries: Vec::new() }
    }

    /// The given roots, preferring EPUB 3.
    pub fn new(entries: Vec<(EpubTocKey, EpubTocEntryData)>) -> (r: Self)
        ensures
            r.entries@ == entries@,
            r.preferred_version == EpubVersion::Epub3(Version(3, 0)),
    {
        EpubTocData { preferred_version: EpubVersion::epub3(), entries }
    }

    /// Appends the roots of `data`, replacing in place those of the same kind and
    /// version.
    pub fn extend(&mut self, data: EpubTocData)
        ensures
            final(self).preferred_version == old(self).preferred_version,
            final(self).entries@ == extended(old(self).entries@, data.entries@),
    {
        let ghost orig = data.entries@;
        let mut rest = data.entries;
        let mut k: usize = 0;
        assert(orig.len() == rest.len());
        while rest.len() > 0
            invariant
                orig.len() <= usize::MAX,
                k + rest@.len() == orig.len(),
                rest@ == orig.skip(k as int),
                self.entries@ == extended(old(self).entries@, orig.take(k as int)),
                self.preferred_version == old(self).preferred_version,
            decreases rest@.len(),
        {
            let (key, root) = rest.remove(0);
            proof {
                assert(orig.take(k + 1).drop_last() =~= orig.take(k as int));
                assert(orig.take(k + 1).last() == (key, root));
                assert(rest@ =~= orig.skip(k + 1));
            }
            let _ = insert_root_at(&mut self.entries, key, root);
            k = k + 1;
        }
        proof {
            assert(orig.take(k as int) =~= orig);
        }
    }

    /// The version preferred for the given kind (see [`spec_preferred_version`]).
    pub fn preferred_version(&self, kind: &str) -> (r: EpubVersion)
        ensures
            r == spec_preferred_version(self.preferred_version, kind@),
    {
        if str_eq(kind, consts::TOC_KIND_TOC) || str_eq(kind, consts::TOC_KIND_LANDMARKS) || str_eq(
            kind,
            consts::TOC_KIND_PAGE_LIST,
        ) {
            self.preferred_version
        } else {
            EpubVersion::epub3()
        }
    }
}

/// `s` with root `(key, root)` put in place of the first one with the same kind and
/// version, or appended.
pub open spec fn with_root(s: Seq<(EpubTocKey, EpubTocEntryData)>, key: EpubTocKey, root: EpubTocEntryData) -> Seq<(EpubTocKey, EpubTocEntryData)> {
    let p = toc_pos(s, key.kind@, key.version);
    if p >= 0 {
        s.update(p, (s[p].0, root))
    } else {
        s.push((key, root))
    }
}

/// `s` with each root of `t` put in turn (see [`with_root`]).
pub open spec fn extended(s: Seq<(EpubTocKey, EpubTocEntryData)>, t: Seq<(EpubTocKey, EpubTocEntryData)>) -> Seq<(EpubTocKey, EpubTocEntryData)>
    decreases t.len(),
{
    if t.len() == 0 {
        s
    } else {
        with_root(extended(s, t.drop_last()), t.last().0, t.last().1)
    }
}

/// Puts a root in place of the one with the same kind and version, returning that
/// one, or appends it.
fn insert_root_at(entries: &mut Vec<(EpubTocKey, EpubTocEntryData)>, key: EpubTocKey, root: EpubTocEntryData) -> (r: Option<EpubTocEntryData>)
    ensures
        final(entries)@ == with_root(old(entries)@, key, root),
        match r {
            Some(d) => toc_pos(old(entries)@, key.kind@, key.version) >= 0 && d == old(entries)@[toc_pos(
                old(entries)@,
                key.kind@,
                key.version,
            )].1,
            None => toc_pos(old(entries)@, key.kind@, key.version) == -1,
        },
{
    match toc_index(entries, key.kind.as_str(), key.version) {
        Some(i) => {
            let (k, old_root) = entries.remove(i);
            entries.insert(i, (k, root));
            Some(old_root)
        },
        None => {
            entries.push((key, root));
            None
        },
    }
}

/// A read-only view over the tables of contents.
#[derive(Copy, Clone, Debug)]
pub struct EpubToc<'ebook> {
    manifest: &'ebook EpubManifestData,
    toc: &'ebook EpubTocData,
}

/// A read-only view over one entry of a table of contents: its version and its depth
/// (`0` for a root).
#[derive(Copy, Clone, Debug)]
pub struct EpubTocEntry<'ebook> {
    manifest: &'ebook EpubManifestData,
    data: &'ebook EpubTocEntryData,
    version: EpubVersion,
    depth: usize,
}

impl<'ebook> EpubToc<'ebook> {
    pub closed spec fn spec_toc(&self) -> EpubTocData {
        *self.toc
    }

    pub closed spec fn spec_manifest(&self) -> EpubManifestData {
        *self.manifest
    }

    pub fn new(manifest: &'ebook EpubManifestData, toc: &'ebook EpubTocData) -> (r: Self)
        ensures
            r.spec_toc() == *toc,
            r.spec_manifest() == *manifest,
    {
        EpubToc { manifest, toc }
    }

    fn root(&self, index: usize) -> (r: EpubTocEntry<'ebook>)
        requires
            index < self.spec_toc().entries@.len(),
        ensures
            r.spec_data() == self.spec_toc().entries@[index as int].1,
            r.spec_version() == self.spec_toc().entries@[index as int].0.version,
            r.spec_depth() == 0,
            r.spec_manifest() == self.spec_manifest(),
    {
        EpubTocEntry {
            manifest: self.manifest,
            data: &self.toc.entries[index].1,
            version: self.toc.entries[index].0.version,
            depth: 0,
        }
    }

    /// The root of the given kind and version (taken as its major version).
    pub fn by_kind_version(&self, kind: &str, version: EpubVersion) -> (r: Option<EpubTocEntry<'ebook>>)
        ensures
            ({
                let i = toc_pos(self.spec_toc().entries@, kind@, spec_as_major(version));
                match r {
                    Some(e) => i >= 0 && e.spec_data() == self.spec_toc().entries@[i].1 && e.spec_version()
                        == spec_as_major(version) && e.spec_depth() == 0,
                    None => i == -1,
                }
            }),
    {
        let v = version.as_major();
        proof {
            lemma_toc_pos(self.spec_toc().entries@, kind@, v);
        }
        match toc_index(&self.toc.entries, kind, v) {
            Some(i) => Some(self.root(i)),
            None => None,
        }
    }

    /// The root of the given kind in the preferred version, else in the other one.
    pub fn by_kind(&self, kind: &str) -> (r: Option<EpubTocEntry<'ebook>>)
        ensures
            ({
                let i = kind_pos(self.spec_toc().entries@, self.spec_toc().preferred_version, kind@);
                match r {
                    Some(e) => i >= 0 && e.spec_data() == self.spec_toc().entries@[i].1 && e.spec_version()
                        == self.spec_toc().entries@[i].0.version && e.spec_depth() == 0,
                    None => i == -1,
                }
            }),
    {
        match kind_index(self.toc, kind) {
            Some(i) => Some(self.root(i)),
            None => None,
        }
    }

    /// The preferred table of contents (`toc`).
    pub fn contents(&self) -> (r: Option<EpubTocEntry<'ebook>>)
        ensures
            ({
                let i = kind_pos(self.spec_toc().entries@, self.spec_toc().preferred_version, consts::TOC_KIND_TOC@);
                match r {
                    Some(e) => i >= 0 && e.spec_data() == self.spec_toc().entries@[i].1,
                    None => i == -1,
                }
            }),
    {
        self.by_kind(consts::TOC_KIND_TOC)
    }

    /// The preferred landmarks (`landmarks`, or the EPUB 2 guide).
    pub fn landmarks(&self) -> (r: Option<EpubTocEntry<'ebook>>)
        ensures
            ({
                let i = kind_pos(self.spec_toc().entries@, self.spec_toc().preferred_version, consts::TOC_KIND_LANDMARKS@);
                match r {
                    Some(e) => i >= 0 && e.spec_data() == self.spec_toc().entries@[i].1,
                    None => i == -1,
                }
            }),
    {
        self.by_kind(consts::TOC_KIND_LANDMARKS)
    }

    /// The preferred page list (`page-list`).
    pub fn page_list(&self) -> (r: Option<EpubTocEntry<'ebook>>)
        ensures
            ({
                let i = kind_pos(self.spec_toc().entries@, self.spec_toc().preferred_version, consts::TOC_KIND_PAGE_LIST@);
                match r {
                    Some(e) => i >= 0 && e.spec_data() == self.spec_toc().entries@[i].1,
                    None => i == -1,
                }
            }),
    {
        self.by_kind(consts::TOC_KIND_PAGE_LIST)
    }

    /// Every root, in order.
    pub fn iter(&self) -> (r: Vec<EpubTocEntry<'ebook>>)
        ensures
            r@.len() == self.spec_toc().entries@.len(),
            forall|k: int|
                0 <= k < r@.len() ==> (#[trigger] r@[k]).spec_data() == self.spec_toc().entries@[k].1
                    && r@[k].spec_version() == self.spec_toc().entries@[k].0.version && r@[k].spec_depth() == 0,
    {
        let n = self.toc.entries.len();
        let mut out: Vec<EpubTocEntry<'ebook>> = Vec::new();
        for i in 0..n
            invariant
                n == self.spec_toc().entries@.len(),
                out@.len() == i,
                forall|k: int|
                    0 <= k < out@.len() ==> (#[trigger] out@[k]).spec_data() == self.spec_toc().entries@[k].1
                        && out@[k].spec_version() == self.spec_toc().entries@[k].0.version && out@[k].spec_depth() == 0,
        {
            out.push(self.root(i));
        }
        out
    }
}

impl<'ebook> EpubTocEntry<'ebook> {
    pub closed spec fn spec_data(&self) -> EpubTocEntryData {
        *self.data
    }

    pub closed spec fn spec_version(&self) -> EpubVersion {
        self.version
    }

    pub closed spec fn spec_depth(&self) -> usize {
        self.depth
    }

    pub closed spec fn spec_manifest(&self) -> EpubManifestData {
        *self.manifest
    }

    /// The version of the table of contents the entry belongs to.
    pub fn version(&self) -> (r: EpubVersion)
        ensures
            r == self.spec_version(),
    {
        self.version
    }

    /// A detached copy of the entry (with copies of its nested entries) and its version.
    pub fn to_detached(&self) -> (r: DetachedEpubTocEntry)
        ensures
            same_toc_entry(r.spec_data(), self.spec_data()),
            r.spec_version() == self.spec_version(),
    {
        DetachedEpubTocEntry::detached(self.version, self.data.duplicate())
    }

    /// The `id` of the entry.
    pub fn id(&self) -> (r: Option<&'ebook str>)
        ensures
            opt_str_view(r) == opt_string_view(self.spec_data().id),
    {
        opt_as_str(&self.data.id)
    }

    /// The kind of the entry, as written.
    pub fn kind_raw(&self) -> (r: Option<&'ebook str>)
        ensures
            opt_str_view(r) == opt_string_view(self.spec_data().kind),
    {
        opt_as_str(&self.data.kind)
    }

    /// The resolved location of the entry.
    pub fn href(&self) -> (r: Option<&'ebook str>)
        ensures
            opt_str_view(r) == opt_string_view(self.spec_data().href),
    {
        opt_as_str(&self.data.href)
    }

    /// The location of the entry as written.
    pub fn href_raw(&self) -> (r: Option<&'ebook str>)
        ensures
            opt_str_view(r) == opt_string_view(self.spec_data().href_raw),
    {
        opt_as_str(&self.data.href_raw)
    }

    /// The attributes of the entry.
    pub fn attributes(&self) -> (r: &'ebook Attributes)
        ensures
            *r == self.spec_data().attributes,
    {
        &self.data.attributes
    }

    /// How deep the entry is nested (`0` for a root).
    pub fn depth(&self) -> (r: usize)
        ensures
            r == self.spec_depth(),
    {
        self.depth
    }

    /// The label of the entry.
    pub fn label(&self) -> (r: &'ebook str)
        ensures
            r@ == self.spec_data().label@,
    {
        self.data.label.as_str()
    }

    /// The manifest item the entry's location (without query and fragment) names.
    pub fn manifest_entry(&self) -> (r: Option<EpubManifestEntry<'ebook>>)
        ensures
            match self.spec_data().href {
                None => r is None,
                Some(h) => {
                    let p = uri::spec_path(h@);
                    let g = self.spec_manifest().items();
                    match r {
                        Some(e) => exists|i: int|
                            0 <= i < g.len() && e.spec_id() == g[i].0 && e.spec_data() == g[i].1 && (
                            g[i].1.href@ == p || g[i].1.href_raw@ == p) && forall|j: int|
                                0 <= j < i ==> g[j].1.href@ != p && g[j].1.href_raw@ != p,
                        None => forall|j: int| 0 <= j < g.len() ==> g[j].1.href@ != p && g[j].1.href_raw@ != p,
                    }
                },
            },
    {
        match &self.data.href {
            None => None,
            Some(h) => match self.manifest.by_href(uri::path(h.as_str())) {
                Some((k, v)) => Some(EpubManifestEntry::new(k.as_str(), v)),
                None => None,
            },
        }
    }

    /// The nested entry at `index`.
    pub fn get(&self, index: usize) -> (r: Option<EpubTocEntry<'ebook>>)
        requires
            self.spec_depth() < usize::MAX,
        ensures
            match r {
                Some(e) => index < self.spec_data().children@.len() && e.spec_data() == self.spec_data().children@[index as int]
                    && e.spec_version() == self.spec_version() && e.spec_depth() == self.spec_depth() + 1,
                None => index >= self.spec_data().children@.len(),
            },
    {
        if index < self.data.children.len() {
            Some(EpubTocEntry {
                manifest: self.manifest,
                data: &self.data.children[index],
                version: self.version,
                depth: self.depth + 1,
            })
        } else {
            None
        }
    }

    /// The nested entries, in order.
    pub fn iter(&self) -> (r: Vec<EpubTocEntry<'ebook>>)
        requires
            self.spec_depth() < usize::MAX,
        ensures
            r@.len() == self.spec_data().children@.len(),
            forall|k: int|
                0 <= k < r@.len() ==> (#[trigger] r@[k]).spec_data() == self.spec_data().children@[k]
                    && r@[k].spec_version() == self.spec_version() && r@[k].spec_depth() == self.spec_depth() + 1,
    {
        let n = self.data.children.len();
        let mut out: Vec<EpubTocEntry<'ebook>> = Vec::new();
        for i in 0..n
            invariant
                n == self.spec_data().children@.len(),
                self.spec_depth() < usize::MAX,
                out@.len() == i,
                forall|k: int|
                    0 <= k < out@.len() ==> (#[trigger] out@[k]).spec_data() == self.spec_data().children@[k]
                        && out@[k].spec_version() == self.spec_version() && out@[k].spec_depth() == self.spec_depth() + 1,
        {
            out.push(EpubTocEntry {
                manifest: self.manifest,
                data: &self.data.children[i],
                version: self.version,
                depth: self.depth + 1,
            });
        }
        out
    }

    /// Every nested entry at any depth, depth first (an entry before its nested ones),
    /// each with its depth.
    pub fn flatten(&self) -> (r: Vec<EpubTocEntry<'ebook>>)
        requires
            self.spec_depth() + flat_entry(self.spec_data(), 0).len() <= usize::MAX,
        ensures
            ({
                let f = flat_list(self.spec_data().children@, self.spec_depth() + 1, self.spec_data().children@.len());
                &&& r@.len() == f.len()
                &&& forall|k: int|
                    0 <= k < r@.len() ==> (#[trigger] r@[k]).spec_data() == f[k].0 && r@[k].spec_depth() == f[k].1
                        && r@[k].spec_version() == self.spec_version()
            }),
    {
        let mut out: Vec<EpubTocEntry<'ebook>> = Vec::new();
        proof {
            lemma_flat_len(self.spec_data(), 0, self.spec_depth() as int);
        }
        flatten_children(self.manifest, self.data, self.version, self.depth, &mut out);
        proof {
            let f = flat_list(self.spec_data().children@, self.spec_depth() + 1, self.spec_data().children@.len());
            assert forall|k: int| 0 <= k < out@.len() implies (#[trigger] out@[k]).spec_data() == f[k].0
                && out@[k].spec_depth() == f[k].1 && out@[k].spec_version() == self.spec_version() by {
                assert(out@[0 + k] == out@[k]);
            }
        }
        out
    }

    /// The number of nested entries (not counting deeper ones).
    pub fn len(&self) -> (r: usize)
        ensures
            r == self.spec_data().children@.len(),
    {
        self.data.children.len()
    }

    /// Returns `true` if the entry has no nested entries.
    pub fn is_empty(&self) -> (r: bool)
        ensures
            r == (self.spec_data().children@.len() == 0),
    {
        self.data.children.len() == 0
    }

    /// Returns `true` for a root entry (depth `0`).
    pub fn is_root(&self) -> (r: bool)
        ensures
            r == (self.spec_depth() == 0),
    {
        self.depth == 0
    }

    /// The number of all nested entries, at any depth.
    pub fn total_len(&self) -> (r: usize)
        requires
            self.spec_depth() + flat_entry(self.spec_data(), 0).len() <= usize::MAX,
        ensures
            r == flat_list(self.spec_data().children@, self.spec_depth() + 1, self.spec_data().children@.len()).len(),
    {
        self.flatten().len()
    }

    /// How many levels the most deeply nested entry lies below this one (`0` without
    /// nested entries).
    pub fn max_depth(&self) -> (r: usize)
        requires
            self.spec_depth() + flat_entry(self.spec_data(), 0).len() <= usize::MAX,
        ensures
            ({
                let f = flat_list(self.spec_data().children@, self.spec_depth() + 1, self.spec_data().children@.len());
                &&& f.len() == 0 ==> r == 0
                &&& f.len() > 0 ==> exists|k: int| 0 <= k < f.len() && r == (#[trigger] f[k]).1 - self.spec_depth()
                &&& forall|k: int| 0 <= k < f.len() ==> (#[trigger] f[k]).1 - self.spec_depth() <= r
            }),
    {
        let all = self.flatten();
        let ghost f = flat_list(self.spec_data().children@, self.spec_depth() + 1, self.spec_data().children@.len());
        proof {
            lemma_flat_list_depths(self.spec_data().children@, self.spec_depth() + 1, self.spec_data().children@.len());
        }
        let mut best: usize = 0;
        let n = all.len();
        for i in 0..n
            invariant
                n == all@.len(),
                n == f.len(),
                forall|k: int| 0 <= k < n ==> (#[trigger] all@[k]).spec_depth() == f[k].1,
                forall|k: int| 0 <= k < n ==> (#[trigger] f[k]).1 >= self.spec_depth() + 1,
                i == 0 ==> best == 0,
                i > 0 ==> exists|k: int| 0 <= k < i && best == (#[trigger] f[k]).1 - self.spec_depth(),
                forall|k: int| 0 <= k < i ==> (#[trigger] f[k]).1 - self.spec_depth() <= best,
        {
            let d = all[i].depth() - self.depth;
            assert(d == f[i as int].1 - self.spec_depth());
            if d > best {
                best = d;
            }
        }
        best
    }
}

/// Appends the nested entries of `data` (at `depth`), depth first, to `out`.
fn flatten_children<'ebook>(
    manifest: &'ebook EpubManifestData,
    data: &'ebook EpubTocEntryData,
    version: EpubVersion,
    depth: usize,
    out: &mut Vec<EpubTocEntry<'ebook>>,
)
    requires
        depth + flat_entry(*data, depth as int).len() <= usize::MAX,
    ensures
        ({
            let f = flat_list(data.children@, depth + 1, data.children@.len());
            &&& final(out)@.len() == old(out)@.len() + f.len()
            &&& forall|k: int| 0 <= k < old(out)@.len() ==> #[trigger] final(out)@[k] == old(out)@[k]
            &&& forall|k: int|
                0 <= k < f.len() ==> (#[trigger] final(out)@[old(out)@.len() + k]).spec_data() == f[k].0
                    && final(out)@[old(out)@.len() + k].spec_depth() == f[k].1
                    && final(out)@[old(out)@.len() + k].spec_version() == version
                    && final(out)@[old(out)@.len() + k].spec_manifest() == *manifest
        }),
    decreases *data,
{
    let items = &data.children;
    let n = items.len();
    let ghost start = out@.len();
    let mut i: usize = 0;
    proof {
        lemma_flat_len(*data, depth as int, depth as int);
        lemma_flat_list_len(items@, depth + 1, depth + 1, n as nat);
    }
    while i < n
        invariant
            n == items@.len(),
            items@ == data.children@,
            i <= n,
            depth + flat_entry(*data, depth as int).len() <= usize::MAX,
            flat_entry(*data, depth as int).len() == 1 + flat_list(items@, depth + 1, n as nat).len(),
            forall|j: int| 0 <= j < n ==> flat_list(items@, depth + 1, n as nat).len() >= flat_entry(#[trigger] items@[j], depth + 1).len(),
            out@.len() == start + flat_list(items@, depth + 1, i as nat).len(),
            forall|k: int| 0 <= k < start ==> #[trigger] out@[k] == old(out)@[k],
            start == old(out)@.len(),
            forall|k: int|
                0 <= k < flat_list(items@, depth + 1, i as nat).len() ==> (#[trigger] out@[start + k]).spec_data()
                    == flat_list(items@, depth + 1, i as nat)[k].0 && out@[start + k].spec_depth() == flat_list(items@, depth + 1, i as nat)[k].1
                    && out@[start + k].spec_version() == version && out@[start + k].spec_manifest() == *manifest,
        decreases n - i,
    {
        proof {
            assert(decreases_to!(*data => data.children));
            assert(decreases_to!(data.children => data.children@));
            assert(decreases_to!(data.children@ => data.children@[i as int]));
        }
        let child = &items[i];
        let ghost before = out@;
        let ghost fi = flat_list(items@, depth + 1, i as nat);
        let ghost fc = flat_entry(items@[i as int], depth + 1);
        proof {
            lemma_flat_len(items@[i as int], depth + 1, depth + 1);
        }
        out.push(EpubTocEntry { manifest, data: child, version, depth: depth + 1 });
        proof {
            lemma_flat_len(*child, (depth + 1) as int, (depth + 1) as int);
        }
        flatten_children(manifest, child, version, depth + 1, out);
        proof {
            let fi2 = flat_list(items@, depth + 1, (i + 1) as nat);
            assert(fi2 == fi + fc);
            assert(fc == seq![(items@[i as int], depth + 1)] + flat_list(child.children@, depth + 2, child.children@.len()));
            assert forall|k: int| 0 <= k < fi2.len() implies (#[trigger] out@[start + k]).spec_data() == fi2[k].0
                && out@[start + k].spec_depth() == fi2[k].1 && out@[start + k].spec_version() == version
                && out@[start + k].spec_manifest() == *manifest by {
                if k < fi.len() {
                    assert(out@[start + k] == before[start + k]);
                } else if k == fi.len() {
                    assert(out@[start + k] == before.push(EpubTocEntry { manifest, data: child, version, depth: (depth + 1) as usize })[start + k]);
                } else {
                    let m = k - fi.len() - 1;
                    assert(fi2[k] == fc[k - fi.len()]);
                    assert(fc[k - fi.len()] == flat_list(child.children@, depth + 2, child.children@.len())[m]);
                    assert(out@[start + k] == out@[(before.len() + 1) + m]);
                }
            }
        }
        i = i + 1;
    }
}

// ---------------------------------------------------------------------------
// Editing
// ---------------------------------------------------------------------------

/// A mutable view over the tables of contents; written locations are resolved against
/// the package directory `base`.
pub struct EpubTocMut<'ebook> {
    pub base: &'ebook str,
    pub toc: &'ebook mut EpubTocData,
}

/// A mutable view over one entry: its version, its depth, and the directory its
/// written locations are resolved against (none for a detached entry).
pub struct EpubTocEntryMut<'ebook> {
    pub base: Option<&'ebook str>,
    pub data: &'ebook mut EpubTocEntryData,
    pub version: EpubVersion,
    pub depth: usize,
}

impl<'ebook> EpubTocMut<'ebook> {
    /// The tables of contents being edited.
    pub closed spec fn spec_toc(&self) -> EpubTocData {
        *self.toc
    }

    fn root_mut(&mut self, index: usize) -> (r: EpubTocEntryMut<'_>)
        requires
            index < old(self).toc.entries@.len(),
        ensures
            *r.data == old(self).toc.entries@[index as int].1,
            r.version == old(self).toc.entries@[index as int].0.version,
            r.depth == 0,
            r.base == Some(old(self).base),
            final(self).toc.entries@ == old(self).toc.entries@.update(
                index as int,
                (old(self).toc.entries@[index as int].0, *final(r.data)),
            ),
            final(self).toc.preferred_version == old(self).toc.preferred_version,
            *final(final(self).toc) == *final(old(self).toc),
    {
        let base = self.base;
        let entry = &mut self.toc.entries[index];
        let version = entry.0.version;
        EpubTocEntryMut { base: Some(base), data: &mut entry.1, version, depth: 0 }
    }

    /// The root of the given kind and version (taken as its major version), for editing.
    pub fn by_kind_version_mut(&mut self, kind: &str, version: EpubVersion) -> (r: Option<EpubTocEntryMut<'_>>)
        ensures
            ({
                let i = toc_pos(old(self).toc.entries@, kind@, spec_as_major(version));
                match r {
                    Some(e) => {
                        &&& i >= 0
                        &&& *e.data == old(self).toc.entries@[i].1
                        &&& e.depth == 0
                        &&& e.version == spec_as_major(version)
                        &&& final(self).toc.entries@ == old(self).toc.entries@.update(i, (old(self).toc.entries@[i].0, *final(e.data)))
                        &&& final(self).toc.preferred_version == old(self).toc.preferred_version
                    },
                    None => i == -1 && *final(self).toc == *old(self).toc,
                }
            }),
            *final(final(self).toc) == *final(old(self).toc),
    {
        let v = version.as_major();
        proof {
            lemma_toc_pos(self.toc.entries@, kind@, v);
        }
        match toc_index(&self.toc.entries, kind, v) {
            Some(i) => Some(self.root_mut(i)),
            None => None,
        }
    }

    /// The root of the given kind in the preferred version, else in the other one, for
    /// editing.
    pub fn by_kind_mut(&mut self, kind: &str) -> (r: Option<EpubTocEntryMut<'_>>)
        ensures
            ({
                let i = kind_pos(old(self).toc.entries@, old(self).toc.preferred_version, kind@);
                match r {
                    Some(e) => {
                        &&& i >= 0
                        &&& *e.data == old(self).toc.entries@[i].1
                        &&& e.depth == 0
                        &&& e.version == old(self).toc.entries@[i].0.version
                        &&& final(self).toc.entries@ == old(self).toc.entries@.update(i, (old(self).toc.entries@[i].0, *final(e.data)))
                        &&& final(self).toc.preferred_version == old(self).toc.preferred_version
                    },
                    None => i == -1 && *final(self).toc == *old(self).toc,
                }
            }),
            *final(final(self).toc) == *final(old(self).toc),
    {
        match kind_index(self.toc, kind) {
            Some(i) => Some(self.root_mut(i)),
            None => None,
        }
    }

    /// The preferred table of contents, for editing.
    pub fn contents_mut(&mut self) -> (r: Option<EpubTocEntryMut<'_>>)
        ensures
            ({
                let i = kind_pos(old(self).toc.entries@, old(self).toc.preferred_version, consts::TOC_KIND_TOC@);
                match r {
                    Some(e) => i >= 0 && *e.data == old(self).toc.entries@[i].1 && final(self).toc.entries@
                        == old(self).toc.entries@.update(i, (old(self).toc.entries@[i].0, *final(e.data))),
                    None => i == -1 && *final(self).toc == *old(self).toc,
                }
            }),
            *final(final(self).toc) == *final(old(self).toc),
    {
        self.by_kind_mut(consts::TOC_KIND_TOC)
    }

    /// The preferred landmarks, for editing.
    pub fn landmarks_mut(&mut self) -> (r: Option<EpubTocEntryMut<'_>>)
        ensures
            ({
                let i = kind_pos(old(self).toc.entries@, old(self).toc.preferred_version, consts::TOC_KIND_LANDMARKS@);
                match r {
                    Some(e) => i >= 0 && *e.data == old(self).toc.entries@[i].1 && final(self).toc.entries@
                        == old(self).toc.entries@.update(i, (old(self).toc.entries@[i].0, *final(e.data))),
                    None => i == -1 && *final(self).toc == *old(self).toc,
                }
            }),
            *final(final(self).toc) == *final(old(self).toc),
    {
        self.by_kind_mut(consts::TOC_KIND_LANDMARKS)
    }

    /// The preferred page list, for editing.
    pub fn page_list_mut(&mut self) -> (r: Option<EpubTocEntryMut<'_>>)
        ensures
            ({
                let i = kind_pos(old(self).toc.entries@, old(self).toc.preferred_version, consts::TOC_KIND_PAGE_LIST@);
                match r {
                    Some(e) => i >= 0 && *e.data == old(self).toc.entries@[i].1 && final(self).toc.entries@
                        == old(self).toc.entries@.update(i, (old(self).toc.entries@[i].0, *final(e.data))),
                    None => i == -1 && *final(self).toc == *old(self).toc,
                }
            }),
            *final(final(self).toc) == *final(old(self).toc),
    {
        self.by_kind_mut(consts::TOC_KIND_PAGE_LIST)
    }

    /// Puts a root of the given kind and (major) version, with that kind set and its
    /// written locations resolved, in place of the one with the same kind and version
    /// (which is returned), or appends it.
    pub fn insert_root(&mut self, kind: &str, version: EpubVersion, detached: DetachedEpubTocEntry) -> (r: Option<DetachedEpubTocEntry>)
        ensures
            ({
                let v = spec_as_major(version);
                let p = toc_pos(old(self).toc.entries@, kind@, v);
                &&& final(self).toc.entries@.len() == (if p >= 0 { old(self).toc.entries@.len() } else { old(self).toc.entries@.len() + 1 })
                &&& {
                    let q = if p >= 0 { p } else { old(self).toc.entries@.len() as int };
                    let root = final(self).toc.entries@[q].1;
                    &&& final(self).toc.entries@[q].0.kind@ == kind@
                    &&& final(self).toc.entries@[q].0.version == v
                    &&& opt_string_view(root.kind) == Some(kind@)
                    &&& resolved(EpubTocEntryData { kind: root.kind, ..detached.spec_data() }, root, old(self).base@)
                    &&& forall|j: int| 0 <= j < old(self).toc.entries@.len() && j != q ==> final(self).toc.entries@[j] == old(self).toc.entries@[j]
                }
                &&& match r {
                    Some(d) => p >= 0 && d.spec_data() == old(self).toc.entries@[p].1 && d.spec_version() == v,
                    None => p == -1,
                }
            }),
            final(self).toc.preferred_version == old(self).toc.preferred_version,
            *final(final(self).toc) == *final(old(self).toc),
    {
        let v = version.as_major();
        let mut root = detached.data;
        root.kind = Some(to_string(kind));
        root.resolve_hrefs(self.base);
        let key = EpubTocKey { kind: to_string(kind), version: v };
        proof {
            lemma_toc_pos(self.toc.entries@, kind@, v);
        }
        match insert_root_at(&mut self.toc.entries, key, root) {
            Some(d) => Some(DetachedEpubTocEntry::detached(v, d)),
            None => None,
        }
    }

    /// Removes and returns the root of the given kind and version (as given).
    pub fn remove_by_kind_version(&mut self, kind: &str, version: EpubVersion) -> (r: Option<DetachedEpubTocEntry>)
        ensures
            ({
                let p = toc_pos(old(self).toc.entries@, kind@, version);
                match r {
                    Some(d) => p >= 0 && d.spec_data() == old(self).toc.entries@[p].1 && d.spec_version() == version
                        && final(self).toc.entries@ == old(self).toc.entries@.remove(p),
                    None => p == -1 && final(self).toc.entries@ == old(self).toc.entries@,
                }
            }),
            final(self).toc.preferred_version == old(self).toc.preferred_version,
            *final(final(self).toc) == *final(old(self).toc),
    {
        proof {
            lemma_toc_pos(self.toc.entries@, kind@, version);
        }
        match toc_index(&self.toc.entries, kind, version) {
            Some(i) => {
                let (key, root) = self.toc.entries.remove(i);
                Some(DetachedEpubTocEntry::detached(key.version, root))
            },
            None => None,
        }
    }

    /// Keeps only the roots for which `f` returns `false` (those for which it returns `true` are removed), in order.
    pub fn retain<F: Fn(&(EpubTocKey, EpubTocEntryData)) -> bool>(&mut self, f: F)
        requires
            forall|x: &(EpubTocKey, EpubTocEntryData)| #[trigger] f.requires((x,)),
        ensures
            exists|d: Seq<bool>|
                #![trigger select(old(self).toc.entries@, d, false)]
                d.len() == old(self).toc.entries@.len() && (forall|i: int|
                    0 <= i < d.len() ==> f.ensures((&old(self).toc.entries@[i],), #[trigger] d[i]))
                    && final(self).toc.entries@ == select(old(self).toc.entries@, d, false),
            final(self).toc.preferred_version == old(self).toc.preferred_version,
            *final(final(self).toc) == *final(old(self).toc),
    {
        let mut items: Vec<(EpubTocKey, EpubTocEntryData)> = Vec::new();
        std::mem::swap(&mut items, &mut self.toc.entries);
        let (_, kept) = split_vec(items, &f);
        self.toc.entries = kept;
    }

    /// Removes and returns the roots for which `f` returns `true`, in order.
    pub fn extract_if<F: Fn(&(EpubTocKey, EpubTocEntryData)) -> bool>(&mut self, f: F) -> (r: Vec<DetachedEpubTocEntry>)
        requires
            forall|x: &(EpubTocKey, EpubTocEntryData)| #[trigger] f.requires((x,)),
        ensures
            exists|d: Seq<bool>|
                #![trigger select(old(self).toc.entries@, d, true)]
                d.len() == old(self).toc.entries@.len() && (forall|i: int|
                    0 <= i < d.len() ==> f.ensures((&old(self).toc.entries@[i],), #[trigger] d[i]))
                    && final(self).toc.entries@ == select(old(self).toc.entries@, d, false) && r@.len()
                    == select(old(self).toc.entries@, d, true).len() && forall|k: int|
                    0 <= k < r@.len() ==> (#[trigger] r@[k]).spec_data() == select(old(self).toc.entries@, d, true)[k].1
                        && r@[k].spec_version() == select(old(self).toc.entries@, d, true)[k].0.version,
            final(self).toc.preferred_version == old(self).toc.preferred_version,
            *final(final(self).toc) == *final(old(self).toc),
    {
        let mut items: Vec<(EpubTocKey, EpubTocEntryData)> = Vec::new();
        std::mem::swap(&mut items, &mut self.toc.entries);
        let (taken, rest) = split_vec(items, &f);
        self.toc.entries = rest;
        detach_roots(taken)
    }

    /// Removes and returns every root, in order.
    pub fn drain(&mut self) -> (r: Vec<DetachedEpubTocEntry>)
        ensures
            r@.len() == old(self).toc.entries@.len(),
            forall|k: int|
                0 <= k < r@.len() ==> (#[trigger] r@[k]).spec_data() == old(self).toc.entries@[k].1
                    && r@[k].spec_version() == old(self).toc.entries@[k].0.version,
            final(self).toc.entries@.len() == 0,
            final(self).toc.preferred_version == old(self).toc.preferred_version,
            *final(final(self).toc) == *final(old(self).toc),
    {
        let mut items: Vec<(EpubTocKey, EpubTocEntryData)> = Vec::new();
        std::mem::swap(&mut items, &mut self.toc.entries);
        detach_roots(items)
    }

    /// Removes every root.
    pub fn clear(&mut self)
        ensures
            final(self).toc.entries@.len() == 0,
            final(self).toc.preferred_version == old(self).toc.preferred_version,
            *final(final(self).toc) == *final(old(self).toc),
    {
        self.toc.entries.clear();
    }

    /// A read-only view over the tables of contents.
    pub fn as_view<'a>(&'a self, manifest: &'a EpubManifestData) -> (r: EpubToc<'a>)
        ensures
            r.spec_toc() == self.spec_toc(),
            r.spec_manifest() == *manifest,
    {
        EpubToc::new(manifest, self.toc)
    }
}

/// The roots as detached entries, in order.
fn detach_roots(items: Vec<(EpubTocKey, EpubTocEntryData)>) -> (r: Vec<DetachedEpubTocEntry>)
    ensures
        r@.len() == items@.len(),
        forall|k: int|
            0 <= k < r@.len() ==> (#[trigger] r@[k]).spec_data() == items@[k].1 && r@[k].spec_version()
                == items@[k].0.version,
{
    let ghost all = items@;
    let mut items = items;
    let mut out: Vec<DetachedEpubTocEntry> = Vec::new();
    let mut k: usize = 0;
    assert(all.len() == items.len());
    while items.len() > 0
        invariant
            all.len() <= usize::MAX,
            k + items@.len() == all.len(),
            items@ == all.skip(k as int),
            out@.len() == k,
            forall|j: int|
                0 <= j < k ==> (#[trigger] out@[j]).spec_data() == all[j].1 && out@[j].spec_version() == all[j].0.version,
        decreases items@.len(),
    {
        let (key, root) = items.remove(0);
        proof {
            assert((key, root) == all[k as int]);
            assert(items@ =~= all.skip(k + 1));
        }
        out.push(DetachedEpubTocEntry::detached(key.version, root));
        k = k + 1;
    }
    out
}

/// The nested entries as detached entries of the given version, in order.
fn detach_children(items: Vec<EpubTocEntryData>, version: EpubVersion) -> (r: Vec<DetachedEpubTocEntry>)
    ensures
        r@.len() == items@.len(),
        forall|k: int| 0 <= k < r@.len() ==> (#[trigger] r@[k]).spec_data() == items@[k] && r@[k].spec_version() == version,
{
    let ghost all = items@;
    let mut items = items;
    let mut out: Vec<DetachedEpubTocEntry> = Vec::new();
    let mut k: usize = 0;
    assert(all.len() == items.len());
    while items.len() > 0
        invariant
            all.len() <= usize::MAX,
            k + items@.len() == all.len(),
            items@ == all.skip(k as int),
            out@.len() == k,
            forall|j: int| 0 <= j < k ==> (#[trigger] out@[j]).spec_data() == all[j] && out@[j].spec_version() == version,
        decreases items@.len(),
    {
        let e = items.remove(0);
        proof {
            assert(e == all[k as int]);
            assert(items@ =~= all.skip(k + 1));
        }
        out.push(DetachedEpubTocEntry::detached(version, e));
        k = k + 1;
    }
    out
}

/// The data an inserted entry gets: its written locations resolved when the entry is
/// attached.
pub open spec fn placed(base: Option<&str>, before: EpubTocEntryData, after: EpubTocEntryData) -> bool {
    match base {
        Some(b) => resolved(before, after, b@),
        None => after == before,
    }
}

impl<'ebook> EpubTocEntryMut<'ebook> {
    /// Sets (or clears) the `id`, returning the previous one.
    pub fn set_id(&mut self, id: Option<String>) -> (r: Option<String>)
        ensures
            r == old(self).data.id,
            *final(self).data == (EpubTocEntryData { id: id, ..*old(self).data }),
            *final(final(self).data) == *final(old(self).data),
    {
        crate::keyed::replace(&mut self.data.id, id)
    }

    /// Sets the label, returning the previous one.
    pub fn set_label(&mut self, label: &str) -> (r: String)
        ensures
            r == old(self).data.label,
            final(self).data.label@ == label@,
            *final(self).data == (EpubTocEntryData { label: final(self).data.label, ..*old(self).data }),
            *final(final(self).data) == *final(old(self).data),
    {
        crate::keyed::replace(&mut self.data.label, to_string(label))
    }

    /// Sets (or clears) the kind, returning the previous one; the kind of an attached
    /// root is its key and is left unchanged (`None` is returned).
    pub fn set_kind(&mut self, kind: Option<String>) -> (r: Option<String>)
        ensures
            old(self).depth == 0 && old(self).base is Some ==> r is None && *final(self).data == *old(self).data,
            !(old(self).depth == 0 && old(self).base is Some) ==> r == old(self).data.kind && *final(self).data
                == (EpubTocEntryData { kind: kind, ..*old(self).data }),
            *final(final(self).data) == *final(old(self).data),
    {
        if self.depth == 0 && self.base.is_some() {
            None
        } else {
            crate::keyed::replace(&mut self.data.kind, kind)
        }
    }

    /// Sets (or clears) the written location, returning the previous one; the resolved
    /// location follows (none for a detached entry).
    pub fn set_href(&mut self, raw_href: Option<String>) -> (r: Option<String>)
        ensures
            r == old(self).data.href_raw,
            final(self).data.href_raw == raw_href,
            match raw_href {
                Some(h) => match old(self).base {
                    Some(b) => opt_string_view(final(self).data.href) == Some(spec_resolve_href(b@, h@)),
                    None => final(self).data.href is None,
                },
                None => final(self).data.href is None,
            },
            *final(self).data == (EpubTocEntryData {
                href: final(self).data.href,
                href_raw: final(self).data.href_raw,
                ..*old(self).data
            }),
            *final(final(self).data) == *final(old(self).data),
    {
        let resolved_href = match (&raw_href, self.base) {
            (Some(h), Some(b)) => Some(resolve_href(b, h.as_str())),
            _ => None,
        };
        self.data.href = resolved_href;
        crate::keyed::replace(&mut self.data.href_raw, raw_href)
    }

    /// The attributes of the entry, for editing.
    pub fn attributes_mut(&mut self) -> (r: &mut Attributes)
        ensures
            *r == old(self).data.attributes,
            *final(self).data == (EpubTocEntryData { attributes: *final(r), ..*old(self).data }),
            *final(final(self).data) == *final(old(self).data),
    {
        &mut self.data.attributes
    }

    /// Appends a nested entry (its written locations resolved when attached).
    pub fn push(&mut self, detached: DetachedEpubTocEntry)
        ensures
            final(self).data.children@.len() == old(self).data.children@.len() + 1,
            final(self).data.children@.take(old(self).data.children@.len() as int) == old(self).data.children@,
            placed(old(self).base, detached.spec_data(), final(self).data.children@.last()),
            *final(self).data == (EpubTocEntryData { children: final(self).data.children, ..*old(self).data }),
            *final(final(self).data) == *final(old(self).data),
    {
        let n = self.data.children.len();
        self.insert(n, detached);
    }

    /// Inserts a nested entry at `index` (its written locations resolved when attached).
    pub fn insert(&mut self, index: usize, detached: DetachedEpubTocEntry)
        requires
            index <= old(self).data.children@.len(),
        ensures
            exists|e: EpubTocEntryData|
                placed(old(self).base, detached.spec_data(), e) && final(self).data.children@ == old(
                    self,
                ).data.children@.insert(index as int, e),
            *final(self).data == (EpubTocEntryData { children: final(self).data.children, ..*old(self).data }),
            *final(final(self).data) == *final(old(self).data),
    {
        let mut e = detached.data;
        match self.base {
            Some(b) => e.resolve_hrefs(b),
            None => {},
        }
        let ghost eg = e;
        assert(placed(old(self).base, detached.spec_data(), eg));
        self.data.children.insert(index, e);
        assert(self.data.children@ == old(self).data.children@.insert(index as int, eg));
    }

    /// The nested entry at `index`, for editing.
    pub fn get_mut(&mut self, index: usize) -> (r: Option<EpubTocEntryMut<'_>>)
        requires
            old(self).depth < usize::MAX,
        ensures
            match r {
                Some(e) => {
                    &&& index < old(self).data.children@.len()
                    &&& *e.data == old(self).data.children@[index as int]
                    &&& e.depth == old(self).depth + 1
                    &&& e.version == old(self).version
                    &&& e.base == old(self).base
                    &&& final(self).data.children@ == old(self).data.children@.update(index as int, *final(e.data))
                    &&& *final(self).data == (EpubTocEntryData { children: final(self).data.children, ..*old(self).data })
                },
                None => index >= old(self).data.children@.len() && *final(self).data == *old(self).data,
            },
            *final(final(self).data) == *final(old(self).data),
    {
        if index < self.data.children.len() {
            let depth = self.depth + 1;
            Some(EpubTocEntryMut {
                base: self.base,
                data: &mut self.data.children[index],
                version: self.version,
                depth,
            })
        } else {
            None
        }
    }

    /// Removes and returns the nested entry at `index`.
    pub fn remove(&mut self, index: usize) -> (r: DetachedEpubTocEntry)
        requires
            index < old(self).data.children@.len(),
        ensures
            r.spec_data() == old(self).data.children@[index as int],
            r.spec_version() == old(self).version,
            final(self).data.children@ == old(self).data.children@.remove(index as int),
            *final(self).data == (EpubTocEntryData { children: final(self).data.children, ..*old(self).data }),
            *final(final(self).data) == *final(old(self).data),
    {
        DetachedEpubTocEntry::detached(self.version, self.data.children.remove(index))
    }

    /// Keeps only the nested entries for which `f` returns `false` (those for which it returns `true` are removed), in order.
    pub fn retain<F: Fn(&EpubTocEntryData) -> bool>(&mut self, f: F)
        requires
            forall|x: &EpubTocEntryData| #[trigger] f.requires((x,)),
        ensures
            exists|d: Seq<bool>|
                #![trigger select(old(self).data.children@, d, false)]
                d.len() == old(self).data.children@.len() && (forall|i: int|
                    0 <= i < d.len() ==> f.ensures((&old(self).data.children@[i],), #[trigger] d[i]))
                    && final(self).data.children@ == select(old(self).data.children@, d, false),
            *final(self).data == (EpubTocEntryData { children: final(self).data.children, ..*old(self).data }),
            *final(final(self).data) == *final(old(self).data),
    {
        let mut items: Vec<EpubTocEntryData> = Vec::new();
        std::mem::swap(&mut items, &mut self.data.children);
        let (_, kept) = split_vec(items, &f);
        self.data.children = kept;
    }

    /// Removes and returns the nested entries for which `f` returns `true`, in order.
    pub fn extract_if<F: Fn(&EpubTocEntryData) -> bool>(&mut self, f: F) -> (r: Vec<DetachedEpubTocEntry>)
        requires
            forall|x: &EpubTocEntryData| #[trigger] f.requires((x,)),
        ensures
            exists|d: Seq<bool>|
                #![trigger select(old(self).data.children@, d, true)]
                d.len() == old(self).data.children@.len() && (forall|i: int|
                    0 <= i < d.len() ==> f.ensures((&old(self).data.children@[i],), #[trigger] d[i]))
                    && final(self).data.children@ == select(old(self).data.children@, d, false) && r@.len()
                    == select(old(self).data.children@, d, true).len() && forall|k: int|
                    0 <= k < r@.len() ==> (#[trigger] r@[k]).spec_data() == select(old(self).data.children@, d, true)[k]
                        && r@[k].spec_version() == old(self).version,
            *final(self).data == (EpubTocEntryData { children: final(self).data.children, ..*old(self).data }),
            *final(final(self).data) == *final(old(self).data),
    {
        let mut items: Vec<EpubTocEntryData> = Vec::new();
        std::mem::swap(&mut items, &mut self.data.children);
        let (taken, rest) = split_vec(items, &f);
        self.data.children = rest;
        detach_children(taken, self.version)
    }

    /// Removes and returns every nested entry, in order.
    pub fn drain(&mut self) -> (r: Vec<DetachedEpubTocEntry>)
        ensures
            r@.len() == old(self).data.children@.len(),
            forall|k: int|
                0 <= k < r@.len() ==> (#[trigger] r@[k]).spec_data() == old(self).data.children@[k]
                    && r@[k].spec_version() == old(self).version,
            final(self).data.children@.len() == 0,
            *final(self).data == (EpubTocEntryData { children: final(self).data.children, ..*old(self).data }),
            *final(final(self).data) == *final(old(self).data),
    {
        let mut items: Vec<EpubTocEntryData> = Vec::new();
        std::mem::swap(&mut items, &mut self.data.children);
        detach_children(items, self.version)
    }

    /// Removes every nested entry.
    pub fn clear(&mut self)
        ensures
            final(self).data.children@.len() == 0,
            *final(self).data == (EpubTocEntryData { children: final(self).data.children, ..*old(self).data }),
            *final(final(self).data) == *final(old(self).data),
    {
        self.data.children.clear();
    }
}

/// `after` is `before` with every location under every root whose path is `old` moved
/// to `new` (see [`cascaded`]), keys unchanged.
pub open spec fn roots_cascaded(
    before: Seq<(EpubTocKey, EpubTocEntryData)>,
    after: Seq<(EpubTocKey, EpubTocEntryData)>,
    old: Seq<char>,
    new: Seq<char>,
) -> bool {
    &&& after.len() == before.len()
    &&& forall|k: int|
        0 <= k < before.len() ==> (#[trigger] after[k]).0 == before[k].0 && cascaded(before[k].1, after[k].1, old, new)
}

impl EpubTocData {
    /// Points every location under every root whose path is `old_href` at `new_href`
    /// instead, keeping its query and fragment.
    pub fn cascade_href(&mut self, old_href: &str, new_href: &str)
        ensures
            roots_cascaded(old(self).entries@, final(self).entries@, old_href@, new_href@),
            final(self).preferred_version == old(self).preferred_version,
    {
        let n = self.entries.len();
        let mut k: usize = 0;
        while k < n
            invariant
                n == self.entries@.len(),
                n == old(self).entries@.len(),
                k <= n,
                self.preferred_version == old(self).preferred_version,
                forall|j: int|
                    0 <= j < k ==> (#[trigger] self.entries@[j]).0 == old(self).entries@[j].0 && cascaded(
                        old(self).entries@[j].1,
                        self.entries@[j].1,
                        old_href@,
                        new_href@,
                    ),
                forall|j: int| k <= j < n ==> #[trigger] self.entries@[j] == old(self).entries@[j],
            decreases n - k,
        {
            self.entries[k].1.cascade_toc_href(old_href, new_href);
            k = k + 1;
        }
    }
}

/// The position of the first root with the given kind and version.
pub fn toc_index_pub(entries: &Vec<(EpubTocKey, EpubTocEntryData)>, kind: &str, version: EpubVersion) -> (r: Option<usize>)
    ensures
        match r {
            Some(i) => i as int == toc_pos(entries@, kind@, version) && i < entries@.len(),
            None => toc_pos(entries@, kind@, version) == -1,
        },
{
    toc_index(entries, kind, version)
}

/// Puts a root in place of the one with the same kind and version, returning that
/// one, or appends it (see [`with_root`]).
pub fn insert_root_pub(entries: &mut Vec<(EpubTocKey, EpubTocEntryData)>, key: EpubTocKey, root: EpubTocEntryData) -> (r: Option<EpubTocEntryData>)
    ensures
        final(entries)@ == with_root(old(entries)@, key, root),
{
    insert_root_at(entries, key, root)
}

} // verus!
