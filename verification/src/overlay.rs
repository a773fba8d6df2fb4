//! The in-memory layer over an archive: resources added, removed or moved since the
//! archive was opened, keyed by their (decoded, absolute) location.
use vstd::prelude::*;
use crate::keyed::{key_index, lemma_key_index, Keyed, KeyedVec};
use crate::element::insert_keyed;
use crate::text::to_string;
use crate::uri;

verus! {

broadcast use vstd::string::group_string_axioms;

/// The content of a resource held outside the archive.
#[derive(Debug)]
pub enum ResourceContent {
    /// Bytes held in memory.
    Memory(Vec<u8>),
    /// A file on disk, by path.
    File(String),
}

/// What the layer knows about a location.
#[derive(Debug)]
pub enum OverlayResource {
    /// Content that replaces (or adds to) the archive.
    Content(ResourceContent),
    /// The archive resource at the given location, moved here.
    Relocated(String),
}

impl OverlayResource {
    /// The content held, unless this is a relocation.
    pub fn take_content(self) -> (r: Option<ResourceContent>)
        ensures
            r == content_of(Some(self)),
    {
        match self {
            OverlayResource::Content(c) => Some(c),
            OverlayResource::Relocated(_) => None,
        }
    }
}

/// A location together with what the layer holds for it.
#[derive(Debug)]
pub struct OverlayEntry {
    pub key: String,
    pub resource: OverlayResource,
}

impl Keyed for OverlayEntry {
    open spec fn spec_key(&self) -> Seq<char> {
        self.key@
    }

    fn key(&self) -> (r: &str) {
        self.key.as_str()
    }
}

/// What the layer holds for location `k`, if anything.
pub open spec fn lookup(s: Seq<OverlayEntry>, k: Seq<char>) -> Option<OverlayResource> {
    let i = key_index(s, k);
    if i >= 0 {
        Some(s[i].resource)
    } else {
        None
    }
}

/// The content held by a resource, if it is not a relocation.
pub open spec fn content_of(r: Option<OverlayResource>) -> Option<ResourceContent> {
    match r {
        Some(OverlayResource::Content(c)) => Some(c),
        _ => None,
    }
}

/// Where the bytes of a location come from.
pub enum ResourceSource<'a> {
    /// Content held by the layer.
    Content(&'a ResourceContent),
    /// The archive, at the given location.
    Base(&'a str),
}

/// The layer of added, removed and relocated resources.
#[derive(Debug)]
pub struct ArchiveOverlay(KeyedVec<OverlayEntry>);

impl View for ArchiveOverlay {
    type V = Seq<OverlayEntry>;

    closed spec fn view(&self) -> Seq<OverlayEntry> {
        self.0.0@
    }
}

proof fn lemma_lookup_insert(s: Seq<OverlayEntry>, e: OverlayEntry, k: Seq<char>)
    ensures
        lookup(insert_keyed(s, e), k) == if k == e.key@ {
            Some(e.resource)
        } else {
            lookup(s, k)
        },
{
    let t = insert_keyed(s, e);
    lemma_key_index(s, e.key@);
    lemma_key_index(s, k);
    lemma_key_index(t, k);
    let i = key_index(s, e.key@);
    let j = key_index(s, k);
    let m = key_index(t, k);
    if k == e.key@ {
        if i >= 0 {
            assert(t[i].spec_key() == k);
            assert(m == i);
        } else {
            assert(t[s.len() as int] == e);
            assert(m == s.len());
        }
    } else {
        if j >= 0 {
            assert(t[j] == s[j]);
            assert(m == j);
        } else {
            assert(forall|x: int| 0 <= x < t.len() ==> t[x].spec_key() != k) by {
                assert forall|x: int| 0 <= x < t.len() implies t[x].spec_key() != k by {
                    if x < s.len() && x != i {
                        assert(t[x] == s[x]);
                    }
                }
            }
            assert(m < 0);
        }
    }
}

proof fn lemma_lookup_remove(s: Seq<OverlayEntry>, k: Seq<char>, q: Seq<char>)
    requires
        key_index(s, k) >= 0,
        forall|a: int, b: int| 0 <= a < b < s.len() ==> s[a].spec_key() != s[b].spec_key(),
    ensures
        lookup(s.remove(key_index(s, k)), q) == if q == k {
            None
        } else {
            lookup(s, q)
        },
{
    let i = key_index(s, k);
    let t = s.remove(i);
    lemma_key_index(s, k);
    lemma_key_index(s, q);
    lemma_key_index(t, q);
    let j = key_index(s, q);
    let m = key_index(t, q);
    if q == k {
        if m >= 0 {
            let x = if m < i { m } else { m + 1 };
            assert(t[m] == s[x]);
            assert(s[x].spec_key() == s[i].spec_key());
        }
    } else {
        if j >= 0 {
            assert(j != i);
            let jj = if j < i { j } else { j - 1 };
            assert(t[jj] == s[j]);
            assert forall|x: int| 0 <= x < jj implies t[x].spec_key() != q by {
                let y = if x < i { x } else { x + 1 };
                assert(t[x] == s[y]);
            }
            assert(m == jj);
        } else {
            if m >= 0 {
                let y = if m < i { m } else { m + 1 };
                assert(t[m] == s[y]);
            }
        }
    }
}

proof fn lemma_distinct_insert(s: Seq<OverlayEntry>, e: OverlayEntry)
    requires
        forall|a: int, b: int| 0 <= a < b < s.len() ==> s[a].spec_key() != s[b].spec_key(),
    ensures
        ({
            let t = insert_keyed(s, e);
            forall|a: int, b: int| 0 <= a < b < t.len() ==> t[a].spec_key() != t[b].spec_key()
        }),
{
    lemma_key_index(s, e.key@);
}

impl ArchiveOverlay {
    #[verifier::type_invariant]
    spec fn inv(&self) -> bool {
        forall|a: int, b: int|
            0 <= a < b < self.0.0@.len() ==> self.0.0@[a].spec_key() != self.0.0@[b].spec_key()
    }

    /// An empty layer.
    pub fn new() -> (r: Self)
        ensures
            r@.len() == 0,
    {
        ArchiveOverlay(KeyedVec(Vec::new()))
    }

    /// What the layer holds for `key`, if anything.
    pub fn get(&self, key: &str) -> (r: Option<&OverlayResource>)
        ensures
            match r {
                Some(x) => lookup(self@, key@) == Some(*x),
                None => lookup(self@, key@) is None,
            },
    {
        match self.0.by_key(key) {
            Some(e) => Some(&e.resource),
            None => None,
        }
    }

    /// Returns `true` if the layer holds something for `key`.
    pub fn is_overlay_resource(&self, key: &str) -> (r: bool)
        ensures
            r == (lookup(self@, key@) is Some),
    {
        self.0.position(key).is_some()
    }

    fn put(&mut self, entry: OverlayEntry) -> (r: Option<OverlayResource>)
        ensures
            forall|q: Seq<char>|
                #[trigger] lookup(final(self)@, q) == if q == entry.key@ {
                    Some(entry.resource)
                } else {
                    lookup(old(self)@, q)
                },
            r == lookup(old(self)@, entry.key@),
    {
        proof {
            use_type_invariant(&*self);
            lemma_distinct_insert(self@, entry);
            lemma_key_index(self@, entry.key@);
            assert forall|q: Seq<char>|
                #[trigger] lookup(insert_keyed(self@, entry), q) == if q == entry.key@ {
                    Some(entry.resource)
                } else {
                    lookup(self@, q)
                } by {
                lemma_lookup_insert(self@, entry, q);
            }
        }
        let mut items = KeyedVec(Vec::new());
        std::mem::swap(&mut items, &mut self.0);
        let previous = items.insert(entry);
        self.0 = items;
        match previous {
            Some(e) => Some(e.resource),
            None => None,
        }
    }

    fn take(&mut self, key: &str) -> (r: Option<OverlayResource>)
        ensures
            forall|q: Seq<char>|
                #[trigger] lookup(final(self)@, q) == if q == key@ {
                    None
                } else {
                    lookup(old(self)@, q)
                },
            r == lookup(old(self)@, key@),
    {
        proof {
            use_type_invariant(&*self);
            lemma_key_index(self@, key@);
            let i = key_index(self@, key@);
            if i >= 0 {
                let t = self@.remove(i);
                assert forall|a: int, b: int| 0 <= a < b < t.len() implies t[a].spec_key()
                    != t[b].spec_key() by {
                    let a2 = if a < i { a } else { a + 1 };
                    let b2 = if b < i { b } else { b + 1 };
                    assert(t[a] == self@[a2]);
                    assert(t[b] == self@[b2]);
                }
                assert forall|q: Seq<char>|
                    #[trigger] lookup(t, q) == if q == key@ {
                        None
                    } else {
                        lookup(self@, q)
                    } by {
                    lemma_lookup_remove(self@, key@, q);
                }
            }
        }
        let mut items = KeyedVec(Vec::new());
        std::mem::swap(&mut items, &mut self.0);
        let removed = items.remove(key);
        self.0 = items;
        match removed {
            Some(e) => Some(e.resource),
            None => None,
        }
    }

    /// Sets the content of `key`, returning the content it replaces, if any.
    pub fn insert(&mut self, key: String, content: ResourceContent) -> (r: Option<ResourceContent>)
        ensures
            forall|q: Seq<char>|
                #[trigger] lookup(final(self)@, q) == if q == key@ {
                    Some(OverlayResource::Content(content))
                } else {
                    lookup(old(self)@, q)
                },
            r == content_of(lookup(old(self)@, key@)),
    {
        match self.put(OverlayEntry { key, resource: OverlayResource::Content(content) }) {
            Some(previous) => previous.take_content(),
            None => None,
        }
    }

    /// Forgets `key`, returning its content, if the layer held content for it.
    pub fn remove(&mut self, key: &str) -> (r: Option<ResourceContent>)
        ensures
            forall|q: Seq<char>|
                #[trigger] lookup(final(self)@, q) == if q == key@ {
                    None
                } else {
                    lookup(old(self)@, q)
                },
            r == content_of(lookup(old(self)@, key@)),
    {
        match self.take(key) {
            Some(previous) => previous.take_content(),
            None => None,
        }
    }

    /// Moves the resource at `current` to `new_key`: what the layer held for `current`
    /// moves, else `new_key` points at the archive resource at `current`.
    pub fn relocate(&mut self, current: &str, new_key: String)
        ensures
            relocated(*old(self), *final(self), current@, new_key@),
    {
        match self.take(current) {
            Some(entry) => {
                self.put(OverlayEntry { key: new_key, resource: entry });
            },
            None => {
                self.put(
                    OverlayEntry {
                        key: new_key,
                        resource: OverlayResource::Relocated(to_string(current)),
                    },
                );
            },
        }
    }

    /// The location that `key` was relocated from, when the layer holds a relocation.
    pub open spec fn relocated_from(&self, key: Seq<char>) -> String {
        match lookup(self@, key) {
            Some(OverlayResource::Relocated(from)) => from,
            _ => arbitrary(),
        }
    }

    /// Where the bytes of `key` come from: held content, the archive at the location
    /// it was moved from, else the archive at `key` itself.
    pub fn source<'a>(&'a self, key: &'a str) -> (r: ResourceSource<'a>)
        ensures
            match lookup(self@, key@) {
                Some(OverlayResource::Content(c)) => r matches ResourceSource::Content(x) && *x == c,
                Some(OverlayResource::Relocated(from)) => r matches ResourceSource::Base(b) && b@
                    == from@,
                None => r matches ResourceSource::Base(b) && b@ == key@,
            },
    {
        match self.get(key) {
            Some(OverlayResource::Content(c)) => ResourceSource::Content(c),
            Some(OverlayResource::Relocated(from)) => ResourceSource::Base(from.as_str()),
            None => ResourceSource::Base(key),
        }
    }
}

/// The key under which an archive location is held: decoded, with a leading `/`.
pub open spec fn spec_resource_key(href: Seq<char>) -> Seq<char> {
    uri::spec_into_absolute(uri::spec_decode(href))
}

/// The key under which an archive location is held: decoded, with a leading `/`.
pub fn resource_key(href: &str) -> (r: String)
    ensures
        r@ == spec_resource_key(href@),
{
    let decoded = uri::decode(href);
    uri::into_absolute(decoded.as_str())
}

/// `after` is `before` with the resource at `current` moved to `new_key`: what the
/// layer held for `current` moves, else `new_key` points at the archive resource at
/// `current`.
pub open spec fn relocated(before: ArchiveOverlay, after: ArchiveOverlay, current: Seq<char>, new_key: Seq<char>) -> bool {
    &&& forall|q: Seq<char>|
        #[trigger] lookup(after@, q) == if q == new_key {
            match lookup(before@, current) {
                Some(x) => Some(x),
                None => Some(OverlayResource::Relocated(after.relocated_from(new_key))),
            }
        } else if q == current {
            None
        } else {
            lookup(before@, q)
        }
    &&& lookup(before@, current) is None ==> after.relocated_from(new_key)@ == current
}

} // verus!
