//! The EPUB package: location, version, unique identifier, prefixes and
//! package-level defaults that metadata entries inherit.
use vstd::prelude::*;
use crate::element::{Attributes, Href, TextDirection};
use crate::keyed::{has_key, key_index, Keyed, KeyedVec, select};
use crate::metadata::{EpubVersion, Version, version_string, spec_version_string, spec_version};
use crate::text::{opt_as_str, opt_str_view, opt_string_view, to_string};
use crate::uri;
use crate::overlay::{ArchiveOverlay, OverlayResource, lookup, resource_key, spec_resource_key};

verus! {

broadcast use vstd::string::group_string_axioms;

/// The raw version string of a package together with its parsed form.
#[derive(Clone, Debug, PartialEq)]
pub struct EpubVersionData {
    pub raw: String,
    pub parsed: EpubVersion,
}

impl EpubVersionData {
    /// The data for a version, with its canonical `major.minor` text.
    pub fn from_version(parsed: EpubVersion) -> (r: Self)
        ensures
            r.parsed == parsed,
            r.raw@ == spec_version_string(spec_version(parsed)),
    {
        EpubVersionData { raw: version_string(parsed.version()), parsed }
    }
}

/// The contents of the `<package>` element.
#[derive(Clone, Debug, PartialEq)]
pub struct EpubPackageData {
    /// Absolute percent-encoded location of the package file (e.g. `/OEBPS/package.opf`).
    pub location: String,
    pub version: EpubVersionData,
    /// The `id` of the primary unique identifier.
    pub unique_identifier: String,
    pub prefixes: Prefixes,
    /// Default package language.
    pub language: Option<String>,
    /// Default package text direction.
    pub text_direction: TextDirection,
    pub attributes: Attributes,
}

impl EpubPackageData {
    /// A package at `location` with the given version and no other information.
    pub fn new(location: String, version: EpubVersion) -> (r: Self)
        ensures
            r.location == location,
            r.version.parsed == version,
            r.version.raw@ == spec_version_string(spec_version(version)),
            r.unique_identifier@.len() == 0,
            r.prefixes@.len() == 0,
            r.language is None,
            r.text_direction == TextDirection::Auto,
            r.attributes@.len() == 0,
    {
        EpubPackageData {
            location,
            version: EpubVersionData::from_version(version),
            unique_identifier: String::new(),
            prefixes: Prefixes::empty(),
            language: None,
            text_direction: TextDirection::Auto,
            attributes: Attributes::empty(),
        }
    }
}

/// The package defaults seen by metadata entries; empty for detached entries.
#[derive(Copy, Clone, Debug)]
pub struct EpubPackageMetaContext<'ebook>(pub Option<&'ebook EpubPackageData>);

impl<'ebook> EpubPackageMetaContext<'ebook> {
    /// The package language, if any.
    pub open spec fn spec_language(&self) -> Option<Seq<char>> {
        match self.0 {
            Some(p) => opt_string_view(p.language),
            None => None,
        }
    }

    /// The package text direction; `auto` without a package.
    pub open spec fn spec_direction(&self) -> TextDirection {
        match self.0 {
            Some(p) => p.text_direction,
            None => TextDirection::Auto,
        }
    }

    /// A context without a package.
    pub fn empty() -> (r: Self)
        ensures
            r.0 is None,
    {
        EpubPackageMetaContext(None)
    }

    /// A context for the given package.
    pub fn new(package: &'ebook EpubPackageData) -> (r: Self)
        ensures
            r.0 == Some(package),
    {
        EpubPackageMetaContext(Some(package))
    }

    /// The package language, if any.
    pub fn package_language(&self) -> (r: Option<&'ebook str>)
        ensures
            opt_str_view(r) == self.spec_language(),
    {
        match self.0 {
            Some(p) => opt_as_str(&p.language),
            None => None,
        }
    }

    /// The package text direction, `auto` without a package.
    pub fn package_text_direction(&self) -> (r: TextDirection)
        ensures
            r == self.spec_direction(),
    {
        match self.0 {
            Some(p) => p.text_direction,
            None => TextDirection::Auto,
        }
    }
}

/// A read-only view over the package.
#[derive(Copy, Clone, Debug)]
pub struct EpubPackage<'ebook>(&'ebook EpubPackageData);

impl<'ebook> EpubPackage<'ebook> {
    pub closed spec fn spec_data(&self) -> EpubPackageData {
        *self.0
    }

    pub fn new(data: &'ebook EpubPackageData) -> (r: Self)
        ensures
            r.spec_data() == *data,
    {
        EpubPackage(data)
    }

    /// The absolute percent-encoded location of the package file.
    pub fn location(&self) -> (r: Href<'ebook>)
        ensures
            r@ == self.spec_data().location@,
    {
        Href::new(self.0.location.as_str())
    }

    /// The absolute percent-encoded directory the package file resides in.
    pub fn directory(&self) -> (r: Href<'ebook>)
        ensures
            r@ == uri::spec_parent(self.spec_data().location@),
    {
        Href::new(uri::parent(self.0.location.as_str()))
    }

    /// The EPUB version.
    pub fn version(&self) -> (r: EpubVersion)
        ensures
            r == self.spec_data().version.parsed,
    {
        self.0.version.parsed
    }

    /// The version string as written in the package.
    pub fn version_str(&self) -> (r: &'ebook str)
        ensures
            r@ == self.spec_data().version.raw@,
    {
        self.0.version.raw.as_str()
    }

    /// The `id` of the unique identifier entry.
    pub fn unique_identifier(&self) -> (r: &'ebook str)
        ensures
            r@ == self.spec_data().unique_identifier@,
    {
        self.0.unique_identifier.as_str()
    }

    /// The package-level text direction.
    pub fn text_direction(&self) -> (r: TextDirection)
        ensures
            r == self.spec_data().text_direction,
    {
        self.0.text_direction
    }

    /// The package-level language code, if present.
    pub fn xml_language(&self) -> (r: Option<&'ebook str>)
        ensures
            opt_str_view(r) == opt_string_view(self.spec_data().language),
    {
        opt_as_str(&self.0.language)
    }

    /// The package-level prefixes.
    pub fn prefixes(&self) -> (r: &'ebook Prefixes)
        ensures
            *r == self.spec_data().prefixes,
    {
        &self.0.prefixes
    }

    /// The remaining attributes of the `<package>` element.
    pub fn attributes(&self) -> (r: &'ebook Attributes)
        ensures
            *r == self.spec_data().attributes,
    {
        &self.0.attributes
    }
}

// ---------------------------------------------------------------------------
// Prefixes
// ---------------------------------------------------------------------------

/// A prefix mapping: a name (the key) and a URI.
#[derive(Clone, Debug, PartialEq)]
pub struct Prefix {
    name: String,
    uri: String,
}

impl<'a, 'b> From<(&'a str, &'b str)> for Prefix {
    /// A prefix from a `(name, uri)` pair.
    fn from(pair: (&'a str, &'b str)) -> (r: Self)
        ensures
            r.spec_name() == pair.0@,
            r.spec_uri() == pair.1@,
    {
        Prefix::create(pair.0, pair.1)
    }
}

impl<'a, 'b> vstd::std_specs::convert::FromSpecImpl<(&'a str, &'b str)> for Prefix {
    open spec fn obeys_from_spec() -> bool {
        false
    }

    open spec fn from_spec(pair: (&'a str, &'b str)) -> Self {
        choose|r: Prefix| r.spec_name() == pair.0@ && r.spec_uri() == pair.1@
    }
}

impl Prefix {
    pub closed spec fn spec_name(&self) -> Seq<char> {
        self.name@
    }

    pub closed spec fn spec_uri(&self) -> Seq<char> {
        self.uri@
    }

    /// Creates a prefix.
    pub fn create(name: &str, uri: &str) -> (r: Self)
        ensures
            r.spec_name() == name@,
            r.spec_uri() == uri@,
    {
        Prefix { name: to_string(name), uri: to_string(uri) }
    }

    /// Creates a prefix.
    pub fn new(name: &str, uri: &str) -> (r: Self)
        ensures
            r.spec_name() == name@,
            r.spec_uri() == uri@,
    {
        Prefix::create(name, uri)
    }

    /// The prefix name (its key).
    pub fn name(&self) -> (r: &str)
        ensures
            r@ == self.spec_name(),
    {
        self.name.as_str()
    }

    /// The prefix URI.
    pub fn uri(&self) -> (r: &str)
        ensures
            r@ == self.spec_uri(),
    {
        self.uri.as_str()
    }

    /// Replaces the URI, returning the previous one; the name cannot change.
    pub fn set_uri(&mut self, uri: &str) -> (r: String)
        ensures
            r@ == old(self).spec_uri(),
            final(self).spec_uri() == uri@,
            final(self).spec_name() == old(self).spec_name(),
    {
        let mut v = to_string(uri);
        std::mem::swap(&mut self.uri, &mut v);
        v
    }
}

impl Keyed for Prefix {
    open spec fn spec_key(&self) -> Seq<char> {
        self.spec_name()
    }

    fn key(&self) -> (r: &str) {
        self.name.as_str()
    }
}

/// An ordered collection of prefixes, keyed by name.
#[derive(Clone, Debug, PartialEq)]
pub struct Prefixes(KeyedVec<Prefix>);

impl View for Prefixes {
    type V = Seq<Prefix>;

    closed spec fn view(&self) -> Seq<Prefix> {
        self.0.0@
    }
}

/// An iterator over prefixes.
pub struct PrefixesIter<'a> {
    items: &'a Vec<Prefix>,
    pos: usize,
}

impl<'a> PrefixesIter<'a> {
    /// The prefixes not yet yielded.
    pub closed spec fn remaining(&self) -> Seq<Prefix> {
        if self.pos <= self.items@.len() {
            self.items@.skip(self.pos as int)
        } else {
            Seq::empty()
        }
    }

    /// The next prefix, if any.
    pub fn next(&mut self) -> (r: Option<&'a Prefix>)
        ensures
            old(self).remaining().len() == 0 ==> r is None && final(self).remaining() == old(
                self,
            ).remaining(),
            old(self).remaining().len() > 0 ==> (r matches Some(a) && *a == old(self).remaining()[0]
                && final(self).remaining() == old(self).remaining().drop_first()),
    {
        if self.pos < self.items.len() {
            let a = &self.items[self.pos];
            self.pos = self.pos + 1;
            assert(self.remaining() =~= old(self).remaining().drop_first());
            Some(a)
        } else {
            None
        }
    }
}

impl Prefixes {
    /// No prefixes.
    pub fn empty() -> (r: Self)
        ensures
            r@.len() == 0,
    {
        Prefixes(KeyedVec(Vec::new()))
    }

    /// Wraps a list of prefixes.
    pub fn new(prefixes: Vec<Prefix>) -> (r: Self)
        ensures
            r@ == prefixes@,
    {
        Prefixes(KeyedVec(prefixes))
    }

    /// The number of prefixes.
    pub fn len(&self) -> (r: usize)
        ensures
            r == self@.len(),
    {
        self.0.len()
    }

    /// Returns `true` if there are no prefixes.
    pub fn is_empty(&self) -> (r: bool)
        ensures
            r == (self@.len() == 0),
    {
        self.0.is_empty()
    }

    /// The prefix at `index`, if `index < len`.
    pub fn get(&self, index: usize) -> (r: Option<&Prefix>)
        ensures
            match r {
                Some(p) => index < self@.len() && *p == self@[index as int],
                None => index >= self@.len(),
            },
    {
        self.0.get(index)
    }

    /// An iterator over all prefixes.
    pub fn iter(&self) -> (r: PrefixesIter<'_>)
        ensures
            r.remaining() == self@,
    {
        let r = PrefixesIter { items: &self.0.0, pos: 0 };
        assert(r.remaining() =~= self@);
        r
    }

    /// The prefix with the given name, if present.
    pub fn by_name(&self, name: &str) -> (r: Option<&Prefix>)
        ensures
            match r {
                Some(p) => key_index(self@, name@) >= 0 && *p == self@[key_index(self@, name@)],
                None => key_index(self@, name@) == -1,
            },
    {
        self.0.by_key(name)
    }

    /// Returns `true` if a prefix with the given name is present.
    pub fn has_name(&self, name: &str) -> (r: bool)
        ensures
            r == has_key(self@, name@),
    {
        self.0.has_key(name)
    }

    /// Inserts a prefix, replacing (and returning) one with the same name in place.
    pub fn insert(&mut self, prefix: Prefix) -> (r: Option<Prefix>)
        ensures
            ({
                let i = key_index(old(self)@, prefix.spec_name());
                if i >= 0 {
                    &&& r == Some(old(self)@[i])
                    &&& final(self)@ == old(self)@.update(i, prefix)
                } else {
                    &&& r is None
                    &&& final(self)@ == old(self)@.push(prefix)
                }
            }),
    {
        self.0.insert(prefix)
    }

    /// The prefix at `index`, for modification, if `index < len` (one at a time, in
    /// place of a mutable iterator).
    pub fn get_mut(&mut self, index: usize) -> (r: Option<&mut Prefix>)
        ensures
            match r {
                Some(p) => {
                    &&& index < old(self)@.len()
                    &&& *p == old(self)@[index as int]
                    &&& final(self)@ == old(self)@.update(index as int, *final(p))
                },
                None => index >= old(self)@.len() && final(self)@ == old(self)@,
            },
    {
        self.0.get_mut(index)
    }

    /// The prefix with the given name, for modification.
    pub fn by_name_mut(&mut self, name: &str) -> (r: Option<&mut Prefix>)
        ensures
            match r {
                Some(p) => {
                    let i = key_index(old(self)@, name@);
                    &&& i >= 0
                    &&& *p == old(self)@[i]
                    &&& final(self)@ == old(self)@.update(i, *final(p))
                },
                None => key_index(old(self)@, name@) == -1 && final(self)@ == old(self)@,
            },
    {
        self.0.by_key_mut(name)
    }

    /// Removes and returns the prefix with the given name.
    pub fn remove(&mut self, name: &str) -> (r: Option<Prefix>)
        ensures
            ({
                let i = key_index(old(self)@, name@);
                if i >= 0 {
                    &&& r == Some(old(self)@[i])
                    &&& final(self)@ == old(self)@.remove(i)
                } else {
                    &&& r is None
                    &&& final(self)@ == old(self)@
                }
            }),
    {
        self.0.remove(name)
    }

    /// Keeps only the prefixes for which `f` returns `false` (those for which it returns `true` are removed), in order.
    pub fn retain<F: Fn(&Prefix) -> bool>(&mut self, f: F)
        requires
            forall|x: &Prefix| #[trigger] f.requires((x,)),
        ensures
            exists|d: Seq<bool>|
                #![trigger select(old(self)@, d, false)]
                d.len() == old(self)@.len() && (forall|i: int|
                    0 <= i < d.len() ==> f.ensures((&old(self)@[i],), #[trigger] d[i]))
                    && final(self)@ == select(old(self)@, d, false),
    {
        let ghost before = self.0.items();
        self.0.retain(f);
        proof {
            let d = choose|d: Seq<bool>|
                #![trigger select(before, d, false)]
                d.len() == before.len() && (forall|i: int|
                    0 <= i < d.len() ==> f.ensures((&before[i],), #[trigger] d[i]))
                    && self.0.items() == select(before, d, false);
            assert(select(old(self)@, d, false) == self@);
        }
    }

    /// Removes and returns the prefixes for which `f` returns `true`, in order.
    pub fn extract_if<F: Fn(&Prefix) -> bool>(&mut self, f: F) -> (r: Vec<Prefix>)
        requires
            forall|x: &Prefix| #[trigger] f.requires((x,)),
        ensures
            exists|d: Seq<bool>|
                #![trigger select(old(self)@, d, true)]
                d.len() == old(self)@.len() && (forall|i: int|
                    0 <= i < d.len() ==> f.ensures((&old(self)@[i],), #[trigger] d[i]))
                    && final(self)@ == select(old(self)@, d, false) && r@ == select(
                    old(self)@,
                    d,
                    true,
                ),
    {
        let ghost before = self.0.items();
        let r = self.0.extract_if(f);
        proof {
            let d = choose|d: Seq<bool>|
                #![trigger select(before, d, true)]
                d.len() == before.len() && (forall|i: int|
                    0 <= i < d.len() ==> f.ensures((&before[i],), #[trigger] d[i]))
                    && self.0.items() == select(before, d, false) && r@ == select(before, d, true);
            assert(select(old(self)@, d, true) == r@);
        }
        r
    }

    /// Removes and returns all prefixes.
    pub fn drain(&mut self) -> (r: Vec<Prefix>)
        ensures
            r@ == old(self)@,
            final(self)@.len() == 0,
    {
        self.0.drain()
    }

    /// Removes all prefixes.
    pub fn clear(&mut self)
        ensures
            final(self)@.len() == 0,
    {
        self.0.clear()
    }
}

// ---------------------------------------------------------------------------
// Package editing
// ---------------------------------------------------------------------------

/// A mutable view over the package, with the archive layer that follows its location.
pub struct EpubPackageMut<'ebook> {
    pub archive: &'ebook mut ArchiveOverlay,
    pub package: &'ebook mut EpubPackageData,
}

impl<'ebook> EpubPackageMut<'ebook> {
    /// Moves the package file: the location is normalized and made absolute, and the
    /// archive layer moves the package resource along. Returns the previous location.
    pub fn set_location(&mut self, location: &str) -> (r: String)
        ensures
            r == old(self).package.location,
            (*final(self).package).location@ == uri::spec_into_absolute(uri::spec_normalize(location@)),
            *final(self).package == (EpubPackageData {
                location: (*final(self).package).location,
                ..*old(self).package
            }),
            forall|q: Seq<char>|
                #[trigger] lookup((*final(self).archive)@, q) == if q == spec_resource_key(
                    (*final(self).package).location@,
                ) {
                    match lookup((*old(self).archive)@, spec_resource_key(r@)) {
                        Some(x) => Some(x),
                        None => Some(
                            OverlayResource::Relocated(
                                (*final(self).archive).relocated_from(q),
                            ),
                        ),
                    }
                } else if q == spec_resource_key(r@) {
                    None
                } else {
                    lookup((*old(self).archive)@, q)
                },
            lookup((*old(self).archive)@, spec_resource_key(r@)) is None ==> (*final(self).archive).relocated_from(
                spec_resource_key((*final(self).package).location@),
            )@ == spec_resource_key(r@),
            *final(final(self).package) == *final(old(self).package),
            *final(final(self).archive) == *final(old(self).archive),
    {
        let normalized = uri::normalize(location);
        let absolute = uri::into_absolute(normalized.as_str());
        let mut previous = absolute;
        std::mem::swap(&mut self.package.location, &mut previous);
        let from = resource_key(previous.as_str());
        let to = resource_key(self.package.location.as_str());
        self.archive.relocate(from.as_str(), to);
        previous
    }

    /// Sets the EPUB version (and its text), returning the previous version.
    pub fn set_version(&mut self, version: EpubVersion) -> (r: EpubVersion)
        ensures
            r == old(self).package.version.parsed,
            *final(self).package == (EpubPackageData {
                version: EpubVersionData { raw: (*final(self).package).version.raw, parsed: version },
                ..*old(self).package
            }),
            (*final(self).package).version.raw@ == spec_version_string(spec_version(version)),
            *final(self).archive == *old(self).archive,
            *final(final(self).package) == *final(old(self).package),
            *final(final(self).archive) == *final(old(self).archive),
    {
        let previous = self.package.version.parsed;
        self.package.version = EpubVersionData::from_version(version);
        previous
    }

    /// Sets the `id` of the unique identifier, returning the previous one.
    pub fn set_unique_identifier(&mut self, idref: &str) -> (r: String)
        ensures
            r == old(self).package.unique_identifier,
            (*final(self).package).unique_identifier@ == idref@,
            *final(self).package == (EpubPackageData {
                unique_identifier: (*final(self).package).unique_identifier,
                ..*old(self).package
            }),
            *final(self).archive == *old(self).archive,
            *final(final(self).package) == *final(old(self).package),
            *final(final(self).archive) == *final(old(self).archive),
    {
        let mut v = to_string(idref);
        std::mem::swap(&mut self.package.unique_identifier, &mut v);
        v
    }

    /// Sets the package text direction, returning the previous one.
    pub fn set_text_direction(&mut self, direction: TextDirection) -> (r: TextDirection)
        ensures
            r == old(self).package.text_direction,
            *final(self).package == (EpubPackageData {
                text_direction: direction,
                ..*old(self).package
            }),
            *final(self).archive == *old(self).archive,
            *final(final(self).package) == *final(old(self).package),
            *final(final(self).archive) == *final(old(self).archive),
    {
        let previous = self.package.text_direction;
        self.package.text_direction = direction;
        previous
    }

    /// Sets (or clears) the package language, returning the previous one.
    pub fn set_xml_language(&mut self, code: Option<String>) -> (r: Option<String>)
        ensures
            r == old(self).package.language,
            *final(self).package == (EpubPackageData { language: code, ..*old(self).package }),
            *final(self).archive == *old(self).archive,
            *final(final(self).package) == *final(old(self).package),
            *final(final(self).archive) == *final(old(self).archive),
    {
        let mut v = code;
        std::mem::swap(&mut self.package.language, &mut v);
        v
    }

    /// The prefixes, for modification.
    pub fn prefixes_mut(&mut self) -> (r: &mut Prefixes)
        ensures
            *r == old(self).package.prefixes,
            *final(self).package == (EpubPackageData { prefixes: *final(r), ..*old(self).package }),
            *final(final(self).package) == *final(old(self).package),
    {
        &mut self.package.prefixes
    }

    /// The remaining attributes, for modification.
    pub fn attributes_mut(&mut self) -> (r: &mut Attributes)
        ensures
            *r == old(self).package.attributes,
            *final(self).package == (EpubPackageData { attributes: *final(r), ..*old(self).package }),
            *final(final(self).package) == *final(old(self).package),
    {
        &mut self.package.attributes
    }

    /// A read-only view over the package.
    pub fn as_view(&self) -> (r: EpubPackage<'_>)
        ensures
            r.spec_data() == *old(self.package),
    {
        EpubPackage::new(&*self.package)
    }
}

} // verus!
