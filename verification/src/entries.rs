//! Typed views over metadata entries: identifiers, titles, tags, contributors
//! and languages, each with the scheme rules of the EPUB 2 and EPUB 3 forms.
use vstd::prelude::*;
use crate::consts;
use crate::metadata::{
    attr_value, property_index, property_indices, EpubMetaEntry, EpubMetaEntryData, LanguageKind,
    Scheme, TitleKind, spec_title_kind,
};

verus! {

broadcast use vstd::string::group_string_axioms;

/// The `(source, code)` of the scheme carried by a refinement: its `scheme`
/// attribute and its value.
pub open spec fn refinement_scheme(d: EpubMetaEntryData) -> (Option<Seq<char>>, Seq<char>) {
    (attr_value(d.attributes@, consts::SCHEME@), d.value@)
}

/// The `(source, code)` of a scheme value.
pub open spec fn scheme_pair(s: Scheme) -> (Option<Seq<char>>, Seq<char>) {
    (s.spec_source(), s.spec_code())
}

/// The scheme of an identifier: its first `identifier-type` refinement, else the
/// legacy `opf:scheme` attribute.
pub open spec fn identifier_scheme(d: EpubMetaEntryData) -> Option<
    (Option<Seq<char>>, Seq<char>),
> {
    let refs = d.refinements.0@;
    let i = property_index(refs, consts::IDENTIFIER_TYPE@);
    if i >= 0 {
        Some(refinement_scheme(refs[i]))
    } else {
        match attr_value(d.attributes@, consts::OPF_SCHEME@) {
            Some(c) => Some((None, c)),
            None => None,
        }
    }
}

/// The scheme of a tag: the `authority` and `term` refinements when both are present,
/// else the `opf:authority` and `opf:term` attributes when both are present.
pub open spec fn tag_scheme(d: EpubMetaEntryData) -> Option<(Option<Seq<char>>, Seq<char>)> {
    let attrs = d.attributes@;
    let refs = d.refinements.0@;
    let a = property_index(refs, consts::AUTHORITY@);
    let t = property_index(refs, consts::TERM@);
    if a >= 0 && t >= 0 {
        Some((Some(refs[a].value@), refs[t].value@))
    } else {
        match (attr_value(attrs, consts::OPF_AUTHORITY@), attr_value(attrs, consts::OPF_TERM@)) {
            (Some(a), Some(t)) => Some((Some(a), t)),
            _ => None,
        }
    }
}

/// The roles of a contributor: its `role` refinements in order, else the legacy
/// `opf:role` attribute when present.
pub open spec fn contributor_roles(d: EpubMetaEntryData) -> Seq<(Option<Seq<char>>, Seq<char>)> {
    let refs = d.refinements.0@;
    let idx = property_indices(refs, consts::ROLE@);
    if idx.len() > 0 {
        Seq::new(idx.len(), |k: int| refinement_scheme(refs[idx[k]]))
    } else {
        match attr_value(d.attributes@, consts::OPF_ROLE@) {
            Some(c) => seq![(None, c)],
            None => Seq::empty(),
        }
    }
}

/// The kind of a title: `main` for the main title, else the kind named by its
/// first `title-type` refinement, else unknown.
pub open spec fn title_kind(d: EpubMetaEntryData, is_main: bool) -> TitleKind {
    let refs = d.refinements.0@;
    let i = property_index(refs, consts::TITLE_TYPE@);
    if is_main {
        TitleKind::Main
    } else if i >= 0 {
        spec_title_kind(refs[i].value@)
    } else {
        TitleKind::Unknown
    }
}

fn refinement_scheme_of<'a>(d: &'a EpubMetaEntryData) -> (r: Scheme<'a>)
    ensures
        scheme_pair(r) == refinement_scheme(*d),
{
    Scheme::new(d.attributes.get_value(consts::SCHEME), d.value.as_str())
}

/// An identifier entry (`dc:identifier`).
#[derive(Copy, Clone, Debug)]
pub struct EpubIdentifier<'ebook> {
    entry: EpubMetaEntry<'ebook>,
}

impl<'ebook> EpubIdentifier<'ebook> {
    pub closed spec fn spec_entry(&self) -> EpubMetaEntry<'ebook> {
        self.entry
    }

    pub fn new(entry: EpubMetaEntry<'ebook>) -> (r: Self)
        ensures
            r.spec_entry() == entry,
    {
        EpubIdentifier { entry }
    }

    /// The underlying metadata entry.
    pub fn as_meta(&self) -> (r: EpubMetaEntry<'ebook>)
        ensures
            r == self.spec_entry(),
    {
        self.entry
    }

    /// The value of the identifier.
    pub fn value(&self) -> (r: &'ebook str)
        ensures
            r@ == self.spec_entry().spec_data().value@,
    {
        self.entry.value()
    }

    /// The identifier scheme: the first `identifier-type` refinement (with its `scheme`
    /// attribute as source), else the legacy `opf:scheme` attribute.
    pub fn scheme(&self) -> (r: Option<Scheme<'ebook>>)
        ensures
            match r {
                Some(s) => identifier_scheme(self.spec_entry().spec_data()) == Some(scheme_pair(s)),
                None => identifier_scheme(self.spec_entry().spec_data()) is None,
            },
    {
        let d = self.entry.data();
        match d.refinements.by_refinement(consts::IDENTIFIER_TYPE) {
            Some(t) => Some(refinement_scheme_of(t)),
            None => match d.attributes.get_value(consts::OPF_SCHEME) {
                Some(c) => Some(Scheme::new(None, c)),
                None => None,
            },
        }
    }
}

/// A title entry (`dc:title`), knowing whether it is the main title.
#[derive(Copy, Clone, Debug)]
pub struct EpubTitle<'ebook> {
    entry: EpubMetaEntry<'ebook>,
    is_main_title: bool,
}

impl<'ebook> EpubTitle<'ebook> {
    pub closed spec fn spec_entry(&self) -> EpubMetaEntry<'ebook> {
        self.entry
    }

    pub closed spec fn spec_is_main(&self) -> bool {
        self.is_main_title
    }

    pub fn new(entry: EpubMetaEntry<'ebook>, is_main_title: bool) -> (r: Self)
        ensures
            r.spec_entry() == entry,
            r.spec_is_main() == is_main_title,
    {
        EpubTitle { entry, is_main_title }
    }

    /// The underlying metadata entry.
    pub fn as_meta(&self) -> (r: EpubMetaEntry<'ebook>)
        ensures
            r == self.spec_entry(),
    {
        self.entry
    }

    /// The value of the title.
    pub fn value(&self) -> (r: &'ebook str)
        ensures
            r@ == self.spec_entry().spec_data().value@,
    {
        self.entry.value()
    }

    /// Returns `true` for the main title of the publication.
    pub fn is_main_title(&self) -> (r: bool)
        ensures
            r == self.spec_is_main(),
    {
        self.is_main_title
    }

    /// The title scheme: the value of the first `title-type` refinement.
    pub fn scheme(&self) -> (r: Option<Scheme<'ebook>>)
        ensures
            ({
                let refs = self.spec_entry().spec_data().refinements.0@;
                let i = property_index(refs, consts::TITLE_TYPE@);
                match r {
                    Some(s) => i >= 0 && scheme_pair(s) == (None::<Seq<char>>, refs[i].value@),
                    None => i < 0,
                }
            }),
    {
        match self.entry.data().refinements.by_refinement(consts::TITLE_TYPE) {
            Some(t) => Some(Scheme::new(None, t.value.as_str())),
            None => None,
        }
    }

    /// The title kind: main for the main title, else named by its `title-type`.
    pub fn kind(&self) -> (r: TitleKind)
        ensures
            r == title_kind(self.spec_entry().spec_data(), self.spec_is_main()),
    {
        if self.is_main_title {
            return TitleKind::Main;
        }
        match self.entry.data().refinements.by_refinement(consts::TITLE_TYPE) {
            Some(t) => TitleKind::from_value(t.value.as_str()),
            None => TitleKind::Unknown,
        }
    }
}

/// A subject entry (`dc:subject`).
#[derive(Copy, Clone, Debug)]
pub struct EpubTag<'ebook> {
    entry: EpubMetaEntry<'ebook>,
}

impl<'ebook> EpubTag<'ebook> {
    pub closed spec fn spec_entry(&self) -> EpubMetaEntry<'ebook> {
        self.entry
    }

    pub fn new(entry: EpubMetaEntry<'ebook>) -> (r: Self)
        ensures
            r.spec_entry() == entry,
    {
        EpubTag { entry }
    }

    /// The underlying metadata entry.
    pub fn as_meta(&self) -> (r: EpubMetaEntry<'ebook>)
        ensures
            r == self.spec_entry(),
    {
        self.entry
    }

    /// The value of the tag.
    pub fn value(&self) -> (r: &'ebook str)
        ensures
            r@ == self.spec_entry().spec_data().value@,
    {
        self.entry.value()
    }

    /// The tag scheme: authority and term, from refinements or else the legacy
    /// attributes.
    pub fn scheme(&self) -> (r: Option<Scheme<'ebook>>)
        ensures
            match r {
                Some(s) => tag_scheme(self.spec_entry().spec_data()) == Some(scheme_pair(s)),
                None => tag_scheme(self.spec_entry().spec_data()) is None,
            },
    {
        let d = self.entry.data();
        let a = d.refinements.by_refinement(consts::AUTHORITY);
        let t = d.refinements.by_refinement(consts::TERM);
        match (a, t) {
            (Some(a), Some(t)) => {
                return Some(Scheme::new(Some(a.value.as_str()), t.value.as_str()));
            },
            _ => {},
        }
        let authority = d.attributes.get_value(consts::OPF_AUTHORITY);
        let term = d.attributes.get_value(consts::OPF_TERM);
        match (authority, term) {
            (Some(a), Some(t)) => Some(Scheme::new(Some(a), t)),
            _ => None,
        }
    }
}

/// A creator, contributor or publisher entry.
#[derive(Copy, Clone, Debug)]
pub struct EpubContributor<'ebook> {
    entry: EpubMetaEntry<'ebook>,
}

impl<'ebook> EpubContributor<'ebook> {
    pub closed spec fn spec_entry(&self) -> EpubMetaEntry<'ebook> {
        self.entry
    }

    pub fn new(entry: EpubMetaEntry<'ebook>) -> (r: Self)
        ensures
            r.spec_entry() == entry,
    {
        EpubContributor { entry }
    }

    /// The underlying metadata entry.
    pub fn as_meta(&self) -> (r: EpubMetaEntry<'ebook>)
        ensures
            r == self.spec_entry(),
    {
        self.entry
    }

    /// The value (the name) of the contributor.
    pub fn value(&self) -> (r: &'ebook str)
        ensures
            r@ == self.spec_entry().spec_data().value@,
    {
        self.entry.value()
    }

    /// The roles: every `role` refinement in order, else the legacy `opf:role`.
    pub fn roles(&self) -> (r: Vec<Scheme<'ebook>>)
        ensures
            r@.len() == contributor_roles(self.spec_entry().spec_data()).len(),
            forall|k: int|
                0 <= k < r@.len() ==> scheme_pair(#[trigger] r@[k]) == contributor_roles(
                    self.spec_entry().spec_data(),
                )[k],
    {
        let d = self.entry.data();
        let refs = &d.refinements;
        let idx = refs.by_refinements(consts::ROLE);
        let ghost sidx = idx@.map_values(|i: usize| i as int);
        let ghost want = contributor_roles(*d);
        let mut out: Vec<Scheme<'ebook>> = Vec::new();
        if idx.len() > 0 {
            let mut k: usize = 0;
            while k < idx.len()
                invariant
                    k <= idx@.len(),
                    idx@.len() > 0,
                    sidx == idx@.map_values(|i: usize| i as int),
                    sidx == property_indices(refs.0@, consts::ROLE@),
                    want == contributor_roles(*d),
                    refs.0@ == d.refinements.0@,
                    forall|j: int| 0 <= j < idx@.len() ==> #[trigger] idx@[j] < refs.0@.len(),
                    out@.len() == k,
                    forall|j: int| 0 <= j < k ==> scheme_pair(#[trigger] out@[j]) == want[j],
                decreases idx.len() - k,
            {
                let item = &refs.0[idx[k]];
                proof {
                    assert(sidx[k as int] == idx@[k as int] as int);
                }
                out.push(refinement_scheme_of(item));
                k = k + 1;
            }
            return out;
        }
        match d.attributes.get_value(consts::OPF_ROLE) {
            Some(c) => {
                out.push(Scheme::new(None, c));
            },
            None => {},
        }
        out
    }

    /// The main role: the first of [`Self::roles`].
    pub fn main_role(&self) -> (r: Option<Scheme<'ebook>>)
        ensures
            match r {
                Some(s) => contributor_roles(self.spec_entry().spec_data()).len() > 0
                    && scheme_pair(s) == contributor_roles(self.spec_entry().spec_data())[0],
                None => contributor_roles(self.spec_entry().spec_data()).len() == 0,
            },
    {
        let roles = self.roles();
        if roles.len() > 0 {
            Some(roles[0])
        } else {
            None
        }
    }
}

/// A language entry (`dc:language`).
#[derive(Copy, Clone, Debug)]
pub struct EpubLanguage<'ebook> {
    entry: EpubMetaEntry<'ebook>,
}

impl<'ebook> EpubLanguage<'ebook> {
    pub closed spec fn spec_entry(&self) -> EpubMetaEntry<'ebook> {
        self.entry
    }

    pub fn new(entry: EpubMetaEntry<'ebook>) -> (r: Self)
        ensures
            r.spec_entry() == entry,
    {
        EpubLanguage { entry }
    }

    /// The underlying metadata entry.
    pub fn as_meta(&self) -> (r: EpubMetaEntry<'ebook>)
        ensures
            r == self.spec_entry(),
    {
        self.entry
    }

    /// The language code.
    pub fn value(&self) -> (r: &'ebook str)
        ensures
            r@ == self.spec_entry().spec_data().value@,
    {
        self.entry.value()
    }

    /// The scheme: `BCP 47` as source and the language code.
    pub fn scheme(&self) -> (r: Scheme<'ebook>)
        ensures
            r.spec_source() == Some("BCP 47"@),
            r.spec_code() == self.spec_entry().spec_data().value@,
    {
        let kind = LanguageKind::Bcp47;
        Scheme::new(Some(kind.as_str()), self.entry.value())
    }

    /// The kind of language tag: always BCP 47.
    pub fn kind(&self) -> (r: LanguageKind)
        ensures
            r == LanguageKind::Bcp47,
    {
        LanguageKind::Bcp47
    }
}

} // verus!
