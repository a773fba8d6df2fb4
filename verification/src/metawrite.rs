//! Editing metadata: detached entries and their builders, and mutable views over
//! entries and refinements.
use vstd::prelude::*;
use std::marker::PhantomData;
use crate::consts;
use crate::element::{Attribute, Attributes, TextDirection, insert_keyed, lemma_attribute_key};
use crate::keyed::{key_index, select, lemma_select_push, Keyed};
use crate::marker;
use crate::metadata::{
    EpubMetaEntry, EpubMetaEntryData, EpubMetaEntryKind, EpubRefinements, EpubRefinementsData,
    EpubVersion, TitleKind, Version, spec_title_kind_str,
};
use crate::package::EpubPackageMetaContext;
use crate::text::{opt_str_view, opt_string_view, str_eq, starts_with, to_string, trim};

verus! {

broadcast use vstd::string::group_string_axioms, lemma_attribute_key;

/// The kind of an EPUB 3 `<meta>` entry.
pub open spec fn meta3() -> EpubMetaEntryKind {
    EpubMetaEntryKind::Meta { version: EpubVersion::Epub3(Version(3, 0)) }
}

/// `e` has the given kind, property and value and nothing else.
pub open spec fn is_plain(
    e: EpubMetaEntryData,
    kind: EpubMetaEntryKind,
    property: Seq<char>,
    value: Seq<char>,
) -> bool {
    &&& e.kind == kind
    &&& e.property@ == property
    &&& e.value@ == value
    &&& e.id is None
    &&& e.language is None
    &&& e.text_direction == TextDirection::Auto
    &&& e.attributes@.len() == 0
    &&& e.refinements.0@.len() == 0
}

/// The property of a Dublin Core entry gets the `dc:` namespace unless it has it.
pub open spec fn dc_property(kind: EpubMetaEntryKind, property: Seq<char>) -> Seq<char> {
    if kind is DublinCore && !(consts::DC_NAMESPACE@.len() <= property.len() && property.take(
        consts::DC_NAMESPACE@.len() as int,
    ) == consts::DC_NAMESPACE@) {
        consts::DC_NAMESPACE@ + property
    } else {
        property
    }
}

/// The entries of `s` whose property is not `p`, in order.
pub open spec fn without_property(s: Seq<EpubMetaEntryData>, p: Seq<char>) -> Seq<EpubMetaEntryData>
    decreases s.len(),
{
    if s.len() == 0 {
        Seq::empty()
    } else {
        let r = without_property(s.drop_last(), p);
        if s.last().property@ == p {
            r
        } else {
            r.push(s.last())
        }
    }
}

/// Removes the refinements with the given property, keeping the order of the others.
fn remove_property(refs: &mut EpubRefinementsData, property: &str)
    ensures
        final(refs).0@ == without_property(old(refs).0@, property@),
{
    let ghost all = refs.0@;
    let mut items: Vec<EpubMetaEntryData> = Vec::new();
    std::mem::swap(&mut items, &mut refs.0);
    let mut kept: Vec<EpubMetaEntryData> = Vec::new();
    let ghost mut done: int = 0;
    assert(all.skip(0) =~= all);
    assert(all.take(0) =~= Seq::<EpubMetaEntryData>::empty());
    while items.len() > 0
        invariant
            0 <= done <= all.len(),
            items@ == all.skip(done),
            kept@ == without_property(all.take(done), property@),
        decreases items.len(),
    {
        let x = items.remove(0);
        proof {
            assert(x == all[done]);
            assert(all.take(done + 1).drop_last() =~= all.take(done));
            assert(all.take(done + 1).last() == x);
            assert(all.skip(done + 1) =~= all.skip(done).drop_first());
            done = done + 1;
        }
        if !str_eq(x.property.as_str(), property) {
            kept.push(x);
        }
    }
    assert(all.take(done) =~= all);
    refs.0 = kept;
}

/// An entry holding only a kind, a property and a value.
fn plain(kind: EpubMetaEntryKind, property: &str, value: &str) -> (r: EpubMetaEntryData)
    ensures
        is_plain(r, kind, property@, value@),
{
    let mut d = EpubMetaEntryData::with_kind(kind);
    d.property = to_string(property);
    d.value = to_string(value);
    d
}

/// The entries that the detached entries `ds` hold, in order.
pub open spec fn entries_of<M>(ds: Seq<DetachedEpubMetaEntry<M>>) -> Seq<EpubMetaEntryData> {
    ds.map_values(|d: DetachedEpubMetaEntry<M>| d.spec_data())
}

/// A metadata entry that belongs to no package yet; `M` tells which builders apply.
#[derive(Debug)]
pub struct DetachedEpubMetaEntry<M = marker::Unknown>(EpubMetaEntryData, PhantomData<M>);

impl<M> DetachedEpubMetaEntry<M> {
    pub closed spec fn spec_data(&self) -> EpubMetaEntryData {
        self.0
    }

    /// A detached entry holding the given data.
    pub fn from_data(data: EpubMetaEntryData) -> (r: Self)
        ensures
            r.spec_data() == data,
    {
        DetachedEpubMetaEntry(data, PhantomData)
    }

    /// The entry data.
    pub fn into_data(self) -> (r: EpubMetaEntryData)
        ensures
            r == self.spec_data(),
    {
        self.0
    }

    fn with_kind(kind: EpubMetaEntryKind) -> (r: Self)
        ensures
            is_plain(r.spec_data(), kind, Seq::empty(), Seq::empty()),
    {
        let d = EpubMetaEntryData::with_kind(kind);
        assert(d.property@ =~= Seq::<char>::empty());
        assert(d.value@ =~= Seq::<char>::empty());
        DetachedEpubMetaEntry(d, PhantomData)
    }

    /// A Dublin Core entry with a property that already carries its namespace.
    fn dc(property: &str, value: &str) -> (r: Self)
        ensures
            is_plain(r.spec_data(), EpubMetaEntryKind::DublinCore {}, property@, value@),
    {
        DetachedEpubMetaEntry(plain(EpubMetaEntryKind::DublinCore {}, property, value), PhantomData)
    }

    /// Forgets the marker.
    pub fn into_any(self) -> (r: DetachedEpubMetaEntry<marker::Unknown>)
        ensures
            r.spec_data() == self.spec_data(),
    {
        DetachedEpubMetaEntry(self.0, PhantomData)
    }

    /// A mutable view over the entry.
    pub fn as_mut(&mut self) -> (r: EpubMetaEntryMut<'_>)
        ensures
            *r.data == old(self).spec_data(),
            r.ctx.0 is None,
            r.refines is None,
            r.index == 0,
            final(self).spec_data() == *final(r.data),
    {
        EpubMetaEntryMut { ctx: EpubPackageMetaContext::empty(), data: &mut self.0, refines: None, index: 0 }
    }

    /// A read-only view over the entry.
    pub fn as_view(&self) -> (r: EpubMetaEntry<'_>)
        ensures
            r.spec_data() == self.spec_data(),
            r.spec_index() == 0,
            r.spec_refines() is None,
            r.spec_ctx().0 is None,
    {
        EpubMetaEntry::new(EpubPackageMetaContext::empty(), None, &self.0, 0)
    }

    /// Sets (or clears) the `id`.
    pub fn id(self, id: Option<String>) -> (r: Self)
        ensures
            r.spec_data() == (EpubMetaEntryData { id: id, ..self.spec_data() }),
    {
        let mut s = self;
        s.0.id = id;
        s
    }

    /// Sets the value.
    pub fn value(self, value: &str) -> (r: Self)
        ensures
            r.spec_data().value@ == value@,
            r.spec_data() == (EpubMetaEntryData { value: r.spec_data().value, ..self.spec_data() }),
    {
        let mut s = self;
        s.0.value = to_string(value);
        s
    }

    /// Sets (or clears) the language.
    pub fn xml_language(self, code: Option<String>) -> (r: Self)
        ensures
            r.spec_data() == (EpubMetaEntryData { language: code, ..self.spec_data() }),
    {
        let mut s = self;
        s.0.language = code;
        s
    }

    /// Sets the text direction.
    pub fn text_direction(self, direction: TextDirection) -> (r: Self)
        ensures
            r.spec_data() == (EpubMetaEntryData { text_direction: direction, ..self.spec_data() }),
    {
        let mut s = self;
        s.0.text_direction = direction;
        s
    }

    /// Inserts an attribute, replacing one with the same name in place.
    pub fn attribute(self, attribute: Attribute) -> (r: Self)
        ensures
            r.spec_data().attributes@ == insert_keyed(self.spec_data().attributes@, attribute),
            r.spec_data() == (EpubMetaEntryData {
                attributes: r.spec_data().attributes,
                ..self.spec_data()
            }),
    {
        let mut s = self;
        s.0.attributes.insert(attribute);
        s
    }

    /// Appends a refinement.
    pub fn refinement<N>(self, detached: DetachedEpubMetaEntry<N>) -> (r: Self)
        ensures
            r.spec_data().refinements.0@ == self.spec_data().refinements.0@.push(
                detached.spec_data(),
            ),
            r.spec_data() == (EpubMetaEntryData {
                refinements: r.spec_data().refinements,
                ..self.spec_data()
            }),
    {
        let mut s = self;
        s.0.refinements.0.push(detached.0);
        s
    }

    /// Replaces every `file-as` refinement with one holding the given value.
    pub fn file_as(self, file_as: &str) -> (r: Self)
        ensures
            ({
                let old_refs = self.spec_data().refinements.0@;
                let refs = r.spec_data().refinements.0@;
                &&& refs.len() == without_property(old_refs, consts::FILE_AS@).len() + 1
                &&& refs.drop_last() == without_property(old_refs, consts::FILE_AS@)
                &&& is_plain(refs.last(), meta3(), consts::FILE_AS@, file_as@)
            }),
            r.spec_data() == (EpubMetaEntryData {
                refinements: r.spec_data().refinements,
                ..self.spec_data()
            }),
    {
        let mut s = self;
        remove_property(&mut s.0.refinements, consts::FILE_AS);
        s.0.refinements.0.push(plain(EpubMetaEntryKind::Meta { version: EpubVersion::epub3() }, consts::FILE_AS, file_as));
        proof {
            assert(s.0.refinements.0@.drop_last() =~= without_property(
                self.spec_data().refinements.0@,
                consts::FILE_AS@,
            ));
        }
        s
    }

    /// Appends an `alternate-script` refinement with the given language and text.
    pub fn alternate_script(self, bcp_47_language_code: &str, text: &str) -> (r: Self)
        ensures
            ({
                let refs = r.spec_data().refinements.0@;
                let e = refs.last();
                &&& refs.drop_last() == self.spec_data().refinements.0@
                &&& e.kind == meta3()
                &&& e.property@ == consts::ALTERNATE_SCRIPT@
                &&& e.value@ == text@
                &&& e.attributes@.len() == 1
                &&& e.attributes@[0].spec_name() == consts::XML_LANG@
                &&& e.attributes@[0].spec_value() == trim(bcp_47_language_code@)
                &&& e.id is None && e.language is None && e.refinements.0@.len() == 0
                &&& e.text_direction == TextDirection::Auto
            }),
            r.spec_data() == (EpubMetaEntryData {
                refinements: r.spec_data().refinements,
                ..self.spec_data()
            }),
    {
        let mut s = self;
        let mut e = plain(EpubMetaEntryKind::Meta { version: EpubVersion::epub3() }, consts::ALTERNATE_SCRIPT, text);
        let a = Attribute::new(consts::XML_LANG, bcp_47_language_code);
        proof {
            reveal_strlit("xml:lang");
            crate::text::lemma_trim_plain(consts::XML_LANG@);
        }
        e.attributes.insert(a);
        s.0.refinements.0.push(e);
        proof {
            assert(s.0.refinements.0@.drop_last() =~= self.spec_data().refinements.0@);
        }
        s
    }
}

impl DetachedEpubMetaEntry {
    /// A Dublin Core entry; the property gets the `dc:` namespace unless it has it.
    pub fn dublin_core(property: &str) -> (r: Self)
        ensures
            is_plain(
                r.spec_data(),
                EpubMetaEntryKind::DublinCore {},
                dc_property(EpubMetaEntryKind::DublinCore {}, property@),
                Seq::empty(),
            ),
    {
        Self::with_kind(EpubMetaEntryKind::DublinCore {}).property(property)
    }

    /// An EPUB 3 `<meta property=...>` entry.
    pub fn meta(property: &str) -> (r: Self)
        ensures
            is_plain(r.spec_data(), meta3(), property@, Seq::empty()),
    {
        Self::with_kind(EpubMetaEntryKind::Meta { version: EpubVersion::epub3() }).property(property)
    }

    /// An EPUB 2 `<meta name=...>` entry.
    pub fn meta_name(name: &str) -> (r: Self)
        ensures
            is_plain(
                r.spec_data(),
                EpubMetaEntryKind::Meta { version: EpubVersion::Epub2(Version(2, 0)) },
                name@,
                Seq::empty(),
            ),
    {
        Self::with_kind(EpubMetaEntryKind::Meta { version: EpubVersion::epub2() }).property(name)
    }

    /// Sets the property; a Dublin Core entry gets the `dc:` namespace unless present.
    pub fn property(self, property: &str) -> (r: Self)
        ensures
            r.spec_data().property@ == dc_property(self.spec_data().kind, property@),
            r.spec_data() == (EpubMetaEntryData {
                property: r.spec_data().property,
                ..self.spec_data()
            }),
    {
        let mut s = self;
        if s.0.kind.is_dublin_core() && !starts_with(property, consts::DC_NAMESPACE) {
            s.0.property = crate::text::concat(consts::DC_NAMESPACE, property);
        } else {
            s.0.property = to_string(property);
        }
        s
    }
}

impl DetachedEpubMetaEntry<marker::Contributor> {
    /// A `dc:creator` entry with the given name.
    pub fn creator(name: &str) -> (r: Self)
        ensures
            is_plain(r.spec_data(), EpubMetaEntryKind::DublinCore {}, consts::DC_CREATOR@, name@),
    {
        Self::dc(consts::DC_CREATOR, name)
    }

    /// A `dc:contributor` entry with the given name.
    pub fn contributor(name: &str) -> (r: Self)
        ensures
            is_plain(r.spec_data(), EpubMetaEntryKind::DublinCore {}, consts::DC_CONTRIBUTOR@, name@),
    {
        Self::dc(consts::DC_CONTRIBUTOR, name)
    }

    /// A `dc:publisher` entry with the given name.
    pub fn publisher(name: &str) -> (r: Self)
        ensures
            is_plain(r.spec_data(), EpubMetaEntryKind::DublinCore {}, consts::DC_PUBLISHER@, name@),
    {
        Self::dc(consts::DC_PUBLISHER, name)
    }

    /// Appends a `role` refinement with the given MARC relator code.
    pub fn role(self, marc_relators_code: &str) -> (r: Self)
        ensures
            ({
                let refs = r.spec_data().refinements.0@;
                let e = refs.last();
                &&& refs.drop_last() == self.spec_data().refinements.0@
                &&& e.kind == meta3()
                &&& e.property@ == consts::ROLE@
                &&& e.value@ == marc_relators_code@
                &&& e.attributes@.len() == 1
                &&& e.attributes@[0].spec_name() == consts::SCHEME@
                &&& e.attributes@[0].spec_value() == consts::MARC_RELATORS@
                &&& e.id is None && e.language is None && e.refinements.0@.len() == 0
                &&& e.text_direction == TextDirection::Auto
            }),
            r.spec_data() == (EpubMetaEntryData {
                refinements: r.spec_data().refinements,
                ..self.spec_data()
            }),
    {
        let mut s = self;
        let mut e = plain(EpubMetaEntryKind::Meta { version: EpubVersion::epub3() }, consts::ROLE, marc_relators_code);
        let a = Attribute::new(consts::SCHEME, consts::MARC_RELATORS);
        proof {
            reveal_strlit("scheme");
            reveal_strlit("marc:relators");
            crate::text::lemma_trim_plain(consts::SCHEME@);
            crate::text::lemma_trim_plain(consts::MARC_RELATORS@);
        }
        e.attributes.insert(a);
        s.0.refinements.0.push(e);
        proof {
            assert(s.0.refinements.0@.drop_last() =~= self.spec_data().refinements.0@);
        }
        s
    }
}


impl DetachedEpubMetaEntry<marker::Identifier> {
    /// A `dc:identifier` entry with the given value.
    pub fn identifier(id: &str) -> (r: Self)
        ensures
            is_plain(r.spec_data(), EpubMetaEntryKind::DublinCore {}, consts::DC_IDENTIFIER@, id@),
    {
        Self::dc(consts::DC_IDENTIFIER, id)
    }

    /// Replaces every `identifier-type` refinement with one holding `code`, with a
    /// `scheme` attribute when `scheme` is given.
    pub fn scheme(self, scheme: Option<&str>, code: &str) -> (r: Self)
        ensures
            ({
                let old_refs = self.spec_data().refinements.0@;
                let refs = r.spec_data().refinements.0@;
                let e = refs.last();
                &&& refs.len() == without_property(old_refs, consts::IDENTIFIER_TYPE@).len() + 1
                &&& refs.drop_last() == without_property(old_refs, consts::IDENTIFIER_TYPE@)
                &&& e.kind == meta3()
                &&& e.property@ == consts::IDENTIFIER_TYPE@
                &&& e.value@ == code@
                &&& e.id is None && e.language is None && e.refinements.0@.len() == 0
                &&& e.text_direction == TextDirection::Auto
                &&& match scheme {
                    Some(sc) => e.attributes@.len() == 1 && e.attributes@[0].spec_name()
                        == consts::SCHEME@ && e.attributes@[0].spec_value() == trim(sc@),
                    None => e.attributes@.len() == 0,
                }
            }),
            r.spec_data() == (EpubMetaEntryData {
                refinements: r.spec_data().refinements,
                ..self.spec_data()
            }),
    {
        let mut s = self;
        remove_property(&mut s.0.refinements, consts::IDENTIFIER_TYPE);
        let mut e = plain(EpubMetaEntryKind::Meta { version: EpubVersion::epub3() }, consts::IDENTIFIER_TYPE, code);
        match scheme {
            Some(sc) => {
                let a = Attribute::new(consts::SCHEME, sc);
                proof {
                    reveal_strlit("scheme");
                    crate::text::lemma_trim_plain(consts::SCHEME@);
                }
                e.attributes.insert(a);
            },
            None => {},
        }
        s.0.refinements.0.push(e);
        proof {
            assert(s.0.refinements.0@.drop_last() =~= without_property(
                self.spec_data().refinements.0@,
                consts::IDENTIFIER_TYPE@,
            ));
        }
        s
    }
}

impl DetachedEpubMetaEntry<marker::Title> {
    /// A `dc:title` entry with the given value.
    pub fn title(title: &str) -> (r: Self)
        ensures
            is_plain(r.spec_data(), EpubMetaEntryKind::DublinCore {}, consts::DC_TITLE@, title@),
    {
        Self::dc(consts::DC_TITLE, title)
    }

    /// Replaces every `title-type` refinement with one naming `kind`; an unknown kind
    /// leaves the entry unchanged.
    pub fn kind(self, kind: TitleKind) -> (r: Self)
        ensures
            match spec_title_kind_str(kind) {
                Some(t) => {
                    let old_refs = self.spec_data().refinements.0@;
                    let refs = r.spec_data().refinements.0@;
                    &&& refs.len() == without_property(old_refs, consts::TITLE_TYPE@).len() + 1
                    &&& refs.drop_last() == without_property(old_refs, consts::TITLE_TYPE@)
                    &&& is_plain(refs.last(), meta3(), consts::TITLE_TYPE@, t)
                    &&& r.spec_data() == (EpubMetaEntryData {
                        refinements: r.spec_data().refinements,
                        ..self.spec_data()
                    })
                },
                None => r.spec_data() == self.spec_data(),
            },
    {
        let title_type = match kind.as_str() {
            Some(t) => t,
            None => {
                return self;
            },
        };
        let mut s = self;
        remove_property(&mut s.0.refinements, consts::TITLE_TYPE);
        s.0.refinements.0.push(plain(EpubMetaEntryKind::Meta { version: EpubVersion::epub3() }, consts::TITLE_TYPE, title_type));
        proof {
            assert(s.0.refinements.0@.drop_last() =~= without_property(
                self.spec_data().refinements.0@,
                consts::TITLE_TYPE@,
            ));
        }
        s
    }
}

impl DetachedEpubMetaEntry<marker::Tag> {
    /// A `dc:subject` entry with the given value.
    pub fn tag(tag: &str) -> (r: Self)
        ensures
            is_plain(r.spec_data(), EpubMetaEntryKind::DublinCore {}, consts::DC_SUBJECT@, tag@),
    {
        Self::dc(consts::DC_SUBJECT, tag)
    }

    /// Replaces the `authority` and `term` refinements with ones holding the given
    /// values (a later call overrides an earlier one).
    pub fn scheme(self, authority: &str, term: &str) -> (r: Self)
        ensures
            ({
                let kept = without_property(
                    without_property(self.spec_data().refinements.0@, consts::AUTHORITY@),
                    consts::TERM@,
                );
                let refs = r.spec_data().refinements.0@;
                &&& refs.len() == kept.len() + 2
                &&& refs.take(kept.len() as int) == kept
                &&& is_plain(refs[kept.len() as int], meta3(), consts::AUTHORITY@, authority@)
                &&& is_plain(refs[kept.len() as int + 1], meta3(), consts::TERM@, term@)
            }),
            r.spec_data() == (EpubMetaEntryData {
                refinements: r.spec_data().refinements,
                ..self.spec_data()
            }),
    {
        let mut s = self;
        remove_property(&mut s.0.refinements, consts::AUTHORITY);
        remove_property(&mut s.0.refinements, consts::TERM);
        let ghost kept = s.0.refinements.0@;
        s.0.refinements.0.push(plain(EpubMetaEntryKind::Meta { version: EpubVersion::epub3() }, consts::AUTHORITY, authority));
        s.0.refinements.0.push(plain(EpubMetaEntryKind::Meta { version: EpubVersion::epub3() }, consts::TERM, term));
        proof {
            assert(s.0.refinements.0@.take(kept.len() as int) =~= kept);
        }
        s
    }
}

impl DetachedEpubMetaEntry<marker::Description> {
    /// A `dc:description` entry with the given value.
    pub fn description(description: &str) -> (r: Self)
        ensures
            is_plain(r.spec_data(), EpubMetaEntryKind::DublinCore {}, consts::DC_DESCRIPTION@, description@),
    {
        Self::dc(consts::DC_DESCRIPTION, description)
    }
}

impl DetachedEpubMetaEntry<marker::Language> {
    /// A `dc:language` entry with the given BCP 47 code.
    pub fn language(bcp47_language_code: &str) -> (r: Self)
        ensures
            is_plain(r.spec_data(), EpubMetaEntryKind::DublinCore {}, consts::DC_LANGUAGE@, bcp47_language_code@),
    {
        Self::dc(consts::DC_LANGUAGE, bcp47_language_code)
    }
}

impl DetachedEpubMetaEntry<marker::Date> {
    /// A `dc:date` entry with the given value.
    pub fn date(date: &str) -> (r: Self)
        ensures
            is_plain(r.spec_data(), EpubMetaEntryKind::DublinCore {}, consts::DC_DATE@, date@),
    {
        Self::dc(consts::DC_DATE, date)
    }
}

impl DetachedEpubMetaEntry<marker::Rights> {
    /// A `dc:rights` entry with the given value.
    pub fn rights(copyright: &str) -> (r: Self)
        ensures
            is_plain(r.spec_data(), EpubMetaEntryKind::DublinCore {}, consts::DC_RIGHTS@, copyright@),
    {
        Self::dc(consts::DC_RIGHTS, copyright)
    }
}

/// `after` is `before` with `property` added to the properties of attribute `name`,
/// which is created (empty) and appended when absent.
pub open spec fn added_property(
    before: Seq<Attribute>,
    after: Seq<Attribute>,
    name: Seq<char>,
    property: Seq<char>,
) -> bool {
    let i = key_index(before, name);
    if i >= 0 {
        &&& after.len() == before.len()
        &&& after[i].spec_name() == before[i].spec_name()
        &&& after[i].spec_value() == crate::element::insert_props(
            before[i].spec_value(),
            crate::text::words(property),
        )
        &&& forall|j: int| 0 <= j < before.len() && j != i ==> after[j] == before[j]
    } else {
        &&& after.len() == before.len() + 1
        &&& after.drop_last() == before
        &&& after.last().spec_name() == name
        &&& after.last().spec_value() == crate::element::insert_props(
            Seq::empty(),
            crate::text::words(property),
        )
    }
}

/// Adds `property` to the properties of the attribute `name`, creating it if absent.
fn add_property_to(attributes: &mut Attributes, name: &str, property: &str)
    requires
        trim(name@) == name@,
    ensures
        added_property(old(attributes)@, final(attributes)@, name@, property@),
{
    match attributes.by_name_mut(name) {
        Some(a) => {
            let ghost before = *a;
            let p = a.as_properties_mut();
            p.insert(property);
            proof {
                assert(a.spec_value() == crate::element::insert_props(
                    before.spec_value(),
                    crate::text::words(property@),
                ));
            }
            proof {
                crate::keyed::lemma_key_index(old(attributes)@, name@);
            }
        },
        None => {
            let mut a = Attribute::new(name, "");
            proof {
                reveal_strlit("");
                assert(trim(Seq::<char>::empty()) =~= Seq::<char>::empty());
            }
            a.as_properties_mut().insert(property);
            proof {
                crate::keyed::lemma_key_index(old(attributes)@, name@);
            }
            attributes.insert(a);
            proof {
                assert(final(attributes)@.drop_last() =~= old(attributes)@);
            }
        },
    }
}

impl DetachedEpubMetaEntry<marker::Link> {
    /// A `<link>` entry with the given `rel`.
    pub fn link(rel: &str) -> (r: Self)
        ensures
            r.spec_data().kind == (EpubMetaEntryKind::Link {}),
            r.spec_data().property@.len() == 0,
            r.spec_data().value@.len() == 0,
            r.spec_data().id is None,
            r.spec_data().language is None,
            r.spec_data().text_direction == TextDirection::Auto,
            r.spec_data().refinements.0@.len() == 0,
            r.spec_data().attributes@.len() == 1,
            r.spec_data().attributes@[0].spec_name() == consts::REL@,
            r.spec_data().attributes@[0].spec_value() == trim(rel@),
    {
        let mut d = EpubMetaEntryData::with_kind(EpubMetaEntryKind::Link {});
        let a = Attribute::new(consts::REL, rel);
        proof {
            reveal_strlit("rel");
            crate::text::lemma_trim_plain(consts::REL@);
        }
        d.attributes.insert(a);
        DetachedEpubMetaEntry(d, PhantomData)
    }

    /// Sets the `href` attribute.
    pub fn href(self, href: &str) -> (r: Self)
        ensures
            r.spec_data().attributes@ == insert_keyed(
                self.spec_data().attributes@,
                r.spec_data().attributes@[key_index(r.spec_data().attributes@, consts::HREF@)],
            ),
            ({
                let i = key_index(r.spec_data().attributes@, consts::HREF@);
                i >= 0 && r.spec_data().attributes@[i].spec_value() == trim(href@)
            }),
            r.spec_data() == (EpubMetaEntryData {
                attributes: r.spec_data().attributes,
                ..self.spec_data()
            }),
    {
        proof {
            reveal_strlit("href");
            crate::text::lemma_trim_plain(consts::HREF@);
        }
        self.set_attribute(consts::HREF, href)
    }

    /// Sets the `hreflang` attribute.
    pub fn href_lang(self, href_lang: &str) -> (r: Self)
        ensures
            ({
                let i = key_index(r.spec_data().attributes@, consts::HREFLANG@);
                i >= 0 && r.spec_data().attributes@[i].spec_value() == trim(href_lang@)
            }),
            r.spec_data().attributes@ == insert_keyed(
                self.spec_data().attributes@,
                r.spec_data().attributes@[key_index(r.spec_data().attributes@, consts::HREFLANG@)],
            ),
            r.spec_data() == (EpubMetaEntryData {
                attributes: r.spec_data().attributes,
                ..self.spec_data()
            }),
    {
        proof {
            reveal_strlit("hreflang");
            crate::text::lemma_trim_plain(consts::HREFLANG@);
        }
        self.set_attribute(consts::HREFLANG, href_lang)
    }

    /// Sets the `media-type` attribute.
    pub fn media_type(self, media_type: &str) -> (r: Self)
        ensures
            ({
                let i = key_index(r.spec_data().attributes@, consts::MEDIA_TYPE@);
                i >= 0 && r.spec_data().attributes@[i].spec_value() == trim(media_type@)
            }),
            r.spec_data().attributes@ == insert_keyed(
                self.spec_data().attributes@,
                r.spec_data().attributes@[key_index(r.spec_data().attributes@, consts::MEDIA_TYPE@)],
            ),
            r.spec_data() == (EpubMetaEntryData {
                attributes: r.spec_data().attributes,
                ..self.spec_data()
            }),
    {
        proof {
            reveal_strlit("media-type");
            crate::text::lemma_trim_plain(consts::MEDIA_TYPE@);
        }
        self.set_attribute(consts::MEDIA_TYPE, media_type)
    }

    fn set_attribute(self, name: &str, value: &str) -> (r: Self)
        requires
            trim(name@) == name@,
        ensures
            ({
                let i = key_index(r.spec_data().attributes@, name@);
                i >= 0 && r.spec_data().attributes@[i].spec_value() == trim(value@)
                    && r.spec_data().attributes@ == insert_keyed(
                    self.spec_data().attributes@,
                    r.spec_data().attributes@[i],
                )
            }),
            r.spec_data() == (EpubMetaEntryData {
                attributes: r.spec_data().attributes,
                ..self.spec_data()
            }),
    {
        let a = Attribute::new(name, value);
        let ghost ga = a;
        let mut s = self;
        s.0.attributes.insert(a);
        proof {
            let old_attrs = self.spec_data().attributes@;
            let new_attrs = s.0.attributes@;
            crate::keyed::lemma_key_index(old_attrs, name@);
            crate::keyed::lemma_key_index(new_attrs, name@);
            let i = key_index(old_attrs, name@);
            if i >= 0 {
                assert(new_attrs[i].spec_name() == name@);
                assert(key_index(new_attrs, name@) == i);
            } else {
                assert(new_attrs[old_attrs.len() as int] == ga);
                assert(key_index(new_attrs, name@) == old_attrs.len());
            }
        }
        s
    }

    /// Adds a property to the `properties` attribute.
    pub fn property(self, property: &str) -> (r: Self)
        ensures
            added_property(
                self.spec_data().attributes@,
                r.spec_data().attributes@,
                consts::PROPERTIES@,
                property@,
            ),
            r.spec_data() == (EpubMetaEntryData {
                attributes: r.spec_data().attributes,
                ..self.spec_data()
            }),
    {
        let mut s = self;
        proof {
            reveal_strlit("properties");
            crate::text::lemma_trim_plain(consts::PROPERTIES@);
        }
        add_property_to(&mut s.0.attributes, consts::PROPERTIES, property);
        s
    }

    /// Adds a relationship to the `rel` attribute.
    pub fn rel(self, rel: &str) -> (r: Self)
        ensures
            added_property(self.spec_data().attributes@, r.spec_data().attributes@, consts::REL@, rel@),
            r.spec_data() == (EpubMetaEntryData {
                attributes: r.spec_data().attributes,
                ..self.spec_data()
            }),
    {
        let mut s = self;
        proof {
            reveal_strlit("rel");
            crate::text::lemma_trim_plain(consts::REL@);
        }
        add_property_to(&mut s.0.attributes, consts::REL, rel);
        s
    }
}

// ---------------------------------------------------------------------------
// Mutable views
// ---------------------------------------------------------------------------

/// A mutable view over one metadata entry.
pub struct EpubMetaEntryMut<'ebook> {
    pub ctx: EpubPackageMetaContext<'ebook>,
    pub data: &'ebook mut EpubMetaEntryData,
    pub refines: Option<&'ebook str>,
    pub index: usize,
}

impl<'ebook> EpubMetaEntryMut<'ebook> {
    /// Sets (or clears) the `id`, returning the previous one.
    pub fn set_id(&mut self, id: Option<String>) -> (r: Option<String>)
        ensures
            r == old(self).data.id,
            *final(self).data == (EpubMetaEntryData { id: id, ..*old(self).data }),
            final(self).ctx == old(self).ctx,
            final(self).refines == old(self).refines,
            final(self).index == old(self).index,
            *final(final(self).data) == *final(old(self).data),
    {
        let mut v = id;
        std::mem::swap(&mut self.data.id, &mut v);
        v
    }

    /// Sets the value, returning the previous one.
    pub fn set_value(&mut self, value: &str) -> (r: String)
        ensures
            r == old(self).data.value,
            (*final(self).data).value@ == value@,
            *final(self).data == (EpubMetaEntryData { value: (*final(self).data).value, ..*old(self).data }),
            final(self).ctx == old(self).ctx,
            final(self).refines == old(self).refines,
            final(self).index == old(self).index,
            *final(final(self).data) == *final(old(self).data),
    {
        let mut v = to_string(value);
        std::mem::swap(&mut self.data.value, &mut v);
        v
    }

    /// Sets (or clears) the language, returning the previous one.
    pub fn set_xml_language(&mut self, code: Option<String>) -> (r: Option<String>)
        ensures
            r == old(self).data.language,
            *final(self).data == (EpubMetaEntryData { language: code, ..*old(self).data }),
            final(self).ctx == old(self).ctx,
            final(self).refines == old(self).refines,
            final(self).index == old(self).index,
            *final(final(self).data) == *final(old(self).data),
    {
        let mut v = code;
        std::mem::swap(&mut self.data.language, &mut v);
        v
    }

    /// Sets the text direction, returning the previous one.
    pub fn set_text_direction(&mut self, direction: TextDirection) -> (r: TextDirection)
        ensures
            r == old(self).data.text_direction,
            *final(self).data == (EpubMetaEntryData { text_direction: direction, ..*old(self).data }),
            final(self).ctx == old(self).ctx,
            final(self).refines == old(self).refines,
            final(self).index == old(self).index,
            *final(final(self).data) == *final(old(self).data),
    {
        let previous = self.data.text_direction;
        self.data.text_direction = direction;
        previous
    }

    /// The attributes, for modification.
    pub fn attributes_mut(&mut self) -> (r: &mut Attributes)
        ensures
            *r == old(self).data.attributes,
            *final(final(self).data) == *final(old(self).data),
            *final(self).data == (EpubMetaEntryData { attributes: *final(r), ..*old(self).data }),
    {
        &mut self.data.attributes
    }

    /// The refinements, for modification; refinements refine this entry's `id`.
    pub fn refinements_mut(&mut self) -> (r: EpubRefinementsMut<'_>)
        ensures
            *r.data == old(self).data.refinements,
            r.ctx == old(self).ctx,
            opt_str_view(r.parent_id) == opt_string_view(old(self).data.id),
            *final(final(self).data) == *final(old(self).data),
            *final(self).data == (EpubMetaEntryData { refinements: *final(r.data), ..*old(self).data }),
    {
        let data = &mut *self.data;
        let parent_id = crate::text::opt_as_str(&data.id);
        EpubRefinementsMut { ctx: self.ctx, parent_id, data: &mut data.refinements }
    }

    /// A read-only view over the entry.
    pub fn as_view(&self) -> (r: EpubMetaEntry<'_>)
        ensures
            r.spec_data() == *old(self.data),
            r.spec_index() == self.index,
            r.spec_refines() == opt_str_view(self.refines),
            r.spec_ctx() == self.ctx,
    {
        EpubMetaEntry::new(self.ctx, self.refines, &*self.data, self.index)
    }
}

/// A mutable view over the refinements of an entry.
pub struct EpubRefinementsMut<'ebook> {
    pub ctx: EpubPackageMetaContext<'ebook>,
    pub parent_id: Option<&'ebook str>,
    pub data: &'ebook mut EpubRefinementsData,
}

impl<'ebook> EpubRefinementsMut<'ebook> {
    /// Appends a refinement.
    pub fn push<M>(&mut self, detached: DetachedEpubMetaEntry<M>)
        ensures
            (*final(self).data).0@ == (*old(self).data).0@.push(detached.spec_data()),
            final(self).ctx == old(self).ctx,
            final(self).parent_id == old(self).parent_id,
            *final(final(self).data) == *final(old(self).data),
    {
        self.data.0.push(detached.into_data());
    }

    /// Inserts a refinement at `index`, shifting later ones.
    pub fn insert<M>(&mut self, index: usize, detached: DetachedEpubMetaEntry<M>)
        requires
            index <= (*old(self).data).0@.len(),
        ensures
            (*final(self).data).0@ == (*old(self).data).0@.insert(index as int, detached.spec_data()),
            final(self).ctx == old(self).ctx,
            final(self).parent_id == old(self).parent_id,
            *final(final(self).data) == *final(old(self).data),
    {
        self.data.0.insert(index, detached.into_data());
    }

    /// Inserts several refinements at `index`, keeping their order, shifting later ones.
    pub fn insert_many<M>(&mut self, index: usize, detached: Vec<DetachedEpubMetaEntry<M>>)
        requires
            index <= (*old(self).data).0@.len(),
        ensures
            (*final(self).data).0@ == (*old(self).data).0@.take(index as int) + entries_of(detached@)
                + (*old(self).data).0@.skip(index as int),
            final(self).ctx == old(self).ctx,
            final(self).parent_id == old(self).parent_id,
            *final(final(self).data) == *final(old(self).data),
    {
        let ghost before = self.data.0@;
        let ghost ds = entries_of(detached@);
        let mut rest = detached;
        let ghost all = rest@;
        let mut at: usize = index;
        let ghost mut k: int = 0;
        assert(all.skip(0) =~= all);
        assert(before.take(index as int) + ds.take(0) + before.skip(index as int) =~= before);
        while rest.len() > 0
            invariant
                0 <= k <= all.len(),
                ds == entries_of(all),
                ds.len() == all.len(),
                rest@ == all.skip(k),
                index <= before.len(),
                at == index + k,
                self.data.0@ == before.take(index as int) + ds.take(k) + before.skip(index as int),
                self.ctx == old(self).ctx,
                self.parent_id == old(self).parent_id,
                *final(self.data) == *final(old(self).data),
            decreases rest.len(),
        {
            let d = rest.remove(0);
            proof {
                assert(d == all[k]);
                assert(rest@ =~= all.skip(k + 1));
                assert(ds[k] == d.spec_data());
                assert(ds.take(k + 1) =~= ds.take(k).push(d.spec_data()));
            }
            self.data.0.insert(at, d.into_data());
            proof {
                assert(self.data.0@ =~= before.take(index as int) + ds.take(k + 1) + before.skip(index as int));
                k = k + 1;
            }
            assert(at < self.data.0.len());
            at = at + 1;
        }
        proof {
            assert(ds.take(k) =~= ds);
        }
    }

    /// Appends several refinements, keeping their order.
    pub fn push_many<M>(&mut self, detached: Vec<DetachedEpubMetaEntry<M>>)
        ensures
            (*final(self).data).0@ == (*old(self).data).0@ + entries_of(detached@),
            final(self).ctx == old(self).ctx,
            final(self).parent_id == old(self).parent_id,
            *final(final(self).data) == *final(old(self).data),
    {
        let ghost before = self.data.0@;
        let n = self.data.0.len();
        self.insert_many(n, detached);
        proof {
            assert(before.take(n as int) =~= before);
            assert(before.skip(n as int) =~= Seq::<EpubMetaEntryData>::empty());
            assert(before.take(n as int) + entries_of(detached@) + before.skip(n as int) =~= before + entries_of(detached@));
        }
    }

    /// A mutable view over the refinement at `index`, if `index < len`.
    pub fn get_mut(&mut self, index: usize) -> (r: Option<EpubMetaEntryMut<'_>>)
        ensures
            match r {
                Some(e) => {
                    &&& index < (*old(self).data).0@.len()
                    &&& *e.data == (*old(self).data).0@[index as int]
                    &&& e.ctx == old(self).ctx
                    &&& e.refines == old(self).parent_id
                    &&& e.index == index
                    &&& (*final(self).data).0@ == (*old(self).data).0@.update(index as int, *final(e.data))
                },
                None => index >= (*old(self).data).0@.len() && *final(self).data == *old(self).data,
            },
            *final(final(self).data) == *final(old(self).data),
    {
        if index < self.data.0.len() {
            Some(EpubMetaEntryMut {
                ctx: self.ctx,
                data: &mut self.data.0[index],
                refines: self.parent_id,
                index,
            })
        } else {
            None
        }
    }

    /// Removes and returns the refinement at `index`.
    pub fn remove(&mut self, index: usize) -> (r: DetachedEpubMetaEntry)
        requires
            index < (*old(self).data).0@.len(),
        ensures
            r.spec_data() == (*old(self).data).0@[index as int],
            (*final(self).data).0@ == (*old(self).data).0@.remove(index as int),
            *final(final(self).data) == *final(old(self).data),
    {
        DetachedEpubMetaEntry::from_data(self.data.0.remove(index))
    }

    /// Keeps only the refinements for which `f` returns `false` (those for which it returns `true` are removed), in order.
    pub fn retain<F: Fn(&EpubMetaEntryData) -> bool>(&mut self, f: F)
        requires
            forall|x: &EpubMetaEntryData| #[trigger] f.requires((x,)),
        ensures
            exists|d: Seq<bool>|
                #![trigger select((*old(self).data).0@, d, false)]
                d.len() == (*old(self).data).0@.len() && (forall|i: int|
                    0 <= i < d.len() ==> f.ensures((&(*old(self).data).0@[i],), #[trigger] d[i]))
                    && (*final(self).data).0@ == select((*old(self).data).0@, d, false),
            *final(final(self).data) == *final(old(self).data),
    {
        let mut items: Vec<EpubMetaEntryData> = Vec::new();
        std::mem::swap(&mut items, &mut self.data.0);
        let (_, kept) = crate::keyed::split_vec(items, &f);
        self.data.0 = kept;
    }

    /// Removes and returns the refinements for which `f` returns `true`, in order.
    pub fn extract_if<F: Fn(&EpubMetaEntryData) -> bool>(&mut self, f: F) -> (r: Vec<DetachedEpubMetaEntry>)
        requires
            forall|x: &EpubMetaEntryData| #[trigger] f.requires((x,)),
        ensures
            exists|d: Seq<bool>|
                #![trigger select((*old(self).data).0@, d, true)]
                d.len() == (*old(self).data).0@.len() && (forall|i: int|
                    0 <= i < d.len() ==> f.ensures((&(*old(self).data).0@[i],), #[trigger] d[i]))
                    && (*final(self).data).0@ == select((*old(self).data).0@, d, false) && r@.len()
                    == select((*old(self).data).0@, d, true).len() && forall|k: int|
                    0 <= k < r@.len() ==> (#[trigger] r@[k]).spec_data() == select((*old(self).data).0@, d, true)[k],
            *final(final(self).data) == *final(old(self).data),
    {
        let mut items: Vec<EpubMetaEntryData> = Vec::new();
        std::mem::swap(&mut items, &mut self.data.0);
        let (taken, rest) = crate::keyed::split_vec(items, &f);
        self.data.0 = rest;
        let mut out: Vec<DetachedEpubMetaEntry> = Vec::new();
        let ghost all = taken@;
        let mut taken = taken;
        let mut k: usize = 0;
        assert(all.len() == taken.len());
        while taken.len() > 0
            invariant
                all.len() <= usize::MAX,
                k + taken@.len() == all.len(),
                taken@ == all.skip(k as int),
                out@.len() == k,
                forall|j: int| 0 <= j < k ==> (#[trigger] out@[j]).spec_data() == all[j],
            decreases taken@.len(),
        {
            let e = taken.remove(0);
            proof {
                assert(e == all[k as int]);
                assert(taken@ =~= all.skip(k + 1));
            }
            out.push(DetachedEpubMetaEntry::from_data(e));
            k = k + 1;
        }
        out
    }

    /// Removes and returns every refinement, in order.
    pub fn drain(&mut self) -> (r: Vec<DetachedEpubMetaEntry>)
        ensures
            r@.len() == (*old(self).data).0@.len(),
            forall|k: int| 0 <= k < r@.len() ==> (#[trigger] r@[k]).spec_data() == (*old(self).data).0@[k],
            (*final(self).data).0@.len() == 0,
            *final(final(self).data) == *final(old(self).data),
    {
        let mut items: Vec<EpubMetaEntryData> = Vec::new();
        std::mem::swap(&mut items, &mut self.data.0);
        let ghost all = items@;
        let mut out: Vec<DetachedEpubMetaEntry> = Vec::new();
        let ghost mut done: int = 0;
        assert(all.skip(0) =~= all);
        while items.len() > 0
            invariant
                0 <= done <= all.len(),
                items@ == all.skip(done),
                out@.len() == done,
                forall|k: int| 0 <= k < done ==> (#[trigger] out@[k]).spec_data() == all[k],
            decreases items.len(),
        {
            let x = items.remove(0);
            proof {
                assert(x == all[done]);
                assert(all.skip(done + 1) =~= all.skip(done).drop_first());
                done = done + 1;
            }
            out.push(DetachedEpubMetaEntry::from_data(x));
        }
        out
    }

    /// Removes every refinement.
    pub fn clear(&mut self)
        ensures
            (*final(self).data).0@.len() == 0,
            *final(final(self).data) == *final(old(self).data),
    {
        self.data.0.clear();
    }

    /// A read-only view over the refinements.
    pub fn as_view(&self) -> (r: EpubRefinements<'_>)
        ensures
            r.spec_data() == *old(self.data),
            r.spec_parent_id() == opt_str_view(self.parent_id),
            r.spec_ctx() == self.ctx,
    {
        EpubRefinements::new(self.ctx, self.parent_id, &*self.data)
    }
}

} // verus!
