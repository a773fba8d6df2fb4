//! The rules applied while reading a publication, once the values of an element are at
//! hand: required values, references between manifest and spine, where the tables of
//! contents are, how their entries nest, and which variants are kept.
use vstd::prelude::*;
use crate::consts;
use crate::element::{has_prop, spec_direction_of, Attributes, Properties, TextDirection};
use crate::groups::EpubMetadataData;
use crate::package::EpubPackageData;
use crate::parse::{handle_epub_version, parse_prefix, prefix_parse, spec_parse_version, tokens_from};
use crate::errors::EpubError;
use crate::manifest::{EpubManifestData, EpubManifestEntryData, id_pos, lemma_id_pos, resolve_href, spec_resolve_href};
use crate::metadata::EpubRefinementsData;
use crate::organize::{PendingRefinements, pending_for, pending_without};
use crate::spine::{EpubSpineData, EpubSpineEntryData};
use crate::metadata::{EpubVersion, Version, spec_as_major, spec_epub_version};
use crate::options::EpubParseConfig;
use crate::text::{chars_of, find_char, first_index_of, opt_as_str, opt_string_view, push_char, str_eq, string_from_range, to_string};
use crate::toc::{EpubTocData, EpubTocEntryData, EpubTocKey, lemma_toc_pos, toc_pos, with_root};
use crate::uri;

verus! {

broadcast use vstd::string::group_string_axioms;

// ---------------------------------------------------------------------------
// Required values
// ---------------------------------------------------------------------------

/// A required value: when it is missing, strict reading refuses with `message` and
/// lenient reading takes the empty string.
pub fn require_attribute(value: Option<String>, message: &str, strict: bool) -> (r: Result<String, EpubError>)
    ensures
        match value {
            Some(v) => r == Ok::<String, EpubError>(v),
            None => if strict {
                r matches Err(EpubError::MissingAttribute(m)) && m@ == message@
            } else {
                r matches Ok(v) && v@.len() == 0
            },
        },
{
    match value {
        Some(v) => Ok(v),
        None => {
            if strict {
                Err(EpubError::MissingAttribute(to_string(message)))
            } else {
                Ok(String::new())
            }
        },
    }
}

// ---------------------------------------------------------------------------
// Manifest items
// ---------------------------------------------------------------------------

/// The `id` of a manifest item: required; strict reading refuses one already used by
/// an earlier item.
pub fn require_item_id(id: Option<String>, items: &EpubManifestData, strict: bool) -> (r: Result<String, EpubError>)
    ensures
        match id {
            None => if strict {
                r matches Err(EpubError::MissingAttribute(m)) && m@ == "manifest > item[*id]"@
            } else {
                r matches Ok(v) && v@.len() == 0 && !(strict && id_pos(items.items(), v@) >= 0)
            },
            Some(v) => if strict && id_pos(items.items(), v@) >= 0 {
                r matches Err(EpubError::DuplicateItemId(d)) && d == v
            } else {
                r == Ok::<String, EpubError>(v)
            },
        },
{
    let id = match require_attribute(id, "manifest > item[*id]", strict) {
        Ok(v) => v,
        Err(e) => {
            return Err(e);
        },
    };
    if strict && items.index_of(id.as_str()).is_some() {
        proof {
            lemma_id_pos(items.items(), id@);
        }
        return Err(EpubError::DuplicateItemId(id));
    }
    proof {
        lemma_id_pos(items.items(), id@);
    }
    Ok(id)
}

/// `c` with the ASCII letters `A` to `Z` made lower case.
pub open spec fn ascii_lower(c: char) -> char {
    if 'A' <= c && c <= 'Z' {
        ((c as u32) + 32) as char
    } else {
        c
    }
}

/// `s` with its ASCII letters in lower case.
pub open spec fn lower_ascii(s: Seq<char>) -> Seq<char> {
    Seq::new(s.len(), |i: int| ascii_lower(s[i]))
}

/// A media type with its ASCII letters in lower case (`str::make_ascii_lowercase`).
pub fn lowercase_media_type(media_type: &str) -> (r: String)
    ensures
        r@ == lower_ascii(media_type@),
{
    let v = chars_of(media_type);
    let mut out = String::new();
    let n = v.len();
    for i in 0..n
        invariant
            n == v@.len(),
            v@ == media_type@,
            out@.len() == i,
            forall|k: int| 0 <= k < i ==> out@[k] == ascii_lower(#[trigger] media_type@[k]),
    {
        let c = v[i];
        let lower = if 'A' <= c && c <= 'Z' {
            let code: u8 = (c as u8) + 32;
            code as char
        } else {
            c
        };
        assert(lower == ascii_lower(c)) by {
            if 'A' <= c && c <= 'Z' {
                assert((c as u32) + 32 <= 0x7a);
            }
        };
        push_char(&mut out, lower);
    }
    assert(out@ =~= lower_ascii(media_type@));
    out
}

// ---------------------------------------------------------------------------
// Spine entries
// ---------------------------------------------------------------------------

/// Whether an `itemref` is in the linear reading order: yes unless its `linear`
/// attribute says otherwise.
pub fn is_linear(linear: Option<&str>) -> (r: bool)
    ensures
        r == match linear {
            None => true,
            Some(v) => v@ == consts::YES@,
        },
{
    match linear {
        None => true,
        Some(v) => str_eq(v, consts::YES),
    }
}

/// The manifest that references are checked against: only in strict reading of a
/// publication whose manifest is read, and then it must be there.
pub fn requires_manifest<'a>(manifest: Option<&'a EpubManifestData>, config: &EpubParseConfig) -> (r: Result<Option<&'a EpubManifestData>, EpubError>)
    ensures
        if config.strict && config.parse_manifest {
            match manifest {
                Some(m) => r == Ok::<Option<&'a EpubManifestData>, EpubError>(Some(m)),
                None => r matches Err(EpubError::NoManifestFound),
            }
        } else {
            r == Ok::<Option<&'a EpubManifestData>, EpubError>(None)
        },
{
    if config.strict && config.parse_manifest {
        match manifest {
            Some(m) => Ok(Some(m)),
            None => Err(EpubError::NoManifestFound),
        }
    } else {
        Ok(None)
    }
}

/// The `idref` of an `itemref`: required; when references are checked (see
/// [`requires_manifest`]) it must name a manifest item.
pub fn require_idref(idref: Option<String>, manifest: Option<&EpubManifestData>, config: &EpubParseConfig) -> (r: Result<String, EpubError>)
    ensures
        match idref {
            None => if config.strict {
                r matches Err(EpubError::MissingAttribute(m)) && m@ == "spine > itemref[*idref]"@
            } else {
                r matches Ok(v) && v@.len() == 0
            },
            Some(v) => if config.strict && config.parse_manifest {
                match manifest {
                    None => r matches Err(EpubError::NoManifestFound),
                    Some(m) => if id_pos(m.items(), v@) >= 0 {
                        r == Ok::<String, EpubError>(v)
                    } else {
                        r matches Err(EpubError::InvalidIdref(d)) && d == v
                    },
                }
            } else {
                r == Ok::<String, EpubError>(v)
            },
        },
{
    let idref = match require_attribute(idref, "spine > itemref[*idref]", config.strict) {
        Ok(v) => v,
        Err(e) => {
            return Err(e);
        },
    };
    let checked = match requires_manifest(manifest, config) {
        Ok(c) => c,
        Err(e) => {
            return Err(e);
        },
    };
    match checked {
        Some(m) => {
            proof {
                lemma_id_pos(m.items(), idref@);
            }
            if m.index_of(idref.as_str()).is_none() {
                return Err(EpubError::InvalidIdref(idref));
            }
        },
        None => {},
    }
    Ok(idref)
}

/// The NCX reference of the spine (`toc`): required for EPUB 2 in strict reading; when
/// present and references are checked (see [`requires_manifest`]) it must name a
/// manifest item.
pub fn require_toc(ncx_id: Option<String>, manifest: Option<&EpubManifestData>, config: &EpubParseConfig, version: EpubVersion) -> (r: Result<Option<String>, EpubError>)
    ensures
        match ncx_id {
            None => if config.strict && version is Epub2 {
                r matches Err(EpubError::NoNcxReference)
            } else {
                r == Ok::<Option<String>, EpubError>(None)
            },
            Some(v) => if config.strict && config.parse_manifest {
                match manifest {
                    None => r matches Err(EpubError::NoManifestFound),
                    Some(m) => if id_pos(m.items(), v@) >= 0 {
                        r == Ok::<Option<String>, EpubError>(Some(v))
                    } else {
                        r matches Err(EpubError::InvalidNcxReference(d)) && d == v
                    },
                }
            } else {
                r == Ok::<Option<String>, EpubError>(Some(v))
            },
        },
{
    if config.strict && version.is_epub2() && ncx_id.is_none() {
        return Err(EpubError::NoNcxReference);
    }
    let ncx_id = match ncx_id {
        Some(v) => v,
        None => {
            return Ok(None);
        },
    };
    let checked = match requires_manifest(manifest, config) {
        Ok(c) => c,
        Err(e) => {
            return Err(e);
        },
    };
    match checked {
        Some(m) => {
            proof {
                lemma_id_pos(m.items(), ncx_id@);
            }
            if m.index_of(ncx_id.as_str()).is_none() {
                return Err(EpubError::InvalidNcxReference(ncx_id));
            }
        },
        None => {},
    }
    Ok(Some(ncx_id))
}

/// A resolved location as stored: percent-encoded (see
/// [`spec_encode`](crate::uri::spec_encode)); strict reading refuses one that needs
/// encoding.
pub fn require_href(href: String, strict: bool) -> (r: Result<String, EpubError>)
    ensures
        strict && uri::needs_encoding(href@) ==> (r matches Err(EpubError::UnencodedHref(h)) && h == href),
        !(strict && uri::needs_encoding(href@)) ==> (r matches Ok(e) && e@ == uri::spec_encode(href@)),
{
    if strict && uri::requires_encoding(href.as_str()) {
        return Err(EpubError::UnencodedHref(href));
    }
    Ok(uri::encode(href.as_str()))
}

/// The text of an optional value, empty when it is missing.
pub open spec fn or_empty(o: Option<String>) -> Seq<char> {
    match o {
        Some(v) => v@,
        None => Seq::empty(),
    }
}

fn props_of(value: Option<String>) -> (r: Properties)
    ensures
        r@ == or_empty(value),
{
    match value {
        Some(v) => Properties::from_string(v),
        None => Properties::empty(),
    }
}

/// The refinements waiting for `id`, taken out of `pending` (none when nothing waits).
fn take_pending(pending: &mut PendingRefinements, id: &str) -> (r: EpubRefinementsData)
    ensures
        r.0@ == pending_for(old(pending).entries(), id@),
        final(pending).entries() == if pending_for(old(pending).entries(), id@).len() > 0 {
            pending_without(old(pending).entries(), id@)
        } else {
            old(pending).entries()
        },
{
    match pending.take_refinements(id) {
        Some(d) => d,
        None => {
            let r = EpubRefinementsData(Vec::new());
            assert(r.0@ =~= pending_for(old(pending).entries(), id@));
            r
        },
    }
}

/// A manifest `item` from the values of its attributes: the `id` (see
/// [`require_item_id`]), the written location, resolved against the package directory
/// `base`, and the media type are required; the media type is made lower case; the
/// refinements waiting for the `id` are taken from `pending`.
pub fn manifest_item(
    id: Option<String>,
    href_raw: Option<String>,
    media_type: Option<String>,
    fallback: Option<String>,
    media_overlay: Option<String>,
    properties: Option<String>,
    attributes: Attributes,
    items: &EpubManifestData,
    pending: &mut PendingRefinements,
    base: &str,
    strict: bool,
) -> (r: Result<(String, EpubManifestEntryData), EpubError>)
    ensures
        strict && id is None ==> (r matches Err(EpubError::MissingAttribute(m)) && m@ == "manifest > item[*id]"@),
        strict && id is Some && id_pos(items.items(), id->0@) >= 0 ==> (r matches Err(EpubError::DuplicateItemId(d))
            && d == id->0),
        strict && id is Some && id_pos(items.items(), id->0@) < 0 && href_raw is None ==> (r matches Err(
            EpubError::MissingAttribute(m),
        ) && m@ == "manifest > item[*href]"@),
        ({
            let resolved = spec_resolve_href(base@, or_empty(href_raw));
            &&& strict && id is Some && id_pos(items.items(), id->0@) < 0 && href_raw is Some && uri::needs_encoding(
                resolved,
            ) ==> (r matches Err(EpubError::UnencodedHref(h)) && h@ == resolved)
            &&& strict && id is Some && id_pos(items.items(), id->0@) < 0 && href_raw is Some && !uri::needs_encoding(
                resolved,
            ) && media_type is None ==> (r matches Err(EpubError::MissingAttribute(m)) && m@
                == "manifest > item[*media_type]"@)
            &&& !strict || (id is Some && id_pos(items.items(), id->0@) < 0 && href_raw is Some && !uri::needs_encoding(
                resolved,
            ) && media_type is Some) ==> {
                let key = or_empty(id);
                let waiting = pending_for(old(pending).entries(), key);
                &&& r matches Ok((k, e)) && k@ == key && e.href_raw@ == or_empty(href_raw) && e.href@
                    == uri::spec_encode(resolved) && e.media_type@ == lower_ascii(or_empty(media_type))
                    && e.fallback == fallback && e.media_overlay == media_overlay && e.properties@ == or_empty(
                    properties,
                ) && e.attributes == attributes && e.refinements.0@ == waiting
                &&& final(pending).entries() == if waiting.len() > 0 {
                    pending_without(old(pending).entries(), key)
                } else {
                    old(pending).entries()
                }
            }
        }),
        r is Err ==> final(pending).entries() == old(pending).entries(),
{
    let ghost (id0, href0, mt0) = (id, href_raw, media_type);
    let id = match require_item_id(id, items, strict) {
        Ok(v) => v,
        Err(e) => {
            return Err(e);
        },
    };
    assert(id@ =~= or_empty(id0));
    let href_raw = match require_attribute(href_raw, "manifest > item[*href]", strict) {
        Ok(v) => v,
        Err(e) => {
            return Err(e);
        },
    };
    assert(href_raw@ =~= or_empty(href0));
    let href = match require_href(resolve_href(base, href_raw.as_str()), strict) {
        Ok(h) => h,
        Err(e) => {
            return Err(e);
        },
    };
    let media_type = match require_attribute(media_type, "manifest > item[*media_type]", strict) {
        Ok(v) => v,
        Err(e) => {
            return Err(e);
        },
    };
    assert(media_type@ =~= or_empty(mt0));
    let refinements = take_pending(pending, id.as_str());
    let media_type = lowercase_media_type(media_type.as_str());
    let entry = EpubManifestEntryData {
        href,
        href_raw,
        media_type,
        fallback,
        media_overlay,
        properties: props_of(properties),
        attributes,
        refinements,
    };
    Ok((id, entry))
}

/// A spine `itemref` from the values of its attributes: the `idref` is required (see
/// [`require_idref`]); the entry is linear unless `linear` says otherwise; when it has
/// an `id`, the refinements waiting for it are taken from `pending`.
pub fn spine_itemref(
    idref: Option<String>,
    id: Option<String>,
    properties: Option<String>,
    linear: Option<&str>,
    attributes: Attributes,
    manifest: Option<&EpubManifestData>,
    pending: &mut PendingRefinements,
    config: &EpubParseConfig,
) -> (r: Result<EpubSpineEntryData, EpubError>)
    ensures
        match idref {
            None => if config.strict {
                r matches Err(EpubError::MissingAttribute(m)) && m@ == "spine > itemref[*idref]"@
            } else {
                r is Ok
            },
            Some(v) => if config.strict && config.parse_manifest {
                match manifest {
                    None => r matches Err(EpubError::NoManifestFound),
                    Some(m) => if id_pos(m.items(), v@) >= 0 {
                        r is Ok
                    } else {
                        r matches Err(EpubError::InvalidIdref(d)) && d == v
                    },
                }
            } else {
                r is Ok
            },
        },
        r is Err ==> final(pending).entries() == old(pending).entries(),
        r matches Ok(e) ==> {
            &&& e.idref@ == or_empty(idref)
            &&& e.id == id
            &&& e.linear == match linear {
                None => true,
                Some(v) => v@ == consts::YES@,
            }
            &&& e.properties@ == or_empty(properties)
            &&& e.attributes == attributes
            &&& match id {
                Some(x) => {
                    let waiting = pending_for(old(pending).entries(), x@);
                    &&& e.refinements.0@ == waiting
                    &&& final(pending).entries() == if waiting.len() > 0 {
                        pending_without(old(pending).entries(), x@)
                    } else {
                        old(pending).entries()
                    }
                },
                None => e.refinements.0@.len() == 0 && final(pending).entries() == old(pending).entries(),
            }
        },
{
    let ghost idref0 = idref;
    let idref = match require_idref(idref, manifest, config) {
        Ok(v) => v,
        Err(e) => {
            return Err(e);
        },
    };
    assert(idref@ =~= or_empty(idref0));
    let refinements = match &id {
        Some(x) => take_pending(pending, x.as_str()),
        None => EpubRefinementsData(Vec::new()),
    };
    Ok(EpubSpineEntryData {
        id,
        idref,
        linear: is_linear(linear),
        properties: props_of(properties),
        attributes,
        refinements,
    })
}

/// An EPUB 2 guide `reference` from the values of its attributes: location, title and
/// type are required; lenient reading takes an empty location (resolved and as written)
/// and empty title and type for missing ones.
pub fn guide_reference(
    href_raw: Option<String>,
    title: Option<String>,
    kind: Option<String>,
    id: Option<String>,
    attributes: Attributes,
    base: &str,
    strict: bool,
) -> (r: Result<EpubTocEntryData, EpubError>)
    ensures
        strict && href_raw is None ==> (r matches Err(EpubError::MissingAttribute(m)) && m@
            == "guide > reference[*href]"@),
        strict && href_raw is Some && title is None ==> (r matches Err(EpubError::MissingAttribute(m)) && m@
            == "guide > reference[*title]"@),
        strict && href_raw is Some && title is Some && kind is None ==> (r matches Err(EpubError::MissingAttribute(m))
            && m@ == "guide > reference[*type]"@),
        !strict || (href_raw is Some && title is Some && kind is Some) ==> (r matches Ok(e) && opt_string_view(
            e.href,
        ) == Some(
            match href_raw {
                Some(h) => spec_resolve_href(base@, h@),
                None => Seq::<char>::empty(),
            },
        ) && opt_string_view(e.href_raw) == Some(or_empty(href_raw)) && e.label@ == or_empty(title)
            && opt_string_view(e.kind) == Some(or_empty(kind)) && e.id == id && e.attributes == attributes
            && e.children@.len() == 0),
{
    let ghost href_raw0 = href_raw;
    let (href, href_raw) = match href_raw {
        Some(h) => (resolve_href(base, h.as_str()), h),
        None => {
            if strict {
                return Err(EpubError::MissingAttribute(to_string("guide > reference[*href]")));
            }
            (String::new(), String::new())
        },
    };
    let ghost (title0, kind0) = (title, kind);
    let label = match require_attribute(title, "guide > reference[*title]", strict) {
        Ok(v) => v,
        Err(e) => {
            return Err(e);
        },
    };
    assert(label@ =~= or_empty(title0));
    let kind = match require_attribute(kind, "guide > reference[*type]", strict) {
        Ok(v) => v,
        Err(e) => {
            return Err(e);
        },
    };
    assert(kind@ =~= or_empty(kind0));
    assert(href_raw@ =~= or_empty(href_raw0));
    Ok(EpubTocEntryData {
        id,
        label,
        kind: Some(kind),
        href: Some(href),
        href_raw: Some(href_raw),
        attributes,
        children: Vec::new(),
    })
}

/// The EPUB 2 guide as landmarks: one root of kind `landmarks` with the given
/// attributes, whose entries are the references in order.
pub fn guide_toc(attributes: Attributes, references: Vec<EpubTocEntryData>) -> (r: EpubTocData)
    ensures
        r.entries@.len() == 1,
        r.entries@[0].0.kind@ == consts::TOC_KIND_LANDMARKS@,
        r.entries@[0].0.version == EpubVersion::Epub2(Version(2, 0)),
        opt_string_view(r.entries@[0].1.kind) == Some(consts::TOC_KIND_LANDMARKS@),
        r.entries@[0].1.label@.len() == 0,
        r.entries@[0].1.id is None && r.entries@[0].1.href is None && r.entries@[0].1.href_raw is None,
        r.entries@[0].1.attributes == attributes,
        r.entries@[0].1.children@ == references@,
        r.preferred_version == EpubVersion::Epub3(Version(3, 0)),
{
    let root = EpubTocEntryData {
        id: None,
        label: String::new(),
        kind: Some(to_string(consts::TOC_KIND_LANDMARKS)),
        href: None,
        href_raw: None,
        attributes,
        children: references,
    };
    let key = EpubTocKey { kind: to_string(consts::TOC_KIND_LANDMARKS), version: EpubVersion::epub2() };
    EpubTocData::new(vec![(key, root)])
}

/// The package element's values: version and `unique-identifier` are required (see
/// [`require_attribute`]), the version read with
/// [`handle_epub_version`](crate::parse::handle_epub_version), the prefixes with
/// [`parse_prefix`](crate::parse::parse_prefix); the text direction is `auto` unless
/// `dir` names another. The location is filled in later.
pub fn package_data(
    version: Option<String>,
    unique_identifier: Option<String>,
    language: Option<String>,
    prefix: Option<String>,
    dir: Option<String>,
    attributes: Attributes,
    strict: bool,
) -> (r: Result<EpubPackageData, EpubError>)
    ensures
        strict && version is None ==> (r matches Err(EpubError::MissingAttribute(m)) && m@ == "package[*version]"@),
        strict && version is Some && unique_identifier is None ==> (r matches Err(EpubError::MissingAttribute(m))
            && m@ == "package[*unique-identifier]"@),
        !strict || (version is Some && unique_identifier is Some) ==> {
            let raw = or_empty(version);
            let pre = match prefix {
                Some(p) => prefix_parse(tokens_from(p@, 0), 0, strict, Seq::empty()),
                None => Ok(Seq::empty()),
            };
            match spec_parse_version(raw) {
                None if strict => (r matches Err(EpubError::InvalidVersion(s)) && s@ == raw),
                _ => match pre {
                    Err(tok) => (r matches Err(EpubError::InvalidPrefix(e)) && e@ == tok),
                    Ok(list) => (r matches Ok(p) && p.version.raw@ == raw && p.version.parsed == (match spec_parse_version(raw) {
                        Some(v) => spec_epub_version(v),
                        None => EpubVersion::Unknown(Version(0, 0)),
                    }) && p.unique_identifier@ == or_empty(unique_identifier) && p.language == language
                        && p.text_direction == (match dir {
                        Some(d) => spec_direction_of(d@),
                        None => TextDirection::Auto,
                    }) && p.attributes == attributes && p.location@.len() == 0 && p.prefixes@.len() == list.len()
                        && forall|k: int|
                        0 <= k < list.len() ==> (#[trigger] p.prefixes@[k]).spec_name() == list[k].0
                            && p.prefixes@[k].spec_uri() == list[k].1),
                },
            }
        },
{
    let ghost (v0, u0) = (version, unique_identifier);
    let raw = match require_attribute(version, "package[*version]", strict) {
        Ok(v) => v,
        Err(e) => {
            return Err(e);
        },
    };
    assert(raw@ =~= or_empty(v0));
    let unique_identifier = match require_attribute(unique_identifier, "package[*unique-identifier]", strict) {
        Ok(v) => v,
        Err(e) => {
            return Err(e);
        },
    };
    assert(unique_identifier@ =~= or_empty(u0));
    let version = match handle_epub_version(raw, strict) {
        Ok(v) => v,
        Err(e) => {
            return Err(e);
        },
    };
    let text_direction = match &dir {
        Some(d) => TextDirection::from_value(d.as_str()),
        None => TextDirection::Auto,
    };
    let prefixes = match parse_prefix(opt_as_str(&prefix), strict) {
        Ok(p) => p,
        Err(e) => {
            return Err(e);
        },
    };
    Ok(EpubPackageData {
        location: String::new(),
        version,
        unique_identifier,
        prefixes,
        language,
        text_direction,
        attributes,
    })
}

/// The package element: required whatever the mode.
pub fn take_package(package: Option<EpubPackageData>) -> (r: Result<EpubPackageData, EpubError>)
    ensures
        match package {
            Some(p) => r == Ok::<EpubPackageData, EpubError>(p),
            None => r matches Err(EpubError::NoPackageFound),
        },
{
    match package {
        Some(p) => Ok(p),
        None => Err(EpubError::NoPackageFound),
    }
}

/// The metadata read: when it is read but missing, strict reading refuses and lenient
/// reading (like a skipped one) takes empty metadata.
pub fn take_metadata(metadata: Option<EpubMetadataData>, config: &EpubParseConfig) -> (r: Result<EpubMetadataData, EpubError>)
    ensures
        match metadata {
            Some(m) if config.parse_metadata => r == Ok::<EpubMetadataData, EpubError>(m),
            None if config.parse_metadata && config.strict => r matches Err(EpubError::NoMetadataFound),
            _ => r matches Ok(m) && m.groups().len() == 0,
        },
{
    if config.parse_metadata {
        match metadata {
            Some(m) => {
                return Ok(m);
            },
            None => {
                if config.strict {
                    return Err(EpubError::NoMetadataFound);
                }
            },
        }
    }
    Ok(EpubMetadataData::empty())
}

/// The manifest read: when it is read but missing, strict reading refuses and lenient
/// reading (like a skipped one) takes an empty manifest.
pub fn take_manifest(manifest: Option<EpubManifestData>, config: &EpubParseConfig) -> (r: Result<EpubManifestData, EpubError>)
    ensures
        match manifest {
            Some(m) if config.parse_manifest => r == Ok::<EpubManifestData, EpubError>(m),
            None if config.parse_manifest && config.strict => r matches Err(EpubError::NoManifestFound),
            _ => r matches Ok(m) && m.items().len() == 0,
        },
{
    if config.parse_manifest {
        match manifest {
            Some(m) => {
                return Ok(m);
            },
            None => {
                if config.strict {
                    return Err(EpubError::NoManifestFound);
                }
            },
        }
    }
    Ok(EpubManifestData::empty())
}

/// The spine read: when it is read but missing, strict reading refuses and lenient
/// reading (like a skipped one) takes an empty spine.
pub fn take_spine(spine: Option<EpubSpineData>, config: &EpubParseConfig) -> (r: Result<EpubSpineData, EpubError>)
    ensures
        match spine {
            Some(s) if config.parse_spine => r == Ok::<EpubSpineData, EpubError>(s),
            None if config.parse_spine && config.strict => r matches Err(EpubError::NoSpineFound),
            _ => r matches Ok(s) && s.entries@.len() == 0,
        },
{
    if config.parse_spine {
        match spine {
            Some(s) => {
                return Ok(s);
            },
            None => {
                if config.strict {
                    return Err(EpubError::NoSpineFound);
                }
            },
        }
    }
    Ok(EpubSpineData::empty())
}

// ---------------------------------------------------------------------------
// The container
// ---------------------------------------------------------------------------

/// The package document of a publication: the first `rootfile` whose media type is
/// the package's and that has a path, made absolute.
pub open spec fn spec_package_file(rootfiles: Seq<(Option<String>, Option<String>)>) -> Option<Seq<char>>
    decreases rootfiles.len(),
{
    if rootfiles.len() == 0 {
        None
    } else {
        let (mt, path) = rootfiles[0];
        if opt_string_view(mt) == Some(consts::OEBPS_PACKAGE@) && path is Some {
            Some(uri::spec_into_absolute(path->0@))
        } else {
            spec_package_file(rootfiles.drop_first())
        }
    }
}

/// The package document named by the `rootfile` elements of the container, given as
/// (media type, full path) in order (see [`spec_package_file`]); refused when there is
/// none.
pub fn package_file(rootfiles: &Vec<(Option<String>, Option<String>)>) -> (r: Result<String, EpubError>)
    ensures
        match spec_package_file(rootfiles@) {
            Some(p) => r matches Ok(s) && s@ == p,
            None => r matches Err(EpubError::NoOpfReference),
        },
{
    let n = rootfiles.len();
    let mut i: usize = 0;
    assert(rootfiles@.skip(0) =~= rootfiles@);
    while i < n
        invariant
            n == rootfiles@.len(),
            i <= n,
            spec_package_file(rootfiles@) == spec_package_file(rootfiles@.skip(i as int)),
        decreases n - i,
    {
        proof {
            assert(rootfiles@.skip(i as int)[0] == rootfiles@[i as int]);
            assert(rootfiles@.skip(i as int).drop_first() =~= rootfiles@.skip(i + 1));
        }
        let is_package = match &rootfiles[i].0 {
            Some(mt) => str_eq(mt.as_str(), consts::OEBPS_PACKAGE),
            None => false,
        };
        if is_package {
            match &rootfiles[i].1 {
                Some(path) => {
                    return Ok(uri::into_absolute(path.as_str()));
                },
                None => {},
            }
        }
        i = i + 1;
    }
    proof {
        assert(rootfiles@.skip(n as int) =~= Seq::<(Option<String>, Option<String>)>::empty());
    }
    Err(EpubError::NoOpfReference)
}

// ---------------------------------------------------------------------------
// Tables of contents
// ---------------------------------------------------------------------------

/// Where a table of contents is, and which version it is (EPUB 2 for an NCX, EPUB 3 for
/// an XHTML navigation document).
#[derive(Debug)]
pub struct TocLocation {
    pub location: String,
    pub version: EpubVersion,
}

/// The position of the first item with the `nav` property, or `-1`.
pub open spec fn nav_pos(g: Seq<(Seq<char>, crate::manifest::EpubManifestEntryData)>, k: int) -> int
    decreases g.len() - k,
{
    if k < 0 || k >= g.len() {
        -1
    } else if has_prop(g[k].1.properties@, consts::NAV_PROPERTY@) {
        k
    } else {
        nav_pos(g, k + 1)
    }
}

/// The NCX location: the item the spine's `toc` names, if any.
pub open spec fn spec_ncx(g: Seq<(Seq<char>, crate::manifest::EpubManifestEntryData)>, ncx_id: Option<Seq<char>>) -> Option<Seq<char>> {
    match ncx_id {
        Some(x) => if id_pos(g, x) >= 0 {
            Some(g[id_pos(g, x)].1.href@)
        } else {
            None
        },
        None => None,
    }
}

/// The navigation document location: the first item with the `nav` property, if any.
pub open spec fn spec_nav(g: Seq<(Seq<char>, crate::manifest::EpubManifestEntryData)>) -> Option<Seq<char>> {
    if nav_pos(g, 0) >= 0 {
        Some(g[nav_pos(g, 0)].1.href@)
    } else {
        None
    }
}

/// The tables of contents to read, as (location, is EPUB 3): with `retain` both (NCX
/// first); else the preferred one, or the other when it is missing.
pub open spec fn spec_toc_locations(
    g: Seq<(Seq<char>, crate::manifest::EpubManifestEntryData)>,
    ncx_id: Option<Seq<char>>,
    retain: bool,
    prefer_epub3: bool,
) -> Seq<(Seq<char>, bool)> {
    let ncx = spec_ncx(g, ncx_id);
    let nav = spec_nav(g);
    let n2: Seq<(Seq<char>, bool)> = match ncx {
        Some(x) => seq![(x, false)],
        None => Seq::empty(),
    };
    let n3: Seq<(Seq<char>, bool)> = match nav {
        Some(x) => seq![(x, true)],
        None => Seq::empty(),
    };
    if retain {
        n2 + n3
    } else if prefer_epub3 {
        if nav is Some {
            n3
        } else {
            n2
        }
    } else {
        if ncx is Some {
            n2
        } else {
            n3
        }
    }
}

fn first_nav(m: &EpubManifestData) -> (r: Option<usize>)
    ensures
        match r {
            Some(i) => i as int == nav_pos(m.items(), 0) && i < m.items().len(),
            None => nav_pos(m.items(), 0) == -1,
        },
{
    let n = m.len();
    let mut i: usize = 0;
    while i < n
        invariant
            n == m.items().len(),
            i <= n,
            nav_pos(m.items(), 0) == nav_pos(m.items(), i as int),
        decreases n - i,
    {
        let (_, item) = m.get_index(i).unwrap();
        if item.properties.has_property(consts::NAV_PROPERTY) {
            return Some(i);
        }
        i = i + 1;
    }
    None
}

/// What reading the tables of contents comes to: the locations to read (see
/// [`spec_toc_locations`]; none when the manifest or the tables of contents are not
/// read; an EPUB 2 publication prefers its NCX), or `None` when strict reading of an
/// EPUB 3 publication finds none.
pub open spec fn toc_outcome(
    manifest: Option<Seq<(Seq<char>, crate::manifest::EpubManifestEntryData)>>,
    ncx_id: Option<Seq<char>>,
    config: EpubParseConfig,
    version: EpubVersion,
) -> Option<Seq<(Seq<char>, bool)>> {
    match manifest {
        None => Some(Seq::empty()),
        Some(g) => if !config.parse_toc {
            Some(Seq::empty())
        } else {
            let major = spec_as_major(version);
            let prefer_epub3 = if major is Epub2 { false } else { config.preferred_toc is Epub3 };
            let locs = spec_toc_locations(g, ncx_id, config.retain_variants, prefer_epub3);
            if config.strict && major is Epub3 && locs.len() == 0 {
                None
            } else {
                Some(locs)
            }
        },
    }
}

/// The locations `v` are `locs`, as (location, is EPUB 3).
pub open spec fn locations_are(v: Seq<TocLocation>, locs: Seq<(Seq<char>, bool)>) -> bool {
    &&& v.len() == locs.len()
    &&& forall|k: int|
        0 <= k < v.len() ==> (#[trigger] v[k]).location@ == locs[k].0 && v[k].version == (if locs[k].1 {
            EpubVersion::Epub3(Version(3, 0))
        } else {
            EpubVersion::Epub2(Version(2, 0))
        })
}

/// The tables of contents to read (see [`spec_toc_locations`]): none when the manifest
/// or the tables of contents are not read; an EPUB 2 publication prefers its NCX.
/// Strict reading of an EPUB 3 publication refuses when there is none.
pub fn toc_locations(
    manifest: Option<&EpubManifestData>,
    ncx_id: Option<&str>,
    config: &EpubParseConfig,
    version: EpubVersion,
) -> (r: Result<Vec<TocLocation>, EpubError>)
    ensures
        match toc_outcome(
            match manifest {
                Some(m) => Some(m.items()),
                None => None,
            },
            crate::text::opt_str_view(ncx_id),
            *config,
            version,
        ) {
            None => r matches Err(EpubError::NoXhtmlTocReference),
            Some(locs) => r matches Ok(v) && locations_are(v@, locs),
        },
{
    let m = match manifest {
        Some(m) => m,
        None => {
            return Ok(Vec::new());
        },
    };
    if !config.parse_toc {
        return Ok(Vec::new());
    }
    let major = version.as_major();
    let preferred = if major.is_epub2() {
        major
    } else {
        config.preferred_toc
    };
    let ghost g = m.items();
    let ncx: Option<String> = match ncx_id {
        Some(x) => {
            proof {
                lemma_id_pos(g, x@);
            }
            match m.index_of(x) {
                Some(i) => {
                    let (_, item) = m.get_index(i).unwrap();
                    Some(to_string(item.href.as_str()))
                },
                None => None,
            }
        },
        None => None,
    };
    let nav: Option<String> = if config.retain_variants || preferred.is_epub3() || ncx.is_none() {
        match first_nav(m) {
            Some(i) => {
                let (_, item) = m.get_index(i).unwrap();
                Some(to_string(item.href.as_str()))
            },
            None => None,
        }
    } else {
        None
    };
    let mut out: Vec<TocLocation> = Vec::new();
    if config.retain_variants {
        match ncx {
            Some(x) => out.push(TocLocation { location: x, version: EpubVersion::epub2() }),
            None => {},
        }
        match nav {
            Some(x) => out.push(TocLocation { location: x, version: EpubVersion::epub3() }),
            None => {},
        }
    } else if preferred.is_epub3() {
        match nav {
            Some(x) => out.push(TocLocation { location: x, version: EpubVersion::epub3() }),
            None => match ncx {
                Some(x) => out.push(TocLocation { location: x, version: EpubVersion::epub2() }),
                None => {},
            },
        }
    } else {
        match ncx {
            Some(x) => out.push(TocLocation { location: x, version: EpubVersion::epub2() }),
            None => match nav {
                Some(x) => out.push(TocLocation { location: x, version: EpubVersion::epub3() }),
                None => {},
            },
        }
    }
    if config.strict && major.is_epub3() && out.len() == 0 {
        Err(EpubError::NoXhtmlTocReference)
    } else {
        Ok(out)
    }
}

/// The kind of a navigation document root from its `epub:type`: the first of the
/// space-separated values, the one that matters.
pub fn nav_root_kind(epub_type: &str) -> (r: String)
    ensures
        r@ == if first_index_of(epub_type@, ' ') >= 0 {
            epub_type@.take(first_index_of(epub_type@, ' '))
        } else {
            epub_type@
        },
{
    let v = chars_of(epub_type);
    match find_char(&v, ' ') {
        Some(i) => string_from_range(&v, 0, i),
        None => to_string(epub_type),
    }
}

/// The kind of an NCX root: `toc` for the `navMap`, `page-list` for the `pageList`.
pub fn ncx_root_kind(is_nav_map: bool) -> (r: String)
    ensures
        r@ == if is_nav_map {
            consts::TOC_KIND_TOC@
        } else {
            consts::TOC_KIND_PAGE_LIST@
        },
{
    if is_nav_map {
        to_string(consts::TOC_KIND_TOC)
    } else {
        to_string(consts::TOC_KIND_PAGE_LIST)
    }
}

/// Strict reading requires a table of contents (`toc`) of the version read.
pub fn assert_toc(groups: &Vec<(EpubTocKey, EpubTocEntryData)>, version: EpubVersion, strict: bool) -> (r: Result<(), EpubError>)
    ensures
        if strict && toc_pos(groups@, consts::TOC_KIND_TOC@, spec_as_major(version)) < 0 {
            r matches Err(EpubError::NoTocFound)
        } else {
            r is Ok
        },
{
    if !strict {
        return Ok(());
    }
    let v = version.as_major();
    proof {
        lemma_toc_pos(groups@, consts::TOC_KIND_TOC@, v);
    }
    let n = groups.len();
    let mut i: usize = 0;
    while i < n
        invariant
            strict,
            n == groups@.len(),
            i <= n,
            forall|j: int| 0 <= j < i ==> !((#[trigger] groups@[j]).0.kind@ == consts::TOC_KIND_TOC@ && groups@[j].0.version == v),
            -1 <= toc_pos(groups@, consts::TOC_KIND_TOC@, v) < n,
            toc_pos(groups@, consts::TOC_KIND_TOC@, v) < 0 ==> forall|j: int| 0 <= j < n ==> !((#[trigger] groups@[j]).0.kind@
                == consts::TOC_KIND_TOC@ && groups@[j].0.version == v),
            v == spec_as_major(version),
            toc_pos(groups@, consts::TOC_KIND_TOC@, v) >= 0 ==> groups@[toc_pos(groups@, consts::TOC_KIND_TOC@, v)].0.kind@
                == consts::TOC_KIND_TOC@ && groups@[toc_pos(groups@, consts::TOC_KIND_TOC@, v)].0.version == v,
        decreases n - i,
    {
        if groups[i].0.version == v && str_eq(groups[i].0.kind.as_str(), consts::TOC_KIND_TOC) {
            return Ok(());
        }
        i = i + 1;
    }
    Err(EpubError::NoTocFound)
}

/// After reading the tables of contents: unless every variant is kept or EPUB 2 is
/// preferred, the EPUB 2 guide is dropped when EPUB 3 landmarks exist too; then the
/// preferred version is recorded.
pub fn finish_tocs(toc: &mut EpubTocData, config: &EpubParseConfig)
    ensures
        final(toc).preferred_version == config.preferred_toc,
        ({
            let s = old(toc).entries@;
            let p2 = toc_pos(s, consts::TOC_KIND_LANDMARKS@, EpubVersion::Epub2(Version(2, 0)));
            let p3 = toc_pos(s, consts::TOC_KIND_LANDMARKS@, EpubVersion::Epub3(Version(3, 0)));
            if !config.retain_variants && config.preferred_toc != EpubVersion::Epub2(Version(2, 0)) && p2 >= 0 && p3 >= 0 {
                final(toc).entries@ == s.remove(p2)
            } else {
                final(toc).entries@ == s
            }
        }),
{
    let keep_all = config.retain_variants || config.preferred_toc == EpubVersion::epub2();
    if !keep_all {
        let mut edit = crate::toc::EpubTocMut { base: "", toc };
        let p3 = crate::toc::toc_index_pub(&edit.toc.entries, consts::TOC_KIND_LANDMARKS, EpubVersion::epub3());
        if p3.is_some() {
            let _ = edit.remove_by_kind_version(consts::TOC_KIND_LANDMARKS, EpubVersion::epub2());
        }
    }
    toc.preferred_version = config.preferred_toc;
}

/// Nested entries being read: the open entries from the outermost, and the finished
/// roots by kind and version.
pub struct TocBuilder {
    pub stack: Vec<EpubTocEntryData>,
    pub groups: Vec<(EpubTocKey, EpubTocEntryData)>,
}

impl TocBuilder {
    /// Nothing read yet.
    pub fn new() -> (r: Self)
        ensures
            r.stack@.len() == 0,
            r.groups@.len() == 0,
    {
        TocBuilder { stack: Vec::new(), groups: Vec::new() }
    }

    /// Opens an entry inside the innermost open one.
    pub fn push(&mut self, entry: EpubTocEntryData)
        ensures
            final(self).stack@ == old(self).stack@.push(entry),
            final(self).groups@ == old(self).groups@,
    {
        self.stack.push(entry);
    }

    /// Closes the innermost open entry: it becomes the last nested entry of the entry
    /// around it, or, when it is outermost, the root of its kind (its kind, or empty)
    /// and `version`, replacing one with the same kind and version in place.
    pub fn pop(&mut self, version: EpubVersion)
        ensures
            ({
                let s = old(self).stack@;
                if s.len() == 0 {
                    final(self).stack@ == s && final(self).groups@ == old(self).groups@
                } else if s.len() == 1 {
                    &&& final(self).stack@.len() == 0
                    &&& exists|key: EpubTocKey|
                        key.kind@ == (match opt_string_view(s[0].kind) {
                            Some(k) => k,
                            None => Seq::<char>::empty(),
                        }) && key.version == version && final(self).groups@ == with_root(old(self).groups@, key, s[0])
                } else {
                    let parent = s[s.len() - 2];
                    &&& final(self).groups@ == old(self).groups@
                    &&& final(self).stack@.len() == s.len() - 1
                    &&& forall|i: int| 0 <= i < s.len() - 2 ==> #[trigger] final(self).stack@[i] == s[i]
                    &&& final(self).stack@[s.len() - 2] == (EpubTocEntryData {
                        children: final(self).stack@[s.len() - 2].children,
                        ..parent
                    })
                    &&& final(self).stack@[s.len() - 2].children@ == parent.children@.push(s[s.len() - 1])
                }
            }),
    {
        let entry = match self.stack.pop() {
            Some(e) => e,
            None => {
                return;
            },
        };
        let n = self.stack.len();
        if n > 0 {
            let mut parent = self.stack.pop().unwrap();
            parent.children.push(entry);
            self.stack.push(parent);
        } else {
            let kind = match &entry.kind {
                Some(k) => k.clone(),
                None => String::new(),
            };
            let key = EpubTocKey { kind, version };
            let ghost k2 = key;
            crate::toc::insert_root_pub(&mut self.groups, key, entry);
        }
    }

    /// Sets the label of the innermost open entry, if any.
    pub fn set_label(&mut self, label: String)
        ensures
            final(self).groups@ == old(self).groups@,
            old(self).stack@.len() == 0 ==> final(self).stack@ == old(self).stack@,
            old(self).stack@.len() > 0 ==> final(self).stack@ == old(self).stack@.update(
                old(self).stack@.len() - 1,
                EpubTocEntryData { label: label, ..old(self).stack@.last() },
            ),
    {
        let n = self.stack.len();
        if n > 0 {
            let mut top = self.stack.pop().unwrap();
            top.label = label;
            self.stack.push(top);
        }
    }

    /// Sets the location of the innermost open entry, if any: resolved and as written.
    pub fn set_location(&mut self, href: String, href_raw: String)
        ensures
            final(self).groups@ == old(self).groups@,
            old(self).stack@.len() == 0 ==> final(self).stack@ == old(self).stack@,
            old(self).stack@.len() > 0 ==> final(self).stack@ == old(self).stack@.update(
                old(self).stack@.len() - 1,
                EpubTocEntryData { href: Some(href), href_raw: Some(href_raw), ..old(self).stack@.last() },
            ),
    {
        let n = self.stack.len();
        if n > 0 {
            let mut top = self.stack.pop().unwrap();
            top.href = Some(href);
            top.href_raw = Some(href_raw);
            self.stack.push(top);
        }
    }

    /// Applies a navigation document link (`<a>`) to the innermost open entry, if any:
    /// its `id`, location (resolved and as written), text as label and `epub:type` as
    /// kind.
    pub fn set_anchor(&mut self, id: Option<String>, href: String, href_raw: String, label: String, kind: Option<String>)
        ensures
            final(self).groups@ == old(self).groups@,
            old(self).stack@.len() == 0 ==> final(self).stack@ == old(self).stack@,
            old(self).stack@.len() > 0 ==> final(self).stack@ == old(self).stack@.update(
                old(self).stack@.len() - 1,
                EpubTocEntryData {
                    id: id,
                    href: Some(href),
                    href_raw: Some(href_raw),
                    label: label,
                    kind: kind,
                    ..old(self).stack@.last()
                },
            ),
    {
        let n = self.stack.len();
        if n > 0 {
            let mut top = self.stack.pop().unwrap();
            top.id = id;
            top.href = Some(href);
            top.href_raw = Some(href_raw);
            top.label = label;
            top.kind = kind;
            self.stack.push(top);
        }
    }

    /// Gives the NCX table of contents (`toc`, EPUB 2) the document title as its label.
    pub fn set_ncx_title(&mut self, title: String)
        ensures
            final(self).stack@ == old(self).stack@,
            ({
                let g = old(self).groups@;
                let p = toc_pos(g, consts::TOC_KIND_TOC@, EpubVersion::Epub2(Version(2, 0)));
                if p >= 0 {
                    final(self).groups@ == g.update(p, (g[p].0, EpubTocEntryData { label: title, ..g[p].1 }))
                } else {
                    final(self).groups@ == g
                }
            }),
    {
        proof {
            lemma_toc_pos(self.groups@, consts::TOC_KIND_TOC@, EpubVersion::Epub2(Version(2, 0)));
        }
        match crate::toc::toc_index_pub(&self.groups, consts::TOC_KIND_TOC, EpubVersion::epub2()) {
            Some(i) => {
                let (key, mut root) = self.groups.remove(i);
                root.label = title;
                self.groups.insert(i, (key, root));
            },
            None => {},
        }
    }

    /// The finished roots, preferring EPUB 3.
    pub fn into_toc(self) -> (r: EpubTocData)
        ensures
            r.entries@ == self.groups@,
            r.preferred_version == EpubVersion::Epub3(Version(3, 0)),
    {
        EpubTocData::new(self.groups)
    }
}

} // verus!
