//! The steps of reading a package document and a table of contents: which element
//! starts which part, what each event of an NCX document does to the entries being
//! built, and how the parts read are finished.
use vstd::prelude::*;
use crate::checks::{
    locations_are, nav_root_kind, ncx_root_kind, or_empty, require_attribute, require_href, take_manifest, take_metadata,
    take_package, take_spine, toc_locations, toc_outcome, TocBuilder, TocLocation,
};
use crate::consts;
use crate::element::Attributes;
use crate::manifest::{resolve_href, spec_resolve_href};
use crate::text::{first_index_of, opt_string_view, to_string};
use crate::toc::{toc_pos, EpubTocEntryData};
use crate::uri;
use crate::errors::EpubError;
use crate::groups::EpubMetadataData;
use crate::manifest::EpubManifestData;
use crate::metadata::{EpubVersion, Version};
use crate::options::EpubParseConfig;
use crate::package::EpubPackageData;
use crate::spine::EpubSpineData;
use crate::text::{opt_as_str, opt_str_view, str_eq};
use crate::toc::EpubTocData;

verus! {

broadcast use vstd::string::group_string_axioms;

/// What to do with an element that starts in the package document.
#[derive(Debug, PartialEq, Eq, Structural)]
pub enum OpfAction {
    /// Read the `package` element's attributes.
    Package,
    /// Read the `metadata` section.
    Metadata,
    /// Read the `manifest` section.
    Manifest,
    /// Read the `spine` section.
    Spine,
    /// Read the EPUB 2 `guide` (as landmarks).
    Guide,
    /// Go on to the next element.
    Skip,
}

/// What an element of the package document starts: its part when that part is read
/// (the guide goes with the tables of contents); the `package` element always.
pub open spec fn spec_opf_action(config: EpubParseConfig, local_name: Seq<char>) -> OpfAction {
    if local_name == "package"@ {
        OpfAction::Package
    } else if local_name == "metadata"@ && config.parse_metadata {
        OpfAction::Metadata
    } else if local_name == "manifest"@ && config.parse_manifest {
        OpfAction::Manifest
    } else if local_name == "spine"@ && config.parse_spine {
        OpfAction::Spine
    } else if local_name == "guide"@ && config.parse_toc {
        OpfAction::Guide
    } else {
        OpfAction::Skip
    }
}

/// The step of reading the package document for an element that starts (see
/// [`spec_opf_action`]).
pub fn opf_step(config: &EpubParseConfig, local_name: &str) -> (r: OpfAction)
    ensures
        r == spec_opf_action(*config, local_name@),
{
    if str_eq(local_name, "package") {
        OpfAction::Package
    } else if str_eq(local_name, "metadata") && config.parse_metadata {
        OpfAction::Metadata
    } else if str_eq(local_name, "manifest") && config.parse_manifest {
        OpfAction::Manifest
    } else if str_eq(local_name, "spine") && config.parse_spine {
        OpfAction::Spine
    } else if str_eq(local_name, "guide") && config.parse_toc {
        OpfAction::Guide
    } else {
        OpfAction::Skip
    }
}

/// The parts read from a package document, each the last one read (the spine with the
/// `id` its `toc` attribute names).
pub struct OpfParts {
    pub package: Option<EpubPackageData>,
    pub metadata: Option<EpubMetadataData>,
    pub manifest: Option<EpubManifestData>,
    pub spine: Option<(EpubSpineData, Option<String>)>,
    pub guide: Option<EpubTocData>,
}

/// A read package document: where its tables of contents are, and its parts.
pub struct ParsedPackage {
    pub toc_locations: Vec<TocLocation>,
    pub package: EpubPackageData,
    pub metadata: EpubMetadataData,
    pub manifest: EpubManifestData,
    pub spine: EpubSpineData,
    pub guide: EpubTocData,
}

/// The `id` the spine names as its NCX, if a spine was read.
pub open spec fn parts_ncx(parts: OpfParts) -> Option<Seq<char>> {
    match parts.spine {
        Some((_, n)) => match n {
            Some(x) => Some(x@),
            None => None,
        },
        None => None,
    }
}

/// The version read from the package element (EPUB 3 before one is read).
pub open spec fn parts_version(parts: OpfParts) -> EpubVersion {
    match parts.package {
        Some(p) => p.version.parsed,
        None => EpubVersion::Epub3(Version(3, 0)),
    }
}

/// Finishes reading a package document: the tables of contents to read are found first
/// (see [`toc_outcome`]); then the package element is required, and each part that is
/// read but missing is refused in strict reading (see [`take_metadata`] and the
/// others); a missing guide gives no tables of contents.
pub fn finish_opf(parts: OpfParts, config: &EpubParseConfig) -> (r: Result<ParsedPackage, EpubError>)
    ensures
        ({
            let outcome = toc_outcome(
                match parts.manifest {
                    Some(m) => Some(m.items()),
                    None => None,
                },
                parts_ncx(parts),
                *config,
                parts_version(parts),
            );
            let meta_missing = config.parse_metadata && parts.metadata is None && config.strict;
            let manifest_missing = config.parse_manifest && parts.manifest is None && config.strict;
            let spine_missing = config.parse_spine && parts.spine is None && config.strict;
            if outcome is None {
                r matches Err(EpubError::NoXhtmlTocReference)
            } else if parts.package is None {
                r matches Err(EpubError::NoPackageFound)
            } else if meta_missing {
                r matches Err(EpubError::NoMetadataFound)
            } else if manifest_missing {
                r matches Err(EpubError::NoManifestFound)
            } else if spine_missing {
                r matches Err(EpubError::NoSpineFound)
            } else {
                r matches Ok(p) && {
                    &&& locations_are(p.toc_locations@, outcome->0)
                    &&& p.package == parts.package->0
                    &&& if config.parse_metadata && parts.metadata is Some {
                        p.metadata == parts.metadata->0
                    } else {
                        p.metadata.groups().len() == 0
                    }
                    &&& if config.parse_manifest && parts.manifest is Some {
                        p.manifest == parts.manifest->0
                    } else {
                        p.manifest.items().len() == 0
                    }
                    &&& if config.parse_spine && parts.spine is Some {
                        p.spine == (parts.spine->0).0
                    } else {
                        p.spine.entries@.len() == 0
                    }
                    &&& match parts.guide {
                        Some(g) => p.guide == g,
                        None => p.guide.entries@.len() == 0,
                    }
                }
            }
        }),
{
    let OpfParts { package, metadata, manifest, spine, guide } = parts;
    let version = match &package {
        Some(p) => p.version.parsed,
        None => EpubVersion::epub3(),
    };
    let (spine, ncx) = match spine {
        Some((s, n)) => (Some(s), n),
        None => (None, None),
    };
    let ncx_ref = opt_as_str(&ncx);
    assert(opt_str_view(ncx_ref) == parts_ncx(parts));
    let locations = match toc_locations(manifest.as_ref(), ncx_ref, config, version) {
        Ok(l) => l,
        Err(e) => {
            return Err(e);
        },
    };
    let package = match take_package(package) {
        Ok(p) => p,
        Err(e) => {
            return Err(e);
        },
    };
    let metadata = match take_metadata(metadata, config) {
        Ok(m) => m,
        Err(e) => {
            return Err(e);
        },
    };
    let manifest = match take_manifest(manifest, config) {
        Ok(m) => m,
        Err(e) => {
            return Err(e);
        },
    };
    let spine = match take_spine(spine, config) {
        Ok(s) => s,
        Err(e) => {
            return Err(e);
        },
    };
    let guide = match guide {
        Some(g) => g,
        None => EpubTocData::empty(),
    };
    Ok(ParsedPackage { toc_locations: locations, package, metadata, manifest, spine, guide })
}


/// An event of an NCX document, with the values the reading needs.
pub enum NcxEvent {
    /// The text of `docTitle`.
    DocTitle(String),
    /// A `navMap` (or else a `pageList`) starts.
    Root { nav_map: bool, id: Option<String>, attributes: Attributes },
    /// A `navPoint` starts.
    NavPoint { id: Option<String>, attributes: Attributes },
    /// A `pageTarget` starts, with its `type`.
    PageTarget { id: Option<String>, kind: Option<String>, attributes: Attributes },
    /// The text of a `navLabel`.
    Label(String),
    /// A `content` element, with its `src`.
    Content(Option<String>),
    /// A `navMap`, `pageList`, `navPoint` or `pageTarget` ends.
    End,
}

/// The entries being built from an NCX document, and its title.
pub struct NcxReader {
    pub builder: TocBuilder,
    pub title: String,
}

/// `s2` is `s` with one more open entry holding the `id`, kind and attributes given,
/// an empty label and no location or nested entries.
pub open spec fn opened(
    s: Seq<EpubTocEntryData>,
    s2: Seq<EpubTocEntryData>,
    id: Option<String>,
    kind: Option<String>,
    attributes: Attributes,
) -> bool {
    &&& s2.len() == s.len() + 1
    &&& s2.drop_last() == s
    &&& s2.last().id == id
    &&& s2.last().kind == kind
    &&& s2.last().attributes == attributes
    &&& s2.last().label@.len() == 0
    &&& s2.last().href is None && s2.last().href_raw is None
    &&& s2.last().children@.len() == 0
}

impl NcxReader {
    /// Nothing read yet.
    pub fn new() -> (r: Self)
        ensures
            r.builder.stack@.len() == 0,
            r.builder.groups@.len() == 0,
            r.title@.len() == 0,
    {
        NcxReader { builder: TocBuilder::new(), title: String::new() }
    }

    fn open(&mut self, id: Option<String>, kind: Option<String>, attributes: Attributes)
        ensures
            opened(old(self).builder.stack@, final(self).builder.stack@, id, kind, attributes),
            final(self).builder.groups@ == old(self).builder.groups@,
            final(self).title == old(self).title,
    {
        let e = EpubTocEntryData {
            id,
            label: String::new(),
            kind,
            href: None,
            href_raw: None,
            attributes,
            children: Vec::new(),
        };
        self.builder.push(e);
        proof {
            assert(self.builder.stack@.drop_last() =~= old(self).builder.stack@);
        }
    }

    /// The step of reading an NCX document for one event: the title is kept; a root or
    /// nested entry opens (a `navMap` as `toc`, a `pageList` as `page-list`; a
    /// `pageTarget` requires its `type`, which becomes its kind); a label or a location
    /// (`src`, required, resolved against the directory `base` of the document and
    /// percent-encoded, see [`require_href`]) goes to the innermost open entry, when
    /// there is one; an end closes it (see [`TocBuilder::pop`]). An error leaves the
    /// reading unchanged.
    pub fn ncx_step(&mut self, event: NcxEvent, base: &str, strict: bool) -> (r: Result<(), EpubError>)
        ensures
            r is Err ==> final(self).builder.stack@ == old(self).builder.stack@ && final(self).builder.groups@
                == old(self).builder.groups@ && final(self).title == old(self).title,
            match event {
                NcxEvent::DocTitle(t) => r is Ok && final(self).title == t && final(self).builder.stack@
                    == old(self).builder.stack@ && final(self).builder.groups@ == old(self).builder.groups@,
                NcxEvent::Root { nav_map, id, attributes } => r is Ok && final(self).title == old(self).title
                    && final(self).builder.groups@ == old(self).builder.groups@ && opened(
                    old(self).builder.stack@,
                    final(self).builder.stack@,
                    id,
                    Some(final(self).builder.stack@.last().kind->0),
                    attributes,
                ) && final(self).builder.stack@.last().kind is Some && final(self).builder.stack@.last().kind->0@ == (
                if nav_map {
                    consts::TOC_KIND_TOC@
                } else {
                    consts::TOC_KIND_PAGE_LIST@
                }),
                NcxEvent::NavPoint { id, attributes } => r is Ok && final(self).title == old(self).title
                    && final(self).builder.groups@ == old(self).builder.groups@ && opened(
                    old(self).builder.stack@,
                    final(self).builder.stack@,
                    id,
                    None,
                    attributes,
                ),
                NcxEvent::PageTarget { id, kind, attributes } => if strict && kind is None {
                    r matches Err(EpubError::MissingAttribute(m)) && m@ == "pageTarget[*type]"@
                } else {
                    r is Ok && final(self).title == old(self).title && final(self).builder.groups@
                        == old(self).builder.groups@ && opened(
                        old(self).builder.stack@,
                        final(self).builder.stack@,
                        id,
                        kind,
                        attributes,
                    )
                },
                NcxEvent::Label(t) => r is Ok && final(self).title == old(self).title && final(self).builder.groups@
                    == old(self).builder.groups@ && if old(self).builder.stack@.len() == 0 {
                    final(self).builder.stack@ == old(self).builder.stack@
                } else {
                    final(self).builder.stack@ == old(self).builder.stack@.update(
                        old(self).builder.stack@.len() - 1,
                        EpubTocEntryData { label: t, ..old(self).builder.stack@.last() },
                    )
                },
                NcxEvent::Content(src) => {
                    let resolved = spec_resolve_href(base@, or_empty(src));
                    if old(self).builder.stack@.len() == 0 {
                        r is Ok && final(self).builder.stack@ == old(self).builder.stack@
                            && final(self).builder.groups@ == old(self).builder.groups@ && final(self).title
                            == old(self).title
                    } else if strict && src is None {
                        r matches Err(EpubError::MissingAttribute(m)) && m@ == "content[*src]"@
                    } else if strict && uri::needs_encoding(resolved) {
                        r matches Err(EpubError::UnencodedHref(h)) && h@ == resolved
                    } else {
                        &&& r is Ok
                        &&& final(self).title == old(self).title
                        &&& final(self).builder.groups@ == old(self).builder.groups@
                        &&& final(self).builder.stack@.len() == old(self).builder.stack@.len()
                        &&& final(self).builder.stack@.drop_last() == old(self).builder.stack@.drop_last()
                        &&& {
                            let e = final(self).builder.stack@.last();
                            &&& e == (EpubTocEntryData {
                                href: e.href,
                                href_raw: e.href_raw,
                                ..old(self).builder.stack@.last()
                            })
                            &&& opt_string_view(e.href) == Some(uri::spec_encode(resolved))
                            &&& opt_string_view(e.href_raw) == Some(or_empty(src))
                        }
                    }
                },
                NcxEvent::End => r is Ok && final(self).title == old(self).title
                    && final(self).builder.stack@.len() == if old(self).builder.stack@.len() == 0 {
                    0
                } else {
                    old(self).builder.stack@.len() - 1
                },
            },
    {
        match event {
            NcxEvent::DocTitle(t) => {
                self.title = t;
                Ok(())
            },
            NcxEvent::Root { nav_map, id, attributes } => {
                let kind = ncx_root_kind(nav_map);
                self.open(id, Some(kind), attributes);
                Ok(())
            },
            NcxEvent::NavPoint { id, attributes } => {
                self.open(id, None, attributes);
                Ok(())
            },
            NcxEvent::PageTarget { id, kind, attributes } => {
                if strict && kind.is_none() {
                    return Err(EpubError::MissingAttribute(to_string("pageTarget[*type]")));
                }
                self.open(id, kind, attributes);
                Ok(())
            },
            NcxEvent::Label(t) => {
                self.builder.set_label(t);
                Ok(())
            },
            NcxEvent::Content(src) => {
                if self.builder.stack.len() == 0 {
                    return Ok(());
                }
                let ghost src0 = src;
                let raw = match require_attribute(src, "content[*src]", strict) {
                    Ok(v) => v,
                    Err(e) => {
                        return Err(e);
                    },
                };
                assert(raw@ =~= or_empty(src0));
                let href = match require_href(resolve_href(base, raw.as_str()), strict) {
                    Ok(h) => h,
                    Err(e) => {
                        return Err(e);
                    },
                };
                self.builder.set_location(href, raw);
                proof {
                    assert(self.builder.stack@.drop_last() =~= old(self).builder.stack@.drop_last());
                }
                Ok(())
            },
            NcxEvent::End => {
                self.builder.pop(EpubVersion::epub2());
                Ok(())
            },
        }
    }

    /// The entries read, the main table of contents (`toc`, EPUB 2) labelled with the
    /// document title.
    pub fn finish(self) -> (r: EpubTocData)
        ensures
            ({
                let g = self.builder.groups@;
                let p = toc_pos(g, consts::TOC_KIND_TOC@, EpubVersion::Epub2(Version(2, 0)));
                if p >= 0 {
                    r.entries@ == g.update(p, (g[p].0, EpubTocEntryData { label: self.title, ..g[p].1 }))
                } else {
                    r.entries@ == g
                }
            }),
            r.preferred_version == EpubVersion::Epub3(Version(3, 0)),
    {
        let NcxReader { builder, title } = self;
        let mut builder = builder;
        builder.set_ncx_title(title);
        builder.into_toc()
    }
}

/// An event of an XHTML navigation document, with the values the reading needs.
pub enum NavEvent {
    /// A `nav` starts: its `epub:type`, `id`, other attributes and heading text.
    Nav { epub_type: Option<String>, id: Option<String>, attributes: Attributes, title: String },
    /// A list item starts, with the text before its link (a heading when it has none).
    Item { id: Option<String>, attributes: Attributes, label: String },
    /// A link (`a`): its `id`, `href`, text and `epub:type`.
    Anchor { id: Option<String>, href: Option<String>, label: String, kind: Option<String> },
    /// A `nav` or list item ends.
    End,
}

/// The entries being built from an XHTML navigation document.
pub struct NavReader {
    pub builder: TocBuilder,
}

impl NavReader {
    /// Nothing read yet.
    pub fn new() -> (r: Self)
        ensures
            r.builder.stack@.len() == 0,
            r.builder.groups@.len() == 0,
    {
        NavReader { builder: TocBuilder::new() }
    }

    /// The step of reading a navigation document for one event: a `nav` opens a root
    /// whose kind is the first value of its required `epub:type` (see
    /// [`nav_root_kind`]) and whose label is its heading; a list item opens a nested
    /// entry labelled with its text; a link gives the innermost open entry, when there
    /// is one, its `id`, its location (`href`, required, resolved against the directory
    /// `base` of the document and percent-encoded, see [`require_href`]), its text and
    /// its `epub:type`; an end closes the innermost entry (see [`TocBuilder::pop`]). An
    /// error leaves the reading unchanged.
    pub fn nav_step(&mut self, event: NavEvent, base: &str, strict: bool) -> (r: Result<(), EpubError>)
        ensures
            r is Err ==> final(self).builder.stack@ == old(self).builder.stack@ && final(self).builder.groups@
                == old(self).builder.groups@,
            match event {
                NavEvent::Nav { epub_type, id, attributes, title } => if strict && epub_type is None {
                    r matches Err(EpubError::MissingAttribute(m)) && m@ == "nav[*epub:type]"@
                } else {
                    let t = or_empty(epub_type);
                    let s = old(self).builder.stack@;
                    let s2 = final(self).builder.stack@;
                    &&& r is Ok
                    &&& final(self).builder.groups@ == old(self).builder.groups@
                    &&& s2.len() == s.len() + 1 && s2.drop_last() == s
                    &&& s2.last().id == id && s2.last().attributes == attributes && s2.last().label == title
                    &&& opt_string_view(s2.last().kind) == Some(
                        if first_index_of(t, ' ') >= 0 {
                            t.take(first_index_of(t, ' '))
                        } else {
                            t
                        },
                    )
                    &&& s2.last().href is None && s2.last().href_raw is None && s2.last().children@.len() == 0
                },
                NavEvent::Item { id, attributes, label } => {
                    let s = old(self).builder.stack@;
                    let s2 = final(self).builder.stack@;
                    &&& r is Ok
                    &&& final(self).builder.groups@ == old(self).builder.groups@
                    &&& s2.len() == s.len() + 1 && s2.drop_last() == s
                    &&& s2.last().id == id && s2.last().attributes == attributes && s2.last().label == label
                    &&& s2.last().kind is None && s2.last().href is None && s2.last().href_raw is None
                    &&& s2.last().children@.len() == 0
                },
                NavEvent::Anchor { id, href, label, kind } => {
                    let resolved = spec_resolve_href(base@, or_empty(href));
                    if old(self).builder.stack@.len() == 0 {
                        r is Ok && final(self).builder.stack@ == old(self).builder.stack@
                            && final(self).builder.groups@ == old(self).builder.groups@
                    } else if strict && href is None {
                        r matches Err(EpubError::MissingAttribute(m)) && m@ == "a[*href]"@
                    } else if strict && uri::needs_encoding(resolved) {
                        r matches Err(EpubError::UnencodedHref(h)) && h@ == resolved
                    } else {
                        let s = old(self).builder.stack@;
                        let e = final(self).builder.stack@.last();
                        &&& r is Ok
                        &&& final(self).builder.groups@ == old(self).builder.groups@
                        &&& final(self).builder.stack@.len() == s.len()
                        &&& final(self).builder.stack@.drop_last() == s.drop_last()
                        &&& e == (EpubTocEntryData {
                            id: id,
                            href: e.href,
                            href_raw: e.href_raw,
                            label: label,
                            kind: kind,
                            ..s.last()
                        })
                        &&& opt_string_view(e.href) == Some(uri::spec_encode(resolved))
                        &&& opt_string_view(e.href_raw) == Some(or_empty(href))
                    }
                },
                NavEvent::End => r is Ok && final(self).builder.stack@.len() == if old(self).builder.stack@.len()
                    == 0 {
                    0
                } else {
                    old(self).builder.stack@.len() - 1
                },
            },
    {
        match event {
            NavEvent::Nav { epub_type, id, attributes, title } => {
                let ghost t0 = epub_type;
                let t = match require_attribute(epub_type, "nav[*epub:type]", strict) {
                    Ok(v) => v,
                    Err(e) => {
                        return Err(e);
                    },
                };
                assert(t@ =~= or_empty(t0));
                let kind = nav_root_kind(t.as_str());
                let e = EpubTocEntryData {
                    id,
                    label: title,
                    kind: Some(kind),
                    href: None,
                    href_raw: None,
                    attributes,
                    children: Vec::new(),
                };
                self.builder.push(e);
                proof {
                    assert(self.builder.stack@.drop_last() =~= old(self).builder.stack@);
                }
                Ok(())
            },
            NavEvent::Item { id, attributes, label } => {
                let e = EpubTocEntryData {
                    id,
                    label,
                    kind: None,
                    href: None,
                    href_raw: None,
                    attributes,
                    children: Vec::new(),
                };
                self.builder.push(e);
                proof {
                    assert(self.builder.stack@.drop_last() =~= old(self).builder.stack@);
                }
                Ok(())
            },
            NavEvent::Anchor { id, href, label, kind } => {
                if self.builder.stack.len() == 0 {
                    return Ok(());
                }
                let ghost h0 = href;
                let raw = match require_attribute(href, "a[*href]", strict) {
                    Ok(v) => v,
                    Err(e) => {
                        return Err(e);
                    },
                };
                assert(raw@ =~= or_empty(h0));
                let resolved = match require_href(resolve_href(base, raw.as_str()), strict) {
                    Ok(h) => h,
                    Err(e) => {
                        return Err(e);
                    },
                };
                self.builder.set_anchor(id, resolved, raw, label, kind);
                proof {
                    assert(self.builder.stack@.drop_last() =~= old(self).builder.stack@.drop_last());
                }
                Ok(())
            },
            NavEvent::End => {
                self.builder.pop(EpubVersion::epub3());
                Ok(())
            },
        }
    }
}
} // verus!
