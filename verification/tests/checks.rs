use rbook::checks::{
    assert_toc, finish_tocs, require_href, guide_reference, package_data, take_manifest, take_metadata, take_package, take_spine, guide_toc, is_linear, manifest_item, spine_itemref, lowercase_media_type, nav_root_kind, ncx_root_kind, package_file, require_attribute,
    require_idref, require_item_id, require_toc, requires_manifest, toc_locations, TocBuilder,
};
use rbook::element::{Attributes, Properties, TextDirection};
use rbook::metadata::{EpubMetaEntryData, EpubMetaEntryKind};
use rbook::organize::{organize_metadata, ParsedMeta, PendingRefinements};
use rbook::errors::EpubError;
use rbook::manifest::{EpubManifestData, EpubManifestEntryData};
use rbook::metadata::EpubVersion;
use rbook::options::EpubParseConfig;
use rbook::toc::{EpubTocData, EpubTocEntryData, EpubTocKey};

fn item(href: &str, properties: &str) -> EpubManifestEntryData {
    let mut e = EpubManifestEntryData::empty();
    e.href = String::from(href);
    e.href_raw = String::from(href);
    e.properties = Properties::from_string(String::from(properties));
    e
}

fn manifest() -> EpubManifestData {
    let mut m = EpubManifestData::empty();
    m.insert_item(String::from("ncx"), item("/OEBPS/toc.ncx", ""));
    m.insert_item(String::from("c1"), item("/OEBPS/c1.xhtml", ""));
    m.insert_item(String::from("nav"), item("/OEBPS/nav.xhtml", "scripted nav"));
    m
}

fn strict() -> EpubParseConfig {
    let mut c = EpubParseConfig::default();
    c.strict = true;
    c
}

fn key(kind: &str, version: EpubVersion) -> EpubTocKey {
    EpubTocKey { kind: String::from(kind), version }
}

#[test]
fn missing_attribute_is_refused_only_when_strict() {
    let ok = require_attribute(Some(String::from("x")), "a[*b]", true).unwrap();
    assert_eq!(ok, "x");
    match require_attribute(None, "a[*b]", true) {
        Err(EpubError::MissingAttribute(m)) => assert_eq!(m, "a[*b]"),
        other => panic!("unexpected {:?}", other),
    }
    assert_eq!(require_attribute(None, "a[*b]", false).unwrap(), "");
}

#[test]
fn item_ids_must_be_unique_when_strict() {
    let m = manifest();
    match require_item_id(Some(String::from("c1")), &m, true) {
        Err(EpubError::DuplicateItemId(d)) => assert_eq!(d, "c1"),
        other => panic!("unexpected {:?}", other),
    }
    assert_eq!(require_item_id(Some(String::from("c1")), &m, false).unwrap(), "c1");
    assert_eq!(require_item_id(Some(String::from("c9")), &m, true).unwrap(), "c9");
    assert!(matches!(
        require_item_id(None, &m, true),
        Err(EpubError::MissingAttribute(_))
    ));
}

#[test]
fn media_types_are_lowered() {
    assert_eq!(lowercase_media_type("Application/XHTML+xml"), "application/xhtml+xml");
    assert_eq!(lowercase_media_type(""), "");
}

#[test]
fn linear_unless_no() {
    assert!(is_linear(None));
    assert!(is_linear(Some("yes")));
    assert!(!is_linear(Some("no")));
    assert!(!is_linear(Some("YES")));
}

#[test]
fn references_checked_only_in_strict_reading() {
    let m = manifest();
    let cfg = strict();
    assert!(requires_manifest(Some(&m), &cfg).unwrap().is_some());
    assert!(matches!(requires_manifest(None, &cfg), Err(EpubError::NoManifestFound)));
    assert!(requires_manifest(None, &EpubParseConfig::default()).unwrap().is_none());

    assert_eq!(require_idref(Some(String::from("c1")), Some(&m), &cfg).unwrap(), "c1");
    match require_idref(Some(String::from("zz")), Some(&m), &cfg) {
        Err(EpubError::InvalidIdref(d)) => assert_eq!(d, "zz"),
        other => panic!("unexpected {:?}", other),
    }
    assert_eq!(
        require_idref(Some(String::from("zz")), Some(&m), &EpubParseConfig::default()).unwrap(),
        "zz"
    );
    assert_eq!(require_idref(None, Some(&m), &EpubParseConfig::default()).unwrap(), "");
}

#[test]
fn ncx_reference_rules() {
    let m = manifest();
    let cfg = strict();
    assert!(matches!(
        require_toc(None, Some(&m), &cfg, EpubVersion::epub2()),
        Err(EpubError::NoNcxReference)
    ));
    assert_eq!(require_toc(None, Some(&m), &cfg, EpubVersion::epub3()).unwrap(), None);
    assert_eq!(
        require_toc(Some(String::from("ncx")), Some(&m), &cfg, EpubVersion::epub2()).unwrap(),
        Some(String::from("ncx"))
    );
    match require_toc(Some(String::from("nope")), Some(&m), &cfg, EpubVersion::epub2()) {
        Err(EpubError::InvalidNcxReference(d)) => assert_eq!(d, "nope"),
        other => panic!("unexpected {:?}", other),
    }
    assert!(matches!(
        require_toc(Some(String::from("ncx")), None, &cfg, EpubVersion::epub2()),
        Err(EpubError::NoManifestFound)
    ));
}

#[test]
fn package_file_is_the_first_package_rootfile() {
    let rootfiles = vec![
        (Some(String::from("text/plain")), Some(String::from("notes.txt"))),
        (Some(String::from("application/oebps-package+xml")), None),
        (
            Some(String::from("application/oebps-package+xml")),
            Some(String::from("OEBPS/content.opf")),
        ),
    ];
    assert_eq!(package_file(&rootfiles).unwrap(), "/OEBPS/content.opf");
    let none = vec![(None, Some(String::from("OEBPS/content.opf")))];
    assert!(matches!(package_file(&none), Err(EpubError::NoOpfReference)));
}

#[test]
fn toc_locations_follow_the_preference() {
    let m = manifest();
    let mut cfg = EpubParseConfig::default();
    let locs = toc_locations(Some(&m), Some("ncx"), &cfg, EpubVersion::epub3()).unwrap();
    assert_eq!(locs.len(), 1);
    assert_eq!(locs[0].location, "/OEBPS/nav.xhtml");
    assert_eq!(locs[0].version, EpubVersion::epub3());

    // An EPUB 2 publication prefers its NCX.
    let locs = toc_locations(Some(&m), Some("ncx"), &cfg, EpubVersion::epub2()).unwrap();
    assert_eq!(locs.len(), 1);
    assert_eq!(locs[0].location, "/OEBPS/toc.ncx");

    cfg.retain_variants = true;
    let locs = toc_locations(Some(&m), Some("ncx"), &cfg, EpubVersion::epub3()).unwrap();
    assert_eq!(locs.len(), 2);
    assert_eq!(locs[0].location, "/OEBPS/toc.ncx");
    assert_eq!(locs[1].location, "/OEBPS/nav.xhtml");

    cfg.parse_toc = false;
    assert!(toc_locations(Some(&m), Some("ncx"), &cfg, EpubVersion::epub3()).unwrap().is_empty());
}

#[test]
fn toc_locations_fall_back_and_refuse() {
    let mut m = EpubManifestData::empty();
    m.insert_item(String::from("ncx"), item("/toc.ncx", ""));
    let locs = toc_locations(Some(&m), Some("ncx"), &EpubParseConfig::default(), EpubVersion::epub3())
        .unwrap();
    assert_eq!(locs.len(), 1);
    assert_eq!(locs[0].version, EpubVersion::epub2());

    let empty = EpubManifestData::empty();
    assert!(matches!(
        toc_locations(Some(&empty), None, &strict(), EpubVersion::epub3()),
        Err(EpubError::NoXhtmlTocReference)
    ));
    assert!(toc_locations(Some(&empty), None, &EpubParseConfig::default(), EpubVersion::epub3())
        .unwrap()
        .is_empty());
}

#[test]
fn a_toc_of_the_version_read_is_required_when_strict() {
    let groups = vec![(key("toc", EpubVersion::epub3()), EpubTocEntryData::with_label("c"))];
    assert!(assert_toc(&groups, EpubVersion::epub3(), true).is_ok());
    assert!(matches!(
        assert_toc(&groups, EpubVersion::epub2(), true),
        Err(EpubError::NoTocFound)
    ));
    assert!(assert_toc(&groups, EpubVersion::epub2(), false).is_ok());
}

#[test]
fn epub2_guide_dropped_when_landmarks_exist() {
    let entries = vec![
        (key("landmarks", EpubVersion::epub2()), EpubTocEntryData::with_label("guide")),
        (key("landmarks", EpubVersion::epub3()), EpubTocEntryData::with_label("landmarks")),
    ];
    let mut toc = EpubTocData::new(entries);
    finish_tocs(&mut toc, &EpubParseConfig::default());
    assert_eq!(toc.entries.len(), 1);
    assert_eq!(toc.entries[0].1.label, "landmarks");

    let entries = vec![
        (key("landmarks", EpubVersion::epub2()), EpubTocEntryData::with_label("guide")),
        (key("landmarks", EpubVersion::epub3()), EpubTocEntryData::with_label("landmarks")),
    ];
    let mut toc = EpubTocData::new(entries);
    let mut cfg = EpubParseConfig::default();
    cfg.retain_variants = true;
    finish_tocs(&mut toc, &cfg);
    assert_eq!(toc.entries.len(), 2);
}

#[test]
fn builder_nests_entries() {
    let mut b = TocBuilder::new();
    let mut root = EpubTocEntryData::with_label("");
    root.kind = Some(String::from("toc"));
    b.push(root);
    b.push(EpubTocEntryData::with_label(""));
    b.set_label(String::from("Chapter 1"));
    b.set_location(String::from("/c1.xhtml"), String::from("c1.xhtml"));
    b.pop(EpubVersion::epub2());
    b.pop(EpubVersion::epub2());
    b.pop(EpubVersion::epub2());
    b.set_ncx_title(String::from("Title"));
    let toc = b.into_toc();
    assert_eq!(toc.entries.len(), 1);
    assert_eq!(toc.entries[0].0.kind, "toc");
    assert_eq!(toc.entries[0].1.label, "Title");
    let child = &toc.entries[0].1.children[0];
    assert_eq!(child.label, "Chapter 1");
    assert_eq!(child.href.as_deref(), Some("/c1.xhtml"));
    assert_eq!(toc.preferred_version, EpubVersion::epub3());
}

#[test]
fn root_kinds() {
    assert_eq!(nav_root_kind("toc"), "toc");
    assert_eq!(nav_root_kind("landmarks other"), "landmarks");
    assert_eq!(nav_root_kind(""), "");
    assert_eq!(ncx_root_kind(true), "toc");
    assert_eq!(ncx_root_kind(false), "page-list");
}

fn pending_for_item1() -> PendingRefinements {
    let mut data = EpubMetaEntryData::with_kind(EpubMetaEntryKind::Meta { version: EpubVersion::epub3() });
    data.property = String::from("media:duration");
    data.value = String::from("0:32");
    let metas = vec![ParsedMeta { id: None, refines: Some(String::from("item1")), data }];
    organize_metadata(metas).unwrap().1
}

#[test]
fn manifest_items_from_attributes() {
    let m = manifest();
    let mut pending = pending_for_item1();
    let (id, item) = manifest_item(
        Some(String::from("item1")),
        Some(String::from("text/../c9.xhtml")),
        Some(String::from("Application/XHTML+XML")),
        Some(String::from("c1")),
        None,
        Some(String::from("svg")),
        Attributes::empty(),
        &m,
        &mut pending,
        "/OEBPS",
        true,
    )
    .unwrap();
    assert_eq!(id, "item1");
    assert_eq!(item.href, "/OEBPS/c9.xhtml");
    assert_eq!(item.href_raw, "text/../c9.xhtml");
    assert_eq!(item.media_type, "application/xhtml+xml");
    assert_eq!(item.fallback.as_deref(), Some("c1"));
    assert_eq!(item.refinements.0.len(), 1);
    assert_eq!(item.refinements.0[0].value, "0:32");
    assert!(pending.take_refinements("item1").is_none());

    let mut pending = pending_for_item1();
    match manifest_item(Some(String::from("c1")), None, None, None, None, None, Attributes::empty(), &m, &mut pending, "/OEBPS", true) {
        Err(EpubError::DuplicateItemId(d)) => assert_eq!(d, "c1"),
        other => panic!("unexpected {:?}", other.is_ok()),
    }
    match manifest_item(Some(String::from("x")), Some(String::from("x.xhtml")), None, None, None, None, Attributes::empty(), &m, &mut pending, "/OEBPS", true) {
        Err(EpubError::MissingAttribute(a)) => assert_eq!(a, "manifest > item[*media_type]"),
        other => panic!("unexpected {:?}", other.is_ok()),
    }
    let (id, item) = manifest_item(None, None, None, None, None, None, Attributes::empty(), &m, &mut pending, "/OEBPS", false).unwrap();
    assert_eq!(id, "");
    assert_eq!(item.href_raw, "");
    assert_eq!(item.media_type, "");
    assert!(pending.take_refinements("item1").is_some());
}

#[test]
fn spine_itemrefs_from_attributes() {
    let m = manifest();
    let mut pending = pending_for_item1();
    let e = spine_itemref(
        Some(String::from("c1")),
        Some(String::from("item1")),
        None,
        Some("no"),
        Attributes::empty(),
        Some(&m),
        &mut pending,
        &strict(),
    )
    .unwrap();
    assert_eq!(e.idref, "c1");
    assert!(!e.linear);
    assert_eq!(e.refinements.0.len(), 1);
    match spine_itemref(Some(String::from("zz")), None, None, None, Attributes::empty(), Some(&m), &mut pending, &strict()) {
        Err(EpubError::InvalidIdref(d)) => assert_eq!(d, "zz"),
        other => panic!("unexpected {:?}", other.is_ok()),
    }
    let e = spine_itemref(None, None, None, None, Attributes::empty(), None, &mut pending, &EpubParseConfig::default()).unwrap();
    assert_eq!(e.idref, "");
    assert!(e.linear);
    assert!(e.refinements.0.is_empty());
}

#[test]
fn guide_references_become_landmarks() {
    let r = guide_reference(
        Some(String::from("cover.xhtml")),
        Some(String::from("Cover")),
        Some(String::from("cover")),
        None,
        Attributes::empty(),
        "/OEBPS",
        true,
    )
    .unwrap();
    assert_eq!(r.href.as_deref(), Some("/OEBPS/cover.xhtml"));
    assert_eq!(r.href_raw.as_deref(), Some("cover.xhtml"));
    assert_eq!(r.label, "Cover");
    assert_eq!(r.kind.as_deref(), Some("cover"));
    match guide_reference(Some(String::from("a")), None, None, None, Attributes::empty(), "/", true) {
        Err(EpubError::MissingAttribute(a)) => assert_eq!(a, "guide > reference[*title]"),
        other => panic!("unexpected {:?}", other.is_ok()),
    }
    let lenient = guide_reference(None, None, None, None, Attributes::empty(), "/OEBPS", false).unwrap();
    assert_eq!(lenient.href.as_deref(), Some(""));
    assert_eq!(lenient.kind.as_deref(), Some(""));
    let toc = guide_toc(Attributes::empty(), vec![r]);
    assert_eq!(toc.entries.len(), 1);
    assert_eq!(toc.entries[0].0.kind, "landmarks");
    assert_eq!(toc.entries[0].0.version, EpubVersion::epub2());
    assert_eq!(toc.entries[0].1.children[0].label, "Cover");
}

#[test]
fn package_element_values() {
    let p = package_data(
        Some(String::from("3.0")),
        Some(String::from("uid")),
        Some(String::from("en")),
        Some(String::from("foaf: http://xmlns.com/foaf/spec/ dbp: http://dbpedia.org/ontology/")),
        Some(String::from("rtl")),
        Attributes::empty(),
        true,
    )
    .unwrap();
    assert_eq!(p.version.raw, "3.0");
    assert_eq!(p.version.parsed, EpubVersion::epub3());
    assert_eq!(p.unique_identifier, "uid");
    assert_eq!(p.language.as_deref(), Some("en"));
    assert_eq!(p.text_direction, TextDirection::RightToLeft);
    assert_eq!(p.location, "");
    match package_data(None, None, None, None, None, Attributes::empty(), true) {
        Err(EpubError::MissingAttribute(m)) => assert_eq!(m, "package[*version]"),
        other => panic!("unexpected {:?}", other.is_ok()),
    }
    match package_data(Some(String::from("x")), Some(String::from("u")), None, None, None, Attributes::empty(), true) {
        Err(EpubError::InvalidVersion(v)) => assert_eq!(v, "x"),
        other => panic!("unexpected {:?}", other.is_ok()),
    }
    match package_data(Some(String::from("3.0")), Some(String::from("u")), None, Some(String::from("bad")), None, Attributes::empty(), true) {
        Err(EpubError::InvalidPrefix(v)) => assert_eq!(v, "bad"),
        other => panic!("unexpected {:?}", other.is_ok()),
    }
    let lenient = package_data(Some(String::from("x")), None, None, Some(String::from("bad")), Some(String::from("up")), Attributes::empty(), false).unwrap();
    assert_eq!(lenient.unique_identifier, "");
    assert_eq!(lenient.text_direction, TextDirection::Auto);
}

#[test]
fn sections_are_required_only_when_read_and_strict() {
    assert!(matches!(take_package(None), Err(EpubError::NoPackageFound)));
    let cfg = strict();
    assert!(matches!(take_metadata(None, &cfg), Err(EpubError::NoMetadataFound)));
    assert!(matches!(take_manifest(None, &cfg), Err(EpubError::NoManifestFound)));
    assert!(matches!(take_spine(None, &cfg), Err(EpubError::NoSpineFound)));
    let lenient = EpubParseConfig::default();
    assert_eq!(take_manifest(None, &lenient).unwrap().len(), 0);
    assert_eq!(take_spine(None, &lenient).unwrap().entries.len(), 0);
    let mut skip = strict();
    skip.parse_manifest = false;
    assert_eq!(take_manifest(Some(manifest()), &skip).unwrap().len(), 0);
    assert_eq!(take_manifest(Some(manifest()), &cfg).unwrap().len(), 3);
}

#[test]
fn builder_applies_nav_links() {
    let mut b = TocBuilder::new();
    b.set_anchor(None, String::from("/x.xhtml"), String::from("x.xhtml"), String::from("X"), None);
    b.push(EpubTocEntryData::with_label("group"));
    b.set_anchor(
        Some(String::from("a1")),
        String::from("/c1.xhtml"),
        String::from("c1.xhtml"),
        String::from("Chapter"),
        Some(String::from("chapter")),
    );
    let top = &b.stack[0];
    assert_eq!(top.id.as_deref(), Some("a1"));
    assert_eq!(top.label, "Chapter");
    assert_eq!(top.kind.as_deref(), Some("chapter"));
    assert_eq!(top.href_raw.as_deref(), Some("c1.xhtml"));
}

#[test]
fn manifest_item_locations_must_be_encoded_when_strict() {
    let m = manifest();
    let mut pending = pending_for_item1();
    match manifest_item(
        Some(String::from("n")),
        Some(String::from("a b.xhtml")),
        Some(String::from("application/xhtml+xml")),
        None, None, None, Attributes::empty(), &m, &mut pending, "/OEBPS", true,
    ) {
        Err(EpubError::UnencodedHref(h)) => assert_eq!(h, "/OEBPS/a b.xhtml"),
        other => panic!("unexpected {:?}", other.is_ok()),
    }
    let (_, item) = manifest_item(
        Some(String::from("n")),
        Some(String::from("a b.xhtml")),
        Some(String::from("application/xhtml+xml")),
        None, None, None, Attributes::empty(), &m, &mut pending, "/OEBPS", false,
    )
    .unwrap();
    assert_eq!(item.href, "/OEBPS/a%20b.xhtml");
    assert_eq!(require_href(String::from("/é.xhtml"), false).unwrap(), "/%C3%A9.xhtml");
    assert_eq!(require_href(String::from("/a%20b.xhtml#x"), true).unwrap(), "/a%20b.xhtml#x");
}
