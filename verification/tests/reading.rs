use rbook::element::Attributes;
use rbook::errors::EpubError;
use rbook::groups::EpubMetadataData;
use rbook::manifest::EpubManifestData;
use rbook::metadata::EpubVersion;
use rbook::options::EpubParseConfig;
use rbook::package::EpubPackageData;
use rbook::reading::{finish_opf, opf_step, NavEvent, NavReader, NcxEvent, NcxReader, OpfAction, OpfParts};
use rbook::spine::EpubSpineData;

fn strict() -> EpubParseConfig {
    let mut c = EpubParseConfig::default();
    c.strict = true;
    c
}

#[test]
fn opf_elements_start_their_parts() {
    let mut cfg = EpubParseConfig::default();
    assert_eq!(OpfAction::Package, opf_step(&cfg, "package"));
    assert_eq!(OpfAction::Metadata, opf_step(&cfg, "metadata"));
    assert_eq!(OpfAction::Guide, opf_step(&cfg, "guide"));
    assert_eq!(OpfAction::Skip, opf_step(&cfg, "bindings"));
    cfg.parse_manifest = false;
    assert_eq!(OpfAction::Skip, opf_step(&cfg, "manifest"));
}

fn parts(package: bool) -> OpfParts {
    OpfParts {
        package: if package {
            Some(EpubPackageData::new(String::from("/OEBPS/content.opf"), EpubVersion::epub2()))
        } else {
            None
        },
        metadata: Some(EpubMetadataData::empty()),
        manifest: Some(EpubManifestData::empty()),
        spine: Some((EpubSpineData::empty(), None)),
        guide: None,
    }
}

#[test]
fn finishing_a_package_document() {
    let p = finish_opf(parts(true), &strict()).unwrap();
    assert!(p.toc_locations.is_empty());
    assert!(p.guide.entries.is_empty());
    // The tables of contents are looked for first: without a package element the
    // version read is EPUB 3, which requires a navigation document.
    assert!(matches!(finish_opf(parts(false), &strict()), Err(EpubError::NoXhtmlTocReference)));
    assert!(matches!(finish_opf(parts(false), &EpubParseConfig::default()), Err(EpubError::NoPackageFound)));
    let mut no_spine = parts(true);
    no_spine.spine = None;
    assert!(matches!(finish_opf(no_spine, &strict()), Err(EpubError::NoSpineFound)));
    let mut lenient = parts(true);
    lenient.spine = None;
    assert!(finish_opf(lenient, &EpubParseConfig::default()).is_ok());
}

#[test]
fn reading_an_ncx_document() {
    let mut r = NcxReader::new();
    r.ncx_step(NcxEvent::DocTitle(String::from("Book")), "/OEBPS", true).unwrap();
    r.ncx_step(NcxEvent::Root { nav_map: true, id: None, attributes: Attributes::empty() }, "/OEBPS", true).unwrap();
    r.ncx_step(NcxEvent::NavPoint { id: Some(String::from("np1")), attributes: Attributes::empty() }, "/OEBPS", true)
        .unwrap();
    r.ncx_step(NcxEvent::Label(String::from("Chapter 1")), "/OEBPS", true).unwrap();
    r.ncx_step(NcxEvent::Content(Some(String::from("text/c1.xhtml#a"))), "/OEBPS", true).unwrap();
    assert!(matches!(
        r.ncx_step(NcxEvent::Content(Some(String::from("a b.xhtml"))), "/OEBPS", true),
        Err(EpubError::UnencodedHref(_))
    ));
    r.ncx_step(NcxEvent::End, "/OEBPS", true).unwrap();
    assert!(matches!(
        r.ncx_step(NcxEvent::PageTarget { id: None, kind: None, attributes: Attributes::empty() }, "/OEBPS", true),
        Err(EpubError::MissingAttribute(_))
    ));
    r.ncx_step(NcxEvent::End, "/OEBPS", true).unwrap();
    let toc = r.finish();
    assert_eq!(1, toc.entries.len());
    assert_eq!("toc", toc.entries[0].0.kind);
    assert_eq!(EpubVersion::epub2(), toc.entries[0].0.version);
    let root = &toc.entries[0].1;
    assert_eq!("Book", root.label);
    assert_eq!("Chapter 1", root.children[0].label);
    assert_eq!(Some("/OEBPS/text/c1.xhtml#a"), root.children[0].href.as_deref());
    assert_eq!(Some("text/c1.xhtml#a"), root.children[0].href_raw.as_deref());
}

#[test]
fn reading_a_navigation_document() {
    let mut r = NavReader::new();
    assert!(matches!(
        r.nav_step(
            NavEvent::Nav { epub_type: None, id: None, attributes: Attributes::empty(), title: String::new() },
            "/OEBPS",
            true
        ),
        Err(EpubError::MissingAttribute(_))
    ));
    r.nav_step(
        NavEvent::Nav {
            epub_type: Some(String::from("toc other")),
            id: None,
            attributes: Attributes::empty(),
            title: String::from("Contents"),
        },
        "/OEBPS",
        true,
    )
    .unwrap();
    r.nav_step(NavEvent::Item { id: None, attributes: Attributes::empty(), label: String::new() }, "/OEBPS", true)
        .unwrap();
    r.nav_step(
        NavEvent::Anchor {
            id: Some(String::from("a1")),
            href: Some(String::from("c1.xhtml")),
            label: String::from("One"),
            kind: None,
        },
        "/OEBPS",
        true,
    )
    .unwrap();
    r.nav_step(NavEvent::End, "/OEBPS", true).unwrap();
    r.nav_step(NavEvent::End, "/OEBPS", true).unwrap();
    let toc = r.builder.into_toc();
    assert_eq!("toc", toc.entries[0].0.kind);
    assert_eq!(EpubVersion::epub3(), toc.entries[0].0.version);
    assert_eq!("Contents", toc.entries[0].1.label);
    assert_eq!("One", toc.entries[0].1.children[0].label);
    assert_eq!(Some("/OEBPS/c1.xhtml"), toc.entries[0].1.children[0].href.as_deref());
}
