use rbook::groups::EpubMetadataData;
use rbook::manifest::{EpubManifestData, EpubManifestEntryData, EpubManifestMut, HrefOptions};
use rbook::metadata::{EpubVersion, Version};
use rbook::overlay::{ArchiveOverlay, OverlayResource, ResourceContent};
use rbook::spine::EpubSpineData;
use rbook::toc::{
    DetachedEpubTocEntry, EpubToc, EpubTocData, EpubTocEntryData, EpubTocKey, EpubTocMut,
};

fn entry(label: &str, href: Option<&str>) -> EpubTocEntryData {
    let mut e = EpubTocEntryData::with_label(label);
    e.href = href.map(String::from);
    e.href_raw = href.map(String::from);
    e
}

fn key(kind: &str, version: EpubVersion) -> EpubTocKey {
    EpubTocKey { kind: String::from(kind), version }
}

fn toc() -> EpubTocData {
    let mut nav = entry("Contents", None);
    let mut ch1 = entry("Chapter 1", Some("/EPUB/c1.xhtml#top"));
    ch1.children.push(entry("Section 1.1", Some("/EPUB/c1.xhtml#s1")));
    nav.children.push(ch1);
    nav.children.push(entry("Chapter 2", Some("/EPUB/c2.xhtml")));
    let ncx = entry("NCX", None);
    let landmarks = entry("Guide", None);
    EpubTocData::new(vec![
        (key("toc", EpubVersion::epub3()), nav),
        (key("toc", EpubVersion::epub2()), ncx),
        (key("landmarks", EpubVersion::epub2()), landmarks),
    ])
}

fn manifest() -> EpubManifestData {
    let mut m = EpubManifestData::empty();
    let mut item = EpubManifestEntryData::empty();
    item.href = String::from("/EPUB/c1.xhtml");
    item.href_raw = String::from("c1.xhtml");
    m.insert_item(String::from("c1"), item);
    m
}

#[test]
fn toc_prefers_the_configured_version_and_falls_back() {
    let mut data = toc();
    let m = manifest();
    {
        let view = EpubToc::new(&m, &data);
        assert_eq!(view.contents().unwrap().label(), "Contents");
        assert_eq!(view.landmarks().unwrap().label(), "Guide");
        assert_eq!(view.landmarks().unwrap().version(), EpubVersion::epub2());
        assert!(view.page_list().is_none());
        let ncx = view.by_kind_version("toc", EpubVersion::Epub2(Version(2, 1))).unwrap();
        assert_eq!(ncx.label(), "NCX");
        assert_eq!(view.iter().len(), 3);
    }
    data.preferred_version = EpubVersion::epub2();
    let view = EpubToc::new(&m, &data);
    assert_eq!(view.contents().unwrap().label(), "NCX");
}

#[test]
fn toc_entries_navigate() {
    let data = toc();
    let m = manifest();
    let view = EpubToc::new(&m, &data);
    let root = view.contents().unwrap();
    assert_eq!(root.depth(), 0);
    assert_eq!(root.len(), 2);
    let ch1 = root.get(0).unwrap();
    assert_eq!(ch1.depth(), 1);
    assert_eq!(ch1.href(), Some("/EPUB/c1.xhtml#top"));
    assert_eq!(ch1.manifest_entry().unwrap().id(), "c1");
    assert!(root.get(1).unwrap().manifest_entry().is_none());
    assert!(root.manifest_entry().is_none());
    let kids = ch1.iter();
    assert_eq!(kids.len(), 1);
    assert_eq!(kids[0].depth(), 2);
    assert!(kids[0].is_empty());
    assert!(root.get(2).is_none());
}

#[test]
fn toc_editing() {
    let mut data = toc();
    let mut edit = EpubTocMut { base: "/EPUB", toc: &mut data };
    let replaced = edit
        .insert_root(
            "toc",
            EpubVersion::Epub3(Version(3, 3)),
            DetachedEpubTocEntry::new("New").href(Some(String::from("nav.xhtml"))),
        )
        .unwrap();
    assert_eq!(replaced.into_data().label, "Contents");
    assert!(edit
        .insert_root("page-list", EpubVersion::epub3(), DetachedEpubTocEntry::new("Pages"))
        .is_none());
    {
        let mut root = edit.contents_mut().unwrap();
        assert_eq!(root.set_kind(Some(String::from("other"))), None);
        root.push(DetachedEpubTocEntry::new("Child").href(Some(String::from("a/../b.xhtml"))));
        let mut child = root.get_mut(0).unwrap();
        assert_eq!(child.set_label("Renamed"), "Child");
        assert_eq!(child.set_kind(Some(String::from("chapter"))), None);
        assert_eq!(child.set_href(Some(String::from("c.xhtml"))), Some(String::from("a/../b.xhtml")));
    }
    let removed = edit.remove_by_kind_version("landmarks", EpubVersion::epub2()).unwrap();
    assert_eq!(removed.version(), EpubVersion::epub2());
    assert_eq!(data.entries.len(), 3);
    let root = &data.entries[0].1;
    assert_eq!(root.label, "New");
    assert_eq!(root.kind.as_deref(), Some("toc"));
    assert_eq!(root.href.as_deref(), Some("/EPUB/nav.xhtml"));
    assert_eq!(root.children[0].label, "Renamed");
    assert_eq!(root.children[0].href.as_deref(), Some("/EPUB/c.xhtml"));
    assert_eq!(root.children[0].kind.as_deref(), Some("chapter"));
}

#[test]
fn toc_roots_retain_extract_drain() {
    let mut data = toc();
    let mut edit = EpubTocMut { base: "/EPUB", toc: &mut data };
    let taken = edit.extract_if(|r: &(EpubTocKey, EpubTocEntryData)| r.0.version == EpubVersion::epub2());
    assert_eq!(taken.len(), 2);
    edit.retain(|r: &(EpubTocKey, EpubTocEntryData)| r.1.label != "Contents");
    let drained = edit.drain();
    assert_eq!(drained.len(), 1);
    assert!(data.entries.is_empty());
}

#[test]
fn manifest_href_change_moves_content_and_toc() {
    let mut m = manifest();
    let mut overlay = ArchiveOverlay::new();
    overlay.insert(String::from("/EPUB/c1.xhtml"), ResourceContent::Memory(vec![1, 2]));
    let mut meta = EpubMetadataData::empty();
    let mut spine = EpubSpineData::empty();
    let mut toc = toc();
    let mut edit = EpubManifestMut {
        base: "/EPUB",
        archive: &mut overlay,
        manifest: &mut m,
        metadata: &mut meta,
        spine: &mut spine,
        toc: &mut toc,
    };
    let old = edit.set_href("c1", HrefOptions::new(String::from("text/one.xhtml")).cascade(true));
    assert_eq!(old, Some(String::from("c1.xhtml")));
    assert!(edit.set_href("nope", HrefOptions::new(String::from("x"))).is_none());
    assert_eq!(edit.set_media_type("c1", "application/xhtml+xml"), Some(String::new()));
    assert_eq!(edit.set_fallback("c1", Some(String::from("c2"))), Some(None));
    assert_eq!(edit.set_media_overlay("c1", None), Some(None));
    let (_, item) = m.by_id("c1").unwrap();
    assert_eq!(item.href, "/EPUB/text/one.xhtml");
    assert_eq!(item.href_raw, "text/one.xhtml");
    assert_eq!(item.media_type, "application/xhtml+xml");
    assert_eq!(item.fallback.as_deref(), Some("c2"));
    assert!(overlay.get("/EPUB/c1.xhtml").is_none());
    assert!(matches!(
        overlay.get("/EPUB/text/one.xhtml"),
        Some(OverlayResource::Content(ResourceContent::Memory(v))) if v == &vec![1, 2]
    ));
    let nav = &toc.entries[0].1;
    assert_eq!(nav.children[0].href.as_deref(), Some("/EPUB/text/one.xhtml#top"));
    assert_eq!(nav.children[0].children[0].href.as_deref(), Some("/EPUB/text/one.xhtml#s1"));
    assert_eq!(nav.children[1].href.as_deref(), Some("/EPUB/c2.xhtml"));
}

#[test]
fn toc_and_item_to_detached() {
    let data = toc();
    let m = manifest();
    let view = EpubToc::new(&m, &data);
    let copy = view.contents().unwrap().to_detached();
    assert_eq!(copy.version(), EpubVersion::epub3());
    let copy = copy.into_data();
    assert_eq!(copy.label, "Contents");
    assert_eq!(copy.children.len(), 2);
    assert_eq!(copy.children[0].children[0].label, "Section 1.1");
    let item = rbook::manifest::EpubManifest::new(&m, &EpubMetadataData::empty())
        .by_id("c1")
        .unwrap()
        .to_detached();
    let (id, d, content) = item.into_parts();
    assert_eq!(id, "c1");
    assert_eq!(d.href, "/EPUB/c1.xhtml");
    assert!(content.is_none());
}

#[test]
fn toc_flatten_is_depth_first() {
    let data = toc();
    let m = manifest();
    let view = EpubToc::new(&m, &data);
    let root = view.contents().unwrap();
    let flat: Vec<(String, usize)> = root
        .flatten()
        .iter()
        .map(|e| (e.label().to_string(), e.depth()))
        .collect();
    assert_eq!(
        flat,
        vec![
            (String::from("Chapter 1"), 1),
            (String::from("Section 1.1"), 2),
            (String::from("Chapter 2"), 1)
        ]
    );
    assert!(root.get(1).unwrap().flatten().is_empty());
}

#[test]
fn toc_entry_depth_and_size() {
    let data = toc();
    let m = manifest();
    let view = EpubToc::new(&m, &data);
    let root = view.contents().unwrap();
    assert!(root.is_root());
    assert_eq!(root.total_len(), 3);
    assert_eq!(root.max_depth(), 2);
    let ch1 = root.get(0).unwrap();
    assert!(!ch1.is_root());
    assert_eq!(ch1.total_len(), 1);
    assert_eq!(ch1.max_depth(), 1);
    let leaf = root.get(1).unwrap();
    assert_eq!(leaf.total_len(), 0);
    assert_eq!(leaf.max_depth(), 0);
}
