use rbook::toc::EpubTocData;
use rbook::groups::EpubMetadataData;
use rbook::manifest::{
    cascade_new_id, update_entry_id, DetachedEpubManifestEntry, EpubManifest, EpubManifestData,
    EpubManifestEntryData, EpubManifestMut, HrefOptions, IdOptions,
};
use rbook::metawrite::DetachedEpubMetaEntry;
use rbook::overlay::{ArchiveOverlay, OverlayResource, ResourceContent};
use rbook::spine::{DetachedEpubSpineEntry, EpubSpineData, PageDirection};
use rbook::errors::EpubError;
use rbook::resource::ResourceKind;

fn item(href: &str, fallback: Option<&str>) -> EpubManifestEntryData {
    let mut d = EpubManifestEntryData::empty();
    d.href = String::from(href);
    d.href_raw = String::from(href);
    d.media_type = String::from("application/xhtml+xml");
    d.fallback = fallback.map(String::from);
    d
}

fn manifest() -> EpubManifestData {
    let mut m = EpubManifestData::empty();
    m.insert_item(String::from("c1"), item("/EPUB/c1.xhtml", None));
    m.insert_item(String::from("c2"), item("/EPUB/c2.xhtml", Some("c1")));
    m.insert_item(String::from("c3"), item("/EPUB/c3.xhtml", Some("missing")));
    m
}

#[test]
fn unique_ids_and_hrefs() {
    let m = manifest();
    assert_eq!("new", m.generate_unique_id("new"));
    assert_eq!("c1-1", m.generate_unique_id("c1"));
    let mut m2 = manifest();
    m2.insert_item(String::from("c1-1"), item("/EPUB/c1-1.xhtml", None));
    assert_eq!("c1-2", m2.generate_unique_id("c1"));
    assert_eq!("/EPUB/c11.xhtml", m.generate_unique_href("/EPUB/c1.xhtml"));
    assert_eq!("/EPUB/free.xhtml", m.generate_unique_href("/EPUB/free.xhtml"));
}

#[test]
fn dangling_references_are_dropped() {
    let mut m = manifest();
    m.remove_non_existent_references();
    let meta = EpubMetadataData::empty();
    let v = EpubManifest::new(&m, &meta);
    assert_eq!(Some("c1"), v.by_id("c2").unwrap().fallback());
    assert_eq!(None, v.by_id("c3").unwrap().fallback());
}

#[test]
fn lookups() {
    let m = manifest();
    let meta = EpubMetadataData::empty();
    let v = EpubManifest::new(&m, &meta);
    assert_eq!(3, v.len());
    assert!(!v.is_empty());
    assert_eq!("c2", v.by_href("/EPUB/c2.xhtml").unwrap().id());
    assert!(v.by_href("/nope").is_none());
    let ids: Vec<&str> = v.iter().iter().map(|e| e.id()).collect();
    assert_eq!(vec!["c1", "c2", "c3"], ids);
}

#[test]
fn cover_image_by_property_then_epub2_meta() {
    let mut m = manifest();
    let mut meta = EpubMetadataData::empty();
    meta.push_entry(DetachedEpubMetaEntry::meta_name("cover").value("c3").into_data());
    {
        let v = EpubManifest::new(&m, &meta);
        assert_eq!("c3", v.cover_image().unwrap().id());
    }
    let mut img = item("/EPUB/cover.png", None);
    img.properties.insert("cover-image");
    m.insert_item(String::from("img"), img);
    let v = EpubManifest::new(&m, &meta);
    assert_eq!("img", v.cover_image().unwrap().id());
    assert_eq!(1, v.by_property("cover-image").len());
}

#[test]
fn renaming_an_item_cascades() {
    let mut m = manifest();
    let mut spine = EpubSpineData::new(
        PageDirection::Default,
        vec![DetachedEpubSpineEntry::new("c1").into_data(), DetachedEpubSpineEntry::new("c2").into_data()],
    );
    let mut meta = EpubMetadataData::empty();
    let r = update_entry_id(&mut m, &mut spine, &mut meta, 0, String::from("intro"), true);
    assert_eq!("c1", r.unwrap());
    let v = EpubManifest::new(&m, &meta);
    assert_eq!("intro", v.iter()[0].id());
    assert_eq!(Some("intro"), v.by_id("c2").unwrap().fallback());
    assert_eq!("intro", spine.entries[0].idref);
    assert_eq!("c2", spine.entries[1].idref);
}

#[test]
fn renaming_to_a_taken_id_is_refused() {
    let mut m = manifest();
    let mut spine = EpubSpineData::empty();
    let mut meta = EpubMetadataData::empty();
    match update_entry_id(&mut m, &mut spine, &mut meta, 0, String::from("c2"), true) {
        Err(EpubError::DuplicateItemId(id)) => assert_eq!("c2", id),
        _ => panic!("expected a duplicate id error"),
    }
}

#[test]
fn cascade_updates_epub2_cover_entry_with_that_id() {
    let mut m = manifest();
    let mut spine = EpubSpineData::empty();
    let mut meta = EpubMetadataData::empty();
    meta.push_entry(DetachedEpubMetaEntry::meta_name("cover").id(Some(String::from("c1"))).value("c1").into_data());
    cascade_new_id(&mut m, &mut spine, &mut meta, "c1", "cover-page");
    assert_eq!("cover-page", meta.epub2_cover_image_id().unwrap());
}

#[test]
fn push_resolves_and_stores_content() {
    let mut m = manifest();
    let mut overlay = ArchiveOverlay::new();
    let mut meta = EpubMetadataData::empty();
    let mut spine = EpubSpineData::empty();
    let mut toc = EpubTocData::empty();
    let mut edit = EpubManifestMut {
        base: "/EPUB",
        archive: &mut overlay,
        manifest: &mut m,
        metadata: &mut meta,
        spine: &mut spine,
        toc: &mut toc,
    };
    let d = DetachedEpubManifestEntry::new("style")
        .href("css/../styles/main.css")
        .media_type("text/css")
        .property("x y")
        .content(ResourceContent::Memory(vec![7]));
    edit.push(d);
    let removed = edit.remove_by_id("c2").unwrap();
    assert!(removed.content_ref().is_none());
    assert!(edit.set_id("c3", IdOptions::new(String::from("c1")).cascade(false)).is_some());
    let v = EpubManifest::new(edit.manifest, edit.metadata);
    let style = v.by_id("style").unwrap();
    assert_eq!("/EPUB/styles/main.css", style.href().as_str());
    assert_eq!("css/../styles/main.css", style.href_raw().as_str());
    assert!(style.properties().has_property("y"));
    assert_eq!("c1-1", v.iter()[1].id());
    match overlay.get("/EPUB/styles/main.css") {
        Some(OverlayResource::Content(ResourceContent::Memory(b))) => assert_eq!(&vec![7u8], b),
        _ => panic!("content should be stored at the resolved location"),
    }
}

#[test]
fn options_builders() {
    let i = IdOptions::new(String::from("a")).cascade(false);
    assert!(!i.cascade);
    let h = HrefOptions::new(String::from("b.xhtml"));
    assert!(h.cascade);
    assert_eq!("b.xhtml", h.href);
}

#[test]
fn detached_item_builders() {
    let mut d = DetachedEpubManifestEntry::new("x")
        .id("y")
        .href("a b.xhtml")
        .media_type("application/xhtml+xml")
        .fallback(Some(String::from("z")))
        .media_overlay(None)
        .refinement(DetachedEpubMetaEntry::meta("role").value("r"));
    assert!(d.content_mut().is_none());
    let (id, data, content) = d.into_parts();
    assert_eq!("y", id);
    assert_eq!("", data.href);
    assert_eq!("a b.xhtml", data.href_raw);
    assert_eq!(Some(String::from("z")), data.fallback);
    assert_eq!(1, data.refinements.0.len());
    assert!(content.is_none());
}

#[test]
fn fallback_chains_stop_at_cycles() {
    let mut m = EpubManifestData::empty();
    m.insert_item(String::from("webm"), item("/EPUB/cover.webm", Some("avif")));
    m.insert_item(String::from("avif"), item("/EPUB/cover.avif", Some("png")));
    m.insert_item(String::from("png"), item("/EPUB/cover.png", Some("webm")));
    m.insert_item(String::from("self"), item("/EPUB/self.png", Some("self")));
    m.insert_item(String::from("loop"), item("/EPUB/loop.png", Some("b")));
    m.insert_item(String::from("b"), item("/EPUB/b.png", Some("b")));
    let meta = EpubMetadataData::empty();
    let v = EpubManifest::new(&m, &meta);
    let chain: Vec<&str> = v.fallbacks("webm").iter().map(|e| e.id()).collect();
    assert_eq!(vec!["avif", "png"], chain);
    assert!(v.fallbacks("self").is_empty());
    let chain: Vec<&str> = v.fallbacks("loop").iter().map(|e| e.id()).collect();
    assert_eq!(vec!["b"], chain);
    assert!(v.fallbacks("missing").is_empty());
    let m2 = manifest();
    let v2 = EpubManifest::new(&m2, &meta);
    let chain: Vec<&str> = v2.fallbacks("c2").iter().map(|e| e.id()).collect();
    assert_eq!(vec!["c1"], chain);
    assert!(v2.fallbacks("c3").is_empty());
}

#[test]
fn editing_items_by_id() {
    let mut m = manifest();
    let mut overlay = ArchiveOverlay::new();
    let mut meta = EpubMetadataData::empty();
    let mut spine = EpubSpineData::new(
        PageDirection::Default,
        vec![DetachedEpubSpineEntry::new("c1").into_data()],
    );
    let mut toc = EpubTocData::empty();
    let mut img = item("/EPUB/cover.png", None);
    img.properties.insert("cover-image");
    m.insert_item(String::from("img"), img);
    let mut edit = EpubManifestMut {
        base: "/EPUB",
        archive: &mut overlay,
        manifest: &mut m,
        metadata: &mut meta,
        spine: &mut spine,
        toc: &mut toc,
    };
    assert_eq!(Some(String::from("img")), edit.cover_image_mut());

    match edit.try_set_id("c1", IdOptions::new(String::from("c2"))) {
        Some(Err(EpubError::DuplicateItemId(id))) => assert_eq!("c2", id),
        _ => panic!("expected a duplicate id error"),
    }
    assert!(edit.try_set_id("nope", IdOptions::new(String::from("x"))).is_none());
    assert_eq!("c1", edit.try_set_id("c1", IdOptions::new(String::from("intro"))).unwrap().unwrap());
    // set_id makes the new id unique first
    assert_eq!(Some(String::from("c2")), edit.set_id("c2", IdOptions::new(String::from("intro"))));

    assert!(edit.set_content("c3", ResourceContent::Memory(vec![1])).unwrap().is_none());
    match edit.set_content("c3", ResourceContent::Memory(vec![2])) {
        Some(Some(ResourceContent::Memory(b))) => assert_eq!(vec![1], b),
        _ => panic!("expected the previous content"),
    }
    assert!(edit.set_content("nope", ResourceContent::Memory(vec![3])).is_none());
    match overlay.get("/EPUB/c3.xhtml") {
        Some(OverlayResource::Content(ResourceContent::Memory(b))) => assert_eq!(&vec![2], b),
        _ => panic!("expected stored content"),
    }
    let v = EpubManifest::new(&m, &meta);
    let ids: Vec<&str> = v.iter().iter().map(|e| e.id()).collect();
    assert_eq!(vec!["intro", "intro-1", "c3", "img"], ids);
    assert_eq!(Some("intro"), v.by_id("intro-1").unwrap().fallback());
    assert_eq!("intro", spine.entries[0].idref);
}

#[test]
fn overlay_resource_content() {
    assert!(OverlayResource::Relocated(String::from("/a")).take_content().is_none());
    match OverlayResource::Content(ResourceContent::File(String::from("x"))).take_content() {
        Some(ResourceContent::File(p)) => assert_eq!("x", p),
        _ => panic!("expected content"),
    }
}

#[test]
fn fallback_iteration_stops_at_a_cycle() {
    let mut m = EpubManifestData::empty();
    m.insert_item(String::from("a"), item("/EPUB/a.png", Some("b")));
    m.insert_item(String::from("b"), item("/EPUB/b.png", Some("c")));
    m.insert_item(String::from("c"), item("/EPUB/c.png", Some("b")));
    let meta = EpubMetadataData::empty();
    let v = EpubManifest::new(&m, &meta);
    let chain: Vec<&str> = v.fallbacks("a").iter().map(|e| e.id()).collect();
    assert_eq!(vec!["b", "c"], chain);
}

#[test]
fn renaming_to_the_same_id_is_allowed() {
    let mut m = manifest();
    let mut overlay = ArchiveOverlay::new();
    let mut meta = EpubMetadataData::empty();
    let mut spine = EpubSpineData::empty();
    let mut toc = EpubTocData::empty();
    let mut edit = EpubManifestMut {
        base: "/EPUB",
        archive: &mut overlay,
        manifest: &mut m,
        metadata: &mut meta,
        spine: &mut spine,
        toc: &mut toc,
    };
    assert_eq!("c1", edit.try_set_id("c1", IdOptions::new(String::from("c1"))).unwrap().unwrap());
    assert!(matches!(
        edit.try_set_id("c1", IdOptions::new(String::from("c2"))),
        Some(Err(EpubError::DuplicateItemId(_)))
    ));
}

#[test]
fn epub2_cover_follows_the_renamed_item() {
    let mut m = manifest();
    let mut spine = EpubSpineData::empty();
    let mut meta = EpubMetadataData::empty();
    meta.push_entry(DetachedEpubMetaEntry::meta_name("cover").value("c2").into_data());
    let r = update_entry_id(&mut m, &mut spine, &mut meta, 1, String::from("cover-img"), true);
    assert_eq!("c2", r.unwrap());
    assert_eq!("cover-img", meta.epub2_cover_image_id().unwrap());
}

#[test]
fn push_infers_an_empty_media_type() {
    let mut m = EpubManifestData::empty();
    let mut overlay = ArchiveOverlay::new();
    let mut meta = EpubMetadataData::empty();
    let mut spine = EpubSpineData::empty();
    let mut toc = EpubTocData::empty();
    let mut edit = EpubManifestMut {
        base: "/EPUB",
        archive: &mut overlay,
        manifest: &mut m,
        metadata: &mut meta,
        spine: &mut spine,
        toc: &mut toc,
    };
    edit.push(DetachedEpubManifestEntry::new("c1").href("c1.XHTML"));
    edit.push(DetachedEpubManifestEntry::new("s").href("style.css").media_type("text/x-custom"));
    edit.push(DetachedEpubManifestEntry::new("x").href("data.unknownext"));
    let v = EpubManifest::new(&m, &meta);
    assert_eq!("application/xhtml+xml", v.by_id("c1").unwrap().media_type());
    assert_eq!("text/x-custom", v.by_id("s").unwrap().media_type());
    assert_eq!("application/octet-stream", v.by_id("x").unwrap().media_type());
}

fn typed(href: &str, media_type: &str) -> EpubManifestEntryData {
    let mut d = item(href, None);
    d.media_type = String::from(media_type);
    d
}

fn ids(es: Vec<rbook::manifest::EpubManifestEntry<'_>>) -> Vec<String> {
    es.iter().map(|e| String::from(e.id())).collect()
}

fn mixed() -> EpubManifestData {
    let mut m = EpubManifestData::empty();
    m.insert_item(String::from("c1"), typed("/EPUB/c1.xhtml", "application/xhtml+xml"));
    m.insert_item(String::from("img"), typed("/EPUB/a.png", "IMAGE/PNG"));
    m.insert_item(String::from("css"), typed("/EPUB/s.css", "text/css"));
    m.insert_item(String::from("js"), typed("/EPUB/s.js", "text/javascript"));
    m.insert_item(String::from("f1"), typed("/EPUB/f.woff2", "font/woff2"));
    m.insert_item(String::from("f2"), typed("/EPUB/f.woff", "application/font-woff"));
    m.insert_item(String::from("snd"), typed("/EPUB/a.mp3", "audio/mpeg"));
    m.insert_item(String::from("mov"), typed("/EPUB/a.mp4", "video/mp4"));
    m.insert_item(String::from("h"), typed("/EPUB/h.html", "text/html"));
    m
}

#[test]
fn items_by_kind() {
    let m = mixed();
    let meta = EpubMetadataData::empty();
    let v = EpubManifest::new(&m, &meta);
    assert_eq!(ids(v.images()), vec!["img"]);
    assert_eq!(ids(v.styles()), vec!["css"]);
    assert_eq!(ids(v.scripts()), vec!["js"]);
    assert_eq!(ids(v.fonts()), vec!["f1", "f2"]);
    assert_eq!(ids(v.audio()), vec!["snd"]);
    assert_eq!(ids(v.video()), vec!["mov"]);
    assert_eq!(ids(v.readable_content()), vec!["c1", "h"]);
    let kinds = [ResourceKind::new("image/png"), ResourceKind::audio()];
    assert_eq!(ids(v.by_kind(&kinds)), vec!["img", "snd"]);
    assert!(v.by_kind(&[]).is_empty());
    assert_eq!("text/css", v.by_id("css").unwrap().kind().as_str());
}

#[test]
fn extract_retain_and_drain_items() {
    let mut m = mixed();
    let mut overlay = ArchiveOverlay::new();
    overlay.insert(String::from("/EPUB/a.png"), ResourceContent::Memory(vec![1]));
    overlay.insert(String::from("/EPUB/s.css"), ResourceContent::Memory(vec![2]));
    let mut meta = EpubMetadataData::empty();
    let mut spine = EpubSpineData::empty();
    let mut toc = EpubTocData::empty();
    let mut edit = EpubManifestMut {
        base: "/EPUB",
        archive: &mut overlay,
        manifest: &mut m,
        metadata: &mut meta,
        spine: &mut spine,
        toc: &mut toc,
    };
    let taken = edit.extract_if(|_id: &str, d: &EpubManifestEntryData| d.media_type.starts_with("IMAGE"));
    assert_eq!(1, taken.len());
    assert!(taken[0].content_ref().is_some());
    edit.retain(|id: &str, _d: &EpubManifestEntryData| id.starts_with('f') || id == "css");
    assert_eq!(5, edit.as_view().len());
    let rest = edit.drain();
    let ids: Vec<String> = rest.into_iter().map(|d| d.into_parts().0).collect();
    assert_eq!(ids, vec!["c1", "js", "snd", "mov", "h"]);
    assert!(edit.as_view().is_empty());
    assert!(overlay.get("/EPUB/a.png").is_none());
    assert!(overlay.get("/EPUB/s.css").is_none());
}

#[test]
fn cover_image_mut_agrees_with_view() {
    let mut m = mixed();
    let mut overlay = ArchiveOverlay::new();
    let mut meta = EpubMetadataData::empty();
    meta.push_entry(DetachedEpubMetaEntry::meta_name("cover").value("img").into_data());
    let mut spine = EpubSpineData::empty();
    let mut toc = EpubTocData::empty();
    let mut edit = EpubManifestMut {
        base: "/EPUB",
        archive: &mut overlay,
        manifest: &mut m,
        metadata: &mut meta,
        spine: &mut spine,
        toc: &mut toc,
    };
    let viewed = edit.as_view().cover_image().map(|e| String::from(e.id()));
    assert_eq!(Some(String::from("img")), viewed);
    assert_eq!(viewed, edit.cover_image_mut());
}
