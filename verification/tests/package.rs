use rbook::metadata::{EpubVersion, Version};
use rbook::overlay::{ArchiveOverlay, OverlayResource, ResourceContent};
use rbook::package::{EpubPackage, EpubPackageData, EpubPackageMut, Prefix, Prefixes};
use rbook::element::TextDirection;

#[test]
fn package_view() {
    let mut data = EpubPackageData::new(String::from("/EPUB/example.opf"), EpubVersion::from_version(Version(3, 3)));
    data.unique_identifier = String::from("uid");
    let p = EpubPackage::new(&data);
    assert_eq!("/EPUB/example.opf", p.location().as_str());
    assert_eq!("/EPUB", p.directory().as_str());
    assert_eq!("3.3", p.version_str());
    assert_eq!(EpubVersion::Epub3(Version(3, 3)), p.version());
    assert_eq!("uid", p.unique_identifier());
    assert_eq!(TextDirection::Auto, p.text_direction());
    assert_eq!(None, p.xml_language());
    assert!(p.prefixes().is_empty());
}

#[test]
fn version_text_has_major_and_minor() {
    let data = EpubPackageData::new(String::from("/a.opf"), EpubVersion::from_version(Version(12, 305)));
    assert_eq!("12.305", EpubPackage::new(&data).version_str());
    assert_eq!(EpubVersion::Unknown(Version(12, 305)), data.version.parsed);
}

#[test]
fn prefixes_insert_replace_remove() {
    let mut p = Prefixes::empty();
    assert!(p.insert(Prefix::new("foaf", "http://xmlns.com/foaf/spec/")).is_none());
    assert!(p.insert(Prefix::new("dbp", "http://dbpedia.org/ontology/")).is_none());
    let old = p.insert(Prefix::new("foaf", "urn:new")).unwrap();
    assert_eq!("http://xmlns.com/foaf/spec/", old.uri());
    assert_eq!(2, p.len());
    assert_eq!("foaf", p.get(0).unwrap().name());
    assert_eq!("urn:new", p.by_name("foaf").unwrap().uri());
    assert!(p.has_name("dbp"));
    p.by_name_mut("dbp").unwrap().set_uri("urn:dbp");
    assert_eq!("urn:dbp", p.by_name("dbp").unwrap().uri());
    assert_eq!("urn:dbp", p.remove("dbp").unwrap().uri());
    assert!(!p.has_name("dbp"));
    let mut it = p.iter();
    assert_eq!("foaf", it.next().unwrap().name());
    assert!(it.next().is_none());
    p.clear();
    assert!(p.is_empty());
}

#[test]
fn set_location_normalizes_and_moves_the_package_file() {
    let mut data = EpubPackageData::new(String::from("/OEBPS/content.opf"), EpubVersion::epub3());
    let mut overlay = ArchiveOverlay::new();
    let mut edit = EpubPackageMut { archive: &mut overlay, package: &mut data };
    let previous = edit.set_location("new dir/./sub/../package.opf");
    assert_eq!("/OEBPS/content.opf", previous);
    assert_eq!("/new dir/package.opf", edit.as_view().location().as_str());
    match overlay.get("/new dir/package.opf") {
        Some(OverlayResource::Relocated(from)) => assert_eq!("/OEBPS/content.opf", from),
        _ => panic!("the package file should point at its old location"),
    }
    assert!(!overlay.is_overlay_resource("/OEBPS/content.opf"));
}

#[test]
fn set_location_moves_held_content() {
    let mut data = EpubPackageData::new(String::from("/a.opf"), EpubVersion::epub2());
    let mut overlay = ArchiveOverlay::new();
    overlay.insert(String::from("/a.opf"), ResourceContent::Memory(vec![1, 2, 3]));
    let mut edit = EpubPackageMut { archive: &mut overlay, package: &mut data };
    edit.set_location("/b.opf");
    match overlay.get("/b.opf") {
        Some(OverlayResource::Content(ResourceContent::Memory(bytes))) => assert_eq!(&vec![1, 2, 3], bytes),
        _ => panic!("content should move with the package"),
    }
}

#[test]
fn package_setters_return_previous_values() {
    let mut data = EpubPackageData::new(String::from("/a.opf"), EpubVersion::epub2());
    let mut overlay = ArchiveOverlay::new();
    let mut edit = EpubPackageMut { archive: &mut overlay, package: &mut data };
    assert_eq!(EpubVersion::Epub2(Version(2, 0)), edit.set_version(EpubVersion::epub3()));
    assert_eq!("", edit.set_unique_identifier("book-id"));
    assert_eq!(TextDirection::Auto, edit.set_text_direction(TextDirection::RightToLeft));
    assert_eq!(None, edit.set_xml_language(Some(String::from("ar"))));
    edit.prefixes_mut().insert(Prefix::create("x", "y"));
    let view = edit.as_view();
    assert_eq!("3.0", view.version_str());
    assert_eq!("book-id", view.unique_identifier());
    assert_eq!(TextDirection::RightToLeft, view.text_direction());
    assert_eq!(Some("ar"), view.xml_language());
    assert_eq!(1, view.prefixes().len());
}

#[test]
fn version_helpers() {
    let v = EpubVersion::from_version(Version(3, 3));
    assert_eq!(EpubVersion::Epub3(Version(3, 0)), v.as_major());
    assert_eq!(v.as_major(), v.as_major().as_major());
    assert_eq!(Version(3, 3), v.version());
    assert!(v.is_epub3() && !v.is_epub2() && !v.is_unknown());
    assert!(EpubVersion::from_version(Version(2, 1)).is_epub2());
    assert_eq!(EpubVersion::Unknown(Version(4, 0)), EpubVersion::from_version(Version(4, 2)).as_major());
}

#[test]
fn prefix_from_pair_and_get_mut() {
    let p = Prefix::from(("foaf", "http://xmlns.com/foaf/spec/"));
    assert_eq!("foaf", p.name());
    assert_eq!("http://xmlns.com/foaf/spec/", p.uri());
    let mut ps = Prefixes::empty();
    ps.insert(p);
    let old = ps.get_mut(0).unwrap().set_uri("http://example.org/");
    assert_eq!("http://xmlns.com/foaf/spec/", old);
    assert_eq!("http://example.org/", ps.by_name("foaf").unwrap().uri());
    assert!(ps.get_mut(1).is_none());
}
