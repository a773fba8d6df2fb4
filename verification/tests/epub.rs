use rbook::epub::Epub;
use rbook::metadata::{EpubVersion, Version};
use rbook::metawrite::DetachedEpubMetaEntry;
use rbook::resource::ResourceKind;

#[test]
fn new_publication_is_empty_under_oebps() {
    let epub = Epub::new();
    assert_eq!("/OEBPS/package.opf", epub.package().location().as_str());
    assert_eq!("/OEBPS", epub.package().directory().as_str());
    assert_eq!(EpubVersion::Epub3(Version(3, 3)), epub.package().version());
    assert_eq!(0, epub.manifest().len());
    assert_eq!(0, epub.spine().len());
    assert!(epub.toc().contents().is_none());
    assert!(epub.metadata().title().is_none());
}

#[test]
fn edits_show_in_views() {
    let mut epub = Epub::new();
    epub.metadata_mut().push(DetachedEpubMetaEntry::title("A Book"));
    assert_eq!("A Book", epub.metadata().title().unwrap().value());
}

#[test]
fn resource_kinds() {
    let image = ResourceKind::image();
    assert!(image.is_unspecified());
    assert!(image.matches("Image/JPEG"));
    assert!(!image.matches("text/css"));
    let css = ResourceKind::new("text/css");
    assert!(!css.is_unspecified());
    assert!(css.matches("TEXT/CSS"));
    assert!(!css.matches("text/css2"));
    assert!(ResourceKind::new("application/vnd.ms-opentype").is_font());
    assert!(ResourceKind::new("font/otf").is_font());
    assert!(!ResourceKind::new("application/xml").is_font());
    assert_eq!("video", ResourceKind::video().as_str());
}
