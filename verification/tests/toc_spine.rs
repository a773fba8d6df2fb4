use rbook::element::Attribute;
use rbook::metadata::{EpubVersion, Version};
use rbook::metawrite::DetachedEpubMetaEntry;
use rbook::spine::DetachedEpubSpineEntry;
use rbook::toc::{DetachedEpubTocEntry, EpubTocEntryData};

#[test]
fn toc_hrefs_follow_a_moved_resource() {
    let mut root = EpubTocEntryData::with_label("Contents");
    let mut a = EpubTocEntryData::with_label("A");
    a.href = Some(String::from("/EPUB/c1.xhtml#part2"));
    a.href_raw = Some(String::from("c1.xhtml#part2"));
    let mut b = EpubTocEntryData::with_label("B");
    b.href = Some(String::from("/EPUB/c2.xhtml"));
    b.href_raw = Some(String::from("c2.xhtml"));
    let mut nested = EpubTocEntryData::with_label("A.1");
    nested.href = Some(String::from("/EPUB/c1.xhtml?x=1"));
    a.children.push(nested);
    root.children.push(a);
    root.children.push(b);
    root.cascade_toc_href("/EPUB/c1.xhtml", "/EPUB/intro.xhtml");
    assert_eq!(Some(String::from("/EPUB/intro.xhtml#part2")), root.children[0].href);
    assert_eq!(None, root.children[0].href_raw);
    assert_eq!(Some(String::from("/EPUB/intro.xhtml?x=1")), root.children[0].children[0].href);
    assert_eq!(Some(String::from("/EPUB/c2.xhtml")), root.children[1].href);
    assert_eq!(Some(String::from("c2.xhtml")), root.children[1].href_raw);
}

#[test]
fn detached_toc_entry() {
    let child = DetachedEpubTocEntry::new("Child").href(Some(String::from("c.xhtml")));
    let e = DetachedEpubTocEntry::new("Root")
        .id(Some(String::from("r")))
        .label("Root!")
        .kind(Some(String::from("toc")))
        .attribute(Attribute::new("class", "x"))
        .children(child);
    let d = e.into_data();
    assert_eq!("Root!", d.label);
    assert_eq!(Some(String::from("toc")), d.kind);
    assert_eq!(1, d.children.len());
    assert_eq!(None, d.children[0].href);
    assert_eq!(Some(String::from("c.xhtml")), d.children[0].href_raw);
    let _unknown = EpubVersion::Unknown(Version(0, 0));
}

#[test]
fn detached_spine_entry() {
    let e = DetachedEpubSpineEntry::new("c1")
        .id(Some(String::from("s1")))
        .idref("c2")
        .linear(false)
        .property("page-spread-left")
        .attribute(Attribute::new("data-x", "1"))
        .refinement(DetachedEpubMetaEntry::meta("role").value("x"));
    let d = e.into_data();
    assert_eq!("c2", d.idref);
    assert!(!d.linear);
    assert!(d.properties.has_property("page-spread-left"));
    assert_eq!(1, d.attributes.len());
    assert_eq!(1, d.refinements.0.len());
    assert!(DetachedEpubSpineEntry::new("c").into_data().linear);
}
