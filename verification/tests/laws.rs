use rbook::element::{Attribute, Attributes, TextDirection};
use rbook::groups::{EpubMetadata, EpubMetadataData};
use rbook::metadata::{EpubVersion, TitleKind, Version};
use rbook::metawrite::DetachedEpubMetaEntry;
use rbook::overlay::{ArchiveOverlay, OverlayResource, ResourceContent};
use rbook::package::EpubPackageData;
use rbook::uri::{into_absolute, path};
use rbook::options::{reading_order, LinearBehavior};

#[test]
fn law_direction_round_trip_values() {
    for d in [TextDirection::LeftToRight, TextDirection::RightToLeft, TextDirection::Auto] {
        assert_eq!(d, TextDirection::from_value(d.as_str()));
    }
}

#[test]
fn law_as_major_idempotent_values() {
    for v in [Version(2, 1), Version(3, 3), Version(7, 9)] {
        let e = EpubVersion::from_version(v);
        assert_eq!(e.as_major(), e.as_major().as_major());
        assert_eq!(0, e.as_major().version().1);
    }
}

#[test]
fn law_insert_then_lookup_values() {
    let mut a = Attributes::from_vec(vec![Attribute::new("x", "1"), Attribute::new("y", "2")]);
    a.insert(Attribute::new("x", "3"));
    assert_eq!(Some("3"), a.get_value("x"));
    assert_eq!(Some("2"), a.get_value("y"));
    a.remove("x");
    assert_eq!(None, a.get_value("x"));
}

#[test]
fn law_push_then_by_property_values() {
    let pkg = EpubPackageData::new(String::from("/p.opf"), EpubVersion::epub3());
    let mut data = EpubMetadataData::empty();
    data.push_entry(DetachedEpubMetaEntry::creator("A").into_data());
    data.push_entry(DetachedEpubMetaEntry::title("T").into_data());
    data.push_entry(DetachedEpubMetaEntry::creator("B").into_data());
    let m = EpubMetadata::new(&pkg, &data);
    let c = m.creators();
    assert_eq!("B", c[c.len() - 1].value());
    assert_eq!(1, m.titles().len());
}

#[test]
fn law_title_kind_set_then_read_values() {
    let pkg = EpubPackageData::new(String::from("/p.opf"), EpubVersion::epub3());
    let mut data = EpubMetadataData::empty();
    data.push_entry(DetachedEpubMetaEntry::title("A").into_data());
    for k in [TitleKind::Subtitle, TitleKind::Short, TitleKind::Collection, TitleKind::Edition, TitleKind::Expanded] {
        data.push_entry(DetachedEpubMetaEntry::title("x").kind(TitleKind::Short).kind(k).into_data());
    }
    let m = EpubMetadata::new(&pkg, &data);
    let t = m.titles();
    assert_eq!(TitleKind::Subtitle, t[1].kind());
    assert_eq!(TitleKind::Short, t[2].kind());
    assert_eq!(TitleKind::Collection, t[3].kind());
    assert_eq!(TitleKind::Edition, t[4].kind());
    assert_eq!(TitleKind::Expanded, t[5].kind());
}

#[test]
fn law_overlay_read_after_write_values() {
    let mut o = ArchiveOverlay::new();
    o.insert(String::from("/a"), ResourceContent::File(String::from("x.bin")));
    o.insert(String::from("/b"), ResourceContent::Memory(vec![1]));
    o.insert(String::from("/a"), ResourceContent::Memory(vec![2]));
    match o.get("/a") {
        Some(OverlayResource::Content(ResourceContent::Memory(v))) => assert_eq!(&vec![2u8], v),
        _ => panic!("last write wins"),
    }
    assert!(o.remove("/b").is_some());
    assert!(o.get("/b").is_none());
    o.relocate("/archived", String::from("/moved"));
    match o.get("/moved") {
        Some(OverlayResource::Relocated(from)) => assert_eq!("/archived", from),
        _ => panic!("relocation should point at the archive"),
    }
}

#[test]
fn law_reading_order_visits_all_values() {
    let linear = vec![false, true, true, false, true];
    assert_eq!(5, reading_order(&linear, LinearBehavior::PrependNonLinear).len());
    assert_eq!(5, reading_order(&linear, LinearBehavior::AppendNonLinear).len());
    assert_eq!(5, reading_order(&linear, LinearBehavior::LinearOnly).len() + reading_order(&linear, LinearBehavior::NonLinearOnly).len());
}

#[test]
fn law_path_and_absolute_idempotent_values() {
    for s in ["a/b?x#y", "/c#d", "plain"] {
        assert_eq!(path(path(s)), path(s));
        assert_eq!(into_absolute(&into_absolute(s)), into_absolute(s));
    }
}
