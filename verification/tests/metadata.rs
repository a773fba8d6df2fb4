use rbook::element::{Attribute, TextDirection};
use rbook::entries::EpubTag;
use rbook::groups::{EpubMetadata, EpubMetadataData, EpubMetadataMut};
use rbook::marker;
use rbook::metadata::{EpubMetaEntryData, EpubMetaEntryKind, EpubVersion, TitleKind, Version};
use rbook::metawrite::DetachedEpubMetaEntry;
use rbook::package::EpubPackageData;

fn package() -> EpubPackageData {
    let mut p = EpubPackageData::new(String::from("/OEBPS/content.opf"), EpubVersion::epub3());
    p.unique_identifier = String::from("uid");
    p.language = Some(String::from("en"));
    p
}

fn sample() -> EpubMetadataData {
    let mut data = EpubMetadataData::empty();
    let title = DetachedEpubMetaEntry::title("Subtitle first")
        .kind(TitleKind::Subtitle)
        .into_data();
    data.push_entry(title);
    let main = DetachedEpubMetaEntry::title("The Main Title").kind(TitleKind::Main).into_data();
    data.push_entry(main);
    let id = DetachedEpubMetaEntry::identifier("urn:isbn:123")
        .id(Some(String::from("uid")))
        .scheme(Some("onix:codelist5"), "15")
        .into_data();
    data.push_entry(id);
    let other_id = DetachedEpubMetaEntry::identifier("other").into_data();
    data.push_entry(other_id);
    let creator = DetachedEpubMetaEntry::creator("Jane Doe")
        .id(Some(String::from("author")))
        .role("aut")
        .file_as("Doe, Jane")
        .into_data();
    data.push_entry(creator);
    data.push_entry(DetachedEpubMetaEntry::language("en").into_data());
    data.push_entry(DetachedEpubMetaEntry::language("fr").into_data());
    let date = DetachedEpubMetaEntry::date("2020-01-01")
        .attribute(Attribute::new("opf:event", "modification"))
        .into_data();
    data.push_entry(date);
    data.push_entry(DetachedEpubMetaEntry::date("2019-05-05").into_data());
    data.push_entry(DetachedEpubMetaEntry::tag("Fiction").scheme("BISAC", "FIC000000").into_data());
    data
}

#[test]
fn main_title_is_inferred_from_title_type() {
    let pkg = package();
    let data = sample();
    let m = EpubMetadata::new(&pkg, &data);
    let titles = m.titles();
    assert_eq!(2, titles.len());
    assert!(!titles[0].is_main_title());
    assert!(titles[1].is_main_title());
    let main = m.title().unwrap();
    assert_eq!("The Main Title", main.value());
    assert_eq!(TitleKind::Main, main.kind());
    assert_eq!(TitleKind::Subtitle, titles[0].kind());
}

#[test]
fn first_title_is_main_without_title_type() {
    let pkg = package();
    let mut data = EpubMetadataData::empty();
    data.push_entry(DetachedEpubMetaEntry::title("A").into_data());
    data.push_entry(DetachedEpubMetaEntry::title("B").into_data());
    let m = EpubMetadata::new(&pkg, &data);
    assert_eq!("A", m.title().unwrap().value());
}

#[test]
fn unique_identifier_and_scheme() {
    let pkg = package();
    let data = sample();
    let m = EpubMetadata::new(&pkg, &data);
    let id = m.identifier().unwrap();
    assert_eq!("urn:isbn:123", id.value());
    let scheme = id.scheme().unwrap();
    assert_eq!(Some("onix:codelist5"), scheme.source());
    assert_eq!("15", scheme.code());
    assert_eq!(2, m.identifiers().len());
    assert!(m.identifiers()[1].scheme().is_none());
}

#[test]
fn contributor_roles_and_file_as() {
    let pkg = package();
    let data = sample();
    let m = EpubMetadata::new(&pkg, &data);
    let creators = m.creators();
    assert_eq!(1, creators.len());
    let role = creators[0].main_role().unwrap();
    assert_eq!(Some("marc:relators"), role.source());
    assert_eq!("aut", role.code());
    assert_eq!(Some("Doe, Jane"), creators[0].as_meta().file_as());
}

#[test]
fn dates_by_event() {
    let pkg = package();
    let data = sample();
    let m = EpubMetadata::new(&pkg, &data);
    // No `publication` event: the first date without an event is the publication date.
    assert_eq!("2019-05-05", m.published_entry().unwrap().value());
    assert_eq!("2020-01-01", m.modified_entry().unwrap().value());
}

#[test]
fn modified_prefers_dcterms() {
    let pkg = package();
    let mut data = sample();
    data.push_entry(DetachedEpubMetaEntry::meta("dcterms:modified").value("2024-02-02").into_data());
    let m = EpubMetadata::new(&pkg, &data);
    assert_eq!("2024-02-02", m.modified_entry().unwrap().value());
}

#[test]
fn languages_and_language_inheritance() {
    let pkg = package();
    let data = sample();
    let m = EpubMetadata::new(&pkg, &data);
    let langs = m.languages();
    assert_eq!(2, langs.len());
    assert_eq!("en", m.language().unwrap().value());
    let scheme = langs[1].scheme();
    assert_eq!(Some("BCP 47"), scheme.source());
    assert_eq!("fr", scheme.code());
    // Entries without their own language take the package's.
    let t = m.title().unwrap().as_meta();
    assert_eq!("en", t.xml_language().unwrap().code());
}

#[test]
fn by_id_finds_refinements_with_their_parent() {
    let pkg = package();
    let mut data = sample();
    let mut refined = DetachedEpubMetaEntry::meta("file-as").value("X").id(Some(String::from("fa")));
    refined = refined.refinement(DetachedEpubMetaEntry::meta("alternate-script").value("Y").id(Some(String::from("deep"))));
    let parent = DetachedEpubMetaEntry::creator("Someone")
        .id(Some(String::from("p1")))
        .refinement(refined)
        .into_data();
    data.push_entry(parent);
    let m = EpubMetadata::new(&pkg, &data);
    let e = m.by_id("fa").unwrap();
    assert_eq!("X", e.value());
    assert_eq!(Some("p1"), e.refines());
    assert_eq!(0, e.order());
    let deep = m.by_id("deep").unwrap();
    assert_eq!(Some("fa"), deep.refines());
    let top = m.by_id("author").unwrap();
    assert_eq!(None, top.refines());
    assert!(m.by_id("nope").is_none());
}

#[test]
fn tag_scheme_from_refinements() {
    let pkg = package();
    let data = sample();
    let m = EpubMetadata::new(&pkg, &data);
    let tags = m.tags();
    let scheme = tags[0].scheme().unwrap();
    assert_eq!(Some("BISAC"), scheme.source());
    assert_eq!("FIC000000", scheme.code());
}

#[test]
fn iter_visits_groups_in_order() {
    let pkg = package();
    let data = sample();
    let m = EpubMetadata::new(&pkg, &data);
    let all = m.iter();
    assert_eq!(10, all.len());
    assert_eq!("dc:title", all[0].property().as_str());
    assert_eq!(1, all[1].order());
    assert_eq!("dc:identifier", all[2].property().as_str());
}

#[test]
fn push_then_by_property_and_remove() {
    let mut pkg = package();
    let mut data = sample();
    {
        let mut edit = EpubMetadataMut { package: &mut pkg, metadata: &mut data };
        edit.push(DetachedEpubMetaEntry::description("A book"));
        edit.insert(0, DetachedEpubMetaEntry::description("First"));
        let removed = edit.remove_by_property("dc:subject");
        assert_eq!(1, removed.len());
    }
    let m = EpubMetadata::new(&pkg, &data);
    let d = m.descriptions();
    assert_eq!(2, d.len());
    assert_eq!("First", d[0].value());
    assert_eq!("A book", d[1].value());
    assert_eq!(0, m.tags().len());
}

#[test]
fn drain_and_clear() {
    let mut pkg = package();
    let mut data = sample();
    let mut edit = EpubMetadataMut { package: &mut pkg, metadata: &mut data };
    let drained = edit.drain();
    assert_eq!(10, drained.len());
    assert_eq!("dc:title", drained[0].as_view().property().as_str());
    edit.push(DetachedEpubMetaEntry::rights("CC0"));
    edit.clear();
    assert_eq!(0, edit.as_view().iter().len());
}

#[test]
fn builders_set_properties() {
    let dc = DetachedEpubMetaEntry::dublin_core("title");
    assert_eq!("dc:title", dc.as_view().property().as_str());
    let dc2 = DetachedEpubMetaEntry::dublin_core("dc:creator");
    assert_eq!("dc:creator", dc2.as_view().property().as_str());
    let m2 = DetachedEpubMetaEntry::meta_name("cover").value("img");
    assert_eq!(
        EpubMetaEntryKind::Meta { version: EpubVersion::Epub2(Version(2, 0)) },
        m2.as_view().kind()
    );
    let link = DetachedEpubMetaEntry::<marker::Link>::link("record")
        .href("meta.xml")
        .media_type("application/xml")
        .property("onix")
        .rel("alternate");
    let view = link.as_view();
    let l = view.as_link().unwrap();
    assert_eq!("meta.xml", l.href().unwrap().as_str());
    assert_eq!(Some("application/xml"), l.media_type());
    assert!(l.properties().has_property("onix"));
    assert!(l.rel().has_property("record"));
    assert!(l.rel().has_property("alternate"));
}

#[test]
fn alternate_scripts_from_refinements() {
    let e = DetachedEpubMetaEntry::title("Title").alternate_script("ja", "題名");
    let v = e.as_view();
    let scripts = v.alternate_scripts();
    assert_eq!(1, scripts.len());
    assert_eq!("題名", scripts[0].value());
    // The builder stores the language as an `xml:lang` attribute, while the view reads
    // the entry's own language, which stays unset here.
    assert_eq!("", scripts[0].language().code());
    assert_eq!(Some("ja"), v.refinements().get(0).unwrap().attributes().get_value("xml:lang"));
}

#[test]
fn entry_mut_and_refinements_mut() {
    let mut e = DetachedEpubMetaEntry::creator("A");
    {
        let mut m = e.as_mut();
        assert_eq!("A", m.set_value("B"));
        assert_eq!(None, m.set_id(Some(String::from("c1"))));
        let mut r = m.refinements_mut();
        r.push(DetachedEpubMetaEntry::meta("role").value("aut"));
        r.insert(0, DetachedEpubMetaEntry::meta("file-as").value("B, B"));
        assert_eq!(Some("c1"), r.parent_id);
        let removed = r.remove(1);
        assert_eq!("aut", removed.as_view().value());
    }
    let v = e.as_view();
    assert_eq!("B", v.value());
    assert_eq!(Some("c1"), v.id());
    assert_eq!(1, v.refinements().len());
    let data: EpubMetaEntryData = e.into_data();
    assert_eq!(1, data.refinements.0.len());
}

#[test]
fn links_have_no_text_direction() {
    let link = DetachedEpubMetaEntry::<marker::Link>::link("record").text_direction(TextDirection::RightToLeft);
    assert_eq!(TextDirection::Auto, link.as_view().text_direction());
    let title = DetachedEpubMetaEntry::title("T").text_direction(TextDirection::RightToLeft);
    assert_eq!(TextDirection::RightToLeft, title.as_view().text_direction());
}

#[test]
fn tag_scheme_is_replaced_and_refinements_win() {
    let t = DetachedEpubMetaEntry::tag("Fiction").scheme("A", "1").scheme("BISAC", "FIC028000");
    let data = t.into_data();
    let authorities: Vec<&EpubMetaEntryData> =
        data.refinements.0.iter().filter(|e| e.property == "authority").collect();
    let terms: Vec<&EpubMetaEntryData> = data.refinements.0.iter().filter(|e| e.property == "term").collect();
    assert_eq!(1, authorities.len());
    assert_eq!(1, terms.len());
    assert_eq!("BISAC", authorities[0].value);
    assert_eq!("FIC028000", terms[0].value);

    let legacy = DetachedEpubMetaEntry::tag("Fiction")
        .attribute(Attribute::new("opf:authority", "X"))
        .attribute(Attribute::new("opf:term", "Y"));
    let v = legacy.as_view();
    let scheme = EpubTag::new(v).scheme().unwrap();
    assert_eq!(Some("X"), scheme.source());
    let both = DetachedEpubMetaEntry::tag("Fiction")
        .attribute(Attribute::new("opf:authority", "X"))
        .attribute(Attribute::new("opf:term", "Y"))
        .scheme("BISAC", "FIC028000");
    let v = both.as_view();
    let scheme = EpubTag::new(v).scheme().unwrap();
    assert_eq!(Some("BISAC"), scheme.source());
    assert_eq!("FIC028000", scheme.code());
}
