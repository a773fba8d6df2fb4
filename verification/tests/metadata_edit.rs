use rbook::metadata::EpubMetaEntry;
use rbook::groups::{EpubMetadataData, EpubMetadataMut};
use rbook::metadata::{EpubMetaEntryData, EpubRefinementsData};
use rbook::metawrite::{DetachedEpubMetaEntry, EpubRefinementsMut};
use rbook::package::{EpubPackageData, EpubPackageMetaContext};
use rbook::metadata::EpubVersion;

fn sample() -> EpubMetadataData {
    let mut data = EpubMetadataData::empty();
    data.push_entry(DetachedEpubMetaEntry::title("Keep").into_data());
    data.push_entry(DetachedEpubMetaEntry::title("Drop").into_data());
    data.push_entry(DetachedEpubMetaEntry::language("xx").into_data());
    data.push_entry(DetachedEpubMetaEntry::creator("Ann").into_data());
    data
}

#[test]
fn metadata_retain_drops_empty_groups() {
    let mut data = sample();
    let mut package = EpubPackageData::new(String::from("/OEBPS/content.opf"), EpubVersion::epub3());
    let mut edit = EpubMetadataMut { package: &mut package, metadata: &mut data };
    edit.retain(|e: &EpubMetaEntryData| e.value != "Drop" && e.value != "xx");
    assert_eq!(data.group_count(), 2);
    assert_eq!(data.group_at(0).unwrap().0, "dc:title");
    assert_eq!(data.group_at(0).unwrap().1.len(), 1);
    assert_eq!(data.group_at(1).unwrap().0, "dc:creator");
}

#[test]
fn metadata_extract_if_returns_in_group_order() {
    let mut data = sample();
    let mut package = EpubPackageData::new(String::from("/OEBPS/content.opf"), EpubVersion::epub3());
    let mut edit = EpubMetadataMut { package: &mut package, metadata: &mut data };
    let taken = edit.extract_if(|e: &EpubMetaEntryData| e.value != "Keep");
    let values: Vec<String> = taken.into_iter().map(|d| d.into_data().value).collect();
    assert_eq!(values, vec!["Drop", "xx", "Ann"]);
    assert_eq!(data.group_count(), 1);
    assert_eq!(data.group_at(0).unwrap().1[0].value, "Keep");
}

#[test]
fn refinements_retain_and_extract() {
    let mut refinements = EpubRefinementsData(vec![
        DetachedEpubMetaEntry::meta("file-as").value("A").into_data(),
        DetachedEpubMetaEntry::meta("role").value("aut").into_data(),
        DetachedEpubMetaEntry::meta("file-as").value("B").into_data(),
    ]);
    {
        let mut edit = EpubRefinementsMut {
            ctx: EpubPackageMetaContext(None),
            parent_id: None,
            data: &mut refinements,
        };
        let taken = edit.extract_if(|e: &EpubMetaEntryData| e.property == "role");
        assert_eq!(taken.len(), 1);
        edit.retain(|e: &EpubMetaEntryData| e.value != "B");
    }
    assert_eq!(refinements.0.len(), 1);
    assert_eq!(refinements.0[0].value, "B");
}

#[test]
fn metadata_remove_by_id_searches_depth_first() {
    let mut data = EpubMetadataData::empty();
    data.push_entry(DetachedEpubMetaEntry::title("T").into_data());
    let creator = DetachedEpubMetaEntry::creator("Ann")
        .id(Some(String::from("c1")))
        .refinement(DetachedEpubMetaEntry::meta("file-as").value("Ann, A").id(Some(String::from("r1"))))
        .into_data();
    data.push_entry(creator);
    let mut package = EpubPackageData::new(String::from("/OEBPS/content.opf"), EpubVersion::epub3());
    let mut edit = EpubMetadataMut { package: &mut package, metadata: &mut data };
    let removed = edit.remove_by_id("r1").unwrap().into_data();
    assert_eq!(removed.value, "Ann, A");
    assert!(edit.remove_by_id("r1").is_none());
    let removed = edit.remove_by_id("c1").unwrap().into_data();
    assert_eq!(removed.value, "Ann");
    assert!(removed.refinements.0.is_empty());
    assert_eq!(data.group_count(), 2);
    assert!(data.group_at(1).unwrap().1.is_empty());
}

#[test]
fn meta_entry_to_detached_copies_everything() {
    let data = DetachedEpubMetaEntry::creator("Ann")
        .id(Some(String::from("c1")))
        .refinement(DetachedEpubMetaEntry::meta("file-as").value("Ann, A"))
        .into_data();
    let view = EpubMetaEntry::new(EpubPackageMetaContext(None), None, &data, 0);
    let copy = view.to_detached().into_data();
    assert_eq!(copy.value, "Ann");
    assert_eq!(copy.id.as_deref(), Some("c1"));
    assert_eq!(copy.property, data.property);
    assert_eq!(copy.refinements.0.len(), 1);
    assert_eq!(copy.refinements.0[0].value, "Ann, A");
}

#[test]
fn refinements_insert_many_keeps_batch_order() {
    let mut refinements = EpubRefinementsData(vec![
        DetachedEpubMetaEntry::meta("file-as").value("A").into_data(),
        DetachedEpubMetaEntry::meta("role").value("aut").into_data(),
    ]);
    {
        let mut edit = EpubRefinementsMut {
            ctx: EpubPackageMetaContext(None),
            parent_id: None,
            data: &mut refinements,
        };
        edit.insert_many(
            1,
            vec![
                DetachedEpubMetaEntry::meta("authority").value("X"),
                DetachedEpubMetaEntry::meta("term").value("Y"),
            ],
        );
        edit.push_many(vec![
            DetachedEpubMetaEntry::meta("display-seq").value("1"),
            DetachedEpubMetaEntry::meta("display-seq").value("2"),
        ]);
    }
    let values: Vec<&str> = refinements.0.iter().map(|e| e.value.as_str()).collect();
    assert_eq!(values, vec!["A", "X", "Y", "aut", "1", "2"]);
}

#[test]
fn metadata_push_many_and_insert_many() {
    let mut data = sample();
    let mut package = EpubPackageData::new(String::from("/OEBPS/content.opf"), EpubVersion::epub3());
    {
        let mut edit = EpubMetadataMut { package: &mut package, metadata: &mut data };
        edit.push_many(vec![DetachedEpubMetaEntry::title("T3").into_any(), DetachedEpubMetaEntry::creator("Bob").into_any()]);
        edit.insert_many(
            1,
            vec![
                DetachedEpubMetaEntry::title("T1a").into_any(),
                DetachedEpubMetaEntry::tag("S").into_any(),
                DetachedEpubMetaEntry::title("T1b").into_any(),
            ],
        );
        edit.insert_many(usize::MAX, vec![DetachedEpubMetaEntry::creator("Zed")]);
    }
    let titles: Vec<&str> = data.group_at(0).unwrap().1.iter().map(|e| e.value.as_str()).collect();
    assert_eq!(titles, vec!["Keep", "T1a", "T1b", "Drop", "T3"]);
    let creators: Vec<&str> = data.group_at(2).unwrap().1.iter().map(|e| e.value.as_str()).collect();
    assert_eq!(creators, vec!["Ann", "Bob", "Zed"]);
    assert_eq!(data.group_at(3).unwrap().0, "dc:subject");
    assert_eq!(data.group_count(), 4);
}
