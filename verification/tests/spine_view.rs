use rbook::manifest::{EpubManifestData, EpubManifestEntryData};
use rbook::package::EpubPackageMetaContext;
use rbook::spine::{DetachedEpubSpineEntry, EpubSpine, EpubSpineData, EpubSpineMut, PageDirection};

fn spine() -> EpubSpineData {
    let entries = vec![
        DetachedEpubSpineEntry::new("cover").id(Some(String::from("s0"))).linear(false).into_data(),
        DetachedEpubSpineEntry::new("c1").id(Some(String::from("s1"))).into_data(),
        DetachedEpubSpineEntry::new("c2").into_data(),
        DetachedEpubSpineEntry::new("c1").id(Some(String::from("s3"))).into_data(),
    ];
    EpubSpineData::new(PageDirection::RightToLeft, entries)
}

fn manifest() -> EpubManifestData {
    let mut m = EpubManifestData::empty();
    let mut item = EpubManifestEntryData::empty();
    item.href = String::from("/EPUB/c1.xhtml");
    m.insert_item(String::from("c1"), item);
    m
}

#[test]
fn spine_view_lookups() {
    let data = spine();
    let m = manifest();
    let view = EpubSpine::new(EpubPackageMetaContext(None), &m, &data);
    assert_eq!(view.len(), 4);
    assert!(!view.is_empty());
    assert_eq!(view.page_direction(), PageDirection::RightToLeft);
    let s1 = view.by_id("s1").unwrap();
    assert_eq!(s1.order(), 1);
    assert_eq!(s1.idref(), "c1");
    assert!(view.by_id("missing").is_none());
    let refs: Vec<usize> = view.by_idref("c1").iter().map(|e| e.order()).collect();
    assert_eq!(refs, vec![1, 3]);
    assert!(!view.get(0).unwrap().is_linear());
    assert!(view.get(4).is_none());
    assert_eq!(view.iter().len(), 4);
    assert_eq!(s1.manifest_entry().unwrap().id(), "c1");
    assert!(view.get(2).unwrap().manifest_entry().is_none());
    assert_eq!(view.get(2).unwrap().id(), None);
}

#[test]
fn spine_editing() {
    let mut data = spine();
    let mut edit = EpubSpineMut { ctx: EpubPackageMetaContext(None), spine: &mut data };
    assert_eq!(edit.set_page_direction(PageDirection::LeftToRight), PageDirection::RightToLeft);
    edit.push(DetachedEpubSpineEntry::new("end"));
    edit.insert(0, DetachedEpubSpineEntry::new("start"));
    let removed = edit.remove_by_id("s1").unwrap();
    assert_eq!(removed.into_data().idref, "c1");
    assert!(edit.remove_by_id("s1").is_none());
    {
        let mut e = edit.by_id_mut("s3").unwrap();
        assert_eq!(e.set_idref("c9"), "c1");
        assert!(e.set_linear(false));
        assert_eq!(e.set_id(None), Some(String::from("s3")));
    }
    let taken = edit.extract_if(|e: &rbook::spine::EpubSpineEntryData| !e.linear);
    assert_eq!(taken.len(), 2);
    let idrefs: Vec<String> = data.entries.iter().map(|e| e.idref.clone()).collect();
    assert_eq!(idrefs, vec!["start", "c2", "end"]);
    assert_eq!(data.page_direction, PageDirection::LeftToRight);
}

#[test]
fn spine_retain_and_drain() {
    let mut data = spine();
    let mut edit = EpubSpineMut { ctx: EpubPackageMetaContext(None), spine: &mut data };
    edit.retain(|e: &rbook::spine::EpubSpineEntryData| e.idref == "c1");
    assert_eq!(edit.as_view(&EpubManifestData::empty()).len(), 2);
    let drained = edit.drain();
    assert_eq!(drained.len(), 2);
    edit.clear();
    assert!(data.entries.is_empty());
}

#[test]
fn spine_entry_to_detached() {
    let data = spine();
    let m = manifest();
    let view = EpubSpine::new(EpubPackageMetaContext(None), &m, &data);
    let copy = view.get(1).unwrap().to_detached().into_data();
    assert_eq!(copy.idref, "c1");
    assert_eq!(copy.id.as_deref(), Some("s1"));
    assert!(copy.linear);
}
