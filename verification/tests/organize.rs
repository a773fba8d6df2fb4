use rbook::errors::EpubError;
use rbook::metadata::{EpubMetaEntryData, EpubMetaEntryKind, EpubVersion};
use rbook::organize::{organize_metadata, ParsedMeta};

fn entry(id: Option<&str>, refines: Option<&str>, property: &str, value: &str) -> ParsedMeta {
    let kind = if property.starts_with("dc:") {
        EpubMetaEntryKind::DublinCore {}
    } else {
        EpubMetaEntryKind::Meta { version: EpubVersion::epub3() }
    };
    let mut data = EpubMetaEntryData::with_kind(kind);
    data.property = property.to_string();
    data.value = value.to_string();
    ParsedMeta {
        id: id.map(|s| s.to_string()),
        refines: refines.map(|s| s.to_string()),
        data,
    }
}

fn values(entries: &[EpubMetaEntryData]) -> Vec<String> {
    entries.iter().map(|e| e.value.clone()).collect()
}

fn sample() -> Vec<ParsedMeta> {
    vec![
        entry(Some("t1"), None, "dc:title", "Title"),
        entry(None, Some("t1"), "title-type", "main"),
        entry(Some("c1"), None, "dc:creator", "B"),
        entry(Some("c2"), None, "dc:creator", "A"),
        entry(None, Some("c2"), "display-seq", "1"),
        entry(Some("r1"), Some("c1"), "role", "aut"),
        entry(None, Some("r1"), "scheme", "marc:relators"),
        entry(None, Some("item1"), "media:duration", "0:32"),
        entry(None, None, "dc:language", "en"),
    ]
}

#[test]
fn organize_groups_in_order_of_first_appearance() {
    let (md, _) = organize_metadata(sample()).unwrap();
    assert_eq!(md.group_count(), 3);
    assert_eq!(md.group_at(0).unwrap().0, "dc:title");
    assert_eq!(md.group_at(1).unwrap().0, "dc:creator");
    assert_eq!(md.group_at(2).unwrap().0, "dc:language");
}

#[test]
fn organize_sorts_by_display_sequence() {
    let (md, _) = organize_metadata(sample()).unwrap();
    let creators = md.group("dc:creator").unwrap();
    assert_eq!(values(creators), vec!["A", "B"]);
    assert_eq!(creators[0].id.as_deref(), Some("c2"));
    assert_eq!(values(&creators[0].refinements.0), vec!["1"]);
}

#[test]
fn organize_nests_refinement_chains() {
    let (md, _) = organize_metadata(sample()).unwrap();
    let creators = md.group("dc:creator").unwrap();
    let b = &creators[1];
    assert_eq!(b.refinements.0.len(), 1);
    let role = &b.refinements.0[0];
    assert_eq!(role.property, "role");
    assert_eq!(role.id.as_deref(), Some("r1"));
    assert_eq!(values(&role.refinements.0), vec!["marc:relators"]);
    let title = &md.group("dc:title").unwrap()[0];
    assert_eq!(values(&title.refinements.0), vec!["main"]);
}

#[test]
fn organize_sets_aside_refinements_of_other_items() {
    let (_, mut pending) = organize_metadata(sample()).unwrap();
    let taken = pending.take_refinements("item1").unwrap();
    assert_eq!(values(&taken.0), vec!["0:32"]);
    assert!(pending.take_refinements("item1").is_none());
    assert!(pending.take_refinements("t1").is_none());
}

#[test]
fn organize_later_id_replaces_earlier() {
    let es = vec![
        entry(Some("x"), None, "dc:title", "first"),
        entry(Some("x"), None, "dc:title", "second"),
    ];
    let (md, _) = organize_metadata(es).unwrap();
    assert_eq!(values(md.group("dc:title").unwrap()), vec!["second"]);
}

#[test]
fn organize_refuses_cycles() {
    let es = vec![
        entry(Some("a"), Some("b"), "dc:title", "A"),
        entry(Some("b"), Some("a"), "file-as", "B"),
    ];
    match organize_metadata(es) {
        Err(EpubError::CyclicMeta(id)) => assert!(id == "a" || id == "b"),
        _ => panic!("expected a cycle"),
    }
}

#[test]
fn organize_self_refinement_is_a_cycle() {
    let es = vec![entry(Some("a"), Some("a"), "dc:title", "A")];
    match organize_metadata(es) {
        Err(EpubError::CyclicMeta(id)) => assert_eq!(id, "a"),
        _ => panic!("expected a cycle"),
    }
}

#[test]
fn organize_invalid_display_sequence_sorts_last() {
    let es = vec![
        entry(Some("a"), None, "dc:creator", "A"),
        entry(None, Some("a"), "display-seq", "x"),
        entry(Some("b"), None, "dc:creator", "B"),
        entry(None, Some("b"), "display-seq", "+2"),
    ];
    let (md, _) = organize_metadata(es).unwrap();
    assert_eq!(values(md.group("dc:creator").unwrap()), vec!["B", "A"]);
}

#[test]
fn organize_empty() {
    let (md, mut pending) = organize_metadata(Vec::new()).unwrap();
    assert_eq!(md.group_count(), 0);
    assert!(pending.take_refinements("x").is_none());
}
