use rbook::errors::EpubError;
use rbook::groups::EpubMetadataData;
use rbook::metadata::{EpubMetaEntryData, EpubMetaEntryKind, EpubVersion, Version};
use rbook::element::{Attributes, TextDirection};
use rbook::parse::{
    ascii_tokens, assert_metadata, dublin_core_value, handle_epub_version, meta_kind,
    meta_property_value, metadata_entry, normalize_refines, parse_prefix, parse_usize,
    parse_version,
};

#[test]
fn refines_loses_its_hash() {
    assert_eq!(normalize_refines("#creator01"), "creator01");
    assert_eq!(normalize_refines("creator01"), "creator01");
    assert_eq!(normalize_refines("##x"), "#x");
    assert_eq!(normalize_refines(""), "");
}

#[test]
fn versions_read() {
    assert_eq!(parse_version("3.0"), Some(Version(3, 0)));
    assert_eq!(parse_version("2"), Some(Version(2, 0)));
    assert_eq!(parse_version("3.3"), Some(Version(3, 3)));
    assert_eq!(parse_version("65535.1"), Some(Version(65535, 1)));
    assert_eq!(parse_version("65536"), None);
    assert_eq!(parse_version("3."), None);
    assert_eq!(parse_version(".1"), None);
    assert_eq!(parse_version("3.0.1"), None);
    assert_eq!(parse_version("v3"), None);
    assert_eq!(parse_version(""), None);
}

#[test]
fn epub_version_strict_and_lenient() {
    let d = handle_epub_version(String::from("3.0"), true).unwrap();
    assert_eq!(d.raw, "3.0");
    assert_eq!(d.parsed, EpubVersion::Epub3(Version(3, 0)));
    let d = handle_epub_version(String::from("2.0.1"), false).unwrap();
    assert_eq!(d.parsed, EpubVersion::Unknown(Version(0, 0)));
    assert_eq!(d.raw, "2.0.1");
    match handle_epub_version(String::from("abc"), true) {
        Err(EpubError::InvalidVersion(s)) => assert_eq!(s, "abc"),
        _ => panic!("expected an invalid version"),
    }
}

#[test]
fn unsigned_numbers_read() {
    assert_eq!(parse_usize("12"), Some(12));
    assert_eq!(parse_usize("+7"), Some(7));
    assert_eq!(parse_usize("+"), None);
    assert_eq!(parse_usize(""), None);
    assert_eq!(parse_usize("-1"), None);
    assert_eq!(parse_usize(" 1"), None);
    assert_eq!(parse_usize("99999999999999999999999"), None);
}

#[test]
fn tokens_split_at_ascii_whitespace() {
    let t = ascii_tokens("  a:b \t c:\n d  ");
    assert_eq!(t, vec!["a:b", "c:", "d"]);
    assert!(ascii_tokens("   ").is_empty());
}

#[test]
fn prefixes_read() {
    let p = parse_prefix(
        Some("foaf: http://xmlns.com/foaf/spec/ dbp: http://dbpedia.org/ontology/"),
        true,
    )
    .unwrap();
    assert_eq!(p.len(), 2);
    assert_eq!(p.get(0).unwrap().name(), "foaf");
    assert_eq!(p.get(0).unwrap().uri(), "http://xmlns.com/foaf/spec/");
    assert_eq!(p.get(1).unwrap().name(), "dbp");
    assert_eq!(p.get(1).unwrap().uri(), "http://dbpedia.org/ontology/");
    let p = parse_prefix(Some("a:http://x.org/"), true).unwrap();
    assert_eq!(p.get(0).unwrap().uri(), "http://x.org/");
    assert!(parse_prefix(None, true).unwrap().is_empty());
}

#[test]
fn prefixes_lenient_skip_bad_tokens() {
    let p = parse_prefix(Some("junk a: http://a/ b:"), false).unwrap();
    assert_eq!(p.len(), 1);
    assert_eq!(p.get(0).unwrap().name(), "a");
    let p = parse_prefix(Some(": http://a/"), false).unwrap();
    assert_eq!(p.get(0).unwrap().name(), "");
}

#[test]
fn prefixes_strict_refuse_bad_tokens() {
    match parse_prefix(Some("junk a: http://a/"), true) {
        Err(EpubError::InvalidPrefix(t)) => assert_eq!(t, "junk"),
        _ => panic!("expected an invalid prefix"),
    }
    match parse_prefix(Some("a: http://a/ b:"), true) {
        Err(EpubError::InvalidPrefix(t)) => assert_eq!(t, "b:"),
        _ => panic!("expected an invalid prefix"),
    }
    match parse_prefix(Some(": http://a/"), true) {
        Err(EpubError::InvalidPrefix(t)) => assert_eq!(t, ":"),
        _ => panic!("expected an invalid prefix"),
    }
}

fn dc(property: &str, value: &str, id: Option<&str>) -> EpubMetaEntryData {
    let mut d = EpubMetaEntryData::with_kind(EpubMetaEntryKind::DublinCore {});
    d.property = property.to_string();
    d.value = value.to_string();
    d.id = id.map(|s| s.to_string());
    d
}

#[test]
fn required_metadata_checked_in_order() {
    let mut md = EpubMetadataData::empty();
    assert!(matches!(assert_metadata(&md, "uid", true), Err(EpubError::MissingTitle)));
    assert!(assert_metadata(&md, "uid", false).is_ok());
    md.push_entry(dc("dc:title", "T", None));
    assert!(matches!(assert_metadata(&md, "uid", true), Err(EpubError::MissingLanguage)));
    md.push_entry(dc("dc:language", "en", None));
    match assert_metadata(&md, "uid", true) {
        Err(EpubError::InvalidUniqueIdentifier(s)) => assert_eq!(s, "uid"),
        _ => panic!("expected a missing identifier"),
    }
    md.push_entry(dc("dc:identifier", "urn:x", Some("other")));
    assert!(matches!(
        assert_metadata(&md, "uid", true),
        Err(EpubError::InvalidUniqueIdentifier(_))
    ));
    md.push_entry(dc("dc:identifier", "urn:y", Some("uid")));
    assert!(assert_metadata(&md, "uid", true).is_ok());
}

#[test]
fn metadata_element_kinds() {
    assert!(matches!(meta_kind(true, false, false, false), Some(EpubMetaEntryKind::DublinCore {})));
    match meta_kind(false, true, false, true) {
        Some(EpubMetaEntryKind::Meta { version }) => assert_eq!(version, EpubVersion::epub3()),
        _ => panic!("expected a meta"),
    }
    match meta_kind(false, true, false, false) {
        Some(EpubMetaEntryKind::Meta { version }) => assert_eq!(version, EpubVersion::epub2()),
        _ => panic!("expected a meta"),
    }
    assert!(matches!(meta_kind(false, false, true, false), Some(EpubMetaEntryKind::Link {})));
    assert!(meta_kind(false, false, false, true).is_none());
}

#[test]
fn metadata_element_values() {
    assert_eq!(dublin_core_value("dc:title", Some(String::from("T")), true).unwrap(), "T");
    match dublin_core_value("dc:title", None, true) {
        Err(EpubError::MissingValue(p)) => assert_eq!(p, "dc:title"),
        _ => panic!("expected a missing value"),
    }
    assert_eq!(dublin_core_value("dc:title", None, false).unwrap(), "");

    let (p, v) = meta_property_value(EpubVersion::epub2(), Some(String::from("cover")), None, Some(String::from("img")), None, true).unwrap();
    assert_eq!((p.as_str(), v.as_str()), ("cover", "img"));
    match meta_property_value(EpubVersion::epub2(), Some(String::from("cover")), None, None, None, true) {
        Err(EpubError::MissingAttribute(m)) => assert_eq!(m, "metadata > meta[*content]"),
        _ => panic!("expected a missing attribute"),
    }
    let (p, v) = meta_property_value(EpubVersion::epub3(), None, Some(String::from("dcterms:modified")), None, Some(String::from("2020")), true).unwrap();
    assert_eq!((p.as_str(), v.as_str()), ("dcterms:modified", "2020"));
    match meta_property_value(EpubVersion::epub3(), None, Some(String::from("a")), Some(String::from("b")), None, true) {
        Err(EpubError::MissingValue(m)) => assert_eq!(m, "a"),
        _ => panic!("expected a missing value"),
    }
    let (p, v) = meta_property_value(EpubVersion::epub3(), None, Some(String::from("a")), Some(String::from("b")), None, false).unwrap();
    assert_eq!((p.as_str(), v.as_str()), ("a", "b"));
}

#[test]
fn metadata_entries_as_read() {
    let m = metadata_entry(
        EpubMetaEntryKind::DublinCore {},
        String::from("dc:creator"),
        String::from("Jane"),
        Some(String::from("c1")),
        Some(String::from("en")),
        Some(String::from("#t1")),
        Some(String::from("ltr")),
        Attributes::empty(),
    );
    assert_eq!(m.id.as_deref(), Some("c1"));
    assert_eq!(m.refines.as_deref(), Some("t1"));
    assert_eq!(m.data.value, "Jane");
    assert_eq!(m.data.text_direction, TextDirection::LeftToRight);
    assert!(m.data.id.is_none());
}
