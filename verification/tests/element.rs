use rbook::element::{Attribute, Attributes, Name, Properties, TextDirection};

#[test]
fn properties_insert_and_query() {
    let mut p = Properties::from_string(String::new());
    assert!(p.is_empty());
    assert!(p.insert("nav scripted"));
    assert_eq!("nav scripted", p.as_str());
    assert_eq!(2, p.len());
    assert_eq!(Some("nav"), p.get(0));
    assert_eq!(Some("scripted"), p.get(1));
    assert_eq!(None, p.get(2));
    assert!(p.has_property("nav"));
    assert!(!p.has_property("na"));
    // Inserting a present property changes nothing.
    assert!(!p.insert("nav"));
    assert_eq!("nav scripted", p.as_str());
}

#[test]
fn properties_remove() {
    let mut p = Properties::from_string(String::from("a b c"));
    assert!(p.remove("b"));
    assert_eq!("a c", p.as_str());
    assert!(!p.has_property("b"));
    assert!(!p.remove("zzz"));
    assert!(p.remove("a c"));
    assert!(p.is_empty());
    assert_eq!(None, p.as_option_str());
}

#[test]
fn properties_iter_in_order() {
    let p = Properties::from_string(String::from("  x   y z "));
    let mut it = p.iter();
    assert_eq!(Some("x"), it.next());
    assert_eq!(Some("y"), it.next());
    assert_eq!(Some("z"), it.next());
    assert_eq!(None, it.next());
}

#[test]
fn attributes_insert_replaces_in_place() {
    let mut a = Attributes::empty();
    assert!(a.insert(Attribute::new("id", "one")).is_none());
    assert!(a.insert(Attribute::new("class", "c")).is_none());
    let previous = a.insert(Attribute::new("id", " two "));
    assert_eq!("one", previous.unwrap().value());
    assert_eq!(2, a.len());
    assert_eq!("id", a.get(0).unwrap().name().as_str());
    assert_eq!(Some("two"), a.get_value("id"));
    assert!(a.has_name("class"));
    assert!(!a.has_name("missing"));
}

#[test]
fn attributes_remove_retain_drain() {
    let mut a = Attributes::from_vec(vec![
        Attribute::new("a", "1"),
        Attribute::new("b", "2"),
        Attribute::new("c", "3"),
    ]);
    assert_eq!("2", a.remove("b").unwrap().value());
    assert!(a.by_name("b").is_none());
    // The closure names the attributes to drop.
    a.retain(|x: &Attribute| x.value() == "3");
    assert_eq!(1, a.len());
    let extracted = a.extract_if(|x: &Attribute| x.value() == "1");
    assert_eq!(1, extracted.len());
    assert!(a.is_empty());
    a.insert(Attribute::new("d", "4"));
    let drained = a.drain();
    assert_eq!(1, drained.len());
    assert!(a.is_empty());
}

#[test]
fn attribute_set_value_trims() {
    let mut x = Attribute::new("  lang ", "en");
    assert_eq!("lang", x.name().as_str());
    assert_eq!("en", x.set_value("  fr  "));
    assert_eq!("fr", x.value());
    x.as_properties_mut().insert("de");
    assert_eq!("fr de", x.value());
}

#[test]
fn name_prefix_and_local() {
    let n = Name::new("dc:title");
    assert_eq!(Some("dc"), n.prefix());
    assert_eq!("title", n.local());
    let m = Name::new("title");
    assert_eq!(None, m.prefix());
    assert_eq!("title", m.local());
}

#[test]
fn text_direction_round_trip() {
    for d in [TextDirection::LeftToRight, TextDirection::RightToLeft, TextDirection::Auto] {
        assert_eq!(d, TextDirection::from_value(d.as_str()));
    }
    assert_eq!(TextDirection::Auto, TextDirection::from_value("sideways"));
    assert!(TextDirection::default().is_auto());
    assert!(TextDirection::LeftToRight.is_ltr());
    assert!(TextDirection::RightToLeft.is_rtl());
}

#[test]
fn properties_insert_reports_new_ones() {
    let mut p = Properties::from_string(String::new());
    assert_eq!(true, p.insert("nav scripted"));
    assert_eq!("nav scripted", p.as_str());
    assert_eq!(true, p.insert("nav cover"));
    assert_eq!("nav scripted cover", p.as_str());
    assert_eq!(false, p.insert("scripted"));
    assert_eq!("nav scripted cover", p.as_str());
}

#[test]
fn properties_remove_whole_properties_only() {
    let mut p = Properties::from_string(String::from("nav scripted cover"));
    assert_eq!(false, p.remove("script"));
    assert_eq!("nav scripted cover", p.as_str());
    assert_eq!(true, p.remove("scripted"));
    assert_eq!("nav cover", p.as_str());
    assert_eq!(true, p.remove("nav scripted cover"));
    assert!(p.is_empty());
}

#[test]
fn properties_remove_splits_on_any_whitespace() {
    let mut p = Properties::from_string(String::from("nav\tscripted"));
    assert!(p.remove("nav"));
    assert_eq!("scripted", p.as_str());
    let mut q = Properties::from_string(String::from("a b a  c"));
    assert!(q.remove("a x"));
    assert_eq!("b c", q.as_str());
    assert!(!q.has_property("a"));
    assert!(!q.remove("x"));
    assert_eq!("b c", q.as_str());
}

#[test]
fn attribute_from_pair_trims() {
    let a = Attribute::from((" id ", " x "));
    assert_eq!("id", a.name().as_str());
    assert_eq!("x", a.value());
}

#[test]
fn attributes_get_mut_by_index() {
    let mut attrs = Attributes::empty();
    attrs.insert(Attribute::new("a", "1"));
    attrs.insert(Attribute::new("b", "2"));
    attrs.get_mut(1).unwrap().set_value("3");
    assert_eq!(Some("3"), attrs.get_value("b"));
    assert!(attrs.get_mut(2).is_none());
}

#[test]
fn properties_insert_appends_new_words_once() {
    let mut p = Properties::from_string(String::from("nav  svg"));
    assert!(p.insert("svg mathml mathml scripted"));
    assert_eq!("nav  svg mathml scripted", p.as_str());
    assert!(!p.insert("nav\tscripted"));
    assert!(p.has_property("mathml"));
}

#[test]
fn properties_remove_keeps_other_words_in_order() {
    let mut p = Properties::from_string(String::from("a b c d"));
    assert!(p.remove("c a z"));
    assert_eq!("b d", p.as_str());
    assert!(!p.has_property("a"));
    assert!(!p.remove("z"));
    assert_eq!("b d", p.as_str());
}
