use rbook::archive::{resource_path, transform_resource, zip_resource_keys, ResourceKey};
use rbook::overlay::resource_key;
use rbook::uri::{decode, into_absolute, normalize, resolve};

#[test]
fn normalize_resolves_dot_segments() {
    assert_eq!("/a/c", normalize("/a/b/../c"));
    assert_eq!("a/c", normalize("a/./c"));
    assert_eq!("/c", normalize("/../c"));
    assert_eq!("/a/b", normalize("/a//b/"));
    assert_eq!("", normalize(""));
    assert_eq!("/", normalize("/"));
}

#[test]
fn resolve_against_a_directory() {
    assert_eq!("/EPUB/text/c1.xhtml", resolve("/EPUB", "text/c1.xhtml"));
    assert_eq!("/images/a.png", resolve("/EPUB", "../images/a.png"));
}

#[test]
fn into_absolute_adds_one_slash() {
    assert_eq!("/a", into_absolute("a"));
    assert_eq!("/a", into_absolute("/a"));
    assert_eq!("/", into_absolute(""));
}

#[test]
fn decode_percent_sequences() {
    assert_eq!("a b", decode("a%20b"));
    assert_eq!("plain", decode("plain"));
    assert_eq!("é", decode("%C3%A9"));
}

#[test]
fn keys_of_resources() {
    assert_eq!("/my dir/a.xhtml", resource_key("my%20dir/a.xhtml"));
    match transform_resource("/EPUB", ResourceKey::Value(String::from("text/c%201.xhtml"))) {
        ResourceKey::Value(v) => assert_eq!("/EPUB/text/c 1.xhtml", v),
        _ => panic!("a location stays a location"),
    }
    match transform_resource("/EPUB", ResourceKey::Value(String::from("/x/../y.css"))) {
        ResourceKey::Value(v) => assert_eq!("/y.css", v),
        _ => panic!("a location stays a location"),
    }
    match transform_resource("/EPUB", ResourceKey::Position(3)) {
        ResourceKey::Position(p) => assert_eq!(3, p),
        _ => panic!("a position stays a position"),
    }
}

#[test]
fn archive_paths() {
    assert_eq!(Some("a/b.xhtml"), resource_path(&ResourceKey::Value(String::from("//a/b.xhtml"))));
    assert_eq!(None, resource_path(&ResourceKey::Position(0)));
    let names = vec![String::from("META-INF/"), String::from("META-INF/container.xml"), String::from("mimetype")];
    assert_eq!(vec![String::from("/META-INF/container.xml"), String::from("/mimetype")], zip_resource_keys(&names));
}
