use rbook::element::Href;

#[test]
fn test_href_parent() {
    let expected = [
        (None, "abc.html"),
        (Some("/EPUB"), "/EPUB/c1.xhtml"),
        (Some("a"), "a/b"),
        (None, ""),
        (None, " "),
        (None, "/"),
        (None, "xyz"),
    ];

    for (parent, href) in expected {
        assert_eq!(parent, Href::new(href).parent().map(|p| p.as_str()))
    }
}

#[test]
fn test_href_extension() {
    let expected = [
        (Some("xhtml"), "s04.xhtml#pgepubid00588"),
        (Some("html"), "/EPUB/c1.html?q=1#start"),
        (Some("css"), "abc.css"),
        (Some("xyz"), ".xyz"),
        (None, "a/b"),
        (None, "abc"),
        (None, ""),
        (None, " "),
        (None, "/"),
    ];

    for (extension, href) in expected {
        assert_eq!(extension, Href::new(href).extension())
    }
}

#[test]
fn test_href_path() {
    let expected = [
        ("s04.xhtml", "s04.xhtml#pgepubid00588"),
        ("/EPUB/c1.xhtml", "/EPUB/c1.xhtml?q=1#start"),
        ("a/b/c", "a/b/c"),
        ("", ""),
        ("/", "/"),
        ("", "?q=1#start"),
    ];

    for (path, href) in expected {
        assert_eq!(Href::new(path), Href::new(href).path())
    }
}

#[test]
fn test_href_name() {
    let expected = [
        ("s04.xhtml", "s04.xhtml#pgepubid00588"),
        ("c1.xhtml", "/EPUB/c1.xhtml?q=1#start"),
        ("c", "a/b/c"),
        ("", ""),
        ("", "/"),
        ("", "?q=1#start"),
    ];

    for (path, href) in expected {
        assert_eq!(Href::new(path), Href::new(href).name())
    }
}

#[test]
fn test_href_fragment() {
    let expected = [
        (Some("page-epub-id00588"), "s04.xhtml#page-epub-id00588"),
        (Some("hello%20world"), "/EPUB/c1.xhtml?q=1#hello%20world"),
        (None, "a/b/c"),
        (None, ""),
        (None, "/"),
        (Some(""), "   #"),
        (Some("start"), "   #start"),
    ];

    for (fragment, href) in expected {
        assert_eq!(fragment, Href::new(href).fragment())
    }
}

#[test]
fn test_href_query() {
    let expected = [
        (None, "s04.xhtml#pgepubid00588"),
        (Some("q=1"), "/EPUB/c1.xhtml?q=1#hello%20world"),
        (None, "a/b/c"),
        (Some(""), "?#"),
        (Some(""), "?"),
        (Some("hello=world"), " ?hello=world"),
        (None, "   #start"),
    ];

    for (query, href) in expected {
        assert_eq!(query, Href::new(href).query())
    }
}
