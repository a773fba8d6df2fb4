use rbook::cli::{Commands, DebugCommand};
use rbook::errors::EpubError;
use rbook::metadata::{EpubVersion, Version};
use rbook::options::{reading_order, EpubOpenOptions, EpubReaderOptions, LinearBehavior};

#[test]
fn open_options_builder() {
    let mut o = EpubOpenOptions::new();
    assert!(!o.0.strict && o.0.parse_toc);
    o.strict(true).skip_toc(true).retain_variants(true).preferred_toc(EpubVersion::from_version(Version(2, 1)));
    assert!(o.0.strict);
    assert!(!o.0.parse_toc);
    assert!(o.0.retain_variants);
    assert_eq!(EpubVersion::Epub2(Version(2, 0)), o.0.preferred_toc);
    o.skip_metadata(true).skip_manifest(true).skip_spine(true);
    assert!(!o.0.parse_metadata && !o.0.parse_manifest && !o.0.parse_spine);
}

#[test]
fn reader_orders() {
    let linear = vec![true, false, true, false];
    assert_eq!(vec![0, 1, 2, 3], reading_order(&linear, LinearBehavior::Original));
    assert_eq!(vec![0, 2], reading_order(&linear, LinearBehavior::LinearOnly));
    assert_eq!(vec![1, 3], reading_order(&linear, LinearBehavior::NonLinearOnly));
    assert_eq!(vec![1, 3, 0, 2], reading_order(&linear, LinearBehavior::PrependNonLinear));
    assert_eq!(vec![0, 2, 1, 3], reading_order(&linear, LinearBehavior::AppendNonLinear));
    let o = EpubReaderOptions::new().linear_behavior(LinearBehavior::LinearOnly).build();
    assert_eq!(LinearBehavior::LinearOnly, o.linear_behavior);
    assert_eq!(LinearBehavior::Original, EpubReaderOptions::builder().linear_behavior);
    assert_eq!(LinearBehavior::Original, LinearBehavior::default());
}

#[test]
fn debug_command_selection() {
    let none = DebugCommand { ebook_path: String::from("a.epub"), metadata: false, manifest: false, spine: false, toc: false };
    assert!(!none.has_selected_components());
    let o = none.open_options();
    assert!(o.0.parse_metadata && o.0.parse_manifest && o.0.parse_spine && o.0.parse_toc);
    let some = DebugCommand { ebook_path: String::from("a.epub"), metadata: true, manifest: false, spine: true, toc: false };
    assert!(some.has_selected_components());
    let o = some.open_options();
    assert!(o.0.parse_metadata && !o.0.parse_manifest && o.0.parse_spine && !o.0.parse_toc);
    assert_eq!([true, false, true, false], some.shown_parts());
    match Commands::Debug(some) {
        Commands::Debug(d) => assert_eq!("a.epub", d.ebook_path),
    }
}

#[test]
fn error_messages() {
    assert_eq!("Duplicate manifest `item` ID found: x", EpubError::DuplicateItemId(String::from("x")).message());
    assert_eq!("Missing `dc:title` metadata entry", EpubError::MissingTitle.message());
    assert_eq!("Required text value is missing for element <dc:title>", EpubError::MissingValue(String::from("dc:title")).message());
}
