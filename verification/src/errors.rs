//! Errors raised while reading or editing a publication.
use vstd::prelude::*;
use crate::text::{concat, to_string};

verus! {

broadcast use vstd::string::group_string_axioms;

/// What is wrong with a publication, or with a requested change.
#[derive(Debug)]
pub enum EpubError {
    MissingAttribute(String),
    MissingValue(String),
    UnencodedHref(String),
    NoOpfReference,
    NoPackageFound,
    InvalidVersion(String),
    InvalidUniqueIdentifier(String),
    InvalidPrefix(String),
    NoMetadataFound,
    InvalidRefines(String),
    MissingTitle,
    MissingLanguage,
    CyclicMeta(String),
    NoManifestFound,
    DuplicateItemId(String),
    NoXhtmlTocReference,
    NoSpineFound,
    InvalidIdref(String),
    InvalidNcxReference(String),
    NoNcxReference,
    NoTocFound,
}

/// The message of an error: a fixed text, followed by the detail it carries.
pub open spec fn spec_message(e: EpubError) -> Seq<char> {
    match e {
        EpubError::MissingAttribute(s) => "Required attribute missing: "@ + s@,
        EpubError::MissingValue(s) => "Required text value is missing for element <"@ + s@
            + ">"@,
        EpubError::UnencodedHref(s) => "Unencoded href (percent-encoding required): "@ + s@,
        EpubError::NoOpfReference => "Missing `rootfile` element referencing an `.opf` file in `META-INF/container.xml`"@,
        EpubError::NoPackageFound => "Missing `package` element"@,
        EpubError::InvalidVersion(s) => "Invalid package epub `version`: "@ + s@,
        EpubError::InvalidUniqueIdentifier(s) => "Invalid package `unique-identifier` referencing a non-existent `dc:identifier` entry by ID: "@
            + s@,
        EpubError::InvalidPrefix(s) => "Invalid package `prefix`: "@ + s@,
        EpubError::NoMetadataFound => "Missing `metadata` element"@,
        EpubError::InvalidRefines(s) => "Invalid `refines` field referencing a non-existent id: "@
            + s@,
        EpubError::MissingTitle => "Missing `dc:title` metadata entry"@,
        EpubError::MissingLanguage => "Missing `dc:language` metadata entry"@,
        EpubError::CyclicMeta(s) => "Cycle detected in metadata refinements; affected ID: "@ + s@,
        EpubError::NoManifestFound => "Missing `manifest` element"@,
        EpubError::DuplicateItemId(s) => "Duplicate manifest `item` ID found: "@ + s@,
        EpubError::NoXhtmlTocReference => "Manifest missing an `item` with the 'nav' property (Required for EPUB 3)"@,
        EpubError::NoSpineFound => "Missing `spine` element"@,
        EpubError::InvalidIdref(s) => "Invalid spine entry `idref` field that references a non-existent manifest entry by ID: "@
            + s@,
        EpubError::InvalidNcxReference(s) => "Invalid spine `toc` field that references a non-existent manifest entry by ID: "@
            + s@,
        EpubError::NoNcxReference => "Missing spine `toc` field (Required for EPUB 2)"@,
        EpubError::NoTocFound => "No navigation structure (nav or navMap) found in the ToC resource"@,
    }
}

impl EpubError {
    /// The human-readable message of the error.
    pub fn message(&self) -> (r: String)
        ensures
            r@ == spec_message(*self),
    {
        match self {
            EpubError::MissingAttribute(s) => concat("Required attribute missing: ", s.as_str()),
            EpubError::MissingValue(s) => {
                let mut m = concat("Required text value is missing for element <", s.as_str());
                crate::text::push_chars(&mut m, ">");
                m
            },
            EpubError::UnencodedHref(s) => concat(
                "Unencoded href (percent-encoding required): ",
                s.as_str(),
            ),
            EpubError::NoOpfReference => to_string(
                "Missing `rootfile` element referencing an `.opf` file in `META-INF/container.xml`",
            ),
            EpubError::NoPackageFound => to_string("Missing `package` element"),
            EpubError::InvalidVersion(s) => concat("Invalid package epub `version`: ", s.as_str()),
            EpubError::InvalidUniqueIdentifier(s) => concat(
                "Invalid package `unique-identifier` referencing a non-existent `dc:identifier` entry by ID: ",
                s.as_str(),
            ),
            EpubError::InvalidPrefix(s) => concat("Invalid package `prefix`: ", s.as_str()),
            EpubError::NoMetadataFound => to_string("Missing `metadata` element"),
            EpubError::InvalidRefines(s) => concat(
                "Invalid `refines` field referencing a non-existent id: ",
                s.as_str(),
            ),
            EpubError::MissingTitle => to_string("Missing `dc:title` metadata entry"),
            EpubError::MissingLanguage => to_string("Missing `dc:language` metadata entry"),
            EpubError::CyclicMeta(s) => concat(
                "Cycle detected in metadata refinements; affected ID: ",
                s.as_str(),
            ),
            EpubError::NoManifestFound => to_string("Missing `manifest` element"),
            EpubError::DuplicateItemId(s) => concat("Duplicate manifest `item` ID found: ", s.as_str()),
            EpubError::NoXhtmlTocReference => to_string(
                "Manifest missing an `item` with the 'nav' property (Required for EPUB 3)",
            ),
            EpubError::NoSpineFound => to_string("Missing `spine` element"),
            EpubError::InvalidIdref(s) => concat(
                "Invalid spine entry `idref` field that references a non-existent manifest entry by ID: ",
                s.as_str(),
            ),
            EpubError::InvalidNcxReference(s) => concat(
                "Invalid spine `toc` field that references a non-existent manifest entry by ID: ",
                s.as_str(),
            ),
            EpubError::NoNcxReference => to_string("Missing spine `toc` field (Required for EPUB 2)"),
            EpubError::NoTocFound => to_string(
                "No navigation structure (nav or navMap) found in the ToC resource",
            ),
        }
    }
}

} // verus!
