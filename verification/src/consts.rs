//! Element, attribute and property names of the EPUB package document.
use vstd::prelude::*;

verus! {

// Dublin Core
pub const DC_TITLE: &'static str = "dc:title";
pub const DC_LANGUAGE: &'static str = "dc:language";
pub const DC_IDENTIFIER: &'static str = "dc:identifier";
pub const DC_CREATOR: &'static str = "dc:creator";
pub const DC_CONTRIBUTOR: &'static str = "dc:contributor";
pub const DC_DATE: &'static str = "dc:date";
pub const DC_DESCRIPTION: &'static str = "dc:description";
pub const DC_PUBLISHER: &'static str = "dc:publisher";
pub const DC_SUBJECT: &'static str = "dc:subject";
pub const DC_RIGHTS: &'static str = "dc:rights";
pub const DC_MODIFIED: &'static str = "dcterms:modified";
pub const DC_NAMESPACE: &'static str = "dc:";

// XML
pub const XML_ID: &'static str = "id";
pub const XML_LANG: &'static str = "xml:lang";

// Metadata refinements
pub const TITLE_TYPE: &'static str = "title-type";
pub const IDENTIFIER_TYPE: &'static str = "identifier-type";
pub const FILE_AS: &'static str = "file-as";
pub const ROLE: &'static str = "role";
pub const AUTHORITY: &'static str = "authority";
pub const TERM: &'static str = "term";
pub const ALTERNATE_SCRIPT: &'static str = "alternate-script";
pub const DISPLAY_SEQ: &'static str = "display-seq";
pub const SCHEME: &'static str = "scheme";

// Metadata attribute values
pub const COVER: &'static str = "cover";
pub const COVER_IMAGE: &'static str = "cover-image";
pub const GENERATOR: &'static str = "generator";
pub const MODIFICATION: &'static str = "modification";
pub const PUBLICATION: &'static str = "publication";
pub const MAIN_TITLE_TYPE: &'static str = "main";
pub const MARC_RELATORS: &'static str = "marc:relators";

// Spine and container values
pub const YES: &'static str = "yes";
pub const OEBPS_PACKAGE: &'static str = "application/oebps-package+xml";
pub const NAV_PROPERTY: &'static str = "nav";

// Table of contents kinds
pub const TOC_KIND_TOC: &'static str = "toc";
pub const TOC_KIND_LANDMARKS: &'static str = "landmarks";
pub const TOC_KIND_PAGE_LIST: &'static str = "page-list";

// Link and item attribute keys
pub const REL: &'static str = "rel";
pub const HREF: &'static str = "href";
pub const HREFLANG: &'static str = "hreflang";
pub const MEDIA_TYPE: &'static str = "media-type";
pub const PROPERTIES: &'static str = "properties";

// Legacy metadata attribute keys
pub const OPF_ROLE: &'static str = "opf:role";
pub const OPF_FILE_AS: &'static str = "opf:file-as";
pub const OPF_SCHEME: &'static str = "opf:scheme";
pub const OPF_AUTHORITY: &'static str = "opf:authority";
pub const OPF_TERM: &'static str = "opf:term";
pub const OPF_ALT_REP: &'static str = "opf:alt-rep";
pub const OPF_ALT_REP_LANG: &'static str = "opf:alt-rep-lang";
pub const OPF_EVENT: &'static str = "opf:event";

} // verus!
