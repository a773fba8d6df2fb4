//! The command line: which parts of a publication the `debug` command reads and shows.
use vstd::prelude::*;
use crate::options::{EpubOpenOptions, EpubParseConfig};

verus! {

/// The `debug` command: a publication, and the parts of it to show (all when none is
/// selected).
#[derive(Debug)]
pub struct DebugCommand {
    /// An EPUB file, or a directory holding an unzipped EPUB.
    pub ebook_path: String,
    pub metadata: bool,
    pub manifest: bool,
    pub spine: bool,
    pub toc: bool,
}

/// The commands of the command line.
#[derive(Debug)]
pub enum Commands {
    /// Show the parsed contents of a publication.
    Debug(DebugCommand),
}

impl DebugCommand {
    /// Returns `true` when at least one part is selected.
    pub fn has_selected_components(&self) -> (r: bool)
        ensures
            r == (self.metadata || self.manifest || self.spine || self.toc),
    {
        self.metadata || self.manifest || self.spine || self.toc
    }

    /// The options to open the publication with: every part when none is selected,
    /// else exactly the selected parts.
    pub fn open_options(&self) -> (r: EpubOpenOptions)
        ensures
            ({
                let any = self.metadata || self.manifest || self.spine || self.toc;
                &&& r.0.parse_metadata == (!any || self.metadata)
                &&& r.0.parse_manifest == (!any || self.manifest)
                &&& r.0.parse_spine == (!any || self.spine)
                &&& r.0.parse_toc == (!any || self.toc)
                &&& !r.0.strict
                &&& !r.0.retain_variants
            }),
    {
        let mut options = EpubOpenOptions::new();
        if self.has_selected_components() {
            options.skip_metadata(!self.metadata).skip_manifest(!self.manifest).skip_spine(
                !self.spine,
            ).skip_toc(!self.toc);
        }
        options
    }

    /// Which parts to show, in the order metadata, manifest, spine, table of contents.
    pub fn shown_parts(&self) -> (r: [bool; 4])
        ensures
            r@ == seq![self.metadata, self.manifest, self.spine, self.toc],
    {
        [self.metadata, self.manifest, self.spine, self.toc]
    }
}

} // verus!
