//! A whole publication: its package, metadata, manifest, spine, table of contents and
//! stored resources.
use vstd::prelude::*;
use crate::groups::{EpubMetadata, EpubMetadataData, EpubMetadataMut};
use crate::manifest::{EpubManifest, EpubManifestData};
use crate::metadata::{EpubVersion, Version};
use crate::overlay::{ArchiveOverlay, OverlayEntry};
use crate::package::{EpubPackage, EpubPackageData, EpubPackageMetaContext, EpubPackageMut};
use crate::spine::{EpubSpine, EpubSpineData, EpubSpineMut};
use crate::text::to_string;
use crate::toc::{EpubToc, EpubTocData};

verus! {

/// The location of the package file of a new publication.
pub const NEW_PACKAGE_LOCATION: &'static str = "/OEBPS/package.opf";

/// A publication.
pub struct Epub {
    archive: ArchiveOverlay,
    package: EpubPackageData,
    metadata: EpubMetadataData,
    manifest: EpubManifestData,
    spine: EpubSpineData,
    toc: EpubTocData,
}

impl Epub {
    pub closed spec fn spec_archive(&self) -> Seq<OverlayEntry> {
        self.archive@
    }

    pub closed spec fn spec_package(&self) -> EpubPackageData {
        self.package
    }

    pub closed spec fn spec_metadata(&self) -> EpubMetadataData {
        self.metadata
    }

    pub closed spec fn spec_manifest(&self) -> EpubManifestData {
        self.manifest
    }

    pub closed spec fn spec_spine(&self) -> EpubSpineData {
        self.spine
    }

    pub closed spec fn spec_toc(&self) -> EpubTocData {
        self.toc
    }

    /// A new, empty EPUB 3.3 publication whose package file is at
    /// `/OEBPS/package.opf`: no metadata, items, spine entries, tables of contents or
    /// stored resources.
    pub fn new() -> (r: Self)
        ensures
            r.spec_package().location@ == NEW_PACKAGE_LOCATION@,
            r.spec_package().version.parsed == EpubVersion::Epub3(Version(3, 3)),
            r.spec_package().unique_identifier@.len() == 0,
            r.spec_package().prefixes@.len() == 0,
            r.spec_package().language is None,
            r.spec_package().attributes@.len() == 0,
            r.spec_metadata().groups().len() == 0,
            r.spec_manifest().items().len() == 0,
            r.spec_spine().entries@.len() == 0,
            r.spec_toc().entries@.len() == 0,
            r.spec_archive().len() == 0,
    {
        Epub {
            archive: ArchiveOverlay::new(),
            package: EpubPackageData::new(to_string(NEW_PACKAGE_LOCATION), EpubVersion::Epub3(Version(3, 3))),
            metadata: EpubMetadataData::empty(),
            manifest: EpubManifestData::empty(),
            spine: EpubSpineData::empty(),
            toc: EpubTocData::empty(),
        }
    }

    /// A publication made of the given parts.
    pub fn from_parts(
        archive: ArchiveOverlay,
        package: EpubPackageData,
        metadata: EpubMetadataData,
        manifest: EpubManifestData,
        spine: EpubSpineData,
        toc: EpubTocData,
    ) -> (r: Self)
        ensures
            r.spec_archive() == archive@,
            r.spec_package() == package,
            r.spec_metadata() == metadata,
            r.spec_manifest() == manifest,
            r.spec_spine() == spine,
            r.spec_toc() == toc,
    {
        Epub { archive, package, metadata, manifest, spine, toc }
    }

    /// The package.
    pub fn package(&self) -> (r: EpubPackage<'_>)
        ensures
            r.spec_data() == self.spec_package(),
    {
        EpubPackage::new(&self.package)
    }

    /// The metadata.
    pub fn metadata(&self) -> (r: EpubMetadata<'_>)
        ensures
            r.spec_groups() == self.spec_metadata().groups(),
            r.spec_package() == self.spec_package(),
    {
        EpubMetadata::new(&self.package, &self.metadata)
    }

    /// The manifest.
    pub fn manifest(&self) -> (r: EpubManifest<'_>)
        ensures
            r.spec_items() == self.spec_manifest().items(),
            r.spec_metadata() == self.spec_metadata().groups(),
    {
        EpubManifest::new(&self.manifest, &self.metadata)
    }

    /// The spine.
    pub fn spine(&self) -> (r: EpubSpine<'_>)
        ensures
            r.spec_entries() == self.spec_spine().entries@,
            r.spec_page_direction() == self.spec_spine().page_direction,
            r.spec_manifest() == self.spec_manifest(),
    {
        EpubSpine::new(EpubPackageMetaContext::new(&self.package), &self.manifest, &self.spine)
    }

    /// The tables of contents.
    pub fn toc(&self) -> (r: EpubToc<'_>)
        ensures
            r.spec_toc() == self.spec_toc(),
            r.spec_manifest() == self.spec_manifest(),
    {
        EpubToc::new(&self.manifest, &self.toc)
    }

    /// A mutable view over the package.
    pub fn package_mut(&mut self) -> (r: EpubPackageMut<'_>)
        ensures
            *r.package == old(self).spec_package(),
            (*r.archive)@ == old(self).spec_archive(),
            final(self).spec_package() == *final(r.package),
            final(self).spec_archive() == (*final(r.archive))@,
            final(self).spec_metadata() == old(self).spec_metadata(),
            final(self).spec_manifest() == old(self).spec_manifest(),
            final(self).spec_spine() == old(self).spec_spine(),
            final(self).spec_toc() == old(self).spec_toc(),
    {
        EpubPackageMut { archive: &mut self.archive, package: &mut self.package }
    }

    /// A mutable view over the metadata.
    pub fn metadata_mut(&mut self) -> (r: EpubMetadataMut<'_>)
        ensures
            *r.package == old(self).spec_package(),
            *r.metadata == old(self).spec_metadata(),
            final(self).spec_package() == *final(r.package),
            final(self).spec_metadata() == *final(r.metadata),
            final(self).spec_archive() == old(self).spec_archive(),
            final(self).spec_manifest() == old(self).spec_manifest(),
            final(self).spec_spine() == old(self).spec_spine(),
            final(self).spec_toc() == old(self).spec_toc(),
    {
        EpubMetadataMut { package: &mut self.package, metadata: &mut self.metadata }
    }

    /// A mutable view over the spine.
    pub fn spine_mut(&mut self) -> (r: EpubSpineMut<'_>)
        ensures
            *r.spine == old(self).spec_spine(),
            final(self).spec_spine() == *final(r.spine),
            final(self).spec_package() == old(self).spec_package(),
            final(self).spec_archive() == old(self).spec_archive(),
            final(self).spec_metadata() == old(self).spec_metadata(),
            final(self).spec_manifest() == old(self).spec_manifest(),
            final(self).spec_toc() == old(self).spec_toc(),
    {
        EpubSpineMut { ctx: EpubPackageMetaContext::empty(), spine: &mut self.spine }
    }
}

} // verus!
