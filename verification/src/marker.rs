//! Zero-sized markers that tell detached metadata entries apart by what they hold,
//! so that each kind offers its own builders.
use vstd::prelude::*;

verus! {

/// A `dc:identifier` entry.
#[derive(Copy, Clone, Debug, Hash, PartialEq, Eq)]
pub struct Identifier;

/// A `dc:title` entry.
#[derive(Copy, Clone, Debug, Hash, PartialEq, Eq)]
pub struct Title;

/// A `dc:creator`, `dc:contributor` or `dc:publisher` entry.
#[derive(Copy, Clone, Debug, Hash, PartialEq, Eq)]
pub struct Contributor;

/// A `dc:subject` entry.
#[derive(Copy, Clone, Debug, Hash, PartialEq, Eq)]
pub struct Tag;

/// A `dc:description` entry.
#[derive(Copy, Clone, Debug, Hash, PartialEq, Eq)]
pub struct Description;

/// A `dc:language` entry.
#[derive(Copy, Clone, Debug, Hash, PartialEq, Eq)]
pub struct Language;

/// A `dc:date` entry.
#[derive(Copy, Clone, Debug, Hash, PartialEq, Eq)]
pub struct Date;

/// A `dc:rights` entry.
#[derive(Copy, Clone, Debug, Hash, PartialEq, Eq)]
pub struct Rights;

/// A `<link>` entry.
#[derive(Copy, Clone, Debug, Hash, PartialEq, Eq)]
pub struct Link;

/// Any entry.
#[derive(Copy, Clone, Debug, Hash, PartialEq, Eq)]
pub struct Unknown;

} // verus!
