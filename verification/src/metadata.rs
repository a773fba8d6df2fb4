//! EPUB metadata: versions, entry kinds, entry data with nested refinements,
//! and read-only views over entries.
use vstd::prelude::*;
use crate::consts;
use crate::element::{Attribute, Attributes, Href, Name, Properties, TextDirection};
use crate::keyed::{key_index, Keyed, lemma_key_index};
use crate::package::{EpubPackageData, EpubPackageMetaContext};
use crate::text::{opt_as_str, opt_str_view, opt_string_view, str_eq, trim};

verus! {

broadcast use vstd::string::group_string_axioms;

// ---------------------------------------------------------------------------
// Versions
// ---------------------------------------------------------------------------

/// A `major.minor` version number.
#[derive(Copy, Clone, Debug, Hash, PartialEq, Eq, Structural)]
pub struct Version(pub u16, pub u16);

/// An EPUB version, classified by its major number.
#[derive(Copy, Clone, Debug, Hash, PartialEq, Eq, Structural)]
pub enum EpubVersion {
    /// EPUB 2 (`2.x`).
    Epub2(Version),
    /// EPUB 3 (`3.x`).
    Epub3(Version),
    /// Any other version.
    Unknown(Version),
}

/// The classification of a version by its major number.
pub open spec fn spec_epub_version(v: Version) -> EpubVersion {
    if v.0 == 2 {
        EpubVersion::Epub2(v)
    } else if v.0 == 3 {
        EpubVersion::Epub3(v)
    } else {
        EpubVersion::Unknown(v)
    }
}

/// The version number held by an EPUB version.
pub open spec fn spec_version(v: EpubVersion) -> Version {
    match v {
        EpubVersion::Epub2(x) => x,
        EpubVersion::Epub3(x) => x,
        EpubVersion::Unknown(x) => x,
    }
}

/// The character of a decimal digit.
pub open spec fn spec_digit(d: nat) -> char {
    (d + 48) as char
}

/// The decimal representation of `n`, without leading zeros.
pub open spec fn spec_decimal(n: nat) -> Seq<char>
    decreases n,
{
    if n < 10 {
        seq![spec_digit(n)]
    } else {
        spec_decimal(n / 10).push(spec_digit(n % 10))
    }
}

/// The text of a version: `major.minor`.
pub open spec fn spec_version_string(v: Version) -> Seq<char> {
    spec_decimal(v.0 as nat) + seq!['.'] + spec_decimal(v.1 as nat)
}

fn digit_char(d: u16) -> (r: char)
    requires
        d < 10,
    ensures
        r == spec_digit(d as nat),
{
    let b: u8 = d as u8 + 48u8;
    b as char
}

/// Appends the decimal representation of `n`.
pub fn push_decimal(s: &mut String, n: u16)
    ensures
        final(s)@ == old(s)@ + spec_decimal(n as nat),
    decreases n,
{
    if n >= 10 {
        push_decimal(s, n / 10);
    }
    crate::text::push_char(s, digit_char(n % 10));
}

/// Appends the decimal representation of `n`.
pub fn push_decimal_usize(s: &mut String, n: usize)
    ensures
        final(s)@ == old(s)@ + spec_decimal(n as nat),
    decreases n,
{
    if n >= 10 {
        push_decimal_usize(s, n / 10);
    }
    let d: u8 = (n % 10) as u8;
    let b: u8 = d + 48u8;
    crate::text::push_char(s, b as char);
}

/// The text of a version: `major.minor`.
pub fn version_string(v: Version) -> (r: String)
    ensures
        r@ == spec_version_string(v),
{
    let mut s = String::new();
    push_decimal(&mut s, v.0);
    crate::text::push_char(&mut s, '.');
    push_decimal(&mut s, v.1);
    assert(s@ =~= spec_version_string(v));
    s
}

/// The major form of a version: `2.0`, `3.0`, or the major number with minor `0`.
pub open spec fn spec_as_major(v: EpubVersion) -> EpubVersion {
    match v {
        EpubVersion::Epub2(_) => EpubVersion::Epub2(Version(2, 0)),
        EpubVersion::Epub3(_) => EpubVersion::Epub3(Version(3, 0)),
        EpubVersion::Unknown(x) => EpubVersion::Unknown(Version(x.0, 0)),
    }
}

impl EpubVersion {
    /// EPUB 2.0
    pub fn epub2() -> (r: Self)
        ensures
            r == EpubVersion::Epub2(Version(2, 0)),
    {
        EpubVersion::Epub2(Version(2, 0))
    }

    /// EPUB 3.0
    pub fn epub3() -> (r: Self)
        ensures
            r == EpubVersion::Epub3(Version(3, 0)),
    {
        EpubVersion::Epub3(Version(3, 0))
    }

    /// Classifies a version by its major number.
    pub fn from_version(version: Version) -> (r: Self)
        ensures
            r == spec_epub_version(version),
    {
        if version.0 == 2 {
            EpubVersion::Epub2(version)
        } else if version.0 == 3 {
            EpubVersion::Epub3(version)
        } else {
            EpubVersion::Unknown(version)
        }
    }

    /// The version with its minor number dropped (`2.0`, `3.0`, or `major.0`).
    pub fn as_major(&self) -> (r: Self)
        ensures
            r == spec_as_major(*self),
    {
        match self {
            EpubVersion::Epub2(_) => EpubVersion::Epub2(Version(2, 0)),
            EpubVersion::Epub3(_) => EpubVersion::Epub3(Version(3, 0)),
            EpubVersion::Unknown(v) => EpubVersion::Unknown(Version(v.0, 0)),
        }
    }

    /// The version number.
    pub fn version(&self) -> (r: Version)
        ensures
            r == spec_version(*self),
    {
        match self {
            EpubVersion::Epub2(v) => *v,
            EpubVersion::Epub3(v) => *v,
            EpubVersion::Unknown(v) => *v,
        }
    }

    /// Returns `true` for an EPUB 2 version.
    pub fn is_epub2(&self) -> (r: bool)
        ensures
            r == (*self is Epub2),
    {
        matches!(self, EpubVersion::Epub2(_))
    }

    /// Returns `true` for an EPUB 3 version.
    pub fn is_epub3(&self) -> (r: bool)
        ensures
            r == (*self is Epub3),
    {
        matches!(self, EpubVersion::Epub3(_))
    }

    /// Returns `true` for a version that is neither EPUB 2 nor EPUB 3.
    pub fn is_unknown(&self) -> (r: bool)
        ensures
            r == (*self is Unknown),
    {
        matches!(self, EpubVersion::Unknown(_))
    }
}

// ---------------------------------------------------------------------------
// Entry kinds
// ---------------------------------------------------------------------------

/// The kind of metadata element an entry came from.
#[derive(Copy, Clone, Debug, Hash, PartialEq, Eq, Structural)]
pub enum EpubMetaEntryKind {
    /// A Dublin Core element (`dc:*`).
    DublinCore {},
    /// A `<meta>` element, EPUB 2 (`name`/`content`) or EPUB 3 (`property`) style.
    Meta { version: EpubVersion },
    /// A `<link>` element.
    Link {},
}

impl EpubMetaEntryKind {
    /// Returns `true` for a Dublin Core entry.
    pub fn is_dublin_core(&self) -> (r: bool)
        ensures
            r == (*self is DublinCore),
    {
        matches!(self, EpubMetaEntryKind::DublinCore { .. })
    }

    /// Returns `true` for a `<meta>` entry.
    pub fn is_meta(&self) -> (r: bool)
        ensures
            r == (*self is Meta),
    {
        matches!(self, EpubMetaEntryKind::Meta { .. })
    }

    /// Returns `true` for an EPUB 2 style `<meta>` entry.
    pub fn is_epub2_meta(&self) -> (r: bool)
        ensures
            r == (*self is Meta && self->version is Epub2),
    {
        match self {
            EpubMetaEntryKind::Meta { version } => version.is_epub2(),
            _ => false,
        }
    }

    /// Returns `true` for an EPUB 3 style `<meta>` entry.
    pub fn is_epub3_meta(&self) -> (r: bool)
        ensures
            r == (*self is Meta && self->version is Epub3),
    {
        match self {
            EpubMetaEntryKind::Meta { version } => version.is_epub3(),
            _ => false,
        }
    }

    /// Returns `true` for a `<link>` entry.
    pub fn is_link(&self) -> (r: bool)
        ensures
            r == (*self is Link),
    {
        matches!(self, EpubMetaEntryKind::Link { .. })
    }

    /// The structural version of a `<meta>` entry.
    pub fn version(&self) -> (r: Option<EpubVersion>)
        ensures
            r == (match *self {
                EpubMetaEntryKind::Meta { version } => Some(version),
                _ => None,
            }),
    {
        match self {
            EpubMetaEntryKind::Meta { version } => Some(*version),
            _ => None,
        }
    }
}

// ---------------------------------------------------------------------------
// Supporting value types
// ---------------------------------------------------------------------------

/// The kind of a language tag.
#[derive(Copy, Clone, Debug, Hash, PartialEq, Eq, Structural)]
pub enum LanguageKind {
    /// BCP 47 language tags.
    Bcp47,
}

impl LanguageKind {
    /// The name of the language tag kind.
    pub fn as_str(&self) -> (r: &'static str)
        ensures
            r@ == "BCP 47"@,
    {
        "BCP 47"
    }
}

/// A language code together with its kind.
#[derive(Copy, Clone, Debug, Hash, PartialEq, Eq)]
pub struct LanguageTag<'a> {
    code: &'a str,
    kind: LanguageKind,
}

impl<'a> LanguageTag<'a> {
    pub closed spec fn spec_code(&self) -> Seq<char> {
        self.code@
    }

    pub closed spec fn spec_kind(&self) -> LanguageKind {
        self.kind
    }

    pub fn new(code: &'a str, kind: LanguageKind) -> (r: Self)
        ensures
            r.spec_code() == code@,
            r.spec_kind() == kind,
    {
        LanguageTag { code, kind }
    }

    /// The language code.
    pub fn code(&self) -> (r: &'a str)
        ensures
            r@ == self.spec_code(),
    {
        self.code
    }

    /// The language tag kind.
    pub fn kind(&self) -> (r: LanguageKind)
        ensures
            r == self.spec_kind(),
    {
        self.kind
    }
}

/// A scheme: an optional authority/source together with a code or value.
#[derive(Copy, Clone, Debug, Hash, PartialEq, Eq)]
pub struct Scheme<'a> {
    source: Option<&'a str>,
    code: &'a str,
}

impl<'a> Scheme<'a> {
    pub closed spec fn spec_source(&self) -> Option<Seq<char>> {
        opt_str_view(self.source)
    }

    pub closed spec fn spec_code(&self) -> Seq<char> {
        self.code@
    }

    pub fn new(source: Option<&'a str>, code: &'a str) -> (r: Self)
        ensures
            r.spec_source() == opt_str_view(source),
            r.spec_code() == code@,
    {
        Scheme { source, code }
    }

    /// The source or authority of the scheme, if any.
    pub fn source(&self) -> (r: Option<&'a str>)
        ensures
            opt_str_view(r) == self.spec_source(),
    {
        self.source
    }

    /// The code or value of the scheme.
    pub fn code(&self) -> (r: &'a str)
        ensures
            r@ == self.spec_code(),
    {
        self.code
    }
}

/// Text in an alternate script together with its language.
#[derive(Copy, Clone, Debug, Hash, PartialEq, Eq)]
pub struct AlternateScript<'a> {
    script: &'a str,
    language: LanguageTag<'a>,
}

impl<'a> AlternateScript<'a> {
    pub closed spec fn spec_script(&self) -> Seq<char> {
        self.script@
    }

    pub closed spec fn spec_language(&self) -> LanguageTag<'a> {
        self.language
    }

    pub fn new(script: &'a str, language: LanguageTag<'a>) -> (r: Self)
        ensures
            r.spec_script() == script@,
            r.spec_language() == language,
    {
        AlternateScript { script, language }
    }

    /// The text in the alternate script.
    pub fn value(&self) -> (r: &'a str)
        ensures
            r@ == self.spec_script(),
    {
        self.script
    }

    /// The language of the alternate script.
    pub fn language(&self) -> (r: LanguageTag<'a>)
        ensures
            r == self.spec_language(),
    {
        self.language
    }
}

/// The kind of a title.
#[derive(Copy, Clone, Debug, Hash, PartialEq, Eq, Structural)]
pub enum TitleKind {
    Main,
    Subtitle,
    Short,
    Collection,
    Edition,
    Expanded,
    Unknown,
}

/// The title kind named by `s` (`main`, `subtitle`, `short`, `collection`, `edition`,
/// `expanded`); any other value is [`TitleKind::Unknown`].
pub open spec fn spec_title_kind(s: Seq<char>) -> TitleKind {
    if s == "main"@ {
        TitleKind::Main
    } else if s == "subtitle"@ {
        TitleKind::Subtitle
    } else if s == "short"@ {
        TitleKind::Short
    } else if s == "collection"@ {
        TitleKind::Collection
    } else if s == "edition"@ {
        TitleKind::Edition
    } else if s == "expanded"@ {
        TitleKind::Expanded
    } else {
        TitleKind::Unknown
    }
}

/// The `title-type` value of a title kind; none for [`TitleKind::Unknown`].
pub open spec fn spec_title_kind_str(k: TitleKind) -> Option<Seq<char>> {
    match k {
        TitleKind::Main => Some("main"@),
        TitleKind::Subtitle => Some("subtitle"@),
        TitleKind::Short => Some("short"@),
        TitleKind::Collection => Some("collection"@),
        TitleKind::Edition => Some("edition"@),
        TitleKind::Expanded => Some("expanded"@),
        TitleKind::Unknown => None,
    }
}

impl TitleKind {
    /// The title kind named by `value`.
    pub fn from_value(value: &str) -> (r: Self)
        ensures
            r == spec_title_kind(value@),
    {
        if str_eq(value, "main") {
            TitleKind::Main
        } else if str_eq(value, "subtitle") {
            TitleKind::Subtitle
        } else if str_eq(value, "short") {
            TitleKind::Short
        } else if str_eq(value, "collection") {
            TitleKind::Collection
        } else if str_eq(value, "edition") {
            TitleKind::Edition
        } else if str_eq(value, "expanded") {
            TitleKind::Expanded
        } else {
            TitleKind::Unknown
        }
    }

    /// The `title-type` value, if the kind is known.
    pub fn as_str(&self) -> (r: Option<&'static str>)
        ensures
            opt_str_view(r) == spec_title_kind_str(*self),
    {
        match self {
            TitleKind::Main => Some("main"),
            TitleKind::Subtitle => Some("subtitle"),
            TitleKind::Short => Some("short"),
            TitleKind::Collection => Some("collection"),
            TitleKind::Edition => Some("edition"),
            TitleKind::Expanded => Some("expanded"),
            TitleKind::Unknown => None,
        }
    }
}

// ---------------------------------------------------------------------------
// Entry data
// ---------------------------------------------------------------------------

/// The data of one metadata entry, with its refinements nested inside it.
#[derive(Debug)]
pub struct EpubMetaEntryData {
    pub id: Option<String>,
    pub property: String,
    pub value: String,
    pub language: Option<String>,
    pub text_direction: TextDirection,
    pub attributes: Attributes,
    pub refinements: EpubRefinementsData,
    pub kind: EpubMetaEntryKind,
}

/// The refinements of an entry, in order.
#[derive(Debug)]
pub struct EpubRefinementsData(pub Vec<EpubMetaEntryData>);

impl Keyed for EpubMetaEntryData {
    open spec fn spec_key(&self) -> Seq<char> {
        self.property@
    }

    fn key(&self) -> (r: &str) {
        self.property.as_str()
    }
}

impl EpubMetaEntryData {
    /// An entry of the given kind with every other field empty.
    pub fn with_kind(kind: EpubMetaEntryKind) -> (r: Self)
        ensures
            r.id is None,
            r.property@.len() == 0,
            r.value@.len() == 0,
            r.language is None,
            r.text_direction == TextDirection::Auto,
            r.attributes@.len() == 0,
            r.refinements.0@.len() == 0,
            r.kind == kind,
    {
        EpubMetaEntryData {
            id: None,
            property: String::new(),
            value: String::new(),
            language: None,
            text_direction: TextDirection::Auto,
            attributes: Attributes::empty(),
            refinements: EpubRefinementsData(Vec::new()),
            kind,
        }
    }
}

impl Default for EpubMetaEntryData {
    /// An EPUB 3 `<meta>` entry with every field empty.
    fn default() -> (r: Self)
        ensures
            r.id is None,
            r.property@.len() == 0,
            r.value@.len() == 0,
            r.language is None,
            r.text_direction == TextDirection::Auto,
            r.attributes@.len() == 0,
            r.refinements.0@.len() == 0,
            r.kind == (EpubMetaEntryKind::Meta { version: EpubVersion::Epub3(Version(3, 0)) }),
    {
        EpubMetaEntryData::with_kind(EpubMetaEntryKind::Meta { version: EpubVersion::epub3() })
    }
}

/// `a` and `b` hold the same entry: the same fields (strings by their text, attributes
/// by name and value) and, in order, the same refinements.
pub open spec fn same_entry(a: EpubMetaEntryData, b: EpubMetaEntryData) -> bool
    decreases a, 1int, 0int,
{
    &&& opt_string_view(a.id) == opt_string_view(b.id)
    &&& a.property@ == b.property@
    &&& a.value@ == b.value@
    &&& opt_string_view(a.language) == opt_string_view(b.language)
    &&& a.text_direction == b.text_direction
    &&& crate::element::same_attributes(a.attributes@, b.attributes@)
    &&& a.kind == b.kind
    &&& a.refinements.0@.len() == b.refinements.0@.len()
    &&& same_entries(a.refinements.0@, b.refinements.0@, a.refinements.0@.len())
}

/// The first `k` entries of `s` and `t` are the same entries (see [`same_entry`]).
pub open spec fn same_entries(s: Seq<EpubMetaEntryData>, t: Seq<EpubMetaEntryData>, k: nat) -> bool
    decreases s, 0int, k,
{
    if k == 0 || k > s.len() {
        k == 0
    } else {
        same_entries(s, t, (k - 1) as nat) && same_entry(s[k - 1], t[k - 1])
    }
}

proof fn lemma_same_entries_push(s: Seq<EpubMetaEntryData>, t: Seq<EpubMetaEntryData>, x: EpubMetaEntryData, y: EpubMetaEntryData, k: nat)
    requires
        k <= s.len(),
        k <= t.len(),
        same_entries(s, t, k),
    ensures
        same_entries(s.push(x), t.push(y), k),
    decreases k,
{
    if k > 0 {
        lemma_same_entries_push(s, t, x, y, (k - 1) as nat);
        assert(s.push(x)[k - 1] == s[k - 1]);
        assert(t.push(y)[k - 1] == t[k - 1]);
    }
}

impl EpubMetaEntryData {
    /// A copy of the entry, with copies of its refinements.
    pub fn duplicate(&self) -> (r: Self)
        ensures
            same_entry(r, *self),
        decreases *self,
    {
        let items = &self.refinements.0;
        let n = items.len();
        let mut out: Vec<EpubMetaEntryData> = Vec::new();
        let mut i: usize = 0;
        while i < n
            invariant
                n == items@.len(),
                items@ == self.refinements.0@,
                i <= n,
                out@.len() == i,
                same_entries(out@, items@, i as nat),
            decreases n - i,
        {
            proof {
                assert(decreases_to!(*self => self.refinements));
                assert(decreases_to!(self.refinements => self.refinements.0));
                assert(decreases_to!(self.refinements.0 => self.refinements.0@));
                assert(decreases_to!(self.refinements.0@ => self.refinements.0@[i as int]));
            }
            let c = items[i].duplicate();
            proof {
                lemma_same_entries_take(out@, items@, i as nat, i as int);
                lemma_same_entries_push(out@, items@.take(i as int), c, items@[i as int], i as nat);
                assert(items@.take(i as int).push(items@[i as int]) =~= items@.take(i + 1));
                assert(out@.push(c)[i as int] == c);
                assert(same_entries(out@.push(c), items@.take(i + 1), (i + 1) as nat));
                lemma_same_entries_take(out@.push(c), items@, (i + 1) as nat, (i + 1) as int);
            }
            out.push(c);
            i = i + 1;
        }
        proof {
            lemma_same_entries_take(out@, items@, n as nat, n as int);
            assert(items@.take(n as int) =~= items@);
        }
        EpubMetaEntryData {
            id: match &self.id {
                Some(x) => Some(x.clone()),
                None => None,
            },
            property: self.property.clone(),
            value: self.value.clone(),
            language: match &self.language {
                Some(x) => Some(x.clone()),
                None => None,
            },
            text_direction: self.text_direction,
            attributes: self.attributes.duplicate(),
            refinements: EpubRefinementsData(out),
            kind: self.kind,
        }
    }
}

impl EpubRefinementsData {
    /// Copies of the refinements, in order.
    pub fn duplicate(&self) -> (r: Self)
        ensures
            r.0@.len() == self.0@.len(),
            same_entries(r.0@, self.0@, self.0@.len()),
    {
        let items = &self.0;
        let n = items.len();
        let mut out: Vec<EpubMetaEntryData> = Vec::new();
        let mut i: usize = 0;
        while i < n
            invariant
                n == items@.len(),
                items@ == self.0@,
                i <= n,
                out@.len() == i,
                same_entries(out@, items@, i as nat),
            decreases n - i,
        {
            let c = items[i].duplicate();
            proof {
                lemma_same_entries_take(out@, items@, i as nat, i as int);
                lemma_same_entries_push(out@, items@.take(i as int), c, items@[i as int], i as nat);
                assert(items@.take(i as int).push(items@[i as int]) =~= items@.take(i + 1));
                assert(out@.push(c)[i as int] == c);
                assert(same_entries(out@.push(c), items@.take(i + 1), (i + 1) as nat));
                lemma_same_entries_take(out@.push(c), items@, (i + 1) as nat, (i + 1) as int);
            }
            out.push(c);
            i = i + 1;
        }
        EpubRefinementsData(out)
    }
}

/// Whether the first `k` entries match depends only on the first `m >= k` of `t`.
proof fn lemma_same_entries_take(s: Seq<EpubMetaEntryData>, t: Seq<EpubMetaEntryData>, k: nat, m: int)
    requires
        k <= m <= t.len(),
    ensures
        same_entries(s, t, k) == same_entries(s, t.take(m), k),
    decreases k,
{
    if k > 0 && k <= s.len() {
        lemma_same_entries_take(s, t, (k - 1) as nat, m);
        assert(t.take(m)[k - 1] == t[k - 1]);
    }
}

/// The position of the first entry of `s` with the given property, or `-1`.
pub open spec fn property_index(s: Seq<EpubMetaEntryData>, property: Seq<char>) -> int {
    key_index(s, property)
}

/// The indices of the entries of `s` with the given property, in order.
pub open spec fn property_indices(s: Seq<EpubMetaEntryData>, property: Seq<char>) -> Seq<int>
    decreases s.len(),
{
    if s.len() == 0 {
        Seq::empty()
    } else {
        let rest = property_indices(s.drop_last(), property);
        if s.last().property@ == property {
            rest.push(s.len() - 1)
        } else {
            rest
        }
    }
}

impl EpubRefinementsData {
    /// The first refinement with the given property.
    pub fn by_refinement(&self, property: &str) -> (r: Option<&EpubMetaEntryData>)
        ensures
            match r {
                Some(d) => property_index(self.0@, property@) >= 0 && *d == self.0@[property_index(
                    self.0@,
                    property@,
                )],
                None => property_index(self.0@, property@) == -1,
            },
    {
        proof {
            lemma_key_index(self.0@, property@);
        }
        let mut i: usize = 0;
        while i < self.0.len()
            invariant
                i <= self.0@.len(),
                forall|j: int| 0 <= j < i ==> self.0@[j].property@ != property@,
            decreases self.0.len() - i,
        {
            if str_eq(self.0[i].property.as_str(), property) {
                proof {
                    lemma_key_index(self.0@, property@);
                    let f = key_index(self.0@, property@);
                    if f < 0 || f > i {
                    } else if f < i {
                    }
                }
                return Some(&self.0[i]);
            }
            i = i + 1;
        }
        proof {
            if key_index(self.0@, property@) >= 0 {
                assert(self.0@[key_index(self.0@, property@)].spec_key() == property@);
            }
        }
        None
    }

    /// Returns `true` if some refinement has the given property.
    pub fn has_refinement(&self, property: &str) -> (r: bool)
        ensures
            r == (property_index(self.0@, property@) >= 0),
    {
        self.by_refinement(property).is_some()
    }

    /// The positions of the refinements with the given property, in order.
    pub fn by_refinements(&self, property: &str) -> (r: Vec<usize>)
        ensures
            r@.map_values(|i: usize| i as int) == property_indices(self.0@, property@),
            forall|k: int| 0 <= k < r@.len() ==> #[trigger] r@[k] < self.0@.len(),
    {
        let mut out: Vec<usize> = Vec::new();
        let mut i: usize = 0;
        while i < self.0.len()
            invariant
                i <= self.0@.len(),
                out@.map_values(|i: usize| i as int) == property_indices(
                    self.0@.take(i as int),
                    property@,
                ),
                forall|k: int| 0 <= k < out@.len() ==> #[trigger] out@[k] < i,
            decreases self.0.len() - i,
        {
            let ghost prev = self.0@.take(i as int);
            assert(self.0@.take(i + 1).drop_last() =~= prev);
            if str_eq(self.0[i].property.as_str(), property) {
                out.push(i);
            }
            assert(out@.map_values(|i: usize| i as int) =~= property_indices(
                self.0@.take(i + 1),
                property@,
            ));
            i = i + 1;
        }
        assert(self.0@.take(i as int) =~= self.0@);
        out
    }
}

// ---------------------------------------------------------------------------
// Entry views
// ---------------------------------------------------------------------------

/// A read-only view over one metadata entry.
#[derive(Copy, Clone, Debug)]
pub struct EpubMetaEntry<'ebook> {
    ctx: EpubPackageMetaContext<'ebook>,
    refines: Option<&'ebook str>,
    data: &'ebook EpubMetaEntryData,
    index: usize,
}

/// The language code that applies to an entry: its own, else the package's.
pub open spec fn spec_entry_language(d: EpubMetaEntryData, ctx: EpubPackageMetaContext) -> Option<
    Seq<char>,
> {
    match d.language {
        Some(l) => Some(l@),
        None => ctx.spec_language(),
    }
}

/// The text direction that applies to an entry: its own unless `auto`, else the package's.
pub open spec fn spec_entry_direction(d: EpubMetaEntryData, ctx: EpubPackageMetaContext) -> TextDirection {
    if d.kind is Link {
        TextDirection::Auto
    } else if d.text_direction == TextDirection::Auto {
        ctx.spec_direction()
    } else {
        d.text_direction
    }
}

/// The (trimmed) value of the attribute `name`, if present.
pub open spec fn attr_value(attrs: Seq<Attribute>, name: Seq<char>) -> Option<Seq<char>> {
    let i = key_index(attrs, name);
    if i >= 0 {
        Some(trim(attrs[i].spec_value()))
    } else {
        None
    }
}

impl<'ebook> EpubMetaEntry<'ebook> {
    pub closed spec fn spec_data(&self) -> EpubMetaEntryData {
        *self.data
    }

    /// A detached copy of the entry, with copies of its refinements.
    pub fn to_detached(&self) -> (r: crate::metawrite::DetachedEpubMetaEntry)
        ensures
            same_entry(r.spec_data(), self.spec_data()),
    {
        crate::metawrite::DetachedEpubMetaEntry::from_data(self.data.duplicate())
    }

    pub closed spec fn spec_index(&self) -> usize {
        self.index
    }

    pub closed spec fn spec_refines(&self) -> Option<Seq<char>> {
        opt_str_view(self.refines)
    }

    pub closed spec fn spec_ctx(&self) -> EpubPackageMetaContext<'ebook> {
        self.ctx
    }

    pub fn new(
        ctx: EpubPackageMetaContext<'ebook>,
        refines: Option<&'ebook str>,
        data: &'ebook EpubMetaEntryData,
        index: usize,
    ) -> (r: Self)
        ensures
            r.spec_data() == *data,
            r.spec_index() == index,
            r.spec_refines() == opt_str_view(refines),
            r.spec_ctx() == ctx,
    {
        EpubMetaEntry { ctx, refines, data, index }
    }

    /// The entry data.
    pub fn data(&self) -> (r: &'ebook EpubMetaEntryData)
        ensures
            *r == self.spec_data(),
    {
        self.data
    }

    /// The `id` of the entry.
    pub fn id(&self) -> (r: Option<&'ebook str>)
        ensures
            opt_str_view(r) == opt_string_view(self.spec_data().id),
    {
        opt_as_str(&self.data.id)
    }

    /// The `id` of the entry this entry refines; `None` for non-refining entries.
    pub fn refines(&self) -> (r: Option<&'ebook str>)
        ensures
            opt_str_view(r) == self.spec_refines(),
    {
        self.refines
    }

    /// The property (e.g., `dc:title`, `dcterms:modified`).
    pub fn property(&self) -> (r: Name<'ebook>)
        ensures
            r@ == self.spec_data().property@,
    {
        Name::new(self.data.property.as_str())
    }

    /// The value of the entry.
    pub fn value(&self) -> (r: &'ebook str)
        ensures
            r@ == self.spec_data().value@,
    {
        self.data.value.as_str()
    }

    /// The position of the entry within its group (or its parent's refinements).
    pub fn order(&self) -> (r: usize)
        ensures
            r == self.spec_index(),
    {
        self.index
    }

    /// The scheme: the legacy `opf:scheme` attribute as code when present, else the
    /// `scheme` attribute as source and the value as code.
    pub fn scheme(&self) -> (r: Scheme<'ebook>)
        ensures
            ({
                let attrs = self.spec_data().attributes@;
                match attr_value(attrs, consts::OPF_SCHEME@) {
                    Some(code) => r.spec_source() is None && r.spec_code() == code,
                    None => r.spec_source() == attr_value(attrs, consts::SCHEME@) && r.spec_code()
                        == self.spec_data().value@,
                }
            }),
    {
        if let Some(code) = self.data.attributes.get_value(consts::OPF_SCHEME) {
            return Scheme::new(None, code);
        }
        Scheme::new(self.data.attributes.get_value(consts::SCHEME), self.data.value.as_str())
    }

    /// The language of the entry, falling back to the package language.
    pub fn xml_language(&self) -> (r: Option<LanguageTag<'ebook>>)
        ensures
            match r {
                Some(t) => spec_entry_language(self.spec_data(), self.spec_ctx()) == Some(
                    t.spec_code(),
                ) && t.spec_kind() == LanguageKind::Bcp47,
                None => spec_entry_language(self.spec_data(), self.spec_ctx()) is None,
            },
    {
        let code = match opt_as_str(&self.data.language) {
            Some(l) => Some(l),
            None => self.ctx.package_language(),
        };
        match code {
            Some(c) => Some(LanguageTag::new(c, LanguageKind::Bcp47)),
            None => None,
        }
    }

    /// The text direction, falling back to the package's when `auto`; always `auto`
    /// for a `<link>`, which takes no `dir` attribute.
    pub fn text_direction(&self) -> (r: TextDirection)
        ensures
            r == spec_entry_direction(self.spec_data(), self.spec_ctx()),
    {
        if self.data.kind.is_link() {
            return TextDirection::Auto;
        }
        match self.data.text_direction {
            TextDirection::Auto => self.ctx.package_text_direction(),
            d => d,
        }
    }

    /// The remaining (non-structural) attributes.
    pub fn attributes(&self) -> (r: &'ebook Attributes)
        ensures
            *r == self.spec_data().attributes,
    {
        &self.data.attributes
    }

    /// The refinements of this entry.
    pub fn refinements(&self) -> (r: EpubRefinements<'ebook>)
        ensures
            r.spec_data() == self.spec_data().refinements,
            r.spec_parent_id() == opt_string_view(self.spec_data().id),
            r.spec_ctx() == self.spec_ctx(),
    {
        EpubRefinements::new(self.ctx, opt_as_str(&self.data.id), &self.data.refinements)
    }

    /// The kind of entry.
    pub fn kind(&self) -> (r: EpubMetaEntryKind)
        ensures
            r == self.spec_data().kind,
    {
        self.data.kind
    }

    /// This entry as a link, if it is a `<link>` entry.
    pub fn as_link(&self) -> (r: Option<EpubLink<'ebook>>)
        ensures
            match r {
                Some(l) => self.spec_data().kind is Link && l.spec_entry() == *self,
                None => !(self.spec_data().kind is Link),
            },
    {
        if self.data.kind.is_link() {
            Some(EpubLink(*self))
        } else {
            None
        }
    }

    /// The `file-as` refinement value, else the legacy `opf:file-as` attribute value.
    pub fn file_as(&self) -> (r: Option<&'ebook str>)
        ensures
            ({
                let refs = self.spec_data().refinements.0@;
                let i = property_index(refs, consts::FILE_AS@);
                if i >= 0 {
                    opt_str_view(r) == Some(refs[i].value@)
                } else {
                    opt_str_view(r) == attr_value(self.spec_data().attributes@, consts::OPF_FILE_AS@)
                }
            }),
    {
        match self.data.refinements.by_refinement(consts::FILE_AS) {
            Some(d) => Some(d.value.as_str()),
            None => self.data.attributes.get_value(consts::OPF_FILE_AS),
        }
    }

    /// The alternate scripts: the `alternate-script` refinements in order (with their
    /// `xml:lang`, empty when absent), else the legacy `opf:alt-rep` and
    /// `opf:alt-rep-lang` attribute pair when both are present.
    pub fn alternate_scripts(&self) -> (r: Vec<AlternateScript<'ebook>>)
        ensures
            ({
                let refs = self.spec_data().refinements.0@;
                let idx = property_indices(refs, consts::ALTERNATE_SCRIPT@);
                let attrs = self.spec_data().attributes@;
                if idx.len() > 0 {
                    &&& r@.len() == idx.len()
                    &&& forall|k: int|
                        0 <= k < r@.len() ==> (#[trigger] r@[k]).spec_script()
                            == refs[idx[k]].value@ && r@[k].spec_language().spec_code() == (
                        match refs[idx[k]].language {
                            Some(l) => l@,
                            None => Seq::empty(),
                        }) && r@[k].spec_language().spec_kind() == LanguageKind::Bcp47
                } else {
                    match (attr_value(attrs, consts::OPF_ALT_REP@), attr_value(attrs, consts::OPF_ALT_REP_LANG@)) {
                        (Some(s), Some(l)) => r@.len() == 1 && r@[0].spec_script() == s
                            && r@[0].spec_language().spec_code() == l
                            && r@[0].spec_language().spec_kind() == LanguageKind::Bcp47,
                        _ => r@.len() == 0,
                    }
                }
            }),
    {
        let refs = &self.data.refinements;
        let idx = refs.by_refinements(consts::ALTERNATE_SCRIPT);
        let ghost sidx = idx@.map_values(|i: usize| i as int);
        let mut out: Vec<AlternateScript<'ebook>> = Vec::new();
        if idx.len() > 0 {
            let mut k: usize = 0;
            while k < idx.len()
                invariant
                    k <= idx@.len(),
                    sidx == idx@.map_values(|i: usize| i as int),
                    forall|j: int| 0 <= j < idx@.len() ==> #[trigger] idx@[j] < refs.0@.len(),
                    out@.len() == k,
                    forall|j: int|
                        0 <= j < k ==> (#[trigger] out@[j]).spec_script() == refs.0@[sidx[j]].value@
                            && out@[j].spec_language().spec_code() == (match refs.0@[sidx[j]].language {
                            Some(l) => l@,
                            None => Seq::empty(),
                        }) && out@[j].spec_language().spec_kind() == LanguageKind::Bcp47,
                decreases idx.len() - k,
            {
                let script = &refs.0[idx[k]];
                let code: &str = match opt_as_str(&script.language) {
                    Some(l) => l,
                    None => "",
                };
                proof {
                    reveal_strlit("");
                }
                out.push(AlternateScript::new(script.value.as_str(), LanguageTag::new(code, LanguageKind::Bcp47)));
                k = k + 1;
            }
            return out;
        }
        let script = self.data.attributes.get_value(consts::OPF_ALT_REP);
        let code = self.data.attributes.get_value(consts::OPF_ALT_REP_LANG);
        match (script, code) {
            (Some(s), Some(l)) => {
                out.push(AlternateScript::new(s, LanguageTag::new(l, LanguageKind::Bcp47)));
            },
            _ => {},
        }
        out
    }
}

// ---------------------------------------------------------------------------
// Refinements view
// ---------------------------------------------------------------------------

/// A read-only view over the refinements of an entry.
#[derive(Copy, Clone, Debug)]
pub struct EpubRefinements<'ebook> {
    ctx: EpubPackageMetaContext<'ebook>,
    parent_id: Option<&'ebook str>,
    data: &'ebook EpubRefinementsData,
}

impl<'ebook> EpubRefinements<'ebook> {
    pub closed spec fn spec_data(&self) -> EpubRefinementsData {
        *self.data
    }

    pub closed spec fn spec_parent_id(&self) -> Option<Seq<char>> {
        opt_str_view(self.parent_id)
    }

    pub closed spec fn spec_ctx(&self) -> EpubPackageMetaContext<'ebook> {
        self.ctx
    }

    pub fn new(
        ctx: EpubPackageMetaContext<'ebook>,
        parent_id: Option<&'ebook str>,
        data: &'ebook EpubRefinementsData,
    ) -> (r: Self)
        ensures
            r.spec_data() == *data,
            r.spec_parent_id() == opt_str_view(parent_id),
            r.spec_ctx() == ctx,
    {
        EpubRefinements { ctx, parent_id, data }
    }

    /// The number of refinements.
    pub fn len(&self) -> (r: usize)
        ensures
            r == self.spec_data().0@.len(),
    {
        self.data.0.len()
    }

    /// Returns `true` if there are no refinements.
    pub fn is_empty(&self) -> (r: bool)
        ensures
            r == (self.spec_data().0@.len() == 0),
    {
        self.data.0.len() == 0
    }

    /// The refinement at `index`.
    pub fn get(&self, index: usize) -> (r: Option<EpubMetaEntry<'ebook>>)
        ensures
            match r {
                Some(e) => index < self.spec_data().0@.len() && e.spec_data()
                    == self.spec_data().0@[index as int] && e.spec_index() == index
                    && e.spec_refines() is None && e.spec_ctx() == self.spec_ctx(),
                None => index >= self.spec_data().0@.len(),
            },
    {
        if index < self.data.0.len() {
            Some(EpubMetaEntry::new(self.ctx, None, &self.data.0[index], index))
        } else {
            None
        }
    }

    /// Every refinement in order, refining the parent entry.
    pub fn iter(&self) -> (r: Vec<EpubMetaEntry<'ebook>>)
        ensures
            r@.len() == self.spec_data().0@.len(),
            forall|i: int|
                0 <= i < r@.len() ==> (#[trigger] r@[i]).spec_data() == self.spec_data().0@[i]
                    && r@[i].spec_index() == i && r@[i].spec_refines() == self.spec_parent_id()
                    && r@[i].spec_ctx() == self.spec_ctx(),
    {
        let mut out: Vec<EpubMetaEntry<'ebook>> = Vec::new();
        let mut i: usize = 0;
        while i < self.data.0.len()
            invariant
                i <= self.data.0@.len(),
                out@.len() == i,
                forall|k: int|
                    0 <= k < i ==> (#[trigger] out@[k]).spec_data() == self.data.0@[k]
                        && out@[k].spec_index() == k && out@[k].spec_refines() == opt_str_view(
                        self.parent_id,
                    ) && out@[k].spec_ctx() == self.ctx,
            decreases self.data.0.len() - i,
        {
            out.push(EpubMetaEntry::new(self.ctx, self.parent_id, &self.data.0[i], i));
            i = i + 1;
        }
        out
    }

    /// The refinements with the given property, in order.
    pub fn by_property(&self, property: &str) -> (r: Vec<EpubMetaEntry<'ebook>>)
        ensures
            ({
                let idx = property_indices(self.spec_data().0@, property@);
                &&& r@.len() == idx.len()
                &&& forall|k: int|
                    0 <= k < r@.len() ==> (#[trigger] r@[k]).spec_data() == self.spec_data().0@[idx[k]]
                        && r@[k].spec_index() == idx[k] && r@[k].spec_refines()
                        == self.spec_parent_id() && r@[k].spec_ctx() == self.spec_ctx()
            }),
    {
        let idx = self.data.by_refinements(property);
        let ghost sidx = idx@.map_values(|i: usize| i as int);
        let mut out: Vec<EpubMetaEntry<'ebook>> = Vec::new();
        let mut k: usize = 0;
        while k < idx.len()
            invariant
                k <= idx@.len(),
                sidx == idx@.map_values(|i: usize| i as int),
                forall|j: int| 0 <= j < idx@.len() ==> #[trigger] idx@[j] < self.data.0@.len(),
                out@.len() == k,
                forall|j: int|
                    0 <= j < k ==> (#[trigger] out@[j]).spec_data() == self.data.0@[sidx[j]]
                        && out@[j].spec_index() == sidx[j] && out@[j].spec_refines() == opt_str_view(
                        self.parent_id,
                    ) && out@[j].spec_ctx() == self.ctx,
            decreases idx.len() - k,
        {
            let i = idx[k];
            out.push(EpubMetaEntry::new(self.ctx, self.parent_id, &self.data.0[i], i));
            k = k + 1;
        }
        out
    }

    /// Returns `true` if some refinement has the given property.
    pub fn has_property(&self, property: &str) -> (r: bool)
        ensures
            r == (property_index(self.spec_data().0@, property@) >= 0),
    {
        self.data.has_refinement(property)
    }
}

// ---------------------------------------------------------------------------
// Link view
// ---------------------------------------------------------------------------

/// A `<link>` metadata entry.
#[derive(Copy, Clone, Debug)]
pub struct EpubLink<'ebook>(EpubMetaEntry<'ebook>);

impl<'ebook> EpubLink<'ebook> {
    pub closed spec fn spec_entry(&self) -> EpubMetaEntry<'ebook> {
        self.0
    }

    /// The `href` attribute.
    pub fn href(&self) -> (r: Option<Href<'ebook>>)
        ensures
            match r {
                Some(h) => attr_value(self.spec_entry().spec_data().attributes@, consts::HREF@) == Some(h@),
                None => attr_value(self.spec_entry().spec_data().attributes@, consts::HREF@) is None,
            },
    {
        match self.0.data.attributes.get_value(consts::HREF) {
            Some(h) => Some(Href::new(h)),
            None => None,
        }
    }

    /// The `hreflang` attribute as a language tag.
    pub fn href_lang(&self) -> (r: Option<LanguageTag<'ebook>>)
        ensures
            match r {
                Some(t) => attr_value(self.spec_entry().spec_data().attributes@, consts::HREFLANG@) == Some(
                    t.spec_code(),
                ) && t.spec_kind() == LanguageKind::Bcp47,
                None => attr_value(self.spec_entry().spec_data().attributes@, consts::HREFLANG@) is None,
            },
    {
        match self.0.data.attributes.get_value(consts::HREFLANG) {
            Some(h) => Some(LanguageTag::new(h, LanguageKind::Bcp47)),
            None => None,
        }
    }

    /// The `media-type` attribute.
    pub fn media_type(&self) -> (r: Option<&'ebook str>)
        ensures
            opt_str_view(r) == attr_value(self.spec_entry().spec_data().attributes@, consts::MEDIA_TYPE@),
    {
        self.0.data.attributes.get_value(consts::MEDIA_TYPE)
    }

    /// The kind of the linked resource, named by its `media-type` attribute.
    pub fn kind(&self) -> (r: Option<crate::resource::ResourceKind<'ebook>>)
        ensures
            match r {
                Some(k) => attr_value(self.spec_entry().spec_data().attributes@, consts::MEDIA_TYPE@) == Some(k@),
                None => attr_value(self.spec_entry().spec_data().attributes@, consts::MEDIA_TYPE@) is None,
            },
    {
        match self.media_type() {
            Some(m) => Some(crate::resource::ResourceKind::new(m)),
            None => None,
        }
    }

    /// The `properties` attribute (empty when absent).
    pub fn properties(&self) -> (r: Properties)
        ensures
            ({
                let attrs = self.spec_entry().spec_data().attributes@;
                let i = key_index(attrs, consts::PROPERTIES@);
                if i >= 0 {
                    r@ == attrs[i].spec_value()
                } else {
                    r@.len() == 0
                }
            }),
    {
        match self.0.data.attributes.by_name(consts::PROPERTIES) {
            Some(a) => Properties::from_string(crate::text::to_string(a.as_properties().as_raw())),
            None => Properties::empty(),
        }
    }

    /// The `rel` attribute (empty when absent).
    pub fn rel(&self) -> (r: Properties)
        ensures
            ({
                let attrs = self.spec_entry().spec_data().attributes@;
                let i = key_index(attrs, consts::REL@);
                if i >= 0 {
                    r@ == attrs[i].spec_value()
                } else {
                    r@.len() == 0
                }
            }),
    {
        match self.0.data.attributes.by_name(consts::REL) {
            Some(a) => Properties::from_string(crate::text::to_string(a.as_properties().as_raw())),
            None => Properties::empty(),
        }
    }

    /// The underlying metadata entry.
    pub fn as_meta(&self) -> (r: EpubMetaEntry<'ebook>)
        ensures
            r == self.spec_entry(),
    {
        self.0
    }
}

} // verus!
