//! Kinds of resources, told apart by media type.
use vstd::prelude::*;
use crate::checks::{lower_ascii, lowercase_media_type};
use crate::text::{chars_of, first_index_of, lemma_first_index_of, str_eq, string_from_range};

verus! {

/// The media type of XHTML content documents.
pub const XHTML: &'static str = "application/xhtml+xml";
/// The media type of HTML documents.
pub const HTML: &'static str = "text/html";
/// The media type of CSS style sheets.
pub const CSS: &'static str = "text/css";
/// The media type of JavaScript.
pub const JAVASCRIPT: &'static str = "application/javascript";
/// The media type of ECMAScript.
pub const ECMASCRIPT: &'static str = "application/ecmascript";
/// The older media type of JavaScript.
pub const JAVASCRIPT_TEXT: &'static str = "text/javascript";
/// Older font media types, outside the `font` main type.
pub const FONT_WOFF_LEGACY: &'static str = "application/font-woff";
pub const FONT_SFNT_LEGACY: &'static str = "application/font-sfnt";
pub const FONT_OPENTYPE_LEGACY: &'static str = "application/vnd.ms-opentype";
pub const FONT_TTF_LEGACY: &'static str = "application/x-font-ttf";
pub const FONT_OTF_LEGACY: &'static str = "application/x-font-otf";

/// The main type of media type `m`: the text before its first `/` (all of it without
/// one).
pub open spec fn maintype(m: Seq<char>) -> Seq<char> {
    let i = first_index_of(m, '/');
    if i >= 0 {
        m.take(i)
    } else {
        m
    }
}

/// A kind without a `/` names a main type only, and stands for every media type of it.
pub open spec fn is_unspecified(kind: Seq<char>) -> bool {
    first_index_of(kind, '/') < 0
}

/// Media type `m` is of kind `kind`, ASCII case ignored: the same main type for a kind
/// that names a main type only, else the same media type.
pub open spec fn kind_matches(kind: Seq<char>, m: Seq<char>) -> bool {
    if is_unspecified(kind) {
        lower_ascii(kind) == lower_ascii(maintype(m))
    } else {
        lower_ascii(kind) == lower_ascii(m)
    }
}

/// Media type `m` is of one of the kinds `kinds`.
pub open spec fn matches_any(kinds: Seq<Seq<char>>, m: Seq<char>) -> bool {
    exists|i: int| 0 <= i < kinds.len() && #[trigger] kind_matches(kinds[i], m)
}

/// The older font media types, ASCII lower case.
pub open spec fn legacy_fonts() -> Seq<Seq<char>> {
    seq![
        FONT_WOFF_LEGACY@,
        FONT_SFNT_LEGACY@,
        FONT_OPENTYPE_LEGACY@,
        FONT_TTF_LEGACY@,
        FONT_OTF_LEGACY@,
    ]
}

/// Media type `m` is a font: of main type `font`, or one of the older font media
/// types (ASCII case ignored).
pub open spec fn is_font_type(m: Seq<char>) -> bool {
    kind_matches("font"@, m) || legacy_fonts().contains(lower_ascii(m))
}

/// The main type of `m`, as text.
pub fn maintype_of(m: &str) -> (r: String)
    ensures
        r@ == maintype(m@),
{
    let v = chars_of(m);
    let n = v.len();
    let mut i: usize = 0;
    while i < n && v[i] != '/'
        invariant
            n == v@.len(),
            v@ == m@,
            i <= n,
            forall|j: int| 0 <= j < i ==> v@[j] != '/',
        decreases n - i,
    {
        i = i + 1;
    }
    proof {
        lemma_first_index_of(m@, '/');
        if i < n {
            assert(m@[i as int] == '/');
            assert(first_index_of(m@, '/') == i as int);
        } else {
            assert(first_index_of(m@, '/') < 0);
        }
    }
    let r = string_from_range(&v, 0, i);
    proof {
        if i == n {
            assert(v@.subrange(0, n as int) =~= m@);
        } else {
            assert(v@.subrange(0, i as int) =~= m@.take(i as int));
        }
    }
    r
}

/// Whether media type `m` is of kind `kind` (see [`kind_matches`]).
pub fn kind_matches_type(kind: &str, m: &str) -> (r: bool)
    ensures
        r == kind_matches(kind@, m@),
{
    let k = lowercase_media_type(kind);
    proof {
        lemma_first_index_of(kind@, '/');
    }
    let whole = maintype_of(kind);
    if str_eq(whole.as_str(), kind) {
        proof {
            if first_index_of(kind@, '/') >= 0 {
                assert(kind@.take(first_index_of(kind@, '/')).len() < kind@.len());
            }
        }
        let main = maintype_of(m);
        let lm = lowercase_media_type(main.as_str());
        str_eq(k.as_str(), lm.as_str())
    } else {
        let lm = lowercase_media_type(m);
        str_eq(k.as_str(), lm.as_str())
    }
}

/// Whether media type `m` is a font (see [`is_font_type`]).
pub fn is_font_media_type(m: &str) -> (r: bool)
    ensures
        r == is_font_type(m@),
{
    let lm = lowercase_media_type(m);
    let legacy = str_eq(lm.as_str(), FONT_WOFF_LEGACY) || str_eq(lm.as_str(), FONT_SFNT_LEGACY) || str_eq(
        lm.as_str(),
        FONT_OPENTYPE_LEGACY,
    ) || str_eq(lm.as_str(), FONT_TTF_LEGACY) || str_eq(lm.as_str(), FONT_OTF_LEGACY);
    proof {
        let l = legacy_fonts();
        if l.contains(lm@) {
            let i = choose|i: int| 0 <= i < l.len() && l[i] == lm@;
            assert(i == 0 || i == 1 || i == 2 || i == 3 || i == 4);
        }
        if legacy {
            if lm@ == FONT_WOFF_LEGACY@ {
                assert(l[0] == lm@);
            } else if lm@ == FONT_SFNT_LEGACY@ {
                assert(l[1] == lm@);
            } else if lm@ == FONT_OPENTYPE_LEGACY@ {
                assert(l[2] == lm@);
            } else if lm@ == FONT_TTF_LEGACY@ {
                assert(l[3] == lm@);
            } else {
                assert(l[4] == lm@);
            }
        }
    }
    kind_matches_type("font", m) || legacy
}

/// A kind of resource: a media type (`image/png`), or a main type alone (`image`)
/// that stands for every media type of it.
#[derive(Copy, Clone, Debug)]
pub struct ResourceKind<'a>(&'a str);

impl<'a> View for ResourceKind<'a> {
    type V = Seq<char>;

    closed spec fn view(&self) -> Seq<char> {
        self.0@
    }
}

impl<'a> ResourceKind<'a> {
    /// The kind named by `kind`, as it is.
    pub fn new(kind: &'a str) -> (r: Self)
        ensures
            r@ == kind@,
    {
        ResourceKind(kind)
    }

    /// Every image.
    pub fn image() -> (r: ResourceKind<'static>)
        ensures
            r@ == "image"@,
    {
        ResourceKind("image")
    }

    /// Every audio resource.
    pub fn audio() -> (r: ResourceKind<'static>)
        ensures
            r@ == "audio"@,
    {
        ResourceKind("audio")
    }

    /// Every video resource.
    pub fn video() -> (r: ResourceKind<'static>)
        ensures
            r@ == "video"@,
    {
        ResourceKind("video")
    }

    /// Every font of main type `font`.
    pub fn font() -> (r: ResourceKind<'static>)
        ensures
            r@ == "font"@,
    {
        ResourceKind("font")
    }

    /// The kind as text.
    pub fn as_str(&self) -> (r: &'a str)
        ensures
            r@ == self@,
    {
        self.0
    }

    /// Returns `true` when the kind names a main type only.
    pub fn is_unspecified(&self) -> (r: bool)
        ensures
            r == is_unspecified(self@),
    {
        proof {
            lemma_first_index_of(self@, '/');
        }
        let main = maintype_of(self.0);
        let r = str_eq(main.as_str(), self.0);
        proof {
            if first_index_of(self@, '/') >= 0 {
                assert(self@.take(first_index_of(self@, '/')).len() < self@.len());
            }
        }
        r
    }

    /// Returns `true` when media type `media_type` is of this kind (ASCII case ignored).
    pub fn matches(&self, media_type: &str) -> (r: bool)
        ensures
            r == kind_matches(self@, media_type@),
    {
        kind_matches_type(self.0, media_type)
    }

    /// Returns `true` for a font, older font media types included.
    pub fn is_font(&self) -> (r: bool)
        ensures
            r == is_font_type(self@),
    {
        is_font_media_type(self.0)
    }
}

/// The kinds `ks` as text.
pub open spec fn kind_views(ks: Seq<ResourceKind>) -> Seq<Seq<char>> {
    ks.map_values(|k: ResourceKind| k@)
}

/// Whether media type `m` is of one of the kinds `kinds` (see [`matches_any`]).
pub fn matches_any_kind(kinds: &[ResourceKind], m: &str) -> (r: bool)
    ensures
        r == matches_any(kind_views(kinds@), m@),
{
    let ghost ks = kind_views(kinds@);
    let n = kinds.len();
    let mut i: usize = 0;
    while i < n
        invariant
            n == kinds@.len(),
            ks == kind_views(kinds@),
            i <= n,
            forall|j: int| 0 <= j < i ==> !kind_matches(#[trigger] ks[j], m@),
        decreases n - i,
    {
        if kinds[i].matches(m) {
            proof {
                assert(kind_matches(ks[i as int], m@));
            }
            return true;
        }
        i = i + 1;
    }
    proof {
        if matches_any(ks, m@) {
            let j = choose|j: int| 0 <= j < ks.len() && #[trigger] kind_matches(ks[j], m@);
            assert(!kind_matches(ks[j], m@));
        }
    }
    false
}

/// Being of one of a single kind is being of that kind.
pub proof fn lemma_matches_one(x: Seq<char>)
    ensures
        forall|m: Seq<char>| #[trigger] matches_any(seq![x], m) == kind_matches(x, m),
{
    assert forall|m: Seq<char>| #[trigger] matches_any(seq![x], m) == kind_matches(x, m) by {
        assert(seq![x][0] == x);
    }
}

} // verus!
