//! Reading attribute values of the package document: `refines` references, the EPUB
//! version, the `prefix` attribute, and the checks of required metadata.
use vstd::prelude::*;
use crate::consts;
use crate::errors::EpubError;
use crate::groups::{group_of, group_pos, EpubMetadataData, lemma_group_pos};
use crate::metadata::{EpubMetaEntryData, EpubMetaEntryKind, EpubRefinementsData, EpubVersion, Version, spec_epub_version};
use crate::checks::{or_empty, require_attribute};
use crate::element::{spec_direction_of, Attributes, TextDirection};
use crate::organize::ParsedMeta;
use crate::package::{EpubVersionData, Prefix, Prefixes};
use crate::text::{chars_of, opt_string_view, to_string, first_index_of};

verus! {

broadcast use vstd::string::group_string_axioms;

// ---------------------------------------------------------------------------
// `refines`
// ---------------------------------------------------------------------------

/// A `refines` value without its leading `#`, if any.
pub open spec fn spec_normalize_refines(s: Seq<char>) -> Seq<char> {
    if s.len() > 0 && s[0] == '#' {
        s.drop_first()
    } else {
        s
    }
}

/// A `refines` value without its leading `#`, if any.
pub fn normalize_refines(refines: &str) -> (r: String)
    ensures
        r@ == spec_normalize_refines(refines@),
{
    let c = chars_of(refines);
    let n = c.len();
    if n > 0 && c[0] == '#' {
        to_string(refines.substring_char(1, n))
    } else {
        to_string(refines)
    }
}

// ---------------------------------------------------------------------------
// Versions
// ---------------------------------------------------------------------------

/// `true` for `0` to `9`.
pub open spec fn is_digit(c: char) -> bool {
    '0' <= c && c <= '9'
}

/// The number written by the decimal digits `s`.
pub open spec fn digits_value(s: Seq<char>) -> nat
    decreases s.len(),
{
    if s.len() == 0 {
        0
    } else {
        digits_value(s.drop_last()) * 10 + ((s.last() as nat) - 48) as nat
    }
}

/// `s` is one or more decimal digits.
pub open spec fn all_digits(s: Seq<char>) -> bool {
    s.len() > 0 && forall|i: int| 0 <= i < s.len() ==> is_digit(#[trigger] s[i])
}

/// A version number, written `major` or `major.minor` with decimal digits, each at most
/// `65535`.
pub open spec fn spec_parse_version(s: Seq<char>) -> Option<Version> {
    let dot = first_index_of(s, '.');
    if dot < 0 {
        if all_digits(s) && digits_value(s) <= 65535 {
            Some(Version(digits_value(s) as u16, 0))
        } else {
            None
        }
    } else {
        let major = s.take(dot);
        let minor = s.skip(dot + 1);
        if all_digits(major) && all_digits(minor) && digits_value(major) <= 65535
            && digits_value(minor) <= 65535 {
            Some(Version(digits_value(major) as u16, digits_value(minor) as u16))
        } else {
            None
        }
    }
}

/// The value of the decimal digits `v[from..to]`, if they are digits and at most 65535.
fn parse_u16(v: &Vec<char>, from: usize, to: usize) -> (r: Option<u16>)
    requires
        from <= to <= v@.len(),
    ensures
        ({
            let s = v@.subrange(from as int, to as int);
            match r {
                Some(x) => all_digits(s) && digits_value(s) <= 65535 && x == digits_value(s),
                None => !(all_digits(s) && digits_value(s) <= 65535),
            }
        }),
{
    if from == to {
        return None;
    }
    let mut value: u32 = 0;
    let mut i = from;
    while i < to
        invariant
            from <= i <= to,
            to <= v@.len(),
            forall|j: int| from <= j < i ==> is_digit(v@[j]),
            value == digits_value(v@.subrange(from as int, i as int)),
            value <= 65535,
        decreases to - i,
    {
        let c = v[i];
        if !('0' <= c && c <= '9') {
            proof {
                assert(v@.subrange(from as int, to as int)[i - from] == c);
            }
            return None;
        }
        let d: u32 = (c as u32) - 48;
        assert(v@.subrange(from as int, i + 1).drop_last() =~= v@.subrange(from as int, i as int));
        assert(v@.subrange(from as int, i + 1).last() == c);
        let next: u32 = value * 10 + d;
        if next > 65535 {
            proof {
                let whole = v@.subrange(from as int, to as int);
                if all_digits(whole) {
                    lemma_digits_value_grows(whole, (i + 1 - from) as int);
                    assert(whole.take((i + 1 - from) as int) =~= v@.subrange(from as int, i + 1));
                }
            }
            return None;
        }
        value = next;
        i = i + 1;
    }
    Some(value as u16)
}

proof fn lemma_digits_value_grows(s: Seq<char>, k: int)
    requires
        0 <= k <= s.len(),
        forall|i: int| 0 <= i < s.len() ==> is_digit(#[trigger] s[i]),
    ensures
        digits_value(s.take(k)) <= digits_value(s),
    decreases s.len() - k,
{
    if k < s.len() {
        lemma_digits_value_grows(s, k + 1);
        assert(s.take(k + 1).drop_last() =~= s.take(k));
    } else {
        assert(s.take(k) =~= s);
    }
}

/// An unsigned number as `str::parse::<usize>` reads it: an optional `+`, then one or
/// more decimal digits, with a value that fits in `usize`.
pub open spec fn spec_parse_usize(s: Seq<char>) -> Option<usize> {
    let t = if s.len() > 0 && s[0] == '+' {
        s.drop_first()
    } else {
        s
    };
    if all_digits(t) && digits_value(t) <= usize::MAX {
        Some(digits_value(t) as usize)
    } else {
        None
    }
}

/// Reads an unsigned number (see [`spec_parse_usize`]).
pub fn parse_usize(raw: &str) -> (r: Option<usize>)
    ensures
        r == spec_parse_usize(raw@),
{
    let v = chars_of(raw);
    let n = v.len();
    let from: usize = if n > 0 && v[0] == '+' {
        1
    } else {
        0
    };
    let ghost t = v@.subrange(from as int, n as int);
    proof {
        if from == 1 {
            assert(t =~= raw@.drop_first());
        } else {
            assert(t =~= raw@);
        }
    }
    if from == n {
        return None;
    }
    let mut value: usize = 0;
    let mut i = from;
    while i < n
        invariant
            from <= i <= n,
            n == v@.len(),
            t == v@.subrange(from as int, n as int),
            t == (if raw@.len() > 0 && raw@[0] == '+' {
                raw@.drop_first()
            } else {
                raw@
            }),
            forall|j: int| from <= j < i ==> is_digit(v@[j]),
            value == digits_value(v@.subrange(from as int, i as int)),
        decreases n - i,
    {
        let c = v[i];
        if !('0' <= c && c <= '9') {
            proof {
                assert(t[i - from] == c);
            }
            return None;
        }
        let d: usize = (c as u32 - 48) as usize;
        assert(v@.subrange(from as int, i + 1).drop_last() =~= v@.subrange(from as int, i as int));
        assert(v@.subrange(from as int, i + 1).last() == c);
        let next = match value.checked_mul(10) {
            Some(m) => m.checked_add(d),
            None => None,
        };
        match next {
            Some(x) => {
                value = x;
            },
            None => {
                proof {
                    if all_digits(t) {
                        lemma_digits_value_grows(t, (i + 1 - from) as int);
                        assert(t.take((i + 1 - from) as int) =~= v@.subrange(from as int, i + 1));
                    }
                }
                return None;
            },
        }
        i = i + 1;
    }
    proof {
        assert(v@.subrange(from as int, i as int) =~= t);
    }
    Some(value)
}

/// Reads a version number (see [`spec_parse_version`]).
pub fn parse_version(raw: &str) -> (r: Option<Version>)
    ensures
        r == spec_parse_version(raw@),
{
    let v = chars_of(raw);
    let n = v.len();
    proof {
        crate::text::lemma_first_index_of(raw@, '.');
    }
    match crate::text::find_char(&v, '.') {
        Some(dot) => {
            let major = parse_u16(&v, 0, dot);
            let minor = parse_u16(&v, dot + 1, n);
            proof {
                assert(v@.subrange(0, dot as int) =~= raw@.take(dot as int));
                assert(v@.subrange(dot + 1, n as int) =~= raw@.skip(dot + 1));
            }
            match (major, minor) {
                (Some(a), Some(b)) => Some(Version(a, b)),
                _ => None,
            }
        },
        None => {
            let major = parse_u16(&v, 0, n);
            proof {
                assert(v@.subrange(0, n as int) =~= raw@);
            }
            match major {
                Some(a) => Some(Version(a, 0)),
                None => None,
            }
        },
    }
}

/// The version of a package: the classified version when it reads as one; else, when
/// lenient, an unknown `0.0`; else an error naming the text.
pub fn handle_epub_version(raw: String, strict: bool) -> (r: Result<EpubVersionData, EpubError>)
    ensures
        match spec_parse_version(raw@) {
            Some(v) => r matches Ok(d) && d.parsed == spec_epub_version(v) && d.raw == raw,
            None => if strict {
                r matches Err(EpubError::InvalidVersion(s)) && s == raw
            } else {
                r matches Ok(d) && d.parsed == EpubVersion::Unknown(Version(0, 0)) && d.raw == raw
            },
        },
{
    let parsed = match parse_version(raw.as_str()) {
        Some(v) => EpubVersion::from_version(v),
        None => {
            if strict {
                return Err(EpubError::InvalidVersion(raw));
            }
            EpubVersion::from_version(Version(0, 0))
        },
    };
    Ok(EpubVersionData { raw, parsed })
}

// ---------------------------------------------------------------------------
// `prefix`
// ---------------------------------------------------------------------------

/// ASCII whitespace, as `char::is_ascii_whitespace`.
pub open spec fn is_aws(c: char) -> bool {
    c == ' ' || c == '\t' || c == '\n' || c == '\x0C' || c == '\r'
}

/// The first position at or after `k` that is not ASCII whitespace (or the end).
pub open spec fn skip_aws(s: Seq<char>, k: int) -> int
    decreases s.len() - k,
{
    if k < 0 || k >= s.len() {
        if k < 0 {
            0
        } else {
            s.len() as int
        }
    } else if !is_aws(s[k]) {
        k
    } else {
        skip_aws(s, k + 1)
    }
}

/// The first position at or after `k` that is ASCII whitespace (or the end).
pub open spec fn token_end(s: Seq<char>, k: int) -> int
    decreases s.len() - k,
{
    if k < 0 || k >= s.len() {
        if k < 0 {
            0
        } else {
            s.len() as int
        }
    } else if is_aws(s[k]) {
        k
    } else {
        token_end(s, k + 1)
    }
}

pub proof fn lemma_skip_aws(s: Seq<char>, k: int)
    requires
        0 <= k <= s.len(),
    ensures
        k <= skip_aws(s, k) <= s.len(),
        forall|j: int| k <= j < skip_aws(s, k) ==> is_aws(s[j]),
        skip_aws(s, k) < s.len() ==> !is_aws(s[skip_aws(s, k)]),
    decreases s.len() - k,
{
    if k < s.len() && is_aws(s[k]) {
        lemma_skip_aws(s, k + 1);
    }
}

pub proof fn lemma_token_end(s: Seq<char>, k: int)
    requires
        0 <= k <= s.len(),
    ensures
        k <= token_end(s, k) <= s.len(),
        forall|j: int| k <= j < token_end(s, k) ==> !is_aws(s[j]),
        token_end(s, k) < s.len() ==> is_aws(s[token_end(s, k)]),
    decreases s.len() - k,
{
    if k < s.len() && !is_aws(s[k]) {
        lemma_token_end(s, k + 1);
    }
}

/// The ASCII-whitespace-separated tokens of `s` from position `k` on
/// (`str::split_ascii_whitespace`).
pub open spec fn tokens_from(s: Seq<char>, k: int) -> Seq<Seq<char>>
    decreases s.len() - k,
{
    if k < 0 || k >= s.len() {
        Seq::empty()
    } else {
        let a = skip_aws(s, k);
        proof {
            lemma_skip_aws(s, k);
        }
        if a >= s.len() {
            Seq::empty()
        } else {
            let b = token_end(s, a);
            proof {
                lemma_token_end(s, a);
            }
            seq![s.subrange(a, b)] + tokens_from(s, b)
        }
    }
}

/// Splits `s` at ASCII whitespace (see [`tokens_from`]).
pub fn ascii_tokens<'a>(s: &'a str) -> (r: Vec<&'a str>)
    ensures
        r@.len() == tokens_from(s@, 0).len(),
        forall|i: int| 0 <= i < r@.len() ==> (#[trigger] r@[i])@ == tokens_from(s@, 0)[i],
{
    let v = chars_of(s);
    let n = v.len();
    let mut out: Vec<&'a str> = Vec::new();
    let ghost mut views: Seq<Seq<char>> = Seq::empty();
    let mut k: usize = 0;
    while k < n
        invariant
            n == v@.len(),
            v@ == s@,
            k <= n,
            out@.len() == views.len(),
            forall|i: int| 0 <= i < out@.len() ==> (#[trigger] out@[i])@ == views[i],
            views + tokens_from(s@, k as int) == tokens_from(s@, 0),
        decreases n - k,
    {
        proof {
            lemma_skip_aws(s@, k as int);
        }
        let mut a = k;
        while a < n && (v[a] == ' ' || v[a] == '\t' || v[a] == '\n' || v[a] == '\x0C' || v[a] == '\r')
            invariant
                k <= a <= n,
                n == v@.len(),
                v@ == s@,
                a <= skip_aws(s@, k as int),
                k <= skip_aws(s@, k as int) <= n,
                forall|j: int| k <= j < skip_aws(s@, k as int) ==> is_aws(s@[j]),
                skip_aws(s@, k as int) < n ==> !is_aws(s@[skip_aws(s@, k as int)]),
            decreases n - a,
        {
            a = a + 1;
        }
        if a >= n {
            proof {
                assert(tokens_from(s@, k as int) =~= Seq::<Seq<char>>::empty());
                assert(views + tokens_from(s@, n as int) =~= views);
            }
            k = n;
        } else {
            proof {
                lemma_token_end(s@, a as int);
            }
            let mut b = a;
            while b < n && !(v[b] == ' ' || v[b] == '\t' || v[b] == '\n' || v[b] == '\x0C' || v[b] == '\r')
                invariant
                    a <= b <= n,
                    n == v@.len(),
                    v@ == s@,
                    b <= token_end(s@, a as int),
                    a <= token_end(s@, a as int) <= n,
                    forall|j: int| a <= j < token_end(s@, a as int) ==> !is_aws(s@[j]),
                    token_end(s@, a as int) < n ==> is_aws(s@[token_end(s@, a as int)]),
                decreases n - b,
            {
                b = b + 1;
            }
            let t = s.substring_char(a, b);
            proof {
                assert(tokens_from(s@, k as int) =~= seq![s@.subrange(a as int, b as int)] + tokens_from(
                    s@,
                    b as int,
                ));
                assert(views.push(t@) + tokens_from(s@, b as int) =~= views + tokens_from(s@, k as int));
                views = views.push(t@);
            }
            out.push(t);
            k = b;
        }
    }
    proof {
        assert(tokens_from(s@, n as int) =~= Seq::<Seq<char>>::empty());
        assert(views =~= tokens_from(s@, 0));
    }
    out
}

/// The outcome of reading prefix tokens `t` from position `i`, after the prefixes
/// `acc`: each token `name:uri` gives a prefix; a token `name:` takes the next token as
/// its URI; a token without `:`, a `name:` at the end, or (when strict) an empty name
/// is refused when strict (naming the token) and skipped otherwise.
pub open spec fn prefix_parse(
    t: Seq<Seq<char>>,
    i: int,
    strict: bool,
    acc: Seq<(Seq<char>, Seq<char>)>,
) -> Result<Seq<(Seq<char>, Seq<char>)>, Seq<char>>
    decreases t.len() - i,
{
    if i < 0 || i >= t.len() {
        Ok(acc)
    } else {
        let tok = t[i];
        let c = first_index_of(tok, ':');
        if c < 0 {
            if strict {
                Err(tok)
            } else {
                prefix_parse(t, i + 1, strict, acc)
            }
        } else {
            let name = tok.take(c);
            let uri = tok.skip(c + 1);
            if uri.len() == 0 && i + 1 >= t.len() {
                if strict {
                    Err(tok)
                } else {
                    prefix_parse(t, i + 1, strict, acc)
                }
            } else {
                let (u, next) = if uri.len() == 0 {
                    (t[i + 1], i + 2)
                } else {
                    (uri, i + 1)
                };
                if strict && name.len() == 0 {
                    Err(tok)
                } else {
                    prefix_parse(t, next, strict, acc.push((name, u)))
                }
            }
        }
    }
}

/// Reads the `prefix` attribute of the package (see [`prefix_parse`]); no attribute
/// gives no prefixes.
pub fn parse_prefix(raw: Option<&str>, strict: bool) -> (r: Result<Prefixes, EpubError>)
    ensures
        match raw {
            None => r matches Ok(p) && p@.len() == 0,
            Some(s) => match prefix_parse(tokens_from(s@, 0), 0, strict, Seq::empty()) {
                Ok(list) => r matches Ok(p) && p@.len() == list.len() && forall|k: int|
                    0 <= k < list.len() ==> (#[trigger] p@[k]).spec_name() == list[k].0
                        && p@[k].spec_uri() == list[k].1,
                Err(tok) => r matches Err(EpubError::InvalidPrefix(e)) && e@ == tok,
            },
        },
{
    let s = match raw {
        Some(s) => s,
        None => {
            return Ok(Prefixes::empty());
        },
    };
    let toks = ascii_tokens(s);
    let ghost t = tokens_from(s@, 0);
    let ghost mut acc: Seq<(Seq<char>, Seq<char>)> = Seq::empty();
    let mut out: Vec<Prefix> = Vec::new();
    let n = toks.len();
    let mut i: usize = 0;
    while i < n
        invariant
            raw == Some(s),
            n == t.len(),
            t == tokens_from(s@, 0),
            forall|k: int| 0 <= k < toks@.len() ==> (#[trigger] toks@[k])@ == t[k],
            toks@.len() == n,
            i <= n,
            out@.len() == acc.len(),
            forall|k: int|
                0 <= k < acc.len() ==> (#[trigger] out@[k]).spec_name() == acc[k].0
                    && out@[k].spec_uri() == acc[k].1,
            prefix_parse(t, 0, strict, Seq::empty()) == prefix_parse(t, i as int, strict, acc),
        decreases n - i,
    {
        let tok = toks[i];
        assert(tok@ == t[i as int]);
        let c = chars_of(tok);
        let len = c.len();
        proof {
            crate::text::lemma_first_index_of(tok@, ':');
        }
        match crate::text::find_char(&c, ':') {
            None => {
                if strict {
                    return Err(EpubError::InvalidPrefix(to_string(tok)));
                }
                i = i + 1;
            },
            Some(colon) => {
                let name = tok.substring_char(0, colon);
                let uri = tok.substring_char(colon + 1, len);
                proof {
                    assert(name@ =~= tok@.take(colon as int));
                    assert(uri@ =~= tok@.skip(colon + 1));
                }
                if uri.unicode_len() == 0 && i + 1 >= n {
                    if strict {
                        return Err(EpubError::InvalidPrefix(to_string(tok)));
                    }
                    i = i + 1;
                } else {
                    let (u, next): (&str, usize) = if uri.unicode_len() == 0 {
                        (toks[i + 1], i + 2)
                    } else {
                        (uri, i + 1)
                    };
                    if strict && name.unicode_len() == 0 {
                        return Err(EpubError::InvalidPrefix(to_string(tok)));
                    }
                    let p = Prefix::create(name, u);
                    proof {
                        acc = acc.push((name@, u@));
                    }
                    out.push(p);
                    i = next;
                }
            },
        }
    }
    Ok(Prefixes::new(out))
}

// ---------------------------------------------------------------------------
// Required metadata
// ---------------------------------------------------------------------------

/// The metadata checks of strict reading: a title, a language, and the identifier
/// named by the package, in that order. Lenient reading checks nothing.
pub fn assert_metadata(metadata: &EpubMetadataData, unique_identifier: &str, strict: bool) -> (r: Result<(), EpubError>)
    ensures
        ({
            let g = metadata.groups();
            let ids = group_of(g, consts::DC_IDENTIFIER@);
            if !strict {
                r is Ok
            } else if group_pos(g, consts::DC_TITLE@) < 0 {
                r matches Err(EpubError::MissingTitle)
            } else if group_pos(g, consts::DC_LANGUAGE@) < 0 {
                r matches Err(EpubError::MissingLanguage)
            } else if !(exists|k: int|
                0 <= k < ids.len() && opt_string_view(#[trigger] ids[k].id) == Some(
                    unique_identifier@,
                )) {
                r matches Err(EpubError::InvalidUniqueIdentifier(e)) && e@ == unique_identifier@
            } else {
                r is Ok
            }
        }),
{
    if !strict {
        return Ok(());
    }
    if metadata.group(consts::DC_TITLE).is_none() {
        return Err(EpubError::MissingTitle);
    }
    if metadata.group(consts::DC_LANGUAGE).is_none() {
        return Err(EpubError::MissingLanguage);
    }
    match metadata.group(consts::DC_IDENTIFIER) {
        Some(ids) => {
            let mut k: usize = 0;
            while k < ids.len()
                invariant
                    strict,
                    group_pos(metadata.groups(), consts::DC_TITLE@) >= 0,
                    group_pos(metadata.groups(), consts::DC_LANGUAGE@) >= 0,
                    k <= ids@.len(),
                    ids@ == group_of(metadata.groups(), consts::DC_IDENTIFIER@),
                    forall|j: int| 0 <= j < k ==> opt_string_view(#[trigger] ids@[j].id) != Some(
                        unique_identifier@,
                    ),
                decreases ids.len() - k,
            {
                if crate::text::opt_eq_str(&ids[k].id, unique_identifier) {
                    assert(opt_string_view(ids@[k as int].id) == Some(unique_identifier@));
                    return Ok(());
                }
                k = k + 1;
            }
        },
        None => {},
    }
    Err(EpubError::InvalidUniqueIdentifier(to_string(unique_identifier)))
}


// ---------------------------------------------------------------------------
// Metadata elements
// ---------------------------------------------------------------------------

/// What a metadata element is: a Dublin Core element (`dc:` prefix), a `<meta>` (EPUB 3
/// style when it has a `property` attribute, else EPUB 2 style) or a `<link>`; other
/// elements are ignored.
pub fn meta_kind(is_dc: bool, is_meta: bool, is_link: bool, has_property: bool) -> (r: Option<EpubMetaEntryKind>)
    ensures
        r == if is_dc {
            Some(EpubMetaEntryKind::DublinCore {  })
        } else if is_meta {
            Some(
                EpubMetaEntryKind::Meta {
                    version: if has_property {
                        EpubVersion::Epub3(Version(3, 0))
                    } else {
                        EpubVersion::Epub2(Version(2, 0))
                    },
                },
            )
        } else if is_link {
            Some(EpubMetaEntryKind::Link {  })
        } else {
            None::<EpubMetaEntryKind>
        },
{
    if is_dc {
        Some(EpubMetaEntryKind::DublinCore {  })
    } else if is_meta {
        let version = if has_property {
            EpubVersion::epub3()
        } else {
            EpubVersion::epub2()
        };
        Some(EpubMetaEntryKind::Meta { version })
    } else if is_link {
        Some(EpubMetaEntryKind::Link {  })
    } else {
        None
    }
}

/// The value of a Dublin Core element: its text; a self-closing one (`text` is `None`)
/// is refused in strict reading and empty otherwise.
pub fn dublin_core_value(property: &str, text: Option<String>, strict: bool) -> (r: Result<String, EpubError>)
    ensures
        match text {
            Some(t) => r == Ok::<String, EpubError>(t),
            None => if strict {
                r matches Err(EpubError::MissingValue(p)) && p@ == property@
            } else {
                r matches Ok(v) && v@.len() == 0
            },
        },
{
    match text {
        Some(t) => Ok(t),
        None => {
            if strict {
                Err(EpubError::MissingValue(to_string(property)))
            } else {
                Ok(String::new())
            }
        },
    }
}

/// The property and value of a `<meta>`: EPUB 2 style takes the required `name` and
/// `content` attributes; EPUB 3 style the required `property` attribute and the text,
/// where a self-closing element (`text` is `None`) is refused in strict reading and
/// otherwise takes its `content` attribute, or nothing.
pub fn meta_property_value(
    version: EpubVersion,
    name: Option<String>,
    property: Option<String>,
    content: Option<String>,
    text: Option<String>,
    strict: bool,
) -> (r: Result<(String, String), EpubError>)
    ensures
        version is Epub2 ==> {
            if strict && name is None {
                r matches Err(EpubError::MissingAttribute(m)) && m@ == "metadata > meta[*name]"@
            } else if strict && content is None {
                r matches Err(EpubError::MissingAttribute(m)) && m@ == "metadata > meta[*content]"@
            } else {
                r matches Ok((p, v)) && p@ == or_empty(name) && v@ == or_empty(content)
            }
        },
        !(version is Epub2) ==> {
            if strict && property is None {
                r matches Err(EpubError::MissingAttribute(m)) && m@ == "metadata > meta[*property]"@
            } else {
                match text {
                    Some(t) => r matches Ok((p, v)) && p@ == or_empty(property) && v == t,
                    None => if strict {
                        r matches Err(EpubError::MissingValue(p)) && p@ == or_empty(property)
                    } else {
                        r matches Ok((p, v)) && p@ == or_empty(property) && v@ == or_empty(content)
                    },
                }
            }
        },
{
    if version.is_epub2() {
        let ghost (n0, c0) = (name, content);
        let p = match require_attribute(name, "metadata > meta[*name]", strict) {
            Ok(v) => v,
            Err(e) => {
                return Err(e);
            },
        };
        assert(p@ =~= or_empty(n0));
        let v = match require_attribute(content, "metadata > meta[*content]", strict) {
            Ok(v) => v,
            Err(e) => {
                return Err(e);
            },
        };
        assert(v@ =~= or_empty(c0));
        Ok((p, v))
    } else {
        let ghost (p0, c0) = (property, content);
        let p = match require_attribute(property, "metadata > meta[*property]", strict) {
            Ok(v) => v,
            Err(e) => {
                return Err(e);
            },
        };
        assert(p@ =~= or_empty(p0));
        match text {
            Some(t) => Ok((p, t)),
            None => {
                if strict {
                    Err(EpubError::MissingValue(p))
                } else {
                    let v = match content {
                        Some(c) => c,
                        None => String::new(),
                    };
                    assert(v@ =~= or_empty(c0));
                    Ok((p, v))
                }
            },
        }
    }
}

/// A metadata entry as read, before entries are arranged: its `id` and the `id` it
/// refines (without a leading `#`) beside the data; the text direction is `auto`
/// unless `dir` names another.
pub fn metadata_entry(
    kind: EpubMetaEntryKind,
    property: String,
    value: String,
    id: Option<String>,
    language: Option<String>,
    refines: Option<String>,
    dir: Option<String>,
    attributes: Attributes,
) -> (r: ParsedMeta)
    ensures
        r.id == id,
        opt_string_view(r.refines) == match refines {
            Some(x) => Some(spec_normalize_refines(x@)),
            None => None::<Seq<char>>,
        },
        r.data.id is None,
        r.data.property == property,
        r.data.value == value,
        r.data.language == language,
        r.data.text_direction == (match dir {
            Some(d) => spec_direction_of(d@),
            None => TextDirection::Auto,
        }),
        r.data.attributes == attributes,
        r.data.refinements.0@.len() == 0,
        r.data.kind == kind,
{
    let refines = match refines {
        Some(x) => Some(normalize_refines(x.as_str())),
        None => None,
    };
    let text_direction = match &dir {
        Some(d) => TextDirection::from_value(d.as_str()),
        None => TextDirection::Auto,
    };
    let data = EpubMetaEntryData {
        id: None,
        property,
        value,
        language,
        text_direction,
        attributes,
        refinements: EpubRefinementsData(Vec::new()),
        kind,
    };
    ParsedMeta { id, refines, data }
}

} // verus!
