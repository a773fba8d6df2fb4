//! Character-level string helpers shared by the element, URI and metadata modules.
//!
//! All positions handled here are *character* positions (indices into `s@`),
//! never byte offsets.
use vstd::prelude::*;

verus! {

broadcast use vstd::string::group_string_axioms;

/// The Unicode `White_Space` property, as used by `char::is_whitespace`.
pub open spec fn is_ws(c: char) -> bool {
    ||| c == '\t'
    ||| c == '\n'
    ||| c == '\u{0B}'
    ||| c == '\u{0C}'
    ||| c == '\r'
    ||| c == ' '
    ||| c == '\u{85}'
    ||| c == '\u{A0}'
    ||| c == '\u{1680}'
    ||| ('\u{2000}' <= c && c <= '\u{200A}')
    ||| c == '\u{2028}'
    ||| c == '\u{2029}'
    ||| c == '\u{202F}'
    ||| c == '\u{205F}'
    ||| c == '\u{3000}'
}

/// Index of the first occurrence of `c` in `s`, or `-1`.
pub open spec fn first_index_of(s: Seq<char>, c: char) -> int
    decreases s.len(),
{
    if s.len() == 0 {
        -1
    } else if s[0] == c {
        0
    } else {
        let r = first_index_of(s.drop_first(), c);
        if r < 0 {
            -1
        } else {
            r + 1
        }
    }
}

/// Index of the last occurrence of `c` in `s`, or `-1`.
pub open spec fn last_index_of(s: Seq<char>, c: char) -> int
    decreases s.len(),
{
    if s.len() == 0 {
        -1
    } else if s.last() == c {
        s.len() - 1
    } else {
        last_index_of(s.drop_last(), c)
    }
}

/// Index of the first occurrence of either `a` or `b` in `s`, or `-1`.
pub open spec fn first_index_of_either(s: Seq<char>, a: char, b: char) -> int
    decreases s.len(),
{
    if s.len() == 0 {
        -1
    } else if s[0] == a || s[0] == b {
        0
    } else {
        let r = first_index_of_either(s.drop_first(), a, b);
        if r < 0 {
            -1
        } else {
            r + 1
        }
    }
}

/// Index of the first non-whitespace character of `s`, or `-1`.
pub open spec fn first_non_ws(s: Seq<char>) -> int
    decreases s.len(),
{
    if s.len() == 0 {
        -1
    } else if !is_ws(s[0]) {
        0
    } else {
        let r = first_non_ws(s.drop_first());
        if r < 0 {
            -1
        } else {
            r + 1
        }
    }
}

/// Index of the first whitespace character of `s`, or `-1`.
pub open spec fn first_ws(s: Seq<char>) -> int
    decreases s.len(),
{
    if s.len() == 0 {
        -1
    } else if is_ws(s[0]) {
        0
    } else {
        let r = first_ws(s.drop_first());
        if r < 0 {
            -1
        } else {
            r + 1
        }
    }
}

/// Index of the last non-whitespace character of `s`, or `-1`.
pub open spec fn last_non_ws(s: Seq<char>) -> int
    decreases s.len(),
{
    if s.len() == 0 {
        -1
    } else if !is_ws(s.last()) {
        s.len() - 1
    } else {
        last_non_ws(s.drop_last())
    }
}

/// `s` with leading and trailing whitespace removed (`str::trim`).
pub open spec fn trim(s: Seq<char>) -> Seq<char> {
    if first_non_ws(s) < 0 {
        Seq::empty()
    } else {
        s.subrange(first_non_ws(s), last_non_ws(s) + 1)
    }
}

/// The whitespace-separated words of `s` (`str::split_whitespace`).
pub open spec fn words(s: Seq<char>) -> Seq<Seq<char>>
    decreases s.len(),
{
    let st = first_non_ws(s);
    if st < 0 {
        Seq::empty()
    } else {
        let rest = s.skip(st);
        let e = first_ws(rest);
        if e < 0 {
            seq![rest]
        } else {
            proof {
                lemma_first_non_ws(s);
                lemma_first_ws(rest);
                assert(rest[0] == s[st]);
            }
            seq![rest.take(e)] + words(rest.skip(e))
        }
    }
}

/// `true` when no character of `s` is whitespace.
pub open spec fn no_ws(s: Seq<char>) -> bool {
    forall|i: int| 0 <= i < s.len() ==> !is_ws(#[trigger] s[i])
}

/// Text that neither starts nor ends with whitespace is its own trim.
pub proof fn lemma_trim_plain(s: Seq<char>)
    requires
        s.len() == 0 || (!is_ws(s[0]) && !is_ws(s.last())),
    ensures
        trim(s) == s,
{
    if s.len() > 0 {
        assert(s.subrange(0, s.len() as int) =~= s);
    }
}

pub proof fn lemma_first_index_of(s: Seq<char>, c: char)
    ensures
        -1 <= first_index_of(s, c) < s.len(),
        first_index_of(s, c) >= 0 ==> s[first_index_of(s, c)] == c,
        forall|j: int| 0 <= j < s.len() && (first_index_of(s, c) < 0 || j < first_index_of(s, c))
            ==> s[j] != c,
    decreases s.len(),
{
    if s.len() > 0 && s[0] != c {
        lemma_first_index_of(s.drop_first(), c);
        assert forall|j: int|
            0 <= j < s.len() && (first_index_of(s, c) < 0 || j < first_index_of(s, c)) implies s[j]
            != c by {
            if j > 0 {
                assert(s[j] == s.drop_first()[j - 1]);
            }
        }
    }
}

pub proof fn lemma_first_index_of_either(s: Seq<char>, a: char, b: char)
    ensures
        -1 <= first_index_of_either(s, a, b) < s.len(),
        first_index_of_either(s, a, b) >= 0 ==> (s[first_index_of_either(s, a, b)] == a || s[first_index_of_either(s, a, b)] == b),
        forall|j: int|
            0 <= j < s.len() && (first_index_of_either(s, a, b) < 0 || j < first_index_of_either(s, a, b))
                ==> s[j] != a && s[j] != b,
    decreases s.len(),
{
    if s.len() > 0 && s[0] != a && s[0] != b {
        lemma_first_index_of_either(s.drop_first(), a, b);
        assert forall|j: int|
            0 <= j < s.len() && (first_index_of_either(s, a, b) < 0 || j < first_index_of_either(s, a, b))
                implies s[j] != a && s[j] != b by {
            if j > 0 {
                assert(s[j] == s.drop_first()[j - 1]);
            }
        }
    }
}

pub proof fn lemma_last_index_of(s: Seq<char>, c: char)
    ensures
        -1 <= last_index_of(s, c) < s.len(),
        last_index_of(s, c) >= 0 ==> s[last_index_of(s, c)] == c,
        forall|j: int| 0 <= j < s.len() && last_index_of(s, c) < j ==> s[j] != c,
    decreases s.len(),
{
    if s.len() > 0 && s.last() != c {
        lemma_last_index_of(s.drop_last(), c);
        assert forall|j: int| 0 <= j < s.len() && last_index_of(s, c) < j implies s[j] != c by {
            if j < s.len() - 1 {
                assert(s[j] == s.drop_last()[j]);
            }
        }
    }
}

pub proof fn lemma_first_non_ws(s: Seq<char>)
    ensures
        -1 <= first_non_ws(s) < s.len(),
        first_non_ws(s) >= 0 ==> !is_ws(s[first_non_ws(s)]),
        forall|j: int| 0 <= j < s.len() && (first_non_ws(s) < 0 || j < first_non_ws(s)) ==> is_ws(
            s[j],
        ),
    decreases s.len(),
{
    if s.len() > 0 && is_ws(s[0]) {
        lemma_first_non_ws(s.drop_first());
        assert forall|j: int|
            0 <= j < s.len() && (first_non_ws(s) < 0 || j < first_non_ws(s)) implies is_ws(s[j]) by {
            if j > 0 {
                assert(s[j] == s.drop_first()[j - 1]);
            }
        }
    }
}

pub proof fn lemma_first_ws(s: Seq<char>)
    ensures
        -1 <= first_ws(s) < s.len(),
        first_ws(s) >= 0 ==> is_ws(s[first_ws(s)]),
        forall|j: int| 0 <= j < s.len() && (first_ws(s) < 0 || j < first_ws(s)) ==> !is_ws(s[j]),
    decreases s.len(),
{
    if s.len() > 0 && !is_ws(s[0]) {
        lemma_first_ws(s.drop_first());
        assert forall|j: int| 0 <= j < s.len() && (first_ws(s) < 0 || j < first_ws(s)) implies !is_ws(
            s[j],
        ) by {
            if j > 0 {
                assert(s[j] == s.drop_first()[j - 1]);
            }
        }
    }
}

pub proof fn lemma_last_non_ws(s: Seq<char>)
    ensures
        -1 <= last_non_ws(s) < s.len(),
        last_non_ws(s) >= 0 ==> !is_ws(s[last_non_ws(s)]),
        forall|j: int| 0 <= j < s.len() && last_non_ws(s) < j ==> is_ws(s[j]),
        (first_non_ws(s) < 0) == (last_non_ws(s) < 0),
        first_non_ws(s) >= 0 ==> first_non_ws(s) <= last_non_ws(s),
    decreases s.len(),
{
    lemma_first_non_ws(s);
    if s.len() > 0 && is_ws(s.last()) {
        lemma_last_non_ws(s.drop_last());
        lemma_first_non_ws(s.drop_last());
        assert forall|j: int| 0 <= j < s.len() && last_non_ws(s) < j implies is_ws(s[j]) by {
            if j < s.len() - 1 {
                assert(s[j] == s.drop_last()[j]);
            }
        }
        if first_non_ws(s) >= 0 {
            assert(s[first_non_ws(s)] == s.drop_last()[first_non_ws(s)]);
        }
        if last_non_ws(s) >= 0 {
            assert(s[last_non_ws(s)] == s.drop_last()[last_non_ws(s)]);
        }
    }
}

/// `words` of a text that starts with whitespace ignores that character.
pub proof fn lemma_words_skip_ws(s: Seq<char>)
    requires
        s.len() > 0,
        is_ws(s[0]),
    ensures
        words(s) == words(s.drop_first()),
{
    lemma_first_non_ws(s);
    lemma_first_non_ws(s.drop_first());
    let st = first_non_ws(s);
    if st >= 0 {
        assert(s.skip(st) =~= s.drop_first().skip(st - 1));
    }
}

/// Every word is non-empty and holds no whitespace.
pub proof fn lemma_words_shape(s: Seq<char>)
    ensures
        forall|i: int| 0 <= i < words(s).len() ==> #[trigger] words(s)[i].len() > 0 && no_ws(words(s)[i]),
    decreases s.len(),
{
    lemma_first_non_ws(s);
    let st = first_non_ws(s);
    if st >= 0 {
        let rest = s.skip(st);
        lemma_first_ws(rest);
        let e = first_ws(rest);
        if e >= 0 {
            lemma_words_shape(rest.skip(e));
            assert forall|i: int| 0 <= i < words(s).len() implies #[trigger] words(s)[i].len() > 0
                && no_ws(words(s)[i]) by {
                if i > 0 {
                    assert(words(s)[i] == words(rest.skip(e))[i - 1]);
                }
            }
        }
    }
}

/// The first non-whitespace character is the one before which all are whitespace.
proof fn lemma_first_non_ws_at(s: Seq<char>, i: int)
    requires
        0 <= i < s.len(),
        !is_ws(s[i]),
        forall|j: int| 0 <= j < i ==> is_ws(#[trigger] s[j]),
    ensures
        first_non_ws(s) == i,
{
    lemma_first_non_ws(s);
}

/// The first whitespace character is the one before which none is.
pub proof fn lemma_first_ws_at(s: Seq<char>, i: int)
    requires
        0 <= i < s.len(),
        is_ws(s[i]),
        forall|j: int| 0 <= j < i ==> !is_ws(#[trigger] s[j]),
    ensures
        first_ws(s) == i,
{
    lemma_first_ws(s);
}

pub proof fn lemma_first_ws_none(s: Seq<char>)
    requires
        no_ws(s),
    ensures
        first_ws(s) == -1,
{
    lemma_first_ws(s);
}

/// A non-empty text without whitespace is one word.
pub proof fn lemma_words_single(p: Seq<char>)
    requires
        p.len() > 0,
        no_ws(p),
    ensures
        words(p) == seq![p],
{
    lemma_first_non_ws_at(p, 0);
    lemma_first_ws_none(p);
    assert(p.skip(0) =~= p);
}

/// Appending a space and a word to a text appends that word to its words.
pub proof fn lemma_words_append(s: Seq<char>, p: Seq<char>)
    requires
        p.len() > 0,
        no_ws(p),
    ensures
        words(s.push(' ') + p) == words(s) + seq![p],
    decreases s.len(),
{
    let x = s.push(' ') + p;
    let sp = s.len() as int;
    assert(is_ws(' '));
    assert(x[sp] == ' ');
    assert forall|j: int| 0 <= j < sp implies x[j] == s[j] by {}
    lemma_first_non_ws(s);
    let st = first_non_ws(s);
    if st < 0 {
        assert forall|j: int| 0 <= j < sp + 1 implies is_ws(#[trigger] x[j]) by {
            if j < sp {
                assert(x[j] == s[j]);
            }
        }
        assert(x[sp + 1] == p[0]);
        lemma_first_non_ws_at(x, sp + 1);
        assert(x.skip(sp + 1) =~= p);
        lemma_first_ws_none(p);
        assert(words(s) =~= Seq::<Seq<char>>::empty());
        assert(words(x) =~= seq![p]);
    } else {
        assert forall|j: int| 0 <= j < st implies is_ws(#[trigger] x[j]) by {
            assert(x[j] == s[j]);
        }
        assert(x[st] == s[st]);
        lemma_first_non_ws_at(x, st);
        let rs = s.skip(st);
        let rx = x.skip(st);
        assert(rx =~= rs.push(' ') + p);
        lemma_first_ws(rs);
        let e = first_ws(rs);
        assert(rs[0] == s[st]);
        if e < 0 {
            let n = rs.len() as int;
            assert forall|j: int| 0 <= j < n implies !is_ws(#[trigger] rx[j]) by {
                assert(rx[j] == rs[j]);
            }
            assert(rx[n] == ' ');
            lemma_first_ws_at(rx, n);
            assert(rx.take(n) =~= rs);
            let tail = rx.skip(n);
            assert(tail =~= seq![' '] + p);
            lemma_words_skip_ws(tail);
            assert(tail.drop_first() =~= p);
            lemma_words_single(p);
            assert(words(s) =~= seq![rs]);
            assert(words(x) =~= seq![rs] + seq![p]);
        } else {
            assert(e >= 1);
            assert forall|j: int| 0 <= j < e implies !is_ws(#[trigger] rx[j]) by {
                assert(rx[j] == rs[j]);
            }
            assert(rx[e] == rs[e]);
            lemma_first_ws_at(rx, e);
            assert(rx.take(e) =~= rs.take(e));
            let rest = rs.skip(e);
            assert(rx.skip(e) =~= rest.push(' ') + p);
            lemma_words_append(rest, p);
            assert(words(s) == seq![rs.take(e)] + words(rest));
            assert(words(x) == seq![rs.take(e)] + words(rest.push(' ') + p));
            assert(words(x) =~= words(s) + seq![p]);
        }
    }
}

/// The characters of `s`, in order.
pub fn chars_of(s: &str) -> (r: Vec<char>)
    ensures
        r@ == s@,
{
    let mut out: Vec<char> = Vec::new();
    for c in it: s.chars()
        invariant
            out@ == it.seq().take(it.index() as int),
    {
        out.push(c);
    }
    out
}

/// `String::push`.
#[verifier::external_body]
pub fn push_char(s: &mut String, c: char)
    ensures
        final(s)@ == old(s)@.push(c),
{
    s.push(c);
}

/// `str::to_owned`, building a new `String` holding the characters of `s`.
pub fn to_string(s: &str) -> (r: String)
    ensures
        r@ == s@,
{
    s.to_owned()
}

/// Appends every character of `tail` to `s`.
pub fn push_chars(s: &mut String, tail: &str)
    ensures
        final(s)@ == old(s)@ + tail@,
{
    let v = chars_of(tail);
    let mut i: usize = 0;
    while i < v.len()
        invariant
            i <= v@.len(),
            v@ == tail@,
            s@ == old(s)@ + tail@.take(i as int),
        decreases v.len() - i,
    {
        push_char(s, v[i]);
        i = i + 1;
        assert(tail@.take(i as int) == tail@.take((i - 1) as int).push(v@[i - 1]));
    }
    assert(tail@.take(i as int) == tail@);
}

/// Builds a string from the characters `v[from..to]`.
pub fn string_from_range(v: &Vec<char>, from: usize, to: usize) -> (r: String)
    requires
        from <= to <= v@.len(),
    ensures
        r@ == v@.subrange(from as int, to as int),
{
    let mut s = String::new();
    let mut i = from;
    while i < to
        invariant
            from <= i <= to,
            to <= v@.len(),
            s@ == v@.subrange(from as int, i as int),
        decreases to - i,
    {
        push_char(&mut s, v[i]);
        i = i + 1;
        assert(v@.subrange(from as int, i as int) == v@.subrange(from as int, (i - 1) as int).push(
            v@[i - 1],
        ));
    }
    s
}

/// Character equality of two strings.
pub fn str_eq(a: &str, b: &str) -> (r: bool)
    ensures
        r == (a@ == b@),
{
    let va = chars_of(a);
    let vb = chars_of(b);
    seq_eq(&va, &vb)
}

/// Element-wise equality of two character vectors.
pub fn seq_eq(va: &Vec<char>, vb: &Vec<char>) -> (r: bool)
    ensures
        r == (va@ == vb@),
{
    if va.len() != vb.len() {
        return false;
    }
    let mut i: usize = 0;
    while i < va.len()
        invariant
            i <= va@.len(),
            va@.len() == vb@.len(),
            forall|j: int| 0 <= j < i ==> va@[j] == vb@[j],
        decreases va.len() - i,
    {
        if va[i] != vb[i] {
            return false;
        }
        i = i + 1;
    }
    assert(va@ =~= vb@);
    true
}

/// `char::is_whitespace`.
pub fn is_whitespace(c: char) -> (r: bool)
    ensures
        r == is_ws(c),
{
    c == '\t' || c == '\n' || c == '\u{0B}' || c == '\u{0C}' || c == '\r' || c == ' ' || c
        == '\u{85}' || c == '\u{A0}' || c == '\u{1680}' || ('\u{2000}' <= c && c <= '\u{200A}')
        || c == '\u{2028}' || c == '\u{2029}' || c == '\u{202F}' || c == '\u{205F}' || c
        == '\u{3000}'
}

/// Position of the first `c` at or after `from` in `v`.
pub fn find_char_from(v: &Vec<char>, c: char, from: usize) -> (r: Option<usize>)
    requires
        from <= v@.len(),
    ensures
        match r {
            Some(i) => from <= i < v@.len() && v@[i as int] == c && forall|j: int|
                from <= j < i ==> v@[j] != c,
            None => forall|j: int| from <= j < v@.len() ==> v@[j] != c,
        },
{
    let mut i = from;
    while i < v.len()
        invariant
            from <= i <= v@.len(),
            forall|j: int| from <= j < i ==> v@[j] != c,
        decreases v.len() - i,
    {
        if v[i] == c {
            return Some(i);
        }
        i = i + 1;
    }
    None
}

/// Position of the first occurrence of `c` in `s` (`str::find`, counted in characters).
pub fn find_char(v: &Vec<char>, c: char) -> (r: Option<usize>)
    ensures
        match r {
            Some(i) => i as int == first_index_of(v@, c) && i < v@.len() && v@[i as int] == c,
            None => first_index_of(v@, c) == -1,
        },
{
    proof {
        lemma_first_index_of(v@, c);
    }
    let r = find_char_from(v, c, 0);
    match r {
        Some(i) => {
            assert(i as int == first_index_of(v@, c)) by {
                let f = first_index_of(v@, c);
                if f < 0 || f > i {
                } else if f < i {
                }
            }
        },
        None => {
            proof {
                if first_index_of(v@, c) >= 0 {
                    assert(v@[first_index_of(v@, c)] == c);
                }
            }
        },
    }
    r
}

/// Position of the first occurrence of either `a` or `b` in `v`.
pub fn find_either(v: &Vec<char>, a: char, b: char) -> (r: Option<usize>)
    ensures
        match r {
            Some(i) => i as int == first_index_of_either(v@, a, b) && i < v@.len(),
            None => first_index_of_either(v@, a, b) == -1,
        },
{
    proof {
        lemma_first_index_of_either(v@, a, b);
    }
    let mut i: usize = 0;
    while i < v.len()
        invariant
            i <= v@.len(),
            forall|j: int| 0 <= j < i ==> v@[j] != a && v@[j] != b,
        decreases v.len() - i,
    {
        if v[i] == a || v[i] == b {
            assert(i as int == first_index_of_either(v@, a, b)) by {
                lemma_first_index_of_either(v@, a, b);
                let f = first_index_of_either(v@, a, b);
                if f < 0 || f > i {
                } else if f < i {
                }
            }
            return Some(i);
        }
        i = i + 1;
    }
    proof {
        if first_index_of_either(v@, a, b) >= 0 {
            let f = first_index_of_either(v@, a, b);
            assert(v@[f] == a || v@[f] == b);
        }
    }
    None
}

/// Position of the last occurrence of `c` in `v` (`str::rfind`, counted in characters).
pub fn rfind_char(v: &Vec<char>, c: char) -> (r: Option<usize>)
    ensures
        match r {
            Some(i) => i as int == last_index_of(v@, c) && i < v@.len() && v@[i as int] == c,
            None => last_index_of(v@, c) == -1,
        },
{
    proof {
        lemma_last_index_of(v@, c);
    }
    let mut i: usize = v.len();
    while i > 0
        invariant
            i <= v@.len(),
            forall|j: int| i <= j < v@.len() ==> v@[j] != c,
        decreases i,
    {
        if v[i - 1] == c {
            assert((i - 1) as int == last_index_of(v@, c)) by {
                lemma_last_index_of(v@, c);
                let f = last_index_of(v@, c);
                if f < 0 || f < i - 1 {
                } else if f > i - 1 {
                }
            }
            return Some(i - 1);
        }
        i = i - 1;
    }
    proof {
        if last_index_of(v@, c) >= 0 {
            assert(v@[last_index_of(v@, c)] == c);
        }
    }
    None
}

/// Position of the first non-whitespace character at or after `from`.
pub fn skip_ws_from(v: &Vec<char>, from: usize) -> (r: usize)
    requires
        from <= v@.len(),
    ensures
        from <= r <= v@.len(),
        forall|j: int| from <= j < r ==> is_ws(v@[j]),
        r < v@.len() ==> !is_ws(v@[r as int]),
{
    let mut i = from;
    while i < v.len()
        invariant
            from <= i <= v@.len(),
            forall|j: int| from <= j < i ==> is_ws(v@[j]),
        decreases v.len() - i,
    {
        if !is_whitespace(v[i]) {
            return i;
        }
        i = i + 1;
    }
    i
}

/// Position of the first whitespace character at or after `from`.
pub fn find_ws_from(v: &Vec<char>, from: usize) -> (r: usize)
    requires
        from <= v@.len(),
    ensures
        from <= r <= v@.len(),
        forall|j: int| from <= j < r ==> !is_ws(v@[j]),
        r < v@.len() ==> is_ws(v@[r as int]),
{
    let mut i = from;
    while i < v.len()
        invariant
            from <= i <= v@.len(),
            forall|j: int| from <= j < i ==> !is_ws(v@[j]),
        decreases v.len() - i,
    {
        if is_whitespace(v[i]) {
            return i;
        }
        i = i + 1;
    }
    i
}

/// The bounds of `trim(v@)` inside `v`.
pub fn trim_bounds(v: &Vec<char>) -> (r: (usize, usize))
    ensures
        r.0 <= r.1 <= v@.len(),
        v@.subrange(r.0 as int, r.1 as int) == trim(v@),
{
    proof {
        lemma_first_non_ws(v@);
        lemma_last_non_ws(v@);
    }
    let st = skip_ws_from(v, 0);
    if st == v.len() {
        proof {
            if first_non_ws(v@) >= 0 {
                assert(!is_ws(v@[first_non_ws(v@)]));
            }
        }
        return (st, st);
    }
    assert(st as int == first_non_ws(v@)) by {
        let f = first_non_ws(v@);
        if f < 0 || f > st {
        } else if f < st {
        }
    }
    let mut e = v.len();
    while e > st + 1 && is_whitespace(v[e - 1])
        invariant
            st + 1 <= e <= v@.len(),
            st < v@.len(),
            !is_ws(v@[st as int]),
            forall|j: int| e <= j < v@.len() ==> is_ws(v@[j]),
        decreases e,
    {
        e = e - 1;
    }
    assert(e - 1 == last_non_ws(v@)) by {
        let l = last_non_ws(v@);
        if e - 1 > st {
            assert(!is_ws(v@[e - 1]));
        }
        if l < e - 1 {
        } else if l > e - 1 {
        }
    }
    (st, e)
}

/// `str::trim`, returning a slice of `s`.
pub fn trim_str<'a>(s: &'a str) -> (r: &'a str)
    ensures
        r@ == trim(s@),
{
    let v = chars_of(s);
    let (a, b) = trim_bounds(&v);
    s.substring_char(a, b)
}

/// The character bounds of `words(v@)` inside `v`.
pub fn word_bounds(v: &Vec<char>) -> (r: Vec<(usize, usize)>)
    ensures
        r@.len() == words(v@).len(),
        forall|i: int|
            0 <= i < r@.len() ==> #[trigger] r@[i].0 < r@[i].1 <= v@.len() && v@.subrange(
                r@[i].0 as int,
                r@[i].1 as int,
            ) == words(v@)[i],
        forall|i: int, j: int| 0 <= i < j < r@.len() ==> #[trigger] r@[i].1 <= #[trigger] r@[j].0,
{
    let mut out: Vec<(usize, usize)> = Vec::new();
    let mut pos: usize = 0;
    let ghost mut acc: Seq<Seq<char>> = Seq::empty();
    assert(v@.skip(0) =~= v@);
    while pos < v.len()
        invariant
            pos <= v@.len(),
            acc + words(v@.skip(pos as int)) == words(v@),
            out@.len() == acc.len(),
            forall|i: int|
                0 <= i < out@.len() ==> #[trigger] out@[i].0 < out@[i].1 <= pos && v@.subrange(
                    out@[i].0 as int,
                    out@[i].1 as int,
                ) == acc[i],
            forall|i: int, j: int| 0 <= i < j < out@.len() ==> #[trigger] out@[i].1 <= #[trigger] out@[j].0,
        decreases v.len() - pos,
    {
        let ghost rest = v@.skip(pos as int);
        proof {
            lemma_first_non_ws(rest);
        }
        let st = skip_ws_from(v, pos);
        if st == v.len() {
            assert(first_non_ws(rest) < 0) by {
                if first_non_ws(rest) >= 0 {
                    assert(rest[first_non_ws(rest)] == v@[pos + first_non_ws(rest)]);
                }
            }
            assert(words(rest) =~= Seq::<Seq<char>>::empty());
            pos = st;
            proof {
                let r2 = v@.skip(pos as int);
                lemma_first_non_ws(r2);
                assert(words(r2) =~= Seq::<Seq<char>>::empty());
            }
        } else {
            assert(st - pos == first_non_ws(rest)) by {
                let f = first_non_ws(rest);
                assert(rest[st - pos] == v@[st as int]);
                if f < 0 || f > st - pos {
                } else if f < st - pos {
                    assert(rest[f] == v@[pos + f]);
                }
            }
            let ghost rest2 = rest.skip(st - pos);
            assert(rest2 =~= v@.skip(st as int));
            proof {
                lemma_first_ws(rest2);
            }
            let e = find_ws_from(v, st);
            assert(e > st);
            let ghost word = v@.subrange(st as int, e as int);
            if e == v.len() {
                assert(first_ws(rest2) < 0) by {
                    if first_ws(rest2) >= 0 {
                        assert(rest2[first_ws(rest2)] == v@[st + first_ws(rest2)]);
                    }
                }
                assert(rest2 =~= word);
                assert(words(rest) == seq![word]);
            } else {
                assert(e - st == first_ws(rest2)) by {
                    let f = first_ws(rest2);
                    assert(rest2[e - st] == v@[e as int]);
                    if f < 0 || f > e - st {
                    } else if f < e - st {
                        assert(rest2[f] == v@[st + f]);
                    }
                }
                assert(rest2.take(e - st) =~= word);
                assert(rest2.skip(e - st) =~= v@.skip(e as int));
                assert(words(rest) == seq![word] + words(v@.skip(e as int)));
            }
            let ghost old_acc = acc;
            let ghost old_out = out@;
            let ghost old_pos = pos;
            proof {
                acc = acc.push(word);
            }
            out.push((st, e));
            pos = e;
            proof {
                assert forall|i: int| 0 <= i < old_out.len() implies old_out[i].0 < old_out[i].1
                    <= old_pos && v@.subrange(old_out[i].0 as int, old_out[i].1 as int)
                    == old_acc[i] by {
                    assert(old_out[i].0 < old_out[i].1);
                }
                assert forall|i: int|
                    0 <= i < out@.len() implies #[trigger] out@[i].0 < out@[i].1 <= pos && v@.subrange(
                    out@[i].0 as int,
                    out@[i].1 as int,
                ) == acc[i] by {
                    if i < out@.len() - 1 {
                        assert(out@[i] == old_out[i]);
                        assert(old_out[i].0 < old_out[i].1);
                    }
                }
                assert forall|i: int, j: int| 0 <= i < j < out@.len() implies #[trigger] out@[i].1
                    <= #[trigger] out@[j].0 by {
                    assert(out@[i] == old_out[i]);
                    assert(old_out[i].0 < old_out[i].1);
                    if j < out@.len() - 1 {
                        assert(out@[j] == old_out[j]);
                    }
                }
                if e == v.len() {
                    let r2 = v@.skip(pos as int);
                    lemma_first_non_ws(r2);
                    assert(words(r2) =~= Seq::<Seq<char>>::empty());
                    assert(acc + words(r2) =~= old_acc + seq![word]);
                } else {
                    assert(acc + words(v@.skip(pos as int)) =~= old_acc + (seq![word] + words(
                        v@.skip(pos as int),
                    )));
                }
            }
        }
    }
    proof {
        if pos == v.len() {
            let ghost rest = v@.skip(pos as int);
            assert(rest.len() == 0);
            lemma_first_non_ws(rest);
            assert(words(rest) =~= Seq::<Seq<char>>::empty());
            assert(acc + words(rest) =~= acc);
        }
    }
    out
}

/// The characters of an optional string slice.
pub open spec fn opt_str_view(o: Option<&str>) -> Option<Seq<char>> {
    match o {
        Some(s) => Some(s@),
        None => None,
    }
}

/// The characters of an optional owned string.
pub open spec fn opt_string_view(o: Option<String>) -> Option<Seq<char>> {
    match o {
        Some(s) => Some(s@),
        None => None,
    }
}

/// `Option::as_deref` for an optional owned string.
pub fn opt_as_str(o: &Option<String>) -> (r: Option<&str>)
    ensures
        opt_str_view(r) == opt_string_view(*o),
{
    match o {
        Some(s) => Some(s.as_str()),
        None => None,
    }
}

/// Copies an optional string slice into an optional owned string.
pub fn opt_to_string(o: Option<&str>) -> (r: Option<String>)
    ensures
        opt_string_view(r) == opt_str_view(o),
{
    match o {
        Some(s) => Some(s.to_owned()),
        None => None,
    }
}

/// Whether `a` holds a string equal to `b`.
pub fn opt_eq_str(a: &Option<String>, b: &str) -> (r: bool)
    ensures
        r == (opt_string_view(*a) == Some(b@)),
{
    match a {
        Some(s) => str_eq(s.as_str(), b),
        None => false,
    }
}

/// Whether `s` starts with `prefix`.
pub fn starts_with(s: &str, prefix: &str) -> (r: bool)
    ensures
        r == (prefix@.len() <= s@.len() && s@.take(prefix@.len() as int) == prefix@),
{
    let a = chars_of(s);
    let b = chars_of(prefix);
    if b.len() > a.len() {
        return false;
    }
    let mut i: usize = 0;
    while i < b.len()
        invariant
            i <= b@.len(),
            b@.len() <= a@.len(),
            a@ == s@,
            b@ == prefix@,
            forall|j: int| 0 <= j < i ==> a@[j] == b@[j],
        decreases b.len() - i,
    {
        if a[i] != b[i] {
            assert(a@.take(b@.len() as int)[i as int] != b@[i as int]);
            return false;
        }
        i = i + 1;
    }
    assert(a@.take(b@.len() as int) =~= b@);
    true
}

/// The concatenation of two string slices.
pub fn concat(a: &str, b: &str) -> (r: String)
    ensures
        r@ == a@ + b@,
{
    let mut s = a.to_owned();
    push_chars(&mut s, b);
    s
}

} // verus!
