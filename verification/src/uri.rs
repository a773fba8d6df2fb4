//! Helpers over percent-encoded `href` values: path, file name, parent,
//! extension, fragment, query and percent-decoding.
use vstd::prelude::*;
use vstd::utf8::*;
use crate::text::{
    chars_of, find_char, find_either, first_index_of, first_index_of_either, last_index_of, push_char, rfind_char,
};

verus! {

broadcast use vstd::string::group_string_axioms;

/// The href without its query (`?`) and fragment (`#`).
pub open spec fn spec_path(s: Seq<char>) -> Seq<char> {
    let i = first_index_of_either(s, '?', '#');
    if i < 0 {
        s
    } else {
        s.take(i)
    }
}

/// The last `/`-separated component of the href's path.
pub open spec fn spec_filename(s: Seq<char>) -> Seq<char> {
    let p = spec_path(s);
    let j = last_index_of(p, '/');
    if j < 0 {
        p
    } else {
        p.skip(j + 1)
    }
}

/// Everything before the last `/`; a leading `/` alone is kept; empty without any `/`.
pub open spec fn spec_parent(s: Seq<char>) -> Seq<char> {
    let j = last_index_of(s, '/');
    if j < 0 {
        Seq::empty()
    } else if j == 0 {
        s.take(1)
    } else {
        s.take(j)
    }
}

/// The text after the last `.` of the file name, if the file name has a `.`.
pub open spec fn spec_extension(s: Seq<char>) -> Option<Seq<char>> {
    let f = spec_filename(s);
    let j = last_index_of(f, '.');
    if j < 0 {
        None
    } else {
        Some(f.skip(j + 1))
    }
}

/// The text after the first `#`, if any.
pub open spec fn spec_fragment(s: Seq<char>) -> Option<Seq<char>> {
    let i = first_index_of(s, '#');
    if i < 0 {
        None
    } else {
        Some(s.skip(i + 1))
    }
}

/// The text after the first `?`, up to the next `#`, if there is a `?`.
pub open spec fn spec_query(s: Seq<char>) -> Option<Seq<char>> {
    let i = first_index_of(s, '?');
    if i < 0 {
        None
    } else {
        let rest = s.skip(i + 1);
        let k = first_index_of(rest, '#');
        if k < 0 {
            Some(rest)
        } else {
            Some(rest.take(k))
        }
    }
}

/// The value of an ASCII hexadecimal digit, or `-1`.
pub open spec fn hex_value(b: u8) -> int {
    if 48 <= b <= 57 {
        b - 48
    } else if 65 <= b <= 70 {
        b - 55
    } else if 97 <= b <= 102 {
        b - 87
    } else {
        -1
    }
}

/// Percent-decoding: every `%XY` with two hexadecimal digits becomes the byte `0xXY`;
/// every other byte is kept.
pub open spec fn percent_decode(b: Seq<u8>) -> Seq<u8>
    decreases b.len(),
{
    if b.len() == 0 {
        Seq::empty()
    } else if b[0] == 37u8 && b.len() >= 3 && hex_value(b[1]) >= 0 && hex_value(b[2]) >= 0 {
        seq![(hex_value(b[1]) * 16 + hex_value(b[2])) as u8] + percent_decode(b.skip(3))
    } else {
        seq![b[0]] + percent_decode(b.skip(1))
    }
}

/// The percent-decoded text of `s`; `s` itself when the decoded bytes are not UTF-8.
pub open spec fn spec_decode(s: Seq<char>) -> Seq<char> {
    let d = percent_decode(encode_utf8(s));
    if valid_utf8(d) {
        decode_utf8(d)
    } else {
        s
    }
}

/// The characters up to (excluding) the first `?` or `#`.
pub fn path<'a>(s: &'a str) -> (r: &'a str)
    ensures
        r@ == spec_path(s@),
{
    let v = chars_of(s);
    match find_either(&v, '?', '#') {
        Some(i) => s.substring_char(0, i),
        None => s,
    }
}

/// The file name: the last `/`-separated component of [`path`].
pub fn filename<'a>(s: &'a str) -> (r: &'a str)
    ensures
        r@ == spec_filename(s@),
{
    let p = path(s);
    let v = chars_of(p);
    match rfind_char(&v, '/') {
        Some(j) => {
            let n = v.len();
            p.substring_char(j + 1, n)
        },
        None => p,
    }
}

/// The parent directory of `s` (see [`spec_parent`]).
pub fn parent<'a>(s: &'a str) -> (r: &'a str)
    ensures
        r@ == spec_parent(s@),
{
    let v = chars_of(s);
    match rfind_char(&v, '/') {
        Some(j) => {
            if j == 0 {
                s.substring_char(0, 1)
            } else {
                s.substring_char(0, j)
            }
        },
        None => s.substring_char(0, 0),
    }
}

/// The file extension of `s` (see [`spec_extension`]).
pub fn file_extension<'a>(s: &'a str) -> (r: Option<&'a str>)
    ensures
        match r {
            Some(e) => spec_extension(s@) == Some(e@),
            None => spec_extension(s@) is None,
        },
{
    let f = filename(s);
    let v = chars_of(f);
    match rfind_char(&v, '.') {
        Some(j) => {
            let n = v.len();
            Some(f.substring_char(j + 1, n))
        },
        None => None,
    }
}

/// The fragment of `s` (see [`spec_fragment`]).
pub fn fragment<'a>(s: &'a str) -> (r: Option<&'a str>)
    ensures
        match r {
            Some(e) => spec_fragment(s@) == Some(e@),
            None => spec_fragment(s@) is None,
        },
{
    let v = chars_of(s);
    let found = find_char(&v, '#');
    match found {
        Some(i) => {
            let n = v.len();
            Some(s.substring_char(i + 1, n))
        },
        None => None,
    }
}

/// The query of `s` (see [`spec_query`]).
pub fn query<'a>(s: &'a str) -> (r: Option<&'a str>)
    ensures
        match r {
            Some(e) => spec_query(s@) == Some(e@),
            None => spec_query(s@) is None,
        },
{
    let v = chars_of(s);
    match find_char(&v, '?') {
        Some(i) => {
            let n = v.len();
            let rest = s.substring_char(i + 1, n);
            let w = chars_of(rest);
            match find_char(&w, '#') {
                Some(k) => Some(rest.substring_char(0, k)),
                None => Some(rest),
            }
        },
        None => None,
    }
}

/// `Some(value)` for an ASCII hexadecimal digit.
fn hex_digit(b: u8) -> (r: Option<u8>)
    ensures
        match r {
            Some(d) => hex_value(b) == d as int,
            None => hex_value(b) == -1,
        },
{
    if 48 <= b && b <= 57 {
        Some(b - 48)
    } else if 65 <= b && b <= 70 {
        Some(b - 55)
    } else if 97 <= b && b <= 102 {
        Some(b - 87)
    } else {
        None
    }
}

proof fn lemma_percent_decode_step(b: Seq<u8>, i: int, n: int)
    requires
        0 <= i <= b.len(),
        i + n <= b.len(),
        n >= 1,
        (n == 3 && b[i] == 37u8 && hex_value(b[i + 1]) >= 0 && hex_value(b[i + 2]) >= 0) || (n == 1 && !(
        b[i] == 37u8 && i + 3 <= b.len() && hex_value(b[i + 1]) >= 0 && hex_value(b[i + 2]) >= 0)),
    ensures
        percent_decode(b.skip(i)) == (if n == 3 {
            seq![(hex_value(b[i + 1]) * 16 + hex_value(b[i + 2])) as u8]
        } else {
            seq![b[i]]
        }) + percent_decode(b.skip(i + n)),
{
    let t = b.skip(i);
    assert(t.skip(n) =~= b.skip(i + n));
    assert(t[0] == b[i]);
    if n == 3 {
        assert(t[1] == b[i + 1]);
        assert(t[2] == b[i + 2]);
    } else if t.len() >= 3 {
        assert(t[1] == b[i + 1]);
        assert(t[2] == b[i + 2]);
    }
}

/// Percent-decodes the bytes `b`.
fn percent_decode_bytes(b: &[u8]) -> (r: Vec<u8>)
    ensures
        r@ == percent_decode(b@),
{
    let mut out: Vec<u8> = Vec::new();
    let mut i: usize = 0;
    assert(b@.skip(0) =~= b@);
    while i < b.len()
        invariant
            i <= b@.len(),
            out@ + percent_decode(b@.skip(i as int)) == percent_decode(b@),
        decreases b.len() - i,
    {
        let ghost old_out = out@;
        let ghost old_i = i;
        let mut step: usize = 1;
        if b[i] == 37u8 && b.len() - i > 2 {
            let h = hex_digit(b[i + 1]);
            let l = hex_digit(b[i + 2]);
            match (h, l) {
                (Some(hv), Some(lv)) => {
                    assert(hv < 16 && lv < 16);
                    out.push(hv * 16 + lv);
                    step = 3;
                },
                _ => {
                    out.push(b[i]);
                },
            }
        } else {
            out.push(b[i]);
        }
        proof {
            lemma_percent_decode_step(b@, old_i as int, step as int);
            assert(out@ + percent_decode(b@.skip(old_i + step)) =~= old_out + percent_decode(
                b@.skip(old_i as int),
            ));
        }
        i = i + step;
    }
    assert(b@.skip(i as int).len() == 0);
    assert(out@ + percent_decode(b@.skip(i as int)) =~= out@);
    out
}

/// `String::from_utf8`: the text the bytes encode, if they are valid UTF-8.
#[verifier::external_body]
fn utf8_string(bytes: Vec<u8>) -> (r: Option<String>)
    ensures
        r is Some <==> valid_utf8(bytes@),
        r matches Some(s) ==> s@ == decode_utf8(bytes@),
{
    String::from_utf8(bytes).ok()
}

/// Percent-decodes `s` (see [`spec_decode`]).
pub fn decode(s: &str) -> (r: String)
    ensures
        r@ == spec_decode(s@),
{
    let bytes = s.as_bytes();
    let decoded = percent_decode_bytes(bytes);
    match utf8_string(decoded) {
        Some(text) => text,
        None => s.to_owned(),
    }
}


// ---------------------------------------------------------------------------
// Normalization
// ---------------------------------------------------------------------------

/// The position of the first `/` at or after `k`, or `-1`.
pub open spec fn next_slash(s: Seq<char>, k: int) -> int
    decreases s.len() - k,
{
    if k < 0 || k >= s.len() {
        -1
    } else if s[k] == '/' {
        k
    } else {
        next_slash(s, k + 1)
    }
}

/// The `/`-separated segments of `s` from position `k` on.
pub open spec fn segments_from(s: Seq<char>, k: int) -> Seq<Seq<char>>
    decreases s.len() - k,
{
    if k < 0 || k > s.len() {
        Seq::empty()
    } else {
        let j = next_slash(s, k);
        proof {
            lemma_next_slash(s, k);
        }
        if j < 0 {
            seq![s.subrange(k, s.len() as int)]
        } else {
            seq![s.subrange(k, j)] + segments_from(s, j + 1)
        }
    }
}

/// The `/`-separated segments of `s` (one more than the number of `/`).
pub open spec fn segments(s: Seq<char>) -> Seq<Seq<char>> {
    segments_from(s, 0)
}

/// The segments kept by normalization, in order: empty and `.` segments are dropped and
/// `..` drops the segment kept before it, if any.
pub open spec fn resolve_segments(segs: Seq<Seq<char>>) -> Seq<Seq<char>>
    decreases segs.len(),
{
    if segs.len() == 0 {
        Seq::empty()
    } else {
        let st = resolve_segments(segs.drop_last());
        let x = segs.last();
        if x.len() == 0 || x == seq!['.'] {
            st
        } else if x == seq!['.', '.'] {
            if st.len() > 0 {
                st.drop_last()
            } else {
                st
            }
        } else {
            st.push(x)
        }
    }
}

/// The segments joined by `/`.
pub open spec fn join_segments(segs: Seq<Seq<char>>) -> Seq<char>
    decreases segs.len(),
{
    if segs.len() == 0 {
        Seq::empty()
    } else if segs.len() == 1 {
        segs[0]
    } else {
        join_segments(segs.drop_last()) + seq!['/'] + segs.last()
    }
}

/// `s` with `.` and `..` segments resolved and empty segments dropped; a leading `/`
/// is kept.
pub open spec fn spec_normalize(s: Seq<char>) -> Seq<char> {
    let body = join_segments(resolve_segments(segments(s)));
    if s.len() > 0 && s[0] == '/' {
        seq!['/'] + body
    } else {
        body
    }
}

/// `s` with a leading `/` added when missing.
pub open spec fn spec_into_absolute(s: Seq<char>) -> Seq<char> {
    if s.len() > 0 && s[0] == '/' {
        s
    } else {
        seq!['/'] + s
    }
}

/// `href` resolved against the directory `base`, then normalized.
pub open spec fn spec_resolve(base: Seq<char>, href: Seq<char>) -> Seq<char> {
    spec_normalize(base + seq!['/'] + href)
}

pub proof fn lemma_next_slash(s: Seq<char>, k: int)
    requires
        0 <= k <= s.len(),
    ensures
        next_slash(s, k) == -1 || (k <= next_slash(s, k) < s.len() && s[next_slash(s, k)] == '/'),
        forall|j: int|
            k <= j < s.len() && (next_slash(s, k) < 0 || j < next_slash(s, k)) ==> s[j] != '/',
    decreases s.len() - k,
{
    if k < s.len() && s[k] != '/' {
        lemma_next_slash(s, k + 1);
    }
}

/// Splits `v` at every `/`.
fn split_segments(v: &Vec<char>) -> (r: Vec<Vec<char>>)
    ensures
        r@.len() == segments(v@).len(),
        forall|i: int| 0 <= i < r@.len() ==> (#[trigger] r@[i])@ == segments(v@)[i],
{
    let mut out: Vec<Vec<char>> = Vec::new();
    let mut pos: usize = 0;
    let n = v.len();
    let ghost mut views: Seq<Seq<char>> = Seq::empty();
    loop
        invariant
            n == v@.len(),
            pos <= n,
            out@.len() == views.len(),
            forall|i: int| 0 <= i < out@.len() ==> (#[trigger] out@[i])@ == views[i],
            views + segments_from(v@, pos as int) == segments(v@),
        ensures
            out@.len() == segments(v@).len(),
            forall|i: int| 0 <= i < out@.len() ==> (#[trigger] out@[i])@ == segments(v@)[i],
        decreases n - pos,
    {
        proof {
            lemma_next_slash(v@, pos as int);
        }
        match crate::text::find_char_from(v, '/', pos) {
            Some(j) => {
                let mut seg: Vec<char> = Vec::new();
                let mut k = pos;
                while k < j
                    invariant
                        pos <= k <= j,
                        j < v@.len(),
                        seg@ == v@.subrange(pos as int, k as int),
                    decreases j - k,
                {
                    seg.push(v[k]);
                    k = k + 1;
                    assert(v@.subrange(pos as int, k as int) =~= v@.subrange(pos as int, k - 1).push(v@[k - 1]));
                }
                proof {
                    assert(next_slash(v@, pos as int) == j as int) by {
                        let f = next_slash(v@, pos as int);
                        if f < 0 || f > j {
                        } else if f < j {
                        }
                    }
                    assert(segments_from(v@, pos as int) =~= seq![v@.subrange(pos as int, j as int)]
                        + segments_from(v@, j + 1));
                    assert(views.push(seg@) + segments_from(v@, j + 1) =~= views + segments_from(v@, pos as int));
                    views = views.push(seg@);
                }
                out.push(seg);
                pos = j + 1;
            },
            None => {
                let mut seg: Vec<char> = Vec::new();
                let mut k = pos;
                while k < n
                    invariant
                        pos <= k <= n,
                        n == v@.len(),
                        seg@ == v@.subrange(pos as int, k as int),
                    decreases n - k,
                {
                    seg.push(v[k]);
                    k = k + 1;
                    assert(v@.subrange(pos as int, k as int) =~= v@.subrange(pos as int, k - 1).push(v@[k - 1]));
                }
                proof {
                    assert(next_slash(v@, pos as int) == -1);
                    assert(segments_from(v@, pos as int) =~= seq![v@.subrange(pos as int, n as int)]);
                    assert(views.push(seg@) =~= views + segments_from(v@, pos as int));
                    views = views.push(seg@);
                }
                out.push(seg);
                assert(views == segments(v@));
                return out;
            },
        }
    }
}

fn is_dot(v: &Vec<char>) -> (r: bool)
    ensures
        r == (v@ == seq!['.']),
{
    if v.len() == 1 && v[0] == '.' {
        assert(v@ =~= seq!['.']);
        true
    } else {
        false
    }
}

fn is_dot_dot(v: &Vec<char>) -> (r: bool)
    ensures
        r == (v@ == seq!['.', '.']),
{
    if v.len() == 2 && v[0] == '.' && v[1] == '.' {
        assert(v@ =~= seq!['.', '.']);
        true
    } else {
        false
    }
}

/// Normalizes `s` (see [`spec_normalize`]).
pub fn normalize(s: &str) -> (r: String)
    ensures
        r@ == spec_normalize(s@),
{
    let v = chars_of(s);
    let segs = split_segments(&v);
    let ghost all = segments(v@);
    let mut stack: Vec<Vec<char>> = Vec::new();
    let mut i: usize = 0;
    let mut segs = segs;
    let mut rest: Vec<Vec<char>> = Vec::new();
    std::mem::swap(&mut rest, &mut segs);
    let ghost mut done: int = 0;
    assert(all.take(0) =~= Seq::<Seq<char>>::empty());
    while rest.len() > 0
        invariant
            0 <= done <= all.len(),
            rest@.len() == all.len() - done,
            forall|k: int| 0 <= k < rest@.len() ==> (#[trigger] rest@[k])@ == all[done + k],
            stack@.len() == resolve_segments(all.take(done)).len(),
            forall|k: int| 0 <= k < stack@.len() ==> (#[trigger] stack@[k])@ == resolve_segments(
                all.take(done),
            )[k],
        decreases rest.len(),
    {
        let x = rest.remove(0);
        let ghost st = resolve_segments(all.take(done));
        proof {
            assert(x@ == all[done]);
            assert(all.take(done + 1).drop_last() =~= all.take(done));
            assert(all.take(done + 1).last() == all[done]);
        }
        if x.len() == 0 || is_dot(&x) {
        } else if is_dot_dot(&x) {
            if stack.len() > 0 {
                stack.pop();
            }
        } else {
            stack.push(x);
        }
        proof {
            let next = resolve_segments(all.take(done + 1));
            assert(stack@.len() == next.len());
            assert forall|k: int| 0 <= k < stack@.len() implies (#[trigger] stack@[k])@ == next[k] by {
                if k < st.len() {
                }
            }
            done = done + 1;
        }
    }
    proof {
        assert(all.take(done) =~= all);
    }
    let ghost kept = resolve_segments(all);
    let mut out = String::new();
    if v.len() > 0 && v[0] == '/' {
        crate::text::push_char(&mut out, '/');
    }
    let ghost lead = out@;
    let mut k: usize = 0;
    while k < stack.len()
        invariant
            k <= stack@.len(),
            stack@.len() == kept.len(),
            forall|j: int| 0 <= j < stack@.len() ==> (#[trigger] stack@[j])@ == kept[j],
            out@ == lead + join_segments(kept.take(k as int)),
        decreases stack.len() - k,
    {
        if k > 0 {
            crate::text::push_char(&mut out, '/');
        }
        let seg = &stack[k];
        let mut c: usize = 0;
        let ghost mid = out@;
        while c < seg.len()
            invariant
                c <= seg@.len(),
                out@ == mid + seg@.take(c as int),
            decreases seg.len() - c,
        {
            crate::text::push_char(&mut out, seg[c]);
            c = c + 1;
            assert(seg@.take(c as int) =~= seg@.take(c - 1).push(seg@[c - 1]));
        }
        proof {
            assert(seg@.take(c as int) =~= seg@);
            assert(kept.take(k + 1).drop_last() =~= kept.take(k as int));
            assert(kept.take(k + 1).last() == kept[k as int]);
            if k == 0 {
                assert(kept.take(1) =~= seq![kept[0]]);
            }
        }
        k = k + 1;
    }
    proof {
        assert(kept.take(k as int) =~= kept);
    }
    out
}

/// `s` with a leading `/` added when missing.
pub fn into_absolute(s: &str) -> (r: String)
    ensures
        r@ == spec_into_absolute(s@),
{
    let v = chars_of(s);
    if v.len() > 0 && v[0] == '/' {
        crate::text::to_string(s)
    } else {
        let mut out = String::new();
        crate::text::push_char(&mut out, '/');
        crate::text::push_chars(&mut out, s);
        out
    }
}

/// `href` resolved against the directory `base`, then normalized.
pub fn resolve(base: &str, href: &str) -> (r: String)
    ensures
        r@ == spec_resolve(base@, href@),
{
    let mut joined = crate::text::to_string(base);
    crate::text::push_char(&mut joined, '/');
    crate::text::push_chars(&mut joined, href);
    assert(joined@ =~= base@ + seq!['/'] + href@);
    normalize(joined.as_str())
}


// ---------------------------------------------------------------------------
// Percent-encoding
// ---------------------------------------------------------------------------

/// Characters that a location keeps as they are: ASCII letters and digits, the
/// unreserved and reserved marks, and `%` (of an existing escape).
pub open spec fn uri_keeps(c: char) -> bool {
    ||| ('a' <= c && c <= 'z')
    ||| ('A' <= c && c <= 'Z')
    ||| ('0' <= c && c <= '9')
    ||| c == '-'
    ||| c == '.'
    ||| c == '_'
    ||| c == '~'
    ||| c == '!'
    ||| c == '$'
    ||| c == '&'
    ||| c == '\''
    ||| c == '('
    ||| c == ')'
    ||| c == '*'
    ||| c == '+'
    ||| c == ','
    ||| c == ';'
    ||| c == '='
    ||| c == ':'
    ||| c == '@'
    ||| c == '/'
    ||| c == '?'
    ||| c == '#'
    ||| c == '%'
}

/// The upper-case hexadecimal digit of `n` (below 16).
pub open spec fn upper_hex_digit(n: int) -> char {
    if n == 0 {
        '0'
    } else if n == 1 {
        '1'
    } else if n == 2 {
        '2'
    } else if n == 3 {
        '3'
    } else if n == 4 {
        '4'
    } else if n == 5 {
        '5'
    } else if n == 6 {
        '6'
    } else if n == 7 {
        '7'
    } else if n == 8 {
        '8'
    } else if n == 9 {
        '9'
    } else if n == 10 {
        'A'
    } else if n == 11 {
        'B'
    } else if n == 12 {
        'C'
    } else if n == 13 {
        'D'
    } else if n == 14 {
        'E'
    } else {
        'F'
    }
}

/// The escape `%XY` of a byte.
pub open spec fn pct(b: int) -> Seq<char> {
    seq!['%', upper_hex_digit(b / 16), upper_hex_digit(b % 16)]
}

/// A character as it stands in an encoded location: itself when kept, else the
/// escapes of its UTF-8 bytes.
pub open spec fn encode_char(c: char) -> Seq<char> {
    let u = (c as u32) as int;
    if uri_keeps(c) {
        seq![c]
    } else if u < 0x80 {
        pct(u)
    } else if u < 0x800 {
        pct(0xC0 + u / 64) + pct(0x80 + u % 64)
    } else if u < 0x10000 {
        pct(0xE0 + u / 4096) + pct(0x80 + (u / 64) % 64) + pct(0x80 + u % 64)
    } else {
        pct(0xF0 + u / 262144) + pct(0x80 + (u / 4096) % 64) + pct(0x80 + (u / 64) % 64) + pct(0x80 + u % 64)
    }
}

/// A location with every character it does not keep percent-encoded.
pub open spec fn spec_encode(s: Seq<char>) -> Seq<char>
    decreases s.len(),
{
    if s.len() == 0 {
        Seq::empty()
    } else {
        spec_encode(s.drop_last()) + encode_char(s.last())
    }
}

/// Whether a location holds a character that encoding changes.
pub open spec fn needs_encoding(s: Seq<char>) -> bool {
    exists|i: int| 0 <= i < s.len() && !uri_keeps(#[trigger] s[i])
}

fn hex_char(n: u32) -> (r: char)
    requires
        n < 16,
    ensures
        r == upper_hex_digit(n as int),
{
    if n == 0 {
        '0'
    } else if n == 1 {
        '1'
    } else if n == 2 {
        '2'
    } else if n == 3 {
        '3'
    } else if n == 4 {
        '4'
    } else if n == 5 {
        '5'
    } else if n == 6 {
        '6'
    } else if n == 7 {
        '7'
    } else if n == 8 {
        '8'
    } else if n == 9 {
        '9'
    } else if n == 10 {
        'A'
    } else if n == 11 {
        'B'
    } else if n == 12 {
        'C'
    } else if n == 13 {
        'D'
    } else if n == 14 {
        'E'
    } else {
        'F'
    }
}

fn push_pct(out: &mut String, b: u32)
    requires
        b < 256,
    ensures
        final(out)@ == old(out)@ + pct(b as int),
{
    push_char(out, '%');
    let hi = hex_char(b / 16);
    push_char(out, hi);
    let lo = hex_char(b % 16);
    push_char(out, lo);
    assert(out@ =~= old(out)@ + pct(b as int));
}

fn keeps(c: char) -> (r: bool)
    ensures
        r == uri_keeps(c),
{
    ('a' <= c && c <= 'z') || ('A' <= c && c <= 'Z') || ('0' <= c && c <= '9') || c == '-' || c == '.' || c == '_' || c == '~' || c == '!' || c == '$' || c == '&' || c == '\'' || c == '(' || c == ')' || c == '*' || c == '+' || c == ',' || c == ';' || c == '=' || c == ':' || c == '@' || c == '/' || c == '?' || c == '#' || c == '%'
}

/// Percent-encodes a location (see [`spec_encode`]).
pub fn encode(s: &str) -> (r: String)
    ensures
        r@ == spec_encode(s@),
{
    let v = chars_of(s);
    let mut out = String::new();
    let n = v.len();
    for i in 0..n
        invariant
            n == v@.len(),
            v@ == s@,
            out@ == spec_encode(s@.take(i as int)),
    {
        let c = v[i];
        proof {
            assert(s@.take(i + 1).drop_last() =~= s@.take(i as int));
            assert(s@.take(i + 1).last() == c);
        }
        let ghost before = out@;
        if keeps(c) {
            push_char(&mut out, c);
        } else {
            let u = c as u32;
            proof {
                char_is_scalar(c);
            }
            if u < 0x80 {
                push_pct(&mut out, u);
            } else if u < 0x800 {
                push_pct(&mut out, 0xC0 + u / 64);
                push_pct(&mut out, 0x80 + u % 64);
            } else if u < 0x10000 {
                push_pct(&mut out, 0xE0 + u / 4096);
                push_pct(&mut out, 0x80 + (u / 64) % 64);
                push_pct(&mut out, 0x80 + u % 64);
            } else {
                push_pct(&mut out, 0xF0 + u / 262144);
                push_pct(&mut out, 0x80 + (u / 4096) % 64);
                push_pct(&mut out, 0x80 + (u / 64) % 64);
                push_pct(&mut out, 0x80 + u % 64);
            }
        }
        assert(out@ =~= before + encode_char(c));
    }
    assert(s@.take(n as int) =~= s@);
    out
}

/// Whether encoding changes a location (see [`needs_encoding`]).
pub fn requires_encoding(s: &str) -> (r: bool)
    ensures
        r == needs_encoding(s@),
{
    let v = chars_of(s);
    let n = v.len();
    for i in 0..n
        invariant
            n == v@.len(),
            v@ == s@,
            forall|k: int| 0 <= k < i ==> uri_keeps(#[trigger] s@[k]),
    {
        if !keeps(v[i]) {
            return true;
        }
    }
    false
}

} // verus!
