//! General XML element-related types: hrefs, names, properties and attributes.
use vstd::prelude::*;
use crate::properties::{
    added, distinct_words, join, law_insert_words, law_remove_then_absent, lemma_kept_none,
};
use crate::keyed::{has_key, key_index, Keyed, KeyedVec, select};
use crate::text::{
    chars_of, first_index_of, is_ws, lemma_first_index_of, lemma_first_non_ws, lemma_words_shape,
    no_ws, push_char, str_eq, string_from_range, to_string, trim, trim_bounds, trim_str,
    word_bounds, words,
};
use crate::uri;

verus! {

broadcast use vstd::string::group_string_axioms;

// ---------------------------------------------------------------------------
// Href
// ---------------------------------------------------------------------------

/// The percent-encoded `href` of an element, pointing to a location.
///
/// To retrieve the percent-decoded form, see [`Href::decode`].
#[derive(Copy, Clone, Debug, Hash, PartialEq, Eq)]
pub struct Href<'a>(&'a str);

impl<'a> View for Href<'a> {
    type V = Seq<char>;

    closed spec fn view(&self) -> Seq<char> {
        self.0@
    }
}

impl<'a> Href<'a> {
    /// Wraps an href string.
    pub fn new(href: &'a str) -> (r: Self)
        ensures
            r@ == href@,
    {
        Href(href)
    }

    /// Returns the percent-decoded form.
    pub fn decode(&self) -> (r: String)
        ensures
            r@ == uri::spec_decode(self@),
    {
        uri::decode(self.0)
    }

    /// The parent directory, if present.
    ///
    /// `None` when the href holds no `/`, or when it is its own parent (`/`).
    pub fn parent(&self) -> (r: Option<Self>)
        ensures
            match r {
                Some(p) => p@ == uri::spec_parent(self@) && p@.len() > 0 && p@ != self@,
                None => uri::spec_parent(self@).len() == 0 || uri::spec_parent(self@) == self@,
            },
    {
        let parent = uri::parent(self.0);
        if parent.unicode_len() != 0 && !str_eq(self.0, parent) {
            Some(Href(parent))
        } else {
            None
        }
    }

    /// The file extension, if present (e.g., `css`, `xhtml`).
    pub fn extension(&self) -> (r: Option<&'a str>)
        ensures
            match r {
                Some(e) => uri::spec_extension(self@) == Some(e@),
                None => uri::spec_extension(self@) is None,
            },
    {
        uri::file_extension(self.0)
    }

    /// The href with **only** the query (`?`) and fragment (`#`) omitted.
    pub fn path(&self) -> (r: Self)
        ensures
            r@ == uri::spec_path(self@),
    {
        Href(uri::path(self.0))
    }

    /// The filename of an href.
    pub fn name(&self) -> (r: Self)
        ensures
            r@ == uri::spec_filename(self@),
    {
        Href(uri::filename(self.0))
    }

    /// The content of a fragment (`#`) within an href.
    pub fn fragment(&self) -> (r: Option<&'a str>)
        ensures
            match r {
                Some(e) => uri::spec_fragment(self@) == Some(e@),
                None => uri::spec_fragment(self@) is None,
            },
    {
        uri::fragment(self.0)
    }

    /// The content of a query (`?`) within an href.
    pub fn query(&self) -> (r: Option<&'a str>)
        ensures
            match r {
                Some(e) => uri::spec_query(self@) == Some(e@),
                None => uri::spec_query(self@) is None,
            },
    {
        uri::query(self.0)
    }

    /// The underlying `href` string.
    pub fn as_str(&self) -> (r: &'a str)
        ensures
            r@ == self@,
    {
        self.0
    }
}

// ---------------------------------------------------------------------------
// Properties
// ---------------------------------------------------------------------------

/// `true` when `p` is one of the whitespace-separated properties of `s`.
pub open spec fn has_prop(s: Seq<char>, p: Seq<char>) -> bool {
    words(s).contains(p)
}

/// Removing `ps` from `s` finds at least one of its words among those of `s`.
pub open spec fn removes_any(s: Seq<char>, ps: Seq<char>) -> bool {
    exists|j: int| 0 <= j < words(s).len() && words(ps).contains(#[trigger] words(s)[j])
}

/// The words of `ws` that are not among `ps`, in order.
pub open spec fn kept_words(ws: Seq<Seq<char>>, ps: Seq<Seq<char>>) -> Seq<Seq<char>>
    decreases ws.len(),
{
    if ws.len() == 0 {
        Seq::empty()
    } else if ps.contains(ws.last()) {
        kept_words(ws.drop_last(), ps)
    } else {
        kept_words(ws.drop_last(), ps).push(ws.last())
    }
}

/// Appends property `p` unless present, separated by a single space.
pub open spec fn insert_prop(s: Seq<char>, p: Seq<char>) -> Seq<char> {
    if has_prop(s, p) {
        s
    } else if s.len() == 0 {
        p
    } else {
        s.push(' ') + p
    }
}

/// [`insert_prop`] applied to each of `ps` in order.
pub open spec fn insert_props(s: Seq<char>, ps: Seq<Seq<char>>) -> Seq<char>
    decreases ps.len(),
{
    if ps.len() == 0 {
        s
    } else {
        insert_props(insert_prop(s, ps[0]), ps.drop_first())
    }
}

pub proof fn lemma_insert_props_grows(s: Seq<char>, ps: Seq<Seq<char>>)
    ensures
        insert_props(s, ps).len() >= s.len(),
    decreases ps.len(),
{
    if ps.len() > 0 {
        lemma_insert_props_grows(insert_prop(s, ps[0]), ps.drop_first());
    }
}

/// Whether `w` is one of `ws`.
fn contains_word(ws: &Vec<&str>, w: &str) -> (r: bool)
    ensures
        r == exists|k: int| 0 <= k < ws@.len() && (#[trigger] ws@[k])@ == w@,
{
    let n = ws.len();
    for i in 0..n
        invariant
            n == ws@.len(),
            forall|k: int| 0 <= k < i ==> (#[trigger] ws@[k])@ != w@,
    {
        if str_eq(ws[i], w) {
            return true;
        }
    }
    false
}

/// The words of `s` as slices of `s`.
pub fn words_of<'a>(s: &'a str) -> (r: Vec<&'a str>)
    ensures
        r@.len() == words(s@).len(),
        forall|i: int| 0 <= i < r@.len() ==> (#[trigger] r@[i])@ == words(s@)[i],
{
    let v = chars_of(s);
    let bounds = word_bounds(&v);
    let mut out: Vec<&'a str> = Vec::new();
    let mut i: usize = 0;
    while i < bounds.len()
        invariant
            i <= bounds@.len(),
            v@ == s@,
            bounds@.len() == words(v@).len(),
            forall|k: int|
                0 <= k < bounds@.len() ==> #[trigger] bounds@[k].0 < bounds@[k].1 <= v@.len()
                    && v@.subrange(bounds@[k].0 as int, bounds@[k].1 as int) == words(v@)[k],
            out@.len() == i,
            forall|k: int| 0 <= k < i ==> (#[trigger] out@[k])@ == words(s@)[k],
        decreases bounds.len() - i,
    {
        let (a, b) = bounds[i];
        out.push(s.substring_char(a, b));
        i = i + 1;
    }
    out
}

/// A collection of properties associated with an element,
/// where each property is separated by a single ASCII whitespace.
#[derive(Clone, Debug, Hash, PartialEq, Eq)]
pub struct Properties(String);

impl View for Properties {
    type V = Seq<char>;

    closed spec fn view(&self) -> Seq<char> {
        self.0@
    }
}

impl Properties {
    /// A copy of the properties.
    pub fn duplicate(&self) -> (r: Self)
        ensures
            r@ == self@,
    {
        Properties(self.0.clone())
    }
}

/// An iterator over each property within [`Properties`].
pub struct PropertiesIter<'a> {
    items: Vec<&'a str>,
    pos: usize,
}

impl<'a> PropertiesIter<'a> {
    /// The properties not yet returned.
    pub closed spec fn remaining(&self) -> Seq<Seq<char>> {
        if self.pos <= self.items@.len() {
            self.items@.skip(self.pos as int).map_values(|s: &'a str| s@)
        } else {
            Seq::empty()
        }
    }

    /// Returns the next property.
    pub fn next(&mut self) -> (r: Option<&'a str>)
        ensures
            old(self).remaining().len() == 0 ==> r is None && final(self).remaining() == old(
                self,
            ).remaining(),
            old(self).remaining().len() > 0 ==> (r matches Some(p) && p@ == old(self).remaining()[0]
                && final(self).remaining() == old(self).remaining().drop_first()),
    {
        if self.pos < self.items.len() {
            let p = self.items[self.pos];
            self.pos = self.pos + 1;
            assert(self.items@.skip(self.pos as int) =~= old(self).items@.skip(
                old(self).pos as int,
            ).drop_first());
            assert(self.remaining() =~= old(self).remaining().drop_first());
            assert(p@ == old(self).remaining()[0]);
            Some(p)
        } else {
            None
        }
    }
}

impl Properties {
    /// Wraps raw property text.
    pub fn from_string(value: String) -> (r: Self)
        ensures
            r@ == value@,
    {
        Properties(value)
    }

    /// An empty property list.
    pub fn empty() -> (r: Self)
        ensures
            r@.len() == 0,
    {
        Properties(String::new())
    }

    /// The number of property entries contained within.
    pub fn len(&self) -> (r: usize)
        ensures
            r == words(self@).len(),
    {
        let v = chars_of(self.0.as_str());
        word_bounds(&v).len()
    }

    /// Returns `true` if there are no properties.
    pub fn is_empty(&self) -> (r: bool)
        ensures
            r == (trim(self@).len() == 0),
    {
        self.as_str().unicode_len() == 0
    }

    /// Returns the associated property if the given `index` is less than
    /// [`Self::len`], otherwise [`None`].
    pub fn get(&self, index: usize) -> (r: Option<&str>)
        ensures
            match r {
                Some(p) => index < words(self@).len() && p@ == words(self@)[index as int],
                None => index >= words(self@).len(),
            },
    {
        let w = words_of(self.0.as_str());
        if index < w.len() {
            Some(w[index])
        } else {
            None
        }
    }

    /// Returns an iterator over **all** properties.
    pub fn iter(&self) -> (r: PropertiesIter<'_>)
        ensures
            r.remaining() == words(self@),
    {
        let w = words_of(self.0.as_str());
        let r = PropertiesIter { items: w, pos: 0 };
        assert(r.remaining() =~= words(self@));
        r
    }

    /// Returns `true` if the given property is present.
    pub fn has_property(&self, property: &str) -> (r: bool)
        ensures
            r == has_prop(self@, property@),
    {
        let w = words_of(self.0.as_str());
        let mut i: usize = 0;
        while i < w.len()
            invariant
                i <= w@.len(),
                w@.len() == words(self@).len(),
                forall|k: int| 0 <= k < w@.len() ==> (#[trigger] w@[k])@ == words(self@)[k],
                forall|k: int| 0 <= k < i ==> words(self@)[k] != property@,
            decreases w.len() - i,
        {
            if str_eq(w[i], property) {
                assert(words(self@)[i as int] == property@);
                return true;
            }
            i = i + 1;
        }
        false
    }

    /// The underlying raw text, untrimmed.
    pub fn as_raw(&self) -> (r: &str)
        ensures
            r@ == self@,
    {
        self.0.as_str()
    }

    /// The underlying raw properties, trimmed.
    pub fn as_str(&self) -> (r: &str)
        ensures
            r@ == trim(self@),
    {
        trim_str(self.0.as_str())
    }

    /// Returns [`Some`] if populated, otherwise [`None`].
    pub fn as_option_str(&self) -> (r: Option<&str>)
        ensures
            match r {
                Some(s) => self@.len() > 0 && s@ == self@,
                None => self@.len() == 0,
            },
    {
        if self.0.as_str().unicode_len() != 0 {
            Some(self.0.as_str())
        } else {
            None
        }
    }

    /// Inserts one or more properties, returning `true` if at least one new property was added.
    ///
    /// The given input is split by whitespace and each property is inserted individually.
    pub fn insert(&mut self, properties: &str) -> (r: bool)
        ensures
            final(self)@ == insert_props(old(self)@, words(properties@)),
            r == (final(self)@ != old(self)@),
            r == (exists|q: Seq<char>| #[trigger] words(properties@).contains(q) && !has_prop(old(self)@, q)),
            words(final(self)@) == added(words(old(self)@), words(properties@)),
            forall|q: Seq<char>| #[trigger] words(properties@).contains(q) ==> has_prop(final(self)@, q),
            distinct_words(words(old(self)@)) ==> distinct_words(words(final(self)@)),
    {
        proof {
            law_insert_words(self@, properties@);
            crate::laws::law_insert_then_has(self@, properties@);
            crate::laws::law_insert_reports_new(self@, properties@);
        }
        let tokens = words_of(properties);
        let ghost toks = words(properties@);
        let mut any_inserted = false;
        let mut i: usize = 0;
        assert(toks.skip(0) =~= toks);
        while i < tokens.len()
            invariant
                i <= tokens@.len(),
                tokens@.len() == toks.len(),
                toks == words(properties@),
                forall|k: int| 0 <= k < tokens@.len() ==> (#[trigger] tokens@[k])@ == toks[k],
                insert_props(self@, toks.skip(i as int)) == insert_props(old(self)@, toks),
                any_inserted ==> self@.len() > old(self)@.len(),
                !any_inserted ==> self@ == old(self)@,
            decreases tokens.len() - i,
        {
            let property = tokens[i];
            proof {
                lemma_words_shape(properties@);
                assert(toks.skip(i as int).drop_first() =~= toks.skip(i + 1));
                assert(toks.skip(i as int)[0] == toks[i as int]);
            }
            if !self.has_property(property) {
                any_inserted = true;
                if self.0.as_str().unicode_len() != 0 {
                    push_char(&mut self.0, ' ');
                }
                crate::text::push_chars(&mut self.0, property);
                proof {
                    assert(toks[i as int].len() > 0);
                }
            }
            i = i + 1;
        }
        proof {
            assert(toks.skip(i as int) =~= Seq::<Seq<char>>::empty());
        }
        any_inserted
    }

    /// Removes one or more properties, returning `true` if at least one property was removed.
    ///
    /// The given input is split by whitespace and each property is removed individually,
    /// together with one adjacent space.
    pub fn remove(&mut self, properties: &str) -> (r: bool)
        ensures
            r == removes_any(old(self)@, properties@),
            final(self)@ == if r {
                join(kept_words(words(old(self)@), words(properties@)))
            } else {
                old(self)@
            },
            words(final(self)@) == kept_words(words(old(self)@), words(properties@)),
            forall|q: Seq<char>| #[trigger] words(properties@).contains(q) ==> !has_prop(final(self)@, q),
    {
        proof {
            law_remove_then_absent(self@, properties@);
            if !removes_any(self@, properties@) {
                lemma_kept_none(words(self@), words(properties@));
            }
        }
        let ghost toks = words(properties@);
        let ghost ws = words(self.0@);
        let tokens = words_of(properties);
        let current = words_of(self.0.as_str());
        let mut out = String::new();
        let mut none_kept = true;
        let mut any_removed = false;
        let n = current.len();
        for i in 0..n
            invariant
                n == current@.len(),
                n == ws.len(),
                ws == words(old(self)@),
                toks == words(properties@),
                forall|k: int| 0 <= k < n ==> (#[trigger] current@[k])@ == ws[k],
                tokens@.len() == toks.len(),
                tokens@.len() == toks.len(),
                forall|k: int| 0 <= k < tokens@.len() ==> (#[trigger] tokens@[k])@ == toks[k],
                out@ == join(kept_words(ws.take(i as int), toks)),
                none_kept == (kept_words(ws.take(i as int), toks).len() == 0),
                any_removed == exists|j: int| 0 <= j < i && toks.contains(#[trigger] ws[j]),
        {
            let w = current[i];
            let ghost wv = ws[i as int];
            proof {
                assert(ws.take(i + 1).drop_last() =~= ws.take(i as int));
                assert(ws.take(i + 1).last() == wv);
            }
            let found = contains_word(&tokens, w);
            proof {
                if found {
                    let k = choose|k: int| 0 <= k < tokens@.len() && (#[trigger] tokens@[k])@ == w@;
                    assert(toks[k] == wv);
                } else if toks.contains(wv) {
                    let k = choose|k: int| 0 <= k < toks.len() && toks[k] == wv;
                    assert(tokens@[k]@ == wv);
                }
            }
            if found {
                any_removed = true;
            } else {
                proof {
                    let before = kept_words(ws.take(i as int), toks);
                    assert(before.push(wv).drop_last() =~= before);
                }
                if !none_kept {
                    push_char(&mut out, ' ');
                }
                crate::text::push_chars(&mut out, w);
                none_kept = false;
                proof {
                    let before = kept_words(ws.take(i as int), toks);
                    if before.len() == 0 {
                        assert(out@ =~= join(before.push(wv)));
                    } else {
                        assert(out@ =~= join(before.push(wv)));
                    }
                }
            }
            proof {
                if exists|j: int| 0 <= j < i + 1 && toks.contains(#[trigger] ws[j]) {
                    let j = choose|j: int| 0 <= j < i + 1 && toks.contains(#[trigger] ws[j]);
                    if j < i {
                        assert(exists|j2: int| 0 <= j2 < i && toks.contains(#[trigger] ws[j2]));
                    }
                }
            }
        }
        proof {
            assert(ws.take(n as int) =~= ws);
        }
        if any_removed {
            self.0 = out;
        }
        any_removed
    }

    /// Removes all properties.
    pub fn clear(&mut self)
        ensures
            final(self)@.len() == 0,
    {
        self.0 = String::new();
    }
}

// ---------------------------------------------------------------------------
// Attribute / Attributes
// ---------------------------------------------------------------------------

/// An attribute, containing details about an element.
///
/// The attribute name and value are trimmed of leading and trailing whitespace on creation.
#[derive(Clone, Debug, PartialEq)]
pub struct Attribute {
    name: String,
    value: Properties,
}

impl<'a, 'b> From<(&'a str, &'b str)> for Attribute {
    /// An attribute from a `(name, value)` pair, trimming both.
    fn from(pair: (&'a str, &'b str)) -> (r: Self)
        ensures
            r.spec_name() == trim(pair.0@),
            r.spec_value() == trim(pair.1@),
    {
        Attribute::create(pair.0, pair.1)
    }
}

impl<'a, 'b> vstd::std_specs::convert::FromSpecImpl<(&'a str, &'b str)> for Attribute {
    open spec fn obeys_from_spec() -> bool {
        false
    }

    open spec fn from_spec(pair: (&'a str, &'b str)) -> Self {
        choose|r: Attribute| r.spec_name() == trim(pair.0@) && r.spec_value() == trim(pair.1@)
    }
}

impl Attribute {
    /// The attribute name.
    pub closed spec fn spec_name(&self) -> Seq<char> {
        self.name@
    }

    /// The raw attribute value.
    pub closed spec fn spec_value(&self) -> Seq<char> {
        self.value@
    }

    /// Creates an attribute, trimming both the name and the value.
    pub fn create(name: &str, value: &str) -> (r: Self)
        ensures
            r.spec_name() == trim(name@),
            r.spec_value() == trim(value@),
    {
        Attribute { name: to_string(trim_str(name)), value: Properties(to_string(trim_str(value))) }
    }

    /// A copy of the attribute.
    pub fn duplicate(&self) -> (r: Self)
        ensures
            r.spec_name() == self.spec_name(),
            r.spec_value() == self.spec_value(),
    {
        Attribute { name: self.name.clone(), value: Properties(self.value.0.clone()) }
    }

    /// Creates a new attribute with the given name and value, trimming both.
    pub fn new(name: &str, value: &str) -> (r: Self)
        ensures
            r.spec_name() == trim(name@),
            r.spec_value() == trim(value@),
    {
        Self::create(name, value)
    }

    /// The attribute name/key.
    pub fn name(&self) -> (r: Name<'_>)
        ensures
            r@ == self.spec_name(),
    {
        Name(self.name.as_str())
    }

    /// The attribute value (trimmed).
    pub fn value(&self) -> (r: &str)
        ensures
            r@ == trim(self.spec_value()),
    {
        self.value.as_str()
    }

    /// The attribute value in the form of [`Properties`].
    pub fn as_properties(&self) -> (r: &Properties)
        ensures
            r@ == self.spec_value(),
    {
        &self.value
    }

    /// Sets the attribute value (trimmed) and returns the previous value.
    pub fn set_value(&mut self, value: &str) -> (r: String)
        ensures
            r@ == old(self).spec_value(),
            final(self).spec_value() == trim(value@),
            final(self).spec_name() == old(self).spec_name(),
    {
        let v = to_string(trim_str(value));
        crate::keyed::replace(&mut self.value.0, v)
    }

    /// The attribute value in the form of mutable [`Properties`].
    pub fn as_properties_mut(&mut self) -> (r: &mut Properties)
        ensures
            r@ == old(self).spec_value(),
            final(self).spec_value() == final(r)@,
            final(self).spec_name() == old(self).spec_name(),
    {
        &mut self.value
    }
}

impl Keyed for Attribute {
    closed spec fn spec_key(&self) -> Seq<char> {
        self.name@
    }

    fn key(&self) -> (r: &str) {
        self.name.as_str()
    }
}

/// The key of an attribute is its name.
pub broadcast proof fn lemma_attribute_key(a: Attribute)
    ensures
        #[trigger] a.spec_key() == a.spec_name(),
{
}

/// Inserts `a` into `s`, replacing the attribute of the same name in place.
pub open spec fn insert_keyed<T: Keyed>(s: Seq<T>, a: T) -> Seq<T> {
    let i = key_index(s, a.spec_key());
    if i >= 0 {
        s.update(i, a)
    } else {
        s.push(a)
    }
}

/// [`insert_keyed`] for each of `xs` in order.
pub open spec fn insert_all_keyed<T: Keyed>(s: Seq<T>, xs: Seq<T>) -> Seq<T>
    decreases xs.len(),
{
    if xs.len() == 0 {
        s
    } else {
        insert_all_keyed(insert_keyed(s, xs[0]), xs.drop_first())
    }
}

/// A collection of [`Attribute`] entries associated with an element.
#[derive(Clone, Debug, PartialEq)]
pub struct Attributes(KeyedVec<Attribute>);

/// An iterator over all [`Attribute`] entries within [`Attributes`].
pub struct AttributesIter<'a> {
    items: &'a Vec<Attribute>,
    pos: usize,
}

impl<'a> AttributesIter<'a> {
    /// The attributes not yet returned.
    pub closed spec fn remaining(&self) -> Seq<Attribute> {
        if self.pos <= self.items@.len() {
            self.items@.skip(self.pos as int)
        } else {
            Seq::empty()
        }
    }

    /// Returns the next attribute.
    pub fn next(&mut self) -> (r: Option<&'a Attribute>)
        ensures
            old(self).remaining().len() == 0 ==> r is None && final(self).remaining() == old(
                self,
            ).remaining(),
            old(self).remaining().len() > 0 ==> (r matches Some(a) && *a == old(self).remaining()[0]
                && final(self).remaining() == old(self).remaining().drop_first()),
    {
        if self.pos < self.items.len() {
            let a = &self.items[self.pos];
            self.pos = self.pos + 1;
            assert(self.remaining() =~= old(self).remaining().drop_first());
            Some(a)
        } else {
            None
        }
    }
}

impl View for Attributes {
    type V = Seq<Attribute>;

    closed spec fn view(&self) -> Seq<Attribute> {
        self.0.items()
    }
}

/// The attributes have the same names and values, in the same order.
pub open spec fn same_attributes(a: Seq<Attribute>, b: Seq<Attribute>) -> bool {
    &&& a.len() == b.len()
    &&& forall|i: int|
        0 <= i < a.len() ==> (#[trigger] a[i]).spec_name() == b[i].spec_name() && a[i].spec_value()
            == b[i].spec_value()
}

impl Attributes {
    /// A copy of the attributes.
    pub fn duplicate(&self) -> (r: Self)
        ensures
            same_attributes(r@, self@),
    {
        let items = &self.0.0;
        let n = items.len();
        let mut out: Vec<Attribute> = Vec::new();
        for i in 0..n
            invariant
                n == items@.len(),
                items@ == self@,
                out@.len() == i,
                forall|k: int|
                    0 <= k < i ==> (#[trigger] out@[k]).spec_name() == items@[k].spec_name()
                        && out@[k].spec_value() == items@[k].spec_value(),
        {
            out.push(items[i].duplicate());
        }
        Attributes(KeyedVec(out))
    }

    /// An empty attribute list.
    pub fn empty() -> (r: Self)
        ensures
            r@.len() == 0,
    {
        Attributes(KeyedVec(Vec::new()))
    }

    /// Wraps a list of attributes.
    pub fn from_vec(v: Vec<Attribute>) -> (r: Self)
        ensures
            r@ == v@,
    {
        Attributes(KeyedVec(v))
    }

    /// The number of [`Attribute`] entries contained within.
    pub fn len(&self) -> (r: usize)
        ensures
            r == self@.len(),
    {
        self.0.len()
    }

    /// Returns `true` if there are no attributes.
    pub fn is_empty(&self) -> (r: bool)
        ensures
            r == (self@.len() == 0),
    {
        self.0.is_empty()
    }

    /// Returns the attribute at `index`, if `index < len`.
    pub fn get(&self, index: usize) -> (r: Option<&Attribute>)
        ensures
            match r {
                Some(a) => index < self@.len() && *a == self@[index as int],
                None => index >= self@.len(),
            },
    {
        self.0.get(index)
    }

    /// Returns an iterator over **all** attributes.
    pub fn iter(&self) -> (r: AttributesIter<'_>)
        ensures
            r.remaining() == self@,
    {
        let r = AttributesIter { items: &self.0.0, pos: 0 };
        assert(r.remaining() =~= self@);
        r
    }

    /// Returns the attribute with the given `name` if present.
    pub fn by_name(&self, name: &str) -> (r: Option<&Attribute>)
        ensures
            match r {
                Some(a) => key_index(self@, name@) >= 0 && *a == self@[key_index(self@, name@)],
                None => key_index(self@, name@) == -1,
            },
    {
        self.0.by_key(name)
    }

    /// Returns the (trimmed) value of the attribute with the given `name` if present.
    pub fn get_value(&self, name: &str) -> (r: Option<&str>)
        ensures
            match r {
                Some(v) => key_index(self@, name@) >= 0 && v@ == trim(
                    self@[key_index(self@, name@)].spec_value(),
                ),
                None => key_index(self@, name@) == -1,
            },
    {
        match self.0.by_key(name) {
            Some(a) => Some(a.value()),
            None => None,
        }
    }

    /// Returns `true` if an attribute with the given `name` is present.
    pub fn has_name(&self, name: &str) -> (r: bool)
        ensures
            r == has_key(self@, name@),
    {
        self.0.has_key(name)
    }

    /// Inserts the given attribute and returns the previous attribute with the same name, if any.
    pub fn insert(&mut self, attribute: Attribute) -> (r: Option<Attribute>)
        ensures
            final(self)@ == insert_keyed(old(self)@, attribute),
            ({
                let i = key_index(old(self)@, attribute.spec_key());
                if i >= 0 {
                    r == Some(old(self)@[i])
                } else {
                    r is None
                }
            }),
    {
        self.0.insert(attribute)
    }

    /// Inserts each attribute in order.
    pub fn extend(&mut self, attributes: Vec<Attribute>)
        ensures
            final(self)@ == insert_all_keyed(old(self)@, attributes@),
    {
        let mut rest = attributes;
        let ghost all = rest@;
        assert(all.skip(0) =~= all);
        let ghost mut done: int = 0;
        while rest.len() > 0
            invariant
                0 <= done <= all.len(),
                rest@ == all.skip(done),
                insert_all_keyed(self@, rest@) == insert_all_keyed(old(self)@, all),
            decreases rest.len(),
        {
            let a = rest.remove(0);
            proof {
                assert(all.skip(done + 1) =~= all.skip(done).drop_first());
                done = done + 1;
            }
            self.insert(a);
        }
    }

    /// The attribute at `index`, for modification, if `index < len` (one at a time, in
    /// place of a mutable iterator).
    pub fn get_mut(&mut self, index: usize) -> (r: Option<&mut Attribute>)
        ensures
            match r {
                Some(a) => {
                    &&& index < old(self)@.len()
                    &&& *a == old(self)@[index as int]
                    &&& final(self)@ == old(self)@.update(index as int, *final(a))
                },
                None => index >= old(self)@.len() && final(self)@ == old(self)@,
            },
    {
        self.0.get_mut(index)
    }

    /// Returns the mutable attribute with the given `name` if present.
    pub fn by_name_mut(&mut self, name: &str) -> (r: Option<&mut Attribute>)
        ensures
            match r {
                Some(a) => {
                    let i = key_index(old(self)@, name@);
                    &&& i >= 0
                    &&& *a == old(self)@[i]
                    &&& final(self)@ == old(self)@.update(i, *final(a))
                },
                None => key_index(old(self)@, name@) == -1 && final(self)@ == old(self)@,
            },
    {
        self.0.by_key_mut(name)
    }

    /// Removes and returns the attribute with the given name, if present.
    pub fn remove(&mut self, name: &str) -> (r: Option<Attribute>)
        ensures
            ({
                let i = key_index(old(self)@, name@);
                if i >= 0 {
                    &&& r == Some(old(self)@[i])
                    &&& final(self)@ == old(self)@.remove(i)
                } else {
                    &&& r is None
                    &&& final(self)@ == old(self)@
                }
            }),
    {
        self.0.remove(name)
    }

    /// Keeps only the attributes for which the predicate answers `false` (those for which it answers `true` are removed).
    pub fn retain<F: Fn(&Attribute) -> bool>(&mut self, f: F)
        requires
            forall|x: &Attribute| #[trigger] f.requires((x,)),
        ensures
            exists|d: Seq<bool>|
                #![trigger select(old(self)@, d, false)]
                d.len() == old(self)@.len() && (forall|i: int|
                    0 <= i < d.len() ==> f.ensures((&old(self)@[i],), #[trigger] d[i]))
                    && final(self)@ == select(old(self)@, d, false),
    {
        let ghost before = self.0.items();
        self.0.retain(f);
        proof {
            let d = choose|d: Seq<bool>|
                #![trigger select(before, d, false)]
                d.len() == before.len() && (forall|i: int|
                    0 <= i < d.len() ==> f.ensures((&before[i],), #[trigger] d[i]))
                    && self.0.items() == select(before, d, false);
            assert(select(old(self)@, d, false) == self@);
        }
    }

    /// Removes and returns only the attributes for which the predicate answers `true`.
    pub fn extract_if<F: Fn(&Attribute) -> bool>(&mut self, f: F) -> (r: Vec<Attribute>)
        requires
            forall|x: &Attribute| #[trigger] f.requires((x,)),
        ensures
            exists|d: Seq<bool>|
                #![trigger select(old(self)@, d, true)]
                d.len() == old(self)@.len() && (forall|i: int|
                    0 <= i < d.len() ==> f.ensures((&old(self)@[i],), #[trigger] d[i]))
                    && final(self)@ == select(old(self)@, d, false) && r@ == select(
                    old(self)@,
                    d,
                    true,
                ),
    {
        let ghost before = self.0.items();
        let r = self.0.extract_if(f);
        proof {
            let d = choose|d: Seq<bool>|
                #![trigger select(before, d, true)]
                d.len() == before.len() && (forall|i: int|
                    0 <= i < d.len() ==> f.ensures((&before[i],), #[trigger] d[i]))
                    && self.0.items() == select(before, d, false) && r@ == select(before, d, true);
            assert(select(old(self)@, d, true) == r@);
        }
        r
    }

    /// Removes and returns all attributes.
    pub fn drain(&mut self) -> (r: Vec<Attribute>)
        ensures
            r@ == old(self)@,
            final(self)@.len() == 0,
    {
        self.0.drain()
    }

    /// Removes all attributes.
    pub fn clear(&mut self)
        ensures
            final(self)@.len() == 0,
    {
        self.0.clear()
    }
}

// ---------------------------------------------------------------------------
// Name
// ---------------------------------------------------------------------------

/// The prefix of a name: the text before the first `:`, if any.
pub open spec fn spec_prefix(s: Seq<char>) -> Option<Seq<char>> {
    let i = first_index_of(s, ':');
    if i < 0 {
        None
    } else {
        Some(s.take(i))
    }
}

/// A name without its prefix: the text after the first `:`, or the whole name.
pub open spec fn spec_local(s: Seq<char>) -> Seq<char> {
    let i = first_index_of(s, ':');
    if i < 0 {
        s
    } else {
        s.skip(i + 1)
    }
}

/// The name of an element or [`Attribute`].
#[derive(Copy, Clone, Debug, Hash, PartialEq, Eq)]
pub struct Name<'a>(&'a str);

impl<'a> View for Name<'a> {
    type V = Seq<char>;

    closed spec fn view(&self) -> Seq<char> {
        self.0@
    }
}

impl<'a> Name<'a> {
    /// Wraps a name string.
    pub fn new(name: &'a str) -> (r: Self)
        ensures
            r@ == name@,
    {
        Name(name)
    }

    /// The prefix of a name (e.g., `dcterms` for `dcterms:modified`).
    pub fn prefix(&self) -> (r: Option<&'a str>)
        ensures
            match r {
                Some(p) => spec_prefix(self@) == Some(p@),
                None => spec_prefix(self@) is None,
            },
    {
        let v = chars_of(self.0);
        match crate::text::find_char(&v, ':') {
            Some(i) => Some(self.0.substring_char(0, i)),
            None => None,
        }
    }

    /// The name with its prefix stripped (e.g., `modified` for `dcterms:modified`).
    pub fn local(&self) -> (r: &'a str)
        ensures
            r@ == spec_local(self@),
    {
        let v = chars_of(self.0);
        let n = v.len();
        match crate::text::find_char(&v, ':') {
            Some(i) => self.0.substring_char(i + 1, n),
            None => self.0,
        }
    }

    /// The raw name with its prefix intact (e.g., `dcterms:modified`).
    pub fn as_str(&self) -> (r: &'a str)
        ensures
            r@ == self@,
    {
        self.0
    }
}

// ---------------------------------------------------------------------------
// TextDirection
// ---------------------------------------------------------------------------

/// A hint for text directionality: left-to-right (`ltr`), right-to-left (`rtl`),
/// or automatic (`auto`, the default).
#[derive(Copy, Clone, Debug, Hash, PartialEq, Eq, Structural)]
pub enum TextDirection {
    /// Process textual content from left-to-right (`ltr`).
    LeftToRight,
    /// Process textual content from right-to-left (`rtl`).
    RightToLeft,
    /// No text directionality specified (`auto`).
    Auto,
}

impl Default for TextDirection {
    fn default() -> (r: Self)
        ensures
            r == TextDirection::Auto,
    {
        TextDirection::Auto
    }
}

/// The string form of a text direction.
pub open spec fn spec_direction_str(d: TextDirection) -> Seq<char> {
    match d {
        TextDirection::LeftToRight => seq!['l', 't', 'r'],
        TextDirection::RightToLeft => seq!['r', 't', 'l'],
        TextDirection::Auto => seq!['a', 'u', 't', 'o'],
    }
}

/// The text direction a string names: `ltr`, `rtl`, anything else is `auto`.
pub open spec fn spec_direction_of(s: Seq<char>) -> TextDirection {
    if s == seq!['l', 't', 'r'] {
        TextDirection::LeftToRight
    } else if s == seq!['r', 't', 'l'] {
        TextDirection::RightToLeft
    } else {
        TextDirection::Auto
    }
}

impl TextDirection {
    /// Returns `true` if the text direction is [`TextDirection::LeftToRight`].
    pub fn is_ltr(self) -> (r: bool)
        ensures
            r == (self == TextDirection::LeftToRight),
    {
        matches!(self, TextDirection::LeftToRight)
    }

    /// Returns `true` if the text direction is [`TextDirection::RightToLeft`].
    pub fn is_rtl(self) -> (r: bool)
        ensures
            r == (self == TextDirection::RightToLeft),
    {
        matches!(self, TextDirection::RightToLeft)
    }

    /// Returns `true` if the text direction is [`TextDirection::Auto`].
    pub fn is_auto(self) -> (r: bool)
        ensures
            r == (self == TextDirection::Auto),
    {
        matches!(self, TextDirection::Auto)
    }

    /// The string representation: `ltr`, `rtl` or `auto`.
    pub fn as_str(&self) -> (r: &'static str)
        ensures
            r@ == spec_direction_str(*self),
    {
        proof {
            reveal_strlit("ltr");
            reveal_strlit("rtl");
            reveal_strlit("auto");
        }
        match self {
            TextDirection::LeftToRight => "ltr",
            TextDirection::RightToLeft => "rtl",
            TextDirection::Auto => "auto",
        }
    }

    /// The direction named by `value`: `ltr`, `rtl`, otherwise `auto`.
    pub fn from_value(value: &str) -> (r: Self)
        ensures
            r == spec_direction_of(value@),
    {
        proof {
            reveal_strlit("ltr");
            reveal_strlit("rtl");
            assert("ltr"@ =~= seq!['l', 't', 'r']);
            assert("rtl"@ =~= seq!['r', 't', 'l']);
        }
        if str_eq(value, "ltr") {
            TextDirection::LeftToRight
        } else if str_eq(value, "rtl") {
            TextDirection::RightToLeft
        } else {
            TextDirection::Auto
        }
    }
}

} // verus!
