//! Options for opening a publication and for reading it in spine order.
use vstd::prelude::*;
use crate::metadata::{EpubVersion, Version};

verus! {

/// What the parser does when opening a publication.
#[derive(Copy, Clone, Debug)]
pub struct EpubParseConfig {
    /// The table of contents version preferred when both are present.
    pub preferred_toc: EpubVersion,
    /// Keep every variant of a table of contents instead of the preferred one only.
    pub retain_variants: bool,
    /// Refuse malformed input instead of recovering from it.
    pub strict: bool,
    pub parse_metadata: bool,
    pub parse_manifest: bool,
    pub parse_spine: bool,
    pub parse_toc: bool,
}

impl Default for EpubParseConfig {
    /// EPUB 3 tables of contents preferred, no variants kept, lenient, every part parsed.
    fn default() -> (r: Self)
        ensures
            r.preferred_toc == EpubVersion::Epub3(Version(3, 0)),
            !r.retain_variants,
            !r.strict,
            r.parse_metadata && r.parse_manifest && r.parse_spine && r.parse_toc,
    {
        EpubParseConfig {
            preferred_toc: EpubVersion::epub3(),
            retain_variants: false,
            strict: false,
            parse_metadata: true,
            parse_manifest: true,
            parse_spine: true,
            parse_toc: true,
        }
    }
}

/// A builder of the options for opening a publication.
#[derive(Copy, Clone, Debug)]
pub struct EpubOpenOptions(pub EpubParseConfig);

impl EpubOpenOptions {
    /// The default options.
    pub fn new() -> (r: Self)
        ensures
            r.0.preferred_toc == EpubVersion::Epub3(Version(3, 0)),
            !r.0.retain_variants,
            !r.0.strict,
            r.0.parse_metadata && r.0.parse_manifest && r.0.parse_spine && r.0.parse_toc,
    {
        EpubOpenOptions(EpubParseConfig::default())
    }

    /// The preferred table of contents version (reduced to its major version).
    pub fn preferred_toc(&mut self, version: EpubVersion) -> (r: &mut Self)
        ensures
            *r == EpubOpenOptions(
                EpubParseConfig {
                    preferred_toc: match version {
                        EpubVersion::Epub2(_) => EpubVersion::Epub2(Version(2, 0)),
                        EpubVersion::Epub3(_) => EpubVersion::Epub3(Version(3, 0)),
                        EpubVersion::Unknown(v) => EpubVersion::Unknown(Version(v.0, 0)),
                    },
                    ..old(self).0
                },
            ),
            *final(self) == *final(r),
    {
        self.0.preferred_toc = version.as_major();
        self
    }

    /// Whether every table of contents variant is kept.
    pub fn retain_variants(&mut self, retain: bool) -> (r: &mut Self)
        ensures
            *r == EpubOpenOptions(EpubParseConfig { retain_variants: retain, ..old(self).0 }),
            *final(self) == *final(r),
    {
        self.0.retain_variants = retain;
        self
    }

    /// Whether malformed input is refused.
    pub fn strict(&mut self, strict: bool) -> (r: &mut Self)
        ensures
            *r == EpubOpenOptions(EpubParseConfig { strict: strict, ..old(self).0 }),
            *final(self) == *final(r),
    {
        self.0.strict = strict;
        self
    }

    /// Whether the metadata is skipped.
    pub fn skip_metadata(&mut self, skip: bool) -> (r: &mut Self)
        ensures
            *r == EpubOpenOptions(EpubParseConfig { parse_metadata: !skip, ..old(self).0 }),
            *final(self) == *final(r),
    {
        self.0.parse_metadata = !skip;
        self
    }

    /// Whether the manifest is skipped.
    pub fn skip_manifest(&mut self, skip: bool) -> (r: &mut Self)
        ensures
            *r == EpubOpenOptions(EpubParseConfig { parse_manifest: !skip, ..old(self).0 }),
            *final(self) == *final(r),
    {
        self.0.parse_manifest = !skip;
        self
    }

    /// Whether the spine is skipped.
    pub fn skip_spine(&mut self, skip: bool) -> (r: &mut Self)
        ensures
            *r == EpubOpenOptions(EpubParseConfig { parse_spine: !skip, ..old(self).0 }),
            *final(self) == *final(r),
    {
        self.0.parse_spine = !skip;
        self
    }

    /// Whether the tables of contents are skipped.
    pub fn skip_toc(&mut self, skip: bool) -> (r: &mut Self)
        ensures
            *r == EpubOpenOptions(EpubParseConfig { parse_toc: !skip, ..old(self).0 }),
            *final(self) == *final(r),
    {
        self.0.parse_toc = !skip;
        self
    }
}

/// Which spine entries a reader visits, and in what order.
#[derive(Copy, Clone, Debug, Hash, PartialEq, Eq, Structural)]
pub enum LinearBehavior {
    /// Every entry, in spine order.
    Original,
    /// Linear entries only.
    LinearOnly,
    /// Non-linear entries only.
    NonLinearOnly,
    /// Non-linear entries first, then linear ones, each in spine order.
    PrependNonLinear,
    /// Linear entries first, then non-linear ones, each in spine order.
    AppendNonLinear,
}

impl Default for LinearBehavior {
    fn default() -> (r: Self)
        ensures
            r == LinearBehavior::Original,
    {
        LinearBehavior::Original
    }
}

/// The positions `i` of `linear` with `linear[i] == want`, in order.
pub open spec fn positions_where(linear: Seq<bool>, want: bool) -> Seq<int>
    decreases linear.len(),
{
    if linear.len() == 0 {
        Seq::empty()
    } else {
        let r = positions_where(linear.drop_last(), want);
        if linear.last() == want {
            r.push(linear.len() - 1)
        } else {
            r
        }
    }
}

/// The spine positions a reader visits, in order, given each entry's `linear` flag.
pub open spec fn reading_order_spec(linear: Seq<bool>, behavior: LinearBehavior) -> Seq<int> {
    match behavior {
        LinearBehavior::Original => Seq::new(linear.len(), |i: int| i),
        LinearBehavior::LinearOnly => positions_where(linear, true),
        LinearBehavior::NonLinearOnly => positions_where(linear, false),
        LinearBehavior::PrependNonLinear => positions_where(linear, false) + positions_where(
            linear,
            true,
        ),
        LinearBehavior::AppendNonLinear => positions_where(linear, true) + positions_where(
            linear,
            false,
        ),
    }
}

fn positions(linear: &Vec<bool>, want: bool) -> (r: Vec<usize>)
    ensures
        r@.map_values(|i: usize| i as int) == positions_where(linear@, want),
{
    let mut out: Vec<usize> = Vec::new();
    let mut i: usize = 0;
    while i < linear.len()
        invariant
            i <= linear@.len(),
            out@.map_values(|i: usize| i as int) == positions_where(linear@.take(i as int), want),
        decreases linear.len() - i,
    {
        assert(linear@.take(i + 1).drop_last() =~= linear@.take(i as int));
        if linear[i] == want {
            out.push(i);
        }
        assert(out@.map_values(|i: usize| i as int) =~= positions_where(linear@.take(i + 1), want));
        i = i + 1;
    }
    assert(linear@.take(i as int) =~= linear@);
    out
}

/// The spine positions a reader visits, in order, given each entry's `linear` flag.
pub fn reading_order(linear: &Vec<bool>, behavior: LinearBehavior) -> (r: Vec<usize>)
    ensures
        r@.map_values(|i: usize| i as int) == reading_order_spec(linear@, behavior),
{
    match behavior {
        LinearBehavior::Original => {
            let mut out: Vec<usize> = Vec::new();
            let mut i: usize = 0;
            while i < linear.len()
                invariant
                    i <= linear@.len(),
                    out@.len() == i,
                    forall|k: int| 0 <= k < i ==> out@[k] == k,
                decreases linear.len() - i,
            {
                out.push(i);
                i = i + 1;
            }
            assert(out@.map_values(|i: usize| i as int) =~= Seq::new(linear@.len(), |k: int| k));
            out
        },
        LinearBehavior::LinearOnly => positions(linear, true),
        LinearBehavior::NonLinearOnly => positions(linear, false),
        LinearBehavior::PrependNonLinear => {
            let mut a = positions(linear, false);
            let b = positions(linear, true);
            let ghost sa = a@;
            let mut k: usize = 0;
            while k < b.len()
                invariant
                    k <= b@.len(),
                    a@ == sa + b@.take(k as int),
                decreases b.len() - k,
            {
                a.push(b[k]);
                k = k + 1;
                assert(a@ =~= sa + b@.take(k as int));
            }
            assert(b@.take(k as int) =~= b@);
            assert(a@.map_values(|i: usize| i as int) =~= sa.map_values(|i: usize| i as int)
                + b@.map_values(|i: usize| i as int));
            a
        },
        LinearBehavior::AppendNonLinear => {
            let mut a = positions(linear, true);
            let b = positions(linear, false);
            let ghost sa = a@;
            let mut k: usize = 0;
            while k < b.len()
                invariant
                    k <= b@.len(),
                    a@ == sa + b@.take(k as int),
                decreases b.len() - k,
            {
                a.push(b[k]);
                k = k + 1;
                assert(a@ =~= sa + b@.take(k as int));
            }
            assert(b@.take(k as int) =~= b@);
            assert(a@.map_values(|i: usize| i as int) =~= sa.map_values(|i: usize| i as int)
                + b@.map_values(|i: usize| i as int));
            a
        },
    }
}

/// Options for a reader.
#[derive(Copy, Clone, Debug)]
pub struct EpubReaderOptions {
    pub linear_behavior: LinearBehavior,
}

impl EpubReaderOptions {
    /// The default options: every entry, in spine order.
    pub fn new() -> (r: Self)
        ensures
            r.linear_behavior == LinearBehavior::Original,
    {
        EpubReaderOptions { linear_behavior: LinearBehavior::Original }
    }

    /// The default options: every entry, in spine order.
    pub fn builder() -> (r: Self)
        ensures
            r.linear_behavior == LinearBehavior::Original,
    {
        Self::new()
    }

    /// Sets which entries are visited, and in what order.
    pub fn linear_behavior(self, linear_behavior: LinearBehavior) -> (r: Self)
        ensures
            r.linear_behavior == linear_behavior,
    {
        EpubReaderOptions { linear_behavior }
    }

    /// The options themselves.
    pub fn build(self) -> (r: Self)
        ensures
            r == self,
    {
        self
    }
}

} // verus!
