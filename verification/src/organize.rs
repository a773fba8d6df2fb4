//! Arranging the metadata entries of a package document: each refinement is nested
//! under the entry it refines, the top-level entries are grouped by property, and the
//! refinements of entries outside the metadata are set aside for the manifest and spine.
use vstd::prelude::*;
use crate::consts;
use crate::errors::EpubError;
use crate::groups::{group_pos, lemma_group_pos, EpubMetadataData};
use crate::metadata::{EpubMetaEntryData, EpubRefinementsData};
use crate::parse::{parse_usize, spec_parse_usize};
use crate::text::{opt_eq_str, opt_string_view, str_eq};

verus! {

broadcast use vstd::string::group_string_axioms;

/// One metadata entry as read from the package document, in document order: its `id`,
/// the `id` it refines (without `#`), and its data.
pub struct ParsedMeta {
    pub id: Option<String>,
    pub refines: Option<String>,
    pub data: EpubMetaEntryData,
}

// ---------------------------------------------------------------------------
// Which entry refines which
// ---------------------------------------------------------------------------

/// The `id` of an entry.
pub open spec fn meta_id(e: ParsedMeta) -> Option<Seq<char>> {
    opt_string_view(e.id)
}

/// The `id` an entry refines.
pub open spec fn meta_refines(e: ParsedMeta) -> Option<Seq<char>> {
    opt_string_view(e.refines)
}

/// The last of the first `k` entries whose `id` is `x`, or `-1`.
pub open spec fn last_with_id(es: Seq<ParsedMeta>, x: Seq<char>, k: int) -> int
    decreases k,
{
    if k <= 0 {
        -1
    } else if meta_id(es[k - 1]) == Some(x) {
        k - 1
    } else {
        last_with_id(es, x, k - 1)
    }
}

/// Entry `i` takes part: it has no `id`, or no later entry has the same `id` (a later
/// entry with the same `id` replaces it).
pub open spec fn kept(es: Seq<ParsedMeta>, i: int) -> bool {
    0 <= i < es.len() && match meta_id(es[i]) {
        None => true,
        Some(x) => last_with_id(es, x, es.len() as int) == i,
    }
}

/// The entry that entry `i` refines, or `-1` when it refines nothing in the metadata.
pub open spec fn parent_of(es: Seq<ParsedMeta>, i: int) -> int {
    match meta_refines(es[i]) {
        None => -1,
        Some(r) => last_with_id(es, r, es.len() as int),
    }
}

/// The `k`-th entry up the refinement chain from `i`, or `-1` once the chain has ended.
pub open spec fn ancestor(es: Seq<ParsedMeta>, i: int, k: nat) -> int
    decreases k,
{
    if k == 0 {
        i
    } else {
        let a = ancestor(es, i, (k - 1) as nat);
        if a < 0 {
            -1
        } else {
            parent_of(es, a)
        }
    }
}

/// The refinement chain from `i` ends (it cannot be longer than the number of entries).
pub open spec fn chain_ends(es: Seq<ParsedMeta>, i: int) -> bool {
    ancestor(es, i, es.len() as nat) < 0
}

/// Entry `j` refines itself through a chain of refinements.
pub open spec fn on_cycle(es: Seq<ParsedMeta>, j: int) -> bool {
    exists|k: nat| 1 <= k <= es.len() && #[trigger] ancestor(es, j, k) == j
}

/// How many refinement steps lead from `i` to an entry that refines nothing in the
/// metadata (looking at most `fuel` steps up).
pub open spec fn depth_in(es: Seq<ParsedMeta>, i: int, fuel: nat) -> nat
    decreases fuel,
{
    if fuel == 0 || i < 0 || parent_of(es, i) < 0 {
        0
    } else {
        1 + depth_in(es, parent_of(es, i), (fuel - 1) as nat)
    }
}

/// The nesting depth of entry `i`: 0 for a top-level entry.
pub open spec fn depth(es: Seq<ParsedMeta>, i: int) -> nat {
    depth_in(es, i, es.len() as nat)
}

pub proof fn lemma_last_with_id(es: Seq<ParsedMeta>, x: Seq<char>, k: int)
    requires
        k <= es.len(),
    ensures
        -1 <= last_with_id(es, x, k) < k || (k <= 0 && last_with_id(es, x, k) == -1),
        last_with_id(es, x, k) >= 0 ==> meta_id(es[last_with_id(es, x, k)]) == Some(x),
        forall|j: int|
            last_with_id(es, x, k) < j < k && 0 <= j ==> meta_id(#[trigger] es[j]) != Some(x),
    decreases k,
{
    if k > 0 && meta_id(es[k - 1]) != Some(x) {
        lemma_last_with_id(es, x, k - 1);
    }
}

/// A parent is a kept entry whose `id` is the refined one.
pub proof fn lemma_parent_kept(es: Seq<ParsedMeta>, i: int)
    requires
        0 <= i < es.len(),
        parent_of(es, i) >= 0,
    ensures
        kept(es, parent_of(es, i)),
        meta_refines(es[i]) is Some,
        meta_id(es[parent_of(es, i)]) == meta_refines(es[i]),
{
    let r = meta_refines(es[i])->0;
    lemma_last_with_id(es, r, es.len() as int);
}

proof fn lemma_ancestor_range(es: Seq<ParsedMeta>, i: int, k: nat)
    requires
        0 <= i < es.len(),
    ensures
        -1 <= ancestor(es, i, k) < es.len(),
    decreases k,
{
    if k > 0 {
        lemma_ancestor_range(es, i, (k - 1) as nat);
        let a = ancestor(es, i, (k - 1) as nat);
        if a >= 0 {
            match meta_refines(es[a]) {
                Some(r) => lemma_last_with_id(es, r, es.len() as int),
                None => {},
            }
        }
    }
}

/// Once the chain has ended it stays ended.
proof fn lemma_ancestor_ended(es: Seq<ParsedMeta>, i: int, k: nat, m: nat)
    requires
        k <= m,
        ancestor(es, i, k) < 0,
    ensures
        ancestor(es, i, m) < 0,
    decreases m - k,
{
    if k < m {
        lemma_ancestor_ended(es, i, k, (m - 1) as nat);
    }
}

/// Going up `p` steps and then `q` steps is going up `p + q` steps.
proof fn lemma_ancestor_add(es: Seq<ParsedMeta>, i: int, p: nat, q: nat)
    requires
        ancestor(es, i, p) >= 0,
    ensures
        ancestor(es, ancestor(es, i, p), q) == ancestor(es, i, p + q),
    decreases q,
{
    if q > 0 {
        lemma_ancestor_add(es, i, p, (q - 1) as nat);
        assert(((p + q) - 1) as nat == p + (q - 1) as nat);
    }
}

/// Stepping up once and then `k` steps is stepping up `k + 1` steps.
proof fn lemma_ancestor_shift(es: Seq<ParsedMeta>, i: int, k: nat)
    requires
        i >= 0,
        parent_of(es, i) >= 0,
    ensures
        ancestor(es, parent_of(es, i), k) == ancestor(es, i, k + 1),
{
    assert(ancestor(es, i, 0) == i);
    assert(ancestor(es, i, 1) == parent_of(es, i));
    lemma_ancestor_add(es, i, 1, k);
    assert(1 + k == k + 1);
}

proof fn lemma_depth_stable(es: Seq<ParsedMeta>, i: int, f: nat)
    requires
        i >= 0,
        ancestor(es, i, f) < 0,
    ensures
        depth_in(es, i, f) == depth_in(es, i, f + 1),
        depth_in(es, i, f) < f,
    decreases f,
{
    if parent_of(es, i) >= 0 {
        let p = parent_of(es, i);
        assert(f > 0);
        lemma_ancestor_shift(es, i, (f - 1) as nat);
        assert((f - 1) as nat + 1 == f);
        lemma_depth_stable(es, p, (f - 1) as nat);
        assert(((f + 1) - 1) as nat == f);
    } else {
        assert(f > 0);
    }
}

/// Along an ending chain, a parent is one level less deep than its child, and its own
/// chain ends.
pub proof fn lemma_depth_parent(es: Seq<ParsedMeta>, i: int)
    requires
        0 <= i < es.len(),
        chain_ends(es, i),
        parent_of(es, i) >= 0,
    ensures
        chain_ends(es, parent_of(es, i)),
        depth(es, i) == depth(es, parent_of(es, i)) + 1,
{
    let p = parent_of(es, i);
    let n = es.len() as nat;
    lemma_ancestor_shift(es, i, (n - 1) as nat);
    assert((n - 1) as nat + 1 == n);
    lemma_ancestor_ended(es, p, (n - 1) as nat, n);
    lemma_depth_stable(es, p, (n - 1) as nat);
}

/// The depth of an entry whose chain ends is less than the number of entries.
pub proof fn lemma_depth_bound(es: Seq<ParsedMeta>, i: int)
    requires
        0 <= i < es.len(),
        chain_ends(es, i),
    ensures
        depth(es, i) < es.len(),
{
    lemma_depth_stable(es, i, es.len() as nat);
}

/// Among `n + 1` positions below `n`, two coincide.
proof fn lemma_pigeonhole(s: Seq<int>, n: int)
    requires
        s.len() == n + 1,
        n >= 0,
        forall|k: int| 0 <= k < s.len() ==> 0 <= #[trigger] s[k] < n,
    ensures
        exists|a: int, b: int| 0 <= a < b < s.len() && s[a] == s[b],
{
    if !(exists|a: int, b: int| 0 <= a < b < s.len() && s[a] == s[b]) {
        assert(s.no_duplicates()) by {
            assert forall|a: int, b: int| 0 <= a < s.len() && 0 <= b < s.len() && a != b implies s[a]
                != s[b] by {
                if a < b {
                    assert(!(s[a] == s[b]));
                } else {
                    assert(!(s[b] == s[a]));
                }
            }
        }
        s.unique_seq_to_set();
        vstd::set_lib::lemma_int_range(0, n);
        assert(s.to_set().subset_of(vstd::set_lib::set_int_range(0, n)));
        vstd::set_lib::lemma_len_subset(s.to_set(), vstd::set_lib::set_int_range(0, n));
    }
}

/// When the chain from `i` does not end, the entry reached after as many steps as there
/// are entries lies on a cycle.
pub proof fn lemma_endless_chain_cycle(es: Seq<ParsedMeta>, i: int)
    requires
        0 <= i < es.len(),
        !chain_ends(es, i),
    ensures
        on_cycle(es, ancestor(es, i, es.len() as nat)),
        ancestor(es, i, es.len() as nat) >= 0,
{
    let n = es.len() as int;
    let s = Seq::new((n + 1) as nat, |k: int| ancestor(es, i, k as nat));
    assert forall|k: int| 0 <= k < s.len() implies 0 <= #[trigger] s[k] < n by {
        lemma_ancestor_range(es, i, k as nat);
        if ancestor(es, i, k as nat) < 0 {
            lemma_ancestor_ended(es, i, k as nat, n as nat);
        }
    }
    lemma_pigeonhole(s, n);
    let (a, b) = choose|a: int, b: int| 0 <= a < b < s.len() && s[a] == s[b];
    assert(s[a] == ancestor(es, i, a as nat));
    assert(s[b] == ancestor(es, i, b as nat));
    let z = ancestor(es, i, n as nat);
    let m = (n - a) as nat;
    lemma_ancestor_add(es, i, a as nat, m);
    lemma_ancestor_add(es, i, b as nat, m);
    assert(a as nat + m == n as nat);
    let d = (b - a) as nat;
    assert(b as nat + m == n as nat + d);
    lemma_ancestor_add(es, i, n as nat, d);
    assert(ancestor(es, z, d) == z);
    assert(1 <= d <= n);
}

// ---------------------------------------------------------------------------
// Display sequence and order
// ---------------------------------------------------------------------------

/// Entry `c` is a `display-seq` refinement of entry `i`.
pub open spec fn ds_child(es: Seq<ParsedMeta>, i: int, c: int) -> bool {
    kept(es, c) && parent_of(es, c) == i && es[c].data.property@ == consts::DISPLAY_SEQ@
}

/// The last of the first `k` `display-seq` refinements of `i` that has an `id` (or has
/// none, by `with_id`), or `-1`.
pub open spec fn last_ds_child(es: Seq<ParsedMeta>, i: int, with_id: bool, k: int) -> int
    decreases k,
{
    if k <= 0 {
        -1
    } else if ds_child(es, i, k - 1) && (meta_id(es[k - 1]) is Some) == with_id {
        k - 1
    } else {
        last_ds_child(es, i, with_id, k - 1)
    }
}

/// The display sequence of entry `i`: the number its `display-seq` refinement gives
/// (the refinements without `id` are read first, then those with one, and the last read
/// counts), or `usize::MAX` when there is none or it is not a number.
pub open spec fn display_seq(es: Seq<ParsedMeta>, i: int) -> usize {
    let a = last_ds_child(es, i, true, es.len() as int);
    let c = if a >= 0 {
        a
    } else {
        last_ds_child(es, i, false, es.len() as int)
    };
    if c < 0 {
        usize::MAX
    } else {
        match spec_parse_usize(es[c].data.value@) {
            Some(v) => v,
            None => usize::MAX,
        }
    }
}

/// Entry `a` comes before entry `b`: a lower display sequence, or the same one and an
/// earlier position in the document.
pub open spec fn key_lt(es: Seq<ParsedMeta>, a: int, b: int) -> bool {
    display_seq(es, a) < display_seq(es, b) || (display_seq(es, a) == display_seq(es, b) && a < b)
}

/// `u` lists every kept entry once, ordered by [`key_lt`].
pub open spec fn is_order(es: Seq<ParsedMeta>, u: Seq<usize>) -> bool {
    &&& forall|k: int| 0 <= k < u.len() ==> kept(es, #[trigger] u[k] as int)
    &&& forall|i: int| kept(es, i) ==> exists|k: int| 0 <= k < u.len() && #[trigger] u[k] == i
    &&& forall|a: int, b: int| 0 <= a < b < u.len() ==> key_lt(es, #[trigger] u[a] as int, #[trigger] u[b] as int)
}

/// Two lists ordered by [`key_lt`] that hold the same entries are the same list.
proof fn lemma_sorted_unique(es: Seq<ParsedMeta>, u1: Seq<usize>, u2: Seq<usize>)
    requires
        forall|a: int, b: int| 0 <= a < b < u1.len() ==> key_lt(es, #[trigger] u1[a] as int, #[trigger] u1[b] as int),
        forall|a: int, b: int| 0 <= a < b < u2.len() ==> key_lt(es, #[trigger] u2[a] as int, #[trigger] u2[b] as int),
        forall|x: usize| u1.contains(x) <==> u2.contains(x),
    ensures
        u1 == u2,
    decreases u1.len() + u2.len(),
{
    if u1.len() == 0 {
        if u2.len() > 0 {
            assert(u2.contains(u2[0]));
        }
        assert(u1 =~= u2);
    } else if u2.len() == 0 {
        assert(u1.contains(u1[0]));
    } else {
        let x = u1[0];
        let y = u2[0];
        assert(u1.contains(x));
        assert(u2.contains(y));
        if x != y {
            let j = choose|j: int| 0 <= j < u1.len() && u1[j] == y;
            let k = choose|k: int| 0 <= k < u2.len() && u2[k] == x;
            assert(j > 0 && k > 0);
            assert(key_lt(es, u1[0] as int, u1[j] as int));
            assert(key_lt(es, u2[0] as int, u2[k] as int));
        }
        let t1 = u1.drop_first();
        let t2 = u2.drop_first();
        assert forall|z: usize| t1.contains(z) <==> t2.contains(z) by {
            if t1.contains(z) {
                let j = choose|j: int| 0 <= j < t1.len() && t1[j] == z;
                assert(u1[j + 1] == z);
                assert(u1.contains(z));
                let k = choose|k: int| 0 <= k < u2.len() && u2[k] == z;
                if k == 0 {
                    assert(key_lt(es, u1[0] as int, u1[j + 1] as int));
                }
                assert(t2[k - 1] == z);
            }
            if t2.contains(z) {
                let k = choose|k: int| 0 <= k < t2.len() && t2[k] == z;
                assert(u2[k + 1] == z);
                assert(u2.contains(z));
                let j = choose|j: int| 0 <= j < u1.len() && u1[j] == z;
                if j == 0 {
                    assert(key_lt(es, u2[0] as int, u2[k + 1] as int));
                }
                assert(t1[j - 1] == z);
            }
        }
        assert forall|a: int, b: int| 0 <= a < b < t1.len() implies key_lt(es, #[trigger] t1[a] as int, #[trigger] t1[b] as int) by {
            assert(t1[a] == u1[a + 1] && t1[b] == u1[b + 1]);
        }
        assert forall|a: int, b: int| 0 <= a < b < t2.len() implies key_lt(es, #[trigger] t2[a] as int, #[trigger] t2[b] as int) by {
            assert(t2[a] == u2[a + 1] && t2[b] == u2[b + 1]);
        }
        lemma_sorted_unique(es, t1, t2);
        assert(u1 =~= seq![x] + t1);
        assert(u2 =~= seq![y] + t2);
    }
}

/// The order of the entries is determined by the entries: two orders of the same
/// entries are the same.
pub proof fn law_order_unique(es: Seq<ParsedMeta>, u1: Seq<usize>, u2: Seq<usize>)
    requires
        is_order(es, u1),
        is_order(es, u2),
    ensures
        u1 == u2,
{
    assert forall|x: usize| u1.contains(x) <==> u2.contains(x) by {
        if u1.contains(x) {
            let j = choose|j: int| 0 <= j < u1.len() && u1[j] == x;
            assert(kept(es, u1[j] as int));
            let k = choose|k: int| 0 <= k < u2.len() && #[trigger] u2[k] == x as int;
            assert(u2[k] == x);
        }
        if u2.contains(x) {
            let k = choose|k: int| 0 <= k < u2.len() && u2[k] == x;
            assert(kept(es, u2[k] as int));
            let j = choose|j: int| 0 <= j < u1.len() && #[trigger] u1[j] == x as int;
            assert(u1[j] == x);
        }
    }
    lemma_sorted_unique(es, u1, u2);
}

// ---------------------------------------------------------------------------
// Computing the relations
// ---------------------------------------------------------------------------

/// The last entry whose `id` is `x`.
fn find_last_id(es: &Vec<ParsedMeta>, x: &str) -> (r: Option<usize>)
    ensures
        match r {
            Some(j) => j as int == last_with_id(es@, x@, es@.len() as int),
            None => last_with_id(es@, x@, es@.len() as int) == -1,
        },
{
    let mut k = es.len();
    while k > 0
        invariant
            k <= es@.len(),
            last_with_id(es@, x@, es@.len() as int) == last_with_id(es@, x@, k as int),
        decreases k,
    {
        if opt_eq_str(&es[k - 1].id, x) {
            return Some(k - 1);
        }
        k = k - 1;
    }
    None
}

/// Which entries are kept.
fn kept_flags(es: &Vec<ParsedMeta>) -> (r: Vec<bool>)
    ensures
        r@.len() == es@.len(),
        forall|i: int| 0 <= i < es@.len() ==> r@[i] == kept(es@, i),
{
    let n = es.len();
    let mut r: Vec<bool> = Vec::new();
    for i in 0..n
        invariant
            n == es@.len(),
            r@.len() == i,
            forall|j: int| 0 <= j < i ==> r@[j] == kept(es@, j),
    {
        let k = match &es[i].id {
            None => true,
            Some(x) => {
                proof {
                    lemma_last_with_id(es@, x@, es@.len() as int);
                }
                match find_last_id(es, x.as_str()) {
                    Some(j) => j == i,
                    None => false,
                }
            },
        };
        r.push(k);
    }
    r
}

/// The entry each entry refines.
fn parent_indices(es: &Vec<ParsedMeta>) -> (r: Vec<Option<usize>>)
    ensures
        r@.len() == es@.len(),
        forall|i: int|
            0 <= i < es@.len() ==> (#[trigger] r@[i] matches Some(p) ==> p as int == parent_of(es@, i)
                && p < es@.len()) && (r@[i] is None ==> parent_of(es@, i) < 0),
{
    let n = es.len();
    let mut r: Vec<Option<usize>> = Vec::new();
    for i in 0..n
        invariant
            n == es@.len(),
            r@.len() == i,
            forall|j: int|
                0 <= j < i ==> (#[trigger] r@[j] matches Some(p) ==> p as int == parent_of(es@, j)
                    && p < es@.len()) && (r@[j] is None ==> parent_of(es@, j) < 0),
    {
        let p = match &es[i].refines {
            None => None,
            Some(x) => {
                proof {
                    lemma_last_with_id(es@, x@, es@.len() as int);
                }
                find_last_id(es, x.as_str())
            },
        };
        r.push(p);
    }
    r
}

/// The depth of every kept entry, or an entry on a cycle of refinements when the chain
/// of some kept entry does not end.
fn depths(es: &Vec<ParsedMeta>, kept_v: &Vec<bool>, parent: &Vec<Option<usize>>) -> (r: Result<Vec<usize>, usize>)
    requires
        kept_v@.len() == es@.len(),
        forall|i: int| 0 <= i < es@.len() ==> kept_v@[i] == kept(es@, i),
        parent@.len() == es@.len(),
        forall|i: int|
            0 <= i < es@.len() ==> (#[trigger] parent@[i] matches Some(p) ==> p as int == parent_of(es@, i)
                && p < es@.len()) && (parent@[i] is None ==> parent_of(es@, i) < 0),
    ensures
        match r {
            Ok(d) => d@.len() == es@.len() && forall|i: int|
                kept(es@, i) ==> chain_ends(es@, i) && d@[i] == depth(es@, i),
            Err(z) => kept(es@, z as int) && on_cycle(es@, z as int) && meta_id(es@[z as int]) is Some
                && exists|i: int| kept(es@, i) && !chain_ends(es@, i),
        },
{
    let n = es.len();
    let mut d: Vec<usize> = Vec::new();
    for i in 0..n
        invariant
            n == es@.len(),
            kept_v@.len() == n,
            forall|i: int| 0 <= i < es@.len() ==> kept_v@[i] == kept(es@, i),
            parent@.len() == n,
            forall|i: int|
                0 <= i < es@.len() ==> (#[trigger] parent@[i] matches Some(p) ==> p as int == parent_of(
                    es@,
                    i,
                ) && p < es@.len()) && (parent@[i] is None ==> parent_of(es@, i) < 0),
            d@.len() == i,
            forall|j: int| 0 <= j < i && kept(es@, j) ==> chain_ends(es@, j) && d@[j] == depth(es@, j),
    {
        if kept_v[i] {
        let mut a = i;
        let mut steps: usize = 0;
        while steps < n && parent[a].is_some()
            invariant
                n == es@.len(),
                parent@.len() == n,
                forall|i: int|
                    0 <= i < es@.len() ==> (#[trigger] parent@[i] matches Some(p) ==> p as int
                        == parent_of(es@, i) && p < es@.len()) && (parent@[i] is None ==> parent_of(
                        es@,
                        i,
                    ) < 0),
                i < n,
                a < n,
                steps <= n,
                a as int == ancestor(es@, i as int, steps as nat),
                depth(es@, i as int) == steps + depth_in(es@, a as int, (n - steps) as nat),
            decreases n - steps,
        {
            let p = parent[a].unwrap();
            proof {
                assert(depth_in(es@, a as int, (n - steps) as nat) == 1 + depth_in(
                    es@,
                    p as int,
                    (n - steps - 1) as nat,
                ));
            }
            a = p;
            steps = steps + 1;
        }
        if steps == n {
            proof {
                lemma_endless_chain_cycle(es@, i as int);
                assert(n > 0);
                let b = ancestor(es@, i as int, (n - 1) as nat);
                lemma_ancestor_range(es@, i as int, (n - 1) as nat);
                assert(ancestor(es@, i as int, n as nat) == parent_of(es@, b));
                lemma_parent_kept(es@, b);
            }
            return Err(a);
        }
        proof {
            assert(ancestor(es@, i as int, (steps + 1) as nat) < 0);
            lemma_ancestor_ended(es@, i as int, (steps + 1) as nat, n as nat);
        }
        d.push(steps);
        } else {
            d.push(0);
        }
    }
    Ok(d)
}

/// The display sequence of every entry.
fn display_seqs(es: &Vec<ParsedMeta>, kept_v: &Vec<bool>, parent: &Vec<Option<usize>>) -> (r: Vec<usize>)
    requires
        kept_v@.len() == es@.len(),
        forall|i: int| 0 <= i < es@.len() ==> kept_v@[i] == kept(es@, i),
        parent@.len() == es@.len(),
        forall|i: int|
            0 <= i < es@.len() ==> (#[trigger] parent@[i] matches Some(p) ==> p as int == parent_of(es@, i)
                && p < es@.len()) && (parent@[i] is None ==> parent_of(es@, i) < 0),
    ensures
        r@.len() == es@.len(),
        forall|i: int| 0 <= i < es@.len() ==> r@[i] == display_seq(es@, i),
{
    let n = es.len();
    let mut r: Vec<usize> = Vec::new();
    for i in 0..n
        invariant
            n == es@.len(),
            kept_v@.len() == n,
            forall|i: int| 0 <= i < es@.len() ==> kept_v@[i] == kept(es@, i),
            parent@.len() == n,
            forall|i: int|
                0 <= i < es@.len() ==> (#[trigger] parent@[i] matches Some(p) ==> p as int == parent_of(
                    es@,
                    i,
                ) && p < es@.len()) && (parent@[i] is None ==> parent_of(es@, i) < 0),
            r@.len() == i,
            forall|j: int| 0 <= j < i ==> r@[j] == display_seq(es@, j),
    {
        let a = last_ds(es, kept_v, parent, i, true);
        let c = match a {
            Some(c) => Some(c),
            None => last_ds(es, kept_v, parent, i, false),
        };
        let v = match c {
            None => usize::MAX,
            Some(c) => match parse_usize(es[c].data.value.as_str()) {
                Some(v) => v,
                None => usize::MAX,
            },
        };
        r.push(v);
    }
    r
}

/// The last `display-seq` refinement of `i` with (or without) an `id`.
fn last_ds(es: &Vec<ParsedMeta>, kept_v: &Vec<bool>, parent: &Vec<Option<usize>>, i: usize, with_id: bool) -> (r: Option<usize>)
    requires
        kept_v@.len() == es@.len(),
        forall|i: int| 0 <= i < es@.len() ==> kept_v@[i] == kept(es@, i),
        parent@.len() == es@.len(),
        forall|i: int|
            0 <= i < es@.len() ==> (#[trigger] parent@[i] matches Some(p) ==> p as int == parent_of(es@, i)
                && p < es@.len()) && (parent@[i] is None ==> parent_of(es@, i) < 0),
    ensures
        match r {
            Some(c) => c as int == last_ds_child(es@, i as int, with_id, es@.len() as int) && c < es@.len(),
            None => last_ds_child(es@, i as int, with_id, es@.len() as int) == -1,
        },
{
    let mut k = es.len();
    while k > 0
        invariant
            k <= es@.len(),
            kept_v@.len() == es@.len(),
            forall|i: int| 0 <= i < es@.len() ==> kept_v@[i] == kept(es@, i),
            parent@.len() == es@.len(),
            forall|i: int|
                0 <= i < es@.len() ==> (#[trigger] parent@[i] matches Some(p) ==> p as int == parent_of(
                    es@,
                    i,
                ) && p < es@.len()) && (parent@[i] is None ==> parent_of(es@, i) < 0),
            last_ds_child(es@, i as int, with_id, es@.len() as int) == last_ds_child(
                es@,
                i as int,
                with_id,
                k as int,
            ),
        decreases k,
    {
        let c = k - 1;
        let is_child = kept_v[c] && match parent[c] {
            Some(p) => p == i,
            None => false,
        };
        if is_child && str_eq(es[c].data.property.as_str(), consts::DISPLAY_SEQ) && es[c].id.is_some()
            == with_id {
            return Some(c);
        }
        k = c;
    }
    None
}

/// The kept entries ordered by [`key_lt`] (an insertion sort).
fn order(kept_v: &Vec<bool>, ds: &Vec<usize>, Ghost(es): Ghost<Seq<ParsedMeta>>) -> (u: Vec<usize>)
    requires
        kept_v@.len() == es.len(),
        forall|i: int| 0 <= i < es.len() ==> kept_v@[i] == kept(es, i),
        ds@.len() == es.len(),
        forall|i: int| 0 <= i < es.len() ==> ds@[i] == display_seq(es, i),
    ensures
        is_order(es, u@),
{
    let n = kept_v.len();
    let mut u: Vec<usize> = Vec::new();
    for i in 0..n
        invariant
            n == es.len(),
            kept_v@.len() == n,
            forall|i: int| 0 <= i < es.len() ==> kept_v@[i] == kept(es, i),
            ds@.len() == n,
            forall|i: int| 0 <= i < es.len() ==> ds@[i] == display_seq(es, i),
            forall|k: int| 0 <= k < u@.len() ==> kept(es, #[trigger] u@[k] as int) && u@[k] < i,
            forall|j: int| 0 <= j < i && kept(es, j) ==> exists|k: int| 0 <= k < u@.len() && #[trigger] u@[k] == j,
            forall|a: int, b: int|
                0 <= a < b < u@.len() ==> key_lt(es, #[trigger] u@[a] as int, #[trigger] u@[b] as int),
    {
        if kept_v[i] {
            let mut pos: usize = 0;
            while pos < u.len() && ds[u[pos]] <= ds[i]
                invariant
                    pos <= u@.len(),
                    n == es.len(),
                    i < n,
                    ds@.len() == n,
                    forall|k: int| 0 <= k < u@.len() ==> kept(es, #[trigger] u@[k] as int) && u@[k] < i,
                    forall|k: int| 0 <= k < pos ==> ds@[#[trigger] u@[k] as int] <= ds@[i as int],
                decreases u@.len() - pos,
            {
                pos = pos + 1;
            }
            let ghost old_u = u@;
            u.insert(pos, i);
            proof {
                assert(u@ == old_u.insert(pos as int, i));
                assert forall|k: int| 0 <= k < u@.len() implies kept(es, #[trigger] u@[k] as int) && u@[k]
                    < i + 1 by {
                    if k < pos {
                        assert(u@[k] == old_u[k]);
                    } else if k > pos {
                        assert(u@[k] == old_u[k - 1]);
                    }
                }
                assert forall|j: int| 0 <= j < i + 1 && kept(es, j) implies exists|k: int|
                    0 <= k < u@.len() && #[trigger] u@[k] == j by {
                    if j == i {
                        assert(u@[pos as int] == j);
                    } else {
                        let k0 = choose|k: int| 0 <= k < old_u.len() && old_u[k] == j;
                        if k0 < pos {
                            assert(u@[k0] == j);
                        } else {
                            assert(u@[k0 + 1] == j);
                        }
                    }
                }
                assert forall|a: int, b: int| 0 <= a < b < u@.len() implies key_lt(
                    es,
                    #[trigger] u@[a] as int,
                    #[trigger] u@[b] as int,
                ) by {
                    if b < pos {
                        assert(u@[a] == old_u[a] && u@[b] == old_u[b]);
                    } else if a > pos {
                        assert(u@[a] == old_u[a - 1] && u@[b] == old_u[b - 1]);
                    } else if a < pos && b > pos {
                        assert(u@[a] == old_u[a] && u@[b] == old_u[b - 1]);
                    } else if a == pos {
                        // every later element has a greater display sequence
                        let ob = old_u[b - 1];
                        assert(u@[b] == ob);
                        assert(ds@[old_u[pos as int] as int] > ds@[i as int]);
                        if b - 1 > pos {
                            assert(key_lt(es, old_u[pos as int] as int, ob as int));
                        }
                    } else {
                        assert(u@[a] == old_u[a]);
                        assert(ds@[old_u[a] as int] <= ds@[i as int]);
                    }
                }
            }
        }
    }
    u
}

// ---------------------------------------------------------------------------
// Nesting
// ---------------------------------------------------------------------------

/// The entries among the first `k` of `u` that refine entry `i`, in that order.
pub open spec fn kids_upto(es: Seq<ParsedMeta>, u: Seq<usize>, i: int, k: int) -> Seq<usize>
    decreases k,
{
    if k <= 0 {
        Seq::empty()
    } else {
        let s = kids_upto(es, u, i, k - 1);
        if parent_of(es, u[k - 1] as int) == i {
            s.push(u[k - 1])
        } else {
            s
        }
    }
}

/// The entries of `u` that refine entry `i`, in that order.
pub open spec fn kids(es: Seq<ParsedMeta>, u: Seq<usize>, i: int) -> Seq<usize> {
    kids_upto(es, u, i, u.len() as int)
}

/// `x` carries the data of entry `i`, with its `id`.
pub open spec fn node_of(es: Seq<ParsedMeta>, x: EpubMetaEntryData, i: int) -> bool {
    &&& x.id == es[i].id
    &&& x.property == es[i].data.property
    &&& x.value == es[i].data.value
    &&& x.language == es[i].data.language
    &&& x.text_direction == es[i].data.text_direction
    &&& x.attributes == es[i].data.attributes
    &&& x.kind == es[i].data.kind
}

/// `x` is entry `i` with the entries refining it nested as its refinements, in the order
/// of `u`, and so on down (at most `fuel` levels).
pub open spec fn is_tree(es: Seq<ParsedMeta>, u: Seq<usize>, x: EpubMetaEntryData, i: int, fuel: nat) -> bool
    decreases fuel, 1int, 0int,
{
    if fuel == 0 {
        false
    } else {
        &&& node_of(es, x, i)
        &&& x.refinements.0@.len() == kids(es, u, i).len()
        &&& trees_match(es, u, x.refinements.0@, kids(es, u, i), fuel, x.refinements.0@.len())
    }
}

/// Each of the first `k` of `xs` is the tree of the entry at the same position of
/// `ids`, one level less deep than `fuel`.
pub open spec fn trees_match(
    es: Seq<ParsedMeta>,
    u: Seq<usize>,
    xs: Seq<EpubMetaEntryData>,
    ids: Seq<usize>,
    fuel: nat,
    k: nat,
) -> bool
    decreases fuel, 0int, k,
{
    if k == 0 {
        true
    } else if fuel == 0 {
        false
    } else {
        trees_match(es, u, xs, ids, fuel, (k - 1) as nat) && is_tree(
            es,
            u,
            xs[k - 1],
            ids[k - 1] as int,
            (fuel - 1) as nat,
        )
    }
}

/// `x` is entry `i` with the refining entries among the first `k` of `u` nested.
spec fn is_partial(es: Seq<ParsedMeta>, u: Seq<usize>, x: EpubMetaEntryData, i: int, k: int, fuel: nat) -> bool {
    &&& node_of(es, x, i)
    &&& x.refinements.0@.len() == kids_upto(es, u, i, k).len()
    &&& trees_match(es, u, x.refinements.0@, kids_upto(es, u, i, k), fuel, x.refinements.0@.len())
}

/// Appending to both lists keeps the match of a prefix.
proof fn lemma_match_push(
    es: Seq<ParsedMeta>,
    u: Seq<usize>,
    xs: Seq<EpubMetaEntryData>,
    ids: Seq<usize>,
    x: EpubMetaEntryData,
    c: usize,
    fuel: nat,
    k: nat,
)
    requires
        k <= xs.len(),
        k <= ids.len(),
        trees_match(es, u, xs, ids, fuel, k),
    ensures
        trees_match(es, u, xs.push(x), ids.push(c), fuel, k),
    decreases k,
{
    if k > 0 && fuel > 0 {
        lemma_match_push(es, u, xs, ids, x, c, fuel, (k - 1) as nat);
        assert(xs.push(x)[k - 1] == xs[k - 1]);
        assert(ids.push(c)[k - 1] == ids[k - 1]);
    }
}

/// Each matched element is the tree of its entry.
pub proof fn lemma_match_at(
    es: Seq<ParsedMeta>,
    u: Seq<usize>,
    xs: Seq<EpubMetaEntryData>,
    ids: Seq<usize>,
    fuel: nat,
    k: nat,
    m: int,
)
    requires
        trees_match(es, u, xs, ids, fuel, k),
        0 <= m < k,
    ensures
        fuel > 0,
        is_tree(es, u, xs[m], ids[m] as int, (fuel - 1) as nat),
    decreases k,
{
    if m < k - 1 {
        lemma_match_at(es, u, xs, ids, fuel, (k - 1) as nat, m);
    }
}

proof fn lemma_partial_full(es: Seq<ParsedMeta>, u: Seq<usize>, x: EpubMetaEntryData, i: int, fuel: nat)
    requires
        fuel > 0,
        is_partial(es, u, x, i, u.len() as int, fuel),
    ensures
        is_tree(es, u, x, i, fuel),
{
}

proof fn lemma_kids_none(es: Seq<ParsedMeta>, u: Seq<usize>, i: int, k: int)
    requires
        0 <= k <= u.len(),
        forall|m: int| 0 <= m < k ==> parent_of(es, #[trigger] u[m] as int) != i,
    ensures
        kids_upto(es, u, i, k).len() == 0,
    decreases k,
{
    if k > 0 {
        lemma_kids_none(es, u, i, k - 1);
    }
}

/// An entry refining a kept entry with an ending chain is one level deeper.
proof fn lemma_child_depth(es: Seq<ParsedMeta>, c: int, j: int)
    requires
        kept(es, c),
        chain_ends(es, c),
        parent_of(es, c) == j,
        j >= 0,
    ensures
        depth(es, c) == depth(es, j) + 1,
        kept(es, j),
        chain_ends(es, j),
{
    lemma_depth_parent(es, c);
    lemma_parent_kept(es, c);
}

/// An entry below the top has a parent.
proof fn lemma_deep_has_parent(es: Seq<ParsedMeta>, c: int)
    requires
        0 <= c < es.len(),
        depth(es, c) > 0,
    ensures
        parent_of(es, c) >= 0,
{
}

/// Moves the entries into slots, each with its `id` and no refinements; also returns
/// the `refines` values.
fn into_slots(entries: Vec<ParsedMeta>) -> (r: (Vec<Option<EpubMetaEntryData>>, Vec<Option<String>>))
    ensures
        r.0@.len() == entries@.len(),
        r.1@.len() == entries@.len(),
        forall|i: int|
            0 <= i < entries@.len() ==> (#[trigger] r.0@[i] matches Some(x) && node_of(entries@, x, i)
                && x.refinements.0@.len() == 0),
        forall|i: int| 0 <= i < entries@.len() ==> #[trigger] r.1@[i] == entries@[i].refines,
{
    let ghost es = entries@;
    let n = entries.len();
    let mut slots: Vec<Option<EpubMetaEntryData>> = Vec::new();
    let mut refs: Vec<Option<String>> = Vec::new();
    for i in 0..n
        invariant
            slots@.len() == i,
            refs@.len() == i,
    {
        slots.push(None);
        refs.push(None);
    }
    let mut entries = entries;
    while entries.len() > 0
        invariant
            n == es.len(),
            entries@.len() <= n,
            entries@ == es.take(entries@.len() as int),
            slots@.len() == n,
            refs@.len() == n,
            forall|i: int|
                entries@.len() <= i < n ==> (#[trigger] slots@[i] matches Some(x) && node_of(es, x, i)
                    && x.refinements.0@.len() == 0),
            forall|i: int| entries@.len() <= i < n ==> #[trigger] refs@[i] == es[i].refines,
        decreases entries@.len(),
    {
        let ghost before = entries@;
        let p = entries.pop().unwrap();
        let i = entries.len();
        proof {
            assert(p == es[i as int]);
            assert(entries@ =~= es.take(i as int));
        }
        let ParsedMeta { id, refines, data } = p;
        let mut data = data;
        data.id = id;
        data.refinements = EpubRefinementsData(Vec::new());
        slots.set(i, Some(data));
        refs.set(i, refines);
    }
    (slots, refs)
}

/// Removes the value in slot `i`.
fn take_slot<T>(slots: &mut Vec<Option<T>>, i: usize) -> (r: Option<T>)
    requires
        i < old(slots)@.len(),
    ensures
        r == old(slots)@[i as int],
        final(slots)@ == old(slots)@.update(i as int, None),
{
    let mut r: Option<T> = None;
    std::mem::swap(&mut r, &mut slots[i]);
    r
}

/// The depths of the kept entries are at most `maxd`.
spec fn depth_bounded(es: Seq<ParsedMeta>, maxd: nat) -> bool {
    forall|j: int| kept(es, j) ==> depth(es, j) <= maxd
}

/// Nests the entries level by level, from the deepest up: afterwards each top-level slot
/// holds its entry with all refinements nested.
fn nest(
    slots: &mut Vec<Option<EpubMetaEntryData>>,
    u: &Vec<usize>,
    dep: &Vec<usize>,
    parent: &Vec<Option<usize>>,
    maxd: usize,
    Ghost(es): Ghost<Seq<ParsedMeta>>,
)
    requires
        old(slots)@.len() == es.len(),
        dep@.len() == es.len(),
        parent@.len() == es.len(),
        is_order(es, u@),
        forall|i: int| kept(es, i) ==> chain_ends(es, i) && dep@[i] == depth(es, i),
        forall|i: int|
            0 <= i < es.len() ==> (#[trigger] parent@[i] matches Some(p) ==> p as int == parent_of(es, i)
                && p < es.len()) && (parent@[i] is None ==> parent_of(es, i) < 0),
        depth_bounded(es, maxd as nat),
        forall|j: int|
            kept(es, j) ==> (#[trigger] old(slots)@[j] matches Some(x) && node_of(es, x, j)
                && x.refinements.0@.len() == 0),
    ensures
        final(slots)@.len() == es.len(),
        forall|j: int|
            kept(es, j) && depth(es, j) == 0 ==> (#[trigger] final(slots)@[j] matches Some(x) && is_tree(
                es,
                u@,
                x,
                j,
                es.len() as nat,
            )),
{
    let n = slots.len();
    let mut d = maxd;
    proof {
        assert forall|j: int| kept(es, j) && depth(es, j) == d implies (#[trigger] slots@[j] matches Some(
            x,
        ) && is_tree(es, u@, x, j, (n - d) as nat)) by {
            lemma_depth_bound(es, j);
            assert forall|m: int| 0 <= m < u@.len() implies parent_of(es, #[trigger] u@[m] as int) != j by {
                let c = u@[m] as int;
                if parent_of(es, c) == j {
                    lemma_child_depth(es, c, j);
                }
            }
            lemma_kids_none(es, u@, j, u@.len() as int);
        }
    }
    while d > 0
        invariant
            n == es.len(),
            slots@.len() == n,
            dep@.len() == n,
            parent@.len() == n,
            is_order(es, u@),
            forall|i: int| kept(es, i) ==> chain_ends(es, i) && dep@[i] == depth(es, i),
            forall|i: int|
                0 <= i < es.len() ==> (#[trigger] parent@[i] matches Some(p) ==> p as int == parent_of(
                    es,
                    i,
                ) && p < es.len()) && (parent@[i] is None ==> parent_of(es, i) < 0),
            d <= maxd,
            depth_bounded(es, maxd as nat),
            forall|j: int|
                kept(es, j) && depth(es, j) == d ==> (#[trigger] slots@[j] matches Some(x) && is_tree(
                    es,
                    u@,
                    x,
                    j,
                    (n - d) as nat,
                )),
            forall|j: int|
                kept(es, j) && depth(es, j) < d ==> (#[trigger] slots@[j] matches Some(x) && node_of(es, x, j)
                    && x.refinements.0@.len() == 0),
        decreases d,
    {
        let mut k: usize = 0;
        while k < u.len()
            invariant
                n == es.len(),
                slots@.len() == n,
                dep@.len() == n,
                parent@.len() == n,
                is_order(es, u@),
                forall|i: int| kept(es, i) ==> chain_ends(es, i) && dep@[i] == depth(es, i),
                forall|i: int|
                    0 <= i < es.len() ==> (#[trigger] parent@[i] matches Some(p) ==> p as int == parent_of(
                        es,
                        i,
                    ) && p < es.len()) && (parent@[i] is None ==> parent_of(es, i) < 0),
                0 < d <= maxd,
                depth_bounded(es, maxd as nat),
                k <= u@.len(),
                forall|j: int|
                    kept(es, j) && depth(es, j) == d && (forall|m: int| 0 <= m < k ==> #[trigger] u@[m] != j)
                        ==> (#[trigger] slots@[j] matches Some(x) && is_tree(es, u@, x, j, (n - d) as nat)),
                forall|j: int|
                    kept(es, j) && depth(es, j) == d - 1 ==> (#[trigger] slots@[j] matches Some(x) && is_partial(
                        es,
                        u@,
                        x,
                        j,
                        k as int,
                        (n - d + 1) as nat,
                    )),
                forall|j: int|
                    kept(es, j) && depth(es, j) < d - 1 ==> (#[trigger] slots@[j] matches Some(x) && node_of(
                        es,
                        x,
                        j,
                    ) && x.refinements.0@.len() == 0),
            decreases u@.len() - k,
        {
            let c = u[k];
            proof {
                assert(kept(es, c as int));
            }
            if dep[c] == d {
                proof {
                    lemma_deep_has_parent(es, c as int);
                    lemma_child_depth(es, c as int, parent_of(es, c as int));
                    assert forall|m: int| 0 <= m < k implies #[trigger] u@[m] != c by {
                        assert(key_lt(es, u@[m] as int, u@[k as int] as int));
                    }
                }
                let p = parent[c].unwrap();
                let ghost sp = slots@;
                proof {
                    lemma_depth_bound(es, c as int);
                    assert(sp[c as int] matches Some(x) && is_tree(es, u@, x, c as int, (n - d) as nat));
                    assert(sp[p as int] matches Some(x) && is_partial(es, u@, x, p as int, k as int, (n - d + 1) as nat));
                }
                let x = take_slot(slots, c).unwrap();
                let mut px = take_slot(slots, p).unwrap();
                let ghost px0 = px;
                px.refinements.0.push(x);
                proof {
                    assert(kids_upto(es, u@, p as int, k + 1) == kids_upto(es, u@, p as int, k as int).push(c));
                    lemma_match_push(
                        es,
                        u@,
                        px0.refinements.0@,
                        kids_upto(es, u@, p as int, k as int),
                        x,
                        c,
                        (n - d + 1) as nat,
                        px0.refinements.0@.len(),
                    );
                    assert(px.refinements.0@ == px0.refinements.0@.push(x));
                    assert(((n - d + 1) as nat - 1) as nat == (n - d) as nat);
                    assert(is_partial(es, u@, px, p as int, k + 1, (n - d + 1) as nat));
                }
                slots.set(p, Some(px));
                proof {
                    assert forall|j: int|
                        kept(es, j) && depth(es, j) == d && (forall|m: int| 0 <= m < k + 1 ==> #[trigger] u@[m]
                            != j) implies (#[trigger] slots@[j] matches Some(x) && is_tree(
                        es,
                        u@,
                        x,
                        j,
                        (n - d) as nat,
                    )) by {
                        assert(u@[k as int] != j);
                        assert(j != p);
                        assert(slots@[j] == sp[j]);
                    }
                    assert forall|j: int| kept(es, j) && depth(es, j) == d - 1 implies (
                    #[trigger] slots@[j] matches Some(x) && is_partial(
                        es,
                        u@,
                        x,
                        j,
                        k + 1,
                        (n - d + 1) as nat,
                    )) by {
                        if j != p {
                            assert(slots@[j] == sp[j]);
                            assert(kids_upto(es, u@, j, k + 1) == kids_upto(es, u@, j, k as int));
                        }
                    }
                    assert forall|j: int| kept(es, j) && depth(es, j) < d - 1 implies (
                    #[trigger] slots@[j] matches Some(x) && node_of(es, x, j) && x.refinements.0@.len()
                        == 0) by {
                        assert(slots@[j] == sp[j]);
                    }
                }
            } else {
                proof {
                    assert forall|j: int| kept(es, j) && depth(es, j) == d - 1 implies (
                    #[trigger] slots@[j] matches Some(x) && is_partial(
                        es,
                        u@,
                        x,
                        j,
                        k + 1,
                        (n - d + 1) as nat,
                    )) by {
                        if parent_of(es, c as int) == j {
                            lemma_child_depth(es, c as int, j);
                        }
                        assert(kids_upto(es, u@, j, k + 1) == kids_upto(es, u@, j, k as int));
                    }
                    assert forall|j: int|
                        kept(es, j) && depth(es, j) == d && (forall|m: int| 0 <= m < k + 1 ==> #[trigger] u@[m]
                            != j) implies (#[trigger] slots@[j] matches Some(x) && is_tree(
                        es,
                        u@,
                        x,
                        j,
                        (n - d) as nat,
                    )) by {
                        assert forall|m: int| 0 <= m < k implies #[trigger] u@[m] != j by {
                            assert(u@[m] != j);
                        }
                    }
                }
            }
            k = k + 1;
        }
        proof {
            assert forall|j: int| kept(es, j) && depth(es, j) == d - 1 implies (#[trigger] slots@[j] matches Some(
                x,
            ) && is_tree(es, u@, x, j, (n - (d - 1)) as nat)) by {
                lemma_depth_bound(es, j);
                assert((n - d + 1) as nat == (n - (d - 1)) as nat);
                let x = slots@[j]->0;
                lemma_partial_full(es, u@, x, j, (n - d + 1) as nat);
            }
        }
        d = d - 1;
    }
}

// ---------------------------------------------------------------------------
// Top-level entries
// ---------------------------------------------------------------------------

/// Entry `i` is kept and refines nothing.
pub open spec fn is_root(es: Seq<ParsedMeta>, i: int) -> bool {
    kept(es, i) && meta_refines(es[i]) is None
}

/// Entry `i` is kept and refines an `id` that no metadata entry has (it may refine an
/// item of the manifest or spine).
pub open spec fn is_orphan(es: Seq<ParsedMeta>, i: int) -> bool {
    kept(es, i) && meta_refines(es[i]) is Some && parent_of(es, i) < 0
}

/// The property of entry `i`.
pub open spec fn prop_of(es: Seq<ParsedMeta>, i: int) -> Seq<char> {
    es[i].data.property@
}

/// The first of the first `k` entries that is a root with property `p`, or `-1`.
pub open spec fn first_root(es: Seq<ParsedMeta>, p: Seq<char>, k: int) -> int
    decreases k,
{
    if k <= 0 {
        -1
    } else {
        let r = first_root(es, p, k - 1);
        if r >= 0 {
            r
        } else if is_root(es, k - 1) && prop_of(es, k - 1) == p {
            k - 1
        } else {
            -1
        }
    }
}

/// The roots among the first `k` entries that come first with their property: the
/// properties of the groups, in document order.
pub open spec fn root_keys(es: Seq<ParsedMeta>, k: int) -> Seq<usize>
    decreases k,
{
    if k <= 0 {
        Seq::empty()
    } else {
        let s = root_keys(es, k - 1);
        if is_root(es, k - 1) && first_root(es, prop_of(es, k - 1), k - 1) < 0 {
            s.push((k - 1) as usize)
        } else {
            s
        }
    }
}

/// The roots with property `p` among the first `k` entries of `u`, in that order.
pub open spec fn members_upto(es: Seq<ParsedMeta>, u: Seq<usize>, p: Seq<char>, k: int) -> Seq<usize>
    decreases k,
{
    if k <= 0 {
        Seq::empty()
    } else {
        let s = members_upto(es, u, p, k - 1);
        if is_root(es, u[k - 1] as int) && prop_of(es, u[k - 1] as int) == p {
            s.push(u[k - 1])
        } else {
            s
        }
    }
}

/// The orphans among the first `k` entries of `u`, in that order.
pub open spec fn orphans_upto(es: Seq<ParsedMeta>, u: Seq<usize>, k: int) -> Seq<usize>
    decreases k,
{
    if k <= 0 {
        Seq::empty()
    } else {
        let s = orphans_upto(es, u, k - 1);
        if is_orphan(es, u[k - 1] as int) {
            s.push(u[k - 1])
        } else {
            s
        }
    }
}

/// The groups `g` hold, for each property of the roots in order of first appearance,
/// the trees of the roots with that property in the order `u`.
pub open spec fn groups_built(es: Seq<ParsedMeta>, u: Seq<usize>, g: Seq<(Seq<char>, Seq<EpubMetaEntryData>)>) -> bool {
    let keys = root_keys(es, es.len() as int);
    &&& g.len() == keys.len()
    &&& forall|t: int|
        0 <= t < g.len() ==> {
            let p = prop_of(es, #[trigger] keys[t] as int);
            let ms = members_upto(es, u, p, u.len() as int);
            &&& g[t].0 == p
            &&& g[t].1.len() == ms.len()
            &&& forall|m: int|
                0 <= m < ms.len() ==> is_tree(es, u, #[trigger] g[t].1[m], ms[m] as int, es.len() as nat)
        }
}

/// The set-aside refinements `q` are the trees of the orphans in the order `u`, each
/// with the `id` it refines.
pub open spec fn pending_built(es: Seq<ParsedMeta>, u: Seq<usize>, q: Seq<(String, EpubMetaEntryData)>) -> bool {
    let os = orphans_upto(es, u, u.len() as int);
    &&& q.len() == os.len()
    &&& forall|m: int|
        0 <= m < q.len() ==> {
            &&& Some((#[trigger] q[m]).0@) == meta_refines(es[os[m] as int])
            &&& is_tree(es, u, q[m].1, os[m] as int, es.len() as nat)
        }
}

proof fn lemma_first_root(es: Seq<ParsedMeta>, p: Seq<char>, k: int)
    requires
        k <= es.len(),
    ensures
        -1 <= first_root(es, p, k) < k || (k <= 0 && first_root(es, p, k) == -1),
        first_root(es, p, k) >= 0 ==> is_root(es, first_root(es, p, k)) && prop_of(
            es,
            first_root(es, p, k),
        ) == p,
        forall|j: int|
            0 <= j < k && is_root(es, j) && prop_of(es, j) == p ==> 0 <= first_root(es, p, k) <= j,
    decreases k,
{
    if k > 0 {
        lemma_first_root(es, p, k - 1);
    }
}

proof fn lemma_first_root_mono(es: Seq<ParsedMeta>, p: Seq<char>, k: int, k2: int)
    requires
        first_root(es, p, k) >= 0,
        k <= k2,
    ensures
        first_root(es, p, k2) == first_root(es, p, k),
    decreases k2 - k,
{
    if k < k2 {
        lemma_first_root_mono(es, p, k, k2 - 1);
    }
}

proof fn lemma_root_keys(es: Seq<ParsedMeta>, k: int)
    requires
        0 <= k <= es.len(),
        es.len() <= usize::MAX,
    ensures
        forall|t: int|
            0 <= t < root_keys(es, k).len() ==> (#[trigger] root_keys(es, k)[t]) < k && is_root(
                es,
                root_keys(es, k)[t] as int,
            ) && first_root(es, prop_of(es, root_keys(es, k)[t] as int), root_keys(es, k)[t] as int)
                < 0,
        forall|a: int, b: int|
            0 <= a < b < root_keys(es, k).len() ==> (#[trigger] root_keys(es, k)[a]) < (
            #[trigger] root_keys(es, k)[b]),
        forall|i: int|
            0 <= i < k && is_root(es, i) && first_root(es, prop_of(es, i), i) < 0 ==> exists|t: int|
                0 <= t < root_keys(es, k).len() && #[trigger] root_keys(es, k)[t] == i,
    decreases k,
{
    if k > 0 {
        lemma_root_keys(es, k - 1);
        let s = root_keys(es, k - 1);
        if is_root(es, k - 1) && first_root(es, prop_of(es, k - 1), k - 1) < 0 {
            let s2 = s.push((k - 1) as usize);
            assert(root_keys(es, k) == s2);
            assert forall|i: int|
                0 <= i < k && is_root(es, i) && first_root(es, prop_of(es, i), i) < 0 implies exists|t: int|
                0 <= t < s2.len() && #[trigger] s2[t] == i by {
                if i == k - 1 {
                    assert(s2[s.len() as int] == i);
                } else {
                    let t = choose|t: int| 0 <= t < s.len() && #[trigger] s[t] == i;
                    assert(s2[t] == i);
                }
            }
        }
    }
}

/// The properties of the group keys differ.
proof fn lemma_root_keys_distinct(es: Seq<ParsedMeta>, a: int, b: int)
    requires
        es.len() <= usize::MAX,
        0 <= a < b < root_keys(es, es.len() as int).len(),
    ensures
        prop_of(es, root_keys(es, es.len() as int)[a] as int) != prop_of(
            es,
            root_keys(es, es.len() as int)[b] as int,
        ),
{
    let keys = root_keys(es, es.len() as int);
    lemma_root_keys(es, es.len() as int);
    let ka = keys[a] as int;
    let kb = keys[b] as int;
    assert(ka < kb);
    if prop_of(es, ka) == prop_of(es, kb) {
        lemma_first_root(es, prop_of(es, kb), kb);
    }
}

/// Which entries are roots, and for each root the first root with its property.
fn root_classes(es: &Vec<ParsedMeta>, kept_v: &Vec<bool>) -> (r: (Vec<bool>, Vec<usize>))
    requires
        kept_v@.len() == es@.len(),
        forall|i: int| 0 <= i < es@.len() ==> kept_v@[i] == kept(es@, i),
    ensures
        r.0@.len() == es@.len(),
        r.1@.len() == es@.len(),
        forall|i: int| 0 <= i < es@.len() ==> r.0@[i] == is_root(es@, i),
        forall|i: int|
            0 <= i < es@.len() && is_root(es@, i) ==> r.1@[i] as int == first_root(
                es@,
                prop_of(es@, i),
                i + 1,
            ),
{
    let n = es.len();
    let mut root: Vec<bool> = Vec::new();
    let mut cls: Vec<usize> = Vec::new();
    for i in 0..n
        invariant
            n == es@.len(),
            kept_v@.len() == n,
            forall|i: int| 0 <= i < es@.len() ==> kept_v@[i] == kept(es@, i),
            root@.len() == i,
            cls@.len() == i,
            forall|j: int| 0 <= j < i ==> root@[j] == is_root(es@, j),
            forall|j: int|
                0 <= j < i && is_root(es@, j) ==> cls@[j] as int == first_root(es@, prop_of(es@, j), j + 1),
    {
        let is_r = kept_v[i] && es[i].refines.is_none();
        root.push(is_r);
        let mut c: usize = i;
        if is_r {
            let ghost p = prop_of(es@, i as int);
            let mut j: usize = 0;
            while j < i && !(root[j] && str_eq(es[j].data.property.as_str(), es[i].data.property.as_str()))
                invariant
                    j <= i,
                    i < n,
                    n == es@.len(),
                    root@.len() == i + 1,
                    forall|j: int| 0 <= j <= i ==> root@[j] == is_root(es@, j),
                    p == prop_of(es@, i as int),
                    is_root(es@, i as int),
                    first_root(es@, p, j as int) == -1,
                decreases i - j,
            {
                proof {
                    assert(root@[j as int] == is_root(es@, j as int));
                }
                j = j + 1;
            }
            proof {
                assert(root@[j as int] == is_root(es@, j as int));
                assert(first_root(es@, p, j + 1) == j);
                lemma_first_root_mono(es@, p, j + 1, i + 1);
            }
            c = j;
        }
        cls.push(c);
    }
    (root, cls)
}

/// The group keys: the roots that come first with their property, in document order.
fn group_keys(root: &Vec<bool>, cls: &Vec<usize>, Ghost(es): Ghost<Seq<ParsedMeta>>) -> (r: Vec<usize>)
    requires
        root@.len() == es.len(),
        cls@.len() == es.len(),
        forall|i: int| 0 <= i < es.len() ==> root@[i] == is_root(es, i),
        forall|i: int|
            0 <= i < es.len() && is_root(es, i) ==> cls@[i] as int == first_root(es, prop_of(es, i), i + 1),
    ensures
        r@ == root_keys(es, es.len() as int),
{
    let n = root.len();
    let mut r: Vec<usize> = Vec::new();
    for i in 0..n
        invariant
            n == es.len(),
            root@.len() == n,
            cls@.len() == n,
            forall|i: int| 0 <= i < es.len() ==> root@[i] == is_root(es, i),
            forall|i: int|
                0 <= i < es.len() && is_root(es, i) ==> cls@[i] as int == first_root(es, prop_of(es, i), i + 1),
            r@ == root_keys(es, i as int),
    {
        proof {
            if root@[i as int] {
                assert(is_root(es, i as int));
                lemma_first_root(es, prop_of(es, i as int), i as int);
                assert(cls@[i as int] as int == first_root(es, prop_of(es, i as int), i + 1));
            }
        }
        if root[i] && cls[i] == i {
            r.push(i);
        }
        proof {
            assert(root_keys(es, i + 1) == (if is_root(es, i as int) && first_root(es, prop_of(es, i as int), i as int) < 0 {
                root_keys(es, i as int).push(i)
            } else {
                root_keys(es, i as int)
            }));
        }
    }
    r
}

/// For each root, the position of its group among the keys.
fn group_index(root: &Vec<bool>, cls: &Vec<usize>, keys: &Vec<usize>, Ghost(es): Ghost<Seq<ParsedMeta>>) -> (r: Vec<usize>)
    requires
        root@.len() == es.len(),
        cls@.len() == es.len(),
        forall|i: int| 0 <= i < es.len() ==> root@[i] == is_root(es, i),
        forall|i: int|
            0 <= i < es.len() && is_root(es, i) ==> cls@[i] as int == first_root(es, prop_of(es, i), i + 1),
        keys@ == root_keys(es, es.len() as int),
    ensures
        r@.len() == es.len(),
        forall|i: int|
            0 <= i < es.len() && is_root(es, i) ==> r@[i] < keys@.len() && prop_of(es, keys@[r@[i] as int] as int)
                == prop_of(es, i),
{
    let n = root.len();
    let mut r: Vec<usize> = Vec::new();
    proof {
        lemma_root_keys(es, es.len() as int);
    }
    for i in 0..n
        invariant
            n == es.len(),
            root@.len() == n,
            cls@.len() == n,
            forall|i: int| 0 <= i < es.len() ==> root@[i] == is_root(es, i),
            forall|i: int|
                0 <= i < es.len() && is_root(es, i) ==> cls@[i] as int == first_root(es, prop_of(es, i), i + 1),
            keys@ == root_keys(es, es.len() as int),
            forall|t: int|
                0 <= t < keys@.len() ==> (#[trigger] keys@[t]) < n && is_root(es, keys@[t] as int) && first_root(
                    es,
                    prop_of(es, keys@[t] as int),
                    keys@[t] as int,
                ) < 0,
            forall|i: int|
                0 <= i < n && is_root(es, i) && first_root(es, prop_of(es, i), i) < 0 ==> exists|t: int|
                    0 <= t < keys@.len() && #[trigger] keys@[t] == i,
            r@.len() == i,
            forall|j: int|
                0 <= j < i && is_root(es, j) ==> r@[j] < keys@.len() && prop_of(es, keys@[r@[j] as int] as int)
                    == prop_of(es, j),
    {
        let mut t: usize = 0;
        if root[i] {
            let c = cls[i];
            proof {
                let p = prop_of(es, i as int);
                assert(root@[i as int] == is_root(es, i as int));
                assert(cls@[i as int] as int == first_root(es, p, i + 1));
                lemma_first_root(es, p, i + 1);
                assert(c <= i);
                lemma_first_root(es, p, c as int);
                assert(is_root(es, c as int) && prop_of(es, c as int) == p);
                assert(first_root(es, prop_of(es, c as int), c as int) < 0);
                assert(exists|t: int| 0 <= t < keys@.len() && #[trigger] keys@[t] == c);
            }
            while t < keys.len() && keys[t] != c
                invariant
                    t <= keys@.len(),
                    exists|t2: int| t <= t2 < keys@.len() && #[trigger] keys@[t2] == c,
                decreases keys@.len() - t,
            {
                t = t + 1;
            }
        }
        r.push(t);
    }
    r
}

/// The set-aside refinements of entries outside the metadata, each with the `id` it
/// refines, until the manifest and spine claim them.
pub struct PendingRefinements {
    entries: Vec<(String, EpubMetaEntryData)>,
}

/// The entries of `q` set aside for `key`, in order.
pub open spec fn pending_for(q: Seq<(String, EpubMetaEntryData)>, key: Seq<char>) -> Seq<EpubMetaEntryData>
    decreases q.len(),
{
    if q.len() == 0 {
        Seq::empty()
    } else {
        let r = pending_for(q.drop_last(), key);
        if q.last().0@ == key {
            r.push(q.last().1)
        } else {
            r
        }
    }
}

/// The entries of `q` set aside for other keys than `key`, in order.
pub open spec fn pending_without(q: Seq<(String, EpubMetaEntryData)>, key: Seq<char>) -> Seq<(String, EpubMetaEntryData)>
    decreases q.len(),
{
    if q.len() == 0 {
        Seq::empty()
    } else {
        let r = pending_without(q.drop_last(), key);
        if q.last().0@ == key {
            r
        } else {
            r.push(q.last())
        }
    }
}

impl PendingRefinements {
    /// The set-aside entries with the `id` each refines, in order.
    pub closed spec fn entries(&self) -> Seq<(String, EpubMetaEntryData)> {
        self.entries@
    }

    /// Nothing set aside.
    pub fn new() -> (r: Self)
        ensures
            r.entries().len() == 0,
    {
        PendingRefinements { entries: Vec::new() }
    }

    /// Removes and returns, in order, the refinements set aside for `parent_id`; `None`
    /// when there are none.
    pub fn take_refinements(&mut self, parent_id: &str) -> (r: Option<EpubRefinementsData>)
        ensures
            pending_for(old(self).entries(), parent_id@).len() == 0 ==> r is None && final(self).entries()
                == old(self).entries(),
            pending_for(old(self).entries(), parent_id@).len() > 0 ==> (r matches Some(d) && d.0@
                == pending_for(old(self).entries(), parent_id@) && final(self).entries() == pending_without(
                old(self).entries(),
                parent_id@,
            )),
    {
        let ghost orig = self.entries@;
        let mut rest: Vec<(String, EpubMetaEntryData)> = Vec::new();
        std::mem::swap(&mut rest, &mut self.entries);
        let mut taken: Vec<EpubMetaEntryData> = Vec::new();
        let mut kept_back: Vec<(String, EpubMetaEntryData)> = Vec::new();
        let n = rest.len();
        let mut k: usize = 0;
        while rest.len() > 0
            invariant
                n == orig.len(),
                k + rest@.len() == n,
                rest@ == orig.skip(k as int),
                taken@ == pending_for(orig.take(k as int), parent_id@),
                kept_back@ == pending_without(orig.take(k as int), parent_id@),
            decreases rest@.len(),
        {
            let e = rest.remove(0);
            proof {
                assert(e == orig[k as int]);
                assert(orig.take(k + 1).drop_last() =~= orig.take(k as int));
                assert(orig.take(k + 1).last() == e);
                assert(rest@ =~= orig.skip(k + 1));
            }
            if str_eq(e.0.as_str(), parent_id) {
                taken.push(e.1);
            } else {
                kept_back.push(e);
            }
            k = k + 1;
        }
        proof {
            assert(orig.take(n as int) =~= orig);
        }
        if taken.len() == 0 {
            proof {
                lemma_pending_split(orig, parent_id@);
            }
            self.entries = kept_back;
            None
        } else {
            self.entries = kept_back;
            Some(EpubRefinementsData(taken))
        }
    }
}

/// With nothing set aside for `key`, nothing is removed.
proof fn lemma_pending_split(q: Seq<(String, EpubMetaEntryData)>, key: Seq<char>)
    requires
        pending_for(q, key).len() == 0,
    ensures
        pending_without(q, key) == q,
    decreases q.len(),
{
    if q.len() > 0 {
        let r = pending_for(q.drop_last(), key);
        if q.last().0@ == key {
            assert(pending_for(q, key).len() == r.len() + 1);
        } else {
            lemma_pending_split(q.drop_last(), key);
            assert(q.drop_last().push(q.last()) =~= q);
        }
    }
}

/// Removes the vector at `i`, leaving an empty one.
fn take_group<T>(v: &mut Vec<Vec<T>>, i: usize) -> (r: Vec<T>)
    requires
        i < old(v)@.len(),
    ensures
        r == old(v)@[i as int],
        final(v)@.len() == old(v)@.len(),
        final(v)@[i as int]@.len() == 0,
        forall|j: int| 0 <= j < old(v)@.len() && j != i ==> final(v)@[j] == old(v)@[j],
{
    let mut r: Vec<T> = Vec::new();
    std::mem::swap(&mut r, &mut v[i]);
    r
}

/// A top-level entry (depth 0) is a root or an orphan, and nothing deeper is either.
proof fn lemma_top_level(es: Seq<ParsedMeta>, c: int)
    requires
        kept(es, c),
    ensures
        depth(es, c) == 0 <==> parent_of(es, c) < 0,
        is_root(es, c) ==> depth(es, c) == 0,
        depth(es, c) == 0 ==> (is_root(es, c) || is_orphan(es, c)),
        depth(es, c) != 0 ==> !is_root(es, c) && !is_orphan(es, c),
{
}

/// The lists `gs` hold, for each group key, the trees of its members among the first
/// `k` entries of `u`.
#[verifier::opaque]
spec fn groups_inv(es: Seq<ParsedMeta>, u: Seq<usize>, keys: Seq<usize>, gs: Seq<Vec<EpubMetaEntryData>>, k: int) -> bool {
    &&& gs.len() == keys.len()
    &&& forall|t: int|
        0 <= t < keys.len() ==> {
            let ms = members_upto(es, u, prop_of(es, #[trigger] keys[t] as int), k);
            &&& gs[t]@.len() == ms.len()
            &&& forall|m: int| 0 <= m < ms.len() ==> is_tree(es, u, #[trigger] gs[t]@[m], ms[m] as int, es.len() as nat)
        }
}

/// The pending list holds the trees of the orphans among the first `k` entries of `u`.
#[verifier::opaque]
spec fn pending_inv(es: Seq<ParsedMeta>, u: Seq<usize>, pd: Seq<(String, EpubMetaEntryData)>, k: int) -> bool {
    let os = orphans_upto(es, u, k);
    &&& pd.len() == os.len()
    &&& forall|m: int|
        0 <= m < pd.len() ==> {
            &&& Some((#[trigger] pd[m]).0@) == meta_refines(es[os[m] as int])
            &&& is_tree(es, u, pd[m].1, os[m] as int, es.len() as nat)
        }
}

/// The top-level slots not among the first `k` entries of `u` still hold their trees,
/// and their `refines` values are in place.
#[verifier::opaque]
spec fn slots_inv(
    es: Seq<ParsedMeta>,
    u: Seq<usize>,
    sl: Seq<Option<EpubMetaEntryData>>,
    rf: Seq<Option<String>>,
    k: int,
) -> bool {
    &&& sl.len() == es.len()
    &&& rf.len() == es.len()
    &&& forall|j: int|
        kept(es, j) && depth(es, j) == 0 && (forall|m: int| 0 <= m < k ==> #[trigger] u[m] != j) ==> (
        #[trigger] sl[j] matches Some(x) && is_tree(es, u, x, j, es.len() as nat))
    &&& forall|j: int|
        0 <= j < es.len() && (forall|m: int| 0 <= m < k ==> #[trigger] u[m] != j) ==> #[trigger] rf[j]
            == es[j].refines
}

proof fn lemma_groups_root_step(
    es: Seq<ParsedMeta>,
    u: Seq<usize>,
    keys: Seq<usize>,
    gs: Seq<Vec<EpubMetaEntryData>>,
    gs2: Seq<Vec<EpubMetaEntryData>>,
    k: int,
    t: int,
    x: EpubMetaEntryData,
)
    requires
        es.len() <= usize::MAX,
        keys == root_keys(es, es.len() as int),
        groups_inv(es, u, keys, gs, k),
        0 <= k < u.len(),
        is_root(es, u[k] as int),
        0 <= t < keys.len(),
        prop_of(es, keys[t] as int) == prop_of(es, u[k] as int),
        is_tree(es, u, x, u[k] as int, es.len() as nat),
        gs2.len() == gs.len(),
        gs2[t]@ == gs[t]@.push(x),
        forall|j: int| 0 <= j < gs.len() && j != t ==> gs2[j] == gs[j],
    ensures
        groups_inv(es, u, keys, gs2, k + 1),
{
    reveal(groups_inv);
    assert forall|t2: int| 0 <= t2 < keys.len() implies {
        let ms = members_upto(es, u, prop_of(es, #[trigger] keys[t2] as int), k + 1);
        &&& gs2[t2]@.len() == ms.len()
        &&& forall|m: int| 0 <= m < ms.len() ==> is_tree(es, u, #[trigger] gs2[t2]@[m], ms[m] as int, es.len() as nat)
    } by {
        let p2 = prop_of(es, keys[t2] as int);
        if t2 == t {
            assert(members_upto(es, u, p2, k + 1) == members_upto(es, u, p2, k).push(u[k]));
            assert forall|m: int| 0 <= m < members_upto(es, u, p2, k + 1).len() implies is_tree(
                es,
                u,
                #[trigger] gs2[t2]@[m],
                members_upto(es, u, p2, k + 1)[m] as int,
                es.len() as nat,
            ) by {
                if m < gs[t2]@.len() {
                    assert(gs2[t2]@[m] == gs[t2]@[m]);
                }
            }
        } else {
            if t2 < t {
                lemma_root_keys_distinct(es, t2, t);
            } else {
                lemma_root_keys_distinct(es, t, t2);
            }
            assert(members_upto(es, u, p2, k + 1) == members_upto(es, u, p2, k));
        }
    }
}

proof fn lemma_groups_skip(es: Seq<ParsedMeta>, u: Seq<usize>, keys: Seq<usize>, gs: Seq<Vec<EpubMetaEntryData>>, k: int)
    requires
        groups_inv(es, u, keys, gs, k),
        0 <= k < u.len(),
        !is_root(es, u[k] as int),
    ensures
        groups_inv(es, u, keys, gs, k + 1),
{
    reveal(groups_inv);
    assert forall|t2: int| 0 <= t2 < keys.len() implies members_upto(
        es,
        u,
        prop_of(es, #[trigger] keys[t2] as int),
        k + 1,
    ) == members_upto(es, u, prop_of(es, keys[t2] as int), k) by {}
}

proof fn lemma_pending_step(
    es: Seq<ParsedMeta>,
    u: Seq<usize>,
    pd: Seq<(String, EpubMetaEntryData)>,
    pd2: Seq<(String, EpubMetaEntryData)>,
    k: int,
)
    requires
        pending_inv(es, u, pd, k),
        0 <= k < u.len(),
        is_orphan(es, u[k] as int) ==> pd2.len() == pd.len() + 1 && pd2.drop_last() == pd && Some(pd2.last().0@)
            == meta_refines(es[u[k] as int]) && is_tree(es, u, pd2.last().1, u[k] as int, es.len() as nat),
        !is_orphan(es, u[k] as int) ==> pd2 == pd,
    ensures
        pending_inv(es, u, pd2, k + 1),
{
    reveal(pending_inv);
    if is_orphan(es, u[k] as int) {
        assert(orphans_upto(es, u, k + 1) == orphans_upto(es, u, k).push(u[k]));
        assert forall|m: int| 0 <= m < pd2.len() implies {
            &&& Some((#[trigger] pd2[m]).0@) == meta_refines(es[orphans_upto(es, u, k + 1)[m] as int])
            &&& is_tree(es, u, pd2[m].1, orphans_upto(es, u, k + 1)[m] as int, es.len() as nat)
        } by {
            if m < pd.len() {
                assert(pd2[m] == pd2.drop_last()[m]);
            }
        }
    } else {
        assert(orphans_upto(es, u, k + 1) == orphans_upto(es, u, k));
    }
}

proof fn lemma_slots_step(
    es: Seq<ParsedMeta>,
    u: Seq<usize>,
    sl: Seq<Option<EpubMetaEntryData>>,
    rf: Seq<Option<String>>,
    sl2: Seq<Option<EpubMetaEntryData>>,
    rf2: Seq<Option<String>>,
    k: int,
)
    requires
        slots_inv(es, u, sl, rf, k),
        0 <= k < u.len(),
        sl2.len() == sl.len(),
        rf2.len() == rf.len(),
        forall|j: int| 0 <= j < sl.len() && j != u[k] ==> sl2[j] == sl[j],
        forall|j: int| 0 <= j < rf.len() && j != u[k] ==> rf2[j] == rf[j],
    ensures
        slots_inv(es, u, sl2, rf2, k + 1),
{
    reveal(slots_inv);
    assert forall|j: int|
        kept(es, j) && depth(es, j) == 0 && (forall|m: int| 0 <= m < k + 1 ==> #[trigger] u[m] != j) implies (
    #[trigger] sl2[j] matches Some(x) && is_tree(es, u, x, j, es.len() as nat)) by {
        assert(u[k] != j);
        assert(sl2[j] == sl[j]);
    }
    assert forall|j: int|
        0 <= j < es.len() && (forall|m: int| 0 <= m < k + 1 ==> #[trigger] u[m] != j) implies #[trigger] rf2[j]
        == es[j].refines by {
        assert(u[k] != j);
        assert(rf2[j] == rf[j]);
    }
}

/// The entry at position `k` of an order is not among the earlier ones, and its slot and
/// `refines` value are still in place when it is top-level.
proof fn lemma_slots_current(
    es: Seq<ParsedMeta>,
    u: Seq<usize>,
    sl: Seq<Option<EpubMetaEntryData>>,
    rf: Seq<Option<String>>,
    k: int,
)
    requires
        is_order(es, u),
        slots_inv(es, u, sl, rf, k),
        0 <= k < u.len(),
    ensures
        depth(es, u[k] as int) == 0 ==> (sl[u[k] as int] matches Some(x) && is_tree(es, u, x, u[k] as int, es.len() as nat)),
        rf[u[k] as int] == es[u[k] as int].refines,
{
    reveal(slots_inv);
    let c = u[k];
    assert forall|m: int| 0 <= m < k implies #[trigger] u[m] != c by {
        assert(key_lt(es, u[m] as int, u[k] as int));
    }
}

/// Moves the top-level trees out of their slots, in the order `u`: roots into the list
/// of their group, orphans (with the `id` they refine) into the pending list.
fn distribute(
    slots: &mut Vec<Option<EpubMetaEntryData>>,
    refs: &mut Vec<Option<String>>,
    u: &Vec<usize>,
    dep: &Vec<usize>,
    root: &Vec<bool>,
    gidx: &Vec<usize>,
    keys: &Vec<usize>,
    Ghost(es): Ghost<Seq<ParsedMeta>>,
) -> (r: (Vec<Vec<EpubMetaEntryData>>, Vec<(String, EpubMetaEntryData)>))
    requires
        es.len() <= usize::MAX,
        old(slots)@.len() == es.len(),
        old(refs)@.len() == es.len(),
        dep@.len() == es.len(),
        root@.len() == es.len(),
        gidx@.len() == es.len(),
        is_order(es, u@),
        forall|i: int| kept(es, i) ==> chain_ends(es, i) && dep@[i] == depth(es, i),
        forall|i: int| 0 <= i < es.len() ==> root@[i] == is_root(es, i),
        keys@ == root_keys(es, es.len() as int),
        forall|i: int|
            0 <= i < es.len() && is_root(es, i) ==> gidx@[i] < keys@.len() && prop_of(es, keys@[gidx@[i] as int] as int)
                == prop_of(es, i),
        forall|j: int|
            kept(es, j) && depth(es, j) == 0 ==> (#[trigger] old(slots)@[j] matches Some(x) && is_tree(
                es,
                u@,
                x,
                j,
                es.len() as nat,
            )),
        forall|j: int| 0 <= j < es.len() ==> #[trigger] old(refs)@[j] == es[j].refines,
    ensures
        r.0@.len() == keys@.len(),
        forall|t: int|
            0 <= t < keys@.len() ==> {
                let ms = members_upto(es, u@, prop_of(es, #[trigger] keys@[t] as int), u@.len() as int);
                &&& r.0@[t]@.len() == ms.len()
                &&& forall|m: int| 0 <= m < ms.len() ==> is_tree(es, u@, #[trigger] r.0@[t]@[m], ms[m] as int, es.len() as nat)
            },
        pending_built(es, u@, r.1@),
{
    let mut groups: Vec<Vec<EpubMetaEntryData>> = Vec::new();
    for t in 0..keys.len()
        invariant
            groups@.len() == t,
            forall|j: int| 0 <= j < t ==> (#[trigger] groups@[j])@.len() == 0,
    {
        groups.push(Vec::new());
    }
    let mut pending: Vec<(String, EpubMetaEntryData)> = Vec::new();
    proof {
        reveal(groups_inv);
        reveal(pending_inv);
        reveal(slots_inv);
    }
    let mut k: usize = 0;
    while k < u.len()
        invariant
            es.len() <= usize::MAX,
            dep@.len() == es.len(),
            root@.len() == es.len(),
            gidx@.len() == es.len(),
            is_order(es, u@),
            forall|i: int| kept(es, i) ==> chain_ends(es, i) && dep@[i] == depth(es, i),
            forall|i: int| 0 <= i < es.len() ==> root@[i] == is_root(es, i),
            keys@ == root_keys(es, es.len() as int),
            forall|i: int|
                0 <= i < es.len() && is_root(es, i) ==> gidx@[i] < keys@.len() && prop_of(es, keys@[gidx@[i] as int] as int)
                    == prop_of(es, i),
            k <= u@.len(),
            slots@.len() == es.len(),
            refs@.len() == es.len(),
            slots_inv(es, u@, slots@, refs@, k as int),
            groups_inv(es, u@, keys@, groups@, k as int),
            pending_inv(es, u@, pending@, k as int),
        decreases u@.len() - k,
    {
        let c = u[k];
        let ghost sl = slots@;
        let ghost rf = refs@;
        let ghost gs = groups@;
        let ghost pd = pending@;
        proof {
            assert(kept(es, c as int));
            lemma_top_level(es, c as int);
            lemma_slots_current(es, u@, sl, rf, k as int);
        }
        if dep[c] == 0 {
            let x = take_slot(slots, c).unwrap();
            if root[c] {
                let t = gidx[c];
                proof {
                    reveal(groups_inv);
                }
                let mut g = take_group(&mut groups, t);
                g.push(x);
                groups.set(t, g);
                proof {
                    lemma_groups_root_step(es, u@, keys@, gs, groups@, k as int, t as int, x);
                    lemma_pending_step(es, u@, pd, pending@, k as int);
                }
            } else {
                let r = take_slot(refs, c).unwrap();
                pending.push((r, x));
                proof {
                    lemma_groups_skip(es, u@, keys@, gs, k as int);
                    assert(pending@.drop_last() == pd);
                    lemma_pending_step(es, u@, pd, pending@, k as int);
                }
            }
        } else {
            proof {
                lemma_groups_skip(es, u@, keys@, gs, k as int);
                lemma_pending_step(es, u@, pd, pending@, k as int);
            }
        }
        proof {
            lemma_slots_step(es, u@, sl, rf, slots@, refs@, k as int);
        }
        k = k + 1;
    }
    proof {
        reveal(groups_inv);
        reveal(pending_inv);
    }
    (groups, pending)
}

/// Arranges the metadata entries, given in document order: an entry replaces an earlier
/// one with the same `id`; each entry that refines another is nested under it; entries
/// are ordered by display sequence and then document order; the entries that refine
/// nothing are grouped by property (groups in order of first appearance); and the
/// entries that refine an `id` outside the metadata are set aside. A chain of
/// refinements that loops is refused, naming an entry on the loop.
pub fn organize_metadata(entries: Vec<ParsedMeta>) -> (r: Result<(EpubMetadataData, PendingRefinements), EpubError>)
    ensures
        (forall|i: int| kept(entries@, i) ==> chain_ends(entries@, i)) <==> r is Ok,
        r matches Err(e) ==> (e matches EpubError::CyclicMeta(x) && exists|j: int|
            kept(entries@, j) && on_cycle(entries@, j) && meta_id(entries@[j]) == Some(x@)),
        r matches Ok((md, pending)) ==> exists|u: Seq<usize>|
            is_order(entries@, u) && groups_built(entries@, u, md.groups()) && pending_built(
                entries@,
                u,
                pending.entries(),
            ),
{
    let ghost es = entries@;
    let n = entries.len();
    let kept_v = kept_flags(&entries);
    let parent = parent_indices(&entries);
    let dep = match depths(&entries, &kept_v, &parent) {
        Ok(d) => d,
        Err(z) => {
            let x = match &entries[z].id {
                Some(x) => x.clone(),
                None => String::new(),
            };
            return Err(EpubError::CyclicMeta(x));
        },
    };
    let ds = display_seqs(&entries, &kept_v, &parent);
    let u = order(&kept_v, &ds, Ghost(es));
    let (root, cls) = root_classes(&entries, &kept_v);
    let keys = group_keys(&root, &cls, Ghost(es));
    let gidx = group_index(&root, &cls, &keys, Ghost(es));
    let mut names: Vec<String> = Vec::new();
    proof {
        lemma_root_keys(es, es.len() as int);
    }
    for t in 0..keys.len()
        invariant
            n == es.len(),
            entries@ == es,
            keys@ == root_keys(es, es.len() as int),
            forall|t: int| 0 <= t < keys@.len() ==> (#[trigger] keys@[t]) < n,
            names@.len() == t,
            forall|j: int| 0 <= j < t ==> (#[trigger] names@[j])@ == prop_of(es, keys@[j] as int),
    {
        names.push(entries[keys[t]].data.property.clone());
    }
    let mut maxd: usize = 0;
    for i in 0..n
        invariant
            n == es.len(),
            kept_v@.len() == n,
            forall|i: int| 0 <= i < es.len() ==> kept_v@[i] == kept(es, i),
            dep@.len() == n,
            forall|i: int| kept(es, i) ==> chain_ends(es, i) && dep@[i] == depth(es, i),
            forall|j: int| 0 <= j < i && kept(es, j) ==> depth(es, j) <= maxd,
    {
        if kept_v[i] && dep[i] > maxd {
            maxd = dep[i];
        }
    }
    let (mut slots, mut refs) = into_slots(entries);
    nest(&mut slots, &u, &dep, &parent, maxd, Ghost(es));
    let (mut groups, pending) = distribute(&mut slots, &mut refs, &u, &dep, &root, &gidx, &keys, Ghost(es));
    let ghost g0 = groups@;
    let mut md = EpubMetadataData::empty();
    for t in 0..keys.len()
        invariant
            es.len() <= usize::MAX,
            keys@ == root_keys(es, es.len() as int),
            names@.len() == keys@.len(),
            forall|j: int| 0 <= j < keys@.len() ==> (#[trigger] names@[j])@ == prop_of(es, keys@[j] as int),
            groups@.len() == keys@.len(),
            g0.len() == keys@.len(),
            forall|j: int| t <= j < keys@.len() ==> #[trigger] groups@[j] == g0[j],
            md.groups().len() == t,
            forall|j: int|
                0 <= j < t ==> (#[trigger] md.groups()[j]).0 == prop_of(es, keys@[j] as int) && md.groups()[j].1
                    == g0[j]@,
    {
        let g = take_group(&mut groups, t);
        proof {
            lemma_group_pos(md.groups(), names@[t as int]@);
            if group_pos(md.groups(), names@[t as int]@) >= 0 {
                let j = group_pos(md.groups(), names@[t as int]@);
                lemma_root_keys_distinct(es, j, t as int);
            }
        }
        md.push_group(names[t].clone(), g);
    }
    proof {
        assert(groups_built(es, u@, md.groups()));
    }
    Ok((md, PendingRefinements { entries: pending }))
}

} // verus!
