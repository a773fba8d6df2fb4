//! Properties that hold across the operations of the library.
use vstd::prelude::*;
use crate::element::{TextDirection, insert_keyed, spec_direction_of, spec_direction_str};
use crate::groups::{has_no_event, is_publication, lemma_first_where, published_index};
use crate::groups::{distinct_keys, group_of, group_pos, lemma_group_pos, push_entry};
use crate::keyed::{key_index, lemma_key_index, Keyed};
use crate::manifest::{
    checked_ref, distinct_ids, fallback_pos, id_updated, id_pos, ids_of, is_fallback_chain, lemma_distinct_bound, lemma_id_pos,
    references_checked, EpubManifestEntryData,
};
use crate::metadata::{
    EpubMetaEntryData, EpubVersion, Version, spec_as_major, spec_epub_version, spec_version,
};
use crate::options::{LinearBehavior, positions_where, reading_order_spec};
use crate::metadata::{TitleKind, property_index, spec_title_kind, spec_title_kind_str};
use crate::metawrite::{is_plain, meta3, without_property};
use crate::entries::contributor_roles;
use crate::metadata::{attr_value, property_indices};
use crate::entries::{title_kind, identifier_scheme, refinement_scheme};
use crate::consts;
use crate::manifest::spec_infer_media_type;
use crate::uri;
use crate::spine::EpubSpineEntryData;
use crate::toc::{lemma_toc_pos, toc_pos, with_root, EpubTocEntryData, EpubTocKey};
use crate::text::opt_string_view;
use crate::element::{has_prop, insert_prop, insert_props, lemma_insert_props_grows};
use crate::text::{
    first_non_ws, first_ws, is_ws, lemma_first_non_ws, lemma_first_ws, lemma_first_ws_at, lemma_first_ws_none,
    lemma_words_append, lemma_words_shape, lemma_words_single, no_ws, words,
};

verus! {

/// A text direction survives a round trip through its string form.
pub proof fn law_direction_round_trip(d: TextDirection)
    ensures
        spec_direction_of(spec_direction_str(d)) == d,
{
}

/// Reducing a version to its major form twice is the same as once, and the major form
/// has minor number `0` and the same major number.
pub proof fn law_as_major_idempotent(v: EpubVersion)
    ensures
        spec_as_major(spec_as_major(v)) == spec_as_major(v),
        spec_version(spec_as_major(v)).1 == 0,
        spec_version(spec_as_major(v)).0 == spec_version(v).0 || !(v is Unknown),
{
}

/// Classifying a version keeps its number.
pub proof fn law_classification_keeps_version(x: Version)
    ensures
        spec_version(spec_epub_version(x)) == x,
        spec_epub_version(x) is Epub2 <==> x.0 == 2,
        spec_epub_version(x) is Epub3 <==> x.0 == 3,
{
}

/// After inserting a keyed item, looking its key up finds it; every other key finds
/// what it found before.
pub proof fn law_keyed_insert_then_lookup<T: Keyed>(s: Seq<T>, a: T, k: Seq<char>)
    ensures
        ({
            let t = insert_keyed(s, a);
            let i = key_index(t, a.spec_key());
            i >= 0 && t[i] == a
        }),
        k != a.spec_key() ==> ({
            let t = insert_keyed(s, a);
            (key_index(t, k) >= 0) == (key_index(s, k) >= 0) && (key_index(s, k) >= 0 ==> t[key_index(t, k)]
                == s[key_index(s, k)])
        }),
{
    let t = insert_keyed(s, a);
    lemma_key_index(s, a.spec_key());
    lemma_key_index(s, k);
    lemma_key_index(t, a.spec_key());
    lemma_key_index(t, k);
    let i = key_index(s, a.spec_key());
    if i >= 0 {
        assert(t[i].spec_key() == a.spec_key());
        assert(key_index(t, a.spec_key()) == i);
    } else {
        assert(t[s.len() as int] == a);
        assert(key_index(t, a.spec_key()) == s.len());
    }
    if k != a.spec_key() {
        let j = key_index(s, k);
        if j >= 0 {
            assert(t[j] == s[j]);
            assert(key_index(t, k) == j);
        } else {
            assert forall|x: int| 0 <= x < t.len() implies t[x].spec_key() != k by {
                if x < s.len() && x != i {
                    assert(t[x] == s[x]);
                }
            }
        }
    }
}

/// Inserting a keyed item into items with distinct keys keeps the keys distinct.
pub proof fn law_keyed_insert_keeps_keys_distinct<T: Keyed>(s: Seq<T>, a: T)
    requires
        forall|x: int, y: int| 0 <= x < y < s.len() ==> s[x].spec_key() != s[y].spec_key(),
    ensures
        ({
            let t = insert_keyed(s, a);
            forall|x: int, y: int| 0 <= x < y < t.len() ==> t[x].spec_key() != t[y].spec_key()
        }),
{
    lemma_key_index(s, a.spec_key());
}

/// Once the item with a key is removed from items with distinct keys, the key is no
/// longer found.
pub proof fn law_keyed_remove_then_absent<T: Keyed>(s: Seq<T>, k: Seq<char>)
    requires
        forall|x: int, y: int| 0 <= x < y < s.len() ==> s[x].spec_key() != s[y].spec_key(),
        key_index(s, k) >= 0,
    ensures
        key_index(s.remove(key_index(s, k)), k) == -1,
{
    let i = key_index(s, k);
    let t = s.remove(i);
    lemma_key_index(s, k);
    lemma_key_index(t, k);
    if key_index(t, k) >= 0 {
        let m = key_index(t, k);
        let x = if m < i { m } else { m + 1 };
        assert(t[m] == s[x]);
    }
}

/// Pushing a metadata entry appends it to the group of its property and leaves every
/// other group as it was.
pub proof fn law_push_then_by_property(
    g: Seq<(Seq<char>, Seq<EpubMetaEntryData>)>,
    e: EpubMetaEntryData,
    p: Seq<char>,
)
    requires
        distinct_keys(g),
    ensures
        group_of(push_entry(g, e), e.property@) == group_of(g, e.property@).push(e),
        p != e.property@ ==> group_of(push_entry(g, e), p) == group_of(g, p),
        distinct_keys(push_entry(g, e)),
{
    let h = push_entry(g, e);
    lemma_group_pos(g, e.property@);
    lemma_group_pos(g, p);
    lemma_group_pos(h, e.property@);
    lemma_group_pos(h, p);
    let i = group_pos(g, e.property@);
    if i >= 0 {
        assert(h[i].0 == e.property@);
        assert(group_pos(h, e.property@) == i);
    } else {
        assert(h[g.len() as int].0 == e.property@);
        assert(group_pos(h, e.property@) == g.len());
        assert(group_of(g, e.property@) =~= Seq::<EpubMetaEntryData>::empty());
        assert(group_of(h, e.property@) =~= seq![e]);
    }
    if p != e.property@ {
        let j = group_pos(g, p);
        if j >= 0 {
            assert(h[j] == g[j]);
            assert(group_pos(h, p) == j);
        } else {
            assert forall|x: int| 0 <= x < h.len() implies h[x].0 != p by {
                if x < g.len() && x != i {
                    assert(h[x] == g[x]);
                }
            }
        }
    }
}

/// After the group of a property is removed, that property has no entries, and every
/// other group is as it was.
pub proof fn law_remove_group_then_empty(
    g: Seq<(Seq<char>, Seq<EpubMetaEntryData>)>,
    p: Seq<char>,
    q: Seq<char>,
)
    requires
        distinct_keys(g),
        group_pos(g, p) >= 0,
    ensures
        group_of(g.remove(group_pos(g, p)), p).len() == 0,
        q != p ==> group_of(g.remove(group_pos(g, p)), q) == group_of(g, q),
{
    let i = group_pos(g, p);
    let h = g.remove(i);
    lemma_group_pos(g, p);
    lemma_group_pos(g, q);
    lemma_group_pos(h, p);
    lemma_group_pos(h, q);
    if group_pos(h, p) >= 0 {
        let m = group_pos(h, p);
        let x = if m < i { m } else { m + 1 };
        assert(h[m] == g[x]);
    }
    if q != p {
        let j = group_pos(g, q);
        if j >= 0 {
            let jj = if j < i { j } else { j - 1 };
            assert(h[jj] == g[j]);
            assert forall|x: int| 0 <= x < jj implies h[x].0 != q by {
                let y = if x < i { x } else { x + 1 };
                assert(h[x] == g[y]);
            }
            assert(group_pos(h, q) == jj);
        } else {
            if group_pos(h, q) >= 0 {
                let m = group_pos(h, q);
                let y = if m < i { m } else { m + 1 };
                assert(h[m] == g[y]);
            }
        }
    }
}

proof fn lemma_positions_partition(l: Seq<bool>)
    ensures
        positions_where(l, true).len() + positions_where(l, false).len() == l.len(),
    decreases l.len(),
{
    if l.len() > 0 {
        lemma_positions_partition(l.drop_last());
    }
}

/// Every reading order that puts linear and non-linear entries apart visits each
/// spine entry once: it is as long as the spine; the filtered ones together are too.
pub proof fn law_reading_order_visits_all(l: Seq<bool>)
    ensures
        reading_order_spec(l, LinearBehavior::Original).len() == l.len(),
        reading_order_spec(l, LinearBehavior::PrependNonLinear).len() == l.len(),
        reading_order_spec(l, LinearBehavior::AppendNonLinear).len() == l.len(),
        reading_order_spec(l, LinearBehavior::LinearOnly).len() + reading_order_spec(
            l,
            LinearBehavior::NonLinearOnly,
        ).len() == l.len(),
{
    lemma_positions_partition(l);
}

/// Dropping dangling references twice is the same as once.
pub proof fn law_checked_references_idempotent(
    a: Seq<(Seq<char>, EpubManifestEntryData)>,
    b: Seq<(Seq<char>, EpubManifestEntryData)>,
    c: Seq<(Seq<char>, EpubManifestEntryData)>,
)
    requires
        references_checked(a, b),
        references_checked(b, c),
    ensures
        c == b,
{
    assert(ids_of(b) =~= ids_of(a));
    assert forall|i: int| 0 <= i < b.len() implies #[trigger] c[i] == b[i] by {
        assert(c[i].0 == b[i].0);
        assert(checked_ref(b[i].1.fallback, ids_of(b)) == b[i].1.fallback);
        assert(checked_ref(b[i].1.media_overlay, ids_of(b)) == b[i].1.media_overlay);
    }
    assert(c =~= b);
}

/// After an item gets an `id` that no item had, that `id` finds it at its position.
pub proof fn law_renamed_item_found(
    g: Seq<(Seq<char>, EpubManifestEntryData)>,
    index: int,
    new_id: Seq<char>,
    data: EpubManifestEntryData,
)
    requires
        distinct_ids(g),
        0 <= index < g.len(),
        !ids_of(g).contains(new_id),
    ensures
        id_pos(g.remove(index).insert(index, (new_id, data)), new_id) == index,
{
    let h = g.remove(index).insert(index, (new_id, data));
    lemma_id_pos(h, new_id);
    assert(h[index].0 == new_id);
    assert forall|j: int| 0 <= j < index implies h[j].0 != new_id by {
        assert(h[j] == g[j]);
        assert(ids_of(g)[j] == g[j].0);
    }
}

/// The path of an href holds neither a query nor a fragment, so taking it twice is the
/// same as once.
pub proof fn law_path_idempotent(s: Seq<char>)
    ensures
        uri::spec_path(uri::spec_path(s)) == uri::spec_path(s),
{
    crate::text::lemma_first_index_of_either(s, '?', '#');
    let i = crate::text::first_index_of_either(s, '?', '#');
    let p = uri::spec_path(s);
    crate::text::lemma_first_index_of_either(p, '?', '#');
    if crate::text::first_index_of_either(p, '?', '#') >= 0 {
        let j = crate::text::first_index_of_either(p, '?', '#');
        assert(p[j] == s[j]);
    }
}

/// Making a location absolute twice is the same as once; the result starts with `/`.
pub proof fn law_into_absolute_idempotent(s: Seq<char>)
    ensures
        uri::spec_into_absolute(uri::spec_into_absolute(s)) == uri::spec_into_absolute(s),
        uri::spec_into_absolute(s).len() > 0 && uri::spec_into_absolute(s)[0] == '/',
{
}


proof fn lemma_without_property_lacks(s: Seq<EpubMetaEntryData>, p: Seq<char>)
    ensures
        forall|i: int|
            0 <= i < without_property(s, p).len() ==> (#[trigger] without_property(s, p)[i]).property@
                != p,
    decreases s.len(),
{
    if s.len() > 0 {
        lemma_without_property_lacks(s.drop_last(), p);
        let r = without_property(s.drop_last(), p);
        if s.last().property@ != p {
            assert forall|i: int|
                0 <= i < without_property(s, p).len() implies (#[trigger] without_property(s, p)[i]).property@
                != p by {
                if i < r.len() {
                    assert(without_property(s, p)[i] == r[i]);
                }
            }
        }
    }
}

proof fn lemma_replaced_refinement_found(s: Seq<EpubMetaEntryData>, p: Seq<char>, t: Seq<EpubMetaEntryData>)
    requires
        t.len() == without_property(s, p).len() + 1,
        t.drop_last() == without_property(s, p),
        t.last().property@ == p,
    ensures
        property_index(t, p) == t.len() - 1,
{
    lemma_without_property_lacks(s, p);
    lemma_key_index(t, p);
    let w = without_property(s, p);
    assert forall|i: int| 0 <= i < t.len() - 1 implies t[i].property@ != p by {
        assert(t[i] == w[i]);
    }
    assert(t[t.len() - 1].spec_key() == p);
}

/// A title whose kind was set to a known kind reports that kind (unless it is the main
/// title, which reports `main`).
pub proof fn law_title_kind_set_then_read(
    before: EpubMetaEntryData,
    after: EpubMetaEntryData,
    k: TitleKind,
)
    requires
        spec_title_kind_str(k) is Some,
        after.refinements.0@.len() == without_property(before.refinements.0@, consts::TITLE_TYPE@).len()
            + 1,
        after.refinements.0@.drop_last() == without_property(before.refinements.0@, consts::TITLE_TYPE@),
        is_plain(after.refinements.0@.last(), meta3(), consts::TITLE_TYPE@, spec_title_kind_str(k)->0),
    ensures
        title_kind(after, false) == k,
{
    lemma_replaced_refinement_found(before.refinements.0@, consts::TITLE_TYPE@, after.refinements.0@);
    reveal_strlit("main");
    reveal_strlit("subtitle");
    reveal_strlit("short");
    reveal_strlit("collection");
    reveal_strlit("edition");
    reveal_strlit("expanded");
    let refs = after.refinements.0@;
    assert(property_index(refs, consts::TITLE_TYPE@) == refs.len() - 1);
    assert(refs[refs.len() - 1] == refs.last());
    assert(refs.last().value@ == spec_title_kind_str(k)->0);
    match k {
        TitleKind::Main => {},
        TitleKind::Subtitle => {
            assert("subtitle"@.len() != "main"@.len() || "subtitle"@[0] != "main"@[0] || "subtitle"@[1] != "main"@[1]);
            assert("subtitle"@ != "main"@);
        },
        TitleKind::Short => {
            assert("short"@.len() != "main"@.len() || "short"@[0] != "main"@[0] || "short"@[1] != "main"@[1]);
            assert("short"@ != "main"@);
            assert("short"@.len() != "subtitle"@.len() || "short"@[0] != "subtitle"@[0] || "short"@[1] != "subtitle"@[1]);
            assert("short"@ != "subtitle"@);
        },
        TitleKind::Collection => {
            assert("collection"@.len() != "main"@.len() || "collection"@[0] != "main"@[0] || "collection"@[1] != "main"@[1]);
            assert("collection"@ != "main"@);
            assert("collection"@.len() != "subtitle"@.len() || "collection"@[0] != "subtitle"@[0] || "collection"@[1] != "subtitle"@[1]);
            assert("collection"@ != "subtitle"@);
            assert("collection"@.len() != "short"@.len() || "collection"@[0] != "short"@[0] || "collection"@[1] != "short"@[1]);
            assert("collection"@ != "short"@);
        },
        TitleKind::Edition => {
            assert("edition"@.len() != "main"@.len() || "edition"@[0] != "main"@[0] || "edition"@[1] != "main"@[1]);
            assert("edition"@ != "main"@);
            assert("edition"@.len() != "subtitle"@.len() || "edition"@[0] != "subtitle"@[0] || "edition"@[1] != "subtitle"@[1]);
            assert("edition"@ != "subtitle"@);
            assert("edition"@.len() != "short"@.len() || "edition"@[0] != "short"@[0] || "edition"@[1] != "short"@[1]);
            assert("edition"@ != "short"@);
            assert("edition"@.len() != "collection"@.len() || "edition"@[0] != "collection"@[0] || "edition"@[1] != "collection"@[1]);
            assert("edition"@ != "collection"@);
        },
        TitleKind::Expanded => {
            assert("expanded"@.len() != "main"@.len() || "expanded"@[0] != "main"@[0] || "expanded"@[1] != "main"@[1]);
            assert("expanded"@ != "main"@);
            assert("expanded"@.len() != "subtitle"@.len() || "expanded"@[0] != "subtitle"@[0] || "expanded"@[1] != "subtitle"@[1]);
            assert("expanded"@ != "subtitle"@);
            assert("expanded"@.len() != "short"@.len() || "expanded"@[0] != "short"@[0] || "expanded"@[1] != "short"@[1]);
            assert("expanded"@ != "short"@);
            assert("expanded"@.len() != "collection"@.len() || "expanded"@[0] != "collection"@[0] || "expanded"@[1] != "collection"@[1]);
            assert("expanded"@ != "collection"@);
            assert("expanded"@.len() != "edition"@.len() || "expanded"@[0] != "edition"@[0] || "expanded"@[1] != "edition"@[1]);
            assert("expanded"@ != "edition"@);
        },
        TitleKind::Unknown => {},
    }
    assert(spec_title_kind(spec_title_kind_str(k)->0) == k);
}

/// An identifier whose scheme was set reports that scheme: the `scheme` attribute of
/// the new `identifier-type` refinement as source, and its value as code.
pub proof fn law_identifier_scheme_set_then_read(before: EpubMetaEntryData, after: EpubMetaEntryData)
    requires
        after.refinements.0@.len() == without_property(before.refinements.0@, consts::IDENTIFIER_TYPE@).len()
            + 1,
        after.refinements.0@.drop_last() == without_property(
            before.refinements.0@,
            consts::IDENTIFIER_TYPE@,
        ),
        after.refinements.0@.last().property@ == consts::IDENTIFIER_TYPE@,
    ensures
        identifier_scheme(after) == Some(refinement_scheme(after.refinements.0@.last())),
{
    lemma_replaced_refinement_found(
        before.refinements.0@,
        consts::IDENTIFIER_TYPE@,
        after.refinements.0@,
    );
}

/// What the archive layer holds for a location after storing content there is that
/// content; every other location holds what it held before.
pub proof fn law_overlay_read_after_write(
    s: Seq<crate::overlay::OverlayEntry>,
    e: crate::overlay::OverlayEntry,
    q: Seq<char>,
)
    ensures
        crate::overlay::lookup(insert_keyed(s, e), e.key@) == Some(e.resource),
        q != e.key@ ==> crate::overlay::lookup(insert_keyed(s, e), q) == crate::overlay::lookup(s, q),
{
    law_keyed_insert_then_lookup(s, e, q);
}


/// The fallback chain of an item is determined by the manifest: two chains of the same
/// item are the same.
pub proof fn law_fallback_chain_unique(
    g: Seq<(Seq<char>, EpubManifestEntryData)>,
    start: int,
    c1: Seq<int>,
    c2: Seq<int>,
)
    requires
        0 <= start < g.len(),
        is_fallback_chain(g, start, c1),
        is_fallback_chain(g, start, c2),
    ensures
        c1 == c2,
{
    if fallback_pos(g, start) >= 0 {
        let m = if c1.len() <= c2.len() { c1.len() } else { c2.len() };
        assert forall|k: int| 0 <= k < m implies c1[k] == c2[k] by {
            lemma_chains_agree(g, start, c1, c2, k);
        }
        lemma_chain_cannot_stop(g, start, c1, c2);
        lemma_chain_cannot_stop(g, start, c2, c1);
        assert(c1 =~= c2);
    }
}

proof fn lemma_chains_agree(g: Seq<(Seq<char>, EpubManifestEntryData)>, start: int, c1: Seq<int>, c2: Seq<int>, k: int)
    requires
        fallback_pos(g, start) >= 0,
        is_fallback_chain(g, start, c1),
        is_fallback_chain(g, start, c2),
        0 <= k < c1.len(),
        k < c2.len(),
    ensures
        c1[k] == c2[k],
    decreases k,
{
    if k > 0 {
        lemma_chains_agree(g, start, c1, c2, k - 1);
        assert(c1[k] == fallback_pos(g, c1[k - 1]));
        assert(c2[k] == fallback_pos(g, c2[k - 1]));
    }
}

/// A chain that agrees with another as far as both go is at least as long.
proof fn lemma_chain_cannot_stop(g: Seq<(Seq<char>, EpubManifestEntryData)>, start: int, a: Seq<int>, b: Seq<int>)
    requires
        fallback_pos(g, start) >= 0,
        is_fallback_chain(g, start, a),
        is_fallback_chain(g, start, b),
        forall|k: int| 0 <= k < a.len() && k < b.len() ==> a[k] == b[k],
    ensures
        a.len() >= b.len(),
{
    if a.len() < b.len() {
        let n = a.len() as int;
        let nx = fallback_pos(g, a[n - 1]);
        assert(b[n] == fallback_pos(g, b[n - 1]) && b[n] != start);
        assert(b[n - 1] == a[n - 1]);
        if nx >= 0 && nx != start {
            let j = choose|j: int| 0 <= j < n && #[trigger] a[j] == nx;
            assert(a[j] == b[j]);
            assert(b[j] != b[n]);
        }
    }
}

/// A fallback chain visits each item at most once and never the item itself, so it is
/// shorter than the manifest.
pub proof fn law_fallback_chain_bounded(g: Seq<(Seq<char>, EpubManifestEntryData)>, start: int, c: Seq<int>)
    requires
        0 <= start < g.len(),
        is_fallback_chain(g, start, c),
    ensures
        c.len() < g.len(),
{
    if c.len() > 0 {
        let seen = seq![start].add(c);
        assert forall|i: int| 0 <= i < seen.len() implies 0 <= #[trigger] seen[i] < g.len() by {
            if i > 0 {
                assert(seen[i] == c[i - 1]);
            }
        }
        assert forall|i: int, j: int| 0 <= i < j < seen.len() implies #[trigger] seen[i] != #[trigger] seen[j] by {
            assert(seen[j] == c[j - 1]);
            if i > 0 {
                assert(seen[i] == c[i - 1]);
            }
        }
        lemma_distinct_bound(seen, g.len() as int);
    }
}

proof fn lemma_insert_prop_has(s: Seq<char>, p: Seq<char>)
    requires
        p.len() > 0,
        no_ws(p),
    ensures
        has_prop(insert_prop(s, p), p),
        forall|q: Seq<char>| has_prop(s, q) ==> has_prop(insert_prop(s, p), q),
{
    if !has_prop(s, p) {
        if s.len() == 0 {
            lemma_words_single(p);
            assert(words(s) =~= Seq::<Seq<char>>::empty());
            assert(words(insert_prop(s, p))[0] == p);
        } else {
            lemma_words_append(s, p);
            let w = words(s.push(' ') + p);
            assert(w[words(s).len() as int] == p);
            assert forall|q: Seq<char>| has_prop(s, q) implies has_prop(insert_prop(s, p), q) by {
                let i = choose|i: int| 0 <= i < words(s).len() && words(s)[i] == q;
                assert(w[i] == q);
            }
        }
    }
}

proof fn lemma_insert_props_has(s: Seq<char>, ps: Seq<Seq<char>>)
    requires
        forall|i: int| 0 <= i < ps.len() ==> (#[trigger] ps[i]).len() > 0 && no_ws(ps[i]),
    ensures
        forall|i: int| 0 <= i < ps.len() ==> has_prop(insert_props(s, ps), #[trigger] ps[i]),
        forall|q: Seq<char>| has_prop(s, q) ==> has_prop(insert_props(s, ps), q),
    decreases ps.len(),
{
    if ps.len() > 0 {
        let s1 = insert_prop(s, ps[0]);
        lemma_insert_prop_has(s, ps[0]);
        let rest = ps.drop_first();
        assert forall|i: int| 0 <= i < rest.len() implies (#[trigger] rest[i]).len() > 0 && no_ws(rest[i]) by {
            assert(rest[i] == ps[i + 1]);
        }
        lemma_insert_props_has(s1, rest);
        assert forall|i: int| 0 <= i < ps.len() implies has_prop(insert_props(s, ps), #[trigger] ps[i]) by {
            if i > 0 {
                assert(ps[i] == rest[i - 1]);
            }
        }
    }
}

/// After inserting properties, each of them is present, and so is every property that
/// was present before.
pub proof fn law_insert_then_has(s: Seq<char>, properties: Seq<char>)
    ensures
        forall|q: Seq<char>| #[trigger] words(properties).contains(q) ==> has_prop(insert_props(s, words(properties)), q),
        forall|q: Seq<char>| has_prop(s, q) ==> has_prop(insert_props(s, words(properties)), q),
{
    lemma_words_shape(properties);
    lemma_insert_props_has(s, words(properties));
    assert forall|q: Seq<char>| #[trigger] words(properties).contains(q) implies has_prop(
        insert_props(s, words(properties)),
        q,
    ) by {
        let i = choose|i: int| 0 <= i < words(properties).len() && words(properties)[i] == q;
        assert(has_prop(insert_props(s, words(properties)), words(properties)[i]));
    }
}

proof fn lemma_insert_props_changes(s: Seq<char>, ps: Seq<Seq<char>>)
    requires
        forall|i: int| 0 <= i < ps.len() ==> (#[trigger] ps[i]).len() > 0 && no_ws(ps[i]),
    ensures
        (insert_props(s, ps) != s) == (exists|i: int| 0 <= i < ps.len() && !has_prop(s, #[trigger] ps[i])),
    decreases ps.len(),
{
    if ps.len() > 0 {
        let rest = ps.drop_first();
        assert forall|i: int| 0 <= i < rest.len() implies (#[trigger] rest[i]).len() > 0 && no_ws(rest[i]) by {
            assert(rest[i] == ps[i + 1]);
        }
        if has_prop(s, ps[0]) {
            lemma_insert_props_changes(s, rest);
            if exists|i: int| 0 <= i < ps.len() && !has_prop(s, #[trigger] ps[i]) {
                let i = choose|i: int| 0 <= i < ps.len() && !has_prop(s, #[trigger] ps[i]);
                assert(rest[i - 1] == ps[i]);
            }
            if exists|i: int| 0 <= i < rest.len() && !has_prop(s, #[trigger] rest[i]) {
                let i = choose|i: int| 0 <= i < rest.len() && !has_prop(s, #[trigger] rest[i]);
                assert(rest[i] == ps[i + 1]);
            }
        } else {
            let s1 = insert_prop(s, ps[0]);
            assert(s1.len() > s.len());
            lemma_insert_props_grows(s1, rest);
            assert(!has_prop(s, ps[0]));
        }
    }
}

/// Inserting properties reports `true` exactly when one of them was missing.
pub proof fn law_insert_reports_new(s: Seq<char>, properties: Seq<char>)
    ensures
        (insert_props(s, words(properties)) != s) == (exists|q: Seq<char>|
            #[trigger] words(properties).contains(q) && !has_prop(s, q)),
{
    lemma_words_shape(properties);
    let ps = words(properties);
    lemma_insert_props_changes(s, ps);
    if exists|i: int| 0 <= i < ps.len() && !has_prop(s, #[trigger] ps[i]) {
        let i = choose|i: int| 0 <= i < ps.len() && !has_prop(s, #[trigger] ps[i]);
        assert(ps.contains(ps[i]));
    }
    if exists|q: Seq<char>| #[trigger] ps.contains(q) && !has_prop(s, q) {
        let q = choose|q: Seq<char>| #[trigger] ps.contains(q) && !has_prop(s, q);
        let i = choose|i: int| 0 <= i < ps.len() && ps[i] == q;
        assert(!has_prop(s, ps[i]));
    }
}

/// A reference that is absent or names one of `ids`.
pub open spec fn ref_resolves(r: Option<String>, ids: Seq<Seq<char>>) -> bool {
    match r {
        Some(x) => ids.contains(x@),
        None => true,
    }
}

/// Every fallback and media overlay of the items names an item.
pub open spec fn item_refs_resolve(g: Seq<(Seq<char>, EpubManifestEntryData)>) -> bool {
    forall|i: int|
        0 <= i < g.len() ==> ref_resolves((#[trigger] g[i]).1.fallback, ids_of(g)) && ref_resolves(
            g[i].1.media_overlay,
            ids_of(g),
        )
}

/// Every spine entry names an item.
pub open spec fn spine_refs_resolve(s: Seq<EpubSpineEntryData>, g: Seq<(Seq<char>, EpubManifestEntryData)>) -> bool {
    forall|k: int| 0 <= k < s.len() ==> ids_of(g).contains((#[trigger] s[k]).idref@)
}

proof fn lemma_renamed_id_resolves(
    g: Seq<(Seq<char>, EpubManifestEntryData)>,
    g2: Seq<(Seq<char>, EpubManifestEntryData)>,
    index: int,
    new_id: Seq<char>,
    x: Seq<char>,
)
    requires
        0 <= index < g.len(),
        g2.len() == g.len(),
        g2[index].0 == new_id,
        forall|j: int| 0 <= j < g.len() && j != index ==> #[trigger] g2[j].0 == g[j].0,
        ids_of(g).contains(x),
    ensures
        ids_of(g2).contains(if x == g[index].0 { new_id } else { x }),
{
    if x == g[index].0 {
        assert(ids_of(g2)[index] == new_id);
    } else {
        let j = choose|j: int| 0 <= j < ids_of(g).len() && ids_of(g)[j] == x;
        assert(g[j].0 == x);
        assert(j != index);
        assert(ids_of(g2)[j] == g2[j].0);
    }
}

/// Giving an item a new `id` with its references following keeps every reference of
/// the spine and of the items resolvable, provided the item does not refer to itself
/// (its own fallback or media overlay is left as it was).
pub proof fn law_rename_keeps_references(
    g: Seq<(Seq<char>, EpubManifestEntryData)>,
    g2: Seq<(Seq<char>, EpubManifestEntryData)>,
    s: Seq<EpubSpineEntryData>,
    s2: Seq<EpubSpineEntryData>,
    m: Seq<(Seq<char>, Seq<EpubMetaEntryData>)>,
    m2: Seq<(Seq<char>, Seq<EpubMetaEntryData>)>,
    index: int,
    new_id: Seq<char>,
)
    requires
        0 <= index < g.len(),
        id_updated(g, g2, s, s2, m, m2, index, new_id, true),
        item_refs_resolve(g),
        spine_refs_resolve(s, g),
        !(opt_string_view(g[index].1.fallback) == Some(g[index].0)),
        !(opt_string_view(g[index].1.media_overlay) == Some(g[index].0)),
    ensures
        item_refs_resolve(g2),
        spine_refs_resolve(s2, g2),
{
    let old_id = g[index].0;
    let rest = g.remove(index);
    let rest2 = g2.remove(index);
    assert forall|j: int| 0 <= j < g.len() && j != index implies #[trigger] g2[j].0 == g[j].0 by {
        let j2 = if j < index { j } else { j - 1 };
        assert(rest2[j2] == g2[j]);
        assert(rest[j2] == g[j]);
    }
    assert forall|k: int| 0 <= k < s2.len() implies ids_of(g2).contains((#[trigger] s2[k]).idref@) by {
        assert(ids_of(g).contains(s[k].idref@));
        lemma_renamed_id_resolves(g, g2, index, new_id, s[k].idref@);
    }
    assert forall|i: int| 0 <= i < g2.len() implies ref_resolves((#[trigger] g2[i]).1.fallback, ids_of(g2))
        && ref_resolves(g2[i].1.media_overlay, ids_of(g2)) by {
        assert(ref_resolves(g[i].1.fallback, ids_of(g)) && ref_resolves(g[i].1.media_overlay, ids_of(g)));
        if i == index {
            match g[i].1.fallback {
                Some(x) => lemma_renamed_id_resolves(g, g2, index, new_id, x@),
                None => {},
            }
            match g[i].1.media_overlay {
                Some(x) => lemma_renamed_id_resolves(g, g2, index, new_id, x@),
                None => {},
            }
        } else {
            let i2 = if i < index { i } else { i - 1 };
            assert(rest2[i2] == g2[i]);
            assert(rest[i2] == g[i]);
            match g[i].1.fallback {
                Some(x) => lemma_renamed_id_resolves(g, g2, index, new_id, x@),
                None => {},
            }
            match g[i].1.media_overlay {
                Some(x) => lemma_renamed_id_resolves(g, g2, index, new_id, x@),
                None => {},
            }
        }
    }
}

/// `toc_pos` is the first root with the kind and version, or `-1` when there is none.
proof fn lemma_toc_pos_is(s: Seq<(EpubTocKey, EpubTocEntryData)>, kind: Seq<char>, version: EpubVersion, i: int)
    requires
        -1 <= i < s.len(),
        i >= 0 ==> s[i].0.kind@ == kind && s[i].0.version == version,
        forall|j: int| 0 <= j < s.len() && (i < 0 || j < i) ==> !((#[trigger] s[j]).0.kind@ == kind && s[j].0.version == version),
    ensures
        toc_pos(s, kind, version) == i,
{
    lemma_toc_pos(s, kind, version);
    let p = toc_pos(s, kind, version);
    if p >= 0 && i >= 0 {
        if p < i {
            assert(!(s[p].0.kind@ == kind && s[p].0.version == version));
        } else if i < p {
            assert(!(s[i].0.kind@ == kind && s[i].0.version == version));
        }
    } else if p >= 0 {
        assert(!(s[p].0.kind@ == kind && s[p].0.version == version));
    } else if i >= 0 {
        assert(!(s[i].0.kind@ == kind && s[i].0.version == version));
    }
}

/// After a root is put for a kind and version, looking that kind and version up finds
/// it; every other kind and version finds what it found before.
pub proof fn law_put_root_then_lookup(
    s: Seq<(EpubTocKey, EpubTocEntryData)>,
    key: EpubTocKey,
    root: EpubTocEntryData,
    kind: Seq<char>,
    version: EpubVersion,
)
    ensures
        ({
            let t = with_root(s, key, root);
            let p = toc_pos(t, key.kind@, key.version);
            p >= 0 && t[p].1 == root
        }),
        !(kind == key.kind@ && version == key.version) ==> ({
            let t = with_root(s, key, root);
            let q = toc_pos(s, kind, version);
            &&& toc_pos(t, kind, version) == q
            &&& q >= 0 ==> t[q] == s[q]
        }),
{
    let t = with_root(s, key, root);
    lemma_toc_pos(s, key.kind@, key.version);
    lemma_toc_pos(s, kind, version);
    let p0 = toc_pos(s, key.kind@, key.version);
    let q = toc_pos(s, kind, version);
    if p0 >= 0 {
        assert forall|j: int| 0 <= j < t.len() implies (#[trigger] t[j]).0 == s[j].0 by {}
        lemma_toc_pos_is(t, key.kind@, key.version, p0);
        lemma_toc_pos_is(t, kind, version, q);
        if q >= 0 && q == p0 {
            assert(s[q].0.kind@ == kind && s[q].0.version == version);
        }
    } else {
        let n = s.len() as int;
        assert(t[n] == (key, root));
        assert forall|j: int| 0 <= j < n implies #[trigger] t[j] == s[j] by {}
        lemma_toc_pos_is(t, key.kind@, key.version, n);
        if !(kind == key.kind@ && version == key.version) {
            lemma_toc_pos_is(t, kind, version, q);
        }
    }
}

/// The items after putting an item: in place of the one with its `id`, else at the end.
pub open spec fn items_put(
    g: Seq<(Seq<char>, EpubManifestEntryData)>,
    id: Seq<char>,
    data: EpubManifestEntryData,
) -> Seq<(Seq<char>, EpubManifestEntryData)> {
    let i = id_pos(g, id);
    if i >= 0 {
        g.update(i, (g[i].0, data))
    } else {
        g.push((id, data))
    }
}

/// After an item is put (as `insert_item` and `push` do), its `id` finds it; every other
/// `id` finds what it found before.
pub proof fn law_put_item_then_found(
    g: Seq<(Seq<char>, EpubManifestEntryData)>,
    id: Seq<char>,
    data: EpubManifestEntryData,
    other: Seq<char>,
)
    ensures
        id_pos(items_put(g, id, data), id) >= 0,
        items_put(g, id, data)[id_pos(items_put(g, id, data), id)] == (id, data),
        other != id ==> id_pos(items_put(g, id, data), other) == id_pos(g, other),
{
    let h = items_put(g, id, data);
    lemma_id_pos(g, id);
    lemma_id_pos(g, other);
    lemma_id_pos(h, id);
    lemma_id_pos(h, other);
    let i = id_pos(g, id);
    let q = id_pos(g, other);
    let ih = id_pos(h, id);
    let qh = id_pos(h, other);
    if i >= 0 {
        assert forall|j: int| 0 <= j < h.len() implies (#[trigger] h[j]).0 == g[j].0 by {}
        if ih != i {
            if ih >= 0 && ih < i {
                assert(g[ih].0 == id);
            } else {
                assert(h[i].0 == id);
            }
        }
        if other != id && qh != q {
            if qh >= 0 && (q < 0 || qh < q) {
                assert(g[qh].0 == other);
            } else if q >= 0 {
                assert(h[q].0 == other);
            }
        }
    } else {
        let n = g.len() as int;
        assert(h[n] == (id, data));
        assert forall|j: int| 0 <= j < n implies #[trigger] h[j] == g[j] by {}
        if ih != n {
            if ih >= 0 && ih < n {
                assert(g[ih].0 == id);
            } else {
                assert(h[n].0 == id);
            }
        }
        if other != id && qh != q {
            if qh >= 0 && qh < n && (q < 0 || qh < q) {
                assert(g[qh].0 == other);
            } else if q >= 0 {
                assert(h[q].0 == other);
            } else if qh == n {
                assert(h[n].0 == id);
            }
        }
    }
}
// ---------------------------------------------------------------------------
// Inferred media types, dates, roles, schemes and percent-decoding
// ---------------------------------------------------------------------------

/// The file name of `href` has the extension `e`, in any ASCII letter case.
pub open spec fn extension_is(href: Seq<char>, e: Seq<char>) -> bool {
    match uri::spec_extension(href) {
        Some(x) => crate::checks::lower_ascii(x) == e,
        None => false,
    }
}

/// An item added without a media type gets the registered media type of its file
/// extension, in any letter case: `css` gives `text/css`, `png` gives `image/png`,
/// `xhtml` gives `application/xhtml+xml`, and so on for each extension known to
/// publications.
pub proof fn law_inferred_media_types(href: Seq<char>)
    ensures
        extension_is(href, "xhtml"@) ==> spec_infer_media_type(href) == "application/xhtml+xml"@,
        extension_is(href, "xht"@) ==> spec_infer_media_type(href) == "application/xhtml+xml"@,
        extension_is(href, "html"@) ==> spec_infer_media_type(href) == "text/html"@,
        extension_is(href, "htm"@) ==> spec_infer_media_type(href) == "text/html"@,
        extension_is(href, "css"@) ==> spec_infer_media_type(href) == "text/css"@,
        extension_is(href, "js"@) ==> spec_infer_media_type(href) == "application/javascript"@,
        extension_is(href, "ncx"@) ==> spec_infer_media_type(href) == "application/x-dtbncx+xml"@,
        extension_is(href, "opf"@) ==> spec_infer_media_type(href) == "application/oebps-package+xml"@,
        extension_is(href, "smil"@) ==> spec_infer_media_type(href) == "application/smil+xml"@,
        extension_is(href, "pls"@) ==> spec_infer_media_type(href) == "application/pls+xml"@,
        extension_is(href, "xml"@) ==> spec_infer_media_type(href) == "application/xml"@,
        extension_is(href, "txt"@) ==> spec_infer_media_type(href) == "text/plain"@,
        extension_is(href, "svg"@) ==> spec_infer_media_type(href) == "image/svg+xml"@,
        extension_is(href, "png"@) ==> spec_infer_media_type(href) == "image/png"@,
        extension_is(href, "jpg"@) ==> spec_infer_media_type(href) == "image/jpeg"@,
        extension_is(href, "jpeg"@) ==> spec_infer_media_type(href) == "image/jpeg"@,
        extension_is(href, "gif"@) ==> spec_infer_media_type(href) == "image/gif"@,
        extension_is(href, "webp"@) ==> spec_infer_media_type(href) == "image/webp"@,
        extension_is(href, "avif"@) ==> spec_infer_media_type(href) == "image/avif"@,
        extension_is(href, "ttf"@) ==> spec_infer_media_type(href) == "font/ttf"@,
        extension_is(href, "otf"@) ==> spec_infer_media_type(href) == "font/otf"@,
        extension_is(href, "woff"@) ==> spec_infer_media_type(href) == "font/woff"@,
        extension_is(href, "woff2"@) ==> spec_infer_media_type(href) == "font/woff2"@,
        extension_is(href, "mp3"@) ==> spec_infer_media_type(href) == "audio/mpeg"@,
        extension_is(href, "m4a"@) ==> spec_infer_media_type(href) == "audio/mp4"@,
        extension_is(href, "ogg"@) ==> spec_infer_media_type(href) == "audio/ogg"@,
        extension_is(href, "opus"@) ==> spec_infer_media_type(href) == "audio/opus"@,
        extension_is(href, "mp4"@) ==> spec_infer_media_type(href) == "video/mp4"@,
        extension_is(href, "webm"@) ==> spec_infer_media_type(href) == "video/webm"@,
        uri::spec_extension(href) is None ==> spec_infer_media_type(href) == "application/octet-stream"@,
{
    assert(crate::manifest::media_type_for("xhtml"@) == "application/xhtml+xml"@) by {
        reveal_strlit("xhtml");
    }
    assert(crate::manifest::media_type_for("xht"@) == "application/xhtml+xml"@) by {
        reveal_strlit("xht");
        reveal_strlit("xhtml");
        assert("xht"@.len() != "xhtml"@.len());
        assert("xht"@ != "xhtml"@);
    }
    assert(crate::manifest::media_type_for("html"@) == "text/html"@) by {
        reveal_strlit("html");
        reveal_strlit("xhtml");
        assert("html"@.len() != "xhtml"@.len());
        assert("html"@ != "xhtml"@);
        reveal_strlit("xht");
        assert("html"@.len() != "xht"@.len());
        assert("html"@ != "xht"@);
    }
    assert(crate::manifest::media_type_for("htm"@) == "text/html"@) by {
        reveal_strlit("htm");
        reveal_strlit("xhtml");
        assert("htm"@.len() != "xhtml"@.len());
        assert("htm"@ != "xhtml"@);
        reveal_strlit("xht");
        assert("htm"@[0] != "xht"@[0]);
        assert("htm"@ != "xht"@);
        reveal_strlit("html");
        assert("htm"@.len() != "html"@.len());
        assert("htm"@ != "html"@);
    }
    assert(crate::manifest::media_type_for("css"@) == "text/css"@) by {
        reveal_strlit("css");
        reveal_strlit("xhtml");
        assert("css"@.len() != "xhtml"@.len());
        assert("css"@ != "xhtml"@);
        reveal_strlit("xht");
        assert("css"@[0] != "xht"@[0]);
        assert("css"@ != "xht"@);
        reveal_strlit("html");
        assert("css"@.len() != "html"@.len());
        assert("css"@ != "html"@);
        reveal_strlit("htm");
        assert("css"@[0] != "htm"@[0]);
        assert("css"@ != "htm"@);
    }
    assert(crate::manifest::media_type_for("js"@) == "application/javascript"@) by {
        reveal_strlit("js");
        reveal_strlit("xhtml");
        assert("js"@.len() != "xhtml"@.len());
        assert("js"@ != "xhtml"@);
        reveal_strlit("xht");
        assert("js"@.len() != "xht"@.len());
        assert("js"@ != "xht"@);
        reveal_strlit("html");
        assert("js"@.len() != "html"@.len());
        assert("js"@ != "html"@);
        reveal_strlit("htm");
        assert("js"@.len() != "htm"@.len());
        assert("js"@ != "htm"@);
        reveal_strlit("css");
        assert("js"@.len() != "css"@.len());
        assert("js"@ != "css"@);
    }
    assert(crate::manifest::media_type_for("ncx"@) == "application/x-dtbncx+xml"@) by {
        reveal_strlit("ncx");
        reveal_strlit("xhtml");
        assert("ncx"@.len() != "xhtml"@.len());
        assert("ncx"@ != "xhtml"@);
        reveal_strlit("xht");
        assert("ncx"@[0] != "xht"@[0]);
        assert("ncx"@ != "xht"@);
        reveal_strlit("html");
        assert("ncx"@.len() != "html"@.len());
        assert("ncx"@ != "html"@);
        reveal_strlit("htm");
        assert("ncx"@[0] != "htm"@[0]);
        assert("ncx"@ != "htm"@);
        reveal_strlit("css");
        assert("ncx"@[0] != "css"@[0]);
        assert("ncx"@ != "css"@);
        reveal_strlit("js");
        assert("ncx"@.len() != "js"@.len());
        assert("ncx"@ != "js"@);
    }
    assert(crate::manifest::media_type_for("opf"@) == "application/oebps-package+xml"@) by {
        reveal_strlit("opf");
        reveal_strlit("xhtml");
        assert("opf"@.len() != "xhtml"@.len());
        assert("opf"@ != "xhtml"@);
        reveal_strlit("xht");
        assert("opf"@[0] != "xht"@[0]);
        assert("opf"@ != "xht"@);
        reveal_strlit("html");
        assert("opf"@.len() != "html"@.len());
        assert("opf"@ != "html"@);
        reveal_strlit("htm");
        assert("opf"@[0] != "htm"@[0]);
        assert("opf"@ != "htm"@);
        reveal_strlit("css");
        assert("opf"@[0] != "css"@[0]);
        assert("opf"@ != "css"@);
        reveal_strlit("js");
        assert("opf"@.len() != "js"@.len());
        assert("opf"@ != "js"@);
        reveal_strlit("ncx");
        assert("opf"@[0] != "ncx"@[0]);
        assert("opf"@ != "ncx"@);
    }
    assert(crate::manifest::media_type_for("smil"@) == "application/smil+xml"@) by {
        reveal_strlit("smil");
        reveal_strlit("xhtml");
        assert("smil"@.len() != "xhtml"@.len());
        assert("smil"@ != "xhtml"@);
        reveal_strlit("xht");
        assert("smil"@.len() != "xht"@.len());
        assert("smil"@ != "xht"@);
        reveal_strlit("html");
        assert("smil"@[0] != "html"@[0]);
        assert("smil"@ != "html"@);
        reveal_strlit("htm");
        assert("smil"@.len() != "htm"@.len());
        assert("smil"@ != "htm"@);
        reveal_strlit("css");
        assert("smil"@.len() != "css"@.len());
        assert("smil"@ != "css"@);
        reveal_strlit("js");
        assert("smil"@.len() != "js"@.len());
        assert("smil"@ != "js"@);
        reveal_strlit("ncx");
        assert("smil"@.len() != "ncx"@.len());
        assert("smil"@ != "ncx"@);
        reveal_strlit("opf");
        assert("smil"@.len() != "opf"@.len());
        assert("smil"@ != "opf"@);
    }
    assert(crate::manifest::media_type_for("pls"@) == "application/pls+xml"@) by {
        reveal_strlit("pls");
        reveal_strlit("xhtml");
        assert("pls"@.len() != "xhtml"@.len());
        assert("pls"@ != "xhtml"@);
        reveal_strlit("xht");
        assert("pls"@[0] != "xht"@[0]);
        assert("pls"@ != "xht"@);
        reveal_strlit("html");
        assert("pls"@.len() != "html"@.len());
        assert("pls"@ != "html"@);
        reveal_strlit("htm");
        assert("pls"@[0] != "htm"@[0]);
        assert("pls"@ != "htm"@);
        reveal_strlit("css");
        assert("pls"@[0] != "css"@[0]);
        assert("pls"@ != "css"@);
        reveal_strlit("js");
        assert("pls"@.len() != "js"@.len());
        assert("pls"@ != "js"@);
        reveal_strlit("ncx");
        assert("pls"@[0] != "ncx"@[0]);
        assert("pls"@ != "ncx"@);
        reveal_strlit("opf");
        assert("pls"@[0] != "opf"@[0]);
        assert("pls"@ != "opf"@);
        reveal_strlit("smil");
        assert("pls"@.len() != "smil"@.len());
        assert("pls"@ != "smil"@);
    }
    assert(crate::manifest::media_type_for("xml"@) == "application/xml"@) by {
        reveal_strlit("xml");
        reveal_strlit("xhtml");
        assert("xml"@.len() != "xhtml"@.len());
        assert("xml"@ != "xhtml"@);
        reveal_strlit("xht");
        assert("xml"@[1] != "xht"@[1]);
        assert("xml"@ != "xht"@);
        reveal_strlit("html");
        assert("xml"@.len() != "html"@.len());
        assert("xml"@ != "html"@);
        reveal_strlit("htm");
        assert("xml"@[0] != "htm"@[0]);
        assert("xml"@ != "htm"@);
        reveal_strlit("css");
        assert("xml"@[0] != "css"@[0]);
        assert("xml"@ != "css"@);
        reveal_strlit("js");
        assert("xml"@.len() != "js"@.len());
        assert("xml"@ != "js"@);
        reveal_strlit("ncx");
        assert("xml"@[0] != "ncx"@[0]);
        assert("xml"@ != "ncx"@);
        reveal_strlit("opf");
        assert("xml"@[0] != "opf"@[0]);
        assert("xml"@ != "opf"@);
        reveal_strlit("smil");
        assert("xml"@.len() != "smil"@.len());
        assert("xml"@ != "smil"@);
        reveal_strlit("pls");
        assert("xml"@[0] != "pls"@[0]);
        assert("xml"@ != "pls"@);
    }
    assert(crate::manifest::media_type_for("txt"@) == "text/plain"@) by {
        reveal_strlit("txt");
        reveal_strlit("xhtml");
        assert("txt"@.len() != "xhtml"@.len());
        assert("txt"@ != "xhtml"@);
        reveal_strlit("xht");
        assert("txt"@[0] != "xht"@[0]);
        assert("txt"@ != "xht"@);
        reveal_strlit("html");
        assert("txt"@.len() != "html"@.len());
        assert("txt"@ != "html"@);
        reveal_strlit("htm");
        assert("txt"@[0] != "htm"@[0]);
        assert("txt"@ != "htm"@);
        reveal_strlit("css");
        assert("txt"@[0] != "css"@[0]);
        assert("txt"@ != "css"@);
        reveal_strlit("js");
        assert("txt"@.len() != "js"@.len());
        assert("txt"@ != "js"@);
        reveal_strlit("ncx");
        assert("txt"@[0] != "ncx"@[0]);
        assert("txt"@ != "ncx"@);
        reveal_strlit("opf");
        assert("txt"@[0] != "opf"@[0]);
        assert("txt"@ != "opf"@);
        reveal_strlit("smil");
        assert("txt"@.len() != "smil"@.len());
        assert("txt"@ != "smil"@);
        reveal_strlit("pls");
        assert("txt"@[0] != "pls"@[0]);
        assert("txt"@ != "pls"@);
        reveal_strlit("xml");
        assert("txt"@[0] != "xml"@[0]);
        assert("txt"@ != "xml"@);
    }
    assert(crate::manifest::media_type_for("svg"@) == "image/svg+xml"@) by {
        reveal_strlit("svg");
        reveal_strlit("xhtml");
        assert("svg"@.len() != "xhtml"@.len());
        assert("svg"@ != "xhtml"@);
        reveal_strlit("xht");
        assert("svg"@[0] != "xht"@[0]);
        assert("svg"@ != "xht"@);
        reveal_strlit("html");
        assert("svg"@.len() != "html"@.len());
        assert("svg"@ != "html"@);
        reveal_strlit("htm");
        assert("svg"@[0] != "htm"@[0]);
        assert("svg"@ != "htm"@);
        reveal_strlit("css");
        assert("svg"@[0] != "css"@[0]);
        assert("svg"@ != "css"@);
        reveal_strlit("js");
        assert("svg"@.len() != "js"@.len());
        assert("svg"@ != "js"@);
        reveal_strlit("ncx");
        assert("svg"@[0] != "ncx"@[0]);
        assert("svg"@ != "ncx"@);
        reveal_strlit("opf");
        assert("svg"@[0] != "opf"@[0]);
        assert("svg"@ != "opf"@);
        reveal_strlit("smil");
        assert("svg"@.len() != "smil"@.len());
        assert("svg"@ != "smil"@);
        reveal_strlit("pls");
        assert("svg"@[0] != "pls"@[0]);
        assert("svg"@ != "pls"@);
        reveal_strlit("xml");
        assert("svg"@[0] != "xml"@[0]);
        assert("svg"@ != "xml"@);
        reveal_strlit("txt");
        assert("svg"@[0] != "txt"@[0]);
        assert("svg"@ != "txt"@);
    }
    assert(crate::manifest::media_type_for("png"@) == "image/png"@) by {
        reveal_strlit("png");
        reveal_strlit("xhtml");
        assert("png"@.len() != "xhtml"@.len());
        assert("png"@ != "xhtml"@);
        reveal_strlit("xht");
        assert("png"@[0] != "xht"@[0]);
        assert("png"@ != "xht"@);
        reveal_strlit("html");
        assert("png"@.len() != "html"@.len());
        assert("png"@ != "html"@);
        reveal_strlit("htm");
        assert("png"@[0] != "htm"@[0]);
        assert("png"@ != "htm"@);
        reveal_strlit("css");
        assert("png"@[0] != "css"@[0]);
        assert("png"@ != "css"@);
        reveal_strlit("js");
        assert("png"@.len() != "js"@.len());
        assert("png"@ != "js"@);
        reveal_strlit("ncx");
        assert("png"@[0] != "ncx"@[0]);
        assert("png"@ != "ncx"@);
        reveal_strlit("opf");
        assert("png"@[0] != "opf"@[0]);
        assert("png"@ != "opf"@);
        reveal_strlit("smil");
        assert("png"@.len() != "smil"@.len());
        assert("png"@ != "smil"@);
        reveal_strlit("pls");
        assert("png"@[1] != "pls"@[1]);
        assert("png"@ != "pls"@);
        reveal_strlit("xml");
        assert("png"@[0] != "xml"@[0]);
        assert("png"@ != "xml"@);
        reveal_strlit("txt");
        assert("png"@[0] != "txt"@[0]);
        assert("png"@ != "txt"@);
        reveal_strlit("svg");
        assert("png"@[0] != "svg"@[0]);
        assert("png"@ != "svg"@);
    }
    assert(crate::manifest::media_type_for("jpg"@) == "image/jpeg"@) by {
        reveal_strlit("jpg");
        reveal_strlit("xhtml");
        assert("jpg"@.len() != "xhtml"@.len());
        assert("jpg"@ != "xhtml"@);
        reveal_strlit("xht");
        assert("jpg"@[0] != "xht"@[0]);
        assert("jpg"@ != "xht"@);
        reveal_strlit("html");
        assert("jpg"@.len() != "html"@.len());
        assert("jpg"@ != "html"@);
        reveal_strlit("htm");
        assert("jpg"@[0] != "htm"@[0]);
        assert("jpg"@ != "htm"@);
        reveal_strlit("css");
        assert("jpg"@[0] != "css"@[0]);
        assert("jpg"@ != "css"@);
        reveal_strlit("js");
        assert("jpg"@.len() != "js"@.len());
        assert("jpg"@ != "js"@);
        reveal_strlit("ncx");
        assert("jpg"@[0] != "ncx"@[0]);
        assert("jpg"@ != "ncx"@);
        reveal_strlit("opf");
        assert("jpg"@[0] != "opf"@[0]);
        assert("jpg"@ != "opf"@);
        reveal_strlit("smil");
        assert("jpg"@.len() != "smil"@.len());
        assert("jpg"@ != "smil"@);
        reveal_strlit("pls");
        assert("jpg"@[0] != "pls"@[0]);
        assert("jpg"@ != "pls"@);
        reveal_strlit("xml");
        assert("jpg"@[0] != "xml"@[0]);
        assert("jpg"@ != "xml"@);
        reveal_strlit("txt");
        assert("jpg"@[0] != "txt"@[0]);
        assert("jpg"@ != "txt"@);
        reveal_strlit("svg");
        assert("jpg"@[0] != "svg"@[0]);
        assert("jpg"@ != "svg"@);
        reveal_strlit("png");
        assert("jpg"@[0] != "png"@[0]);
        assert("jpg"@ != "png"@);
    }
    assert(crate::manifest::media_type_for("jpeg"@) == "image/jpeg"@) by {
        reveal_strlit("jpeg");
        reveal_strlit("xhtml");
        assert("jpeg"@.len() != "xhtml"@.len());
        assert("jpeg"@ != "xhtml"@);
        reveal_strlit("xht");
        assert("jpeg"@.len() != "xht"@.len());
        assert("jpeg"@ != "xht"@);
        reveal_strlit("html");
        assert("jpeg"@[0] != "html"@[0]);
        assert("jpeg"@ != "html"@);
        reveal_strlit("htm");
        assert("jpeg"@.len() != "htm"@.len());
        assert("jpeg"@ != "htm"@);
        reveal_strlit("css");
        assert("jpeg"@.len() != "css"@.len());
        assert("jpeg"@ != "css"@);
        reveal_strlit("js");
        assert("jpeg"@.len() != "js"@.len());
        assert("jpeg"@ != "js"@);
        reveal_strlit("ncx");
        assert("jpeg"@.len() != "ncx"@.len());
        assert("jpeg"@ != "ncx"@);
        reveal_strlit("opf");
        assert("jpeg"@.len() != "opf"@.len());
        assert("jpeg"@ != "opf"@);
        reveal_strlit("smil");
        assert("jpeg"@[0] != "smil"@[0]);
        assert("jpeg"@ != "smil"@);
        reveal_strlit("pls");
        assert("jpeg"@.len() != "pls"@.len());
        assert("jpeg"@ != "pls"@);
        reveal_strlit("xml");
        assert("jpeg"@.len() != "xml"@.len());
        assert("jpeg"@ != "xml"@);
        reveal_strlit("txt");
        assert("jpeg"@.len() != "txt"@.len());
        assert("jpeg"@ != "txt"@);
        reveal_strlit("svg");
        assert("jpeg"@.len() != "svg"@.len());
        assert("jpeg"@ != "svg"@);
        reveal_strlit("png");
        assert("jpeg"@.len() != "png"@.len());
        assert("jpeg"@ != "png"@);
        reveal_strlit("jpg");
        assert("jpeg"@.len() != "jpg"@.len());
        assert("jpeg"@ != "jpg"@);
    }
    assert(crate::manifest::media_type_for("gif"@) == "image/gif"@) by {
        reveal_strlit("gif");
        reveal_strlit("xhtml");
        assert("gif"@.len() != "xhtml"@.len());
        assert("gif"@ != "xhtml"@);
        reveal_strlit("xht");
        assert("gif"@[0] != "xht"@[0]);
        assert("gif"@ != "xht"@);
        reveal_strlit("html");
        assert("gif"@.len() != "html"@.len());
        assert("gif"@ != "html"@);
        reveal_strlit("htm");
        assert("gif"@[0] != "htm"@[0]);
        assert("gif"@ != "htm"@);
        reveal_strlit("css");
        assert("gif"@[0] != "css"@[0]);
        assert("gif"@ != "css"@);
        reveal_strlit("js");
        assert("gif"@.len() != "js"@.len());
        assert("gif"@ != "js"@);
        reveal_strlit("ncx");
        assert("gif"@[0] != "ncx"@[0]);
        assert("gif"@ != "ncx"@);
        reveal_strlit("opf");
        assert("gif"@[0] != "opf"@[0]);
        assert("gif"@ != "opf"@);
        reveal_strlit("smil");
        assert("gif"@.len() != "smil"@.len());
        assert("gif"@ != "smil"@);
        reveal_strlit("pls");
        assert("gif"@[0] != "pls"@[0]);
        assert("gif"@ != "pls"@);
        reveal_strlit("xml");
        assert("gif"@[0] != "xml"@[0]);
        assert("gif"@ != "xml"@);
        reveal_strlit("txt");
        assert("gif"@[0] != "txt"@[0]);
        assert("gif"@ != "txt"@);
        reveal_strlit("svg");
        assert("gif"@[0] != "svg"@[0]);
        assert("gif"@ != "svg"@);
        reveal_strlit("png");
        assert("gif"@[0] != "png"@[0]);
        assert("gif"@ != "png"@);
        reveal_strlit("jpg");
        assert("gif"@[0] != "jpg"@[0]);
        assert("gif"@ != "jpg"@);
        reveal_strlit("jpeg");
        assert("gif"@.len() != "jpeg"@.len());
        assert("gif"@ != "jpeg"@);
    }
    assert(crate::manifest::media_type_for("webp"@) == "image/webp"@) by {
        reveal_strlit("webp");
        reveal_strlit("xhtml");
        assert("webp"@.len() != "xhtml"@.len());
        assert("webp"@ != "xhtml"@);
        reveal_strlit("xht");
        assert("webp"@.len() != "xht"@.len());
        assert("webp"@ != "xht"@);
        reveal_strlit("html");
        assert("webp"@[0] != "html"@[0]);
        assert("webp"@ != "html"@);
        reveal_strlit("htm");
        assert("webp"@.len() != "htm"@.len());
        assert("webp"@ != "htm"@);
        reveal_strlit("css");
        assert("webp"@.len() != "css"@.len());
        assert("webp"@ != "css"@);
        reveal_strlit("js");
        assert("webp"@.len() != "js"@.len());
        assert("webp"@ != "js"@);
        reveal_strlit("ncx");
        assert("webp"@.len() != "ncx"@.len());
        assert("webp"@ != "ncx"@);
        reveal_strlit("opf");
        assert("webp"@.len() != "opf"@.len());
        assert("webp"@ != "opf"@);
        reveal_strlit("smil");
        assert("webp"@[0] != "smil"@[0]);
        assert("webp"@ != "smil"@);
        reveal_strlit("pls");
        assert("webp"@.len() != "pls"@.len());
        assert("webp"@ != "pls"@);
        reveal_strlit("xml");
        assert("webp"@.len() != "xml"@.len());
        assert("webp"@ != "xml"@);
        reveal_strlit("txt");
        assert("webp"@.len() != "txt"@.len());
        assert("webp"@ != "txt"@);
        reveal_strlit("svg");
        assert("webp"@.len() != "svg"@.len());
        assert("webp"@ != "svg"@);
        reveal_strlit("png");
        assert("webp"@.len() != "png"@.len());
        assert("webp"@ != "png"@);
        reveal_strlit("jpg");
        assert("webp"@.len() != "jpg"@.len());
        assert("webp"@ != "jpg"@);
        reveal_strlit("jpeg");
        assert("webp"@[0] != "jpeg"@[0]);
        assert("webp"@ != "jpeg"@);
        reveal_strlit("gif");
        assert("webp"@.len() != "gif"@.len());
        assert("webp"@ != "gif"@);
    }
    assert(crate::manifest::media_type_for("avif"@) == "image/avif"@) by {
        reveal_strlit("avif");
        reveal_strlit("xhtml");
        assert("avif"@.len() != "xhtml"@.len());
        assert("avif"@ != "xhtml"@);
        reveal_strlit("xht");
        assert("avif"@.len() != "xht"@.len());
        assert("avif"@ != "xht"@);
        reveal_strlit("html");
        assert("avif"@[0] != "html"@[0]);
        assert("avif"@ != "html"@);
        reveal_strlit("htm");
        assert("avif"@.len() != "htm"@.len());
        assert("avif"@ != "htm"@);
        reveal_strlit("css");
        assert("avif"@.len() != "css"@.len());
        assert("avif"@ != "css"@);
        reveal_strlit("js");
        assert("avif"@.len() != "js"@.len());
        assert("avif"@ != "js"@);
        reveal_strlit("ncx");
        assert("avif"@.len() != "ncx"@.len());
        assert("avif"@ != "ncx"@);
        reveal_strlit("opf");
        assert("avif"@.len() != "opf"@.len());
        assert("avif"@ != "opf"@);
        reveal_strlit("smil");
        assert("avif"@[0] != "smil"@[0]);
        assert("avif"@ != "smil"@);
        reveal_strlit("pls");
        assert("avif"@.len() != "pls"@.len());
        assert("avif"@ != "pls"@);
        reveal_strlit("xml");
        assert("avif"@.len() != "xml"@.len());
        assert("avif"@ != "xml"@);
        reveal_strlit("txt");
        assert("avif"@.len() != "txt"@.len());
        assert("avif"@ != "txt"@);
        reveal_strlit("svg");
        assert("avif"@.len() != "svg"@.len());
        assert("avif"@ != "svg"@);
        reveal_strlit("png");
        assert("avif"@.len() != "png"@.len());
        assert("avif"@ != "png"@);
        reveal_strlit("jpg");
        assert("avif"@.len() != "jpg"@.len());
        assert("avif"@ != "jpg"@);
        reveal_strlit("jpeg");
        assert("avif"@[0] != "jpeg"@[0]);
        assert("avif"@ != "jpeg"@);
        reveal_strlit("gif");
        assert("avif"@.len() != "gif"@.len());
        assert("avif"@ != "gif"@);
        reveal_strlit("webp");
        assert("avif"@[0] != "webp"@[0]);
        assert("avif"@ != "webp"@);
    }
    assert(crate::manifest::media_type_for("ttf"@) == "font/ttf"@) by {
        reveal_strlit("ttf");
        reveal_strlit("xhtml");
        assert("ttf"@.len() != "xhtml"@.len());
        assert("ttf"@ != "xhtml"@);
        reveal_strlit("xht");
        assert("ttf"@[0] != "xht"@[0]);
        assert("ttf"@ != "xht"@);
        reveal_strlit("html");
        assert("ttf"@.len() != "html"@.len());
        assert("ttf"@ != "html"@);
        reveal_strlit("htm");
        assert("ttf"@[0] != "htm"@[0]);
        assert("ttf"@ != "htm"@);
        reveal_strlit("css");
        assert("ttf"@[0] != "css"@[0]);
        assert("ttf"@ != "css"@);
        reveal_strlit("js");
        assert("ttf"@.len() != "js"@.len());
        assert("ttf"@ != "js"@);
        reveal_strlit("ncx");
        assert("ttf"@[0] != "ncx"@[0]);
        assert("ttf"@ != "ncx"@);
        reveal_strlit("opf");
        assert("ttf"@[0] != "opf"@[0]);
        assert("ttf"@ != "opf"@);
        reveal_strlit("smil");
        assert("ttf"@.len() != "smil"@.len());
        assert("ttf"@ != "smil"@);
        reveal_strlit("pls");
        assert("ttf"@[0] != "pls"@[0]);
        assert("ttf"@ != "pls"@);
        reveal_strlit("xml");
        assert("ttf"@[0] != "xml"@[0]);
        assert("ttf"@ != "xml"@);
        reveal_strlit("txt");
        assert("ttf"@[1] != "txt"@[1]);
        assert("ttf"@ != "txt"@);
        reveal_strlit("svg");
        assert("ttf"@[0] != "svg"@[0]);
        assert("ttf"@ != "svg"@);
        reveal_strlit("png");
        assert("ttf"@[0] != "png"@[0]);
        assert("ttf"@ != "png"@);
        reveal_strlit("jpg");
        assert("ttf"@[0] != "jpg"@[0]);
        assert("ttf"@ != "jpg"@);
        reveal_strlit("jpeg");
        assert("ttf"@.len() != "jpeg"@.len());
        assert("ttf"@ != "jpeg"@);
        reveal_strlit("gif");
        assert("ttf"@[0] != "gif"@[0]);
        assert("ttf"@ != "gif"@);
        reveal_strlit("webp");
        assert("ttf"@.len() != "webp"@.len());
        assert("ttf"@ != "webp"@);
        reveal_strlit("avif");
        assert("ttf"@.len() != "avif"@.len());
        assert("ttf"@ != "avif"@);
    }
    assert(crate::manifest::media_type_for("otf"@) == "font/otf"@) by {
        reveal_strlit("otf");
        reveal_strlit("xhtml");
        assert("otf"@.len() != "xhtml"@.len());
        assert("otf"@ != "xhtml"@);
        reveal_strlit("xht");
        assert("otf"@[0] != "xht"@[0]);
        assert("otf"@ != "xht"@);
        reveal_strlit("html");
        assert("otf"@.len() != "html"@.len());
        assert("otf"@ != "html"@);
        reveal_strlit("htm");
        assert("otf"@[0] != "htm"@[0]);
        assert("otf"@ != "htm"@);
        reveal_strlit("css");
        assert("otf"@[0] != "css"@[0]);
        assert("otf"@ != "css"@);
        reveal_strlit("js");
        assert("otf"@.len() != "js"@.len());
        assert("otf"@ != "js"@);
        reveal_strlit("ncx");
        assert("otf"@[0] != "ncx"@[0]);
        assert("otf"@ != "ncx"@);
        reveal_strlit("opf");
        assert("otf"@[1] != "opf"@[1]);
        assert("otf"@ != "opf"@);
        reveal_strlit("smil");
        assert("otf"@.len() != "smil"@.len());
        assert("otf"@ != "smil"@);
        reveal_strlit("pls");
        assert("otf"@[0] != "pls"@[0]);
        assert("otf"@ != "pls"@);
        reveal_strlit("xml");
        assert("otf"@[0] != "xml"@[0]);
        assert("otf"@ != "xml"@);
        reveal_strlit("txt");
        assert("otf"@[0] != "txt"@[0]);
        assert("otf"@ != "txt"@);
        reveal_strlit("svg");
        assert("otf"@[0] != "svg"@[0]);
        assert("otf"@ != "svg"@);
        reveal_strlit("png");
        assert("otf"@[0] != "png"@[0]);
        assert("otf"@ != "png"@);
        reveal_strlit("jpg");
        assert("otf"@[0] != "jpg"@[0]);
        assert("otf"@ != "jpg"@);
        reveal_strlit("jpeg");
        assert("otf"@.len() != "jpeg"@.len());
        assert("otf"@ != "jpeg"@);
        reveal_strlit("gif");
        assert("otf"@[0] != "gif"@[0]);
        assert("otf"@ != "gif"@);
        reveal_strlit("webp");
        assert("otf"@.len() != "webp"@.len());
        assert("otf"@ != "webp"@);
        reveal_strlit("avif");
        assert("otf"@.len() != "avif"@.len());
        assert("otf"@ != "avif"@);
        reveal_strlit("ttf");
        assert("otf"@[0] != "ttf"@[0]);
        assert("otf"@ != "ttf"@);
    }
    assert(crate::manifest::media_type_for("woff"@) == "font/woff"@) by {
        reveal_strlit("woff");
        reveal_strlit("xhtml");
        assert("woff"@.len() != "xhtml"@.len());
        assert("woff"@ != "xhtml"@);
        reveal_strlit("xht");
        assert("woff"@.len() != "xht"@.len());
        assert("woff"@ != "xht"@);
        reveal_strlit("html");
        assert("woff"@[0] != "html"@[0]);
        assert("woff"@ != "html"@);
        reveal_strlit("htm");
        assert("woff"@.len() != "htm"@.len());
        assert("woff"@ != "htm"@);
        reveal_strlit("css");
        assert("woff"@.len() != "css"@.len());
        assert("woff"@ != "css"@);
        reveal_strlit("js");
        assert("woff"@.len() != "js"@.len());
        assert("woff"@ != "js"@);
        reveal_strlit("ncx");
        assert("woff"@.len() != "ncx"@.len());
        assert("woff"@ != "ncx"@);
        reveal_strlit("opf");
        assert("woff"@.len() != "opf"@.len());
        assert("woff"@ != "opf"@);
        reveal_strlit("smil");
        assert("woff"@[0] != "smil"@[0]);
        assert("woff"@ != "smil"@);
        reveal_strlit("pls");
        assert("woff"@.len() != "pls"@.len());
        assert("woff"@ != "pls"@);
        reveal_strlit("xml");
        assert("woff"@.len() != "xml"@.len());
        assert("woff"@ != "xml"@);
        reveal_strlit("txt");
        assert("woff"@.len() != "txt"@.len());
        assert("woff"@ != "txt"@);
        reveal_strlit("svg");
        assert("woff"@.len() != "svg"@.len());
        assert("woff"@ != "svg"@);
        reveal_strlit("png");
        assert("woff"@.len() != "png"@.len());
        assert("woff"@ != "png"@);
        reveal_strlit("jpg");
        assert("woff"@.len() != "jpg"@.len());
        assert("woff"@ != "jpg"@);
        reveal_strlit("jpeg");
        assert("woff"@[0] != "jpeg"@[0]);
        assert("woff"@ != "jpeg"@);
        reveal_strlit("gif");
        assert("woff"@.len() != "gif"@.len());
        assert("woff"@ != "gif"@);
        reveal_strlit("webp");
        assert("woff"@[1] != "webp"@[1]);
        assert("woff"@ != "webp"@);
        reveal_strlit("avif");
        assert("woff"@[0] != "avif"@[0]);
        assert("woff"@ != "avif"@);
        reveal_strlit("ttf");
        assert("woff"@.len() != "ttf"@.len());
        assert("woff"@ != "ttf"@);
        reveal_strlit("otf");
        assert("woff"@.len() != "otf"@.len());
        assert("woff"@ != "otf"@);
    }
    assert(crate::manifest::media_type_for("woff2"@) == "font/woff2"@) by {
        reveal_strlit("woff2");
        reveal_strlit("xhtml");
        assert("woff2"@[0] != "xhtml"@[0]);
        assert("woff2"@ != "xhtml"@);
        reveal_strlit("xht");
        assert("woff2"@.len() != "xht"@.len());
        assert("woff2"@ != "xht"@);
        reveal_strlit("html");
        assert("woff2"@.len() != "html"@.len());
        assert("woff2"@ != "html"@);
        reveal_strlit("htm");
        assert("woff2"@.len() != "htm"@.len());
        assert("woff2"@ != "htm"@);
        reveal_strlit("css");
        assert("woff2"@.len() != "css"@.len());
        assert("woff2"@ != "css"@);
        reveal_strlit("js");
        assert("woff2"@.len() != "js"@.len());
        assert("woff2"@ != "js"@);
        reveal_strlit("ncx");
        assert("woff2"@.len() != "ncx"@.len());
        assert("woff2"@ != "ncx"@);
        reveal_strlit("opf");
        assert("woff2"@.len() != "opf"@.len());
        assert("woff2"@ != "opf"@);
        reveal_strlit("smil");
        assert("woff2"@.len() != "smil"@.len());
        assert("woff2"@ != "smil"@);
        reveal_strlit("pls");
        assert("woff2"@.len() != "pls"@.len());
        assert("woff2"@ != "pls"@);
        reveal_strlit("xml");
        assert("woff2"@.len() != "xml"@.len());
        assert("woff2"@ != "xml"@);
        reveal_strlit("txt");
        assert("woff2"@.len() != "txt"@.len());
        assert("woff2"@ != "txt"@);
        reveal_strlit("svg");
        assert("woff2"@.len() != "svg"@.len());
        assert("woff2"@ != "svg"@);
        reveal_strlit("png");
        assert("woff2"@.len() != "png"@.len());
        assert("woff2"@ != "png"@);
        reveal_strlit("jpg");
        assert("woff2"@.len() != "jpg"@.len());
        assert("woff2"@ != "jpg"@);
        reveal_strlit("jpeg");
        assert("woff2"@.len() != "jpeg"@.len());
        assert("woff2"@ != "jpeg"@);
        reveal_strlit("gif");
        assert("woff2"@.len() != "gif"@.len());
        assert("woff2"@ != "gif"@);
        reveal_strlit("webp");
        assert("woff2"@.len() != "webp"@.len());
        assert("woff2"@ != "webp"@);
        reveal_strlit("avif");
        assert("woff2"@.len() != "avif"@.len());
        assert("woff2"@ != "avif"@);
        reveal_strlit("ttf");
        assert("woff2"@.len() != "ttf"@.len());
        assert("woff2"@ != "ttf"@);
        reveal_strlit("otf");
        assert("woff2"@.len() != "otf"@.len());
        assert("woff2"@ != "otf"@);
        reveal_strlit("woff");
        assert("woff2"@.len() != "woff"@.len());
        assert("woff2"@ != "woff"@);
    }
    assert(crate::manifest::media_type_for("mp3"@) == "audio/mpeg"@) by {
        reveal_strlit("mp3");
        reveal_strlit("xhtml");
        assert("mp3"@.len() != "xhtml"@.len());
        assert("mp3"@ != "xhtml"@);
        reveal_strlit("xht");
        assert("mp3"@[0] != "xht"@[0]);
        assert("mp3"@ != "xht"@);
        reveal_strlit("html");
        assert("mp3"@.len() != "html"@.len());
        assert("mp3"@ != "html"@);
        reveal_strlit("htm");
        assert("mp3"@[0] != "htm"@[0]);
        assert("mp3"@ != "htm"@);
        reveal_strlit("css");
        assert("mp3"@[0] != "css"@[0]);
        assert("mp3"@ != "css"@);
        reveal_strlit("js");
        assert("mp3"@.len() != "js"@.len());
        assert("mp3"@ != "js"@);
        reveal_strlit("ncx");
        assert("mp3"@[0] != "ncx"@[0]);
        assert("mp3"@ != "ncx"@);
        reveal_strlit("opf");
        assert("mp3"@[0] != "opf"@[0]);
        assert("mp3"@ != "opf"@);
        reveal_strlit("smil");
        assert("mp3"@.len() != "smil"@.len());
        assert("mp3"@ != "smil"@);
        reveal_strlit("pls");
        assert("mp3"@[0] != "pls"@[0]);
        assert("mp3"@ != "pls"@);
        reveal_strlit("xml");
        assert("mp3"@[0] != "xml"@[0]);
        assert("mp3"@ != "xml"@);
        reveal_strlit("txt");
        assert("mp3"@[0] != "txt"@[0]);
        assert("mp3"@ != "txt"@);
        reveal_strlit("svg");
        assert("mp3"@[0] != "svg"@[0]);
        assert("mp3"@ != "svg"@);
        reveal_strlit("png");
        assert("mp3"@[0] != "png"@[0]);
        assert("mp3"@ != "png"@);
        reveal_strlit("jpg");
        assert("mp3"@[0] != "jpg"@[0]);
        assert("mp3"@ != "jpg"@);
        reveal_strlit("jpeg");
        assert("mp3"@.len() != "jpeg"@.len());
        assert("mp3"@ != "jpeg"@);
        reveal_strlit("gif");
        assert("mp3"@[0] != "gif"@[0]);
        assert("mp3"@ != "gif"@);
        reveal_strlit("webp");
        assert("mp3"@.len() != "webp"@.len());
        assert("mp3"@ != "webp"@);
        reveal_strlit("avif");
        assert("mp3"@.len() != "avif"@.len());
        assert("mp3"@ != "avif"@);
        reveal_strlit("ttf");
        assert("mp3"@[0] != "ttf"@[0]);
        assert("mp3"@ != "ttf"@);
        reveal_strlit("otf");
        assert("mp3"@[0] != "otf"@[0]);
        assert("mp3"@ != "otf"@);
        reveal_strlit("woff");
        assert("mp3"@.len() != "woff"@.len());
        assert("mp3"@ != "woff"@);
        reveal_strlit("woff2");
        assert("mp3"@.len() != "woff2"@.len());
        assert("mp3"@ != "woff2"@);
    }
    assert(crate::manifest::media_type_for("m4a"@) == "audio/mp4"@) by {
        reveal_strlit("m4a");
        reveal_strlit("xhtml");
        assert("m4a"@.len() != "xhtml"@.len());
        assert("m4a"@ != "xhtml"@);
        reveal_strlit("xht");
        assert("m4a"@[0] != "xht"@[0]);
        assert("m4a"@ != "xht"@);
        reveal_strlit("html");
        assert("m4a"@.len() != "html"@.len());
        assert("m4a"@ != "html"@);
        reveal_strlit("htm");
        assert("m4a"@[0] != "htm"@[0]);
        assert("m4a"@ != "htm"@);
        reveal_strlit("css");
        assert("m4a"@[0] != "css"@[0]);
        assert("m4a"@ != "css"@);
        reveal_strlit("js");
        assert("m4a"@.len() != "js"@.len());
        assert("m4a"@ != "js"@);
        reveal_strlit("ncx");
        assert("m4a"@[0] != "ncx"@[0]);
        assert("m4a"@ != "ncx"@);
        reveal_strlit("opf");
        assert("m4a"@[0] != "opf"@[0]);
        assert("m4a"@ != "opf"@);
        reveal_strlit("smil");
        assert("m4a"@.len() != "smil"@.len());
        assert("m4a"@ != "smil"@);
        reveal_strlit("pls");
        assert("m4a"@[0] != "pls"@[0]);
        assert("m4a"@ != "pls"@);
        reveal_strlit("xml");
        assert("m4a"@[0] != "xml"@[0]);
        assert("m4a"@ != "xml"@);
        reveal_strlit("txt");
        assert("m4a"@[0] != "txt"@[0]);
        assert("m4a"@ != "txt"@);
        reveal_strlit("svg");
        assert("m4a"@[0] != "svg"@[0]);
        assert("m4a"@ != "svg"@);
        reveal_strlit("png");
        assert("m4a"@[0] != "png"@[0]);
        assert("m4a"@ != "png"@);
        reveal_strlit("jpg");
        assert("m4a"@[0] != "jpg"@[0]);
        assert("m4a"@ != "jpg"@);
        reveal_strlit("jpeg");
        assert("m4a"@.len() != "jpeg"@.len());
        assert("m4a"@ != "jpeg"@);
        reveal_strlit("gif");
        assert("m4a"@[0] != "gif"@[0]);
        assert("m4a"@ != "gif"@);
        reveal_strlit("webp");
        assert("m4a"@.len() != "webp"@.len());
        assert("m4a"@ != "webp"@);
        reveal_strlit("avif");
        assert("m4a"@.len() != "avif"@.len());
        assert("m4a"@ != "avif"@);
        reveal_strlit("ttf");
        assert("m4a"@[0] != "ttf"@[0]);
        assert("m4a"@ != "ttf"@);
        reveal_strlit("otf");
        assert("m4a"@[0] != "otf"@[0]);
        assert("m4a"@ != "otf"@);
        reveal_strlit("woff");
        assert("m4a"@.len() != "woff"@.len());
        assert("m4a"@ != "woff"@);
        reveal_strlit("woff2");
        assert("m4a"@.len() != "woff2"@.len());
        assert("m4a"@ != "woff2"@);
        reveal_strlit("mp3");
        assert("m4a"@[1] != "mp3"@[1]);
        assert("m4a"@ != "mp3"@);
    }
    assert(crate::manifest::media_type_for("ogg"@) == "audio/ogg"@) by {
        reveal_strlit("ogg");
        reveal_strlit("xhtml");
        assert("ogg"@.len() != "xhtml"@.len());
        assert("ogg"@ != "xhtml"@);
        reveal_strlit("xht");
        assert("ogg"@[0] != "xht"@[0]);
        assert("ogg"@ != "xht"@);
        reveal_strlit("html");
        assert("ogg"@.len() != "html"@.len());
        assert("ogg"@ != "html"@);
        reveal_strlit("htm");
        assert("ogg"@[0] != "htm"@[0]);
        assert("ogg"@ != "htm"@);
        reveal_strlit("css");
        assert("ogg"@[0] != "css"@[0]);
        assert("ogg"@ != "css"@);
        reveal_strlit("js");
        assert("ogg"@.len() != "js"@.len());
        assert("ogg"@ != "js"@);
        reveal_strlit("ncx");
        assert("ogg"@[0] != "ncx"@[0]);
        assert("ogg"@ != "ncx"@);
        reveal_strlit("opf");
        assert("ogg"@[1] != "opf"@[1]);
        assert("ogg"@ != "opf"@);
        reveal_strlit("smil");
        assert("ogg"@.len() != "smil"@.len());
        assert("ogg"@ != "smil"@);
        reveal_strlit("pls");
        assert("ogg"@[0] != "pls"@[0]);
        assert("ogg"@ != "pls"@);
        reveal_strlit("xml");
        assert("ogg"@[0] != "xml"@[0]);
        assert("ogg"@ != "xml"@);
        reveal_strlit("txt");
        assert("ogg"@[0] != "txt"@[0]);
        assert("ogg"@ != "txt"@);
        reveal_strlit("svg");
        assert("ogg"@[0] != "svg"@[0]);
        assert("ogg"@ != "svg"@);
        reveal_strlit("png");
        assert("ogg"@[0] != "png"@[0]);
        assert("ogg"@ != "png"@);
        reveal_strlit("jpg");
        assert("ogg"@[0] != "jpg"@[0]);
        assert("ogg"@ != "jpg"@);
        reveal_strlit("jpeg");
        assert("ogg"@.len() != "jpeg"@.len());
        assert("ogg"@ != "jpeg"@);
        reveal_strlit("gif");
        assert("ogg"@[0] != "gif"@[0]);
        assert("ogg"@ != "gif"@);
        reveal_strlit("webp");
        assert("ogg"@.len() != "webp"@.len());
        assert("ogg"@ != "webp"@);
        reveal_strlit("avif");
        assert("ogg"@.len() != "avif"@.len());
        assert("ogg"@ != "avif"@);
        reveal_strlit("ttf");
        assert("ogg"@[0] != "ttf"@[0]);
        assert("ogg"@ != "ttf"@);
        reveal_strlit("otf");
        assert("ogg"@[1] != "otf"@[1]);
        assert("ogg"@ != "otf"@);
        reveal_strlit("woff");
        assert("ogg"@.len() != "woff"@.len());
        assert("ogg"@ != "woff"@);
        reveal_strlit("woff2");
        assert("ogg"@.len() != "woff2"@.len());
        assert("ogg"@ != "woff2"@);
        reveal_strlit("mp3");
        assert("ogg"@[0] != "mp3"@[0]);
        assert("ogg"@ != "mp3"@);
        reveal_strlit("m4a");
        assert("ogg"@[0] != "m4a"@[0]);
        assert("ogg"@ != "m4a"@);
    }
    assert(crate::manifest::media_type_for("opus"@) == "audio/opus"@) by {
        reveal_strlit("opus");
        reveal_strlit("xhtml");
        assert("opus"@.len() != "xhtml"@.len());
        assert("opus"@ != "xhtml"@);
        reveal_strlit("xht");
        assert("opus"@.len() != "xht"@.len());
        assert("opus"@ != "xht"@);
        reveal_strlit("html");
        assert("opus"@[0] != "html"@[0]);
        assert("opus"@ != "html"@);
        reveal_strlit("htm");
        assert("opus"@.len() != "htm"@.len());
        assert("opus"@ != "htm"@);
        reveal_strlit("css");
        assert("opus"@.len() != "css"@.len());
        assert("opus"@ != "css"@);
        reveal_strlit("js");
        assert("opus"@.len() != "js"@.len());
        assert("opus"@ != "js"@);
        reveal_strlit("ncx");
        assert("opus"@.len() != "ncx"@.len());
        assert("opus"@ != "ncx"@);
        reveal_strlit("opf");
        assert("opus"@.len() != "opf"@.len());
        assert("opus"@ != "opf"@);
        reveal_strlit("smil");
        assert("opus"@[0] != "smil"@[0]);
        assert("opus"@ != "smil"@);
        reveal_strlit("pls");
        assert("opus"@.len() != "pls"@.len());
        assert("opus"@ != "pls"@);
        reveal_strlit("xml");
        assert("opus"@.len() != "xml"@.len());
        assert("opus"@ != "xml"@);
        reveal_strlit("txt");
        assert("opus"@.len() != "txt"@.len());
        assert("opus"@ != "txt"@);
        reveal_strlit("svg");
        assert("opus"@.len() != "svg"@.len());
        assert("opus"@ != "svg"@);
        reveal_strlit("png");
        assert("opus"@.len() != "png"@.len());
        assert("opus"@ != "png"@);
        reveal_strlit("jpg");
        assert("opus"@.len() != "jpg"@.len());
        assert("opus"@ != "jpg"@);
        reveal_strlit("jpeg");
        assert("opus"@[0] != "jpeg"@[0]);
        assert("opus"@ != "jpeg"@);
        reveal_strlit("gif");
        assert("opus"@.len() != "gif"@.len());
        assert("opus"@ != "gif"@);
        reveal_strlit("webp");
        assert("opus"@[0] != "webp"@[0]);
        assert("opus"@ != "webp"@);
        reveal_strlit("avif");
        assert("opus"@[0] != "avif"@[0]);
        assert("opus"@ != "avif"@);
        reveal_strlit("ttf");
        assert("opus"@.len() != "ttf"@.len());
        assert("opus"@ != "ttf"@);
        reveal_strlit("otf");
        assert("opus"@.len() != "otf"@.len());
        assert("opus"@ != "otf"@);
        reveal_strlit("woff");
        assert("opus"@[0] != "woff"@[0]);
        assert("opus"@ != "woff"@);
        reveal_strlit("woff2");
        assert("opus"@.len() != "woff2"@.len());
        assert("opus"@ != "woff2"@);
        reveal_strlit("mp3");
        assert("opus"@.len() != "mp3"@.len());
        assert("opus"@ != "mp3"@);
        reveal_strlit("m4a");
        assert("opus"@.len() != "m4a"@.len());
        assert("opus"@ != "m4a"@);
        reveal_strlit("ogg");
        assert("opus"@.len() != "ogg"@.len());
        assert("opus"@ != "ogg"@);
    }
    assert(crate::manifest::media_type_for("mp4"@) == "video/mp4"@) by {
        reveal_strlit("mp4");
        reveal_strlit("xhtml");
        assert("mp4"@.len() != "xhtml"@.len());
        assert("mp4"@ != "xhtml"@);
        reveal_strlit("xht");
        assert("mp4"@[0] != "xht"@[0]);
        assert("mp4"@ != "xht"@);
        reveal_strlit("html");
        assert("mp4"@.len() != "html"@.len());
        assert("mp4"@ != "html"@);
        reveal_strlit("htm");
        assert("mp4"@[0] != "htm"@[0]);
        assert("mp4"@ != "htm"@);
        reveal_strlit("css");
        assert("mp4"@[0] != "css"@[0]);
        assert("mp4"@ != "css"@);
        reveal_strlit("js");
        assert("mp4"@.len() != "js"@.len());
        assert("mp4"@ != "js"@);
        reveal_strlit("ncx");
        assert("mp4"@[0] != "ncx"@[0]);
        assert("mp4"@ != "ncx"@);
        reveal_strlit("opf");
        assert("mp4"@[0] != "opf"@[0]);
        assert("mp4"@ != "opf"@);
        reveal_strlit("smil");
        assert("mp4"@.len() != "smil"@.len());
        assert("mp4"@ != "smil"@);
        reveal_strlit("pls");
        assert("mp4"@[0] != "pls"@[0]);
        assert("mp4"@ != "pls"@);
        reveal_strlit("xml");
        assert("mp4"@[0] != "xml"@[0]);
        assert("mp4"@ != "xml"@);
        reveal_strlit("txt");
        assert("mp4"@[0] != "txt"@[0]);
        assert("mp4"@ != "txt"@);
        reveal_strlit("svg");
        assert("mp4"@[0] != "svg"@[0]);
        assert("mp4"@ != "svg"@);
        reveal_strlit("png");
        assert("mp4"@[0] != "png"@[0]);
        assert("mp4"@ != "png"@);
        reveal_strlit("jpg");
        assert("mp4"@[0] != "jpg"@[0]);
        assert("mp4"@ != "jpg"@);
        reveal_strlit("jpeg");
        assert("mp4"@.len() != "jpeg"@.len());
        assert("mp4"@ != "jpeg"@);
        reveal_strlit("gif");
        assert("mp4"@[0] != "gif"@[0]);
        assert("mp4"@ != "gif"@);
        reveal_strlit("webp");
        assert("mp4"@.len() != "webp"@.len());
        assert("mp4"@ != "webp"@);
        reveal_strlit("avif");
        assert("mp4"@.len() != "avif"@.len());
        assert("mp4"@ != "avif"@);
        reveal_strlit("ttf");
        assert("mp4"@[0] != "ttf"@[0]);
        assert("mp4"@ != "ttf"@);
        reveal_strlit("otf");
        assert("mp4"@[0] != "otf"@[0]);
        assert("mp4"@ != "otf"@);
        reveal_strlit("woff");
        assert("mp4"@.len() != "woff"@.len());
        assert("mp4"@ != "woff"@);
        reveal_strlit("woff2");
        assert("mp4"@.len() != "woff2"@.len());
        assert("mp4"@ != "woff2"@);
        reveal_strlit("mp3");
        assert("mp4"@[2] != "mp3"@[2]);
        assert("mp4"@ != "mp3"@);
        reveal_strlit("m4a");
        assert("mp4"@[1] != "m4a"@[1]);
        assert("mp4"@ != "m4a"@);
        reveal_strlit("ogg");
        assert("mp4"@[0] != "ogg"@[0]);
        assert("mp4"@ != "ogg"@);
        reveal_strlit("opus");
        assert("mp4"@.len() != "opus"@.len());
        assert("mp4"@ != "opus"@);
    }
    assert(crate::manifest::media_type_for("webm"@) == "video/webm"@) by {
        reveal_strlit("webm");
        reveal_strlit("xhtml");
        assert("webm"@.len() != "xhtml"@.len());
        assert("webm"@ != "xhtml"@);
        reveal_strlit("xht");
        assert("webm"@.len() != "xht"@.len());
        assert("webm"@ != "xht"@);
        reveal_strlit("html");
        assert("webm"@[0] != "html"@[0]);
        assert("webm"@ != "html"@);
        reveal_strlit("htm");
        assert("webm"@.len() != "htm"@.len());
        assert("webm"@ != "htm"@);
        reveal_strlit("css");
        assert("webm"@.len() != "css"@.len());
        assert("webm"@ != "css"@);
        reveal_strlit("js");
        assert("webm"@.len() != "js"@.len());
        assert("webm"@ != "js"@);
        reveal_strlit("ncx");
        assert("webm"@.len() != "ncx"@.len());
        assert("webm"@ != "ncx"@);
        reveal_strlit("opf");
        assert("webm"@.len() != "opf"@.len());
        assert("webm"@ != "opf"@);
        reveal_strlit("smil");
        assert("webm"@[0] != "smil"@[0]);
        assert("webm"@ != "smil"@);
        reveal_strlit("pls");
        assert("webm"@.len() != "pls"@.len());
        assert("webm"@ != "pls"@);
        reveal_strlit("xml");
        assert("webm"@.len() != "xml"@.len());
        assert("webm"@ != "xml"@);
        reveal_strlit("txt");
        assert("webm"@.len() != "txt"@.len());
        assert("webm"@ != "txt"@);
        reveal_strlit("svg");
        assert("webm"@.len() != "svg"@.len());
        assert("webm"@ != "svg"@);
        reveal_strlit("png");
        assert("webm"@.len() != "png"@.len());
        assert("webm"@ != "png"@);
        reveal_strlit("jpg");
        assert("webm"@.len() != "jpg"@.len());
        assert("webm"@ != "jpg"@);
        reveal_strlit("jpeg");
        assert("webm"@[0] != "jpeg"@[0]);
        assert("webm"@ != "jpeg"@);
        reveal_strlit("gif");
        assert("webm"@.len() != "gif"@.len());
        assert("webm"@ != "gif"@);
        reveal_strlit("webp");
        assert("webm"@[3] != "webp"@[3]);
        assert("webm"@ != "webp"@);
        reveal_strlit("avif");
        assert("webm"@[0] != "avif"@[0]);
        assert("webm"@ != "avif"@);
        reveal_strlit("ttf");
        assert("webm"@.len() != "ttf"@.len());
        assert("webm"@ != "ttf"@);
        reveal_strlit("otf");
        assert("webm"@.len() != "otf"@.len());
        assert("webm"@ != "otf"@);
        reveal_strlit("woff");
        assert("webm"@[1] != "woff"@[1]);
        assert("webm"@ != "woff"@);
        reveal_strlit("woff2");
        assert("webm"@.len() != "woff2"@.len());
        assert("webm"@ != "woff2"@);
        reveal_strlit("mp3");
        assert("webm"@.len() != "mp3"@.len());
        assert("webm"@ != "mp3"@);
        reveal_strlit("m4a");
        assert("webm"@.len() != "m4a"@.len());
        assert("webm"@ != "m4a"@);
        reveal_strlit("ogg");
        assert("webm"@.len() != "ogg"@.len());
        assert("webm"@ != "ogg"@);
        reveal_strlit("opus");
        assert("webm"@[0] != "opus"@[0]);
        assert("webm"@ != "opus"@);
        reveal_strlit("mp4");
        assert("webm"@.len() != "mp4"@.len());
        assert("webm"@ != "mp4"@);
    }
}

/// The publication date is a `dc:date` marked `opf:event="publication"` whenever one
/// is: the first of them. Only when none is marked does the first `dc:date` without
/// any `opf:event` stand in for it, and with neither there is none.
pub proof fn law_published_date(s: Seq<EpubMetaEntryData>)
    ensures
        (exists|j: int| 0 <= j < s.len() && #[trigger] is_publication(s[j])) ==> {
            let i = published_index(s);
            &&& 0 <= i < s.len()
            &&& is_publication(s[i])
            &&& forall|j: int| 0 <= j < i ==> !is_publication(#[trigger] s[j])
        },
        (forall|j: int| 0 <= j < s.len() ==> !is_publication(#[trigger] s[j])) ==> {
            let i = published_index(s);
            &&& (exists|j: int| 0 <= j < s.len() && #[trigger] has_no_event(s[j])) ==> 0 <= i < s.len()
                && has_no_event(s[i]) && forall|j: int| 0 <= j < i ==> !has_no_event(#[trigger] s[j])
            &&& (forall|j: int| 0 <= j < s.len() ==> !has_no_event(#[trigger] s[j])) ==> i == -1
        },
{
    let pp = |e: EpubMetaEntryData| is_publication(e);
    let pn = |e: EpubMetaEntryData| has_no_event(e);
    lemma_first_where(s, pp);
    lemma_first_where(s, pn);
    if exists|j: int| 0 <= j < s.len() && #[trigger] is_publication(s[j]) {
        let j = choose|j: int| 0 <= j < s.len() && #[trigger] is_publication(s[j]);
        assert(pp(s[j]));
    }
    if exists|j: int| 0 <= j < s.len() && #[trigger] has_no_event(s[j]) {
        let j = choose|j: int| 0 <= j < s.len() && #[trigger] has_no_event(s[j]);
        assert(pn(s[j]));
    }
}

proof fn lemma_no_property_indices(s: Seq<EpubMetaEntryData>, p: Seq<char>)
    requires
        forall|k: int| 0 <= k < s.len() ==> (#[trigger] s[k]).property@ != p,
    ensures
        property_indices(s, p).len() == 0,
    decreases s.len(),
{
    if s.len() > 0 {
        let init = s.drop_last();
        assert forall|k: int| 0 <= k < init.len() implies (#[trigger] init[k]).property@ != p by {
            assert(init[k] == s[k]);
        }
        lemma_no_property_indices(init, p);
        assert(s[s.len() - 1] == s.last());
    }
}

/// A contributor without `role` refinements takes its role from the EPUB 2 `opf:role`
/// attribute: exactly one role, with no source and the attribute's value as code (so
/// that is its main role); without the attribute it has no role.
pub proof fn law_role_from_attribute(d: EpubMetaEntryData)
    ensures
        (forall|k: int| 0 <= k < d.refinements.0@.len() ==> (#[trigger] d.refinements.0@[k]).property@ != consts::ROLE@)
            ==> match attr_value(d.attributes@, consts::OPF_ROLE@) {
            Some(c) => contributor_roles(d).len() == 1 && contributor_roles(d)[0] == (None::<Seq<char>>, c),
            None => contributor_roles(d).len() == 0,
        },
{
    if forall|k: int| 0 <= k < d.refinements.0@.len() ==> (#[trigger] d.refinements.0@[k]).property@ != consts::ROLE@ {
        lemma_no_property_indices(d.refinements.0@, consts::ROLE@);
    }
}

/// An identifier without an `identifier-type` refinement takes its scheme from the
/// EPUB 2 `opf:scheme` attribute: no source, the attribute's value as code; without the
/// attribute it has no scheme.
pub proof fn law_scheme_from_attribute(d: EpubMetaEntryData)
    ensures
        (forall|k: int|
            0 <= k < d.refinements.0@.len() ==> (#[trigger] d.refinements.0@[k]).property@ != consts::IDENTIFIER_TYPE@)
            ==> match attr_value(d.attributes@, consts::OPF_SCHEME@) {
            Some(c) => identifier_scheme(d) == Some((None::<Seq<char>>, c)),
            None => identifier_scheme(d) is None,
        },
{
    lemma_key_index(d.refinements.0@, consts::IDENTIFIER_TYPE@);
}

/// The ASCII hexadecimal digit for `n` (`0 <= n < 16`), with lower-case letters.
pub open spec fn hex_digit_lower(n: int) -> u8 {
    if n < 10 {
        (48 + n) as u8
    } else {
        (87 + n) as u8
    }
}

/// The ASCII hexadecimal digit for `n` (`0 <= n < 16`), with upper-case letters.
pub open spec fn hex_digit_upper(n: int) -> u8 {
    if n < 10 {
        (48 + n) as u8
    } else {
        (55 + n) as u8
    }
}

/// Percent-decoding reads hexadecimal digits in either letter case: the escape `%XY`
/// of any byte `b`, written with lower-case or with upper-case digits, decodes to `b`,
/// and decoding goes on after it with the rest.
pub proof fn law_percent_decode_any_case(b: u8, rest: Seq<u8>)
    ensures
        uri::percent_decode(seq![37u8, hex_digit_lower(b as int / 16), hex_digit_lower(b as int % 16)] + rest) == seq![b]
            + uri::percent_decode(rest),
        uri::percent_decode(seq![37u8, hex_digit_upper(b as int / 16), hex_digit_upper(b as int % 16)] + rest) == seq![b]
            + uri::percent_decode(rest),
{
    let lo = seq![37u8, hex_digit_lower(b as int / 16), hex_digit_lower(b as int % 16)] + rest;
    let up = seq![37u8, hex_digit_upper(b as int / 16), hex_digit_upper(b as int % 16)] + rest;
    assert(lo.skip(3) =~= rest);
    assert(up.skip(3) =~= rest);
    assert(lo[0] == 37u8 && lo[1] == hex_digit_lower(b as int / 16) && lo[2] == hex_digit_lower(b as int % 16));
    assert(up[0] == 37u8 && up[1] == hex_digit_upper(b as int / 16) && up[2] == hex_digit_upper(b as int % 16));
    assert(uri::hex_value(hex_digit_lower(b as int / 16)) == b / 16);
    assert(uri::hex_value(hex_digit_lower(b as int % 16)) == b % 16);
    assert(uri::hex_value(hex_digit_upper(b as int / 16)) == b / 16);
    assert(uri::hex_value(hex_digit_upper(b as int % 16)) == b % 16);
    assert((b as int / 16) * 16 + b % 16 == b);
}

/// Percent-decoding keeps every byte that does not start an escape: a byte other than
/// `%` stays as it is, and so does a `%` that is not followed by a hexadecimal digit.
pub proof fn law_percent_decode_keeps_plain_bytes(x: u8, y: u8, rest: Seq<u8>)
    ensures
        x != 37u8 ==> uri::percent_decode(seq![x] + rest) == seq![x] + uri::percent_decode(rest),
        !(48 <= y <= 57 || 65 <= y <= 70 || 97 <= y <= 102) ==> uri::percent_decode(seq![37u8, y] + rest)
            == seq![37u8] + uri::percent_decode(seq![y] + rest),
{
    let a = seq![x] + rest;
    assert(a.skip(1) =~= rest);
    let b = seq![37u8, y] + rest;
    assert(b.skip(1) =~= seq![y] + rest);
    assert(b[1] == y);
}

proof fn lemma_property_indices_first(s: Seq<EpubMetaEntryData>, p: Seq<char>, i: int)
    requires
        0 <= i < s.len(),
        s[i].property@ == p,
        forall|j: int| 0 <= j < i ==> (#[trigger] s[j]).property@ != p,
    ensures
        property_indices(s, p).len() > 0,
        property_indices(s, p)[0] == i,
    decreases s.len(),
{
    let init = s.drop_last();
    assert(s[s.len() - 1] == s.last());
    if i == s.len() - 1 {
        assert forall|k: int| 0 <= k < init.len() implies (#[trigger] init[k]).property@ != p by {
            assert(init[k] == s[k]);
        }
        lemma_no_property_indices(init, p);
    } else {
        assert(init[i] == s[i]);
        assert forall|j: int| 0 <= j < i implies (#[trigger] init[j]).property@ != p by {
            assert(init[j] == s[j]);
        }
        lemma_property_indices_first(init, p, i);
    }
}

/// A contributor with `role` refinements takes its main role from the first of them:
/// its `scheme` attribute as source and its value as code.
pub proof fn law_main_role_from_refinement(d: EpubMetaEntryData, i: int)
    requires
        0 <= i < d.refinements.0@.len(),
        d.refinements.0@[i].property@ == consts::ROLE@,
        forall|j: int| 0 <= j < i ==> (#[trigger] d.refinements.0@[j]).property@ != consts::ROLE@,
    ensures
        contributor_roles(d).len() > 0,
        contributor_roles(d)[0] == (
            attr_value(d.refinements.0@[i].attributes@, consts::SCHEME@),
            d.refinements.0@[i].value@,
        ),
{
    lemma_property_indices_first(d.refinements.0@, consts::ROLE@, i);
}

/// An identifier with `identifier-type` refinements takes its scheme from the first of
/// them: its `scheme` attribute as source and its value as code.
pub proof fn law_scheme_from_refinement(d: EpubMetaEntryData, i: int)
    requires
        0 <= i < d.refinements.0@.len(),
        d.refinements.0@[i].property@ == consts::IDENTIFIER_TYPE@,
        forall|j: int| 0 <= j < i ==> (#[trigger] d.refinements.0@[j]).property@ != consts::IDENTIFIER_TYPE@,
    ensures
        identifier_scheme(d) == Some((
            attr_value(d.refinements.0@[i].attributes@, consts::SCHEME@),
            d.refinements.0@[i].value@,
        )),
{
    lemma_key_index(d.refinements.0@, consts::IDENTIFIER_TYPE@);
}

} // verus!
