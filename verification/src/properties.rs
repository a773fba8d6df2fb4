//! Property lists as words: what inserting and removing properties does to them.
use vstd::prelude::*;
use crate::element::{has_prop, insert_prop, insert_props, kept_words, removes_any};
use crate::text::{lemma_words_append, lemma_words_shape, lemma_words_single, no_ws, words};

verus! {

/// Words joined by single spaces.
pub open spec fn join(ws: Seq<Seq<char>>) -> Seq<char>
    decreases ws.len(),
{
    if ws.len() == 0 {
        Seq::empty()
    } else if ws.len() == 1 {
        ws[0]
    } else {
        join(ws.drop_last()).push(' ') + ws.last()
    }
}

/// Every one of `ws` is a non-empty word without whitespace.
pub open spec fn well_words(ws: Seq<Seq<char>>) -> bool {
    forall|i: int| 0 <= i < ws.len() ==> (#[trigger] ws[i]).len() > 0 && no_ws(ws[i])
}

/// No word occurs twice in `ws`.
pub open spec fn distinct_words(ws: Seq<Seq<char>>) -> bool {
    forall|i: int, j: int| 0 <= i < j < ws.len() ==> #[trigger] ws[i] != #[trigger] ws[j]
}

/// The words of joined words are those words.
pub proof fn lemma_words_join(ws: Seq<Seq<char>>)
    requires
        well_words(ws),
    ensures
        words(join(ws)) == ws,
    decreases ws.len(),
{
    if ws.len() == 0 {
        assert(words(Seq::<char>::empty()) =~= Seq::<Seq<char>>::empty());
    } else if ws.len() == 1 {
        lemma_words_single(ws[0]);
        assert(ws =~= seq![ws[0]]);
    } else {
        let init = ws.drop_last();
        assert forall|i: int| 0 <= i < init.len() implies (#[trigger] init[i]).len() > 0 && no_ws(init[i]) by {
            assert(init[i] == ws[i]);
        }
        lemma_words_join(init);
        lemma_words_append(join(init), ws.last());
        assert(ws =~= init + seq![ws.last()]);
    }
}


/// Splitting the joined words before the last one.
proof fn lemma_join_last(ws: Seq<Seq<char>>)
    requires
        ws.len() >= 2,
    ensures
        join(ws) == join(ws.drop_last()).push(' ') + ws.last(),
        join(ws).len() == join(ws.drop_last()).len() + 1 + ws.last().len(),
{
}

proof fn lemma_join_nonempty(ws: Seq<Seq<char>>)
    requires
        well_words(ws),
        ws.len() > 0,
    ensures
        join(ws).len() > 0,
    decreases ws.len(),
{
    if ws.len() >= 2 {
        lemma_join_last(ws);
    }
}

/// Inserting a word into distinct joined words appends it unless it is among them.
proof fn lemma_insert_word(ws: Seq<Seq<char>>, p: Seq<char>)
    requires
        well_words(ws),
        p.len() > 0,
        no_ws(p),
    ensures
        insert_prop(join(ws), p) == if ws.contains(p) {
            join(ws)
        } else {
            join(ws.push(p))
        },
{
    lemma_words_join(ws);
    if !ws.contains(p) {
        if ws.len() == 0 {
            assert(ws.push(p) =~= seq![p]);
        } else {
            lemma_join_nonempty(ws);
            assert(ws.push(p).drop_last() =~= ws);
        }
    }
}

proof fn lemma_push_well(ws: Seq<Seq<char>>, p: Seq<char>)
    requires
        well_words(ws),
        distinct_words(ws),
        p.len() > 0,
        no_ws(p),
        !ws.contains(p),
    ensures
        well_words(ws.push(p)),
        distinct_words(ws.push(p)),
{
    let w = ws.push(p);
    assert forall|i: int| 0 <= i < w.len() implies (#[trigger] w[i]).len() > 0 && no_ws(w[i]) by {
        if i < ws.len() {
            assert(w[i] == ws[i]);
        }
    }
    assert forall|i: int, j: int| 0 <= i < j < w.len() implies #[trigger] w[i] != #[trigger] w[j] by {
        assert(w[i] == ws[i]);
        if j == ws.len() {
            assert(ws.contains(ws[i]));
        } else {
            assert(w[j] == ws[j]);
        }
    }
}

proof fn lemma_insert_canonical(ws: Seq<Seq<char>>, ps: Seq<Seq<char>>) -> (r: Seq<Seq<char>>)
    requires
        well_words(ws),
        distinct_words(ws),
        well_words(ps),
    ensures
        crate::element::insert_props(join(ws), ps) == join(r),
        well_words(r),
        distinct_words(r),
        r.len() >= ws.len(),
        forall|i: int| 0 <= i < ws.len() ==> r[i] == ws[i],
        forall|i: int| 0 <= i < ps.len() ==> r.contains(#[trigger] ps[i]),
    decreases ps.len(),
{
    if ps.len() == 0 {
        ws
    } else {
        let p = ps[0];
        lemma_insert_word(ws, p);
        let ws1 = if ws.contains(p) { ws } else { ws.push(p) };
        if !ws.contains(p) {
            lemma_push_well(ws, p);
        }
        let rest = ps.drop_first();
        assert(well_words(rest)) by {
            assert forall|i: int| 0 <= i < rest.len() implies (#[trigger] rest[i]).len() > 0 && no_ws(rest[i]) by {
                assert(rest[i] == ps[i + 1]);
            }
        }
        let r = lemma_insert_canonical(ws1, rest);
        assert(ws1.contains(p)) by {
            if !ws.contains(p) {
                assert(ws1[ws.len() as int] == p);
            }
        }
        let k = choose|k: int| 0 <= k < ws1.len() && ws1[k] == p;
        assert(r[k] == p);
        assert forall|i: int| 0 <= i < ps.len() implies r.contains(#[trigger] ps[i]) by {
            if i > 0 {
                assert(ps[i] == rest[i - 1]);
            }
        }
        assert forall|i: int| 0 <= i < ws.len() implies r[i] == ws[i] by {
            assert(ws1[i] == ws[i]);
        }
        r
    }
}

proof fn lemma_words_well(properties: Seq<char>)
    ensures
        well_words(words(properties)),
{
    crate::text::lemma_words_shape(properties);
}

/// Inserting properties into a property list in canonical form (distinct words joined
/// by single spaces, as insertion builds it) keeps it in canonical form: its words come
/// first, in order, and every inserted property is among the words.
pub proof fn law_insert_keeps_canonical(ws: Seq<Seq<char>>, properties: Seq<char>)
    requires
        well_words(ws),
        distinct_words(ws),
    ensures
        exists|r: Seq<Seq<char>>|
            #![trigger join(r)]
            crate::element::insert_props(join(ws), words(properties)) == join(r) && well_words(r) && distinct_words(r)
                && r.len() >= ws.len() && (forall|i: int| 0 <= i < ws.len() ==> r[i] == ws[i]) && (forall|q: Seq<char>|
                #[trigger] words(properties).contains(q) ==> r.contains(q)),
{
    lemma_words_well(properties);
    let ps = words(properties);
    let r = lemma_insert_canonical(ws, ps);
    assert forall|q: Seq<char>| #[trigger] ps.contains(q) implies r.contains(q) by {
        let i = choose|i: int| 0 <= i < ps.len() && ps[i] == q;
        assert(r.contains(ps[i]));
    }
}


/// The words `ws` with each of `ps` that is not yet among them appended, in order.
pub open spec fn added(ws: Seq<Seq<char>>, ps: Seq<Seq<char>>) -> Seq<Seq<char>>
    decreases ps.len(),
{
    if ps.len() == 0 {
        ws
    } else {
        added(if ws.contains(ps[0]) { ws } else { ws.push(ps[0]) }, ps.drop_first())
    }
}

proof fn lemma_insert_one_words(s: Seq<char>, p: Seq<char>)
    requires
        p.len() > 0,
        no_ws(p),
    ensures
        words(insert_prop(s, p)) == if words(s).contains(p) {
            words(s)
        } else {
            words(s).push(p)
        },
{
    if !words(s).contains(p) {
        if s.len() == 0 {
            assert(words(s) =~= Seq::<Seq<char>>::empty());
            lemma_words_single(p);
            assert(words(s).push(p) =~= seq![p]);
        } else {
            lemma_words_append(s, p);
            assert(words(s) + seq![p] =~= words(s).push(p));
        }
    }
}

proof fn lemma_push_distinct(ws: Seq<Seq<char>>, p: Seq<char>)
    requires
        distinct_words(ws),
        !ws.contains(p),
    ensures
        distinct_words(ws.push(p)),
{
    let w = ws.push(p);
    assert forall|i: int, j: int| 0 <= i < j < w.len() implies #[trigger] w[i] != #[trigger] w[j] by {
        assert(w[i] == ws[i]);
        if j == ws.len() {
            assert(ws.contains(ws[i]));
        } else {
            assert(w[j] == ws[j]);
        }
    }
}

proof fn lemma_insert_words(s: Seq<char>, ps: Seq<Seq<char>>)
    requires
        well_words(ps),
    ensures
        words(insert_props(s, ps)) == added(words(s), ps),
        distinct_words(words(s)) ==> distinct_words(words(insert_props(s, ps))),
    decreases ps.len(),
{
    if ps.len() > 0 {
        let rest = ps.drop_first();
        assert(well_words(rest)) by {
            assert forall|i: int| 0 <= i < rest.len() implies (#[trigger] rest[i]).len() > 0 && no_ws(rest[i]) by {
                assert(rest[i] == ps[i + 1]);
            }
        }
        lemma_insert_one_words(s, ps[0]);
        if distinct_words(words(s)) && !words(s).contains(ps[0]) {
            lemma_push_distinct(words(s), ps[0]);
        }
        lemma_insert_words(insert_prop(s, ps[0]), rest);
    }
}

/// Inserting properties appends to the words of any property list each inserted word
/// that is not yet among them, once and in order of first appearance; a list whose
/// words are distinct keeps them distinct.
pub proof fn law_insert_words(s: Seq<char>, properties: Seq<char>)
    ensures
        words(insert_props(s, words(properties))) == added(words(s), words(properties)),
        distinct_words(words(s)) ==> distinct_words(words(insert_props(s, words(properties)))),
{
    lemma_words_well(properties);
    lemma_insert_words(s, words(properties));
}

proof fn lemma_kept_words(ws: Seq<Seq<char>>, ps: Seq<Seq<char>>)
    ensures
        forall|k: int| 0 <= k < kept_words(ws, ps).len() ==> ws.contains(#[trigger] kept_words(ws, ps)[k])
            && !ps.contains(kept_words(ws, ps)[k]),
    decreases ws.len(),
{
    if ws.len() > 0 {
        let init = ws.drop_last();
        lemma_kept_words(init, ps);
        let kw = kept_words(ws, ps);
        assert forall|k: int| 0 <= k < kw.len() implies ws.contains(#[trigger] kw[k]) && !ps.contains(kw[k]) by {
            let ki = kept_words(init, ps);
            if k < ki.len() {
                assert(kw[k] == ki[k]);
                let j = choose|j: int| 0 <= j < init.len() && init[j] == ki[k];
                assert(ws[j] == init[j]);
            } else {
                assert(kw[k] == ws.last());
                assert(ws[ws.len() - 1] == ws.last());
            }
        }
    }
}

/// Keeping the words of `ws` that are not among `ps` keeps them all when none is.
pub proof fn lemma_kept_none(ws: Seq<Seq<char>>, ps: Seq<Seq<char>>)
    requires
        !(exists|j: int| 0 <= j < ws.len() && ps.contains(#[trigger] ws[j])),
    ensures
        kept_words(ws, ps) == ws,
    decreases ws.len(),
{
    if ws.len() > 0 {
        let init = ws.drop_last();
        assert forall|j: int| 0 <= j < init.len() implies !ps.contains(#[trigger] init[j]) by {
            assert(init[j] == ws[j]);
        }
        lemma_kept_none(init, ps);
        assert(ws[ws.len() - 1] == ws.last());
        assert(init.push(ws.last()) =~= ws);
    }
}

/// After properties are removed from any property list, none of them is left; when
/// one of them was there, the words left are the others, in order, joined by single
/// spaces.
pub proof fn law_remove_then_absent(s: Seq<char>, properties: Seq<char>)
    ensures
        ({
            let after = if removes_any(s, properties) {
                join(kept_words(words(s), words(properties)))
            } else {
                s
            };
            &&& forall|q: Seq<char>| #[trigger] words(properties).contains(q) ==> !has_prop(after, q)
            &&& removes_any(s, properties) ==> words(after) == kept_words(words(s), words(properties))
        }),
{
    let ws = words(s);
    let ps = words(properties);
    let kept = kept_words(ws, ps);
    lemma_words_shape(s);
    lemma_kept_words(ws, ps);
    assert(well_words(kept)) by {
        assert forall|k: int| 0 <= k < kept.len() implies (#[trigger] kept[k]).len() > 0 && no_ws(kept[k]) by {
            assert(ws.contains(kept[k]));
            let j = choose|j: int| 0 <= j < ws.len() && ws[j] == kept[k];
        }
    }
    lemma_words_join(kept);
    if !removes_any(s, properties) {
        assert forall|q: Seq<char>| #[trigger] ps.contains(q) implies !has_prop(s, q) by {
            if has_prop(s, q) {
                let j = choose|j: int| 0 <= j < ws.len() && ws[j] == q;
                assert(ps.contains(ws[j]));
            }
        }
    }
}
} // verus!
