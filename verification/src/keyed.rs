//! An ordered list of items that are looked up by a string key,
//! where inserting an item whose key is present replaces that item in place.
use vstd::prelude::*;
use crate::text::str_eq;

verus! {

/// An item that carries a string key.
pub trait Keyed {
    spec fn spec_key(&self) -> Seq<char>;

    fn key(&self) -> (r: &str)
        ensures
            r@ == self.spec_key(),
    ;
}

/// Index of the first item of `s` whose key is `k`, or `-1`.
pub open spec fn key_index<T: Keyed>(s: Seq<T>, k: Seq<char>) -> int
    decreases s.len(),
{
    if s.len() == 0 {
        -1
    } else if s[0].spec_key() == k {
        0
    } else {
        let r = key_index(s.drop_first(), k);
        if r < 0 {
            -1
        } else {
            r + 1
        }
    }
}

/// `true` when some item of `s` has key `k`.
pub open spec fn has_key<T: Keyed>(s: Seq<T>, k: Seq<char>) -> bool {
    exists|i: int| 0 <= i < s.len() && #[trigger] s[i].spec_key() == k
}

/// The items of `s` whose decision in `d` is `keep`, in order.
pub open spec fn select<T>(s: Seq<T>, d: Seq<bool>, keep: bool) -> Seq<T>
    decreases s.len(),
{
    if s.len() == 0 || d.len() == 0 {
        Seq::empty()
    } else if d[0] == keep {
        seq![s[0]] + select(s.drop_first(), d.drop_first(), keep)
    } else {
        select(s.drop_first(), d.drop_first(), keep)
    }
}

pub proof fn lemma_key_index<T: Keyed>(s: Seq<T>, k: Seq<char>)
    ensures
        -1 <= key_index(s, k) < s.len(),
        key_index(s, k) >= 0 ==> s[key_index(s, k)].spec_key() == k,
        forall|j: int|
            0 <= j < s.len() && (key_index(s, k) < 0 || j < key_index(s, k)) ==> s[j].spec_key()
                != k,
        (key_index(s, k) >= 0) == has_key(s, k),
    decreases s.len(),
{
    if s.len() > 0 && s[0].spec_key() != k {
        lemma_key_index(s.drop_first(), k);
        assert forall|j: int|
            0 <= j < s.len() && (key_index(s, k) < 0 || j < key_index(s, k)) implies s[j].spec_key()
            != k by {
            if j > 0 {
                assert(s[j] == s.drop_first()[j - 1]);
            }
        }
        if has_key(s, k) {
            let i = choose|i: int| 0 <= i < s.len() && #[trigger] s[i].spec_key() == k;
            assert(s.drop_first()[i - 1].spec_key() == k);
        }
        if key_index(s, k) >= 0 {
            assert(s[key_index(s, k)] == s.drop_first()[key_index(s.drop_first(), k)]);
        }
    } else if s.len() > 0 {
        assert(s[0].spec_key() == k);
    }
}

pub proof fn lemma_select_push<T>(s: Seq<T>, d: Seq<bool>, keep: bool, x: T, b: bool)
    requires
        s.len() == d.len(),
    ensures
        select(s.push(x), d.push(b), keep) == if b == keep {
            select(s, d, keep).push(x)
        } else {
            select(s, d, keep)
        },
    decreases s.len(),
{
    if s.len() == 0 {
        assert(s.push(x).drop_first() =~= Seq::<T>::empty());
        assert(d.push(b).drop_first() =~= Seq::<bool>::empty());
        assert(select(Seq::<T>::empty(), Seq::<bool>::empty(), keep) =~= Seq::<T>::empty());
        assert(select(s, d, keep) =~= Seq::<T>::empty());
        assert(s.push(x)[0] == x);
        assert(d.push(b)[0] == b);
        if b == keep {
            assert(select(s.push(x), d.push(b), keep) =~= seq![x]);
        } else {
            assert(select(s.push(x), d.push(b), keep) =~= Seq::<T>::empty());
        }
    } else {
        assert(s.push(x).drop_first() =~= s.drop_first().push(x));
        assert(d.push(b).drop_first() =~= d.drop_first().push(b));
        assert(s.push(x)[0] == s[0]);
        assert(d.push(b)[0] == d[0]);
        lemma_select_push(s.drop_first(), d.drop_first(), keep, x, b);
        if d[0] == keep {
            assert(select(s.push(x), d.push(b), keep) =~= seq![s[0]] + select(
                s.drop_first().push(x),
                d.drop_first().push(b),
                keep,
            ));
        }
    }
}

/// Stores `value` in `dest` and returns the value that was there.
pub fn replace<T>(dest: &mut T, value: T) -> (r: T)
    ensures
        *final(dest) == value,
        r == *old(dest),
{
    let mut value = value;
    std::mem::swap(dest, &mut value);
    value
}

/// An ordered list of keyed items.
#[derive(Clone, Debug, PartialEq)]
pub struct KeyedVec<T>(pub Vec<T>);

impl<T: Keyed> KeyedVec<T> {
    pub open spec fn items(&self) -> Seq<T> {
        self.0@
    }

    pub fn len(&self) -> (r: usize)
        ensures
            r == self.items().len(),
    {
        self.0.len()
    }

    pub fn is_empty(&self) -> (r: bool)
        ensures
            r == (self.items().len() == 0),
    {
        self.0.len() == 0
    }

    pub fn get(&self, index: usize) -> (r: Option<&T>)
        ensures
            match r {
                Some(x) => index < self.items().len() && *x == self.items()[index as int],
                None => index >= self.items().len(),
            },
    {
        if index < self.0.len() {
            Some(&self.0[index])
        } else {
            None
        }
    }

    /// The position of the first item with the given key.
    pub fn position(&self, key: &str) -> (r: Option<usize>)
        ensures
            match r {
                Some(i) => i as int == key_index(self.items(), key@) && i < self.items().len(),
                None => key_index(self.items(), key@) == -1,
            },
    {
        proof {
            lemma_key_index(self.items(), key@);
        }
        let mut i: usize = 0;
        while i < self.0.len()
            invariant
                i <= self.0@.len(),
                forall|j: int| 0 <= j < i ==> self.0@[j].spec_key() != key@,
            decreases self.0.len() - i,
        {
            if str_eq(self.0[i].key(), key) {
                proof {
                    lemma_key_index(self.items(), key@);
                    let f = key_index(self.items(), key@);
                    if f < 0 || f > i {
                    } else if f < i {
                    }
                }
                return Some(i);
            }
            i = i + 1;
        }
        proof {
            if key_index(self.items(), key@) >= 0 {
                assert(self.items()[key_index(self.items(), key@)].spec_key() == key@);
            }
        }
        None
    }

    pub fn by_key(&self, key: &str) -> (r: Option<&T>)
        ensures
            match r {
                Some(x) => key_index(self.items(), key@) >= 0 && *x == self.items()[key_index(
                    self.items(),
                    key@,
                )],
                None => key_index(self.items(), key@) == -1,
            },
    {
        match self.position(key) {
            Some(i) => Some(&self.0[i]),
            None => None,
        }
    }

    /// The item at `index`, for modification, if `index < len`.
    pub fn get_mut(&mut self, index: usize) -> (r: Option<&mut T>)
        ensures
            match r {
                Some(x) => {
                    &&& index < old(self).items().len()
                    &&& *x == old(self).items()[index as int]
                    &&& final(self).items() == old(self).items().update(index as int, *final(x))
                },
                None => index >= old(self).items().len() && final(self).items() == old(self).items(),
            },
    {
        if index < self.0.len() {
            Some(&mut self.0[index])
        } else {
            None
        }
    }

    pub fn by_key_mut(&mut self, key: &str) -> (r: Option<&mut T>)
        ensures
            match r {
                Some(x) => {
                    let i = key_index(old(self).items(), key@);
                    &&& i >= 0
                    &&& *x == old(self).items()[i]
                    &&& final(self).items() == old(self).items().update(i, *final(x))
                },
                None => key_index(old(self).items(), key@) == -1 && final(self).items()
                    == old(self).items(),
            },
    {
        match self.position(key) {
            Some(i) => Some(&mut self.0[i]),
            None => None,
        }
    }

    pub fn has_key(&self, key: &str) -> (r: bool)
        ensures
            r == has_key(self.items(), key@),
    {
        proof {
            lemma_key_index(self.items(), key@);
        }
        self.position(key).is_some()
    }

    /// Replaces the item with the same key in place (returning it), or appends.
    pub fn insert(&mut self, item: T) -> (r: Option<T>)
        ensures
            ({
                let i = key_index(old(self).items(), item.spec_key());
                if i >= 0 {
                    &&& r == Some(old(self).items()[i])
                    &&& final(self).items() == old(self).items().update(i, item)
                } else {
                    &&& r is None
                    &&& final(self).items() == old(self).items().push(item)
                }
            }),
    {
        let pos = self.position(item.key());
        match pos {
            Some(i) => {
                let mut item = item;
                std::mem::swap(&mut self.0[i], &mut item);
                Some(item)
            },
            None => {
                self.0.push(item);
                None
            },
        }
    }

    /// Removes and returns the first item with the given key.
    pub fn remove(&mut self, key: &str) -> (r: Option<T>)
        ensures
            ({
                let i = key_index(old(self).items(), key@);
                if i >= 0 {
                    &&& r == Some(old(self).items()[i])
                    &&& final(self).items() == old(self).items().remove(i)
                } else {
                    &&& r is None
                    &&& final(self).items() == old(self).items()
                }
            }),
    {
        match self.position(key) {
            Some(i) => Some(self.0.remove(i)),
            None => None,
        }
    }

    /// Keeps the items for which `f` answers `false`, in order.
    pub fn retain<F: Fn(&T) -> bool>(&mut self, f: F)
        requires
            forall|x: &T| #[trigger] f.requires((x,)),
        ensures
            exists|d: Seq<bool>|
                #![trigger select(old(self).items(), d, false)]
                d.len() == old(self).items().len() && (forall|i: int|
                    0 <= i < d.len() ==> f.ensures((&old(self).items()[i],), #[trigger] d[i]))
                    && final(self).items() == select(old(self).items(), d, false),
    {
        let (_, kept) = self.split_by(&f);
        self.0 = kept;
    }

    /// Removes the items for which `f` answers `true`, returning them in order.
    pub fn extract_if<F: Fn(&T) -> bool>(&mut self, f: F) -> (r: Vec<T>)
        requires
            forall|x: &T| #[trigger] f.requires((x,)),
        ensures
            exists|d: Seq<bool>|
                #![trigger select(old(self).items(), d, true)]
                d.len() == old(self).items().len() && (forall|i: int|
                    0 <= i < d.len() ==> f.ensures((&old(self).items()[i],), #[trigger] d[i]))
                    && final(self).items() == select(old(self).items(), d, false) && r@ == select(
                    old(self).items(),
                    d,
                    true,
                ),
    {
        let (answered_true, answered_false) = self.split_by(&f);
        self.0 = answered_false;
        answered_true
    }

    /// Splits the items by `f` into the answered-`true` and answered-`false` lists.
    fn split_by<F: Fn(&T) -> bool>(&mut self, f: &F) -> (r: (Vec<T>, Vec<T>))
        requires
            forall|x: &T| #[trigger] f.requires((x,)),
        ensures
            final(self).items().len() == 0,
            exists|d: Seq<bool>|
                #![trigger select(old(self).items(), d, true)]
                d.len() == old(self).items().len() && (forall|i: int|
                    0 <= i < d.len() ==> f.ensures((&old(self).items()[i],), #[trigger] d[i]))
                    && r.0@ == select(old(self).items(), d, true) && r.1@ == select(
                    old(self).items(),
                    d,
                    false,
                ),
    {
        let mut items: Vec<T> = Vec::new();
        std::mem::swap(&mut items, &mut self.0);
        assert(items@ == old(self).items());
        split_vec(items, f)
    }

    /// Removes and returns every item, in order.
    pub fn drain(&mut self) -> (r: Vec<T>)
        ensures
            r@ == old(self).items(),
            final(self).items().len() == 0,
    {
        let mut items: Vec<T> = Vec::new();
        std::mem::swap(&mut items, &mut self.0);
        items
    }

    pub fn clear(&mut self)
        ensures
            final(self).items().len() == 0,
    {
        self.0.clear();
    }
}


/// Splits `items` by `f` into the answered-`true` and answered-`false` lists, each in order.
pub fn split_vec<T, F: Fn(&T) -> bool>(items: Vec<T>, f: &F) -> (r: (Vec<T>, Vec<T>))
    requires
        forall|x: &T| #[trigger] f.requires((x,)),
    ensures
        exists|d: Seq<bool>|
            #![trigger select(items@, d, true)]
            d.len() == items@.len() && (forall|i: int|
                0 <= i < d.len() ==> f.ensures((&items@[i],), #[trigger] d[i])) && r.0@ == select(
                items@,
                d,
                true,
            ) && r.1@ == select(items@, d, false),
{
    let ghost all = items@;
    let mut items = items;
    let mut kept: Vec<T> = Vec::new();
    let mut removed: Vec<T> = Vec::new();
    let ghost mut d: Seq<bool> = Seq::empty();
    let ghost mut done: int = 0;
    assert(all.skip(0) =~= all);
    assert(all.take(0) =~= Seq::<T>::empty());
    while items.len() > 0
        invariant
            forall|x: &T| #[trigger] f.requires((x,)),
            0 <= done <= all.len(),
            items@ == all.skip(done),
            d.len() == done,
            forall|i: int| 0 <= i < d.len() ==> f.ensures((&all[i],), #[trigger] d[i]),
            kept@ == select(all.take(done), d, true),
            removed@ == select(all.take(done), d, false),
        decreases items.len(),
    {
        let x = items.remove(0);
        let b = f(&x);
        proof {
            assert(x == all[done]);
            assert(all.take(done + 1) =~= all.take(done).push(x));
            lemma_select_push(all.take(done), d, true, x, b);
            lemma_select_push(all.take(done), d, false, x, b);
            d = d.push(b);
            assert(all.skip(done + 1) =~= all.skip(done).drop_first());
            done = done + 1;
        }
        if b {
            kept.push(x);
        } else {
            removed.push(x);
        }
    }
    assert(all.take(done) =~= all);
    (kept, removed)
}

} // verus!
