//! The path-keyed byte store backing the compiled-in backends.
//!
//! The store is an association list of `(path, bytes)` entries with unique
//! keys; its mathematical model is the finite map from path characters to
//! byte sequences. All capability operations of the facade bottom out here.

use vstd::prelude::*;

use crate::strutil::is_prefix_of;
use crate::strutil::str_eq;
use crate::strutil::str_has_prefix;

verus! {

/// The view of an entry list: each pair as (characters, bytes).
pub open spec fn entry_views(s: Seq<(String, Vec<u8>)>) -> Seq<(Seq<char>, Seq<u8>)> {
    s.map_values(|p: (String, Vec<u8>)| (p.0@, p.1@))
}

/// The finite map an association list denotes; later entries win.
pub open spec fn assoc_map(s: Seq<(Seq<char>, Seq<u8>)>) -> Map<Seq<char>, Seq<u8>>
    decreases s.len(),
{
    if s.len() == 0 {
        Map::empty()
    } else {
        assoc_map(s.drop_last()).insert(s.last().0, s.last().1)
    }
}

/// Whether no two entries share a key.
pub open spec fn keys_unique(s: Seq<(Seq<char>, Seq<u8>)>) -> bool {
    forall|i: int, j: int| 0 <= i < j < s.len() ==> s[i].0 != s[j].0
}

/// The keys of an association list, in entry order.
pub open spec fn keys_of(s: Seq<(Seq<char>, Seq<u8>)>) -> Seq<Seq<char>> {
    s.map_values(|p: (Seq<char>, Seq<u8>)| p.0)
}

/// A key is in the denoted map exactly when some entry holds it.
pub proof fn lemma_assoc_dom(s: Seq<(Seq<char>, Seq<u8>)>, k: Seq<char>)
    ensures
        assoc_map(s).dom().contains(k) <==> exists|i: int| 0 <= i < s.len() && s[i].0 == k,
    decreases s.len(),
{
    if s.len() > 0 {
        lemma_assoc_dom(s.drop_last(), k);
        if s.last().0 == k {
            assert(s[s.len() - 1].0 == k);
        } else if exists|i: int| 0 <= i < s.len() && s[i].0 == k {
            let i = choose|i: int| 0 <= i < s.len() && s[i].0 == k;
            assert(s.drop_last()[i] == s[i]);
        }
    }
}

/// Under unique keys, the map sends each entry's key to that entry's bytes.
pub proof fn lemma_assoc_index(s: Seq<(Seq<char>, Seq<u8>)>, i: int)
    requires
        keys_unique(s),
        0 <= i < s.len(),
    ensures
        assoc_map(s).contains_pair(s[i].0, s[i].1),
    decreases s.len(),
{
    if i == s.len() - 1 {
    } else {
        assert(keys_unique(s.drop_last())) by {
            assert(forall|a: int, b: int|
                0 <= a < b < s.len() - 1 ==> s.drop_last()[a] == s[a] && s.drop_last()[b] == s[b]);
        }
        lemma_assoc_index(s.drop_last(), i);
        assert(s.drop_last()[i] == s[i]);
        assert(s[i].0 != s.last().0);
    }
}

/// Removing an entry removes exactly its key from the denoted map.
pub proof fn lemma_assoc_remove(s: Seq<(Seq<char>, Seq<u8>)>, i: int)
    requires
        keys_unique(s),
        0 <= i < s.len(),
    ensures
        assoc_map(s.remove(i)) =~= assoc_map(s).remove(s[i].0),
    decreases s.len(),
{
    let k = s[i].0;
    if i == s.len() - 1 {
        assert(s.remove(i) =~= s.drop_last());
        lemma_assoc_dom(s.drop_last(), k);
        assert(forall|j: int| 0 <= j < s.len() - 1 ==> s.drop_last()[j] == s[j]);
        assert(!assoc_map(s.drop_last()).dom().contains(k));
        assert(assoc_map(s.drop_last()) =~= assoc_map(s.drop_last()).insert(
            s.last().0,
            s.last().1,
        ).remove(k));
    } else {
        assert(keys_unique(s.drop_last())) by {
            assert(forall|a: int, b: int|
                0 <= a < b < s.len() - 1 ==> s.drop_last()[a] == s[a] && s.drop_last()[b] == s[b]);
        }
        lemma_assoc_remove(s.drop_last(), i);
        assert(s.remove(i).drop_last() =~= s.drop_last().remove(i));
        assert(s.remove(i).last() == s.last());
        assert(k != s.last().0);
        assert(assoc_map(s.remove(i)) =~= assoc_map(s.drop_last().remove(i)).insert(
            s.last().0,
            s.last().1,
        ));
    }
}

/// Every element a filter keeps comes from the filtered sequence.
pub proof fn lemma_filter_sub<A>(s: Seq<A>, pred: spec_fn(A) -> bool)
    ensures
        forall|i: int| 0 <= i < s.filter(pred).len() ==> s.contains(#[trigger] s.filter(pred)[i]),
    decreases s.len(),
{
    reveal(Seq::filter);
    if s.len() > 0 {
        lemma_filter_sub(s.drop_last(), pred);
        assert forall|i: int| 0 <= i < s.filter(pred).len() implies s.contains(
            #[trigger] s.filter(pred)[i],
        ) by {
            let out = s.filter(pred);
            if pred(s.last()) && i == out.len() - 1 {
                assert(s[s.len() - 1] == out[i]);
            } else {
                assert(out[i] == s.drop_last().filter(pred)[i]);
                assert(s.drop_last().contains(out[i]));
                let j = choose|j: int| 0 <= j < s.drop_last().len() && s.drop_last()[j] == out[i];
                assert(s[j] == out[i]);
            }
        }
    }
}

/// A filter of a duplicate-free sequence is duplicate-free.
pub proof fn lemma_filter_no_dup<A>(s: Seq<A>, pred: spec_fn(A) -> bool)
    requires
        s.no_duplicates(),
    ensures
        s.filter(pred).no_duplicates(),
    decreases s.len(),
{
    reveal(Seq::filter);
    if s.len() > 0 {
        assert(s.drop_last().no_duplicates());
        lemma_filter_no_dup(s.drop_last(), pred);
        lemma_filter_sub(s.drop_last(), pred);
        let base = s.drop_last().filter(pred);
        if pred(s.last()) {
            assert(s.filter(pred) == base.push(s.last()));
            assert(forall|j: int| 0 <= j < s.drop_last().len() ==> s.drop_last()[j] == s[j]);
            assert(!base.contains(s.last())) by {
                if base.contains(s.last()) {
                    let t = choose|t: int| 0 <= t < base.len() && base[t] == s.last();
                    assert(s.drop_last().contains(base[t]));
                }
            }
            assert forall|a: int, b: int|
                0 <= a < b < s.filter(pred).len() implies s.filter(pred)[a] != s.filter(
                pred,
            )[b] by {
                if b < s.filter(pred).len() - 1 {
                    assert(s.filter(pred)[a] == base[a] && s.filter(pred)[b] == base[b]);
                } else {
                    assert(s.filter(pred)[a] == base[a]);
                    assert(base.contains(base[a]));
                }
            }
        }
    }
}

/// Copy a byte vector.
pub fn clone_bytes(v: &Vec<u8>) -> (r: Vec<u8>)
    ensures
        r@ == v@,
{
    let mut r: Vec<u8> = Vec::new();
    let mut i: usize = 0;
    while i < v.len()
        invariant
            i <= v.len(),
            r@ == v@.subrange(0, i as int),
        decreases v.len() - i,
    {
        r.push(v[i]);
        proof {
            assert(r@ =~= v@.subrange(0, i + 1));
        }
        i = i + 1;
    }
    proof {
        assert(r@ =~= v@);
    }
    r
}

/// The path-keyed byte store: the state every compiled-in backend keeps.
pub struct Store {
    entries: Vec<(String, Vec<u8>)>,
}

impl View for Store {
    type V = Map<Seq<char>, Seq<u8>>;

    closed spec fn view(&self) -> Map<Seq<char>, Seq<u8>> {
        assoc_map(entry_views(self.entries@))
    }
}

impl Store {
    /// Well-formedness: no two entries share a path.
    pub closed spec fn wf(&self) -> bool {
        keys_unique(entry_views(self.entries@))
    }

    /// An empty store.
    pub fn new() -> (s: Store)
        ensures
            s.wf(),
            s@ == Map::<Seq<char>, Seq<u8>>::empty(),
    {
        let s = Store { entries: Vec::new() };
        proof {
            assert(entry_views(s.entries@) =~= Seq::<(Seq<char>, Seq<u8>)>::empty());
        }
        s
    }

    /// The index of the entry holding `path`, if any.
    fn find_index(&self, path: &str) -> (r: Option<usize>)
        ensures
            match r {
                Some(i) => i < self.entries@.len() && entry_views(self.entries@)[i as int].0
                    == path@,
                None => forall|j: int|
                    0 <= j < self.entries@.len() ==> entry_views(self.entries@)[j].0 != path@,
            },
    {
        let mut i: usize = 0;
        while i < self.entries.len()
            invariant
                i <= self.entries.len(),
                forall|j: int| 0 <= j < i ==> entry_views(self.entries@)[j].0 != path@,
            decreases self.entries.len() - i,
        {
            proof {
                assert(entry_views(self.entries@)[i as int] == (self.entries@[i as int].0@,
                    self.entries@[i as int].1@));
            }
            if str_eq(self.entries[i].0.as_str(), path) {
                return Some(i);
            }
            i = i + 1;
        }
        None
    }

    /// The bytes stored under the path, if any.
    pub fn get(&self, path: &str) -> (r: Option<&Vec<u8>>)
        requires
            self.wf(),
        ensures
            match r {
                Some(v) => self@.dom().contains(path@) && v@ == self@[path@],
                None => !self@.dom().contains(path@),
            },
    {
        let r = self.find_index(path);
        proof {
            lemma_assoc_dom(entry_views(self.entries@), path@);
            if let Some(i) = r {
                lemma_assoc_index(entry_views(self.entries@), i as int);
            }
        }
        match r {
            Some(i) => {
                proof {
                    assert(entry_views(self.entries@)[i as int].1 == self.entries@[i as int].1@);
                }
                Some(&self.entries[i].1)
            },
            None => None,
        }
    }

    /// Whether the path holds an entry.
    pub fn contains(&self, path: &str) -> (r: bool)
        requires
            self.wf(),
        ensures
            r == self@.dom().contains(path@),
    {
        match self.get(path) {
            Some(_) => true,
            None => false,
        }
    }

    /// Store `value` under `path`, replacing any earlier entry.
    pub fn set(&mut self, path: &str, value: Vec<u8>)
        requires
            old(self).wf(),
        ensures
            final(self).wf(),
            final(self)@ == old(self)@.insert(path@, value@),
    {
        let ghost orig = entry_views(self.entries@);
        let found = self.find_index(path);
        match found {
            Some(i) => {
                self.entries.remove(i);
                proof {
                    assert(entry_views(self.entries@) =~= orig.remove(i as int));
                    lemma_assoc_remove(orig, i as int);
                    assert(keys_unique(orig.remove(i as int))) by {
                        assert(forall|a: int|
                            0 <= a < orig.remove(i as int).len() ==> orig.remove(i as int)[a]
                                == (if a < i {
                                orig[a]
                            } else {
                                orig[a + 1]
                            }));
                    }
                    lemma_assoc_dom(orig.remove(i as int), path@);
                    assert(forall|a: int|
                        0 <= a < orig.remove(i as int).len() ==> orig.remove(i as int)[a].0
                            != path@);
                }
            },
            None => {
                proof {
                    lemma_assoc_dom(orig, path@);
                }
            },
        }
        let ghost mid = entry_views(self.entries@);
        self.entries.push((path.to_owned(), value));
        proof {
            assert(entry_views(self.entries@) =~= mid.push((path@, value@)));
            assert(entry_views(self.entries@).drop_last() =~= mid);
            assert(entry_views(self.entries@).last() == (path@, value@));
            // the pushed key is absent from `mid`, so uniqueness holds
            assert(forall|a: int| 0 <= a < mid.len() ==> mid[a].0 != path@);
            assert(final(self).wf()) by {
                let whole = entry_views(self.entries@);
                assert(forall|a: int, b: int|
                    0 <= a < b < whole.len() && b < whole.len() - 1 ==> whole[a] == mid[a]
                        && whole[b] == mid[b]);
            }
            assert(self@ =~= old(self)@.insert(path@, value@)) by {
                lemma_assoc_dom(orig, path@);
            }
        }
    }

    /// Drop the entry under `path`; absent paths are left as they are.
    pub fn remove(&mut self, path: &str)
        requires
            old(self).wf(),
        ensures
            final(self).wf(),
            final(self)@ == old(self)@.remove(path@),
    {
        let ghost orig = entry_views(self.entries@);
        let found = self.find_index(path);
        match found {
            Some(i) => {
                self.entries.remove(i);
                proof {
                    assert(entry_views(self.entries@) =~= orig.remove(i as int));
                    lemma_assoc_remove(orig, i as int);
                    assert(keys_unique(orig.remove(i as int))) by {
                        assert(forall|a: int|
                            0 <= a < orig.remove(i as int).len() ==> orig.remove(i as int)[a]
                                == (if a < i {
                                orig[a]
                            } else {
                                orig[a + 1]
                            }));
                    }
                }
            },
            None => {
                proof {
                    lemma_assoc_dom(orig, path@);
                    assert(self@ =~= old(self)@.remove(path@));
                }
            },
        }
    }

    /// All stored paths that open with `prefix`, in entry order: every
    /// listed path is stored and has the prefix, every stored path with the
    /// prefix is listed, and no path is listed twice.
    pub fn keys_with_prefix(&self, prefix: &str) -> (r: Vec<String>)
        requires
            self.wf(),
        ensures
            r@.map_values(|s: String| s@).no_duplicates(),
            forall|t: int|
                0 <= t < r@.len() ==> is_prefix_of(prefix@, (#[trigger] r@[t])@)
                    && self@.dom().contains(r@[t]@),
            forall|k: Seq<char>|
                #[trigger] self@.dom().contains(k) && is_prefix_of(prefix@, k) ==> r@.map_values(
                    |s: String| s@,
                ).contains(k),
    {
        let ghost pred = |k: Seq<char>| is_prefix_of(prefix@, k);
        let ghost whole = keys_of(entry_views(self.entries@));
        let mut r: Vec<String> = Vec::new();
        let mut i: usize = 0;
        while i < self.entries.len()
            invariant
                i <= self.entries.len(),
                whole == keys_of(entry_views(self.entries@)),
                pred == (|k: Seq<char>| is_prefix_of(prefix@, k)),
                r@.map_values(|s: String| s@) == whole.subrange(0, i as int).filter(pred),
            decreases self.entries.len() - i,
        {
            let ghost prev = whole.subrange(0, i as int);
            proof {
                reveal(Seq::filter);
                assert(whole.subrange(0, i as int + 1).drop_last() =~= prev);
                assert(whole.subrange(0, i as int + 1).last() == whole[i as int]);
                assert(entry_views(self.entries@)[i as int] == (self.entries@[i as int].0@,
                    self.entries@[i as int].1@));
                assert(whole[i as int] == self.entries@[i as int].0@);
            }
            if str_has_prefix(prefix, self.entries[i].0.as_str()) {
                r.push(self.entries[i].0.clone());
                proof {
                    reveal(Seq::filter);
                    assert(r@.map_values(|s: String| s@) =~= prev.filter(pred).push(
                        whole[i as int],
                    ));
                    assert(whole.subrange(0, i as int + 1).filter(pred) == prev.filter(pred).push(
                        whole[i as int],
                    ));
                }
            } else {
                proof {
                    reveal(Seq::filter);
                    assert(whole.subrange(0, i as int + 1).filter(pred) == prev.filter(pred));
                }
            }
            i = i + 1;
        }
        proof {
            assert(whole.subrange(0, self.entries@.len() as int) =~= whole);
            let rv = r@.map_values(|s: String| s@);
            assert(rv == whole.filter(pred));
            assert(whole.no_duplicates()) by {
                assert(forall|a: int, b: int|
                    0 <= a < b < whole.len() ==> whole[a] == entry_views(self.entries@)[a].0
                        && whole[b] == entry_views(self.entries@)[b].0);
            }
            lemma_filter_no_dup(whole, pred);
            lemma_filter_sub(whole, pred);
            broadcast use vstd::seq_lib::group_filter_ensures;
            assert(forall|t: int| 0 <= t < r@.len() ==> rv[t] == (#[trigger] r@[t])@);
            assert forall|t: int| 0 <= t < rv.len() implies is_prefix_of(prefix@, rv[t])
                && self@.dom().contains(rv[t]) by {
                assert(pred(rv[t]));
                assert(whole.contains(rv[t]));
                let j = choose|j: int| 0 <= j < whole.len() && whole[j] == rv[t];
                assert(entry_views(self.entries@)[j].0 == rv[t]);
                lemma_assoc_dom(entry_views(self.entries@), rv[t]);
            }
            assert forall|k: Seq<char>|
                #[trigger] self@.dom().contains(k) && is_prefix_of(prefix@, k) implies rv.contains(
                k,
            ) by {
                lemma_assoc_dom(entry_views(self.entries@), k);
                let j = choose|j: int|
                    0 <= j < entry_views(self.entries@).len() && entry_views(self.entries@)[j].0
                        == k;
                assert(whole[j] == k);
                assert(pred(whole[j]));
                assert(whole.filter(pred).contains(whole[j]));
            }
            assert(rv.len() == r@.len());
        }
        r
    }
}

} // verus!
