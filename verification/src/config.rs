//! The configuration mapping handed to builders: string keys to string
//! values, with later insertions overriding earlier ones.

use vstd::prelude::*;

use crate::strutil::str_eq;

verus! {

/// A string-to-string configuration mapping.
///
/// Entries are kept in insertion order; a lookup returns the value of the
/// latest insertion under the key.
pub struct ConfigMap {
    entries: Vec<(String, String)>,
}

/// The value the pair list `s` associates with `k`: that of the latest pair
/// whose key is `k`.
pub open spec fn lookup(s: Seq<(Seq<char>, Seq<char>)>, k: Seq<char>) -> Option<Seq<char>>
    decreases s.len(),
{
    if s.len() == 0 {
        None
    } else if s.last().0 == k {
        Some(s.last().1)
    } else {
        lookup(s.drop_last(), k)
    }
}

impl View for ConfigMap {
    type V = Seq<(Seq<char>, Seq<char>)>;

    closed spec fn view(&self) -> Seq<(Seq<char>, Seq<char>)> {
        self.entries@.map_values(|p: (String, String)| (p.0@, p.1@))
    }
}

impl ConfigMap {
    /// An empty mapping: every lookup misses.
    pub fn new() -> (m: ConfigMap)
        ensures
            m@ == Seq::<(Seq<char>, Seq<char>)>::empty(),
    {
        let m = ConfigMap { entries: Vec::new() };
        proof {
            assert(m@ =~= Seq::<(Seq<char>, Seq<char>)>::empty());
        }
        m
    }

    /// Record `key = value`; a later lookup of `key` sees `value`, and every
    /// other key is unaffected.
    pub fn insert(&mut self, key: &str, value: &str)
        ensures
            final(self)@ == old(self)@.push((key@, value@)),
            lookup(final(self)@, key@) == Some(value@),
            forall|k: Seq<char>| k != key@ ==> lookup(final(self)@, k) == lookup(old(self)@, k),
    {
        self.entries.push((key.to_owned(), value.to_owned()));
        proof {
            assert(self@ =~= old(self)@.push((key@, value@)));
            assert(self@.last() == (key@, value@));
            assert(self@.drop_last() =~= old(self)@);
        }
    }

    /// Look the key up: the value of the latest insertion under it, if any.
    pub fn get(&self, key: &str) -> (r: Option<&String>)
        ensures
            match r {
                Some(v) => lookup(self@, key@) == Some(v@),
                None => lookup(self@, key@) is None,
            },
    {
        let n = self.entries.len();
        proof {
            assert(self@.subrange(0, n as int) =~= self@);
        }
        let mut i: usize = n;
        while i > 0
            invariant
                i <= n,
                n == self.entries.len(),
                lookup(self@.subrange(0, i as int), key@) == lookup(self@, key@),
            decreases i,
        {
            i = i - 1;
            proof {
                assert(self@.subrange(0, i as int + 1).last() == self@[i as int]);
                assert(self@.subrange(0, i as int + 1).drop_last() =~= self@.subrange(
                    0,
                    i as int,
                ));
                assert(self@[i as int] == (self.entries@[i as int].0@,
                    self.entries@[i as int].1@));
            }
            if str_eq(self.entries[i].0.as_str(), key) {
                return Some(&self.entries[i].1);
            }
        }
        proof {
            assert(self@.subrange(0, 0) =~= Seq::<(Seq<char>, Seq<char>)>::empty());
        }
        None
    }

    /// Whether the key is present at all.
    pub fn contains_key(&self, key: &str) -> (r: bool)
        ensures
            r == (lookup(self@, key@) is Some),
    {
        match self.get(key) {
            Some(_) => true,
            None => false,
        }
    }
}

} // verus!
