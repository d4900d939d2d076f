//! A map from texts to texts, kept as a list of entries where a later entry for a key
//! replaces an earlier one.

use vstd::prelude::*;
use crate::text::same_text;

verus! {

/// The value of the last entry for `k`.
pub open spec fn lookup(s: Seq<(Seq<char>, Seq<char>)>, k: Seq<char>) -> Option<Seq<char>>
    decreases s.len(),
{
    if s.len() == 0 {
        None
    } else if s.last().0 == k {
        Some(s.last().1)
    } else {
        lookup(s.drop_last(), k)
    }
}

/// The map that a list of entries stands for.
pub open spec fn map_of(s: Seq<(Seq<char>, Seq<char>)>) -> Map<Seq<char>, Seq<char>> {
    Map::new(|k: Seq<char>| lookup(s, k) is Some, |k: Seq<char>| lookup(s, k)->0)
}

/// The texts of a list of entries.
pub open spec fn views_of(v: Seq<(String, String)>) -> Seq<(Seq<char>, Seq<char>)> {
    v.map_values(|e: (String, String)| (e.0@, e.1@))
}

pub struct StrMap {
    entries: Vec<(String, String)>,
}

impl StrMap {
    pub closed spec fn entry_views(&self) -> Seq<(Seq<char>, Seq<char>)> {
        views_of(self.entries@)
    }
}

impl View for StrMap {
    type V = Map<Seq<char>, Seq<char>>;

    closed spec fn view(&self) -> Map<Seq<char>, Seq<char>> {
        map_of(self.entry_views())
    }
}

impl StrMap {
    /// An empty map.
    pub fn new() -> (r: StrMap)
        ensures
            r@ == Map::<Seq<char>, Seq<char>>::empty(),
    {
        let r = StrMap { entries: Vec::new() };
        assert(r@ =~= Map::<Seq<char>, Seq<char>>::empty());
        r
    }

    /// Sets `key` to `value`.
    pub fn insert(&mut self, key: String, value: String)
        ensures
            final(self)@ == old(self)@.insert(key@, value@),
    {
        let ghost old_views = self.entry_views();
        self.entries.push((key, value));
        proof {
            let nv = self.entry_views();
            assert(nv.drop_last() =~= old_views);
            assert(nv.last() == (key@, value@));
            assert forall|k: Seq<char>| lookup(nv, k) == if k == key@ {
                Some(value@)
            } else {
                lookup(old_views, k)
            } by {}
        }
        assert(self@ =~= old(self)@.insert(key@, value@));
    }

    /// The value for `key`, if there is one.
    pub fn get(&self, key: &str) -> (r: Option<&String>)
        ensures
            match r {
                Some(v) => self@.contains_key(key@) && v@ == self@[key@],
                None => !self@.contains_key(key@),
            },
    {
        let ghost s = self.entry_views();
        let mut m = self.entries.len();
        assert(s.take(m as int) =~= s);
        while m > 0
            invariant
                s == self.entry_views(),
                m <= s.len(),
                s.len() == self.entries@.len(),
                lookup(s, key@) == lookup(s.take(m as int), key@),
            decreases m,
        {
            let e = &self.entries[m - 1];
            assert(s.take(m as int).drop_last() =~= s.take(m - 1));
            assert(s.take(m as int).last() == (e.0@, e.1@));
            if same_text(e.0.as_str(), key) {
                return Some(&e.1);
            }
            m = m - 1;
        }
        None
    }

    /// Whether `key` has a value.
    pub fn contains_key(&self, key: &str) -> (r: bool)
        ensures
            r == self@.contains_key(key@),
    {
        self.get(key).is_some()
    }

    /// Drops the value for `key`.
    pub fn remove(&mut self, key: &str)
        ensures
            final(self)@ == old(self)@.remove(key@),
    {
        let ghost s = self.entry_views();
        let mut kept: Vec<(String, String)> = Vec::new();
        let n = self.entries.len();
        let mut i: usize = 0;
        while i < n
            invariant
                n == self.entries@.len(),
                s == self.entry_views(),
                i <= n,
                forall|k: Seq<char>|
                    #[trigger] lookup(views_of(kept@), k)
                        == if k == key@ {
                        None
                    } else {
                        lookup(s.take(i as int), k)
                    },
            decreases n - i,
        {
            let ghost before = views_of(kept@);
            let e = &self.entries[i];
            assert(s.take(i + 1).drop_last() =~= s.take(i as int));
            assert(s.take(i + 1).last() == (e.0@, e.1@));
            let same = same_text(e.0.as_str(), key);
            if !same {
                kept.push((e.0.clone(), e.1.clone()));
                let ghost after = views_of(kept@);
                assert(after.drop_last() =~= before);
                assert(after.last() == (e.0@, e.1@));
            }
            proof {
                let t = s.take(i + 1);
                assert forall|k: Seq<char>|
                    #[trigger] lookup(views_of(kept@), k) == if k == key@ {
                        None
                    } else {
                        lookup(t, k)
                    } by {
                    assert(lookup(t, k) == if t.last().0 == k {
                        Some(t.last().1)
                    } else {
                        lookup(t.drop_last(), k)
                    });
                    assert(lookup(before, k) == if k == key@ {
                        None
                    } else {
                        lookup(s.take(i as int), k)
                    });
                    if !same {
                        let a = views_of(kept@);
                        assert(a.drop_last() =~= before);
                        assert(lookup(a, k) == if a.last().0 == k {
                            Some(a.last().1)
                        } else {
                            lookup(a.drop_last(), k)
                        });
                    }
                }
            }
            i = i + 1;
        }
        assert(s.take(n as int) =~= s);
        self.entries = kept;
        assert(self@ =~= old(self)@.remove(key@));
    }

    /// Sets every key of `other` to its value there.
    pub fn extend(&mut self, other: &StrMap)
        ensures
            final(self)@ == old(self)@.union_prefer_right(other@),
    {
        let ghost o = other.entry_views();
        let n = other.entries.len();
        let mut i: usize = 0;
        assert(map_of(o.take(0)) =~= Map::<Seq<char>, Seq<char>>::empty());
        assert(self@ =~= old(self)@.union_prefer_right(map_of(o.take(0))));
        while i < n
            invariant
                n == other.entries@.len(),
                o == other.entry_views(),
                i <= n,
                self@ == old(self)@.union_prefer_right(map_of(o.take(i as int))),
            decreases n - i,
        {
            let e = &other.entries[i];
            let ghost before = self@;
            self.insert(e.0.clone(), e.1.clone());
            proof {
                assert(o.take(i + 1).drop_last() =~= o.take(i as int));
                assert(o.take(i + 1).last() == (e.0@, e.1@));
                assert(map_of(o.take(i + 1)) =~= map_of(o.take(i as int)).insert(e.0@, e.1@));
            }
            assert(self@ =~= old(self)@.union_prefer_right(map_of(o.take(i + 1))));
            i = i + 1;
        }
        assert(o.take(n as int) =~= o);
    }
}

} // verus!
