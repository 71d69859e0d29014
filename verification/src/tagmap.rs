//! A small association table from tags to values, kept as two vectors of
//! equal length in which no tag occurs twice.

use crate::actor::Tag;
use vstd::prelude::*;

verus! {

/// A table from tags to values. Its view is the map from the tags' views to
/// the values.
pub struct TagMap<T, V> {
    pub keys: Vec<T>,
    pub vals: Vec<V>,
}

impl<T: Tag, V> TagMap<T, V> {
    /// Both vectors have one length, and no two keys name the same actor.
    pub open spec fn wf(&self) -> bool {
        &&& self.keys.len() == self.vals.len()
        &&& forall|i: int, j: int|
            0 <= i < j < self.keys.len() ==> (#[trigger] self.keys[i])@ != (#[trigger] self.keys[j])@
    }

    /// The number of entries.
    pub open spec fn size(&self) -> nat {
        self.keys@.len()
    }

    /// The view of the tag at position `i`.
    pub open spec fn key_at(&self, i: int) -> T::V {
        self.keys[i]@
    }

    /// The value at position `i`.
    pub open spec fn val_at(&self, i: int) -> V {
        self.vals[i]
    }

    /// Whether position `i` holds the tag with view `k`.
    pub open spec fn holds(&self, i: int, k: T::V) -> bool {
        0 <= i < self.keys.len() && self.key_at(i) == k
    }

    /// A position that holds `k`, where there is one.
    pub open spec fn slot(&self, k: T::V) -> int {
        choose|i: int| self.holds(i, k)
    }

    /// The table as a map.
    pub open spec fn view(&self) -> Map<T::V, V> {
        Map::new(|k: T::V| exists|i: int| self.holds(i, k), |k: T::V| self.vals[self.slot(k)])
    }

    /// In a well-formed table the entry at each position is the map's entry
    /// for that position's tag.
    pub proof fn lemma_position(&self, i: int)
        requires
            self.wf(),
            0 <= i < self.size(),
        ensures
            self@.contains_key(self.key_at(i)),
            self@[self.key_at(i)] == self.val_at(i),
            self.slot(self.key_at(i)) == i,
    {
        let k = self.key_at(i);
        assert(self.holds(i, k));
        let s = self.slot(k);
        assert(self.holds(s, k));
        if s < i {
            assert(self.keys[s]@ != self.keys[i]@);
        } else if i < s {
            assert(self.keys[i]@ != self.keys[s]@);
        }
    }

    /// An empty table.
    pub fn new() -> (m: Self)
        ensures
            m.wf(),
            m.size() == 0,
            m@ == Map::<T::V, V>::empty(),
    {
        let m = TagMap { keys: Vec::new(), vals: Vec::new() };
        assert(m@ =~= Map::<T::V, V>::empty());
        m
    }

    /// The number of entries.
    pub fn len(&self) -> (n: usize)
        requires
            self.wf(),
        ensures
            n == self.size(),
    {
        self.keys.len()
    }

    /// Whether the table has no entry.
    pub fn is_empty(&self) -> (r: bool)
        requires
            self.wf(),
        ensures
            r == (self@ == Map::<T::V, V>::empty()),
            r == (self.size() == 0),
    {
        proof {
            if self.size() == 0 {
                assert(self@ =~= Map::<T::V, V>::empty());
            } else {
                self.lemma_position(0);
            }
        }
        self.keys.len() == 0
    }

    /// The position of `tag`, if the table holds it.
    pub fn find(&self, tag: &T) -> (r: Option<usize>)
        requires
            self.wf(),
        ensures
            match r {
                Some(i) => self.holds(i as int, tag@) && self@.contains_key(tag@) && self@[tag@]
                    == self.val_at(i as int),
                None => !self@.contains_key(tag@),
            },
    {
        let mut i: usize = 0;
        while i < self.keys.len()
            invariant
                self.wf(),
                i <= self.keys.len(),
                forall|j: int| 0 <= j < i ==> !self.holds(j, tag@),
            decreases self.keys.len() - i,
        {
            if self.keys[i].same(tag) {
                proof {
                    self.lemma_position(i as int);
                }
                return Some(i);
            }
            i += 1;
        }
        None
    }

    /// The tag at position `i`.
    pub fn key(&self, i: usize) -> (t: &T)
        requires
            self.wf(),
            i < self.size(),
        ensures
            *t == self.keys[i as int],
    {
        &self.keys[i]
    }

    /// Puts `v` at position `i` and hands out what stood there. The tags and
    /// the other values stay.
    pub fn replace_at(&mut self, i: usize, v: V) -> (prev: V)
        requires
            old(self).wf(),
            i < old(self).size(),
        ensures
            final(self).wf(),
            final(self).keys == old(self).keys,
            final(self).vals@ == old(self).vals@.update(i as int, v),
            prev == old(self).val_at(i as int),
            final(self)@ == old(self)@.insert(old(self).key_at(i as int), v),
    {
        self.vals.push(v);
        let prev = self.vals.swap_remove(i);
        assert(self.vals@ =~= old(self).vals@.update(i as int, v));
        proof {
            let k = old(self).key_at(i as int);
            old(self).lemma_position(i as int);
            assert forall|x: T::V| self@.contains_key(x) <==> #[trigger] old(self)@.insert(
                k,
                v,
            ).contains_key(x) by {
                if self@.contains_key(x) {
                    let j = choose|j: int| self.holds(j, x);
                    assert(old(self).holds(j, x));
                }
                if old(self)@.contains_key(x) {
                    let j = choose|j: int| old(self).holds(j, x);
                    assert(self.holds(j, x));
                }
                if x == k {
                    assert(self.holds(i as int, x));
                }
            }
            assert forall|x: T::V| self@.contains_key(x) implies #[trigger] self@[x] == old(
                self,
            )@.insert(k, v)[x] by {
                let j = choose|j: int| self.holds(j, x);
                self.lemma_position(j);
                old(self).lemma_position(j);
            }
            assert(self@ =~= old(self)@.insert(k, v));
        }
        prev
    }

    /// Binds `tag` to `v`, in place of the value that it had, if any.
    pub fn put(&mut self, tag: T, v: V)
        requires
            old(self).wf(),
        ensures
            final(self).wf(),
            final(self)@ == old(self)@.insert(tag@, v),
            final(self).keys@ == if old(self)@.contains_key(tag@) {
                old(self).keys@
            } else {
                old(self).keys@.push(tag)
            },
    {
        match self.find(&tag) {
            Some(i) => {
                let _ = self.replace_at(i, v);
            },
            None => {
                self.keys.push(tag);
                self.vals.push(v);
                proof {
                    let n = old(self).size() as int;
                    assert forall|i: int, j: int| 0 <= i < j < self.keys.len() implies (
                    #[trigger] self.keys[i])@ != (#[trigger] self.keys[j])@ by {
                        if j == n {
                            assert(!old(self).holds(i, tag@));
                        } else {
                            assert(old(self).keys[i]@ != old(self).keys[j]@);
                        }
                    }
                    assert forall|x: T::V| self@.contains_key(x) <==> #[trigger] old(
                        self,
                    )@.insert(tag@, v).contains_key(x) by {
                        if self@.contains_key(x) {
                            let j = choose|j: int| self.holds(j, x);
                            if j < n {
                                assert(old(self).holds(j, x));
                            }
                        }
                        if old(self)@.contains_key(x) {
                            let j = choose|j: int| old(self).holds(j, x);
                            assert(self.holds(j, x));
                        }
                        if x == tag@ {
                            assert(self.holds(n, x));
                        }
                    }
                    assert forall|x: T::V| self@.contains_key(x) implies #[trigger] self@[x]
                        == old(self)@.insert(tag@, v)[x] by {
                        let j = choose|j: int| self.holds(j, x);
                        self.lemma_position(j);
                        if j < n {
                            old(self).lemma_position(j);
                        }
                    }
                    assert(self@ =~= old(self)@.insert(tag@, v));
                }
            },
        }
    }

    /// Removes the entry of `tag` and hands out its value, if there was one.
    pub fn take(&mut self, tag: &T) -> (r: Option<V>)
        requires
            old(self).wf(),
        ensures
            final(self).wf(),
            final(self)@ == old(self)@.remove(tag@),
            r == if old(self)@.contains_key(tag@) {
                Some(old(self)@[tag@])
            } else {
                None::<V>
            },
    {
        match self.find(tag) {
            Some(i) => {
                let _ = self.keys.swap_remove(i);
                let v = self.vals.swap_remove(i);
                proof {
                    let n = old(self).size() as int;
                    let last = n - 1;
                    // where position `j` of the new table stood in the old one
                    let from = |j: int| if j == i as int { last } else { j };
                    assert forall|j: int| 0 <= j < n - 1 implies self.keys[j] == old(self).keys[from(
                        j,
                    )] && self.vals[j] == old(self).vals[from(j)] by {}
                    assert forall|a: int, b: int| 0 <= a < b < self.keys.len() implies (
                    #[trigger] self.keys[a])@ != (#[trigger] self.keys[b])@ by {
                        let fa = from(a);
                        let fb = from(b);
                        if fa < fb {
                            assert(old(self).keys[fa]@ != old(self).keys[fb]@);
                        } else {
                            assert(old(self).keys[fb]@ != old(self).keys[fa]@);
                        }
                    }
                    assert forall|x: T::V| self@.contains_key(x) <==> #[trigger] old(
                        self,
                    )@.remove(tag@).contains_key(x) by {
                        if self@.contains_key(x) {
                            let j = choose|j: int| self.holds(j, x);
                            assert(old(self).holds(from(j), x));
                            if x == tag@ {
                                let fj = from(j);
                                if fj < i {
                                    assert(old(self).keys[fj]@ != old(self).keys[i as int]@);
                                } else {
                                    assert(old(self).keys[i as int]@ != old(self).keys[fj]@);
                                }
                            }
                        }
                        if old(self)@.contains_key(x) && x != tag@ {
                            let j = choose|j: int| old(self).holds(j, x);
                            if j == last {
                                assert(self.holds(i as int, x));
                            } else {
                                assert(self.holds(j, x));
                            }
                        }
                    }
                    assert forall|x: T::V| self@.contains_key(x) implies #[trigger] self@[x]
                        == old(self)@.remove(tag@)[x] by {
                        let j = choose|j: int| self.holds(j, x);
                        self.lemma_position(j);
                        old(self).lemma_position(from(j));
                    }
                    assert(self@ =~= old(self)@.remove(tag@));
                }
                Some(v)
            },
            None => {
                assert(self@ =~= old(self)@.remove(tag@));
                None
            },
        }
    }
}

} // verus!
