//! A table keyed by opaque token strings, the shape shared by the session,
//! invite and in-progress-post registries.
//!
//! Entries are held in a vector of `(token, value)` pairs whose keys are
//! pairwise distinct; the table's view is the finite `Map` from token
//! characters to values. Tokens are long random strings and the tables are
//! small, so linear scans are fine; in exchange every operation, including
//! key enumeration, is verified.

use vstd::prelude::*;
use vstd::seq_lib::*;

verus! {

pub struct TokenTable<V> {
    entries: Vec<(String, V)>,
}

impl<V> View for TokenTable<V> {
    type V = Map<Seq<char>, V>;

    closed spec fn view(&self) -> Map<Seq<char>, V> {
        Map::new(
            |k: Seq<char>| self.key_seq().contains(k),
            |k: Seq<char>| self.entries@[self.index_of(k)].1,
        )
    }
}

impl<V> TokenTable<V> {
    /// The tokens' views, in insertion order; under `wf` they enumerate the
    /// table's keys without repetition.
    pub closed spec fn key_seq(&self) -> Seq<Seq<char>> {
        self.entries@.map_values(|e: (String, V)| e.0@)
    }

    /// The position of the entry whose token reads `k`.
    closed spec fn index_of(&self, k: Seq<char>) -> int {
        choose|i: int| 0 <= i < self.entries@.len() && self.entries@[i].0@ == k
    }

    pub open spec fn wf(&self) -> bool {
        self.key_seq().no_duplicates()
    }

    /// The entry at position `i` is the table's entry for its token.
    proof fn lemma_at(&self, i: int)
        requires
            self.wf(),
            0 <= i < self.key_seq().len(),
        ensures
            self@.contains_key(self.key_seq()[i]),
            self@[self.key_seq()[i]] == self.entries@[i].1,
    {
        let k = self.key_seq()[i];
        assert(self.entries@[i].0@ == k);
        assert(self.key_seq().contains(k));
        let j = self.index_of(k);
        assert(0 <= j < self.entries@.len() && self.entries@[j].0@ == k);
        if i != j {
            assert(self.key_seq()[j] == k);
            assert(false);
        }
    }

    pub fn new() -> (r: Self)
        ensures
            r@ == Map::<Seq<char>, V>::empty(),
            r.wf(),
    {
        let r = TokenTable { entries: Vec::new() };
        proof {
            assert(r.key_seq() =~= Seq::<Seq<char>>::empty());
            assert(r@ =~= Map::<Seq<char>, V>::empty());
        }
        r
    }

    /// How many entries the table holds.
    pub fn num_tokens(&self) -> (r: usize)
        requires
            self.wf(),
        ensures
            r == self.key_seq().len(),
            r == self@.len(),
    {
        proof {
            self.lemma_size();
        }
        self.entries.len()
    }

    /// The token at position `i` of the enumeration.
    pub fn token_at(&self, i: usize) -> (r: &String)
        requires
            self.wf(),
            i < self.key_seq().len(),
        ensures
            r@ == self.key_seq()[i as int],
            self@.contains_key(r@),
    {
        proof {
            self.lemma_at(i as int);
        }
        &self.entries[i].0
    }

    /// The value at position `i` of the enumeration.
    pub fn value_at(&self, i: usize) -> (r: &V)
        requires
            self.wf(),
            i < self.key_seq().len(),
        ensures
            *r == self@[self.key_seq()[i as int]],
    {
        proof {
            self.lemma_at(i as int);
        }
        &self.entries[i].1
    }

    pub fn contains(&self, token: &String) -> (r: bool)
        requires
            self.wf(),
        ensures
            r == self@.contains_key(token@),
    {
        let mut i: usize = 0;
        let n = self.entries.len();
        while i < n
            invariant
                self.wf(),
                n == self.entries@.len(),
                i <= n,
                forall|j: int| 0 <= j < i ==> self.entries@[j].0@ != token@,
            decreases n - i,
        {
            if self.entries[i].0.eq(token) {
                proof {
                    assert(self.key_seq()[i as int] == token@);
                }
                return true;
            }
            i += 1;
        }
        proof {
            assert forall|j: int| 0 <= j < self.key_seq().len() implies self.key_seq()[j]
                != token@ by {
                assert(self.entries@[j].0@ != token@);
            }
        }
        false
    }

    pub fn get(&self, token: &String) -> (r: Option<&V>)
        requires
            self.wf(),
        ensures
            match r {
                Some(v) => self@.contains_key(token@) && *v == self@[token@],
                None => !self@.contains_key(token@),
            },
    {
        let mut i: usize = 0;
        let n = self.entries.len();
        while i < n
            invariant
                self.wf(),
                n == self.entries@.len(),
                i <= n,
                forall|j: int| 0 <= j < i ==> self.entries@[j].0@ != token@,
            decreases n - i,
        {
            if self.entries[i].0.eq(token) {
                proof {
                    assert(self.key_seq()[i as int] == token@);
                    self.lemma_at(i as int);
                }
                return Some(&self.entries[i].1);
            }
            i += 1;
        }
        proof {
            assert forall|j: int| 0 <= j < self.key_seq().len() implies self.key_seq()[j]
                != token@ by {
                assert(self.entries@[j].0@ != token@);
            }
        }
        None
    }

    /// Removes the entry under `token` and hands it out, if there is one.
    pub fn take(&mut self, token: &String) -> (r: Option<V>)
        requires
            old(self).wf(),
        ensures
            final(self).wf(),
            final(self)@ == old(self)@.remove(token@),
            match r {
                Some(v) => old(self)@.contains_key(token@) && v == old(self)@[token@],
                None => !old(self)@.contains_key(token@),
            },
    {
        let ghost pre = *self;
        let mut i: usize = 0;
        let n = self.entries.len();
        while i < n
            invariant
                *self == pre,
                pre == *old(self),
                pre.wf(),
                n == self.entries@.len(),
                i <= n,
                forall|j: int| 0 <= j < i ==> self.entries@[j].0@ != token@,
            decreases n - i,
        {
            if self.entries[i].0.eq(token) {
                proof {
                    assert(pre.key_seq()[i as int] == token@);
                    pre.lemma_at(i as int);
                }
                let e = self.entries.remove(i);
                proof {
                    let ks = pre.key_seq();
                    assert(self.key_seq() =~= ks.remove(i as int));
                    ks.remove_ensures(i as int);
                    assert forall|p: int, q: int|
                        0 <= p < q < self.key_seq().len() implies self.key_seq()[p]
                        != self.key_seq()[q] by {
                        let p0 = if p < i { p } else { p + 1 };
                        let q0 = if q < i { q } else { q + 1 };
                        assert(self.key_seq()[p] == ks[p0]);
                        assert(self.key_seq()[q] == ks[q0]);
                    }
                    assert(self.wf());
                    assert forall|k: Seq<char>| true implies #[trigger] self@.contains_key(k)
                        == pre@.remove(token@).contains_key(k) by {
                        if self.key_seq().contains(k) {
                            let j = choose|j: int|
                                0 <= j < self.key_seq().len() && self.key_seq()[j] == k;
                            let j0 = if j < i { j } else { j + 1 };
                            assert(ks[j0] == k);
                            assert(ks.contains(k));
                            assert(k != token@);
                        } else if pre.key_seq().contains(k) && k != token@ {
                            let j0 = choose|j0: int| 0 <= j0 < ks.len() && ks[j0] == k;
                            let j = if j0 < i { j0 } else { j0 - 1 };
                            assert(self.key_seq()[j] == k);
                        }
                    }
                    assert forall|k: Seq<char>| #[trigger]
                        self@.contains_key(k) implies self@[k] == pre@[k] by {
                        let j = choose|j: int|
                            0 <= j < self.key_seq().len() && self.key_seq()[j] == k;
                        let j0 = if j < i { j } else { j + 1 };
                        assert(pre.key_seq()[j0] == k);
                        self.lemma_at(j);
                        pre.lemma_at(j0);
                        assert(self.entries@[j] == pre.entries@[j0]);
                    }
                    assert(self@ =~= pre@.remove(token@));
                }
                return Some(e.1);
            }
            i += 1;
        }
        proof {
            assert forall|j: int| 0 <= j < self.key_seq().len() implies self.key_seq()[j]
                != token@ by {
                assert(self.entries@[j].0@ != token@);
            }
            assert(self@ =~= pre@.remove(token@));
        }
        None
    }

    /// Removes the entry under `token`, if any.
    pub fn remove(&mut self, token: &String)
        requires
            old(self).wf(),
        ensures
            final(self).wf(),
            final(self)@ == old(self)@.remove(token@),
    {
        let _ = self.take(token);
    }

    /// Inserts `v` under `token`, replacing any entry the token already had.
    pub fn insert(&mut self, token: String, v: V)
        requires
            old(self).wf(),
        ensures
            final(self).wf(),
            final(self)@ == old(self)@.insert(token@, v),
    {
        self.remove(&token);
        let ghost mid = *self;
        self.entries.push((token, v));
        proof {
            let ks = mid.key_seq();
            assert(self.key_seq() =~= ks.push(token@));
            assert(!mid@.contains_key(token@));
            assert(!ks.contains(token@));
            assert forall|p: int, q: int|
                0 <= p < q < self.key_seq().len() implies self.key_seq()[p]
                != self.key_seq()[q] by {
                if q == self.key_seq().len() - 1 {
                    assert(self.key_seq()[p] == ks[p]);
                    assert(ks.contains(ks[p]));
                }
            }
            assert(self.wf());
            assert forall|k: Seq<char>| true implies #[trigger] self@.contains_key(k)
                == mid@.insert(token@, v).contains_key(k) by {
                assert(self.key_seq()[self.key_seq().len() - 1] == token@);
                assert(self.key_seq().contains(token@));
                if self.key_seq().contains(k) {
                    let j = choose|j: int|
                        0 <= j < self.key_seq().len() && self.key_seq()[j] == k;
                    if j < self.key_seq().len() - 1 {
                        assert(ks[j] == k);
                        assert(ks.contains(k));
                    }
                } else if mid.key_seq().contains(k) {
                    let j = choose|j: int| 0 <= j < ks.len() && ks[j] == k;
                    assert(self.key_seq()[j] == k);
                }
            }
            assert forall|k: Seq<char>| #[trigger]
                self@.contains_key(k) implies self@[k] == mid@.insert(token@, v)[k] by {
                if k == token@ {
                    self.lemma_at(self.key_seq().len() - 1);
                } else {
                    let j = choose|j: int|
                        0 <= j < self.key_seq().len() && self.key_seq()[j] == k;
                    assert(j < self.key_seq().len() - 1);
                    assert(ks[j] == k);
                    self.lemma_at(j);
                    mid.lemma_at(j);
                    assert(self.entries@[j] == mid.entries@[j]);
                }
            }
            assert(self@ =~= mid@.insert(token@, v));
            assert(self@ =~= old(self)@.insert(token@, v));
        }
    }

    /// A key is in the table exactly when some position of the enumeration
    /// holds it.
    pub proof fn lemma_keys(&self)
        ensures
            forall|k: Seq<char>| #[trigger] self@.contains_key(k) <==> self.key_seq().contains(
                k,
            ),
    {
    }

    /// The table's domain is finite and its size is the number of entries.
    pub proof fn lemma_size(&self)
        requires
            self.wf(),
        ensures
            self@.dom().finite(),
            self@.len() == self.key_seq().len(),
    {
        broadcast use seq_to_set_is_finite;

        assert(self@.dom() =~= self.key_seq().to_set());
        self.key_seq().unique_seq_to_set();
    }
}

} // verus!
