//! A bidirectional index of pairs: each pair is found in one step from the
//! key of either of its sides.
use crate::fxmap::{fx_get, fx_insert, fx_keys, fx_len, fx_remove};
use rustc_hash::FxHashMap;
use vstd::prelude::*;

verus! {

/// A value that is indexed by an integer key.
pub trait AsHashKey {
    spec fn key(&self) -> usize;

    fn as_key(&self) -> (r: usize)
        ensures
            r == self.key(),
    ;
}

/// Whether some pair of `m` has `k` as the key of one of its sides.
pub open spec fn holds_id<L: AsHashKey, R: AsHashKey>(m: Map<usize, (L, R)>, k: usize) -> bool {
    m.contains_key(k) || exists|l: usize| #[trigger] m.contains_key(l) && m[l].1.key() == k
}

/// Whether some pair of `m` has `k` as the key of its right side.
pub open spec fn has_right<L: AsHashKey, R: AsHashKey>(m: Map<usize, (L, R)>, k: usize) -> bool {
    exists|l: usize| #[trigger] m.contains_key(l) && m[l].1.key() == k
}

/// The left key of the pair whose right side has key `k`.
pub open spec fn left_of<L: AsHashKey, R: AsHashKey>(m: Map<usize, (L, R)>, k: usize) -> usize {
    choose|l: usize| #[trigger] m.contains_key(l) && m[l].1.key() == k
}

/// The shape of a well-formed index, stated over its pairs keyed by the left
/// side: every key sits on one side of one pair (a pair may carry the same key
/// on both sides).
pub open spec fn keys_unique<L: AsHashKey, R: AsHashKey>(m: Map<usize, (L, R)>) -> bool {
    &&& m.dom().finite()
    &&& forall|l: usize| #[trigger] m.contains_key(l) ==> m[l].0.key() == l
    &&& forall|l1: usize, l2: usize|
        #[trigger] m.contains_key(l1) && #[trigger] m.contains_key(l2) && l1 != l2 ==> m[l1].1.key()
            != m[l2].1.key() && m[l2].1.key() != l1
}

/// `s` lists every pair of `m` exactly once.
pub open spec fn lists_entries<L: AsHashKey, R: AsHashKey>(s: Seq<(L, R)>, m: Map<usize, (L, R)>) -> bool {
    &&& s.len() == m.dom().len()
    &&& forall|i: int| 0 <= i < s.len() ==> #[trigger] m.contains_key(s[i].0.key()) && m[s[i].0.key()] == s[i]
    &&& forall|i: int, j: int| 0 <= i < j < s.len() ==> #[trigger] s[i].0.key() != #[trigger] s[j].0.key()
}

/// Which side of a new pair carries a key that the index already holds.
#[derive(Clone, Copy, Debug, PartialEq, Eq, Structural)]
pub enum InsertAlreadyExistsError {
    Left,
    Right,
}

/// Pairs `(L, R)` indexed by the key of either side, in three maps kept in
/// lockstep: left to right, right to left, and left to pair.
pub struct ConnectionMap<L: AsHashKey, R: AsHashKey> {
    left_to_right: FxHashMap<usize, usize>,
    right_to_left: FxHashMap<usize, usize>,
    left_to_pair: FxHashMap<usize, (L, R)>,
}

impl<L: AsHashKey, R: AsHashKey> View for ConnectionMap<L, R> {
    type V = Map<usize, (L, R)>;

    closed spec fn view(&self) -> Map<usize, (L, R)> {
        self.left_to_pair@
    }
}

impl<L: AsHashKey, R: AsHashKey> ConnectionMap<L, R> {
    /// The three maps agree: they have the same size, the two key maps are
    /// inverse to each other, and both follow the pairs.
    pub closed spec fn wf(&self) -> bool {
        let lr = self.left_to_right@;
        let rl = self.right_to_left@;
        let lp = self.left_to_pair@;
        &&& keys_unique(lp)
        &&& lr.dom().finite()
        &&& rl.dom().finite()
        &&& lr.dom().len() == lp.dom().len()
        &&& rl.dom().len() == lp.dom().len()
        &&& forall|l: usize| #[trigger] lr.contains_key(l) <==> lp.contains_key(l)
        &&& forall|l: usize| #[trigger] lp.contains_key(l) ==> lr[l] == lp[l].1.key()
            && rl.contains_key(lp[l].1.key()) && rl[lp[l].1.key()] == l
        &&& forall|r: usize| #[trigger] rl.contains_key(r) ==> lp.contains_key(rl[r]) && lp[rl[r]].1.key() == r
    }

    pub fn new() -> (r: Self)
        ensures
            r.wf(),
            r@ == Map::<usize, (L, R)>::empty(),
    {
        let r = Self { 
            left_to_right: FxHashMap::default(),
            right_to_left: FxHashMap::default(),
            left_to_pair: FxHashMap::default(),
         };
        assert(r.left_to_right@.dom() =~= Set::empty());
        assert(r.right_to_left@.dom() =~= Set::empty());
        assert(r.left_to_pair@.dom() =~= Set::empty());
        r
    }

    /// Sizes of the three inner maps: left to right, right to left, and
    /// left to pair.
    pub closed spec fn sizes(&self) -> (nat, nat, nat) {
        (self.left_to_right@.dom().len(), self.right_to_left@.dom().len(), self.left_to_pair@.dom().len())
    }

    /// A well-formed index holds every key on one side of one pair, and its
    /// three inner maps have as many entries as it has pairs.
    pub proof fn lemma_wf(&self)
        requires
            self.wf(),
        ensures
            keys_unique(self@),
            self.sizes().0 == self@.dom().len(),
            self.sizes().1 == self@.dom().len(),
            self.sizes().2 == self@.dom().len(),
    {
    }

    pub fn len(&self) -> (r: usize)
        requires
            self.wf(),
        ensures
            r == self@.dom().len(),
    {
        fx_len(&self.left_to_pair)
    }

    /// Whether the index holds `k` as the key of either side of a pair.
    pub fn contains_id(&self, k: usize) -> (r: bool)
        requires
            self.wf(),
        ensures
            r == holds_id(self@, k),
    {
        let a = fx_get(&self.left_to_right, &k).is_some();
        let b = fx_get(&self.right_to_left, &k).is_some();
        proof {
            if b {
                let l = self.right_to_left@[k];
                assert(self@.contains_key(l) && self@[l].1.key() == k);
            }
            if has_right(self@, k) {
                let l = left_of(self@, k);
                assert(self.right_to_left@.contains_key(self@[l].1.key()));
            }
        }
        a || b
    }

    /// Adds the pair, unless the key of one of its sides is already held by
    /// the index; then the index is left as it was.
    pub fn insert(&mut self, left: L, right: R) -> (r: Result<(), InsertAlreadyExistsError>)
        requires
            old(self).wf(),
        ensures
            final(self).wf(),
            r == Err::<(), _>(InsertAlreadyExistsError::Left) <==> holds_id(old(self)@, left.key()),
            r == Err::<(), _>(InsertAlreadyExistsError::Right) <==> !holds_id(old(self)@, left.key())
                && holds_id(old(self)@, right.key()),
            r is Ok ==> final(self)@ == old(self)@.insert(left.key(), (left, right)),
            r is Err ==> final(self)@ == old(self)@,
    {
        let left_key = left.as_key();
        let right_key = right.as_key();
        if self.contains_id(left_key) {
            return Err(InsertAlreadyExistsError::Left);
        }
        if self.contains_id(right_key) {
            return Err(InsertAlreadyExistsError::Right);
        }
        let ghost old_lr = self.left_to_right@;
        let ghost old_rl = self.right_to_left@;
        let ghost old_lp = self.left_to_pair@;
        proof {
            assert(!old_lr.contains_key(left_key));
            if old_rl.contains_key(right_key) {
                assert(old_lp.contains_key(old_rl[right_key]));
            }
            if old_rl.contains_key(left_key) {
                assert(old_lp.contains_key(old_rl[left_key]));
            }
        }
        fx_insert(&mut self.left_to_right, left_key, right_key);
        fx_insert(&mut self.right_to_left, right_key, left_key);
        fx_insert(&mut self.left_to_pair, left_key, (left, right));
        proof {
            let lp = self.left_to_pair@;
            assert forall|l1: usize, l2: usize|
                #[trigger] lp.contains_key(l1) && #[trigger] lp.contains_key(l2) && l1 != l2 implies lp[l1].1.key()
                    != lp[l2].1.key() && lp[l2].1.key() != l1 by {
                if l1 != left_key && l2 != left_key {
                    assert(old_lp.contains_key(l1) && old_lp.contains_key(l2));
                } else if l1 == left_key {
                    assert(old_lp.contains_key(l2));
                    assert(old_lp[l2].1.key() != right_key);
                } else {
                    assert(old_lp.contains_key(l1));
                    assert(old_lp[l1].1.key() != right_key);
                }
            }
        }
        Ok(())
    }

    pub fn get_by_left_key(&self, left_key: &usize) -> (r: Option<&(L, R)>)
        requires
            self.wf(),
        ensures
            match r {
                Some(p) => self@.contains_key(*left_key) && *p == self@[*left_key],
                None => !self@.contains_key(*left_key),
            },
    {
        fx_get(&self.left_to_pair, left_key)
    }

    pub fn get_by_right_key(&self, right_key: &usize) -> (r: Option<&(L, R)>)
        requires
            self.wf(),
        ensures
            match r {
                Some(p) => has_right(self@, *right_key) && *p == self@[left_of(self@, *right_key)],
                None => !has_right(self@, *right_key),
            },
    {
        match fx_get(&self.right_to_left, right_key) {
            Some(left_key) => {
                proof {
                    self.lemma_left_of(*right_key);
                }
                self.get_by_left_key(left_key)
            },
            None => {
                proof {
                    if has_right(self@, *right_key) {
                        let l = left_of(self@, *right_key);
                        assert(self.right_to_left@.contains_key(self@[l].1.key()));
                    }
                }
                None
            },
        }
    }

    /// The right key `k` of the index belongs to the pair that
    /// `right_to_left` names.
    proof fn lemma_left_of(&self, k: usize)
        requires
            self.wf(),
            self.right_to_left@.contains_key(k),
        ensures
            has_right(self@, k),
            left_of(self@, k) == self.right_to_left@[k],
    {
        let l = self.right_to_left@[k];
        assert(self@.contains_key(l) && self@[l].1.key() == k);
        let c = left_of(self@, k);
        if c != l {
            assert(self@.contains_key(c) && self@.contains_key(l));
        }
    }

    pub fn get_by_left(&self, left: &L) -> (r: Option<&(L, R)>)
        requires
            self.wf(),
        ensures
            match r {
                Some(p) => self@.contains_key(left.key()) && *p == self@[left.key()],
                None => !self@.contains_key(left.key()),
            },
    {
        let left_key = left.as_key();
        self.get_by_left_key(&left_key)
    }

    pub fn get_by_right(&self, right: &R) -> (r: Option<&(L, R)>)
        requires
            self.wf(),
        ensures
            match r {
                Some(p) => has_right(self@, right.key()) && *p == self@[left_of(self@, right.key())],
                None => !has_right(self@, right.key()),
            },
    {
        let right_key = right.as_key();
        self.get_by_right_key(&right_key)
    }

    pub fn remove_by_left_key(&mut self, left_key: &usize) -> (r: Option<(L, R)>)
        requires
            old(self).wf(),
        ensures
            final(self).wf(),
            match r {
                Some(p) => old(self)@.contains_key(*left_key) && p == old(self)@[*left_key]
                    && final(self)@ == old(self)@.remove(*left_key),
                None => !old(self)@.contains_key(*left_key) && final(self)@ == old(self)@,
            },
    {
        let ghost old_lr = self.left_to_right@;
        let ghost old_rl = self.right_to_left@;
        let ghost old_lp = self.left_to_pair@;
        let right_key = match fx_remove(&mut self.left_to_right, left_key) {
            Some(k) => k,
            None => return None,
        };
        fx_remove(&mut self.right_to_left, &right_key);
        let pair = fx_remove(&mut self.left_to_pair, left_key);
        proof {
            let lp = self.left_to_pair@;
            let rl = self.right_to_left@;
            assert forall|r: usize| #[trigger] rl.contains_key(r) implies lp.contains_key(rl[r])
                && lp[rl[r]].1.key() == r by {
                assert(old_rl.contains_key(r));
                if old_rl[r] == *left_key {
                    assert(old_lp[*left_key].1.key() == r);
                }
            }
            assert forall|l: usize| #[trigger] lp.contains_key(l) implies rl.contains_key(lp[l].1.key()) by {
                assert(old_lp.contains_key(l) && old_lp.contains_key(*left_key));
            }
        }
        pair
    }

    pub fn remove_by_right_key(&mut self, right_key: &usize) -> (r: Option<(L, R)>)
        requires
            old(self).wf(),
        ensures
            final(self).wf(),
            match r {
                Some(p) => has_right(old(self)@, *right_key) && p == old(self)@[left_of(old(self)@, *right_key)]
                    && final(self)@ == old(self)@.remove(left_of(old(self)@, *right_key)),
                None => !has_right(old(self)@, *right_key) && final(self)@ == old(self)@,
            },
    {
        match fx_get(&self.right_to_left, right_key) {
            Some(left_key) => {
                let left_key = *left_key;
                proof {
                    self.lemma_left_of(*right_key);
                }
                self.remove_by_left_key(&left_key)
            },
            None => {
                proof {
                    if has_right(self@, *right_key) {
                        let l = left_of(self@, *right_key);
                        assert(self.right_to_left@.contains_key(self@[l].1.key()));
                    }
                }
                None
            },
        }
    }

    pub fn remove_by_left(&mut self, left: &L) -> (r: Option<(L, R)>)
        requires
            old(self).wf(),
        ensures
            final(self).wf(),
            match r {
                Some(p) => old(self)@.contains_key(left.key()) && p == old(self)@[left.key()]
                    && final(self)@ == old(self)@.remove(left.key()),
                None => !old(self)@.contains_key(left.key()) && final(self)@ == old(self)@,
            },
    {
        let left_key = left.as_key();
        self.remove_by_left_key(&left_key)
    }

    pub fn remove_by_right(&mut self, right: &R) -> (r: Option<(L, R)>)
        requires
            old(self).wf(),
        ensures
            final(self).wf(),
            match r {
                Some(p) => has_right(old(self)@, right.key()) && p == old(self)@[left_of(old(self)@, right.key())]
                    && final(self)@ == old(self)@.remove(left_of(old(self)@, right.key())),
                None => !has_right(old(self)@, right.key()) && final(self)@ == old(self)@,
            },
    {
        let right_key = right.as_key();
        self.remove_by_right_key(&right_key)
    }

    /// The pairs of the index, each once, in an order that the underlying
    /// hash map chooses.
    pub fn iter(&self) -> (r: Vec<&(L, R)>)
        requires
            self.wf(),
        ensures
            lists_entries(r@.map_values(|p: &(L, R)| *p), self@),
    {
        let keys = fx_keys(&self.left_to_pair);
        let mut out: Vec<&(L, R)> = Vec::new();
        let mut i: usize = 0;
        proof {
            keys@.unique_seq_to_set();
            assert(keys@.to_set() =~= self@.dom());
        }
        while i < keys.len()
            invariant
                self.wf(),
                0 <= i <= keys@.len(),
                keys@.no_duplicates(),
                keys@.len() == self@.dom().len(),
                keys_unique(self@),
                forall|k: usize| self@.contains_key(k) <==> keys@.contains(k),
                out@.len() == i,
                forall|j: int| 0 <= j < i ==> #[trigger] out@[j].0.key() == keys@[j] && self@.contains_key(keys@[j])
                    && self@[keys@[j]] == *out@[j],
            decreases keys@.len() - i,
        {
            let k = keys[i];
            assert(keys@.contains(k));
            match fx_get(&self.left_to_pair, &k) {
                Some(p) => {
                    out.push(p);
                },
                None => {},
            }
            i = i + 1;
        }
        proof {
            let v = out@.map_values(|p: &(L, R)| *p);
            assert forall|j: int| 0 <= j < v.len() implies #[trigger] self@.contains_key(v[j].0.key()) && self@[v[j].0.key()]
                == v[j] by {
                assert(out@[j].0.key() == keys@[j]);
            }
            assert forall|a: int, b: int| 0 <= a < b < v.len() implies #[trigger] v[a].0.key() != #[trigger] v[b].0.key() by {
                assert(out@[a].0.key() == keys@[a]);
                assert(out@[b].0.key() == keys@[b]);
            }
        }
        out
    }

    /// Empties the index into a list of its pairs, each once, in an order
    /// that the underlying hash map chooses.
    pub fn into_pairs(self) -> (r: Vec<(L, R)>)
        requires
            self.wf(),
        ensures
            lists_entries(r@, self@),
    {
        let ghost m0 = self@;
        let keys = fx_keys(&self.left_to_pair);
        let mut me = self;
        let mut out: Vec<(L, R)> = Vec::new();
        let mut i: usize = 0;
        proof {
            keys@.unique_seq_to_set();
            assert(keys@.to_set() =~= m0.dom());
        }
        while i < keys.len()
            invariant
                me.wf(),
                0 <= i <= keys@.len(),
                keys@.no_duplicates(),
                keys@.len() == m0.dom().len(),
                keys_unique(m0),
                forall|k: usize| m0.contains_key(k) <==> keys@.contains(k),
                out@.len() == i,
                forall|j: int| 0 <= j < i ==> #[trigger] out@[j].0.key() == keys@[j] && m0.contains_key(keys@[j])
                    && m0[keys@[j]] == out@[j],
                forall|j: int| i <= j < keys@.len() ==> #[trigger] me@.contains_key(keys@[j]) && m0.contains_key(
                    keys@[j]) && me@[keys@[j]] == m0[keys@[j]],
            decreases keys@.len() - i,
        {
            let k = keys[i];
            assert(me@.contains_key(keys@[i as int]));
            let p = me.remove_by_left_key(&k);
            match p {
                Some(p) => {
                    proof {
                        assert(m0.contains_key(k));
                        assert(p.0.key() == k);
                    }
                    out.push(p);
                },
                None => {},
            }
            proof {
                assert forall|j: int| i + 1 <= j < keys@.len() implies #[trigger] me@.contains_key(keys@[j])
                    && m0.contains_key(keys@[j]) && me@[keys@[j]] == m0[keys@[j]] by {
                    assert(keys@[j] != keys@[i as int]);
                }
            }
            i = i + 1;
        }
        out
    }
}

} // verus!
