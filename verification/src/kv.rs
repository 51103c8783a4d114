//! An ordered key/value table over byte-string keys, kept sorted so that
//! lookups are binary searches. It backs the per-context variable overrides,
//! the option tables and the environment tables.

use vstd::prelude::*;
use crate::bytes::{bytes_cmp, lex_lt};

verus! {

pub struct SortedKv<V> {
    pub keys: Vec<Vec<u8>>,
    pub vals: Vec<V>,
}

impl<V> SortedKv<V> {
    /// Keys are strictly increasing, so each key occurs once.
    pub open spec fn wf(self) -> bool {
        &&& self.keys@.len() == self.vals@.len()
        &&& forall|i: int, j: int|
            0 <= i < j < self.keys@.len() ==> lex_lt(self.keys@[i]@, self.keys@[j]@)
    }

    pub open spec fn spec_len(self) -> nat {
        self.keys@.len()
    }

    pub open spec fn spec_contains(self, k: Seq<u8>) -> bool {
        exists|i: int| 0 <= i < self.keys@.len() && self.keys@[i]@ == k
    }

    pub open spec fn key_index(self, k: Seq<u8>) -> int {
        choose|i: int| 0 <= i < self.keys@.len() && self.keys@[i]@ == k
    }

    /// The value stored under `k`, if any.
    pub open spec fn spec_get(self, k: Seq<u8>) -> Option<V> {
        if self.spec_contains(k) {
            Some(self.vals@[self.key_index(k)])
        } else {
            None
        }
    }

    pub open spec fn spec_key_at(self, i: int) -> Seq<u8> {
        self.keys@[i]@
    }

    pub open spec fn spec_val_at(self, i: int) -> V {
        self.vals@[i]
    }

    pub fn new() -> (r: Self)
        ensures
            r.wf(),
            r.spec_len() == 0,
            forall|k: Seq<u8>| r.spec_get(k) is None,
    {
        SortedKv { keys: Vec::new(), vals: Vec::new() }
    }

    pub fn len(&self) -> (r: usize)
        ensures
            r == self.spec_len(),
    {
        self.keys.len()
    }

    pub fn key_at(&self, i: usize) -> (r: &Vec<u8>)
        requires
            i < self.spec_len(),
        ensures
            r@ == self.spec_key_at(i as int),
    {
        &self.keys[i]
    }

    pub fn val_at(&self, i: usize) -> (r: &V)
        requires
            i < self.spec_len(),
            self.wf(),
        ensures
            *r == self.spec_val_at(i as int),
            self.spec_get(self.spec_key_at(i as int)) == Some(*r),
    {
        proof {
            let k = self.spec_key_at(i as int);
            assert(self.spec_contains(k));
            let j = self.key_index(k);
            if i != j {
                lemma_lex_asym(self.keys@[i as int]@, self.keys@[j]@);
            }
        }
        &self.vals[i]
    }

    /// Index of `k` in the table, if present.
    fn search(&self, k: &[u8]) -> (r: Result<usize, usize>)
        requires
            self.wf(),
        ensures
            match r {
                Ok(i) => i < self.spec_len() && self.spec_key_at(i as int) == k@,
                Err(i) => i <= self.spec_len() && !self.spec_contains(k@)
                    && (forall|j: int| 0 <= j < i ==> lex_lt(self.spec_key_at(j), k@))
                    && (forall|j: int|
                        i <= j < self.spec_len() ==> lex_lt(k@, self.spec_key_at(j))),
            },
    {
        let mut lo: usize = 0;
        let mut hi: usize = self.keys.len();
        while lo < hi
            invariant
                lo <= hi <= self.spec_len(),
                self.wf(),
                forall|j: int| 0 <= j < lo ==> lex_lt(self.spec_key_at(j), k@),
                forall|j: int| hi <= j < self.spec_len() ==> lex_lt(k@, self.spec_key_at(j)),
            decreases hi - lo,
        {
            let mid: usize = lo + (hi - lo) / 2;
            let c = bytes_cmp(self.keys[mid].as_slice(), k);
            if c == 0 {
                return Ok(mid);
            } else if c < 0 {
                proof {
                    assert forall|j: int| 0 <= j < mid + 1 implies lex_lt(
                        self.spec_key_at(j),
                        k@,
                    ) by {
                        if j < mid {
                            lemma_lex_trans(self.spec_key_at(j), self.spec_key_at(mid as int), k@);
                        }
                    }
                }
                lo = mid + 1;
            } else {
                proof {
                    assert forall|j: int| mid <= j < self.spec_len() implies lex_lt(
                        k@,
                        self.spec_key_at(j),
                    ) by {
                        if j > mid {
                            lemma_lex_trans(k@, self.spec_key_at(mid as int), self.spec_key_at(j));
                        }
                    }
                }
                hi = mid;
            }
        }
        proof {
            if self.spec_contains(k@) {
                let i = self.key_index(k@);
                assert(0 <= i < self.spec_len() && self.spec_key_at(i) == k@);
                if i < lo {
                    lemma_lex_asym(self.spec_key_at(i), k@);
                } else {
                    lemma_lex_asym(k@, self.spec_key_at(i));
                }
            }
        }
        Err(lo)
    }

    pub fn get(&self, k: &[u8]) -> (r: Option<&V>)
        requires
            self.wf(),
        ensures
            match r {
                Some(v) => self.spec_get(k@) == Some(*v),
                None => self.spec_get(k@) is None,
            },
    {
        match self.search(k) {
            Ok(i) => {
                proof {
                    let j = self.key_index(k@);
                    if i != j {
                        lemma_lex_asym(self.keys@[i as int]@, self.keys@[j]@);
                    }
                }
                Some(&self.vals[i])
            },
            Err(_) => None,
        }
    }

    pub fn contains(&self, k: &[u8]) -> (r: bool)
        requires
            self.wf(),
        ensures
            r == self.spec_contains(k@),
    {
        match self.search(k) {
            Ok(_) => true,
            Err(_) => false,
        }
    }

    /// Add or replace the value under `k`.
    pub fn insert(&mut self, k: Vec<u8>, v: V)
        requires
            old(self).wf(),
        ensures
            final(self).wf(),
            final(self).spec_get(k@) == Some(v),
            forall|k2: Seq<u8>|
                k2 != k@ ==> final(self).spec_get(k2) == old(self).spec_get(k2),
            old(self).spec_contains(k@) ==> final(self).spec_len() == old(self).spec_len(),
            !old(self).spec_contains(k@) ==> final(self).spec_len() == old(self).spec_len() + 1,
    {
        let ghost pre = *self;
        match self.search(k.as_slice()) {
            Ok(i) => {
                self.vals[i] = v;
                proof {
                    lemma_unique_keys(*self, i as int, k@);
                    assert forall|k2: Seq<u8>| k2 != k@ implies self.spec_get(k2)
                        == pre.spec_get(k2) by {
                        lemma_get_frame(pre, *self, k2);
                    }
                }
            },
            Err(i) => {
                let ghost kk = k@;
                self.keys.insert(i, k);
                self.vals.insert(i, v);
                proof {
                    let n = i as int;
                    let ks = pre.keys@;
                    assert(forall|j: int| 0 <= j < n ==> self.keys@[j] == ks[j]);
                    assert(self.keys@[n]@ == kk);
                    assert(forall|j: int|
                        n < j < self.keys@.len() ==> self.keys@[j] == ks[j - 1]);
                    assert(forall|j: int| 0 <= j < n ==> self.vals@[j] == pre.vals@[j]);
                    assert(self.vals@[n] == v);
                    assert(forall|j: int|
                        n < j < self.vals@.len() ==> self.vals@[j] == pre.vals@[j - 1]);
                    assert forall|a: int, b: int|
                        0 <= a < b < self.keys@.len() implies lex_lt(
                        self.keys@[a]@,
                        self.keys@[b]@,
                    ) by {
                        if b < n {
                        } else if a < n && b == n {
                            assert(pre.spec_key_at(a) == ks[a]@);
                            assert(lex_lt(pre.spec_key_at(a), kk));
                        } else if a < n && b > n {
                            assert(a < b - 1 || a == b - 1);
                            assert(lex_lt(ks[a]@, ks[b - 1]@));
                        } else if a == n {
                            assert(pre.spec_key_at(b - 1) == ks[b - 1]@);
                            assert(lex_lt(kk, pre.spec_key_at(b - 1)));
                        } else {
                            assert(lex_lt(ks[a - 1]@, ks[b - 1]@));
                        }
                    }
                    lemma_unique_keys(*self, n, kk);
                    assert forall|k2: Seq<u8>| k2 != kk implies self.spec_get(k2)
                        == pre.spec_get(k2) by {
                        if pre.spec_contains(k2) {
                            let j = pre.key_index(k2);
                            lemma_unique_keys(pre, j, k2);
                            let j2: int = if j < n {
                                j
                            } else {
                                j + 1
                            };
                            assert(self.keys@[j2]@ == k2);
                            assert(self.vals@[j2] == pre.vals@[j]);
                            lemma_unique_keys(*self, j2, k2);
                        } else {
                            if self.spec_contains(k2) {
                                let j2 = self.key_index(k2);
                                if j2 < n {
                                    assert(ks[j2]@ == k2);
                                } else if j2 == n {
                                    assert(kk == k2);
                                } else {
                                    assert(ks[j2 - 1]@ == k2);
                                }
                            }
                        }
                    }
                }
            },
        }
    }
}

/// Strict order is irreflexive and asymmetric.
pub proof fn lemma_lex_asym(a: Seq<u8>, b: Seq<u8>)
    requires
        lex_lt(a, b),
    ensures
        a != b,
        !lex_lt(b, a),
    decreases a.len(),
{
    if a.len() > 0 && b.len() > 0 && a[0] == b[0] {
        lemma_lex_asym(a.skip(1), b.skip(1));
        if a == b {
            assert(a.skip(1) =~= b.skip(1));
        }
    } else {
        if a == b {
            assert(a.len() == b.len());
        }
    }
}

pub proof fn lemma_lex_trans(a: Seq<u8>, b: Seq<u8>, c: Seq<u8>)
    requires
        lex_lt(a, b),
        lex_lt(b, c),
    ensures
        lex_lt(a, c),
    decreases a.len(),
{
    if a.len() > 0 && b.len() > 0 && c.len() > 0 && a[0] == b[0] && b[0] == c[0] {
        lemma_lex_trans(a.skip(1), b.skip(1), c.skip(1));
    }
}

/// In a well-formed table the index of any stored key is unique.
proof fn lemma_unique_keys<V>(kv: SortedKv<V>, i: int, k: Seq<u8>)
    requires
        kv.wf(),
        0 <= i < kv.spec_len(),
        kv.spec_key_at(i) == k,
    ensures
        kv.spec_contains(k),
        kv.key_index(k) == i,
{
    let j = kv.key_index(k);
    if j != i {
        if j < i {
            lemma_lex_asym(kv.keys@[j]@, kv.keys@[i]@);
        } else {
            lemma_lex_asym(kv.keys@[i]@, kv.keys@[j]@);
        }
    }
}

/// Replacing one value leaves every other key's lookup unchanged.
proof fn lemma_get_frame<V>(pre: SortedKv<V>, post: SortedKv<V>, k: Seq<u8>)
    requires
        pre.wf(),
        post.wf(),
        pre.keys@ == post.keys@,
        pre.vals@.len() == post.vals@.len(),
        exists|i: int|
            0 <= i < pre.vals@.len() && post.vals@ == pre.vals@.update(i, post.vals@[i])
                && pre.keys@[i]@ != k,
    ensures
        post.spec_get(k) == pre.spec_get(k),
{
    if pre.spec_contains(k) {
        let i = pre.key_index(k);
        lemma_unique_keys(post, i, k);
    }
}

} // verus!
