//! An association map with string keys, kept as a vector of pairs whose keys
//! are unique.  It stands in for hash maps wherever the library's contracts
//! need to speak about contents and order: request environments, HTTP
//! headers, the policy table, the waiter table and the rate-limit windows.

use vstd::prelude::*;

verus! {

/// First position of key `k` among the pairs, if any.
pub open spec fn find_key<V>(m: Seq<(Seq<char>, V)>, k: Seq<char>) -> Option<int>
    decreases m.len(),
{
    if m.len() == 0 {
        None
    } else if m[0].0 == k {
        Some(0)
    } else {
        match find_key(m.drop_first(), k) {
            Some(i) => Some(i + 1),
            None => None,
        }
    }
}

/// Whether key `k` occurs among the pairs.
pub open spec fn has_key<V>(m: Seq<(Seq<char>, V)>, k: Seq<char>) -> bool {
    exists|i: int| 0 <= i < m.len() && m[i].0 == k
}

/// The value stored under `k`; meaningful when `has_key` holds.
pub open spec fn value_of<V>(m: Seq<(Seq<char>, V)>, k: Seq<char>) -> V {
    m[find_key(m, k)->Some_0].1
}

/// Keys are pairwise distinct.
pub open spec fn unique_keys<V>(m: Seq<(Seq<char>, V)>) -> bool {
    forall|i: int, j: int| 0 <= i < j < m.len() ==> m[i].0 != m[j].0
}

/// `find_key` returns a position of `k` exactly when `has_key` holds.
pub proof fn lemma_find_key<V>(m: Seq<(Seq<char>, V)>, k: Seq<char>)
    ensures
        match find_key(m, k) {
            Some(i) => 0 <= i < m.len() && m[i].0 == k && (forall|j: int|
                0 <= j < i ==> m[j].0 != k),
            None => !has_key(m, k),
        },
    decreases m.len(),
{
    if m.len() > 0 && m[0].0 != k {
        lemma_find_key(m.drop_first(), k);
        assert(forall|i: int| 0 <= i < m.drop_first().len() ==> m.drop_first()[i] == m[i + 1]);
        match find_key(m.drop_first(), k) {
            Some(i) => {
                assert(m.drop_first()[i] == m[i + 1]);
                assert forall|j: int| 0 <= j < i + 1 implies m[j].0 != k by {
                    if j > 0 {
                        assert(m.drop_first()[j - 1] == m[j]);
                    }
                }
            },
            None => {
                if has_key(m, k) {
                    let i = choose|i: int| 0 <= i < m.len() && m[i].0 == k;
                    assert(m.drop_first()[i - 1].0 == k);
                }
            },
        }
    }
}

/// Two pair sequences with the same keys position their keys identically.
pub proof fn lemma_find_key_same_keys<V, W>(
    a: Seq<(Seq<char>, V)>,
    b: Seq<(Seq<char>, W)>,
    r: Seq<char>,
)
    requires
        a.len() == b.len(),
        forall|i: int| 0 <= i < a.len() ==> (#[trigger] a[i]).0 == b[i].0,
    ensures
        find_key(a, r) == find_key(b, r),
    decreases a.len(),
{
    if a.len() > 0 {
        assert(a[0].0 == b[0].0);
        if a[0].0 != r {
            assert forall|i: int| 0 <= i < a.drop_first().len() implies (#[trigger] a.drop_first()[
                i
            ]).0 == b.drop_first()[i].0 by {
                assert(a.drop_first()[i] == a[i + 1]);
                assert(b.drop_first()[i] == b[i + 1]);
            }
            lemma_find_key_same_keys(a.drop_first(), b.drop_first(), r);
        }
    }
}

/// Where a pushed pair is found: existing keys keep their position, a new
/// key lands at the end.
pub proof fn lemma_find_key_push<V>(m: Seq<(Seq<char>, V)>, k: Seq<char>, v: V, r: Seq<char>)
    ensures
        find_key(m.push((k, v)), r) == (match find_key(m, r) {
            Some(i) => Some(i),
            None => if r == k {
                Some(m.len() as int)
            } else {
                None
            },
        }),
    decreases m.len(),
{
    let m1 = m.push((k, v));
    if m.len() == 0 {
        assert(m1.len() == 1);
        assert(m1[0] == (k, v));
        assert(m1.drop_first() =~= Seq::<(Seq<char>, V)>::empty());
    } else {
        assert(m1[0] == m[0]);
        if m[0].0 != r {
            assert(m1.drop_first() =~= m.drop_first().push((k, v)));
            lemma_find_key_push(m.drop_first(), k, v, r);
        }
    }
}

/// Where keys are found after removing position `i` from a unique-keyed
/// sequence: the removed key disappears, the others shift past `i`.
pub proof fn lemma_find_key_remove<V>(m: Seq<(Seq<char>, V)>, i: int, r: Seq<char>)
    requires
        unique_keys(m),
        0 <= i < m.len(),
    ensures
        r == m[i].0 ==> find_key(m.remove(i), r) is None,
        r != m[i].0 ==> find_key(m.remove(i), r) == (match find_key(m, r) {
            Some(j) => if j < i {
                Some(j)
            } else {
                Some(j - 1)
            },
            None => None::<int>,
        }),
    decreases m.len(),
{
    lemma_find_key(m, r);
    lemma_find_key(m.remove(i), r);
    let m1 = m.remove(i);
    if i == 0 {
        assert(m1 =~= m.drop_first());
        if r == m[0].0 {
            if has_key(m1, r) {
                let j = choose|j: int| 0 <= j < m1.len() && m1[j].0 == r;
                assert(m1[j] == m[j + 1]);
                assert(m[j + 1].0 == m[0].0);
            }
        }
    } else {
        assert(m1[0] == m[0]);
        assert(m[i] == m.drop_first()[i - 1]);
        if m[0].0 == r {
            assert(r != m[i].0);
        } else {
            assert forall|a: int, b: int| 0 <= a < b < m.drop_first().len() implies (
            #[trigger] m.drop_first()[a]).0 != (#[trigger] m.drop_first()[b]).0 by {
                assert(m.drop_first()[a] == m[a + 1]);
                assert(m.drop_first()[b] == m[b + 1]);
            }
            lemma_find_key_remove(m.drop_first(), i - 1, r);
            assert(m1.drop_first() =~= m.drop_first().remove(i - 1));
        }
    }
}

/// How an insert affects lookups: the inserted key now maps to the new
/// value and every other key is untouched.
pub proof fn lemma_insert_lookup<V>(
    m0: Seq<(Seq<char>, V)>,
    m1: Seq<(Seq<char>, V)>,
    k: Seq<char>,
    v: V,
)
    requires
        m1 == (match find_key(m0, k) {
            Some(i) => m0.update(i, (k, v)),
            None => m0.push((k, v)),
        }),
    ensures
        has_key(m1, k),
        value_of(m1, k) == v,
        forall|r: Seq<char>| r != k ==> (#[trigger] has_key(m1, r) <==> has_key(m0, r)),
        forall|r: Seq<char>| r != k && #[trigger] has_key(m0, r) ==> value_of(m1, r) == value_of(
            m0,
            r,
        ),
{
    lemma_find_key(m0, k);
    match find_key(m0, k) {
        Some(i) => {
            assert(m0[i].0 == k);
            assert(m1.len() == m0.len());
            assert forall|r: Seq<char>| true implies #[trigger] find_key(m1, r) == find_key(
                m0,
                r,
            ) by {
                lemma_find_key_same_keys(m1, m0, r);
            }
            lemma_find_key(m1, k);
            assert(value_of(m1, k) == m1[i].1);
            assert forall|r: Seq<char>| r != k && #[trigger] has_key(m0, r) implies value_of(
                m1,
                r,
            ) == value_of(m0, r) by {
                lemma_find_key(m0, r);
                let j = find_key(m0, r)->Some_0;
                assert(m0[j].0 == r);
                assert(j != i);
                assert(m1[j] == m0[j]);
            }
            assert forall|r: Seq<char>| r != k implies (#[trigger] has_key(m1, r) <==> has_key(
                m0,
                r,
            )) by {
                lemma_find_key(m0, r);
                lemma_find_key(m1, r);
            }
        },
        None => {
            assert forall|r: Seq<char>| true implies #[trigger] find_key(m1, r) == (match
                find_key(m0, r) {
                Some(i) => Some(i),
                None => if r == k {
                    Some(m0.len() as int)
                } else {
                    None
                },
            }) by {
                lemma_find_key_push(m0, k, v, r);
            }
            lemma_find_key(m0, k);
            lemma_find_key(m1, k);
            assert(m1[m0.len() as int] == (k, v));
            assert forall|r: Seq<char>| r != k && #[trigger] has_key(m0, r) implies value_of(
                m1,
                r,
            ) == value_of(m0, r) by {
                lemma_find_key(m0, r);
                let j = find_key(m0, r)->Some_0;
                assert(m1[j] == m0[j]);
            }
            assert forall|r: Seq<char>| r != k implies (#[trigger] has_key(m1, r) <==> has_key(
                m0,
                r,
            )) by {
                lemma_find_key(m0, r);
                lemma_find_key(m1, r);
            }
        },
    }
}

/// How a removal affects lookups: the removed key is gone and every other
/// key is untouched.
pub proof fn lemma_remove_lookup<V>(m0: Seq<(Seq<char>, V)>, m1: Seq<(Seq<char>, V)>, k: Seq<char>)
    requires
        unique_keys(m0),
        m1 == (match find_key(m0, k) {
            Some(i) => m0.remove(i),
            None => m0,
        }),
    ensures
        !has_key(m1, k),
        forall|r: Seq<char>| r != k ==> (#[trigger] has_key(m1, r) <==> has_key(m0, r)),
        forall|r: Seq<char>| r != k && #[trigger] has_key(m0, r) ==> value_of(m1, r) == value_of(
            m0,
            r,
        ),
{
    lemma_find_key(m0, k);
    match find_key(m0, k) {
        Some(i) => {
            assert(m0[i].0 == k);
            assert forall|r: Seq<char>| r != k implies (#[trigger] has_key(m1, r) <==> has_key(
                m0,
                r,
            )) by {
                lemma_find_key_remove(m0, i, r);
                lemma_find_key(m0, r);
                lemma_find_key(m1, r);
            }
            assert forall|r: Seq<char>| r != k && #[trigger] has_key(m0, r) implies value_of(
                m1,
                r,
            ) == value_of(m0, r) by {
                lemma_find_key_remove(m0, i, r);
                lemma_find_key(m0, r);
                let j = find_key(m0, r)->Some_0;
                if j < i {
                    assert(m1[j] == m0[j]);
                } else {
                    assert(j != i);
                    assert(m1[j - 1] == m0[j]);
                }
            }
            lemma_find_key_remove(m0, i, k);
            lemma_find_key(m1, k);
        },
        None => {
        },
    }
}

/// An association map from strings to `V` with unique keys.
#[derive(Debug)]
pub struct StrMap<V> {
    pairs: Vec<(String, V)>,
}

impl<V> View for StrMap<V> {
    type V = Seq<(Seq<char>, V)>;

    closed spec fn view(&self) -> Seq<(Seq<char>, V)> {
        Seq::new(self.pairs@.len(), |i: int| (self.pairs@[i].0@, self.pairs@[i].1))
    }
}

impl<V> StrMap<V> {
    /// The key-uniqueness invariant every map keeps through its operations.
    pub open spec fn wf(self) -> bool {
        unique_keys(self@)
    }

    /// An empty map.
    pub fn new() -> (r: StrMap<V>)
        ensures
            r@ == Seq::<(Seq<char>, V)>::empty(),
            r.wf(),
    {
        StrMap { pairs: Vec::new() }
    }

    /// Number of entries.
    pub fn len(&self) -> (r: usize)
        ensures
            r == self@.len(),
    {
        self.pairs.len()
    }

    /// Whether the map holds no entry.
    pub fn is_empty(&self) -> (r: bool)
        ensures
            r == (self@.len() == 0),
    {
        self.pairs.len() == 0
    }

    /// Position of `k` among the entries, if present.
    fn position(&self, k: &str) -> (r: Option<usize>)
        ensures
            match r {
                Some(i) => find_key(self@, k@) == Some(i as int),
                None => find_key(self@, k@) is None,
            },
    {
        let mut i: usize = 0;
        while i < self.pairs.len()
            invariant
                0 <= i <= self@.len(),
                forall|j: int| 0 <= j < i ==> self@[j].0 != k@,
            decreases self@.len() - i,
        {
            if crate::util::str_eq(self.pairs[i].0.as_str(), k) {
                proof {
                    lemma_find_key(self@, k@);
                    assert(self@[i as int].0 == k@);
                    match find_key(self@, k@) {
                        Some(i0) => {
                            if i0 < i as int {
                                assert(self@[i0].0 != k@);
                            } else if i0 > i as int {
                                assert(self@[i as int].0 != k@);
                            }
                        },
                        None => {
                            assert(!has_key(self@, k@));
                        },
                    }
                }
                return Some(i);
            }
            i = i + 1;
        }
        proof {
            lemma_find_key(self@, k@);
            if find_key(self@, k@) is Some {
                let j = find_key(self@, k@)->Some_0;
                assert(self@[j].0 == k@);
            }
        }
        None
    }

    /// Whether `k` is present.
    pub fn contains_key(&self, k: &str) -> (r: bool)
        ensures
            r == has_key(self@, k@),
    {
        proof {
            lemma_find_key(self@, k@);
        }
        self.position(k).is_some()
    }

    /// The value stored under `k`, if present.
    pub fn get(&self, k: &str) -> (r: Option<&V>)
        ensures
            match r {
                Some(v) => has_key(self@, k@) && *v == value_of(self@, k@),
                None => !has_key(self@, k@),
            },
    {
        proof {
            lemma_find_key(self@, k@);
        }
        match self.position(k) {
            Some(i) => Some(&self.pairs[i].1),
            None => None,
        }
    }

    /// Inserts or replaces the entry for `k`.
    pub fn insert(&mut self, k: String, v: V)
        ensures
            match find_key(old(self)@, k@) {
                Some(i) => final(self)@ == old(self)@.update(i, (k@, v)),
                None => final(self)@ == old(self)@.push((k@, v)),
            },
            old(self).wf() ==> final(self).wf(),
    {
        proof {
            lemma_find_key(self@, k@);
        }
        let ghost m0 = self@;
        match self.position(k.as_str()) {
            Some(i) => {
                self.pairs.set(i, (k, v));
                proof {
                    assert(self@ =~= m0.update(i as int, (k@, v)));
                }
            },
            None => {
                self.pairs.push((k, v));
                proof {
                    assert(self@ =~= m0.push((k@, v)));
                    if unique_keys(m0) {
                        assert forall|i: int, j: int|
                            0 <= i < j < self@.len() implies self@[i].0 != self@[j].0 by {
                            if j == self@.len() - 1 {
                                assert(!has_key(m0, k@));
                                assert(m0[i].0 == self@[i].0);
                            }
                        }
                    }
                }
            },
        }
    }

    /// Replaces the value stored under `k`, keeping its position, and hands
    /// back the value it replaced.
    pub fn swap_value(&mut self, k: &str, v: V) -> (r: Option<V>)
        ensures
            match find_key(old(self)@, k@) {
                Some(i) => final(self)@ == old(self)@.update(i, (old(self)@[i].0, v)) && (r
                    matches Some(w) && w == old(self)@[i].1),
                None => final(self)@ == old(self)@ && r is None,
            },
            old(self).wf() ==> final(self).wf(),
    {
        proof {
            lemma_find_key(self@, k@);
        }
        let ghost m0 = self@;
        match self.position(k) {
            Some(i) => {
                let (kk, w) = self.pairs.remove(i);
                self.pairs.insert(i, (kk, v));
                proof {
                    assert(self@ =~= m0.update(i as int, (m0[i as int].0, v)));
                    if unique_keys(m0) {
                        assert forall|a: int, b: int|
                            0 <= a < b < self@.len() implies self@[a].0 != self@[b].0 by {
                            assert(self@[a].0 == m0[a].0);
                            assert(self@[b].0 == m0[b].0);
                        }
                    }
                }
                Some(w)
            },
            None => {
                proof {
                    assert(self@ =~= m0);
                }
                None
            },
        }
    }

    /// Removes the entry for `k`, returning its value if it was present.
    pub fn remove(&mut self, k: &str) -> (r: Option<V>)
        ensures
            match find_key(old(self)@, k@) {
                Some(i) => final(self)@ == old(self)@.remove(i) && (r matches Some(w) && w
                    == old(self)@[i].1),
                None => final(self)@ == old(self)@ && r is None,
            },
            old(self).wf() ==> final(self).wf(),
    {
        proof {
            lemma_find_key(self@, k@);
        }
        let ghost m0 = self@;
        match self.position(k) {
            Some(i) => {
                let (_, v) = self.pairs.remove(i);
                proof {
                    assert(self@ =~= m0.remove(i as int));
                }
                Some(v)
            },
            None => {
                proof {
                    assert(self@ =~= m0);
                }
                None
            },
        }
    }

    /// Drops every entry.
    pub fn clear(&mut self)
        ensures
            final(self)@ == Seq::<(Seq<char>, V)>::empty(),
            final(self).wf(),
    {
        self.pairs.clear();
        proof {
            assert(self@ =~= Seq::<(Seq<char>, V)>::empty());
        }
    }

    /// Moves every entry out, leaving the map empty.
    pub fn take_pairs(&mut self) -> (r: Vec<(String, V)>)
        ensures
            final(self)@ == Seq::<(Seq<char>, V)>::empty(),
            final(self).wf(),
            r@.len() == old(self)@.len(),
            forall|i: int| 0 <= i < r@.len() ==> (#[trigger] r@[i]).0@ == old(self)@[i].0
                && r@[i].1 == old(self)@[i].1,
            old(self).wf() ==> unique_keys(Seq::new(r@.len(), |i: int| (r@[i].0@, r@[i].1))),
    {
        let mut out: Vec<(String, V)> = Vec::new();
        core::mem::swap(&mut out, &mut self.pairs);
        proof {
            assert(self@ =~= Seq::<(Seq<char>, V)>::empty());
            assert(Seq::new(out@.len(), |i: int| (out@[i].0@, out@[i].1)) =~= old(self)@);
        }
        out
    }

    /// Checks key uniqueness by scanning all pairs.
    pub fn check_wf(&self) -> (r: bool)
        ensures
            r == self.wf(),
    {
        let n = self.pairs.len();
        let mut i: usize = 0;
        while i < n
            invariant
                n == self@.len(),
                0 <= i <= n,
                forall|a: int, b: int| 0 <= a < b < n && a < i ==> self@[a].0 != self@[b].0,
            decreases n - i,
        {
            let mut j: usize = i + 1;
            while j < n
                invariant
                    n == self@.len(),
                    0 <= i < j <= n,
                    forall|b: int| i < b < j ==> self@[i as int].0 != self@[b].0,
                decreases n - j,
            {
                if crate::util::str_eq(self.pairs[i].0.as_str(), self.pairs[j].0.as_str()) {
                    assert(self@[i as int].0 == self@[j as int].0);
                    return false;
                }
                j = j + 1;
            }
            i = i + 1;
        }
        true
    }

    /// The key of the entry at position `i`.
    pub fn key_at(&self, i: usize) -> (r: &String)
        requires
            i < self@.len(),
        ensures
            r@ == self@[i as int].0,
    {
        &self.pairs[i].0
    }

    /// The value of the entry at position `i`.
    pub fn value_at(&self, i: usize) -> (r: &V)
        requires
            i < self@.len(),
        ensures
            *r == self@[i as int].1,
    {
        &self.pairs[i].1
    }
}

impl<V: Clone> Clone for StrMap<V> {
    /// A clone has the same length and keys; values are cloned with
    /// whatever `V::clone` does.
    fn clone(&self) -> (r: Self) {
        let mut pairs: Vec<(String, V)> = Vec::new();
        let mut i: usize = 0;
        while i < self.pairs.len()
            invariant
                0 <= i <= self@.len(),
                pairs@.len() == i,
            decreases self@.len() - i,
        {
            let k = &self.pairs[i].0;
            let v = &self.pairs[i].1;
            pairs.push((k.clone(), v.clone()));
            i = i + 1;
        }
        StrMap { pairs }
    }
}

} // verus!
