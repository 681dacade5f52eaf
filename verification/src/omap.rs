use vstd::prelude::*;

verus! {

/// First index of `k` among the keys of `s`, or `-1` when absent.
pub open spec fn find_idx<V>(s: Seq<(Seq<u8>, V)>, k: Seq<u8>) -> int
    decreases s.len(),
{
    if s.len() == 0 {
        -1
    } else if s[0].0 == k {
        0
    } else {
        let r = find_idx(s.drop_first(), k);
        if r == -1 {
            -1
        } else {
            r + 1
        }
    }
}

/// The key-to-value map a sequence of entries denotes; later entries win.
pub open spec fn entries_map<V>(s: Seq<(Seq<u8>, V)>) -> Map<Seq<u8>, V>
    decreases s.len(),
{
    if s.len() == 0 {
        Map::empty()
    } else {
        entries_map(s.drop_last()).insert(s.last().0, s.last().1)
    }
}

/// Keys of `s` are pairwise distinct.
pub open spec fn distinct_keys<V>(s: Seq<(Seq<u8>, V)>) -> bool {
    forall|i: int, j: int| 0 <= i < j < s.len() ==> s[i].0 != s[j].0
}

pub proof fn lemma_entries_map_domain<V>(s: Seq<(Seq<u8>, V)>)
    ensures
        forall|k: Seq<u8>|
            entries_map(s).contains_key(k) <==> exists|i: int| 0 <= i < s.len() && s[i].0 == k,
    decreases s.len(),
{
    if s.len() > 0 {
        lemma_entries_map_domain(s.drop_last());
        assert forall|k: Seq<u8>| entries_map(s).contains_key(k) implies exists|i: int|
            0 <= i < s.len() && s[i].0 == k by {
            if k == s.last().0 {
                assert(s[s.len() - 1].0 == k);
            } else {
                assert(entries_map(s) == entries_map(s.drop_last()).insert(
                    s.last().0,
                    s.last().1,
                ));
                assert(entries_map(s.drop_last()).contains_key(k));
                assert(exists|i: int| 0 <= i < s.drop_last().len() && s.drop_last()[i].0 == k);
                let i = choose|i: int| 0 <= i < s.drop_last().len() && s.drop_last()[i].0 == k;
                assert(s.drop_last()[i] == s[i]);
                assert(s[i].0 == k);
            }
        }
        assert forall|k: Seq<u8>| (exists|i: int| 0 <= i < s.len() && s[i].0 == k) implies
            entries_map(s).contains_key(k) by {
            let i = choose|i: int| 0 <= i < s.len() && s[i].0 == k;
            assert(entries_map(s) == entries_map(s.drop_last()).insert(s.last().0, s.last().1));
            if i == s.len() - 1 {
                assert(k == s.last().0);
            } else {
                assert(s.drop_last()[i] == s[i]);
                assert(exists|j: int| 0 <= j < s.drop_last().len() && s.drop_last()[j].0 == k);
                assert(entries_map(s.drop_last()).contains_key(k));
            }
        }
    }
}

pub proof fn lemma_entries_map_at<V>(s: Seq<(Seq<u8>, V)>, i: int)
    requires
        distinct_keys(s),
        0 <= i < s.len(),
    ensures
        entries_map(s).contains_key(s[i].0),
        entries_map(s)[s[i].0] == s[i].1,
    decreases s.len(),
{
    if i == s.len() - 1 {
    } else {
        lemma_entries_map_at(s.drop_last(), i);
        assert(s.drop_last()[i] == s[i]);
        assert(s[i].0 != s.last().0);
    }
}

pub proof fn lemma_entries_map_update<V>(s: Seq<(Seq<u8>, V)>, i: int, v: V)
    requires
        distinct_keys(s),
        0 <= i < s.len(),
    ensures
        entries_map(s.update(i, (s[i].0, v))) == entries_map(s).insert(s[i].0, v),
        distinct_keys(s.update(i, (s[i].0, v))),
    decreases s.len(),
{
    let t = s.update(i, (s[i].0, v));
    assert(distinct_keys(t)) by {
        assert(forall|x: int| 0 <= x < s.len() ==> t[x].0 == s[x].0);
    }
    if i == s.len() - 1 {
        assert(t.drop_last() =~= s.drop_last());
        assert(entries_map(t) == entries_map(s.drop_last()).insert(s[i].0, v));
        assert(entries_map(s).insert(s[i].0, v) =~= entries_map(s.drop_last()).insert(
            s[i].0,
            v,
        ));
    } else {
        assert(t.drop_last() =~= s.drop_last().update(i, (s[i].0, v)));
        assert(s.drop_last()[i] == s[i]);
        lemma_entries_map_update(s.drop_last(), i, v);
        assert(t.last() == s.last());
        assert(entries_map(t) == entries_map(s.drop_last()).insert(s[i].0, v).insert(
            s.last().0,
            s.last().1,
        ));
        assert(s[i].0 != s.last().0);
        assert(entries_map(s.drop_last()).insert(s[i].0, v).insert(s.last().0, s.last().1)
            =~= entries_map(s.drop_last()).insert(s.last().0, s.last().1).insert(s[i].0, v));
    }
}

pub proof fn lemma_entries_map_remove<V>(s: Seq<(Seq<u8>, V)>, i: int)
    requires
        distinct_keys(s),
        0 <= i < s.len(),
    ensures
        entries_map(s.remove(i)) == entries_map(s).remove(s[i].0),
        distinct_keys(s.remove(i)),
    decreases s.len(),
{
    let t = s.remove(i);
    assert(distinct_keys(t)) by {
        assert(forall|x: int| 0 <= x < i ==> t[x] == s[x]);
        assert(forall|x: int| i <= x < t.len() ==> t[x] == s[x + 1]);
    }
    lemma_entries_map_domain(s);
    if i == s.len() - 1 {
        assert(t =~= s.drop_last());
        assert(!entries_map(s.drop_last()).contains_key(s[i].0)) by {
            lemma_entries_map_domain(s.drop_last());
            assert forall|j: int| 0 <= j < s.drop_last().len() implies s.drop_last()[j].0
                != s[i].0 by {
                assert(s[j].0 != s[i].0);
            }
        }
        assert(entries_map(s.drop_last()) =~= entries_map(s.drop_last()).insert(
            s.last().0,
            s.last().1,
        ).remove(s[i].0));
    } else {
        assert(t.drop_last() =~= s.drop_last().remove(i));
        assert(s.drop_last()[i] == s[i]);
        lemma_entries_map_remove(s.drop_last(), i);
        assert(t.last() == s.last());
        assert(entries_map(t) == entries_map(s.drop_last()).remove(s[i].0).insert(
            s.last().0,
            s.last().1,
        ));
        assert(s[i].0 != s.last().0);
        assert(entries_map(s.drop_last()).remove(s[i].0).insert(s.last().0, s.last().1)
            =~= entries_map(s.drop_last()).insert(s.last().0, s.last().1).remove(s[i].0));
    }
}

/// A map from byte-string keys to values, kept in first-insertion order so
/// that every walk over it is deterministic.
pub struct OMap<V> {
    keys: Vec<Vec<u8>>,
    vals: Vec<V>,
}

impl<V> OMap<V> {
    /// The entries in order.
    pub closed spec fn entries(&self) -> Seq<(Seq<u8>, V)> {
        Seq::new(self.keys@.len(), |i: int| (self.keys@[i]@, self.vals@[i]))
    }

    /// The map the entries denote.
    pub open spec fn m(&self) -> Map<Seq<u8>, V> {
        entries_map(self.entries())
    }

    /// Well-formed: parallel columns and pairwise distinct keys.
    pub closed spec fn wf(&self) -> bool {
        &&& self.keys@.len() == self.vals@.len()
        &&& distinct_keys(self.entries())
    }

    /// A well-formed map's entry keys are pairwise distinct.
    pub proof fn lemma_wf_distinct(&self)
        requires
            self.wf(),
        ensures
            distinct_keys(self.entries()),
    {
    }

    pub fn new() -> (r: OMap<V>)
        ensures
            r.wf(),
            r.entries() =~= Seq::<(Seq<u8>, V)>::empty(),
    {
        OMap { keys: Vec::new(), vals: Vec::new() }
    }

    pub fn len(&self) -> (r: usize)
        requires
            self.wf(),
        ensures
            r == self.entries().len(),
    {
        self.keys.len()
    }

    pub fn key_at(&self, i: usize) -> (r: &Vec<u8>)
        requires
            self.wf(),
            i < self.entries().len(),
        ensures
            r@ == self.entries()[i as int].0,
    {
        &self.keys[i]
    }

    pub fn val_at(&self, i: usize) -> (r: &V)
        requires
            self.wf(),
            i < self.entries().len(),
        ensures
            *r == self.entries()[i as int].1,
    {
        &self.vals[i]
    }

    /// Index of the key, scanning in order.
    fn index_of(&self, k: &Vec<u8>) -> (r: Option<usize>)
        requires
            self.wf(),
        ensures
            match r {
                Some(i) => i < self.entries().len() && self.entries()[i as int].0 == k@
                    && find_idx(self.entries(), k@) == i,
                None => find_idx(self.entries(), k@) == -1 && !self.m().contains_key(k@),
            },
    {
        let mut i: usize = 0;
        while i < self.keys.len()
            invariant
                self.wf(),
                i <= self.entries().len(),
                forall|j: int| 0 <= j < i ==> self.entries()[j].0 != k@,
            decreases self.entries().len() - i,
        {
            if crate::primitives::bytes_eq(&self.keys[i], k) {
                proof {
                    lemma_find_idx_first(self.entries(), k@, i as int);
                }
                return Some(i);
            }
            i = i + 1;
        }
        proof {
            lemma_find_idx_none(self.entries(), k@);
            lemma_entries_map_domain(self.entries());
        }
        None
    }

    pub fn contains(&self, k: &Vec<u8>) -> (r: bool)
        requires
            self.wf(),
        ensures
            r == self.m().contains_key(k@),
    {
        proof {
            lemma_entries_map_domain(self.entries());
        }
        match self.index_of(k) {
            Some(_) => true,
            None => false,
        }
    }

    pub fn get(&self, k: &Vec<u8>) -> (r: Option<&V>)
        requires
            self.wf(),
        ensures
            match r {
                Some(v) => self.m().contains_key(k@) && *v == self.m()[k@],
                None => !self.m().contains_key(k@),
            },
    {
        match self.index_of(k) {
            Some(i) => {
                proof {
                    lemma_entries_map_at(self.entries(), i as int);
                }
                Some(&self.vals[i])
            },
            None => None,
        }
    }

    /// Insert or replace; a new key is appended, an existing key keeps its
    /// place in the order.
    pub fn set(&mut self, k: Vec<u8>, v: V)
        requires
            old(self).wf(),
        ensures
            final(self).wf(),
            final(self).m() == old(self).m().insert(k@, v),
            old(self).m().contains_key(k@) ==> final(self).entries() =~= old(self).entries().update(find_idx(old(self).entries(), k@), (k@, v)),
            !old(self).m().contains_key(k@) ==> final(self).entries() =~= old(self).entries().push((k@, v)),
    {
        proof {
            lemma_entries_map_domain(self.entries());
        }
        match self.index_of(&k) {
            Some(i) => {
                proof {
                    lemma_entries_map_update(self.entries(), i as int, v);
                }
                self.vals[i] = v;
                proof {
                    assert(self.entries() =~= old(self).entries().update(
                        i as int,
                        (old(self).entries()[i as int].0, v),
                    ));
                }
            },
            None => {
                self.keys.push(k);
                self.vals.push(v);
                proof {
                    assert(self.entries() =~= old(self).entries().push((k@, v)));
                    assert(self.entries().drop_last() =~= old(self).entries());
                    assert(self.entries().last() == (k@, v));
                    assert(self.m() == old(self).m().insert(k@, v));
                    assert(distinct_keys(self.entries())) by {
                        lemma_entries_map_domain(old(self).entries());
                        assert(forall|j: int|
                            0 <= j < old(self).entries().len() ==> old(self).entries()[j].0
                                != k@);
                    }
                }
            },
        }
    }

    /// Remove a key and hand its value back; `None` when the key is absent.
    pub fn take(&mut self, k: &Vec<u8>) -> (r: Option<V>)
        requires
            old(self).wf(),
        ensures
            final(self).wf(),
            (match r {
                Some(v) => old(self).m().contains_key(k@) && v == old(self).m()[k@] && final(self).m() == old(self).m().remove(k@) && final(self).entries() =~= old(self).entries().remove(find_idx(old(self).entries(), k@)),
                None => !old(self).m().contains_key(k@) && final(self).entries() =~= old(self).entries(),
            }),
    {
        proof {
            lemma_entries_map_domain(self.entries());
        }
        match self.index_of(k) {
            Some(i) => {
                proof {
                    lemma_entries_map_at(self.entries(), i as int);
                    lemma_entries_map_remove(self.entries(), i as int);
                }
                self.keys.remove(i);
                let v = self.vals.remove(i);
                proof {
                    assert(self.entries() =~= old(self).entries().remove(i as int));
                }
                Some(v)
            },
            None => None,
        }
    }

    /// Remove a key; silently keeps the map when the key is absent.
    pub fn remove(&mut self, k: &Vec<u8>)
        requires
            old(self).wf(),
        ensures
            final(self).wf(),
            final(self).m() == old(self).m().remove(k@),
            old(self).m().contains_key(k@) ==> final(self).entries() =~= old(self).entries().remove(find_idx(old(self).entries(), k@)),
            !old(self).m().contains_key(k@) ==> final(self).entries() =~= old(self).entries(),
    {
        proof {
            lemma_entries_map_domain(self.entries());
        }
        match self.index_of(k) {
            Some(i) => {
                proof {
                    lemma_entries_map_remove(self.entries(), i as int);
                }
                self.keys.remove(i);
                self.vals.remove(i);
                proof {
                    assert(self.entries() =~= old(self).entries().remove(i as int));
                }
            },
            None => {
                proof {
                    assert(old(self).m().remove(k@) =~= old(self).m());
                }
            },
        }
    }
}

/// Where some entry carries the key, `find_idx` lands on one that does.
pub proof fn lemma_find_idx_in_range<V>(s: Seq<(Seq<u8>, V)>, k: Seq<u8>)
    requires
        exists|i: int| 0 <= i < s.len() && s[i].0 == k,
    ensures
        0 <= find_idx(s, k) < s.len(),
        s[find_idx(s, k)].0 == k,
    decreases s.len(),
{
    if s[0].0 == k {
    } else {
        let i = choose|i: int| 0 <= i < s.len() && s[i].0 == k;
        assert(i > 0);
        assert(s.drop_first()[i - 1].0 == k);
        lemma_find_idx_in_range(s.drop_first(), k);
    }
}

/// After a `set`, every entry is the written one or one that was already
/// there.
pub proof fn lemma_set_entry_keys<V>(
    pre: Seq<(Seq<u8>, V)>,
    post: Seq<(Seq<u8>, V)>,
    k: Seq<u8>,
    v: V,
)
    requires
        distinct_keys(pre),
        entries_map(pre).contains_key(k) ==> post =~= pre.update(find_idx(pre, k), (k, v)),
        !entries_map(pre).contains_key(k) ==> post =~= pre.push((k, v)),
    ensures
        forall|i: int|
            0 <= i < post.len() ==> (#[trigger] post[i]) == (k, v) || (exists|j: int|
                0 <= j < pre.len() && post[i] == pre[j]),
{
    lemma_entries_map_domain(pre);
    if entries_map(pre).contains_key(k) {
        lemma_find_idx_in_range(pre, k);
        let idx = find_idx(pre, k);
        assert forall|i: int| 0 <= i < post.len() implies (#[trigger] post[i]) == (k, v) || (
        exists|j: int| 0 <= j < pre.len() && post[i] == pre[j]) by {
            if i != idx {
                assert(post[i] == pre[i]);
            }
        }
    } else {
        assert forall|i: int| 0 <= i < post.len() implies (#[trigger] post[i]) == (k, v) || (
        exists|j: int| 0 <= j < pre.len() && post[i] == pre[j]) by {
            if i < pre.len() {
                assert(post[i] == pre[i]);
            }
        }
    }
}

/// After a `remove`, every entry is one that was already there.
pub proof fn lemma_remove_subset<V>(
    pre: Seq<(Seq<u8>, V)>,
    post: Seq<(Seq<u8>, V)>,
    k: Seq<u8>,
)
    requires
        distinct_keys(pre),
        entries_map(pre).contains_key(k) ==> post =~= pre.remove(find_idx(pre, k)),
        !entries_map(pre).contains_key(k) ==> post =~= pre,
    ensures
        forall|i: int|
            0 <= i < post.len() ==> exists|j: int| 0 <= j < pre.len() && (#[trigger] post[i])
                == pre[j],
{
    lemma_entries_map_domain(pre);
    if entries_map(pre).contains_key(k) {
        lemma_find_idx_in_range(pre, k);
        let idx = find_idx(pre, k);
        assert forall|i: int| 0 <= i < post.len() implies exists|j: int|
            0 <= j < pre.len() && (#[trigger] post[i]) == pre[j] by {
            if i < idx {
                assert(post[i] == pre[i]);
            } else {
                assert(post[i] == pre[i + 1]);
            }
        }
    } else {
        assert forall|i: int| 0 <= i < post.len() implies exists|j: int|
            0 <= j < pre.len() && (#[trigger] post[i]) == pre[j] by {
            assert(post[i] == pre[i]);
        }
    }
}

proof fn lemma_find_idx_first<V>(s: Seq<(Seq<u8>, V)>, k: Seq<u8>, i: int)
    requires
        0 <= i < s.len(),
        s[i].0 == k,
        forall|j: int| 0 <= j < i ==> s[j].0 != k,
    ensures
        find_idx(s, k) == i,
    decreases s.len(),
{
    if i > 0 {
        assert(forall|j: int| 0 <= j < i - 1 ==> s.drop_first()[j].0 != k);
        assert(s.drop_first()[i - 1].0 == k);
        lemma_find_idx_first(s.drop_first(), k, i - 1);
    }
}

proof fn lemma_find_idx_none<V>(s: Seq<(Seq<u8>, V)>, k: Seq<u8>)
    requires
        forall|j: int| 0 <= j < s.len() ==> s[j].0 != k,
    ensures
        find_idx(s, k) == -1,
    decreases s.len(),
{
    if s.len() > 0 {
        assert(forall|j: int| 0 <= j < s.drop_first().len() ==> s.drop_first()[j].0 != k);
        lemma_find_idx_none(s.drop_first(), k);
    }
}

impl<V: Copy> OMap<V> {
    /// A copy with the same entries, for value types that copy bit for bit.
    pub fn duplicate(&self) -> (r: OMap<V>)
        requires
            self.wf(),
        ensures
            r.wf(),
            r.entries() =~= self.entries(),
    {
        let mut keys: Vec<Vec<u8>> = Vec::new();
        let mut vals: Vec<V> = Vec::new();
        let mut i: usize = 0;
        while i < self.keys.len()
            invariant
                self.wf(),
                i <= self.keys@.len(),
                keys@.len() == i,
                vals@.len() == i,
                forall|j: int| 0 <= j < i ==> keys@[j]@ == self.keys@[j]@,
                forall|j: int| 0 <= j < i ==> vals@[j] == self.vals@[j],
            decreases self.keys@.len() - i,
        {
            keys.push(crate::primitives::clone_bytes(&self.keys[i]));
            vals.push(self.vals[i]);
            i = i + 1;
        }
        let r = OMap { keys, vals };
        proof {
            assert(r.entries() =~= self.entries());
        }
        r
    }
}

} // verus!
