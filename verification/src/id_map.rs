use vstd::prelude::*;

verus! {

/// Position of the first entry with key `k`, or -1.
pub open spec fn key_pos<V>(s: Seq<(u128, V)>, k: u128) -> int
    decreases s.len(),
{
    if s.len() == 0 {
        -1
    } else if s[0].0 == k {
        0
    } else {
        let p = key_pos(s.drop_first(), k);
        if p < 0 {
            -1
        } else {
            p + 1
        }
    }
}

/// An association list after setting `k` to `v`: the entry for `k` keeps
/// its place and takes the new value, or a new entry goes at the end.
pub open spec fn assoc_insert<V>(s: Seq<(u128, V)>, k: u128, v: V) -> Seq<(u128, V)> {
    let p = key_pos(s, k);
    if p < 0 {
        s.push((k, v))
    } else {
        s.update(p, (k, v))
    }
}

/// No key occurs twice.
pub open spec fn unique_keys<V>(s: Seq<(u128, V)>) -> bool {
    forall|i: int, j: int| 0 <= i < j < s.len() ==> s[i].0 != s[j].0
}

/// Whether some entry has key `k`.
pub open spec fn has_key<V>(s: Seq<(u128, V)>, k: u128) -> bool {
    exists|i: int| 0 <= i < s.len() && s[i].0 == k
}

pub proof fn lemma_key_pos<V>(s: Seq<(u128, V)>, k: u128)
    ensures
        -1 <= key_pos(s, k) < s.len(),
        key_pos(s, k) >= 0 ==> s[key_pos(s, k)].0 == k,
        key_pos(s, k) >= 0 ==> forall|i: int| 0 <= i < key_pos(s, k) ==> s[i].0 != k,
        key_pos(s, k) < 0 <==> !has_key(s, k),
    decreases s.len(),
{
    if s.len() > 0 {
        lemma_key_pos(s.drop_first(), k);
        if key_pos(s, k) < 0 {
            assert forall|i: int| 0 <= i < s.len() implies s[i].0 != k by {
                if i > 0 {
                    assert(s[i] == s.drop_first()[i - 1]);
                }
            }
        } else if s[0].0 != k {
            assert(s.drop_first()[key_pos(s.drop_first(), k)] == s[key_pos(s, k)]);
            assert forall|i: int| 0 <= i < key_pos(s, k) implies s[i].0 != k by {
                if i > 0 {
                    assert(s[i] == s.drop_first()[i - 1]);
                }
            }
        }
    }
}

/// Setting a key keeps keys unique, and afterwards the key is present.
pub proof fn lemma_assoc_insert<V>(s: Seq<(u128, V)>, k: u128, v: V)
    requires
        unique_keys(s),
    ensures
        unique_keys(assoc_insert(s, k, v)),
        has_key(assoc_insert(s, k, v), k),
        forall|j: u128| has_key(s, j) ==> has_key(assoc_insert(s, k, v), j),
        forall|j: u128| j != k ==> (has_key(assoc_insert(s, k, v), j) <==> has_key(s, j)),
{
    lemma_key_pos(s, k);
    let r = assoc_insert(s, k, v);
    let p = key_pos(s, k);
    if p < 0 {
        assert(r[s.len() as int].0 == k);
    } else {
        assert(r[p].0 == k);
    }
    assert forall|j: u128| has_key(s, j) implies has_key(r, j) by {
        let i = choose|i: int| 0 <= i < s.len() && s[i].0 == j;
        assert(r[i].0 == j);
    }
    assert forall|j: u128| j != k && has_key(r, j) implies has_key(s, j) by {
        let i = choose|i: int| 0 <= i < r.len() && r[i].0 == j;
        assert(s[i].0 == j);
    }
}

/// The value of key `k`, for a key that is present.
pub open spec fn value_of<V>(s: Seq<(u128, V)>, k: u128) -> V {
    s[key_pos(s, k)].1
}

proof fn lemma_key_pos_first<V>(s: Seq<(u128, V)>, k: u128, q: int)
    requires
        0 <= q < s.len(),
        s[q].0 == k,
        forall|i: int| 0 <= i < q ==> s[i].0 != k,
    ensures
        key_pos(s, k) == q,
{
    lemma_key_pos(s, k);
    assert(has_key(s, k));
}

/// After setting `k` to `v`, `k` has the value `v` and every other key
/// keeps its value.
pub proof fn lemma_assoc_insert_value<V>(s: Seq<(u128, V)>, k: u128, v: V)
    ensures
        has_key(assoc_insert(s, k, v), k),
        value_of(assoc_insert(s, k, v), k) == v,
        forall|j: u128|
            j != k && has_key(s, j) ==> #[trigger] value_of(assoc_insert(s, k, v), j) == value_of(
                s,
                j,
            ),
        forall|j: u128| #[trigger] has_key(assoc_insert(s, k, v), j) <==> j == k || has_key(s, j),
{
    lemma_key_pos(s, k);
    let t = assoc_insert(s, k, v);
    let p = key_pos(s, k);
    if p < 0 {
        lemma_key_pos_first(t, k, s.len() as int);
    } else {
        lemma_key_pos_first(t, k, p);
    }
    assert forall|j: u128| j != k && has_key(s, j) implies #[trigger] value_of(t, j) == value_of(
        s,
        j,
    ) by {
        lemma_key_pos(s, j);
        lemma_key_pos_first(t, j, key_pos(s, j));
    }
    assert forall|j: u128| #[trigger] has_key(t, j) <==> j == k || has_key(s, j) by {
        if has_key(t, j) && j != k {
            let i = choose|i: int| 0 <= i < t.len() && t[i].0 == j;
            assert(s[i].0 == j);
        }
        if has_key(s, j) {
            let i = choose|i: int| 0 <= i < s.len() && s[i].0 == j;
            assert(t[i].0 == j);
        }
        if j == k {
            assert(t[key_pos(t, k)].0 == k);
        }
    }
}

/// The entries of `s` with `f` applied to each value.
pub open spec fn map_vals<V, W>(s: Seq<(u128, V)>, f: spec_fn(V) -> W) -> Seq<(u128, W)> {
    s.map_values(|e: (u128, V)| (e.0, f(e.1)))
}

pub proof fn lemma_key_pos_map<V, W>(s: Seq<(u128, V)>, k: u128, f: spec_fn(V) -> W)
    ensures
        key_pos(map_vals(s, f), k) == key_pos(s, k),
    decreases s.len(),
{
    if s.len() > 0 {
        assert(map_vals(s, f).drop_first() =~= map_vals(s.drop_first(), f));
        lemma_key_pos_map(s.drop_first(), k, f);
    }
}

/// Mapping the values commutes with setting a key.
pub proof fn lemma_assoc_insert_map<V, W>(s: Seq<(u128, V)>, k: u128, v: V, f: spec_fn(V) -> W)
    ensures
        map_vals(assoc_insert(s, k, v), f) == assoc_insert(map_vals(s, f), k, f(v)),
{
    lemma_key_pos_map(s, k, f);
    lemma_key_pos(s, k);
    assert(map_vals(assoc_insert(s, k, v), f) =~= assoc_insert(map_vals(s, f), k, f(v)));
}

/// A list of values keyed by 128-bit ids, each id at most once, kept in the
/// order in which the ids first came.
pub struct IdMap<V> {
    entries: Vec<(u128, V)>,
}

impl<V> IdMap<V> {
    #[verifier::type_invariant]
    spec fn wf(self) -> bool {
        unique_keys(self.entries@)
    }

    /// The entries, in order.
    pub closed spec fn entries(&self) -> Seq<(u128, V)> {
        self.entries@
    }

    /// An empty map.
    pub fn new() -> (m: Self)
        ensures
            m.entries() == Seq::<(u128, V)>::empty(),
    {
        IdMap { entries: Vec::new() }
    }

    fn find(&self, id: u128) -> (r: Option<usize>)
        ensures
            r matches Some(i) ==> i == key_pos(self.entries(), id) && i < self.entries().len(),
            r is None ==> key_pos(self.entries(), id) < 0,
    {
        proof {
            lemma_key_pos(self.entries(), id);
        }
        let n = self.entries.len();
        let mut i: usize = 0;
        while i < n
            invariant
                n == self.entries@.len(),
                i <= n,
                forall|j: int| 0 <= j < i ==> self.entries@[j].0 != id,
            decreases n - i,
        {
            if self.entries[i].0 == id {
                proof {
                    lemma_key_pos(self.entries(), id);
                }
                return Some(i);
            }
            i = i + 1;
        }
        None
    }

    /// Sets `id` to `v`.
    pub fn insert(&mut self, id: u128, v: V)
        ensures
            final(self).entries() == assoc_insert(old(self).entries(), id, v),
    {
        proof {
            use_type_invariant(&*self);
            lemma_assoc_insert(self.entries@, id, v);
        }
        let pos = self.find(id);
        let mut entries: Vec<(u128, V)> = Vec::new();
        std::mem::swap(&mut entries, &mut self.entries);
        match pos {
            Some(i) => {
                entries.set(i, (id, v));
            },
            None => {
                entries.push((id, v));
            },
        }
        self.entries = entries;
    }

    /// The value of `id`, if any.
    pub fn get(&self, id: u128) -> (r: Option<&V>)
        ensures
            r is Some <==> key_pos(self.entries(), id) >= 0,
            r matches Some(x) ==> *x == self.entries()[key_pos(self.entries(), id)].1,
    {
        match self.find(id) {
            Some(i) => Some(&self.entries[i].1),
            None => None,
        }
    }

    /// The number of entries; the keys are unique.
    pub fn len(&self) -> (n: usize)
        ensures
            n == self.entries().len(),
            unique_keys(self.entries()),
    {
        proof {
            use_type_invariant(self);
        }
        self.entries.len()
    }

    /// The `i`-th entry.
    pub fn entry(&self, i: usize) -> (r: (u128, &V))
        requires
            i < self.entries().len(),
        ensures
            r.0 == self.entries()[i as int].0,
            *r.1 == self.entries()[i as int].1,
    {
        (self.entries[i].0, &self.entries[i].1)
    }

    /// The values, in order.
    pub fn into_values(self) -> (r: Vec<V>)
        ensures
            r@ == self.entries().map_values(|e: (u128, V)| e.1),
    {
        let ghost all = self.entries@;
        let IdMap { entries } = self;
        let mut rest = entries;
        let mut out: Vec<V> = Vec::new();
        while rest.len() > 0
            invariant
                out@.len() + rest@.len() == all.len(),
                forall|j: int| 0 <= j < out@.len() ==> out@[j] == all[j].1,
                forall|j: int| 0 <= j < rest@.len() ==> rest@[j] == all[out@.len() + j],
            decreases rest@.len(),
        {
            let (_, v) = rest.remove(0);
            out.push(v);
        }
        assert(out@ =~= all.map_values(|e: (u128, V)| e.1));
        out
    }
}

} // verus!
