//! Values as the configuration writes them: maps from names to values that keep the order of
//! their entries, lists joined one after the other, and copies of such values.
use crate::text::same_text;
use vstd::prelude::*;

verus! {

/// A value that can be copied, the copy meaning the same as the original.
pub trait Duplicate: DeepView + Sized {
    fn duplicate(&self) -> (r: Self)
        ensures
            r.deep_view() == self.deep_view(),
    ;
}

impl Duplicate for String {
    fn duplicate(&self) -> (r: String) {
        self.clone()
    }
}

impl Duplicate for u64 {
    fn duplicate(&self) -> (r: u64) {
        *self
    }
}

impl Duplicate for bool {
    fn duplicate(&self) -> (r: bool) {
        *self
    }
}

impl<T: Duplicate> Duplicate for Option<T> {
    fn duplicate(&self) -> (r: Option<T>) {
        match self {
            Some(t) => Some(t.duplicate()),
            None => None,
        }
    }
}

impl<A: Duplicate, B: Duplicate> Duplicate for (A, B) {
    fn duplicate(&self) -> (r: (A, B)) {
        (self.0.duplicate(), self.1.duplicate())
    }
}

impl<T: Duplicate> Duplicate for Vec<T> {
    fn duplicate(&self) -> (r: Vec<T>) {
        let mut r: Vec<T> = Vec::new();
        append_copies(&mut r, self);
        assert(r.deep_view() =~= self.deep_view());
        r
    }
}

/// Puts copies of `items` at the end of `out`, in order.
pub fn append_copies<T: Duplicate>(out: &mut Vec<T>, items: &Vec<T>)
    ensures
        final(out).deep_view() == old(out).deep_view() + items.deep_view(),
{
    let ghost start = out.deep_view();
    let mut i: usize = 0;
    while i < items.len()
        invariant
            i <= items.len(),
            out.deep_view() =~= start + items.deep_view().take(i as int),
        decreases items.len() - i,
    {
        let c = items[i].duplicate();
        let ghost before = out.deep_view();
        out.push(c);
        proof {
            assert(out.deep_view() =~= before.push(items@[i as int].deep_view()));
            assert(items.deep_view().take(i + 1) =~= items.deep_view().take(i as int).push(
                items@[i as int].deep_view(),
            ));
            assert(out.deep_view() =~= start + items.deep_view().take(i + 1));
        }
        i = i + 1;
    }
    assert(items.deep_view().take(items.len() as int) =~= items.deep_view());
}

/// Whether `i` is the place of the first entry named `k`.
pub open spec fn first_key<W>(m: Seq<(Seq<char>, W)>, k: Seq<char>, i: int) -> bool {
    &&& 0 <= i < m.len()
    &&& m[i].0 == k
    &&& forall|j: int| 0 <= j < i ==> m[j].0 != k
}

/// Whether an entry is named `k`.
pub open spec fn has_key<W>(m: Seq<(Seq<char>, W)>, k: Seq<char>) -> bool {
    exists|i: int| 0 <= i < m.len() && m[i].0 == k
}

/// The map with `k` set to `v`: the first entry named `k` takes the value and keeps its place;
/// without one, the entry goes at the end.
pub open spec fn map_insert<W>(m: Seq<(Seq<char>, W)>, k: Seq<char>, v: W) -> Seq<(Seq<char>, W)> {
    if has_key(m, k) {
        m.update(choose|i: int| first_key(m, k, i), (k, v))
    } else {
        m.push((k, v))
    }
}

/// The map with the entries of `n` set in order, so that a later one wins.
pub open spec fn map_extend<W>(m: Seq<(Seq<char>, W)>, n: Seq<(Seq<char>, W)>) -> Seq<(Seq<char>, W)>
    decreases n.len(),
{
    if n.len() == 0 {
        m
    } else {
        map_insert(map_extend(m, n.drop_last()), n.last().0, n.last().1)
    }
}

/// The value of the first entry named `k`, if one is.
pub open spec fn map_get<W>(m: Seq<(Seq<char>, W)>, k: Seq<char>) -> Option<W> {
    if has_key(m, k) {
        Some(m[choose|i: int| first_key(m, k, i)].1)
    } else {
        None
    }
}

/// The first entry named `k` is the only one with no entry of that name before it.
pub proof fn lemma_first_key_unique<W>(m: Seq<(Seq<char>, W)>, k: Seq<char>, i: int)
    requires
        first_key(m, k, i),
    ensures
        has_key(m, k),
        (choose|j: int| first_key(m, k, j)) == i,
{
    let j = choose|j: int| first_key(m, k, j);
    assert(first_key(m, k, j));
    if j < i {
        assert(m[j].0 != k);
    } else if i < j {
        assert(m[i].0 != k);
    }
}

/// A map with an entry named `k` has a first one.
pub proof fn lemma_first_key_exists<W>(m: Seq<(Seq<char>, W)>, k: Seq<char>)
    requires
        has_key(m, k),
    ensures
        first_key(m, k, choose|i: int| first_key(m, k, i)),
    decreases m.len(),
{
    let w = choose|i: int| 0 <= i < m.len() && m[i].0 == k;
    let d = m.drop_last();
    if has_key(d, k) {
        lemma_first_key_exists(d, k);
        let i = choose|i: int| first_key(d, k, i);
        assert forall|j: int| 0 <= j <= i implies m[j] == d[j] by {}
        assert(first_key(m, k, i));
    } else {
        let i = m.len() - 1;
        assert forall|j: int| 0 <= j < i implies m[j].0 != k by {
            assert(m[j] == d[j]);
            if m[j].0 == k {
                assert(has_key(d, k));
            }
        }
        if w < i {
            assert(m[w] == d[w]);
            assert(has_key(d, k));
        }
        assert(first_key(m, k, i));
    }
}

/// Two maps whose entries have the same names, in the same order, have their first entry of a
/// name at the same place.
pub proof fn lemma_same_keys<W1, W2>(a: Seq<(Seq<char>, W1)>, b: Seq<(Seq<char>, W2)>, k: Seq<char>)
    requires
        a.len() == b.len(),
        forall|i: int| 0 <= i < a.len() ==> a[i].0 == b[i].0,
    ensures
        has_key(a, k) == has_key(b, k),
        has_key(a, k) ==> (choose|i: int| first_key(a, k, i)) == (choose|i: int| first_key(b, k, i)),
        has_key(a, k) ==> first_key(a, k, choose|i: int| first_key(a, k, i)),
{
    if has_key(a, k) {
        lemma_first_key_exists(a, k);
        let i = choose|i: int| first_key(a, k, i);
        assert(first_key(b, k, i));
        lemma_first_key_unique(b, k, i);
    } else if has_key(b, k) {
        let i = choose|i: int| 0 <= i < b.len() && b[i].0 == k;
        assert(a[i].0 == k);
    }
}

/// The place of the first entry of `m` named `k`, if one is.
pub fn find_key<V: DeepView>(m: &Vec<(String, V)>, k: &str) -> (r: Option<usize>)
    ensures
        r is None ==> !has_key(m.deep_view(), k@),
        r matches Some(i) ==> first_key(m.deep_view(), k@, i as int) && (choose|j: int|
            first_key(m.deep_view(), k@, j)) == i,
{
    let mut i: usize = 0;
    while i < m.len()
        invariant
            i <= m.len(),
            forall|j: int| 0 <= j < i ==> m.deep_view()[j].0 != k@,
        decreases m.len() - i,
    {
        if same_text(m[i].0.as_str(), k) {
            proof {
                lemma_first_key_unique(m.deep_view(), k@, i as int);
            }
            return Some(i);
        }
        i = i + 1;
    }
    None
}

/// Sets `k` to `v` in `m`; see [`map_insert`].
pub fn map_set<V: DeepView>(m: &mut Vec<(String, V)>, k: String, v: V)
    ensures
        final(m).deep_view() == map_insert(old(m).deep_view(), k@, v.deep_view()),
{
    match find_key(m, k.as_str()) {
        Some(i) => {
            let ghost kv = k@;
            let ghost vv = v.deep_view();
            m.set(i, (k, v));
            assert(m.deep_view() =~= map_insert(old(m).deep_view(), kv, vv));
        },
        None => {
            let ghost kv = k@;
            let ghost vv = v.deep_view();
            m.push((k, v));
            assert(m.deep_view() =~= map_insert(old(m).deep_view(), kv, vv));
        },
    }
}

/// Sets copies of the entries of `n` in `m`, in order; see [`map_extend`].
pub fn map_extend_copies<V: Duplicate>(m: &mut Vec<(String, V)>, n: &Vec<(String, V)>)
    ensures
        final(m).deep_view() == map_extend(old(m).deep_view(), n.deep_view()),
{
    let ghost start = m.deep_view();
    let mut i: usize = 0;
    while i < n.len()
        invariant
            i <= n.len(),
            m.deep_view() == map_extend(start, n.deep_view().take(i as int)),
        decreases n.len() - i,
    {
        let k = n[i].0.clone();
        let v = n[i].1.duplicate();
        map_set(m, k, v);
        proof {
            let t = n.deep_view().take(i + 1);
            assert(t.drop_last() =~= n.deep_view().take(i as int));
            assert(t.last() == n.deep_view()[i as int]);
        }
        i = i + 1;
    }
    assert(n.deep_view().take(n.len() as int) =~= n.deep_view());
}

/// The value of the first entry of `m` named `k`, if one is.
pub fn map_lookup<'a, V: DeepView>(m: &'a Vec<(String, V)>, k: &str) -> (r: Option<&'a V>)
    ensures
        r matches Some(v) ==> map_get(m.deep_view(), k@) == Some(v.deep_view()),
        r is None ==> map_get(m.deep_view(), k@) is None,
{
    match find_key(m, k) {
        Some(i) => Some(&m[i].1),
        None => None,
    }
}

/// Whether no two entries of the map have the same name.
pub open spec fn keys_unique<W>(m: Seq<(Seq<char>, W)>) -> bool {
    forall|i: int, j: int| 0 <= i < j < m.len() ==> m[i].0 != m[j].0
}

proof fn lemma_insert_get<W>(m: Seq<(Seq<char>, W)>, k: Seq<char>, v: W, q: Seq<char>)
    ensures
        map_get(map_insert(m, k, v), q) == if q == k {
            Some(v)
        } else {
            map_get(m, q)
        },
{
    let n = map_insert(m, k, v);
    if has_key(m, k) {
        lemma_first_key_exists(m, k);
        let i = choose|i: int| first_key(m, k, i);
        assert(n == m.update(i, (k, v)));
        lemma_same_keys(m, n, q);
        if q == k {
            lemma_first_key_unique(n, q, i);
        } else if has_key(m, q) {
            let j = choose|j: int| first_key(m, q, j);
            assert(j != i);
        }
    } else {
        assert(n == m.push((k, v)));
        if q == k {
            assert(first_key(n, k, m.len() as int));
            lemma_first_key_unique(n, k, m.len() as int);
        } else {
            if has_key(m, q) {
                lemma_first_key_exists(m, q);
                let j = choose|j: int| first_key(m, q, j);
                assert(first_key(n, q, j));
                lemma_first_key_unique(n, q, j);
            }
            if has_key(n, q) {
                let j = choose|j: int| 0 <= j < n.len() && n[j].0 == q;
                assert(j < m.len());
                assert(m[j].0 == q);
            }
        }
    }
}

/// Extending a map by `n` gives each name of `n` the value `n` has for it, and leaves the
/// other names as they were: what is laid over wins.
pub proof fn law_extend_later_wins<W>(m: Seq<(Seq<char>, W)>, n: Seq<(Seq<char>, W)>, k: Seq<char>)
    requires
        keys_unique(n),
    ensures
        map_get(map_extend(m, n), k) == if has_key(n, k) {
            map_get(n, k)
        } else {
            map_get(m, k)
        },
    decreases n.len(),
{
    if n.len() > 0 {
        let d = n.drop_last();
        assert(keys_unique(d));
        law_extend_later_wins(m, d, k);
        lemma_insert_get(map_extend(m, d), n.last().0, n.last().1, k);
        let last = n.len() - 1;
        if k == n.last().0 {
            assert(first_key(n, k, last)) by {
                assert forall|j: int| 0 <= j < last implies n[j].0 != k by {}
            }
            lemma_first_key_unique(n, k, last);
        } else {
            if has_key(n, k) {
                lemma_first_key_exists(n, k);
                let j = choose|j: int| first_key(n, k, j);
                assert(j < last);
                assert(first_key(d, k, j));
                lemma_first_key_unique(d, k, j);
            }
            if has_key(d, k) {
                lemma_first_key_exists(d, k);
                let j = choose|j: int| first_key(d, k, j);
                assert(first_key(n, k, j));
            }
        }
    }
}

} // verus!
