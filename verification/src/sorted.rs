//! Names in order: the order of text, character by character as `str` orders it, and lists of
//! named entries sorted by name.
use vstd::prelude::*;

verus! {

/// Whether the text `a` comes before `b`: at the first character where they differ, `a` has
/// the smaller one, or `a` is a proper prefix of `b`. Comparing the characters orders the text
/// as comparing its UTF-8 bytes does.
pub open spec fn lex_lt(a: Seq<char>, b: Seq<char>) -> bool
    decreases a.len(),
{
    if a.len() == 0 {
        b.len() > 0
    } else if b.len() == 0 {
        false
    } else if a[0] < b[0] {
        true
    } else if a[0] == b[0] {
        lex_lt(a.drop_first(), b.drop_first())
    } else {
        false
    }
}

proof fn lemma_lex_irreflexive(a: Seq<char>)
    ensures
        !lex_lt(a, a),
    decreases a.len(),
{
    if a.len() > 0 {
        lemma_lex_irreflexive(a.drop_first());
    }
}

proof fn lemma_lex_trans(a: Seq<char>, b: Seq<char>, c: Seq<char>)
    requires
        lex_lt(a, b),
        lex_lt(b, c),
    ensures
        lex_lt(a, c),
    decreases a.len(),
{
    if a.len() > 0 && b.len() > 0 && c.len() > 0 && a[0] == b[0] && b[0] == c[0] {
        lemma_lex_trans(a.drop_first(), b.drop_first(), c.drop_first());
    }
}

proof fn lemma_lex_total(a: Seq<char>, b: Seq<char>)
    requires
        a != b,
    ensures
        lex_lt(a, b) || lex_lt(b, a),
    decreases a.len(),
{
    if a.len() > 0 && b.len() > 0 && a[0] == b[0] {
        if a.drop_first() == b.drop_first() {
            assert(a =~= seq![a[0]] + a.drop_first());
            assert(b =~= seq![b[0]] + b.drop_first());
        }
        lemma_lex_total(a.drop_first(), b.drop_first());
    } else if a.len() == 0 && b.len() == 0 {
        assert(a =~= b);
    }
}

/// Whether the text `a` comes before `b`; see [`lex_lt`].
pub fn text_less(a: &str, b: &str) -> (r: bool)
    ensures
        r == lex_lt(a@, b@),
{
    let x = crate::text::chars_of(a);
    let y = crate::text::chars_of(b);
    let mut i: usize = 0;
    assert(a@.skip(0) =~= a@);
    assert(b@.skip(0) =~= b@);
    while i < x.len() && i < y.len()
        invariant
            i <= x.len(),
            i <= y.len(),
            x@ == a@,
            y@ == b@,
            lex_lt(a@, b@) == lex_lt(a@.skip(i as int), b@.skip(i as int)),
        decreases x.len() - i,
    {
        let ghost sa = a@.skip(i as int);
        let ghost sb = b@.skip(i as int);
        proof {
            assert(sa.drop_first() =~= a@.skip(i + 1));
            assert(sb.drop_first() =~= b@.skip(i + 1));
            assert(sa[0] == x@[i as int]);
            assert(sb[0] == y@[i as int]);
        }
        if x[i] < y[i] {
            return true;
        }
        if x[i] != y[i] {
            return false;
        }
        i = i + 1;
    }
    proof {
        assert(a@.skip(i as int).len() == a@.len() - i);
        assert(b@.skip(i as int).len() == b@.len() - i);
    }
    i == x.len() && i < y.len()
}

/// Whether the names of the entries come in order, each before the next.
pub open spec fn sorted_by_name<T>(s: Seq<(Seq<char>, T)>) -> bool {
    forall|i: int, j: int| 0 <= i < j < s.len() ==> lex_lt(s[i].0, s[j].0)
}

/// Whether no two entries have the same name.
pub open spec fn names_distinct<T>(s: Seq<(Seq<char>, T)>) -> bool {
    forall|i: int, j: int| 0 <= i < j < s.len() ==> s[i].0 != s[j].0
}

/// The entries sorted by name, each once. Two entries never have the same name.
pub fn sort_by_name<T: DeepView>(v: Vec<(String, T)>) -> (r: Vec<(String, T)>)
    requires
        names_distinct(v.deep_view()),
    ensures
        sorted_by_name(r.deep_view()),
        r.len() == v.len(),
        forall|x: (Seq<char>, T::V)| #[trigger] r.deep_view().contains(x) <==> v.deep_view().contains(x),
{
    let ghost vd = v.deep_view();
    let mut r: Vec<(String, T)> = Vec::new();
    let mut rest = v;
    let mut taken: usize = 0;
    let ghost n = vd.len();
    assert(n == rest.len());
    assert(rest.deep_view() =~= vd.skip(0));
    while rest.len() > 0
        invariant
            n == vd.len(),
            n <= usize::MAX,
            taken + rest.len() == n,
            rest.deep_view() =~= vd.skip(taken as int),
            r.len() == taken,
            names_distinct(vd),
            sorted_by_name(r.deep_view()),
            forall|x: (Seq<char>, T::V)| #[trigger] r.deep_view().contains(x) <==> vd.take(taken as int).contains(x),
        decreases rest.len(),
    {
        let ghost rb = rest.deep_view();
        let item = rest.remove(0);
        let ghost xv = (item.0@, item.1.deep_view());
        proof {
            assert(rb[0] == xv);
            assert(vd.skip(taken as int)[0] == vd[taken as int]);
        }
        let mut p: usize = 0;
        while p < r.len() && text_less(r[p].0.as_str(), item.0.as_str())
            invariant
                p <= r.len(),
                xv.0 == item.0@,
                forall|j: int| 0 <= j < p ==> lex_lt(r.deep_view()[j].0, xv.0),
            decreases r.len() - p,
        {
            assert(r.deep_view()[p as int].0 == r@[p as int].0@);
            p = p + 1;
        }
        let ghost before = r.deep_view();
        proof {
            // The names taken so far differ from this one
            assert forall|j: int| 0 <= j < before.len() implies before[j].0 != xv.0 by {
                assert(before.contains(before[j]));
                assert(vd.take(taken as int).contains(before[j]));
                let k = choose|k: int| 0 <= k < taken && vd.take(taken as int)[k] == before[j];
                assert(vd[k] == before[j]);
            }
            if p < before.len() {
                assert(before[p as int].0 == r@[p as int].0@);
                assert(!lex_lt(before[p as int].0, xv.0));
                lemma_lex_total(before[p as int].0, xv.0);
                assert forall|j: int| p <= j < before.len() implies lex_lt(xv.0, before[j].0) by {
                    if j > p {
                        lemma_lex_trans(xv.0, before[p as int].0, before[j].0);
                    }
                }
            }
        }
        r.insert(p, item);
        proof {
            let now = r.deep_view();
            assert(now =~= before.insert(p as int, xv));
            assert forall|i: int, j: int| 0 <= i < j < now.len() implies lex_lt(now[i].0, now[j].0) by {
                if j < p {
                } else if j == p {
                } else if i < p {
                    lemma_lex_trans(now[i].0, xv.0, now[j].0);
                } else if i == p {
                } else {
                    assert(now[i] == before[i - 1] && now[j] == before[j - 1]);
                }
            }
            let t1 = vd.take(taken + 1);
            assert(t1 =~= vd.take(taken as int).push(xv));
            assert forall|x: (Seq<char>, T::V)| #[trigger] now.contains(x) <==> t1.contains(x) by {
                if now.contains(x) {
                    let k = choose|k: int| 0 <= k < now.len() && now[k] == x;
                    if k < p {
                        assert(before[k] == x);
                        assert(before.contains(x));
                        assert(vd.take(taken as int).contains(x));
                        let m = choose|m: int| 0 <= m < taken && vd.take(taken as int)[m] == x;
                        assert(t1[m] == x);
                    } else if k == p {
                        assert(t1[taken as int] == x);
                    } else {
                        assert(before[k - 1] == x);
                        assert(before.contains(x));
                        assert(vd.take(taken as int).contains(x));
                        let m = choose|m: int| 0 <= m < taken && vd.take(taken as int)[m] == x;
                        assert(t1[m] == x);
                    }
                }
                if t1.contains(x) {
                    let k = choose|k: int| 0 <= k < t1.len() && t1[k] == x;
                    if k == taken {
                        assert(now[p as int] == x);
                    } else {
                        assert(vd.take(taken as int)[k] == x);
                        assert(before.contains(x));
                        let m = choose|m: int| 0 <= m < before.len() && before[m] == x;
                        if m < p {
                            assert(now[m] == x);
                        } else {
                            assert(now[m + 1] == x);
                        }
                    }
                }
            }
            assert(rest.deep_view() =~= rb.drop_first());
            assert(rb.drop_first() =~= vd.skip(taken + 1));
        }
        taken = taken + 1;
    }
    assert(vd.take(n as int) =~= vd);
    r
}

} // verus!
