//! YAML values as the configuration files hold them, and the merge that lays the files a
//! configuration includes under it.
use crate::text::same_text;
use vstd::prelude::*;

verus! {

/// A YAML value.
#[derive(Debug, PartialEq)]
pub enum Yaml {
    Null,
    Bool(bool),
    /// A number, by its YAML text: `12`, `-3`, `1.5`, `.inf`, `.nan`
    Number(String),
    String(String),
    Sequence(Vec<Yaml>),
    /// The entries in order
    Mapping(Vec<(Yaml, Yaml)>),
    /// A tagged value: the tag, written with one `!` before it, and the value
    Tagged(String, Box<Yaml>),
}

/// What a [`Yaml`] value is.
pub enum YamlView {
    Null,
    Bool(bool),
    Number(Seq<char>),
    String(Seq<char>),
    Sequence(Seq<YamlView>),
    Mapping(Seq<(YamlView, YamlView)>),
    Tagged(Seq<char>, Box<YamlView>),
}

/// The view of a value.
pub open spec fn yaml_view(y: Yaml) -> YamlView
    decreases y,
{
    match y {
        Yaml::Null => YamlView::Null,
        Yaml::Bool(b) => YamlView::Bool(b),
        Yaml::Number(n) => YamlView::Number(n@),
        Yaml::String(s) => YamlView::String(s@),
        Yaml::Sequence(v) => YamlView::Sequence(items_view(v@)),
        Yaml::Mapping(m) => YamlView::Mapping(entries_view(m@)),
        Yaml::Tagged(t, b) => YamlView::Tagged(t@, Box::new(yaml_view(*b))),
    }
}

/// The views of the items of a sequence.
pub open spec fn items_view(s: Seq<Yaml>) -> Seq<YamlView>
    decreases s,
{
    if s.len() == 0 {
        Seq::empty()
    } else {
        items_view(s.subrange(0, s.len() - 1)).push(yaml_view(s[s.len() - 1]))
    }
}

/// The views of the entries of a mapping.
pub open spec fn entries_view(s: Seq<(Yaml, Yaml)>) -> Seq<(YamlView, YamlView)>
    decreases s,
{
    if s.len() == 0 {
        Seq::empty()
    } else {
        entries_view(s.subrange(0, s.len() - 1)).push(
            (yaml_view(s[s.len() - 1].0), yaml_view(s[s.len() - 1].1)),
        )
    }
}

impl View for Yaml {
    type V = YamlView;

    open spec fn view(&self) -> YamlView {
        yaml_view(*self)
    }
}

/// The view of a sequence has one item for each item, each the view of it.
pub proof fn lemma_items_view(s: Seq<Yaml>)
    ensures
        items_view(s).len() == s.len(),
        forall|i: int| 0 <= i < s.len() ==> #[trigger] items_view(s)[i] == yaml_view(s[i]),
    decreases s.len(),
{
    if s.len() > 0 {
        lemma_items_view(s.subrange(0, s.len() - 1));
    }
}

/// The view of a mapping has one entry for each entry, each the views of its key and value.
pub proof fn lemma_entries_view(s: Seq<(Yaml, Yaml)>)
    ensures
        entries_view(s).len() == s.len(),
        forall|i: int|
            0 <= i < s.len() ==> #[trigger] entries_view(s)[i] == (yaml_view(s[i].0), yaml_view(s[i].1)),
    decreases s.len(),
{
    if s.len() > 0 {
        lemma_entries_view(s.subrange(0, s.len() - 1));
    }
}

/// Whether a value is null, its tags set aside.
pub open spec fn is_null(v: YamlView) -> bool
    decreases v,
{
    match v {
        YamlView::Null => true,
        YamlView::Tagged(_, b) => is_null(*b),
        _ => false,
    }
}

/// The place of the first entry of `m` whose key is `k`.
pub open spec fn entry_index(m: Seq<(YamlView, YamlView)>, k: YamlView) -> Option<int> {
    if exists|i: int| 0 <= i < m.len() && m[i].0 == k {
        Some(choose|i: int| 0 <= i < m.len() && m[i].0 == k && forall|j: int| 0 <= j < i ==> m[j].0 != k)
    } else {
        None
    }
}

/// `b` laid over `a`: a null `b` changes nothing; two mappings merge key by key, the value of
/// a key both have merged in the same way and a key only `b` has added at the end; two
/// sequences are joined; else `b` takes the place of `a` when `a` is null or `overwrite` is set.
pub open spec fn merged(a: YamlView, b: YamlView, overwrite: bool) -> YamlView
    decreases b,
{
    if is_null(b) {
        a
    } else {
        match b {
            YamlView::Mapping(mb) => match a {
                YamlView::Mapping(ma) => YamlView::Mapping(merged_entries(ma, mb, overwrite)),
                _ => replaced(a, b, overwrite),
            },
            YamlView::Sequence(sb) => match a {
                YamlView::Sequence(sa) => YamlView::Sequence(sa + sb),
                _ => replaced(a, b, overwrite),
            },
            _ => replaced(a, b, overwrite),
        }
    }
}

/// `b` when `a` is null or `overwrite` is set, else `a`.
pub open spec fn replaced(a: YamlView, b: YamlView, overwrite: bool) -> YamlView {
    if is_null(a) || overwrite {
        b
    } else {
        a
    }
}

/// The entries of `mb` merged into those of `ma`, in order.
pub open spec fn merged_entries(
    ma: Seq<(YamlView, YamlView)>,
    mb: Seq<(YamlView, YamlView)>,
    overwrite: bool,
) -> Seq<(YamlView, YamlView)>
    decreases mb,
{
    if mb.len() == 0 {
        ma
    } else {
        let m = merged_entries(ma, mb.subrange(0, mb.len() - 1), overwrite);
        let e = mb[mb.len() - 1];
        match entry_index(m, e.0) {
            Some(i) => m.update(i, (m[i].0, merged(m[i].1, e.1, overwrite))),
            None => m.push(e),
        }
    }
}

impl Yaml {
    /// A copy of the value.
    pub fn copy(&self) -> (r: Yaml)
        ensures
            r@ == self@,
        decreases self,
    {
        match self {
            Yaml::Null => Yaml::Null,
            Yaml::Bool(b) => Yaml::Bool(*b),
            Yaml::Number(n) => Yaml::Number(n.clone()),
            Yaml::String(s) => Yaml::String(s.clone()),
            Yaml::Sequence(v) => {
                let mut out: Vec<Yaml> = Vec::new();
                let mut i: usize = 0;
                while i < v.len()
                    invariant
                        i <= v.len(),
                        *self == Yaml::Sequence(*v),
                        items_view(out@) == items_view(v@.subrange(0, i as int)),
                    decreases v.len() - i,
                {
                    proof {
                        assert(decreases_to!(*self => (*self)->Sequence_0));
                        assert(decreases_to!(*v => v@));
                        assert(decreases_to!(v@ => v@[i as int]));
                    }
                    let c = v[i].copy();
                    let ghost before = out@;
                    out.push(c);
                    proof {
                        assert(out@.subrange(0, out@.len() - 1) =~= before);
                        assert(v@.subrange(0, i + 1).subrange(0, i as int) =~= v@.subrange(0, i as int));
                    }
                    i = i + 1;
                }
                assert(v@.subrange(0, v.len() as int) =~= v@);
                Yaml::Sequence(out)
            },
            Yaml::Mapping(m) => {
                let mut out: Vec<(Yaml, Yaml)> = Vec::new();
                let mut i: usize = 0;
                while i < m.len()
                    invariant
                        i <= m.len(),
                        *self == Yaml::Mapping(*m),
                        entries_view(out@) == entries_view(m@.subrange(0, i as int)),
                    decreases m.len() - i,
                {
                    proof {
                        assert(decreases_to!(*self => (*self)->Mapping_0));
                        assert(decreases_to!(*m => m@));
                        assert(decreases_to!(m@ => m@[i as int]));
                        assert(decreases_to!(m@[i as int] => m@[i as int].0));
                        assert(decreases_to!(m@[i as int] => m@[i as int].1));
                    }
                    let k = m[i].0.copy();
                    let x = m[i].1.copy();
                    let ghost before = out@;
                    out.push((k, x));
                    proof {
                        assert(out@.subrange(0, out@.len() - 1) =~= before);
                        assert(m@.subrange(0, i + 1).subrange(0, i as int) =~= m@.subrange(0, i as int));
                    }
                    i = i + 1;
                }
                assert(m@.subrange(0, m.len() as int) =~= m@);
                Yaml::Mapping(out)
            },
            Yaml::Tagged(t, b) => Yaml::Tagged(t.clone(), Box::new(b.copy())),
        }
    }

    /// Whether the value is null, its tags set aside.
    pub fn is_null(&self) -> (r: bool)
        ensures
            r == is_null(self@),
        decreases self,
    {
        match self {
            Yaml::Null => true,
            Yaml::Tagged(_, b) => b.is_null(),
            _ => false,
        }
    }

    /// Whether two values are the same, item by item and entry by entry in order.
    pub fn same(&self, other: &Yaml) -> (r: bool)
        ensures
            r == (self@ == other@),
        decreases self,
    {
        match (self, other) {
            (Yaml::Null, Yaml::Null) => true,
            (Yaml::Bool(a), Yaml::Bool(b)) => *a == *b,
            (Yaml::Number(a), Yaml::Number(b)) => same_text(a.as_str(), b.as_str()),
            (Yaml::String(a), Yaml::String(b)) => same_text(a.as_str(), b.as_str()),
            (Yaml::Sequence(a), Yaml::Sequence(b)) => {
                proof {
                    lemma_items_view(a@);
                    lemma_items_view(b@);
                }
                if a.len() != b.len() {
                    return false;
                }
                let mut i: usize = 0;
                while i < a.len()
                    invariant
                        i <= a.len(),
                        a.len() == b.len(),
                        *self == Yaml::Sequence(*a),
                        *other == Yaml::Sequence(*b),
                        items_view(a@).len() == a.len(),
                        items_view(b@).len() == b.len(),
                        forall|j: int| 0 <= j < a.len() ==> #[trigger] items_view(a@)[j] == yaml_view(a@[j]),
                        forall|j: int| 0 <= j < b.len() ==> #[trigger] items_view(b@)[j] == yaml_view(b@[j]),
                        forall|j: int| 0 <= j < i ==> items_view(a@)[j] == items_view(b@)[j],
                    decreases a.len() - i,
                {
                    proof {
                        assert(decreases_to!(*self => (*self)->Sequence_0));
                        assert(decreases_to!(*a => a@));
                        assert(decreases_to!(a@ => a@[i as int]));
                    }
                    if !a[i].same(&b[i]) {
                        assert(items_view(a@)[i as int] != items_view(b@)[i as int]);
                        return false;
                    }
                    i = i + 1;
                }
                assert(items_view(a@) =~= items_view(b@));
                true
            },
            (Yaml::Mapping(a), Yaml::Mapping(b)) => {
                proof {
                    lemma_entries_view(a@);
                    lemma_entries_view(b@);
                }
                if a.len() != b.len() {
                    return false;
                }
                let mut i: usize = 0;
                while i < a.len()
                    invariant
                        i <= a.len(),
                        a.len() == b.len(),
                        *self == Yaml::Mapping(*a),
                        *other == Yaml::Mapping(*b),
                        entries_view(a@).len() == a.len(),
                        entries_view(b@).len() == b.len(),
                        forall|j: int|
                            0 <= j < a.len() ==> #[trigger] entries_view(a@)[j] == (
                                yaml_view(a@[j].0),
                                yaml_view(a@[j].1),
                            ),
                        forall|j: int|
                            0 <= j < b.len() ==> #[trigger] entries_view(b@)[j] == (
                                yaml_view(b@[j].0),
                                yaml_view(b@[j].1),
                            ),
                        forall|j: int| 0 <= j < i ==> entries_view(a@)[j] == entries_view(b@)[j],
                    decreases a.len() - i,
                {
                    proof {
                        assert(decreases_to!(*self => (*self)->Mapping_0));
                        assert(decreases_to!(*a => a@));
                        assert(decreases_to!(a@ => a@[i as int]));
                        assert(decreases_to!(a@[i as int] => a@[i as int].0));
                        assert(decreases_to!(a@[i as int] => a@[i as int].1));
                    }
                    if !a[i].0.same(&b[i].0) || !a[i].1.same(&b[i].1) {
                        assert(entries_view(a@)[i as int] != entries_view(b@)[i as int]);
                        return false;
                    }
                    i = i + 1;
                }
                assert(entries_view(a@) =~= entries_view(b@));
                true
            },
            (Yaml::Tagged(ta, a), Yaml::Tagged(tb, b)) => same_text(ta.as_str(), tb.as_str()) && a.same(b),
            _ => false,
        }
    }
}

/// The place of the first entry of `m` whose key is `k`; see [`entry_index`].
fn find_entry(m: &Vec<(Yaml, Yaml)>, k: &Yaml) -> (r: Option<usize>)
    ensures
        entry_index(entries_view(m@), k@) == match r {
            Some(i) => Some(i as int),
            None => None,
        },
        r matches Some(i) ==> i < m.len(),
{
    proof {
        lemma_entries_view(m@);
    }
    let ghost mv = entries_view(m@);
    let mut i: usize = 0;
    while i < m.len()
        invariant
            i <= m.len(),
            mv == entries_view(m@),
            mv.len() == m.len(),
            forall|j: int| 0 <= j < m.len() ==> #[trigger] mv[j] == (yaml_view(m@[j].0), yaml_view(m@[j].1)),
            forall|j: int| 0 <= j < i ==> mv[j].0 != k@,
        decreases m.len() - i,
    {
        if m[i].0.same(k) {
            assert(mv[i as int].0 == k@);
            let ghost c = choose|c: int| 0 <= c < mv.len() && mv[c].0 == k@ && forall|j: int| 0 <= j < c ==> mv[j].0 != k@;
            assert(0 <= i < mv.len() && mv[i as int].0 == k@ && forall|j: int| 0 <= j < i ==> mv[j].0 != k@);
            assert(c == i) by {
                if c < i {
                    assert(mv[c].0 != k@);
                } else if c > i {
                    assert(mv[i as int].0 != k@);
                }
            }
            return Some(i);
        }
        i = i + 1;
    }
    None
}

/// Lays `b` over `a`; see [`merged`]. An included file is laid under the file that includes
/// it by merging the included file into an empty value first, then the including file over it.
pub fn merge_yaml(a: &mut Yaml, b: &Yaml, overwrite: bool)
    ensures
        final(a)@ == merged(old(a)@, b@, overwrite),
    decreases b,
{
    if b.is_null() {
        return;
    }
    let mut current = Yaml::Null;
    std::mem::swap(a, &mut current);
    let ghost av = current@;
    match b {
        Yaml::Mapping(mb) => {
            match current {
                Yaml::Mapping(mut ma) => {
                    proof {
                        lemma_entries_view(mb@);
                    }
                    let ghost mav = entries_view(ma@);
                    let mut j: usize = 0;
                    while j < mb.len()
                        invariant
                            j <= mb.len(),
                            *b == Yaml::Mapping(*mb),
                            entries_view(ma@) == merged_entries(mav, entries_view(mb@.subrange(0, j as int)), overwrite),
                        decreases mb.len() - j,
                    {
                        let ghost before = entries_view(ma@);
                        let ghost sub = mb@.subrange(0, j + 1);
                        proof {
                            assert(sub.subrange(0, sub.len() - 1) =~= mb@.subrange(0, j as int));
                            lemma_entries_view(sub);
                            assert(entries_view(sub).subrange(0, j as int) =~= entries_view(
                                mb@.subrange(0, j as int),
                            )) by {
                                lemma_entries_view(mb@.subrange(0, j as int));
                            }
                            assert(entries_view(sub)[j as int] == (yaml_view(mb@[j as int].0), yaml_view(
                                mb@[j as int].1,
                            )));
                        }
                        match find_entry(&ma, &mb[j].0) {
                            Some(i) => {
                                proof {
                                    lemma_entries_view(ma@);
                                    assert(decreases_to!(*b => (*b)->Mapping_0));
                                    assert(decreases_to!(*mb => mb@));
                                    assert(decreases_to!(mb@ => mb@[j as int]));
                                    assert(decreases_to!(mb@[j as int] => mb@[j as int].1));
                                }
                                let (k, mut v) = ma.remove(i);
                                merge_yaml(&mut v, &mb[j].1, overwrite);
                                ma.insert(i, (k, v));
                                proof {
                                    lemma_entries_view(ma@);
                                    assert(entries_view(ma@) =~= before.update(
                                        i as int,
                                        (before[i as int].0, merged(before[i as int].1, yaml_view(mb@[j as int].1), overwrite)),
                                    ));
                                }
                            },
                            None => {
                                let ghost prev = ma@;
                                let k = mb[j].0.copy();
                                let v = mb[j].1.copy();
                                ma.push((k, v));
                                proof {
                                    assert(ma@.subrange(0, ma@.len() - 1) =~= prev);
                                }
                            },
                        }
                        j = j + 1;
                    }
                    assert(mb@.subrange(0, mb.len() as int) =~= mb@);
                    *a = Yaml::Mapping(ma);
                },
                other => {
                    replace_with(a, other, b, overwrite);
                },
            }
        },
        Yaml::Sequence(sb) => {
            match current {
                Yaml::Sequence(mut sa) => {
                    proof {
                        lemma_items_view(sa@);
                        lemma_items_view(sb@);
                    }
                    let ghost sav = items_view(sa@);
                    let mut j: usize = 0;
                    while j < sb.len()
                        invariant
                            j <= sb.len(),
                            items_view(sb@).len() == sb.len(),
                            forall|x: int| 0 <= x < sb.len() ==> #[trigger] items_view(sb@)[x] == yaml_view(sb@[x]),
                            items_view(sa@) == sav + items_view(sb@).subrange(0, j as int),
                        decreases sb.len() - j,
                    {
                        let ghost before = sa@;
                        let c = sb[j].copy();
                        sa.push(c);
                        proof {
                            assert(sa@.subrange(0, sa@.len() - 1) =~= before);
                            assert(items_view(sa@) =~= sav + items_view(sb@).subrange(0, j + 1));
                        }
                        j = j + 1;
                    }
                    assert(items_view(sb@).subrange(0, sb.len() as int) =~= items_view(sb@));
                    *a = Yaml::Sequence(sa);
                },
                other => {
                    replace_with(a, other, b, overwrite);
                },
            }
        },
        _ => {
            replace_with(a, current, b, overwrite);
        },
    }
}

/// Sets `a` to `b` when `current` is null or `overwrite` is set, else to `current`.
fn replace_with(a: &mut Yaml, current: Yaml, b: &Yaml, overwrite: bool)
    ensures
        final(a)@ == replaced(current@, b@, overwrite),
{
    if current.is_null() || overwrite {
        *a = b.copy();
    } else {
        *a = current;
    }
}

/// Merging a value into an empty one gives that value, unless it is null: the first file
/// merged into the empty start is taken as it is.
pub proof fn law_merge_into_null(b: YamlView, overwrite: bool)
    ensures
        merged(YamlView::Null, b, overwrite) == (if is_null(b) {
            YamlView::Null
        } else {
            b
        }),
{
}

/// With `overwrite`, a value that is neither null, a mapping nor a sequence takes the place of
/// whatever it is merged into: the including file's setting wins over the included one's.
pub proof fn law_later_scalar_wins(a: YamlView, b: YamlView)
    requires
        !is_null(b),
        !(b is Mapping),
        !(b is Sequence),
    ensures
        merged(a, b, true) == b,
{
}

} // verus!
