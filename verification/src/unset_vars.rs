//! The variables a run still needs: those declared without a value by the tasks the run
//! involves and by their projects.
use crate::ordered::{append_copies, find_key, has_key, lemma_first_key_exists, map_get, map_lookup, Duplicate};
use crate::project::{spec_qualified_name, Task};
use crate::project_config::{
    full_name_of, spec_is_unset, DependsOnConfigView, ProjectConfig, ProjectConfigView, TaskConfig, TaskConfigView,
    TasksView, VarsConfig, VarsMapView,
};
use crate::sorted::{names_distinct, sort_by_name, sorted_by_name};
use crate::workspace::{holds, lemma_concat_contains, lemma_distinct_bound, lemma_push_contains, project_list, ChildrenView};
use vstd::prelude::*;

verus! {

/// The tasks of the projects by full name, the root project's first.
pub open spec fn full_entries(ps: Seq<ProjectConfigView>) -> TasksView
    decreases ps.len(),
{
    if ps.len() == 0 {
        Seq::empty()
    } else {
        full_entries(ps.drop_last()) + ps.last().tasks.map_values(
            |e: (Seq<char>, TaskConfigView)| (full_name_of(e.1.project, e.1.name), e.1),
        )
    }
}

/// Whether `i` is the place of the last entry named `k`.
pub open spec fn last_key(m: TasksView, k: Seq<char>, i: int) -> bool {
    &&& 0 <= i < m.len()
    &&& m[i].0 == k
    &&& forall|j: int| i < j < m.len() ==> m[j].0 != k
}

/// The task of the full name `k`: the last one of that name.
pub open spec fn find_last(m: TasksView, k: Seq<char>) -> Option<TaskConfigView> {
    if has_key(m, k) {
        Some(m[choose|i: int| last_key(m, k, i)].1)
    } else {
        None
    }
}

/// The dependencies of a task of the project `project` that name a task, by full name.
pub open spec fn qualified_deps(ds: Seq<DependsOnConfigView>, project: Seq<char>) -> Seq<Seq<char>>
    decreases ds.len(),
{
    if ds.len() == 0 {
        Seq::empty()
    } else if ds.last().task().len() == 0 {
        qualified_deps(ds.drop_last(), project)
    } else {
        qualified_deps(ds.drop_last(), project).push(spec_qualified_name(project, ds.last().task()))
    }
}

/// The names a task sends the walk on to: its dependencies.
pub open spec fn deps_of(m: TasksView, u: Seq<char>) -> Seq<Seq<char>> {
    match find_last(m, u) {
        Some(t) => qualified_deps(t.depends_on, t.project),
        None => Seq::empty(),
    }
}

/// Whether the walk from the names `starts` along the dependencies comes to the name `x`.
pub open spec fn dep_reaches(m: TasksView, starts: Seq<Seq<char>>, x: Seq<char>) -> bool {
    exists|p: Seq<Seq<char>>|
        #![trigger p[0], p[p.len() - 1]]
        p.len() >= 1 && starts.contains(p[0]) && p[p.len() - 1] == x && forall|i: int|
            0 <= i < p.len() - 1 ==> #[trigger] deps_of(m, p[i]).contains(p[i + 1])
}

/// The names of the variables declared without a value, in order.
pub open spec fn unset_keys(vars: VarsMapView) -> Seq<Seq<char>>
    decreases vars.len(),
{
    if vars.len() == 0 {
        Seq::empty()
    } else if spec_is_unset(vars.last().1) {
        unset_keys(vars.drop_last()).push(vars.last().0)
    } else {
        unset_keys(vars.drop_last())
    }
}

/// The variables of the task `n` declared without a value, each with whether the command line
/// can give it one, which it can for a target; `None` when the task has none.
pub open spec fn task_unset(m: TasksView, targets: Seq<Seq<char>>, n: Seq<char>) -> Option<Seq<(Seq<char>, bool)>> {
    match find_last(m, n) {
        Some(t) => if unset_keys(t.vars).len() > 0 {
            Some(unset_keys(t.vars).map_values(|k: Seq<char>| (k, targets.contains(n))))
        } else {
            None
        },
        None => None,
    }
}

/// The configuration of the project named `p`: the root project for the empty name.
pub open spec fn project_named(root: ProjectConfigView, children: ChildrenView, p: Seq<char>) -> Option<ProjectConfigView> {
    if p.len() == 0 {
        Some(root)
    } else {
        map_get(children, p)
    }
}

/// The variables of a project declared without a value that the command line does not give.
pub open spec fn project_unset_keys(vars: VarsMapView, cli: VarsMapView) -> Seq<Seq<char>>
    decreases vars.len(),
{
    if vars.len() == 0 {
        Seq::empty()
    } else if spec_is_unset(vars.last().1) && !has_key(cli, vars.last().0) {
        project_unset_keys(vars.drop_last(), cli).push(vars.last().0)
    } else {
        project_unset_keys(vars.drop_last(), cli)
    }
}

/// Whether the run involves a task of the project `p`.
pub open spec fn involves(m: TasksView, starts: Seq<Seq<char>>, p: Seq<char>) -> bool {
    exists|n: Seq<char>| #[trigger] dep_reaches(m, starts, n) && find_last(m, n) is Some && find_last(m, n)->0.project == p
}

proof fn lemma_last_key_exists(m: TasksView, k: Seq<char>)
    requires
        has_key(m, k),
    ensures
        last_key(m, k, choose|i: int| last_key(m, k, i)),
    decreases m.len(),
{
    let w = choose|i: int| 0 <= i < m.len() && m[i].0 == k;
    if m.last().0 == k {
        assert(last_key(m, k, m.len() - 1));
    } else {
        let d = m.drop_last();
        assert(d[w] == m[w]);
        assert(has_key(d, k));
        lemma_last_key_exists(d, k);
        let i = choose|i: int| last_key(d, k, i);
        assert forall|j: int| i < j < m.len() implies m[j].0 != k by {
            if j < m.len() - 1 {
                assert(m[j] == d[j]);
            }
        }
        assert(last_key(m, k, i));
    }
}

proof fn lemma_last_key_unique(m: TasksView, k: Seq<char>, i: int)
    requires
        last_key(m, k, i),
    ensures
        has_key(m, k),
        (choose|j: int| last_key(m, k, j)) == i,
{
    let j = choose|j: int| last_key(m, k, j);
    assert(last_key(m, k, j));
    if j < i {
        assert(m[i].0 != k);
    } else if i < j {
        assert(m[j].0 != k);
    }
}

fn push_entries<'a>(r: &mut Vec<(String, &'a TaskConfig)>, p: &'a ProjectConfig)
    ensures
        final(r).deep_view() == old(r).deep_view() + p.tasks.deep_view().map_values(
            |e: (Seq<char>, TaskConfigView)| (full_name_of(e.1.project, e.1.name), e.1),
        ),
{
    let ghost start = r.deep_view();
    let mut j: usize = 0;
    while j < p.tasks.len()
        invariant
            j <= p.tasks.len(),
            r.deep_view() =~= start + p.tasks.deep_view().take(j as int).map_values(
                |e: (Seq<char>, TaskConfigView)| (full_name_of(e.1.project, e.1.name), e.1),
            ),
        decreases p.tasks.len() - j,
    {
        let t = &p.tasks[j].1;
        let ghost before = r.deep_view();
        r.push((t.full_name(), t));
        proof {
            assert(r.deep_view() =~= before.push((full_name_of(t.project@, t.name@), t.deep_view())));
            assert(p.tasks.deep_view().take(j + 1) =~= p.tasks.deep_view().take(j as int).push(
                p.tasks.deep_view()[j as int],
            ));
        }
        j = j + 1;
    }
    assert(p.tasks.deep_view().take(p.tasks.len() as int) =~= p.tasks.deep_view());
}

/// The full names and configurations of the tasks of the projects; see [`full_entries`].
fn all_entries<'a>(root: &'a ProjectConfig, children: &'a Vec<(String, ProjectConfig)>) -> (r: Vec<(String, &'a TaskConfig)>)
    ensures
        r.deep_view() == full_entries(project_list(root.deep_view(), children.deep_view())),
{
    let ghost ps = project_list(root.deep_view(), children.deep_view());
    let mut r: Vec<(String, &'a TaskConfig)> = Vec::new();
    push_entries(&mut r, root);
    proof {
        let one = ps.take(1);
        assert(one.drop_last() =~= Seq::<ProjectConfigView>::empty());
        assert(one.last() == root.deep_view());
        assert(full_entries(Seq::<ProjectConfigView>::empty()) =~= Seq::<(Seq<char>, TaskConfigView)>::empty());
        assert(r.deep_view() =~= full_entries(one));
    }
    let mut i: usize = 0;
    while i < children.len()
        invariant
            i <= children.len(),
            ps == project_list(root.deep_view(), children.deep_view()),
            r.deep_view() == full_entries(ps.take(i + 1)),
        decreases children.len() - i,
    {
        push_entries(&mut r, &children[i].1);
        proof {
            let next = ps.take(i + 2);
            assert(next.drop_last() =~= ps.take(i + 1));
            assert(next.last() == children.deep_view()[i as int].1);
        }
        i = i + 1;
    }
    assert(ps.take(children.len() + 1) =~= ps);
    r
}

/// The configuration of the task of the full name `k`; see [`find_last`].
fn lookup_last<'a>(m: &Vec<(String, &'a TaskConfig)>, k: &String) -> (r: Option<&'a TaskConfig>)
    ensures
        r matches Some(t) ==> find_last(m.deep_view(), k@) == Some(t.deep_view()),
        r is None ==> find_last(m.deep_view(), k@) is None,
{
    let mut i: usize = m.len();
    while i > 0
        invariant
            i <= m.len(),
            forall|j: int| i <= j < m.len() ==> m.deep_view()[j].0 != k@,
        decreases i,
    {
        if crate::text::same_text(m[i - 1].0.as_str(), k.as_str()) {
            proof {
                assert(m.deep_view()[i - 1].0 == k@);
                assert(last_key(m.deep_view(), k@, i - 1));
                lemma_last_key_unique(m.deep_view(), k@, i - 1);
            }
            return Some(m[i - 1].1);
        }
        i = i - 1;
    }
    None
}

/// The dependencies of a task that name a task, by full name; see [`qualified_deps`].
fn dep_names(t: &TaskConfig) -> (r: Vec<String>)
    ensures
        r.deep_view() == qualified_deps(t.deep_view().depends_on, t.project@),
{
    let ghost ds = t.deep_view().depends_on;
    let mut r: Vec<String> = Vec::new();
    let mut i: usize = 0;
    while i < t.depends_on.len()
        invariant
            i <= t.depends_on.len(),
            ds == t.deep_view().depends_on,
            r.deep_view() == qualified_deps(ds.take(i as int), t.project@),
        decreases t.depends_on.len() - i,
    {
        let d = t.depends_on[i].task();
        proof {
            let next = ds.take(i + 1);
            assert(next.drop_last() =~= ds.take(i as int));
            assert(next.last() == ds[i as int]);
            assert(ds[i as int] == t.depends_on@[i as int].deep_view());
        }
        if d.unicode_len() > 0 {
            let q = Task::qualified_name(t.project.as_str(), d);
            let ghost before = r.deep_view();
            r.push(q);
            assert(r.deep_view() =~= before.push(q@));
        }
        i = i + 1;
    }
    assert(ds.take(ds.len() as int) =~= ds);
    r
}

/// The dependencies of all the tasks, one task after the other.
pub open spec fn all_deps(m: TasksView) -> Seq<Seq<char>>
    decreases m.len(),
{
    if m.len() == 0 {
        Seq::empty()
    } else {
        all_deps(m.drop_last()) + qualified_deps(m.last().1.depends_on, m.last().1.project)
    }
}

proof fn lemma_in_all_deps(m: TasksView, i: int, n: Seq<char>)
    requires
        0 <= i < m.len(),
        qualified_deps(m[i].1.depends_on, m[i].1.project).contains(n),
    ensures
        all_deps(m).contains(n),
    decreases m.len(),
{
    let a = all_deps(m.drop_last());
    let b = qualified_deps(m.last().1.depends_on, m.last().1.project);
    if i == m.len() - 1 {
        let j = choose|j: int| 0 <= j < b.len() && b[j] == n;
        assert((a + b)[a.len() + j] == n);
    } else {
        assert(m.drop_last()[i] == m[i]);
        lemma_in_all_deps(m.drop_last(), i, n);
        let j = choose|j: int| 0 <= j < a.len() && a[j] == n;
        assert((a + b)[j] == n);
    }
}

proof fn lemma_dep_mentioned(m: TasksView, starts: Seq<Seq<char>>, u: Seq<char>, n: Seq<char>)
    requires
        deps_of(m, u).contains(n),
    ensures
        (starts + all_deps(m)).contains(n),
{
    lemma_last_key_exists(m, u);
    let i = choose|i: int| last_key(m, u, i);
    lemma_in_all_deps(m, i, n);
    lemma_concat_contains(starts, all_deps(m));
}

proof fn lemma_dep_start(m: TasksView, starts: Seq<Seq<char>>, x: Seq<char>)
    requires
        starts.contains(x),
    ensures
        dep_reaches(m, starts, x),
{
    let p = seq![x];
    assert(p[0] == x && p[p.len() - 1] == x);
}

proof fn lemma_dep_step(m: TasksView, starts: Seq<Seq<char>>, u: Seq<char>, v: Seq<char>)
    requires
        dep_reaches(m, starts, u),
        deps_of(m, u).contains(v),
    ensures
        dep_reaches(m, starts, v),
{
    let p = choose|p: Seq<Seq<char>>|
        #![trigger p[0], p[p.len() - 1]]
        p.len() >= 1 && starts.contains(p[0]) && p[p.len() - 1] == u && forall|i: int|
            0 <= i < p.len() - 1 ==> #[trigger] deps_of(m, p[i]).contains(p[i + 1]);
    let q = p.push(v);
    assert forall|i: int| 0 <= i < q.len() - 1 implies #[trigger] deps_of(m, q[i]).contains(q[i + 1]) by {
        if i < p.len() - 1 {
            assert(q[i] == p[i] && q[i + 1] == p[i + 1]);
        } else {
            assert(q[i] == u && q[i + 1] == v);
        }
    }
    assert(q[0] == p[0] && q[q.len() - 1] == v);
}

proof fn lemma_dep_path(m: TasksView, seen: Seq<Seq<char>>, p: Seq<Seq<char>>, k: int)
    requires
        0 <= k < p.len(),
        seen.contains(p[0]),
        forall|i: int| 0 <= i < p.len() - 1 ==> #[trigger] deps_of(m, p[i]).contains(p[i + 1]),
        forall|u: Seq<char>, v: Seq<char>| seen.contains(u) && #[trigger] deps_of(m, u).contains(v) ==> seen.contains(v),
    ensures
        seen.contains(p[k]),
    decreases k,
{
    if k > 0 {
        lemma_dep_path(m, seen, p, k - 1);
        let i = k - 1;
        assert(deps_of(m, p[i]).contains(p[i + 1]));
    }
}

proof fn lemma_dep_closed(m: TasksView, starts: Seq<Seq<char>>, seen: Seq<Seq<char>>, x: Seq<char>)
    requires
        forall|t: Seq<char>| starts.contains(t) ==> seen.contains(t),
        forall|u: Seq<char>, v: Seq<char>| seen.contains(u) && #[trigger] deps_of(m, u).contains(v) ==> seen.contains(v),
        dep_reaches(m, starts, x),
    ensures
        seen.contains(x),
{
    let p = choose|p: Seq<Seq<char>>|
        #![trigger p[0], p[p.len() - 1]]
        p.len() >= 1 && starts.contains(p[0]) && p[p.len() - 1] == x && forall|i: int|
            0 <= i < p.len() - 1 ==> #[trigger] deps_of(m, p[i]).contains(p[i + 1]);
    lemma_dep_path(m, seen, p, p.len() - 1);
}

/// What holds at each turn of the walk from `starts` along the dependencies.
pub open spec fn dep_walk_inv(m: TasksView, starts: Seq<Seq<char>>, vd: Seq<Seq<char>>, qd: Seq<Seq<char>>) -> bool {
    let bound = starts + all_deps(m);
    &&& vd.no_duplicates()
    &&& forall|v: Seq<char>| #![trigger vd.contains(v)] vd.contains(v) ==> dep_reaches(m, starts, v) && bound.contains(v)
    &&& forall|q: Seq<char>| #![trigger qd.contains(q)] qd.contains(q) ==> dep_reaches(m, starts, q) && bound.contains(q)
    &&& forall|t: Seq<char>| starts.contains(t) ==> vd.contains(t) || qd.contains(t)
    &&& forall|u: Seq<char>, v: Seq<char>|
        vd.contains(u) && #[trigger] deps_of(m, u).contains(v) ==> vd.contains(v) || qd.contains(v)
}

fn dep_walk_turn(m: &Vec<(String, &TaskConfig)>, starts: &Vec<String>, visited: &mut Vec<String>, queue: &mut Vec<String>)
    requires
        old(queue).len() > 0,
        dep_walk_inv(m.deep_view(), starts.deep_view(), old(visited).deep_view(), old(queue).deep_view()),
    ensures
        dep_walk_inv(m.deep_view(), starts.deep_view(), final(visited).deep_view(), final(queue).deep_view()),
        final(visited).len() == old(visited).len() + 1 || (final(visited).len() == old(visited).len()
            && final(queue).len() < old(queue).len()),
        final(visited).len() <= (starts.deep_view() + all_deps(m.deep_view())).len(),
{
    let ghost md = m.deep_view();
    let ghost sd = starts.deep_view();
    let ghost bound = sd + all_deps(md);
    let ghost q_before = queue.deep_view();
    let name = queue.pop().unwrap();
    proof {
        assert(q_before =~= queue.deep_view().push(name@));
        lemma_push_contains(queue.deep_view(), name@);
        lemma_distinct_bound(visited.deep_view(), bound);
    }
    if holds(visited, &name) {
        proof {
            let vd = visited.deep_view();
            let qd = queue.deep_view();
            assert forall|q: Seq<char>| #[trigger] qd.contains(q) implies dep_reaches(md, sd, q) && bound.contains(q) by {
                assert(q_before.contains(q));
            }
            assert forall|t: Seq<char>| sd.contains(t) implies vd.contains(t) || qd.contains(t) by {
                assert(vd.contains(t) || q_before.contains(t));
            }
            assert forall|u: Seq<char>, v: Seq<char>| vd.contains(u) && #[trigger] deps_of(md, u).contains(v) implies vd.contains(v) || qd.contains(v) by {
                assert(vd.contains(v) || q_before.contains(v));
            }
        }
        return;
    }
    let ghost vis_before = visited.deep_view();
    proof {
        assert(q_before.contains(name@));
        lemma_push_contains(vis_before, name@);
        assert(vis_before.push(name@).no_duplicates()) by {
            assert forall|i: int, j: int| 0 <= i < j < vis_before.push(name@).len() implies vis_before.push(name@)[i]
                != vis_before.push(name@)[j] by {
                if j == vis_before.len() {
                    assert(vis_before[i] != name@);
                }
            }
        }
        lemma_distinct_bound(vis_before.push(name@), bound);
    }
    visited.push(name.clone());
    let ghost q_popped = queue.deep_view();
    let deps: Vec<String> = match lookup_last(m, &name) {
        Some(t) => dep_names(t),
        None => Vec::new(),
    };
    assert(deps.deep_view() =~= deps_of(md, name@));
    append_copies(queue, &deps);
    proof {
        let vd = visited.deep_view();
        let qd = queue.deep_view();
        let nn = deps.deep_view();
        assert(vd =~= vis_before.push(name@));
        assert(qd =~= q_popped + nn);
        lemma_concat_contains(q_popped, nn);
        assert forall|x: Seq<char>| #[trigger] nn.contains(x) implies dep_reaches(md, sd, x) && bound.contains(x) by {
            lemma_dep_step(md, sd, name@, x);
            lemma_dep_mentioned(md, sd, name@, x);
        }
        assert forall|v: Seq<char>| #[trigger] vd.contains(v) implies dep_reaches(md, sd, v) && bound.contains(v) by {
            if v != name@ {
                assert(vis_before.contains(v));
            }
        }
        assert forall|q: Seq<char>| #[trigger] qd.contains(q) implies dep_reaches(md, sd, q) && bound.contains(q) by {
            if q_popped.contains(q) {
                assert(q_before.contains(q));
            } else {
                assert(nn.contains(q));
            }
        }
        assert forall|t: Seq<char>| sd.contains(t) implies vd.contains(t) || qd.contains(t) by {
            assert(vis_before.contains(t) || q_before.contains(t));
            if q_before.contains(t) && t != name@ {
                assert(q_popped.contains(t));
            }
        }
        assert forall|u: Seq<char>, v: Seq<char>| vd.contains(u) && #[trigger] deps_of(md, u).contains(v) implies vd.contains(v) || qd.contains(v) by {
            if u == name@ {
                assert(nn.contains(v));
            } else {
                assert(vis_before.contains(u));
                assert(vis_before.contains(v) || q_before.contains(v));
                if q_before.contains(v) && v != name@ {
                    assert(q_popped.contains(v));
                }
            }
        }
        assert(vd.no_duplicates());
    }
}

/// The names the walk from `starts` along the dependencies comes to, each once.
fn reached_names(m: &Vec<(String, &TaskConfig)>, starts: &Vec<String>) -> (r: Vec<String>)
    ensures
        r.deep_view().no_duplicates(),
        forall|x: Seq<char>| #[trigger] r.deep_view().contains(x) <==> dep_reaches(m.deep_view(), starts.deep_view(), x),
{
    let ghost md = m.deep_view();
    let ghost sd = starts.deep_view();
    let ghost bound = sd + all_deps(md);
    let mut visited: Vec<String> = Vec::new();
    let mut queue: Vec<String> = starts.duplicate();
    proof {
        assert(queue.deep_view() == sd);
        lemma_concat_contains(sd, all_deps(md));
        assert forall|q: Seq<char>| #[trigger] queue.deep_view().contains(q) implies dep_reaches(md, sd, q) && bound.contains(q) by {
            lemma_dep_start(md, sd, q);
        }
    }
    while queue.len() > 0
        invariant
            md == m.deep_view(),
            sd == starts.deep_view(),
            bound == sd + all_deps(md),
            visited.len() <= bound.len(),
            dep_walk_inv(md, sd, visited.deep_view(), queue.deep_view()),
        decreases bound.len() - visited.len(), queue.len(),
    {
        dep_walk_turn(m, starts, &mut visited, &mut queue);
    }
    proof {
        let vd = visited.deep_view();
        assert forall|x: Seq<char>| #[trigger] vd.contains(x) <==> dep_reaches(md, sd, x) by {
            if dep_reaches(md, sd, x) {
                lemma_dep_closed(md, sd, vd, x);
            }
        }
    }
    visited
}

fn unset_var_names(vars: &Vec<(String, VarsConfig)>) -> (r: Vec<String>)
    ensures
        r.deep_view() == unset_keys(vars.deep_view()),
{
    let ghost vd = vars.deep_view();
    let mut r: Vec<String> = Vec::new();
    let mut i: usize = 0;
    while i < vars.len()
        invariant
            i <= vars.len(),
            vd == vars.deep_view(),
            r.deep_view() == unset_keys(vd.take(i as int)),
        decreases vars.len() - i,
    {
        proof {
            let next = vd.take(i + 1);
            assert(next.drop_last() =~= vd.take(i as int));
            assert(next.last() == vd[i as int]);
        }
        if vars[i].1.is_unset() {
            let ghost before = r.deep_view();
            r.push(vars[i].0.clone());
            assert(r.deep_view() =~= before.push(vd[i as int].0));
        }
        i = i + 1;
    }
    assert(vd.take(vd.len() as int) =~= vd);
    r
}

fn project_unset_names(vars: &Vec<(String, VarsConfig)>, cli: &Vec<(String, VarsConfig)>) -> (r: Vec<String>)
    ensures
        r.deep_view() == project_unset_keys(vars.deep_view(), cli.deep_view()),
{
    let ghost vd = vars.deep_view();
    let mut r: Vec<String> = Vec::new();
    let mut i: usize = 0;
    while i < vars.len()
        invariant
            i <= vars.len(),
            vd == vars.deep_view(),
            r.deep_view() == project_unset_keys(vd.take(i as int), cli.deep_view()),
        decreases vars.len() - i,
    {
        proof {
            let next = vd.take(i + 1);
            assert(next.drop_last() =~= vd.take(i as int));
            assert(next.last() == vd[i as int]);
        }
        if vars[i].1.is_unset() && find_key(cli, vars[i].0.as_str()).is_none() {
            let ghost before = r.deep_view();
            r.push(vars[i].0.clone());
            assert(r.deep_view() =~= before.push(vd[i as int].0));
        }
        i = i + 1;
    }
    assert(vd.take(vd.len() as int) =~= vd);
    r
}

fn with_flag(keys: &Vec<String>, flag: bool) -> (r: Vec<(String, bool)>)
    ensures
        r.deep_view() == keys.deep_view().map_values(|k: Seq<char>| (k, flag)),
{
    let mut r: Vec<(String, bool)> = Vec::new();
    let mut i: usize = 0;
    while i < keys.len()
        invariant
            i <= keys.len(),
            r.deep_view() =~= keys.deep_view().take(i as int).map_values(|k: Seq<char>| (k, flag)),
        decreases keys.len() - i,
    {
        let ghost before = r.deep_view();
        r.push((keys[i].clone(), flag));
        assert(r.deep_view() =~= before.push((keys.deep_view()[i as int], flag)));
        assert(keys.deep_view().take(i + 1) =~= keys.deep_view().take(i as int).push(keys.deep_view()[i as int]));
        i = i + 1;
    }
    assert(keys.deep_view().take(keys.len() as int) =~= keys.deep_view());
    r
}

/// Whether `task_vars` and `project_vars` report the variables the run still needs: for each
/// task the walk from the targets and finalizers along the dependencies comes to, those it
/// declares without a value, and for each project of those tasks, those it declares without a
/// value that the command line does not give, both sorted by name.
pub open spec fn unset_report(
    root: ProjectConfigView,
    children: ChildrenView,
    targets: Seq<Seq<char>>,
    finalizers: Seq<Seq<char>>,
    cli: VarsMapView,
    task_vars: Seq<(Seq<char>, Seq<(Seq<char>, bool)>)>,
    project_vars: Seq<(Seq<char>, Seq<Seq<char>>)>,
) -> bool {
    let m = full_entries(project_list(root, children));
    let starts = targets + finalizers;
    &&& sorted_by_name(task_vars)
    &&& forall|x: (Seq<char>, Seq<(Seq<char>, bool)>)|
        #[trigger] task_vars.contains(x) <==> dep_reaches(m, starts, x.0) && task_unset(m, targets, x.0) == Some(x.1)
    &&& sorted_by_name(project_vars)
    &&& forall|x: (Seq<char>, Seq<Seq<char>>)|
        #[trigger] project_vars.contains(x) <==> involves(m, starts, x.0) && project_named(root, children, x.0) is Some
            && x.1 == project_unset_keys(project_named(root, children, x.0)->0.vars, cli) && x.1.len() > 0
}

/// The variables the run still needs: for each task the walk from the targets and finalizers
/// along the dependencies comes to, those it declares without a value, each with whether the
/// command line can give it one, which it can for a target only; and for each project of those
/// tasks, those it declares without a value that the command line does not give. Both lists
/// are sorted by name.
pub fn collect_unset_vars(
    root: &ProjectConfig,
    children: &Vec<(String, ProjectConfig)>,
    target_tasks: &Vec<String>,
    finalizer_tasks: &Vec<String>,
    cli_vars: &Vec<(String, VarsConfig)>,
) -> (r: (Vec<(String, Vec<(String, bool)>)>, Vec<(String, Vec<String>)>))
    ensures
        unset_report(
            root.deep_view(),
            children.deep_view(),
            target_tasks.deep_view(),
            finalizer_tasks.deep_view(),
            cli_vars.deep_view(),
            r.0.deep_view(),
            r.1.deep_view(),
        ),
{
    let m = all_entries(root, children);
    let ghost md = m.deep_view();
    let ghost td = target_tasks.deep_view();
    let mut starts: Vec<String> = target_tasks.duplicate();
    append_copies(&mut starts, finalizer_tasks);
    let ghost sd = starts.deep_view();
    let reached = reached_names(&m, &starts);
    let ghost rd = reached.deep_view();
    let mut task_list: Vec<(String, Vec<(String, bool)>)> = Vec::new();
    let mut involved: Vec<String> = Vec::new();
    let mut i: usize = 0;
    while i < reached.len()
        invariant
            i <= reached.len(),
            md == m.deep_view(),
            td == target_tasks.deep_view(),
            rd == reached.deep_view(),
            rd.no_duplicates(),
            names_distinct(task_list.deep_view()),
            forall|k: int| 0 <= k < task_list.deep_view().len() ==> rd.take(i as int).contains(#[trigger] task_list.deep_view()[k].0),
            forall|x: (Seq<char>, Seq<(Seq<char>, bool)>)|
                #[trigger] task_list.deep_view().contains(x) <==> rd.take(i as int).contains(x.0) && task_unset(md, td, x.0)
                    == Some(x.1),
            involved.deep_view().no_duplicates(),
            forall|p: Seq<char>|
                #[trigger] involved.deep_view().contains(p) <==> exists|n: Seq<char>|
                    rd.take(i as int).contains(n) && #[trigger] find_last(md, n) is Some && find_last(md, n)->0.project == p,
        decreases reached.len() - i,
    {
        let n = &reached[i];
        let ghost pre = rd.take(i as int);
        let ghost next = rd.take(i + 1);
        proof {
            assert(next =~= pre.push(n@));
            lemma_push_contains(pre, n@);
            assert(!pre.contains(n@)) by {
                if pre.contains(n@) {
                    let j = choose|j: int| 0 <= j < pre.len() && pre[j] == n@;
                    assert(rd[j] == rd[i as int]);
                }
            }
        }
        let ghost tl_before = task_list.deep_view();
        let ghost inv_before = involved.deep_view();
        match lookup_last(&m, n) {
            Some(t) => {
                let keys = unset_var_names(&t.vars);
                if keys.len() > 0 {
                    let is_target = holds(target_tasks, n);
                    let entry = (n.clone(), with_flag(&keys, is_target));
                    task_list.push(entry);
                    proof {
                        let e = (n@, keys.deep_view().map_values(|k: Seq<char>| (k, is_target)));
                        assert(task_list.deep_view() =~= tl_before.push(e));
                        assert(is_target == td.contains(n@));
                        assert(e.1 =~= unset_keys(t.deep_view().vars).map_values(|k: Seq<char>| (k, td.contains(n@))));
                        assert(task_unset(md, td, n@) == Some(e.1));
                    }
                }
                if !holds(&involved, &t.project) {
                    involved.push(t.project.clone());
                    proof {
                        assert(involved.deep_view() =~= inv_before.push(t.project@));
                    }
                }
            },
            None => {},
        }
        proof {
            let tl = task_list.deep_view();
            lemma_push_contains(inv_before, find_last(md, n@)->0.project);
            assert(names_distinct(tl)) by {
                assert forall|a: int, b: int| 0 <= a < b < tl.len() implies tl[a].0 != tl[b].0 by {
                    if b == tl_before.len() {
                        assert(pre.contains(tl_before[a].0));
                    } else {
                        assert(tl[a] == tl_before[a] && tl[b] == tl_before[b]);
                    }
                }
            }
            assert forall|k: int| 0 <= k < tl.len() implies next.contains(#[trigger] tl[k].0) by {
                if k < tl_before.len() {
                    assert(tl[k] == tl_before[k]);
                    assert(pre.contains(tl[k].0));
                }
            }
            assert forall|x: (Seq<char>, Seq<(Seq<char>, bool)>)|
                #[trigger] tl.contains(x) <==> next.contains(x.0) && task_unset(md, td, x.0) == Some(x.1) by {
                if tl.contains(x) {
                    let k = choose|k: int| 0 <= k < tl.len() && tl[k] == x;
                    if k < tl_before.len() {
                        assert(tl_before[k] == x);
                        assert(tl_before.contains(x));
                    }
                }
                if next.contains(x.0) && task_unset(md, td, x.0) == Some(x.1) {
                    if x.0 == n@ {
                        assert(tl[tl.len() - 1] == x);
                    } else {
                        assert(pre.contains(x.0));
                        assert(tl_before.contains(x));
                        let k = choose|k: int| 0 <= k < tl_before.len() && tl_before[k] == x;
                        assert(tl[k] == x);
                    }
                }
            }
            let iv = involved.deep_view();
            assert(iv.no_duplicates()) by {
                assert forall|a: int, b: int| 0 <= a < b < iv.len() implies iv[a] != iv[b] by {
                    if b == inv_before.len() {
                        assert(inv_before.contains(inv_before[a]));
                    }
                }
            }
            assert forall|p: Seq<char>|
                #[trigger] iv.contains(p) <==> exists|w: Seq<char>|
                    next.contains(w) && #[trigger] find_last(md, w) is Some && find_last(md, w)->0.project == p by {
                if iv.contains(p) && !inv_before.contains(p) {
                    assert(next.contains(n@) && find_last(md, n@) is Some && find_last(md, n@)->0.project == p);
                }
                if inv_before.contains(p) {
                    let w = choose|w: Seq<char>|
                        pre.contains(w) && #[trigger] find_last(md, w) is Some && find_last(md, w)->0.project == p;
                    assert(next.contains(w));
                }
                if exists|w: Seq<char>| next.contains(w) && #[trigger] find_last(md, w) is Some && find_last(md, w)->0.project == p {
                    let w = choose|w: Seq<char>|
                        next.contains(w) && #[trigger] find_last(md, w) is Some && find_last(md, w)->0.project == p;
                    if w != n@ {
                        assert(pre.contains(w));
                        assert(inv_before.contains(p));
                    }
                }
            }
        }
        i = i + 1;
    }
    assert(rd.take(rd.len() as int) =~= rd);
    let task_vars = sort_by_name(task_list);
    let mut project_list_out: Vec<(String, Vec<String>)> = Vec::new();
    let mut j: usize = 0;
    while j < involved.len()
        invariant
            j <= involved.len(),
            involved.deep_view().no_duplicates(),
            names_distinct(project_list_out.deep_view()),
            forall|k: int|
                0 <= k < project_list_out.deep_view().len() ==> involved.deep_view().take(j as int).contains(
                    #[trigger] project_list_out.deep_view()[k].0,
                ),
            forall|x: (Seq<char>, Seq<Seq<char>>)|
                #[trigger] project_list_out.deep_view().contains(x) <==> involved.deep_view().take(j as int).contains(x.0)
                    && project_named(root.deep_view(), children.deep_view(), x.0) is Some && x.1 == project_unset_keys(
                    project_named(root.deep_view(), children.deep_view(), x.0)->0.vars,
                    cli_vars.deep_view(),
                ) && x.1.len() > 0,
        decreases involved.len() - j,
    {
        let p = &involved[j];
        let ghost iv = involved.deep_view();
        let ghost pre = iv.take(j as int);
        let ghost next = iv.take(j + 1);
        proof {
            assert(next =~= pre.push(p@));
            lemma_push_contains(pre, p@);
            assert(!pre.contains(p@)) by {
                if pre.contains(p@) {
                    let k = choose|k: int| 0 <= k < pre.len() && pre[k] == p@;
                    assert(iv[k] == iv[j as int]);
                }
            }
        }
        let ghost before = project_list_out.deep_view();
        let config: Option<&ProjectConfig> = if p.unicode_len() == 0 {
            Some(root)
        } else {
            map_lookup(children, p.as_str())
        };
        match config {
            Some(c) => {
                let keys = project_unset_names(&c.vars, cli_vars);
                if keys.len() > 0 {
                    project_list_out.push((p.clone(), keys));
                    assert(project_list_out.deep_view() =~= before.push((p@, keys.deep_view())));
                }
            },
            None => {},
        }
        proof {
            let pl = project_list_out.deep_view();
            assert(names_distinct(pl)) by {
                assert forall|a: int, b: int| 0 <= a < b < pl.len() implies pl[a].0 != pl[b].0 by {
                    if b == before.len() {
                        assert(pre.contains(before[a].0));
                    } else {
                        assert(pl[a] == before[a] && pl[b] == before[b]);
                    }
                }
            }
            assert forall|k: int| 0 <= k < pl.len() implies next.contains(#[trigger] pl[k].0) by {
                if k < before.len() {
                    assert(pl[k] == before[k]);
                    assert(pre.contains(pl[k].0));
                }
            }
            assert forall|x: (Seq<char>, Seq<Seq<char>>)|
                #[trigger] pl.contains(x) <==> next.contains(x.0) && project_named(root.deep_view(), children.deep_view(), x.0)
                    is Some && x.1 == project_unset_keys(
                    project_named(root.deep_view(), children.deep_view(), x.0)->0.vars,
                    cli_vars.deep_view(),
                ) && x.1.len() > 0 by {
                if pl.contains(x) {
                    let k = choose|k: int| 0 <= k < pl.len() && pl[k] == x;
                    if k < before.len() {
                        assert(before[k] == x);
                        assert(before.contains(x));
                    }
                }
                if next.contains(x.0) && project_named(root.deep_view(), children.deep_view(), x.0) is Some && x.1
                    == project_unset_keys(
                    project_named(root.deep_view(), children.deep_view(), x.0)->0.vars,
                    cli_vars.deep_view(),
                ) && x.1.len() > 0 {
                    if x.0 == p@ {
                        assert(pl[pl.len() - 1] == x);
                    } else {
                        assert(pre.contains(x.0));
                        assert(before.contains(x));
                        let k = choose|k: int| 0 <= k < before.len() && before[k] == x;
                        assert(pl[k] == x);
                    }
                }
            }
        }
        j = j + 1;
    }
    assert(involved.deep_view().take(involved.len() as int) =~= involved.deep_view());
    let project_vars = sort_by_name(project_list_out);
    proof {
        assert forall|x: (Seq<char>, Seq<Seq<char>>)|
            #[trigger] project_vars.deep_view().contains(x) <==> involves(md, sd, x.0) && project_named(
                root.deep_view(),
                children.deep_view(),
                x.0,
            ) is Some && x.1 == project_unset_keys(
                project_named(root.deep_view(), children.deep_view(), x.0)->0.vars,
                cli_vars.deep_view(),
            ) && x.1.len() > 0 by {
            if involved.deep_view().contains(x.0) {
                let w = choose|w: Seq<char>|
                    rd.contains(w) && #[trigger] find_last(md, w) is Some && find_last(md, w)->0.project == x.0;
                assert(dep_reaches(md, sd, w));
            }
            if involves(md, sd, x.0) {
                let w = choose|w: Seq<char>|
                    #[trigger] dep_reaches(md, sd, w) && find_last(md, w) is Some && find_last(md, w)->0.project == x.0;
                assert(rd.contains(w));
            }
        }
    }
    (task_vars, project_vars)
}

// ----- The message -----

/// How `Debug` writes the text `s`: in double quotes, with quotes, backslashes and control
/// characters escaped.
pub uninterp spec fn debug_text(s: Seq<char>) -> Seq<char>;

/// Writes `s` as `Debug` does: `format!("{:?}", s)`. The escaping is std's, named by
/// [`debug_text`].
#[verifier::external_body]
fn debug_quoted(s: &str) -> (r: String)
    ensures
        r@ == debug_text(s@),
{
    format!("{:?}", s)
}

/// The parts joined, `sep` between two of them.
pub open spec fn join(parts: Seq<Seq<char>>, sep: Seq<char>) -> Seq<char>
    decreases parts.len(),
{
    if parts.len() == 0 {
        Seq::empty()
    } else if parts.len() == 1 {
        parts[0]
    } else {
        join(parts.drop_last(), sep) + sep + parts.last()
    }
}

/// The line of the project `p` and its variables without a value.
pub open spec fn project_line(p: Seq<char>, names: Seq<Seq<char>>) -> Seq<char> {
    (if p.len() == 0 {
        "the root project"@
    } else {
        "project "@ + debug_text(p)
    }) + " requires vars that are not set: "@ + join(names.map_values(|n: Seq<char>| debug_text(n)), ", "@)
}

/// The line of the task `t` and its variables without a value.
pub open spec fn task_line(t: Seq<char>, names: Seq<(Seq<char>, bool)>) -> Seq<char> {
    "task "@ + debug_text(t) + " requires vars that are not set: "@ + join(
        names.map_values(|n: (Seq<char>, bool)| debug_text(n.0)),
        ", "@,
    )
}

/// The variables the command line can give, one task or project after the other.
pub open spec fn settable(project_vars: Seq<(Seq<char>, Seq<Seq<char>>)>, task_vars: Seq<(Seq<char>, Seq<(Seq<char>, bool)>)>) -> Seq<
    Seq<char>,
> {
    flat_projects(project_vars) + flat_tasks(task_vars)
}

/// The names of the variables of the projects, in order.
pub open spec fn flat_projects(ps: Seq<(Seq<char>, Seq<Seq<char>>)>) -> Seq<Seq<char>>
    decreases ps.len(),
{
    if ps.len() == 0 {
        Seq::empty()
    } else {
        flat_projects(ps.drop_last()) + ps.last().1
    }
}

/// The names of the variables of the tasks that the command line can give, in order.
pub open spec fn settable_names(names: Seq<(Seq<char>, bool)>) -> Seq<Seq<char>>
    decreases names.len(),
{
    if names.len() == 0 {
        Seq::empty()
    } else if names.last().1 {
        settable_names(names.drop_last()).push(names.last().0)
    } else {
        settable_names(names.drop_last())
    }
}

/// The names of the variables of the tasks that the command line can give, in order.
pub open spec fn flat_tasks(ts: Seq<(Seq<char>, Seq<(Seq<char>, bool)>)>) -> Seq<Seq<char>>
    decreases ts.len(),
{
    if ts.len() == 0 {
        Seq::empty()
    } else {
        flat_tasks(ts.drop_last()) + settable_names(ts.last().1)
    }
}

/// The name of a target as the command line writes it: a task of the root project without its
/// leading `#`.
pub open spec fn cli_name(t: Seq<char>) -> Seq<char> {
    if t.len() > 0 && t[0] == '#' {
        t.drop_first()
    } else {
        t
    }
}

/// The error message for the variables without a value: a line per project, then per task,
/// then an example command with the variables the command line can give, and a hint for those
/// of dependency tasks, which it cannot.
pub open spec fn spec_unset_message(
    task_vars: Seq<(Seq<char>, Seq<(Seq<char>, bool)>)>,
    project_vars: Seq<(Seq<char>, Seq<Seq<char>>)>,
    targets: Seq<Seq<char>>,
) -> Seq<char> {
    let lines = project_vars.map_values(|e: (Seq<char>, Seq<Seq<char>>)| project_line(e.0, e.1)) + task_vars.map_values(
        |e: (Seq<char>, Seq<(Seq<char>, bool)>)| task_line(e.0, e.1),
    );
    let msg = join(lines, "\n"@);
    let cli = settable(project_vars, task_vars);
    let msg = if cli.len() > 0 {
        msg + "\nSet them like: fire "@ + join(targets.map_values(|t: Seq<char>| cli_name(t)), " "@) + " "@ + join(
            cli.map_values(|n: Seq<char>| n + "=<value>"@),
            " "@,
        )
    } else {
        msg
    };
    if exists|i: int, j: int|
        0 <= i < task_vars.len() && 0 <= j < task_vars[i].1.len() && !(#[trigger] task_vars[i].1[j]).1 {
        msg + "\nVars of a dependency task can be set with the dependent task's `depends_on.vars`"@
    } else {
        msg
    }
}

/// Joins the parts, `sep` between two of them; see [`join`].
pub(crate) fn join_parts(parts: &Vec<String>, sep: &str) -> (r: String)
    ensures
        r@ == join(parts.deep_view(), sep@),
{
    let mut r = String::new();
    let mut i: usize = 0;
    while i < parts.len()
        invariant
            i <= parts.len(),
            r@ == join(parts.deep_view().take(i as int), sep@),
        decreases parts.len() - i,
    {
        let ghost next = parts.deep_view().take(i + 1);
        proof {
            assert(next.drop_last() =~= parts.deep_view().take(i as int));
            assert(next.last() == parts.deep_view()[i as int]);
        }
        if i > 0 {
            r.append(sep);
        } else {
            assert(r@ =~= Seq::<char>::empty());
        }
        r.append(parts[i].as_str());
        proof {
            if i == 0 {
                assert(next.len() == 1);
                assert(r@ =~= next[0]);
            } else {
                assert(r@ =~= join(next.drop_last(), sep@) + sep@ + next.last());
            }
        }
        i = i + 1;
    }
    assert(parts.deep_view().take(parts.len() as int) =~= parts.deep_view());
    r
}

fn quoted_all(names: &Vec<String>) -> (r: Vec<String>)
    ensures
        r.deep_view() == names.deep_view().map_values(|n: Seq<char>| debug_text(n)),
{
    let mut r: Vec<String> = Vec::new();
    let mut i: usize = 0;
    while i < names.len()
        invariant
            i <= names.len(),
            r.deep_view() =~= names.deep_view().take(i as int).map_values(|n: Seq<char>| debug_text(n)),
        decreases names.len() - i,
    {
        let ghost before = r.deep_view();
        r.push(debug_quoted(names[i].as_str()));
        assert(r.deep_view() =~= before.push(debug_text(names.deep_view()[i as int])));
        assert(names.deep_view().take(i + 1) =~= names.deep_view().take(i as int).push(names.deep_view()[i as int]));
        i = i + 1;
    }
    assert(names.deep_view().take(names.len() as int) =~= names.deep_view());
    r
}

fn first_names(names: &Vec<(String, bool)>) -> (r: Vec<String>)
    ensures
        r.deep_view() == names.deep_view().map_values(|n: (Seq<char>, bool)| n.0),
{
    let mut r: Vec<String> = Vec::new();
    let mut i: usize = 0;
    while i < names.len()
        invariant
            i <= names.len(),
            r.deep_view() =~= names.deep_view().take(i as int).map_values(|n: (Seq<char>, bool)| n.0),
        decreases names.len() - i,
    {
        let ghost before = r.deep_view();
        r.push(names[i].0.clone());
        assert(r.deep_view() =~= before.push(names.deep_view()[i as int].0));
        assert(names.deep_view().take(i + 1) =~= names.deep_view().take(i as int).push(names.deep_view()[i as int]));
        i = i + 1;
    }
    assert(names.deep_view().take(names.len() as int) =~= names.deep_view());
    r
}

fn line_of_project(p: &String, names: &Vec<String>) -> (r: String)
    ensures
        r@ == project_line(p@, names.deep_view()),
{
    let mut r = if p.unicode_len() == 0 {
        String::from_str("the root project")
    } else {
        let mut h = String::from_str("project ");
        let q = debug_quoted(p.as_str());
        h.append(q.as_str());
        h
    };
    r.append(" requires vars that are not set: ");
    let q = quoted_all(names);
    let j = join_parts(&q, ", ");
    r.append(j.as_str());
    r
}

fn line_of_task(t: &String, names: &Vec<(String, bool)>) -> (r: String)
    ensures
        r@ == task_line(t@, names.deep_view()),
{
    let mut r = String::from_str("task ");
    let q = debug_quoted(t.as_str());
    r.append(q.as_str());
    r.append(" requires vars that are not set: ");
    let firsts = first_names(names);
    let quoted = quoted_all(&firsts);
    assert(quoted.deep_view() =~= names.deep_view().map_values(|n: (Seq<char>, bool)| debug_text(n.0)));
    let j = join_parts(&quoted, ", ");
    r.append(j.as_str());
    r
}

fn cli_name_of(t: &String) -> (r: String)
    ensures
        r@ == cli_name(t@),
{
    let n = t.unicode_len();
    if n > 0 && t.get_char(0) == '#' {
        let rest = t.as_str().substring_char(1, n);
        assert(rest@ =~= t@.drop_first());
        String::from_str(rest)
    } else {
        t.clone()
    }
}

/// The error message for the variables without a value; see [`spec_unset_message`].
pub fn unset_vars_message(
    task_vars: &Vec<(String, Vec<(String, bool)>)>,
    project_vars: &Vec<(String, Vec<String>)>,
    target_tasks: &Vec<String>,
) -> (r: String)
    ensures
        r@ == spec_unset_message(task_vars.deep_view(), project_vars.deep_view(), target_tasks.deep_view()),
{
    let ghost td = task_vars.deep_view();
    let ghost pd = project_vars.deep_view();
    let ghost plines = pd.map_values(|e: (Seq<char>, Seq<Seq<char>>)| project_line(e.0, e.1));
    let ghost tlines = td.map_values(|e: (Seq<char>, Seq<(Seq<char>, bool)>)| task_line(e.0, e.1));
    let mut lines: Vec<String> = Vec::new();
    let mut cli: Vec<String> = Vec::new();
    let mut i: usize = 0;
    while i < project_vars.len()
        invariant
            i <= project_vars.len(),
            pd == project_vars.deep_view(),
            plines == pd.map_values(|e: (Seq<char>, Seq<Seq<char>>)| project_line(e.0, e.1)),
            lines.deep_view() =~= plines.take(i as int),
            cli.deep_view() == flat_projects(pd.take(i as int)),
        decreases project_vars.len() - i,
    {
        let ghost lb = lines.deep_view();
        lines.push(line_of_project(&project_vars[i].0, &project_vars[i].1));
        assert(lines.deep_view() =~= lb.push(plines[i as int]));
        append_copies(&mut cli, &project_vars[i].1);
        proof {
            let next = pd.take(i + 1);
            assert(next.drop_last() =~= pd.take(i as int));
            assert(next.last() == pd[i as int]);
        }
        i = i + 1;
    }
    assert(pd.take(pd.len() as int) =~= pd);
    let ghost after_projects = cli.deep_view();
    let mut hidden = false;
    let mut i: usize = 0;
    while i < task_vars.len()
        invariant
            i <= task_vars.len(),
            td == task_vars.deep_view(),
            tlines == td.map_values(|e: (Seq<char>, Seq<(Seq<char>, bool)>)| task_line(e.0, e.1)),
            lines.deep_view() =~= plines + tlines.take(i as int),
            after_projects == flat_projects(pd),
            cli.deep_view() == after_projects + flat_tasks(td.take(i as int)),
            hidden == exists|a: int, b: int| 0 <= a < i && 0 <= b < td[a].1.len() && !(#[trigger] td[a].1[b]).1,
        decreases task_vars.len() - i,
    {
        let ghost lb = lines.deep_view();
        lines.push(line_of_task(&task_vars[i].0, &task_vars[i].1));
        assert(lines.deep_view() =~= lb.push(tlines[i as int]));
        let names = &task_vars[i].1;
        let ghost cb = cli.deep_view();
        let ghost hidden_before = hidden;
        let mut j: usize = 0;
        while j < names.len()
            invariant
                j <= names.len(),
                td == task_vars.deep_view(),
                names.deep_view() == td[i as int].1,
                cli.deep_view() == cb + settable_names(names.deep_view().take(j as int)),
                hidden == (hidden_before || exists|b: int| 0 <= b < j && !(#[trigger] td[i as int].1[b]).1),
            decreases names.len() - j,
        {
            let ghost next = names.deep_view().take(j + 1);
            proof {
                assert(next.drop_last() =~= names.deep_view().take(j as int));
                assert(next.last() == names.deep_view()[j as int]);
            }
            if names[j].1 {
                let ghost before = cli.deep_view();
                cli.push(names[j].0.clone());
                assert(cli.deep_view() =~= before.push(names.deep_view()[j as int].0));
            } else {
                hidden = true;
                assert(!td[i as int].1[j as int].1);
            }
            j = j + 1;
        }
        proof {
            assert(names.deep_view().take(names.len() as int) =~= names.deep_view());
            let next = td.take(i + 1);
            assert(next.drop_last() =~= td.take(i as int));
            assert(next.last() == td[i as int]);
            assert(cli.deep_view() =~= after_projects + flat_tasks(td.take(i + 1)));
            if hidden {
                if !hidden_before {
                    let b = choose|b: int| 0 <= b < names.len() && !(#[trigger] td[i as int].1[b]).1;
                    assert(!(td[i as int].1[b]).1);
                }
            }
            if exists|a: int, b: int| 0 <= a < i + 1 && 0 <= b < td[a].1.len() && !(#[trigger] td[a].1[b]).1 {
                let (a, b) = choose|a: int, b: int| 0 <= a < i + 1 && 0 <= b < td[a].1.len() && !(#[trigger] td[a].1[b]).1;
                if a == i {
                    assert(!(td[i as int].1[b]).1);
                }
            }
        }
        i = i + 1;
    }
    assert(td.take(td.len() as int) =~= td);
    assert(tlines.take(tlines.len() as int) =~= tlines);
    let mut msg = join_parts(&lines, "\n");
    if cli.len() > 0 {
        let mut names: Vec<String> = Vec::new();
        let mut k: usize = 0;
        while k < target_tasks.len()
            invariant
                k <= target_tasks.len(),
                names.deep_view() =~= target_tasks.deep_view().take(k as int).map_values(|t: Seq<char>| cli_name(t)),
            decreases target_tasks.len() - k,
        {
            let ghost before = names.deep_view();
            names.push(cli_name_of(&target_tasks[k]));
            assert(names.deep_view() =~= before.push(cli_name(target_tasks.deep_view()[k as int])));
            assert(target_tasks.deep_view().take(k + 1) =~= target_tasks.deep_view().take(k as int).push(
                target_tasks.deep_view()[k as int],
            ));
            k = k + 1;
        }
        assert(target_tasks.deep_view().take(target_tasks.len() as int) =~= target_tasks.deep_view());
        let mut assigns: Vec<String> = Vec::new();
        let mut k: usize = 0;
        while k < cli.len()
            invariant
                k <= cli.len(),
                assigns.deep_view() =~= cli.deep_view().take(k as int).map_values(|n: Seq<char>| n + "=<value>"@),
            decreases cli.len() - k,
        {
            let mut a = cli[k].clone();
            a.append("=<value>");
            let ghost before = assigns.deep_view();
            assigns.push(a);
            assert(assigns.deep_view() =~= before.push(cli.deep_view()[k as int] + "=<value>"@));
            assert(cli.deep_view().take(k + 1) =~= cli.deep_view().take(k as int).push(cli.deep_view()[k as int]));
            k = k + 1;
        }
        assert(cli.deep_view().take(cli.len() as int) =~= cli.deep_view());
        msg.append("\nSet them like: fire ");
        let t = join_parts(&names, " ");
        msg.append(t.as_str());
        msg.append(" ");
        let a = join_parts(&assigns, " ");
        msg.append(a.as_str());
    }
    if hidden {
        msg.append("\nVars of a dependency task can be set with the dependent task's `depends_on.vars`");
    }
    msg
}

/// Checks that every variable the run involves has a value; see [`collect_unset_vars`]. When
/// some do not, the error is the message that names them; see [`unset_vars_message`].
pub fn validate_vars(
    root: &ProjectConfig,
    children: &Vec<(String, ProjectConfig)>,
    target_tasks: &Vec<String>,
    finalizer_tasks: &Vec<String>,
    cli_vars: &Vec<(String, VarsConfig)>,
) -> (r: Result<(), String>)
    ensures
        ({
            let m = full_entries(project_list(root.deep_view(), children.deep_view()));
            let starts = target_tasks.deep_view() + finalizer_tasks.deep_view();
            r is Ok <==> (forall|n: Seq<char>| dep_reaches(m, starts, n) ==> #[trigger] task_unset(
                m,
                target_tasks.deep_view(),
                n,
            ) is None) && (forall|p: Seq<char>|
                #[trigger] involves(m, starts, p) && project_named(root.deep_view(), children.deep_view(), p) is Some
                    ==> project_unset_keys(
                    project_named(root.deep_view(), children.deep_view(), p)->0.vars,
                    cli_vars.deep_view(),
                ).len() == 0)
        }),
        r matches Err(msg) ==> exists|tv: Seq<(Seq<char>, Seq<(Seq<char>, bool)>)>, pv: Seq<(Seq<char>, Seq<Seq<char>>)>|
            #[trigger] unset_report(
                root.deep_view(),
                children.deep_view(),
                target_tasks.deep_view(),
                finalizer_tasks.deep_view(),
                cli_vars.deep_view(),
                tv,
                pv,
            ) && msg@ == spec_unset_message(tv, pv, target_tasks.deep_view()),
{
    let ghost m = full_entries(project_list(root.deep_view(), children.deep_view()));
    let ghost starts = target_tasks.deep_view() + finalizer_tasks.deep_view();
    let (task_vars, project_vars) = collect_unset_vars(root, children, target_tasks, finalizer_tasks, cli_vars);
    if task_vars.len() == 0 && project_vars.len() == 0 {
        proof {
            assert forall|n: Seq<char>| dep_reaches(m, starts, n) implies #[trigger] task_unset(m, target_tasks.deep_view(), n) is None by {
                if task_unset(m, target_tasks.deep_view(), n) is Some {
                    let x = (n, task_unset(m, target_tasks.deep_view(), n)->0);
                    assert(task_vars.deep_view().contains(x));
                }
            }
            assert forall|p: Seq<char>|
                #[trigger] involves(m, starts, p) && project_named(root.deep_view(), children.deep_view(), p) is Some implies project_unset_keys(
                    project_named(root.deep_view(), children.deep_view(), p)->0.vars,
                    cli_vars.deep_view(),
                ).len() == 0 by {
                let keys = project_unset_keys(project_named(root.deep_view(), children.deep_view(), p)->0.vars, cli_vars.deep_view());
                if keys.len() > 0 {
                    assert(project_vars.deep_view().contains((p, keys)));
                }
            }
        }
        return Ok(());
    }
    proof {
        if task_vars.len() > 0 {
            let x = task_vars.deep_view()[0];
            assert(task_vars.deep_view().contains(x));
            assert(dep_reaches(m, starts, x.0) && task_unset(m, target_tasks.deep_view(), x.0) is Some);
        } else {
            let x = project_vars.deep_view()[0];
            assert(project_vars.deep_view().contains(x));
        }
    }
    Err(unset_vars_message(&task_vars, &project_vars, target_tasks))
}

} // verus!
