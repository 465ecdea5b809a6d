//! The workspace of a run: the root project and its children, the tasks the run targets, and the
//! finalizers that join the run.
use crate::ordered::{append_copies, find_key, Duplicate, lemma_first_key_unique, first_key, has_key, lemma_first_key_exists, lemma_same_keys, map_get, map_lookup};
use crate::project::{spec_split_name, Task};
use crate::config::UI;
use crate::project_config::{
    spec_is_service, full_name_of, spec_with_value, VarsConfig, VarsMapView, DependsOnConfigView, ProjectConfig, ProjectConfigView, TaskConfig, TaskConfigView, TaskRefView, TasksView,
};
use crate::path::{path_equal, same_path};
use crate::text::same_text;
use vstd::prelude::*;

verus! {

/// The child projects by name, by what their configuration says.
pub type ChildrenView = Seq<(Seq<char>, ProjectConfigView)>;

/// The configuration of the task of the full name `full`, ex: `#foo` or `project#foo`: a name
/// without a project, or with an empty one, is a task of the root project.
pub open spec fn find_task(root: ProjectConfigView, children: ChildrenView, full: Seq<char>) -> Option<TaskConfigView> {
    let (p, t) = spec_split_name(full);
    if p is Some && p->0.len() > 0 {
        match map_get(children, p->0) {
            Some(c) => map_get(c.tasks, t),
            None => None,
        }
    } else {
        map_get(root.tasks, t)
    }
}

/// Why a workspace cannot be set up.
#[derive(Debug, Clone, PartialEq, Eq)]
pub enum WorkspaceError {
    /// No child project has this name
    ProjectNotDefined(String),
    /// The project has no task of this name
    TaskNotDefined(String),
    /// No project has a task of this name
    NoSuchTask(String),
    /// No child project is in the current directory
    NoProjectHere,
}

/// Whether the full name `name` names a child project that does not exist.
pub open spec fn project_missing(children: ChildrenView, name: Seq<char>) -> bool {
    match spec_split_name(name).0 {
        Some(p) => p.len() > 0 && map_get(children, p) is None,
        None => false,
    }
}

/// Looks up the configuration of the task of the full name `name`; see [`find_task`].
pub fn task_config<'a>(root: &'a ProjectConfig, children: &'a Vec<(String, ProjectConfig)>, name: &str) -> (r: Result<
    &'a TaskConfig,
    WorkspaceError,
>)
    ensures
        r matches Ok(t) ==> find_task(root.deep_view(), children.deep_view(), name@) == Some(t.deep_view()),
        r is Err <==> find_task(root.deep_view(), children.deep_view(), name@) is None,
        r matches Err(WorkspaceError::ProjectNotDefined(p)) ==> spec_split_name(name@).0 == Some(p@) && p@.len() > 0
            && map_get(children.deep_view(), p@) is None,
        r matches Err(WorkspaceError::TaskNotDefined(t)) ==> spec_split_name(name@).1 == t@,
        r matches Err(e) ==> !(e is NoSuchTask) && !(e is NoProjectHere),
        r matches Err(e) ==> (e is ProjectNotDefined <==> project_missing(children.deep_view(), name@)),
{
    let (project, task) = Task::split_name(name);
    let in_child = match project {
        Some(p) => p.unicode_len() > 0,
        None => false,
    };
    let tasks = if in_child {
        let p = project.unwrap();
        match map_lookup(children, p) {
            Some(c) => &c.tasks,
            None => {
                return Err(WorkspaceError::ProjectNotDefined(String::from_str(p)));
            },
        }
    } else {
        &root.tasks
    };
    match map_lookup(tasks, task) {
        Some(t) => Ok(t),
        None => Err(WorkspaceError::TaskNotDefined(String::from_str(task))),
    }
}

/// Whether the task already waits for the task `u`: it finalizes it, or depends on it.
pub open spec fn waits_on(t: TaskConfigView, u: Seq<char>) -> bool {
    t.finalizes.contains(u) || exists|i: int| 0 <= i < t.depends_on.len() && t.depends_on[i].task() == u
}

/// The task, made to finalize `u` unless it already waits for it.
pub open spec fn add_to(t: TaskConfigView, u: Seq<char>) -> TaskConfigView {
    if waits_on(t, u) {
        t
    } else {
        TaskConfigView { finalizes: t.finalizes.push(u), ..t }
    }
}

/// The tasks with the first one named `k` made to finalize `u`; see [`add_to`].
pub open spec fn tasks_add(ts: TasksView, k: Seq<char>, u: Seq<char>) -> TasksView {
    let i = choose|i: int| first_key(ts, k, i);
    ts.update(i, (ts[i].0, add_to(ts[i].1, u)))
}

/// The configurations with the task of the full name `post` made to finalize `u`, or `None`
/// when no task has that name.
pub open spec fn spec_add_finalize(
    root: ProjectConfigView,
    children: ChildrenView,
    post: Seq<char>,
    u: Seq<char>,
) -> Option<(ProjectConfigView, ChildrenView)> {
    let (p, t) = spec_split_name(post);
    if p is Some && p->0.len() > 0 {
        if has_key(children, p->0) {
            let ci = choose|i: int| first_key(children, p->0, i);
            let c = children[ci].1;
            if has_key(c.tasks, t) {
                Some((root, children.update(ci, (children[ci].0, ProjectConfigView { tasks: tasks_add(c.tasks, t, u), ..c }))))
            } else {
                None
            }
        } else {
            None
        }
    } else if has_key(root.tasks, t) {
        Some((ProjectConfigView { tasks: tasks_add(root.tasks, t, u), ..root }, children))
    } else {
        None
    }
}

fn waits(t: &TaskConfig, u: &String) -> (r: bool)
    ensures
        r == waits_on(t.deep_view(), u@),
{
    let mut i: usize = 0;
    while i < t.finalizes.len()
        invariant
            i <= t.finalizes.len(),
            forall|j: int| 0 <= j < i ==> t.finalizes.deep_view()[j] != u@,
        decreases t.finalizes.len() - i,
    {
        if same_text(t.finalizes[i].as_str(), u.as_str()) {
            assert(t.deep_view().finalizes[i as int] == u@);
            return true;
        }
        i = i + 1;
    }
    let mut i: usize = 0;
    while i < t.depends_on.len()
        invariant
            i <= t.depends_on.len(),
            !t.deep_view().finalizes.contains(u@),
            forall|j: int| 0 <= j < i ==> t.depends_on.deep_view()[j].task() != u@,
        decreases t.depends_on.len() - i,
    {
        if same_text(t.depends_on[i].task(), u.as_str()) {
            assert(t.deep_view().depends_on[i as int].task() == u@);
            return true;
        }
        i = i + 1;
    }
    false
}

fn add_in(tasks: &mut Vec<(String, TaskConfig)>, i: usize, u: &String)
    requires
        i < old(tasks).len(),
    ensures
        final(tasks).deep_view() == old(tasks).deep_view().update(
            i as int,
            (old(tasks).deep_view()[i as int].0, add_to(old(tasks).deep_view()[i as int].1, u@)),
        ),
{
    let ghost before = tasks.deep_view();
    let (k, mut t) = tasks.remove(i);
    assert(before[i as int] == (k@, t.deep_view()));
    if !waits(&t, u) {
        t.finalizes.push(u.clone());
        assert(t.deep_view().finalizes =~= before[i as int].1.finalizes.push(u@));
        assert(t.deep_view() == add_to(before[i as int].1, u@));
    }
    tasks.insert(i, (k, t));
    assert(tasks.deep_view() =~= before.update(i as int, (before[i as int].0, add_to(before[i as int].1, u@))));
}

/// Makes the task of the full name `post` finalize `u`, unless it already waits for it; see
/// [`spec_add_finalize`].
fn add_finalize(root: &mut ProjectConfig, children: &mut Vec<(String, ProjectConfig)>, post: &str, u: &String) -> (r:
    Result<(), WorkspaceError>)
    ensures
        match spec_add_finalize(old(root).deep_view(), old(children).deep_view(), post@, u@) {
            Some((rv, cv)) => r is Ok && final(root).deep_view() == rv && final(children).deep_view() == cv,
            None => r is Err && !(r->Err_0 is NoSuchTask),
        },
{
    let (project, task) = Task::split_name(post);
    let in_child = match project {
        Some(p) => p.unicode_len() > 0,
        None => false,
    };
    if in_child {
        let p = project.unwrap();
        match find_key(children, p) {
            Some(ci) => {
                let ghost before = children.deep_view();
                let (ck, mut c) = children.remove(ci);
                assert(before[ci as int] == (ck@, c.deep_view()));
                match find_key(&c.tasks, task) {
                    Some(ti) => {
                        add_in(&mut c.tasks, ti, u);
                        children.insert(ci, (ck, c));
                        assert(children.deep_view() =~= before.update(
                            ci as int,
                            (before[ci as int].0, ProjectConfigView {
                                tasks: tasks_add(before[ci as int].1.tasks, task@, u@),
                                ..before[ci as int].1
                            }),
                        ));
                        Ok(())
                    },
                    None => {
                        children.insert(ci, (ck, c));
                        Err(WorkspaceError::TaskNotDefined(String::from_str(task)))
                    },
                }
            },
            None => Err(WorkspaceError::ProjectNotDefined(String::from_str(p))),
        }
    } else {
        match find_key(&root.tasks, task) {
            Some(ti) => {
                add_in(&mut root.tasks, ti, u);
                Ok(())
            },
            None => Err(WorkspaceError::TaskNotDefined(String::from_str(task))),
        }
    }
}

// ----- The walk from the target tasks -----

/// The names of the finalizers of a task.
pub open spec fn finalizer_names(t: TaskConfigView) -> Seq<Seq<char>> {
    t.finalized_by.map_values(|f: TaskRefView| f.task())
}

/// The names a task sends the walk on to: its dependencies, unless `force` keeps them from
/// running, then its finalizers.
pub open spec fn next_names(t: TaskConfigView, force: bool) -> Seq<Seq<char>> {
    (if force {
        Seq::empty()
    } else {
        t.depends_on.map_values(|d: DependsOnConfigView| d.task())
    }) + finalizer_names(t)
}

/// Whether the walk goes on from the task named `u` to the name `v`.
pub open spec fn walk_step(root: ProjectConfigView, children: ChildrenView, force: bool, u: Seq<char>, v: Seq<char>) -> bool {
    match find_task(root, children, u) {
        Some(t) => next_names(t, force).contains(v),
        None => false,
    }
}

/// Whether the walk from the names `targets` comes to the name `x`.
pub open spec fn walk_reaches(
    root: ProjectConfigView,
    children: ChildrenView,
    force: bool,
    targets: Seq<Seq<char>>,
    x: Seq<char>,
) -> bool {
    exists|p: Seq<Seq<char>>|
        #![trigger p[0], p[p.len() - 1]]
        p.len() >= 1 && targets.contains(p[0]) && p[p.len() - 1] == x && forall|i: int|
            0 <= i < p.len() - 1 ==> #[trigger] walk_step(root, children, force, p[i], p[i + 1])
}

proof fn lemma_reach_start(root: ProjectConfigView, children: ChildrenView, force: bool, targets: Seq<Seq<char>>, x: Seq<char>)
    requires
        targets.contains(x),
    ensures
        walk_reaches(root, children, force, targets, x),
{
    let p = seq![x];
    assert(p[0] == x && p[p.len() - 1] == x);
}

proof fn lemma_reach_step(
    root: ProjectConfigView,
    children: ChildrenView,
    force: bool,
    targets: Seq<Seq<char>>,
    u: Seq<char>,
    v: Seq<char>,
)
    requires
        walk_reaches(root, children, force, targets, u),
        walk_step(root, children, force, u, v),
    ensures
        walk_reaches(root, children, force, targets, v),
{
    let p = choose|p: Seq<Seq<char>>|
        #![trigger p[0], p[p.len() - 1]]
        p.len() >= 1 && targets.contains(p[0]) && p[p.len() - 1] == u && forall|i: int|
            0 <= i < p.len() - 1 ==> #[trigger] walk_step(root, children, force, p[i], p[i + 1]);
    let q = p.push(v);
    assert forall|i: int| 0 <= i < q.len() - 1 implies #[trigger] walk_step(root, children, force, q[i], q[i + 1]) by {
        if i < p.len() - 1 {
            assert(q[i] == p[i] && q[i + 1] == p[i + 1]);
        } else {
            assert(q[i] == u && q[i + 1] == v);
        }
    }
    assert(q[0] == p[0] && q[q.len() - 1] == v);
}

proof fn lemma_path_in_seen(
    root: ProjectConfigView,
    children: ChildrenView,
    force: bool,
    seen: Seq<Seq<char>>,
    p: Seq<Seq<char>>,
    k: int,
)
    requires
        0 <= k < p.len(),
        seen.contains(p[0]),
        forall|i: int| 0 <= i < p.len() - 1 ==> #[trigger] walk_step(root, children, force, p[i], p[i + 1]),
        forall|u: Seq<char>, v: Seq<char>| seen.contains(u) && #[trigger] walk_step(root, children, force, u, v) ==> seen.contains(v),
    ensures
        seen.contains(p[k]),
    decreases k,
{
    if k > 0 {
        lemma_path_in_seen(root, children, force, seen, p, k - 1);
        let i = k - 1;
        assert(walk_step(root, children, force, p[i], p[i + 1]));
    }
}

/// A set of names that holds the targets and everything the walk goes on to from its names is
/// every name the walk comes to.
proof fn lemma_closed_holds_reached(
    root: ProjectConfigView,
    children: ChildrenView,
    force: bool,
    targets: Seq<Seq<char>>,
    seen: Seq<Seq<char>>,
    x: Seq<char>,
)
    requires
        forall|t: Seq<char>| targets.contains(t) ==> seen.contains(t),
        forall|u: Seq<char>, v: Seq<char>| seen.contains(u) && #[trigger] walk_step(root, children, force, u, v) ==> seen.contains(v),
        walk_reaches(root, children, force, targets, x),
    ensures
        seen.contains(x),
{
    let p = choose|p: Seq<Seq<char>>|
        #![trigger p[0], p[p.len() - 1]]
        p.len() >= 1 && targets.contains(p[0]) && p[p.len() - 1] == x && forall|i: int|
            0 <= i < p.len() - 1 ==> #[trigger] walk_step(root, children, force, p[i], p[i + 1]);
    lemma_path_in_seen(root, children, force, seen, p, p.len() - 1);
}

// ----- Configurations that differ in what tasks finalize only -----

/// Whether the tasks `b` are the tasks `a`, but for what they finalize.
pub open spec fn same_tasks(a: TasksView, b: TasksView) -> bool {
    &&& a.len() == b.len()
    &&& forall|i: int| 0 <= i < a.len() ==> b[i].0 == a[i].0
    &&& forall|i: int|
        0 <= i < a.len() ==> #[trigger] b[i].1 == (TaskConfigView { finalizes: b[i].1.finalizes, ..a[i].1 })
}

/// Whether the project `b` is the project `a`, but for what its tasks finalize.
pub open spec fn same_project(a: ProjectConfigView, b: ProjectConfigView) -> bool {
    &&& b == (ProjectConfigView { tasks: b.tasks, ..a })
    &&& same_tasks(a.tasks, b.tasks)
}

/// Whether the child projects `b` are the projects `a`, but for what their tasks finalize.
pub open spec fn same_children(a: ChildrenView, b: ChildrenView) -> bool {
    &&& a.len() == b.len()
    &&& forall|i: int| 0 <= i < a.len() ==> b[i].0 == a[i].0
    &&& forall|i: int| 0 <= i < a.len() ==> #[trigger] same_project(a[i].1, b[i].1)
}

proof fn lemma_same_find(r0: ProjectConfigView, c0: ChildrenView, r1: ProjectConfigView, c1: ChildrenView, s: Seq<char>)
    requires
        same_project(r0, r1),
        same_children(c0, c1),
    ensures
        find_task(r0, c0, s) is Some <==> find_task(r1, c1, s) is Some,
        find_task(r0, c0, s) matches Some(t0) ==> find_task(r1, c1, s)->0 == (TaskConfigView {
            finalizes: find_task(r1, c1, s)->0.finalizes,
            ..t0
        }),
{
    let (p, t) = spec_split_name(s);
    if p is Some && p->0.len() > 0 {
        lemma_same_keys(c0, c1, p->0);
        if has_key(c0, p->0) {
            let ci = choose|i: int| first_key(c0, p->0, i);
            assert(same_project(c0[ci].1, c1[ci].1));
            lemma_same_keys(c0[ci].1.tasks, c1[ci].1.tasks, t);
            if has_key(c0[ci].1.tasks, t) {
                let ti = choose|i: int| first_key(c0[ci].1.tasks, t, i);
                assert(c1[ci].1.tasks[ti].1 == (TaskConfigView {
                    finalizes: c1[ci].1.tasks[ti].1.finalizes,
                    ..c0[ci].1.tasks[ti].1
                }));
            }
        }
    } else {
        lemma_same_keys(r0.tasks, r1.tasks, t);
        if has_key(r0.tasks, t) {
            let ti = choose|i: int| first_key(r0.tasks, t, i);
            assert(r1.tasks[ti].1 == (TaskConfigView { finalizes: r1.tasks[ti].1.finalizes, ..r0.tasks[ti].1 }));
        }
    }
}

proof fn lemma_same_walk(
    r0: ProjectConfigView,
    c0: ChildrenView,
    r1: ProjectConfigView,
    c1: ChildrenView,
    force: bool,
    u: Seq<char>,
)
    requires
        same_project(r0, r1),
        same_children(c0, c1),
    ensures
        find_task(r0, c0, u) is Some <==> find_task(r1, c1, u) is Some,
        find_task(r0, c0, u) is Some ==> next_names(find_task(r1, c1, u)->0, force) == next_names(
            find_task(r0, c0, u)->0,
            force,
        ),
{
    lemma_same_find(r0, c0, r1, c1, u);
}

proof fn lemma_add_keeps_same(
    r0: ProjectConfigView,
    c0: ChildrenView,
    r1: ProjectConfigView,
    c1: ChildrenView,
    post: Seq<char>,
    u: Seq<char>,
)
    requires
        same_project(r0, r1),
        same_children(c0, c1),
    ensures
        spec_add_finalize(r1, c1, post, u) is Some <==> find_task(r1, c1, post) is Some,
        spec_add_finalize(r1, c1, post, u) matches Some((r2, c2)) ==> same_project(r0, r2) && same_children(c0, c2),
{
    let (p, t) = spec_split_name(post);
    if p is Some && p->0.len() > 0 {
        if has_key(c1, p->0) {
            lemma_first_key_exists(c1, p->0);
            let ci = choose|i: int| first_key(c1, p->0, i);
            let c = c1[ci].1;
            if has_key(c.tasks, t) {
                lemma_first_key_exists(c.tasks, t);
                let ti = choose|i: int| first_key(c.tasks, t, i);
                let (r2, c2) = spec_add_finalize(r1, c1, post, u)->0;
                assert(same_children(c0, c2)) by {
                    assert forall|i: int| 0 <= i < c0.len() implies c2[i].0 == c0[i].0 by {
                        assert(c1[i].0 == c0[i].0);
                    }
                    assert forall|i: int| 0 <= i < c0.len() implies #[trigger] same_project(c0[i].1, c2[i].1) by {
                        if i == ci {
                            assert(same_project(c0[i].1, c1[i].1));
                            assert forall|j: int| 0 <= j < c0[i].1.tasks.len() implies c2[i].1.tasks[j].0 == c0[i].1.tasks[j].0 by {
                                assert(c1[i].1.tasks[j].0 == c0[i].1.tasks[j].0);
                            }
                            assert forall|j: int| 0 <= j < c0[i].1.tasks.len() implies #[trigger] c2[i].1.tasks[j].1 == (TaskConfigView {
                                finalizes: c2[i].1.tasks[j].1.finalizes,
                                ..c0[i].1.tasks[j].1
                            }) by {
                                assert(c1[i].1.tasks[j].1 == (TaskConfigView {
                                    finalizes: c1[i].1.tasks[j].1.finalizes,
                                    ..c0[i].1.tasks[j].1
                                }));
                            }
                        } else {
                            assert(same_project(c0[i].1, c1[i].1));
                        }
                    }
                }
            }
        }
    } else if has_key(r1.tasks, t) {
        lemma_first_key_exists(r1.tasks, t);
        let ti = choose|i: int| first_key(r1.tasks, t, i);
        let (r2, c2) = spec_add_finalize(r1, c1, post, u)->0;
        assert forall|j: int| 0 <= j < r0.tasks.len() implies r2.tasks[j].0 == r0.tasks[j].0 by {
            assert(r1.tasks[j].0 == r0.tasks[j].0);
        }
        assert forall|j: int| 0 <= j < r0.tasks.len() implies #[trigger] r2.tasks[j].1 == (TaskConfigView { finalizes: r2.tasks[j].1.finalizes, ..r0.tasks[j].1 }) by {
            assert(r1.tasks[j].1 == (TaskConfigView { finalizes: r1.tasks[j].1.finalizes, ..r0.tasks[j].1 }));
        }
    }
}

// ----- Names the walk may come to -----

/// The names the tasks send the walk on to, one task after the other.
pub open spec fn names_in_tasks(ts: TasksView, force: bool) -> Seq<Seq<char>>
    decreases ts.len(),
{
    if ts.len() == 0 {
        Seq::empty()
    } else {
        names_in_tasks(ts.drop_last(), force) + next_names(ts.last().1, force)
    }
}

/// The names the tasks of the child projects send the walk on to.
pub open spec fn names_in_children(cs: ChildrenView, force: bool) -> Seq<Seq<char>>
    decreases cs.len(),
{
    if cs.len() == 0 {
        Seq::empty()
    } else {
        names_in_children(cs.drop_last(), force) + names_in_tasks(cs.last().1.tasks, force)
    }
}

/// Every name the walk from `targets` may come to: a target, or a name a task sends it on to.
pub open spec fn mentioned(root: ProjectConfigView, children: ChildrenView, force: bool, targets: Seq<Seq<char>>) -> Seq<
    Seq<char>,
> {
    targets + names_in_tasks(root.tasks, force) + names_in_children(children, force)
}

proof fn lemma_in_tasks(ts: TasksView, i: int, force: bool, n: Seq<char>)
    requires
        0 <= i < ts.len(),
        next_names(ts[i].1, force).contains(n),
    ensures
        names_in_tasks(ts, force).contains(n),
    decreases ts.len(),
{
    let a = names_in_tasks(ts.drop_last(), force);
    let b = next_names(ts.last().1, force);
    if i == ts.len() - 1 {
        let j = choose|j: int| 0 <= j < b.len() && b[j] == n;
        assert((a + b)[a.len() + j] == n);
    } else {
        assert(ts.drop_last()[i] == ts[i]);
        lemma_in_tasks(ts.drop_last(), i, force, n);
        let j = choose|j: int| 0 <= j < a.len() && a[j] == n;
        assert((a + b)[j] == n);
    }
}

proof fn lemma_in_children(cs: ChildrenView, i: int, force: bool, n: Seq<char>)
    requires
        0 <= i < cs.len(),
        names_in_tasks(cs[i].1.tasks, force).contains(n),
    ensures
        names_in_children(cs, force).contains(n),
    decreases cs.len(),
{
    let a = names_in_children(cs.drop_last(), force);
    let b = names_in_tasks(cs.last().1.tasks, force);
    if i == cs.len() - 1 {
        let j = choose|j: int| 0 <= j < b.len() && b[j] == n;
        assert((a + b)[a.len() + j] == n);
    } else {
        assert(cs.drop_last()[i] == cs[i]);
        lemma_in_children(cs.drop_last(), i, force, n);
        let j = choose|j: int| 0 <= j < a.len() && a[j] == n;
        assert((a + b)[j] == n);
    }
}

proof fn lemma_next_mentioned(
    root: ProjectConfigView,
    children: ChildrenView,
    force: bool,
    targets: Seq<Seq<char>>,
    u: Seq<char>,
    n: Seq<char>,
)
    requires
        walk_step(root, children, force, u, n),
    ensures
        mentioned(root, children, force, targets).contains(n),
{
    let (p, t) = spec_split_name(u);
    let a = targets;
    let b = names_in_tasks(root.tasks, force);
    let c = names_in_children(children, force);
    if p is Some && p->0.len() > 0 {
        lemma_first_key_exists(children, p->0);
        let ci = choose|i: int| first_key(children, p->0, i);
        lemma_first_key_exists(children[ci].1.tasks, t);
        let ti = choose|i: int| first_key(children[ci].1.tasks, t, i);
        lemma_in_tasks(children[ci].1.tasks, ti, force, n);
        lemma_in_children(children, ci, force, n);
        let j = choose|j: int| 0 <= j < c.len() && c[j] == n;
        assert((a + b + c)[a.len() + b.len() + j] == n);
    } else {
        lemma_first_key_exists(root.tasks, t);
        let ti = choose|i: int| first_key(root.tasks, t, i);
        lemma_in_tasks(root.tasks, ti, force, n);
        let j = choose|j: int| 0 <= j < b.len() && b[j] == n;
        assert((a + b + c)[a.len() + j] == n);
    }
}

proof fn lemma_target_mentioned(root: ProjectConfigView, children: ChildrenView, force: bool, targets: Seq<Seq<char>>, t: Seq<char>)
    requires
        targets.contains(t),
    ensures
        mentioned(root, children, force, targets).contains(t),
{
    let j = choose|j: int| 0 <= j < targets.len() && targets[j] == t;
    let b = names_in_tasks(root.tasks, force);
    let c = names_in_children(children, force);
    assert((targets + b + c)[j] == t);
}

pub(crate) proof fn lemma_distinct_bound(vis: Seq<Seq<char>>, m: Seq<Seq<char>>)
    requires
        vis.no_duplicates(),
        forall|v: Seq<char>| vis.contains(v) ==> m.contains(v),
    ensures
        vis.len() <= m.len(),
{
    broadcast use vstd::seq_lib::seq_to_set_is_finite;

    vis.unique_seq_to_set();
    m.lemma_cardinality_of_set();
    assert(vis.to_set().subset_of(m.to_set()));
    vstd::set_lib::lemma_len_subset(vis.to_set(), m.to_set());
}

// ----- Finalizers -----

/// The configurations after the tasks `post` were made to finalize the tasks `u`, for each
/// pair `(post, u)` in order.
pub open spec fn apply_all(
    root: ProjectConfigView,
    children: ChildrenView,
    pairs: Seq<(Seq<char>, Seq<char>)>,
) -> (ProjectConfigView, ChildrenView)
    decreases pairs.len(),
{
    if pairs.len() == 0 {
        (root, children)
    } else {
        let (r1, c1) = apply_all(root, children, pairs.drop_last());
        match spec_add_finalize(r1, c1, pairs.last().0, pairs.last().1) {
            Some(x) => x,
            None => (r1, c1),
        }
    }
}

/// Whether `f` is a finalizer of the task `u` the walk comes to.
pub open spec fn finalize_pair(
    root: ProjectConfigView,
    children: ChildrenView,
    force: bool,
    targets: Seq<Seq<char>>,
    f: Seq<char>,
    u: Seq<char>,
) -> bool {
    &&& walk_reaches(root, children, force, targets, u)
    &&& find_task(root, children, u) is Some
    &&& finalizer_names(find_task(root, children, u)->0).contains(f)
}

pub(crate) fn holds(v: &Vec<String>, s: &String) -> (r: bool)
    ensures
        r == v.deep_view().contains(s@),
{
    let mut i: usize = 0;
    while i < v.len()
        invariant
            i <= v.len(),
            forall|j: int| 0 <= j < i ==> v.deep_view()[j] != s@,
        decreases v.len() - i,
    {
        if same_text(v[i].as_str(), s.as_str()) {
            assert(v.deep_view()[i as int] == s@);
            return true;
        }
        i = i + 1;
    }
    false
}

fn names_of(t: &TaskConfig, force: bool) -> (r: (Vec<String>, Vec<String>))
    ensures
        r.0.deep_view() + r.1.deep_view() == next_names(t.deep_view(), force),
        r.1.deep_view() == finalizer_names(t.deep_view()),
{
    let mut deps: Vec<String> = Vec::new();
    if !force {
        let mut i: usize = 0;
        while i < t.depends_on.len()
            invariant
                i <= t.depends_on.len(),
                deps.deep_view() =~= t.depends_on.deep_view().take(i as int).map_values(
                    |d: DependsOnConfigView| d.task(),
                ),
            decreases t.depends_on.len() - i,
        {
            let ghost before = deps.deep_view();
            deps.push(String::from_str(t.depends_on[i].task()));
            assert(deps.deep_view() =~= before.push(t.depends_on.deep_view()[i as int].task()));
            assert(t.depends_on.deep_view().take(i + 1) =~= t.depends_on.deep_view().take(i as int).push(
                t.depends_on.deep_view()[i as int],
            ));
            i = i + 1;
        }
        assert(t.depends_on.deep_view().take(t.depends_on.len() as int) =~= t.depends_on.deep_view());
    }
    let mut fins: Vec<String> = Vec::new();
    let mut i: usize = 0;
    while i < t.finalized_by.len()
        invariant
            i <= t.finalized_by.len(),
            fins.deep_view() =~= t.finalized_by.deep_view().take(i as int).map_values(|f: TaskRefView| f.task()),
        decreases t.finalized_by.len() - i,
    {
        let ghost before = fins.deep_view();
        fins.push(String::from_str(t.finalized_by[i].task()));
        assert(fins.deep_view() =~= before.push(t.finalized_by.deep_view()[i as int].task()));
        assert(t.finalized_by.deep_view().take(i + 1) =~= t.finalized_by.deep_view().take(i as int).push(
            t.finalized_by.deep_view()[i as int],
        ));
        i = i + 1;
    }
    assert(t.finalized_by.deep_view().take(t.finalized_by.len() as int) =~= t.finalized_by.deep_view());
    if force {
        assert(deps.deep_view() =~= Seq::<Seq<char>>::empty());
    }
    (deps, fins)
}

proof fn lemma_apply_all_concat(
    root: ProjectConfigView,
    children: ChildrenView,
    a: Seq<(Seq<char>, Seq<char>)>,
    b: Seq<(Seq<char>, Seq<char>)>,
)
    ensures
        apply_all(root, children, a + b) == apply_all(apply_all(root, children, a).0, apply_all(root, children, a).1, b),
    decreases b.len(),
{
    if b.len() == 0 {
        assert(a + b =~= a);
    } else {
        assert((a + b).drop_last() =~= a + b.drop_last());
        assert((a + b).last() == b.last());
        lemma_apply_all_concat(root, children, a, b.drop_last());
    }
}

/// Notes the finalizers `fins` that are not targets, each once.
/// The finalizers noted so far `fd`, with those of `fs` noted in order: each one that is not a
/// target and is not noted yet.
pub open spec fn noted(fd: Seq<Seq<char>>, fs: Seq<Seq<char>>, tv: Seq<Seq<char>>) -> Seq<Seq<char>>
    decreases fs.len(),
{
    if fs.len() == 0 {
        fd
    } else {
        let a = noted(fd, fs.drop_last(), tv);
        if !tv.contains(fs.last()) && !a.contains(fs.last()) {
            a.push(fs.last())
        } else {
            a
        }
    }
}

fn note_finalizers(finalizer_tasks: &mut Vec<String>, fins: &Vec<String>, targets: &Vec<String>)
    requires
        old(finalizer_tasks).deep_view().no_duplicates(),
    ensures
        final(finalizer_tasks).deep_view().no_duplicates(),
        forall|f: Seq<char>|
            #![trigger final(finalizer_tasks).deep_view().contains(f)]
            final(finalizer_tasks).deep_view().contains(f) <==> old(finalizer_tasks).deep_view().contains(f) || (
            fins.deep_view().contains(f) && !targets.deep_view().contains(f)),
        final(finalizer_tasks).deep_view() == noted(old(finalizer_tasks).deep_view(), fins.deep_view(), targets.deep_view()),
{
    let ghost start = finalizer_tasks.deep_view();
    let mut k: usize = 0;
    while k < fins.len()
        invariant
            k <= fins.len(),
            finalizer_tasks.deep_view() == noted(start, fins.deep_view().take(k as int), targets.deep_view()),
            finalizer_tasks.deep_view().no_duplicates(),
            forall|f: Seq<char>|
                #![trigger finalizer_tasks.deep_view().contains(f)]
                finalizer_tasks.deep_view().contains(f) <==> start.contains(f) || (fins.deep_view().take(
                    k as int,
                ).contains(f) && !targets.deep_view().contains(f)),
        decreases fins.len() - k,
    {
        let post = &fins[k];
        let ghost before = finalizer_tasks.deep_view();
        let is_target = holds(targets, post);
        let noted = holds(finalizer_tasks, post);
        if !is_target && !noted {
            finalizer_tasks.push(post.clone());
            assert(finalizer_tasks.deep_view() =~= before.push(post@));
            proof {
                assert forall|i: int, j: int|
                    0 <= i < j < finalizer_tasks.deep_view().len() implies finalizer_tasks.deep_view()[i]
                    != finalizer_tasks.deep_view()[j] by {
                    if j == before.len() {
                        assert(before[i] != post@);
                    }
                }
            }
        }
        proof {
            let t = fins.deep_view().take(k + 1);
            let pre = fins.deep_view().take(k as int);
            assert(t =~= pre.push(post@));
            assert(t.drop_last() =~= pre);
            let now = finalizer_tasks.deep_view();
            assert(forall|f: Seq<char>| #[trigger] t.contains(f) <==> (pre.contains(f) || f == post@)) by {
                assert forall|f: Seq<char>| #[trigger] t.contains(f) implies (pre.contains(f) || f == post@) by {
                    let j = choose|j: int| 0 <= j < t.len() && t[j] == f;
                    if j < k {
                        assert(pre[j] == f);
                    }
                }
                assert forall|f: Seq<char>| pre.contains(f) implies #[trigger] t.contains(f) by {
                    let j = choose|j: int| 0 <= j < pre.len() && pre[j] == f;
                    assert(t[j] == f);
                }
                assert(t[k as int] == post@);
            }
            assert(forall|f: Seq<char>| #[trigger] now.contains(f) <==> (before.contains(f) || (!is_target && !noted && f == post@))) by {
                if !is_target && !noted {
                    assert forall|f: Seq<char>| #[trigger] now.contains(f) implies (before.contains(f) || f == post@) by {
                        let j = choose|j: int| 0 <= j < now.len() && now[j] == f;
                        if j < before.len() {
                            assert(before[j] == f);
                        }
                    }
                    assert forall|f: Seq<char>| before.contains(f) implies #[trigger] now.contains(f) by {
                        let j = choose|j: int| 0 <= j < before.len() && before[j] == f;
                        assert(now[j] == f);
                    }
                    assert(now[before.len() as int] == post@);
                }
            }
        }
        k = k + 1;
    }
    assert(fins.deep_view().take(fins.len() as int) =~= fins.deep_view());
}

/// Makes each of the finalizers `fins` finalize the task `u`, in order; see
/// [`spec_add_finalize`]. A finalizer that names no task is refused.
fn finalize_all(
    root: &mut ProjectConfig,
    children: &mut Vec<(String, ProjectConfig)>,
    fins: &Vec<String>,
    u: &String,
    Ghost(r0): Ghost<ProjectConfigView>,
    Ghost(c0): Ghost<ChildrenView>,
) -> (r: Result<(), WorkspaceError>)
    requires
        same_project(r0, old(root).deep_view()),
        same_children(c0, old(children).deep_view()),
    ensures
        r is Ok ==> (final(root).deep_view(), final(children).deep_view()) == apply_all(
            old(root).deep_view(),
            old(children).deep_view(),
            fins.deep_view().map_values(|f: Seq<char>| (f, u@)),
        ),
        r is Ok ==> same_project(r0, final(root).deep_view()) && same_children(c0, final(children).deep_view()),
        r is Ok <==> forall|k: int| 0 <= k < fins.len() ==> #[trigger] find_task(r0, c0, fins.deep_view()[k]) is Some,
        r matches Err(e) ==> !(e is NoSuchTask),
{
    let ghost r1 = root.deep_view();
    let ghost c1 = children.deep_view();
    let mut k: usize = 0;
    while k < fins.len()
        invariant
            k <= fins.len(),
            r1 == old(root).deep_view(),
            c1 == old(children).deep_view(),
            same_project(r0, root.deep_view()),
            same_children(c0, children.deep_view()),
            (root.deep_view(), children.deep_view()) == apply_all(
                r1,
                c1,
                fins.deep_view().take(k as int).map_values(|f: Seq<char>| (f, u@)),
            ),
            forall|j: int| 0 <= j < k ==> #[trigger] find_task(r0, c0, fins.deep_view()[j]) is Some,
        decreases fins.len() - k,
    {
        let ghost rv = root.deep_view();
        let ghost cv = children.deep_view();
        proof {
            lemma_same_find(r0, c0, rv, cv, fins.deep_view()[k as int]);
            lemma_add_keeps_same(r0, c0, rv, cv, fins.deep_view()[k as int], u@);
        }
        match add_finalize(root, children, fins[k].as_str(), u) {
            Ok(()) => {},
            Err(e) => {
                return Err(e);
            },
        }
        proof {
            let ps = fins.deep_view().take(k + 1).map_values(|f: Seq<char>| (f, u@));
            assert(ps.drop_last() =~= fins.deep_view().take(k as int).map_values(|f: Seq<char>| (f, u@)));
            assert(ps.last() == (fins.deep_view()[k as int], u@));
        }
        k = k + 1;
    }
    assert(fins.deep_view().take(fins.len() as int) =~= fins.deep_view());
    Ok(())
}

/// What holds at each turn of the walk from the targets `tv`: `vd` the names visited, `qd` the
/// names to visit, `pairs` the finalizers applied so far and `fd` the finalizers noted.
pub open spec fn walk_inv(
    r0: ProjectConfigView,
    c0: ChildrenView,
    force: bool,
    tv: Seq<Seq<char>>,
    rv: ProjectConfigView,
    cv: ChildrenView,
    vd: Seq<Seq<char>>,
    qd: Seq<Seq<char>>,
    pairs: Seq<(Seq<char>, Seq<char>)>,
    fd: Seq<Seq<char>>,
) -> bool {
    let m = mentioned(r0, c0, force, tv);
    &&& same_project(r0, rv)
    &&& same_children(c0, cv)
    &&& apply_all(r0, c0, pairs) == (rv, cv)
    &&& vd.no_duplicates()
    &&& forall|v: Seq<char>|
        #![trigger vd.contains(v)]
        vd.contains(v) ==> find_task(r0, c0, v) is Some && walk_reaches(r0, c0, force, tv, v) && m.contains(v)
    &&& forall|q: Seq<char>|
        #![trigger qd.contains(q)]
        qd.contains(q) ==> walk_reaches(r0, c0, force, tv, q) && m.contains(q)
    &&& forall|t: Seq<char>| tv.contains(t) ==> vd.contains(t) || qd.contains(t)
    &&& forall|u: Seq<char>, v: Seq<char>|
        vd.contains(u) && #[trigger] walk_step(r0, c0, force, u, v) ==> vd.contains(v) || qd.contains(v)
    &&& forall|f: Seq<char>, u: Seq<char>|
        #![trigger pairs.contains((f, u))]
        pairs.contains((f, u)) <==> vd.contains(u) && finalizer_names(find_task(r0, c0, u)->0).contains(f)
    &&& fd.no_duplicates()
    &&& forall|f: Seq<char>|
        #![trigger fd.contains(f)]
        fd.contains(f) <==> (!tv.contains(f) && exists|u: Seq<char>|
            vd.contains(u) && #[trigger] finalizer_names(find_task(r0, c0, u)->0).contains(f))
}

pub(crate) proof fn lemma_push_contains(a: Seq<Seq<char>>, x: Seq<char>)
    ensures
        forall|y: Seq<char>| #[trigger] a.push(x).contains(y) <==> (a.contains(y) || y == x),
{
    assert forall|y: Seq<char>| #[trigger] a.push(x).contains(y) <==> (a.contains(y) || y == x) by {
        if a.push(x).contains(y) {
            let j = choose|j: int| 0 <= j < a.push(x).len() && a.push(x)[j] == y;
            if j < a.len() {
                assert(a[j] == y);
            }
        }
        if a.contains(y) {
            let j = choose|j: int| 0 <= j < a.len() && a[j] == y;
            assert(a.push(x)[j] == y);
        }
        assert(a.push(x)[a.len() as int] == x);
    }
}

pub(crate) proof fn lemma_concat_contains(a: Seq<Seq<char>>, b: Seq<Seq<char>>)
    ensures
        forall|y: Seq<char>| #[trigger] (a + b).contains(y) <==> (a.contains(y) || b.contains(y)),
{
    assert forall|y: Seq<char>| #[trigger] (a + b).contains(y) <==> (a.contains(y) || b.contains(y)) by {
        if (a + b).contains(y) {
            let j = choose|j: int| 0 <= j < (a + b).len() && (a + b)[j] == y;
            if j < a.len() {
                assert(a[j] == y);
            } else {
                assert(b[j - a.len()] == y);
            }
        }
        if a.contains(y) {
            let j = choose|j: int| 0 <= j < a.len() && a[j] == y;
            assert((a + b)[j] == y);
        }
        if b.contains(y) {
            let j = choose|j: int| 0 <= j < b.len() && b[j] == y;
            assert((a + b)[a.len() + j] == y);
        }
    }
}

/// One turn of the walk: takes the last name to visit and, unless it was visited, visits it.
/// Where the walk of [`apply_finalized_by`] stands: the names still to visit, the last on top,
/// the tasks visited, the finalizers noted, and the pairs of a finalizer and the task it was
/// found at, in the order they were found.
pub struct WalkState {
    pub stack: Seq<Seq<char>>,
    pub visited: Seq<Seq<char>>,
    pub fins: Seq<Seq<char>>,
    pub pairs: Seq<(Seq<char>, Seq<char>)>,
}

/// One turn of the walk: the name on top is taken off; a task not visited yet is visited, the
/// names it leads to are put on top, its dependencies first, and its finalizers are noted and
/// paired with it.
pub open spec fn walk_next(r0: ProjectConfigView, c0: ChildrenView, force: bool, tv: Seq<Seq<char>>, w: WalkState) -> WalkState {
    if w.stack.len() == 0 {
        w
    } else {
        let n = w.stack.last();
        let rest = w.stack.drop_last();
        if w.visited.contains(n) {
            WalkState { stack: rest, ..w }
        } else {
            match find_task(r0, c0, n) {
                Some(t) => WalkState {
                    stack: rest + next_names(t, force),
                    visited: w.visited.push(n),
                    fins: noted(w.fins, finalizer_names(t), tv),
                    pairs: w.pairs + finalizer_names(t).map_values(|f: Seq<char>| (f, n)),
                },
                None => WalkState { stack: rest, ..w },
            }
        }
    }
}

/// The walk after `k` turns from the targets `tv`.
pub open spec fn walk_after(r0: ProjectConfigView, c0: ChildrenView, force: bool, tv: Seq<Seq<char>>, k: nat) -> WalkState
    decreases k,
{
    if k == 0 {
        WalkState { stack: tv, visited: Seq::empty(), fins: Seq::empty(), pairs: Seq::empty() }
    } else {
        walk_next(r0, c0, force, tv, walk_after(r0, c0, force, tv, (k - 1) as nat))
    }
}

fn walk_turn(
    root: &mut ProjectConfig,
    children: &mut Vec<(String, ProjectConfig)>,
    visited: &mut Vec<String>,
    queue: &mut Vec<String>,
    finalizer_tasks: &mut Vec<String>,
    target_tasks: &Vec<String>,
    force: bool,
    Ghost(r0): Ghost<ProjectConfigView>,
    Ghost(c0): Ghost<ChildrenView>,
    Ghost(pairs): Ghost<Seq<(Seq<char>, Seq<char>)>>,
) -> (r: (Result<(), WorkspaceError>, Ghost<Seq<(Seq<char>, Seq<char>)>>))
    requires
        old(queue).len() > 0,
        walk_inv(
            r0,
            c0,
            force,
            target_tasks.deep_view(),
            old(root).deep_view(),
            old(children).deep_view(),
            old(visited).deep_view(),
            old(queue).deep_view(),
            pairs,
            old(finalizer_tasks).deep_view(),
        ),
    ensures
        r.0 is Ok ==> walk_inv(
            r0,
            c0,
            force,
            target_tasks.deep_view(),
            final(root).deep_view(),
            final(children).deep_view(),
            final(visited).deep_view(),
            final(queue).deep_view(),
            r.1@,
            final(finalizer_tasks).deep_view(),
        ),
        r.0 is Ok ==> (final(visited).len() == old(visited).len() + 1 || (final(visited).len() == old(visited).len()
            && final(queue).len() < old(queue).len())),
        r.0 is Ok ==> final(visited).len() <= mentioned(r0, c0, force, target_tasks.deep_view()).len(),
        r.0 is Ok ==> walk_next(
            r0,
            c0,
            force,
            target_tasks.deep_view(),
            WalkState {
                stack: old(queue).deep_view(),
                visited: old(visited).deep_view(),
                fins: old(finalizer_tasks).deep_view(),
                pairs,
            },
        ) == (WalkState {
            stack: final(queue).deep_view(),
            visited: final(visited).deep_view(),
            fins: final(finalizer_tasks).deep_view(),
            pairs: r.1@,
        }),
        r.0 is Err ==> exists|x: Seq<char>|
            walk_reaches(r0, c0, force, target_tasks.deep_view(), x) && #[trigger] find_task(r0, c0, x) is None,
        r.0 matches Err(e) ==> !(e is NoSuchTask),
{
    let ghost tv = target_tasks.deep_view();
    let ghost m = mentioned(r0, c0, force, tv);
    let ghost q_before = queue.deep_view();
    let name = queue.pop().unwrap();
    proof {
        assert(q_before =~= queue.deep_view().push(name@));
        lemma_push_contains(queue.deep_view(), name@);
        lemma_distinct_bound(visited.deep_view(), m);
    }
    if holds(visited, &name) {
        proof {
            let vd = visited.deep_view();
            let qd = queue.deep_view();
            assert forall|q: Seq<char>| #[trigger] qd.contains(q) implies walk_reaches(r0, c0, force, tv, q) && m.contains(q) by {
                assert(q_before.contains(q));
            }
            assert forall|t: Seq<char>| tv.contains(t) implies vd.contains(t) || qd.contains(t) by {
                assert(vd.contains(t) || q_before.contains(t));
            }
            assert forall|u: Seq<char>, v: Seq<char>| vd.contains(u) && #[trigger] walk_step(r0, c0, force, u, v) implies vd.contains(v) || qd.contains(v) by {
                assert(vd.contains(v) || q_before.contains(v));
            }
            assert(q_before.last() == name@);
            assert(q_before.drop_last() =~= qd);
        }
        return (Ok(()), Ghost(pairs));
    }
    proof {
        assert(q_before.contains(name@));
        lemma_same_walk(r0, c0, root.deep_view(), children.deep_view(), force, name@);
        lemma_same_find(r0, c0, root.deep_view(), children.deep_view(), name@);
    }
    let (deps, fins) = match task_config(root, children, name.as_str()) {
        Ok(t) => names_of(t, force),
        Err(e) => {
            proof {
                assert(find_task(r0, c0, name@) is None);
                assert(walk_reaches(r0, c0, force, tv, name@));
            }
            return (Err(e), Ghost(pairs));
        },
    };
    let ghost vis_before = visited.deep_view();
    let ghost tname = find_task(r0, c0, name@)->0;
    let ghost nn = deps.deep_view() + fins.deep_view();
    proof {
        lemma_push_contains(vis_before, name@);
        assert(vis_before.push(name@).no_duplicates()) by {
            assert forall|i: int, j: int| 0 <= i < j < vis_before.push(name@).len() implies vis_before.push(name@)[i]
                != vis_before.push(name@)[j] by {
                if j == vis_before.len() {
                    assert(vis_before[i] != name@);
                }
            }
        }
        lemma_distinct_bound(vis_before.push(name@), m);
        assert(fins.deep_view() == finalizer_names(tname));
    }
    visited.push(name.clone());
    let ghost q_popped = queue.deep_view();
    append_copies(queue, &deps);
    append_copies(queue, &fins);
    proof {
        assert(queue.deep_view() =~= q_popped + nn);
        lemma_concat_contains(q_popped, nn);
        assert forall|x: Seq<char>| nn.contains(x) implies walk_step(r0, c0, force, name@, x) by {}
        assert forall|x: Seq<char>| #[trigger] nn.contains(x) implies walk_reaches(r0, c0, force, tv, x) && m.contains(x) by {
            lemma_reach_step(r0, c0, force, tv, name@, x);
            lemma_next_mentioned(r0, c0, force, tv, name@, x);
        }
    }
    let ghost fd_before = finalizer_tasks.deep_view();
    note_finalizers(finalizer_tasks, &fins, target_tasks);
    match finalize_all(root, children, &fins, &name, Ghost(r0), Ghost(c0)) {
        Ok(()) => {},
        Err(e) => {
            proof {
                let k = choose|k: int| 0 <= k < fins.len() && !(#[trigger] find_task(r0, c0, fins.deep_view()[k]) is Some);
                let post = fins.deep_view()[k];
                lemma_concat_contains(deps.deep_view(), fins.deep_view());
                assert(fins.deep_view().contains(post));
                assert(walk_step(r0, c0, force, name@, post));
                lemma_reach_step(r0, c0, force, tv, name@, post);
            }
            return (Err(e), Ghost(pairs));
        },
    }
    let ghost new_pairs = fins.deep_view().map_values(|f: Seq<char>| (f, name@));
    let ghost all_pairs = pairs + new_pairs;
    proof {
        lemma_apply_all_concat(r0, c0, pairs, new_pairs);
        let vd = visited.deep_view();
        assert(vd =~= vis_before.push(name@));
        assert forall|f: Seq<char>, u: Seq<char>|
            #![trigger all_pairs.contains((f, u))]
            all_pairs.contains((f, u)) <==> vd.contains(u) && finalizer_names(find_task(r0, c0, u)->0).contains(f) by {
            if all_pairs.contains((f, u)) {
                let j = choose|j: int| 0 <= j < all_pairs.len() && all_pairs[j] == (f, u);
                if j < pairs.len() {
                    assert(pairs[j] == (f, u));
                } else {
                    let jj = j - pairs.len();
                    assert(new_pairs[jj] == (f, u));
                    assert(fins.deep_view()[jj] == f);
                }
            }
            if pairs.contains((f, u)) {
                let j = choose|j: int| 0 <= j < pairs.len() && pairs[j] == (f, u);
                assert(all_pairs[j] == (f, u));
            }
            if u == name@ && finalizer_names(tname).contains(f) {
                let jj = choose|jj: int| 0 <= jj < fins.deep_view().len() && fins.deep_view()[jj] == f;
                assert(all_pairs[pairs.len() + jj] == (f, u));
            }
        }
        assert forall|f: Seq<char>|
            #![trigger finalizer_tasks.deep_view().contains(f)]
            finalizer_tasks.deep_view().contains(f) <==> (!tv.contains(f) && exists|u: Seq<char>|
                vd.contains(u) && #[trigger] finalizer_names(find_task(r0, c0, u)->0).contains(f)) by {
            if fins.deep_view().contains(f) {
                assert(vd.contains(name@) && finalizer_names(find_task(r0, c0, name@)->0).contains(f));
            }
            if fd_before.contains(f) {
                let u = choose|u: Seq<char>| vis_before.contains(u) && #[trigger] finalizer_names(find_task(r0, c0, u)->0).contains(f);
                assert(vd.contains(u));
            }
        }
        let qd = queue.deep_view();
        let fd = finalizer_tasks.deep_view();
        assert(same_project(r0, root.deep_view()));
        assert(same_children(c0, children.deep_view()));
        assert(apply_all(r0, c0, all_pairs) == (root.deep_view(), children.deep_view()));
        assert(vd.no_duplicates());
        assert forall|v: Seq<char>| #[trigger] vd.contains(v) implies find_task(r0, c0, v) is Some && walk_reaches(r0, c0, force, tv, v) && m.contains(v) by {
            if v != name@ {
                assert(vis_before.contains(v));
            }
        }
        assert forall|q: Seq<char>| #[trigger] qd.contains(q) implies walk_reaches(r0, c0, force, tv, q) && m.contains(q) by {
            if q_popped.contains(q) {
                assert(q_before.contains(q));
            } else {
                assert(nn.contains(q));
            }
        }
        assert forall|t: Seq<char>| tv.contains(t) implies vd.contains(t) || qd.contains(t) by {
            assert(vis_before.contains(t) || q_before.contains(t));
            if q_before.contains(t) && t != name@ {
                assert(q_popped.contains(t));
            }
        }
        assert forall|u: Seq<char>, v: Seq<char>| vd.contains(u) && #[trigger] walk_step(r0, c0, force, u, v) implies vd.contains(v) || qd.contains(v) by {
            if u == name@ {
                assert(nn.contains(v));
            } else {
                assert(vis_before.contains(u));
                assert(vis_before.contains(v) || q_before.contains(v));
                if q_before.contains(v) && v != name@ {
                    assert(q_popped.contains(v));
                }
            }
        }
        assert(fd.no_duplicates());
    }
    proof {
        let w = WalkState { stack: q_before, visited: vis_before, fins: fd_before, pairs };
        assert(q_before.last() == name@);
        assert(q_before.drop_last() =~= q_popped);
        assert(!vis_before.contains(name@));
        assert(find_task(r0, c0, name@) == Some(tname));
        assert(nn == next_names(tname, force));
        assert(new_pairs =~= finalizer_names(tname).map_values(|f: Seq<char>| (f, name@)));
        assert(walk_next(r0, c0, force, tv, w) == (WalkState {
            stack: q_popped + nn,
            visited: vis_before.push(name@),
            fins: noted(fd_before, fins.deep_view(), tv),
            pairs: all_pairs,
        }));
        assert(queue.deep_view() == q_popped + nn);
        assert(visited.deep_view() =~= vis_before.push(name@));
    }
    (Ok(()), Ghost(all_pairs))
}

proof fn lemma_walk_done(
    r0: ProjectConfigView,
    c0: ChildrenView,
    force: bool,
    tv: Seq<Seq<char>>,
    rv: ProjectConfigView,
    cv: ChildrenView,
    vd: Seq<Seq<char>>,
    qd: Seq<Seq<char>>,
    pairs: Seq<(Seq<char>, Seq<char>)>,
    fd: Seq<Seq<char>>,
)
    requires
        walk_inv(r0, c0, force, tv, rv, cv, vd, qd, pairs, fd),
        qd.len() == 0,
    ensures
        !exists|x: Seq<char>| walk_reaches(r0, c0, force, tv, x) && #[trigger] find_task(r0, c0, x) is None,
        forall|f: Seq<char>|
            #![trigger fd.contains(f)]
            fd.contains(f) <==> (!tv.contains(f) && exists|u: Seq<char>| finalize_pair(r0, c0, force, tv, f, u)),
        forall|f: Seq<char>, u: Seq<char>|
            #![trigger pairs.contains((f, u))]
            pairs.contains((f, u)) <==> finalize_pair(r0, c0, force, tv, f, u),
{
    assert forall|x: Seq<char>| walk_reaches(r0, c0, force, tv, x) implies vd.contains(x) by {
        lemma_closed_holds_reached(r0, c0, force, tv, vd, x);
    }
    assert forall|x: Seq<char>| walk_reaches(r0, c0, force, tv, x) implies !(#[trigger] find_task(r0, c0, x) is None) by {
        assert(vd.contains(x));
    }
    assert forall|f: Seq<char>|
        #![trigger fd.contains(f)]
        fd.contains(f) <==> (!tv.contains(f) && exists|u: Seq<char>| finalize_pair(r0, c0, force, tv, f, u)) by {
        if fd.contains(f) {
            let u = choose|u: Seq<char>| vd.contains(u) && #[trigger] finalizer_names(find_task(r0, c0, u)->0).contains(f);
            assert(finalize_pair(r0, c0, force, tv, f, u));
        }
        if exists|u: Seq<char>| finalize_pair(r0, c0, force, tv, f, u) {
            let u = choose|u: Seq<char>| finalize_pair(r0, c0, force, tv, f, u);
            assert(vd.contains(u));
        }
    }
    assert forall|f: Seq<char>, u: Seq<char>|
        #![trigger pairs.contains((f, u))]
        pairs.contains((f, u)) <==> finalize_pair(r0, c0, force, tv, f, u) by {
        if finalize_pair(r0, c0, force, tv, f, u) {
            assert(vd.contains(u));
        }
    }
}

/// Whether the task at place `ti` of the project at place `pi` (the root for -1, else a child)
/// finalizes `u`.
pub open spec fn finalizes_at(root: ProjectConfigView, children: ChildrenView, pi: int, ti: int, u: Seq<char>) -> bool {
    if pi < 0 {
        root.tasks[ti].1.finalizes.contains(u)
    } else {
        children[pi].1.tasks[ti].1.finalizes.contains(u)
    }
}

proof fn lemma_add_keeps_other(root: ProjectConfigView, children: ChildrenView, post: Seq<char>, w: Seq<char>, u: Seq<char>, pi: int, ti: int)
    requires
        w != u,
        spec_add_finalize(root, children, post, w) is Some,
        pi < 0 ==> 0 <= ti < root.tasks.len(),
        pi >= 0 ==> pi < children.len() && 0 <= ti < children[pi].1.tasks.len(),
    ensures
        ({
            let (r2, c2) = spec_add_finalize(root, children, post, w)->0;
            &&& r2.tasks.len() == root.tasks.len()
            &&& c2.len() == children.len()
            &&& pi >= 0 ==> c2[pi].1.tasks.len() == children[pi].1.tasks.len()
            &&& finalizes_at(r2, c2, pi, ti, u) == finalizes_at(root, children, pi, ti, u)
        }),
{
    let (p, t) = spec_split_name(post);
    let (r2, c2) = spec_add_finalize(root, children, post, w)->0;
    if p is Some && p->0.len() > 0 {
        lemma_first_key_exists(children, p->0);
        let ci = choose|i: int| first_key(children, p->0, i);
        lemma_first_key_exists(children[ci].1.tasks, t);
        let k = choose|i: int| first_key(children[ci].1.tasks, t, i);
        if pi == ci && ti == k {
            let x = children[ci].1.tasks[k].1;
            if !waits_on(x, w) {
                assert(x.finalizes.push(w).contains(u) == x.finalizes.contains(u)) by {
                    lemma_push_contains(x.finalizes, w);
                }
            }
        }
    } else {
        lemma_first_key_exists(root.tasks, t);
        let k = choose|i: int| first_key(root.tasks, t, i);
        if pi < 0 && ti == k {
            let x = root.tasks[k].1;
            if !waits_on(x, w) {
                assert(x.finalizes.push(w).contains(u) == x.finalizes.contains(u)) by {
                    lemma_push_contains(x.finalizes, w);
                }
            }
        }
    }
}

/// A task comes to finalize `u` only from a finalizer found at `u`: when no pair names `u`, the
/// tasks finalize `u` after the pairs are applied exactly when they did before. So a finalizer
/// run on its own, whose walk does not come to the task it finalizes, does not pull that task
/// into the run.
pub proof fn law_finalizes_only_what_the_walk_found(
    root: ProjectConfigView,
    children: ChildrenView,
    pairs: Seq<(Seq<char>, Seq<char>)>,
    u: Seq<char>,
    pi: int,
    ti: int,
)
    requires
        forall|k: int| 0 <= k < pairs.len() ==> (#[trigger] pairs[k]).1 != u,
        pi < 0 ==> 0 <= ti < root.tasks.len(),
        pi >= 0 ==> pi < children.len() && 0 <= ti < children[pi].1.tasks.len(),
    ensures
        apply_all(root, children, pairs).0.tasks.len() == root.tasks.len(),
        apply_all(root, children, pairs).1.len() == children.len(),
        pi >= 0 ==> apply_all(root, children, pairs).1[pi].1.tasks.len() == children[pi].1.tasks.len(),
        finalizes_at(apply_all(root, children, pairs).0, apply_all(root, children, pairs).1, pi, ti, u) == finalizes_at(
            root,
            children,
            pi,
            ti,
            u,
        ),
    decreases pairs.len(),
{
    if pairs.len() > 0 {
        let d = pairs.drop_last();
        assert forall|k: int| 0 <= k < d.len() implies (#[trigger] d[k]).1 != u by {
            assert(d[k] == pairs[k]);
        }
        law_finalizes_only_what_the_walk_found(root, children, d, u, pi, ti);
        let (r1, c1) = apply_all(root, children, d);
        let last = pairs[pairs.len() - 1];
        assert(last.1 != u);
        if spec_add_finalize(r1, c1, last.0, last.1) is Some {
            lemma_add_keeps_other(r1, c1, last.0, last.1, u, pi, ti);
        }
    }
}

/// Adds the finalizers of the tasks the run involves. The walk starts at the target tasks and
/// goes depth first, taking the name put on last: a task not visited yet leads to its
/// dependencies, unless `force` keeps them from running, and then to its finalizers. Each
/// finalizer is made to finalize the task it was found at, in the order found, unless it
/// already finalizes it or depends on it; the finalizers that are not targets come back in the
/// order found, each once. A name the walk comes to that names no task is refused. See
/// [`walk_after`].
pub fn apply_finalized_by(
    root: &mut ProjectConfig,
    children: &mut Vec<(String, ProjectConfig)>,
    target_tasks: &Vec<String>,
    force: bool,
) -> (r: Result<Vec<String>, WorkspaceError>)
    ensures
        r is Err <==> exists|x: Seq<char>|
            walk_reaches(old(root).deep_view(), old(children).deep_view(), force, target_tasks.deep_view(), x)
                && #[trigger] find_task(old(root).deep_view(), old(children).deep_view(), x) is None,
        r matches Err(e) ==> !(e is NoSuchTask),
        r matches Ok(fins) ==> fins.deep_view().no_duplicates(),
        r matches Ok(fins) ==> forall|f: Seq<char>|
            #![trigger fins.deep_view().contains(f)]
            fins.deep_view().contains(f) <==> (!target_tasks.deep_view().contains(f) && exists|u: Seq<char>|
                finalize_pair(old(root).deep_view(), old(children).deep_view(), force, target_tasks.deep_view(), f, u)),
        r is Ok ==> exists|pairs: Seq<(Seq<char>, Seq<char>)>|
            (forall|f: Seq<char>, u: Seq<char>|
                #![trigger pairs.contains((f, u))]
                pairs.contains((f, u)) <==> finalize_pair(
                    old(root).deep_view(),
                    old(children).deep_view(),
                    force,
                    target_tasks.deep_view(),
                    f,
                    u,
                )) && #[trigger] apply_all(old(root).deep_view(), old(children).deep_view(), pairs) == (
                final(root).deep_view(),
                final(children).deep_view(),
            ),
        r matches Ok(fins) ==> exists|k: nat|
            {
                let w = #[trigger] walk_after(
                    old(root).deep_view(),
                    old(children).deep_view(),
                    force,
                    target_tasks.deep_view(),
                    k,
                );
                &&& w.stack.len() == 0
                &&& fins.deep_view() == w.fins
                &&& apply_all(old(root).deep_view(), old(children).deep_view(), w.pairs) == (
                    final(root).deep_view(),
                    final(children).deep_view(),
                )
            },
{
    let ghost r0 = root.deep_view();
    let ghost c0 = children.deep_view();
    let ghost tv = target_tasks.deep_view();
    let ghost m = mentioned(r0, c0, force, tv);
    let mut finalizer_tasks: Vec<String> = Vec::new();
    let mut visited: Vec<String> = Vec::new();
    let mut queue: Vec<String> = target_tasks.duplicate();
    let ghost mut pairs: Seq<(Seq<char>, Seq<char>)> = Seq::empty();
    let ghost mut turns: nat = 0;
    proof {
        assert(queue.deep_view() == tv);
        assert(visited.deep_view() =~= Seq::<Seq<char>>::empty());
        assert(finalizer_tasks.deep_view() =~= Seq::<Seq<char>>::empty());
        assert forall|q: Seq<char>| #[trigger] queue.deep_view().contains(q) implies walk_reaches(r0, c0, force, tv, q) && m.contains(q) by {
            lemma_reach_start(r0, c0, force, tv, q);
            lemma_target_mentioned(r0, c0, force, tv, q);
        }
        assert(same_tasks(r0.tasks, r0.tasks));
        assert forall|i: int| 0 <= i < c0.len() implies #[trigger] same_project(c0[i].1, c0[i].1) by {
            assert(same_tasks(c0[i].1.tasks, c0[i].1.tasks));
        }
    }
    while queue.len() > 0
        invariant
            r0 == old(root).deep_view(),
            c0 == old(children).deep_view(),
            tv == target_tasks.deep_view(),
            m == mentioned(r0, c0, force, tv),
            visited.len() <= m.len(),
            walk_after(r0, c0, force, tv, turns) == (WalkState {
                stack: queue.deep_view(),
                visited: visited.deep_view(),
                fins: finalizer_tasks.deep_view(),
                pairs,
            }),
            walk_inv(
                r0,
                c0,
                force,
                tv,
                root.deep_view(),
                children.deep_view(),
                visited.deep_view(),
                queue.deep_view(),
                pairs,
                finalizer_tasks.deep_view(),
            ),
        decreases m.len() - visited.len(), queue.len(),
    {
        let (res, Ghost(next)) = walk_turn(
            root,
            children,
            &mut visited,
            &mut queue,
            &mut finalizer_tasks,
            target_tasks,
            force,
            Ghost(r0),
            Ghost(c0),
            Ghost(pairs),
        );
        match res {
            Ok(()) => {},
            Err(e) => {
                return Err(e);
            },
        }
        proof {
            pairs = next;
            turns = turns + 1;
        }
    }
    proof {
        assert(walk_after(r0, c0, force, tv, turns).stack.len() == 0);
        lemma_walk_done(r0, c0, force, tv, root.deep_view(), children.deep_view(), visited.deep_view(), queue.deep_view(), pairs, finalizer_tasks.deep_view());
    }
    Ok(finalizer_tasks)
}

// ----- Target tasks -----

/// The full names of the tasks named `t` in the child projects, in their order.
pub open spec fn in_children(children: ChildrenView, t: Seq<char>) -> Seq<Seq<char>>
    decreases children.len(),
{
    if children.len() == 0 {
        Seq::empty()
    } else {
        let rest = in_children(children.drop_last(), t);
        match map_get(children.last().1.tasks, t) {
            Some(tc) => rest.push(full_name_of(tc.project, tc.name)),
            None => rest,
        }
    }
}

/// The child projects that define a task named `t`, in their order.
pub open spec fn defining(children: ChildrenView, t: Seq<char>) -> ChildrenView {
    children.filter(|c: (Seq<char>, ProjectConfigView)| has_key(c.1.tasks, t))
}

/// The full name of the task named `t` of the child project `c`.
pub open spec fn child_task_name(c: (Seq<char>, ProjectConfigView), t: Seq<char>) -> Seq<char> {
    full_name_of(map_get(c.1.tasks, t)->0.project, map_get(c.1.tasks, t)->0.name)
}

/// The tasks named `t` in the child projects are those of every child project that defines
/// one, each once, in the order of the child projects.
pub proof fn law_children_tasks_are_all_that_define_it(children: ChildrenView, t: Seq<char>)
    ensures
        in_children(children, t) == defining(children, t).map_values(
            |c: (Seq<char>, ProjectConfigView)| child_task_name(c, t),
        ),
        in_children(children, t).len() == defining(children, t).len(),
        forall|i: int|
            0 <= i < children.len() && has_key(children[i].1.tasks, t) ==> in_children(children, t).contains(
                #[trigger] child_task_name(children[i], t),
            ),
    decreases children.len(),
{
    let f = |c: (Seq<char>, ProjectConfigView)| child_task_name(c, t);
    let p = |c: (Seq<char>, ProjectConfigView)| has_key(c.1.tasks, t);
    if children.len() == 0 {
        reveal(Seq::filter);
        assert(defining(children, t).map_values(f) =~= Seq::<Seq<char>>::empty());
    } else {
        let rest = children.drop_last();
        let c = children.last();
        law_children_tasks_are_all_that_define_it(rest, t);
        assert(rest.push(c) =~= children);
        rest.lemma_filter_push(c, p);
        if has_key(c.1.tasks, t) {
            assert(defining(children, t) == defining(rest, t).push(c));
            assert(defining(children, t).map_values(f) =~= defining(rest, t).map_values(f).push(f(c)));
        } else {
            assert(map_get(c.1.tasks, t) is None);
            assert(defining(children, t) == defining(rest, t));
        }
    }
    let r = in_children(children, t);
    let d = defining(children, t);
    assert forall|i: int|
        0 <= i < children.len() && has_key(children[i].1.tasks, t) implies r.contains(
        #[trigger] child_task_name(children[i], t),
    ) by {
        children.lemma_filter_contains(p, i);
        let k = choose|k: int| 0 <= k < d.len() && d[k] == children[i];
        assert(r[k] == f(d[k]));
    }
}

/// In the root directory, a bare name the root project does not define selects the tasks of
/// that name of every child project that defines one, in their order, and none when no child
/// project does.
pub proof fn law_bare_name_in_root_selects_every_child(
    root: ProjectConfigView,
    children: ChildrenView,
    cwd: Seq<char>,
    task: Seq<char>,
)
    requires
        spec_split_name(task).0 is None,
        path_equal(cwd, root.dir),
        !has_key(root.tasks, spec_split_name(task).1),
    ensures
        ({
            let t = spec_split_name(task).1;
            let d = defining(children, t);
            &&& d.len() == 0 ==> targets_of(root, children, cwd, task) is None
            &&& d.len() > 0 ==> targets_of(root, children, cwd, task) == Some(
                d.map_values(|c: (Seq<char>, ProjectConfigView)| child_task_name(c, t)),
            )
        }),
{
    let t = spec_split_name(task).1;
    law_children_tasks_are_all_that_define_it(children, t);
    assert(map_get(root.tasks, t) is None);
}

/// Whether `i` is the first child project in the directory `dir`, the directories compared as
/// paths.
pub open spec fn first_in_dir(children: ChildrenView, dir: Seq<char>, i: int) -> bool {
    &&& 0 <= i < children.len()
    &&& path_equal(dir, children[i].1.dir)
    &&& forall|j: int| 0 <= j < i ==> !path_equal(dir, children[j].1.dir)
}

/// The full names of the tasks that the name `task` given on the command line in the directory
/// `cwd` selects, or `None` when it selects none: a full name selects its task; a bare name
/// selects, in the root directory, the task of the root project, or else the tasks of that name
/// in the child projects, and in another directory the task of the child project there. The
/// directories are compared as paths.
pub open spec fn targets_of(root: ProjectConfigView, children: ChildrenView, cwd: Seq<char>, task: Seq<char>) -> Option<
    Seq<Seq<char>>,
> {
    let (p, t) = spec_split_name(task);
    if p is Some {
        match find_task(root, children, task) {
            Some(tc) => Some(seq![full_name_of(tc.project, tc.name)]),
            None => None,
        }
    } else if path_equal(cwd, root.dir) {
        match map_get(root.tasks, t) {
            Some(tc) => Some(seq![full_name_of(tc.project, tc.name)]),
            None => if in_children(children, t).len() > 0 {
                Some(in_children(children, t))
            } else {
                None
            },
        }
    } else if exists|i: int| first_in_dir(children, cwd, i) {
        let i = choose|i: int| first_in_dir(children, cwd, i);
        match map_get(children[i].1.tasks, t) {
            Some(tc) => Some(seq![full_name_of(tc.project, tc.name)]),
            None => None,
        }
    } else {
        None
    }
}

/// The full names of the tasks the names `tasks` select, in order, or `None` when one of them
/// selects none.
pub open spec fn all_targets(root: ProjectConfigView, children: ChildrenView, cwd: Seq<char>, tasks: Seq<Seq<char>>) -> Option<
    Seq<Seq<char>>,
>
    decreases tasks.len(),
{
    if tasks.len() == 0 {
        Some(Seq::empty())
    } else {
        match (all_targets(root, children, cwd, tasks.drop_last()), targets_of(root, children, cwd, tasks.last())) {
            (Some(a), Some(b)) => Some(a + b),
            _ => None,
        }
    }
}

fn children_with(children: &Vec<(String, ProjectConfig)>, t: &str) -> (r: Vec<String>)
    ensures
        r.deep_view() == in_children(children.deep_view(), t@),
{
    let mut r: Vec<String> = Vec::new();
    let mut i: usize = 0;
    while i < children.len()
        invariant
            i <= children.len(),
            r.deep_view() == in_children(children.deep_view().take(i as int), t@),
        decreases children.len() - i,
    {
        let ghost pre = children.deep_view().take(i as int);
        let ghost next = children.deep_view().take(i + 1);
        proof {
            assert(next.drop_last() =~= pre);
            assert(next.last() == children.deep_view()[i as int]);
        }
        match map_lookup(&children[i].1.tasks, t) {
            Some(tc) => {
                let ghost before = r.deep_view();
                r.push(tc.full_name());
                assert(r.deep_view() =~= before.push(full_name_of(tc.project@, tc.name@)));
            },
            None => {},
        }
        i = i + 1;
    }
    assert(children.deep_view().take(children.len() as int) =~= children.deep_view());
    r
}

fn child_in_dir(children: &Vec<(String, ProjectConfig)>, dir: &str) -> (r: Option<usize>)
    ensures
        r matches Some(i) ==> first_in_dir(children.deep_view(), dir@, i as int) && (choose|j: int|
            first_in_dir(children.deep_view(), dir@, j)) == i,
        r is None ==> !exists|j: int| first_in_dir(children.deep_view(), dir@, j),
{
    let mut i: usize = 0;
    while i < children.len()
        invariant
            i <= children.len(),
            forall|j: int| 0 <= j < i ==> !path_equal(dir@, children.deep_view()[j].1.dir),
        decreases children.len() - i,
    {
        assert(children.deep_view()[i as int].1.dir == children@[i as int].1.dir@);
        if same_path(dir, children[i].1.dir.as_str()) {
            proof {
                let cv = children.deep_view();
                assert(first_in_dir(cv, dir@, i as int));
                let j = choose|j: int| first_in_dir(cv, dir@, j);
                if j < i {
                    assert(!path_equal(dir@, cv[j].1.dir));
                } else if i < j {
                    assert(!path_equal(dir@, cv[i as int].1.dir));
                }
            }
            return Some(i);
        }
        i = i + 1;
    }
    None
}

/// The full names of the tasks the name `task`, given in the directory `cwd`, selects; see
/// [`targets_of`].
fn resolve_target(root: &ProjectConfig, children: &Vec<(String, ProjectConfig)>, cwd: &str, task: &str) -> (r: Result<
    Vec<String>,
    WorkspaceError,
>)
    ensures
        r matches Ok(ts) ==> targets_of(root.deep_view(), children.deep_view(), cwd@, task@) == Some(ts.deep_view()),
        r is Err <==> targets_of(root.deep_view(), children.deep_view(), cwd@, task@) is None,
{
    let (project, t) = Task::split_name(task);
    match project {
        Some(_) => {
            let tc = task_config(root, children, task)?;
            let mut r: Vec<String> = Vec::new();
            r.push(tc.full_name());
            assert(r.deep_view() =~= seq![full_name_of(tc.project@, tc.name@)]);
            Ok(r)
        },
        None => {
            if same_path(cwd, root.dir.as_str()) {
                match map_lookup(&root.tasks, t) {
                    Some(tc) => {
                        let mut r: Vec<String> = Vec::new();
                        r.push(tc.full_name());
                        assert(r.deep_view() =~= seq![full_name_of(tc.project@, tc.name@)]);
                        Ok(r)
                    },
                    None => {
                        let r = children_with(children, t);
                        if r.len() == 0 {
                            Err(WorkspaceError::NoSuchTask(String::from_str(task)))
                        } else {
                            Ok(r)
                        }
                    },
                }
            } else {
                match child_in_dir(children, cwd) {
                    Some(i) => match map_lookup(&children[i].1.tasks, t) {
                        Some(tc) => {
                            let mut r: Vec<String> = Vec::new();
                            r.push(tc.full_name());
                            assert(r.deep_view() =~= seq![full_name_of(tc.project@, tc.name@)]);
                            Ok(r)
                        },
                        None => Err(WorkspaceError::TaskNotDefined(String::from_str(t))),
                    },
                    None => Err(WorkspaceError::NoProjectHere),
                }
            }
        },
    }
}

/// The full names of the tasks the names `tasks` given in the directory `cwd` select, in
/// order; see [`all_targets`]. A name that selects no task is refused.
pub fn resolve_targets(root: &ProjectConfig, children: &Vec<(String, ProjectConfig)>, tasks: &Vec<String>, cwd: &str) -> (r:
    Result<Vec<String>, WorkspaceError>)
    ensures
        r matches Ok(ts) ==> all_targets(root.deep_view(), children.deep_view(), cwd@, tasks.deep_view()) == Some(
            ts.deep_view(),
        ),
        r is Err <==> all_targets(root.deep_view(), children.deep_view(), cwd@, tasks.deep_view()) is None,
{
    let mut out: Vec<String> = Vec::new();
    let mut i: usize = 0;
    while i < tasks.len()
        invariant
            i <= tasks.len(),
            all_targets(root.deep_view(), children.deep_view(), cwd@, tasks.deep_view().take(i as int)) == Some(
                out.deep_view(),
            ),
        decreases tasks.len() - i,
    {
        let ghost pre = tasks.deep_view().take(i as int);
        let ghost next = tasks.deep_view().take(i + 1);
        proof {
            assert(next.drop_last() =~= pre);
            assert(next.last() == tasks.deep_view()[i as int]);
        }
        let found = match resolve_target(root, children, cwd, tasks[i].as_str()) {
            Ok(found) => found,
            Err(e) => {
                proof {
                    lemma_all_targets_none(root.deep_view(), children.deep_view(), cwd@, tasks.deep_view(), i + 1);
                }
                return Err(e);
            },
        };
        let ghost before = out.deep_view();
        append_copies(&mut out, &found);
        i = i + 1;
    }
    assert(tasks.deep_view().take(tasks.len() as int) =~= tasks.deep_view());
    Ok(out)
}

proof fn lemma_all_targets_none(root: ProjectConfigView, children: ChildrenView, cwd: Seq<char>, tasks: Seq<Seq<char>>, k: int)
    requires
        0 <= k <= tasks.len(),
        all_targets(root, children, cwd, tasks.take(k)) is None,
    ensures
        all_targets(root, children, cwd, tasks) is None,
    decreases tasks.len() - k,
{
    if k < tasks.len() {
        let next = tasks.take(k + 1);
        assert(next.drop_last() =~= tasks.take(k));
        lemma_all_targets_none(root, children, cwd, tasks, k + 1);
    } else {
        assert(tasks.take(k) =~= tasks);
    }
}

// ----- Variables given on the command line -----

/// The variables `vars` of a task with those given on the command line applied in order: each
/// one the task declares becomes the declaration that value makes of it.
pub open spec fn override_vars(vars: VarsMapView, cli: VarsMapView) -> VarsMapView
    decreases cli.len(),
{
    if cli.len() == 0 {
        vars
    } else {
        let v = override_vars(vars, cli.drop_last());
        let (k, value) = cli.last();
        if has_key(v, k) {
            let i = choose|i: int| first_key(v, k, i);
            v.update(i, (k, spec_with_value(v[i].1, value)))
        } else {
            v
        }
    }
}

/// Applies the variables `cli` given on the command line to the variables `vars` of a task; see
/// [`override_vars`].
pub fn apply_cli_vars(vars: &mut Vec<(String, VarsConfig)>, cli: &Vec<(String, VarsConfig)>)
    ensures
        final(vars).deep_view() == override_vars(old(vars).deep_view(), cli.deep_view()),
{
    let ghost start = vars.deep_view();
    let mut j: usize = 0;
    while j < cli.len()
        invariant
            j <= cli.len(),
            vars.deep_view() == override_vars(start, cli.deep_view().take(j as int)),
        decreases cli.len() - j,
    {
        let ghost pre = cli.deep_view().take(j as int);
        let ghost next = cli.deep_view().take(j + 1);
        proof {
            assert(next.drop_last() =~= pre);
            assert(next.last() == cli.deep_view()[j as int]);
        }
        match find_key(vars, cli[j].0.as_str()) {
            Some(i) => {
                let ghost before = vars.deep_view();
                let (k, declared) = vars.remove(i);
                let updated = declared.with_value(&cli[j].1);
                vars.insert(i, (k, updated));
                assert(vars.deep_view() =~= before.update(i as int, (before[i as int].0, spec_with_value(before[i as int].1, cli.deep_view()[j as int].1))));
            },
            None => {},
        }
        j = j + 1;
    }
    assert(cli.deep_view().take(cli.len() as int) =~= cli.deep_view());
}

// ----- How the run is shown -----

/// Whether the tasks run in pseudo terminals and whether the run stops at the first failure:
/// as asked, or else as the interface has it, the terminal interface with pseudo terminals and
/// going on after a failure, the console interface without and stopping.
pub fn ui_flags(ui: UI, use_pty: Option<bool>, fail_fast: Option<bool>) -> (r: (bool, bool))
    ensures
        r.0 == match use_pty {
            Some(u) => u,
            None => ui == UI::Tui,
        },
        r.1 == match fail_fast {
            Some(f) => f,
            None => ui == UI::Cui,
        },
{
    let pty = match use_pty {
        Some(u) => u,
        None => match ui {
            UI::Tui => true,
            UI::Cui => false,
        },
    };
    let ff = match fail_fast {
        Some(f) => f,
        None => match ui {
            UI::Tui => false,
            UI::Cui => true,
        },
    };
    (pty, ff)
}

// ----- Checking the references between tasks -----

/// The root project, then the child projects.
pub open spec fn project_list(root: ProjectConfigView, children: ChildrenView) -> Seq<ProjectConfigView> {
    seq![root] + children.map_values(|c: (Seq<char>, ProjectConfigView)| c.1)
}

/// The full names of the tasks of the projects.
pub open spec fn all_full_names(ps: Seq<ProjectConfigView>) -> Seq<Seq<char>>
    decreases ps.len(),
{
    if ps.len() == 0 {
        Seq::empty()
    } else {
        all_full_names(ps.drop_last()) + ps.last().tasks.map_values(
            |e: (Seq<char>, TaskConfigView)| full_name_of(e.1.project, e.1.name),
        )
    }
}

/// The full names of the services among the tasks.
pub open spec fn service_names(ts: TasksView) -> Seq<Seq<char>>
    decreases ts.len(),
{
    if ts.len() == 0 {
        Seq::empty()
    } else if spec_is_service(ts.last().1.service) {
        service_names(ts.drop_last()).push(full_name_of(ts.last().1.project, ts.last().1.name))
    } else {
        service_names(ts.drop_last())
    }
}

/// The full names of the services of the projects.
pub open spec fn all_service_names(ps: Seq<ProjectConfigView>) -> Seq<Seq<char>>
    decreases ps.len(),
{
    if ps.len() == 0 {
        Seq::empty()
    } else {
        all_service_names(ps.drop_last()) + service_names(ps.last().tasks)
    }
}

/// Which list of a task names another task.
#[derive(Debug, Clone, Copy, PartialEq, Eq, Structural)]
pub enum RefField {
    DependsOn,
    WaitFor,
    FinalizedBy,
}

/// Whether the reference of the list `field` of the task `t` to the name `n` is refused: it
/// names no task, or it names a service as a finalizer, which must finish on its own.
pub open spec fn bad_ref(names: Seq<Seq<char>>, services: Seq<Seq<char>>, t: TaskConfigView, field: RefField, n: Seq<char>, service: bool) -> bool {
    &&& match field {
        RefField::DependsOn => exists|k: int| 0 <= k < t.depends_on.len() && t.depends_on[k].task() == n,
        RefField::WaitFor => exists|k: int| 0 <= k < t.wait_for.len() && t.wait_for[k].task() == n,
        RefField::FinalizedBy => exists|k: int| 0 <= k < t.finalized_by.len() && t.finalized_by[k].task() == n,
    }
    &&& if service {
        field == RefField::FinalizedBy && names.contains(n) && services.contains(n)
    } else {
        !names.contains(n)
    }
}

/// Whether every reference of the task `t` names a task, and no finalizer is a service.
pub open spec fn refs_ok(names: Seq<Seq<char>>, services: Seq<Seq<char>>, t: TaskConfigView) -> bool {
    &&& forall|k: int| 0 <= k < t.depends_on.len() ==> names.contains(#[trigger] t.depends_on[k].task())
    &&& forall|k: int| 0 <= k < t.wait_for.len() ==> names.contains(#[trigger] t.wait_for[k].task())
    &&& forall|k: int|
        0 <= k < t.finalized_by.len() ==> names.contains(#[trigger] t.finalized_by[k].task()) && !services.contains(
            t.finalized_by[k].task(),
        )
}

/// The first refused name among `refs`, the names a list `field` of a task holds: one that
/// names no task, or, in `finalized_by`, one that names a service.
pub open spec fn first_bad_in(
    names: Seq<Seq<char>>,
    services: Seq<Seq<char>>,
    refs: Seq<Seq<char>>,
    field: RefField,
) -> Option<(RefField, Seq<char>, bool)>
    decreases refs.len(),
{
    if refs.len() == 0 {
        None
    } else if !names.contains(refs[0]) {
        Some((field, refs[0], false))
    } else if field == RefField::FinalizedBy && services.contains(refs[0]) {
        Some((field, refs[0], true))
    } else {
        first_bad_in(names, services, refs.drop_first(), field)
    }
}

/// The first refused reference of the task `t`: its dependencies are checked first, then its
/// `wait_for` entries, then its finalizers.
pub open spec fn task_first_bad(names: Seq<Seq<char>>, services: Seq<Seq<char>>, t: TaskConfigView) -> Option<
    (RefField, Seq<char>, bool),
> {
    match first_bad_in(names, services, dep_tasks(t), RefField::DependsOn) {
        Some(b) => Some(b),
        None => match first_bad_in(names, services, wait_tasks(t), RefField::WaitFor) {
            Some(b) => Some(b),
            None => first_bad_in(names, services, fin_tasks(t), RefField::FinalizedBy),
        },
    }
}

/// The tasks the dependencies of `t` name.
pub open spec fn dep_tasks(t: TaskConfigView) -> Seq<Seq<char>> {
    t.depends_on.map_values(|d: DependsOnConfigView| d.task())
}

/// The tasks the `wait_for` entries of `t` name.
pub open spec fn wait_tasks(t: TaskConfigView) -> Seq<Seq<char>> {
    t.wait_for.map_values(|w: TaskRefView| w.task())
}

/// The tasks the finalizers of `t` name.
pub open spec fn fin_tasks(t: TaskConfigView) -> Seq<Seq<char>> {
    t.finalized_by.map_values(|f: TaskRefView| f.task())
}

/// The first refused reference among the tasks of a project, in order, with the name of its
/// task.
pub open spec fn project_first_bad(names: Seq<Seq<char>>, services: Seq<Seq<char>>, tasks: TasksView) -> Option<
    (Seq<char>, RefField, Seq<char>, bool),
>
    decreases tasks.len(),
{
    if tasks.len() == 0 {
        None
    } else {
        match task_first_bad(names, services, tasks[0].1) {
            Some((f, n, sv)) => Some((tasks[0].1.name, f, n, sv)),
            None => project_first_bad(names, services, tasks.drop_first()),
        }
    }
}

/// The first refused reference among the projects, in order, with the path of its
/// configuration file and the name of its task.
pub open spec fn first_bad(names: Seq<Seq<char>>, services: Seq<Seq<char>>, ps: Seq<ProjectConfigView>) -> Option<
    (Seq<char>, Seq<char>, RefField, Seq<char>, bool),
>
    decreases ps.len(),
{
    if ps.len() == 0 {
        None
    } else {
        match project_first_bad(names, services, ps[0].tasks) {
            Some((t, f, n, sv)) => Some((ps[0].path, t, f, n, sv)),
            None => first_bad(names, services, ps.drop_first()),
        }
    }
}

/// Why the references between the tasks are refused.
#[derive(Debug, Clone, PartialEq, Eq)]
pub struct RefError {
    /// Path of the configuration file of the task
    pub path: String,
    /// Name of the task
    pub task: String,
    /// The list that holds the reference
    pub field: RefField,
    /// The name it refers to
    pub name: String,
    /// Whether it names a service as a finalizer, rather than no task
    pub service: bool,
}

fn project_names(p: &ProjectConfig, names: &mut Vec<String>, services: &mut Vec<String>)
    ensures
        final(names).deep_view() == old(names).deep_view() + p.tasks.deep_view().map_values(
            |e: (Seq<char>, TaskConfigView)| full_name_of(e.1.project, e.1.name),
        ),
        final(services).deep_view() == old(services).deep_view() + service_names(p.tasks.deep_view()),
{
    let ghost n0 = names.deep_view();
    let ghost s0 = services.deep_view();
    let ghost ts = p.tasks.deep_view();
    let mut i: usize = 0;
    while i < p.tasks.len()
        invariant
            i <= p.tasks.len(),
            ts == p.tasks.deep_view(),
            names.deep_view() =~= n0 + ts.take(i as int).map_values(
                |e: (Seq<char>, TaskConfigView)| full_name_of(e.1.project, e.1.name),
            ),
            services.deep_view() =~= s0 + service_names(ts.take(i as int)),
        decreases p.tasks.len() - i,
    {
        let t = &p.tasks[i].1;
        let ghost next = ts.take(i + 1);
        proof {
            assert(next.drop_last() =~= ts.take(i as int));
            assert(next.last() == ts[i as int]);
        }
        let full = t.full_name();
        let ghost before = names.deep_view();
        names.push(full.clone());
        assert(names.deep_view() =~= before.push(full@));
        if t.is_service() {
            let ghost sb = services.deep_view();
            services.push(full);
            assert(services.deep_view() =~= sb.push(full_name_of(t.project@, t.name@)));
        }
        i = i + 1;
    }
    assert(ts.take(ts.len() as int) =~= ts);
}

fn bad_ref_of(t: &TaskConfig, names: &Vec<String>, services: &Vec<String>) -> (r: Option<(RefField, String, bool)>)
    ensures
        r is None <==> refs_ok(names.deep_view(), services.deep_view(), t.deep_view()),
        r matches Some((f, n, sv)) ==> bad_ref(names.deep_view(), services.deep_view(), t.deep_view(), f, n@, sv),
        task_first_bad(names.deep_view(), services.deep_view(), t.deep_view()) == match r {
            Some((f, n, sv)) => Some((f, n@, sv)),
            None => None,
        },
{
    let ghost tv = t.deep_view();
    let ghost nv = names.deep_view();
    let ghost sv = services.deep_view();
    let ghost deps = dep_tasks(tv);
    let ghost waits = wait_tasks(tv);
    let ghost fins = fin_tasks(tv);
    assert(deps.skip(0) =~= deps);
    let mut k: usize = 0;
    while k < t.depends_on.len()
        invariant
            k <= t.depends_on.len(),
            tv == t.deep_view(),
            nv == names.deep_view(),
            sv == services.deep_view(),
            deps == dep_tasks(tv),
            forall|j: int| 0 <= j < k ==> names.deep_view().contains(#[trigger] tv.depends_on[j].task()),
            first_bad_in(nv, sv, deps, RefField::DependsOn) == first_bad_in(nv, sv, deps.skip(k as int), RefField::DependsOn),
        decreases t.depends_on.len() - k,
    {
        let n = String::from_str(t.depends_on[k].task());
        assert(tv.depends_on[k as int] == t.depends_on@[k as int].deep_view());
        assert(deps.skip(k as int)[0] == n@);
        assert(deps.skip(k as int).drop_first() =~= deps.skip(k + 1));
        if !holds(names, &n) {
            assert(bad_ref(names.deep_view(), services.deep_view(), tv, RefField::DependsOn, n@, false));
            return Some((RefField::DependsOn, n, false));
        }
        k = k + 1;
    }
    assert(first_bad_in(nv, sv, deps, RefField::DependsOn) is None);
    assert(waits.skip(0) =~= waits);
    let mut k: usize = 0;
    while k < t.wait_for.len()
        invariant
            k <= t.wait_for.len(),
            tv == t.deep_view(),
            nv == names.deep_view(),
            sv == services.deep_view(),
            waits == wait_tasks(tv),
            deps == dep_tasks(tv),
            first_bad_in(nv, sv, deps, RefField::DependsOn) is None,
            forall|j: int| 0 <= j < t.depends_on.len() ==> names.deep_view().contains(#[trigger] tv.depends_on[j].task()),
            forall|j: int| 0 <= j < k ==> names.deep_view().contains(#[trigger] tv.wait_for[j].task()),
            first_bad_in(nv, sv, waits, RefField::WaitFor) == first_bad_in(nv, sv, waits.skip(k as int), RefField::WaitFor),
        decreases t.wait_for.len() - k,
    {
        let n = String::from_str(t.wait_for[k].task());
        assert(tv.wait_for[k as int] == t.wait_for@[k as int].deep_view());
        assert(waits.skip(k as int)[0] == n@);
        assert(waits.skip(k as int).drop_first() =~= waits.skip(k + 1));
        if !holds(names, &n) {
            assert(bad_ref(names.deep_view(), services.deep_view(), tv, RefField::WaitFor, n@, false));
            return Some((RefField::WaitFor, n, false));
        }
        k = k + 1;
    }
    assert(first_bad_in(nv, sv, waits, RefField::WaitFor) is None);
    assert(fins.skip(0) =~= fins);
    let mut k: usize = 0;
    while k < t.finalized_by.len()
        invariant
            k <= t.finalized_by.len(),
            tv == t.deep_view(),
            nv == names.deep_view(),
            sv == services.deep_view(),
            fins == fin_tasks(tv),
            deps == dep_tasks(tv),
            waits == wait_tasks(tv),
            first_bad_in(nv, sv, deps, RefField::DependsOn) is None,
            first_bad_in(nv, sv, waits, RefField::WaitFor) is None,
            forall|j: int| 0 <= j < t.depends_on.len() ==> names.deep_view().contains(#[trigger] tv.depends_on[j].task()),
            forall|j: int| 0 <= j < t.wait_for.len() ==> names.deep_view().contains(#[trigger] tv.wait_for[j].task()),
            forall|j: int|
                0 <= j < k ==> names.deep_view().contains(#[trigger] tv.finalized_by[j].task())
                    && !services.deep_view().contains(tv.finalized_by[j].task()),
            first_bad_in(nv, sv, fins, RefField::FinalizedBy) == first_bad_in(
                nv,
                sv,
                fins.skip(k as int),
                RefField::FinalizedBy,
            ),
        decreases t.finalized_by.len() - k,
    {
        let n = String::from_str(t.finalized_by[k].task());
        assert(tv.finalized_by[k as int] == t.finalized_by@[k as int].deep_view());
        assert(fins.skip(k as int)[0] == n@);
        assert(fins.skip(k as int).drop_first() =~= fins.skip(k + 1));
        if !holds(names, &n) {
            assert(bad_ref(names.deep_view(), services.deep_view(), tv, RefField::FinalizedBy, n@, false));
            return Some((RefField::FinalizedBy, n, false));
        }
        if holds(services, &n) {
            assert(bad_ref(names.deep_view(), services.deep_view(), tv, RefField::FinalizedBy, n@, true));
            return Some((RefField::FinalizedBy, n, true));
        }
        k = k + 1;
    }
    assert(first_bad_in(nv, sv, fins, RefField::FinalizedBy) is None);
    None
}

fn check_project(p: &ProjectConfig, names: &Vec<String>, services: &Vec<String>) -> (r: Result<(), RefError>)
    ensures
        r is Ok <==> forall|j: int|
            0 <= j < p.tasks.len() ==> refs_ok(names.deep_view(), services.deep_view(), #[trigger] p.tasks.deep_view()[j].1),
        r matches Err(e) ==> e.path@ == p.path@ && exists|j: int|
            0 <= j < p.tasks.len() && p.tasks.deep_view()[j].1.name == e.task@ && bad_ref(
                names.deep_view(),
                services.deep_view(),
                #[trigger] p.tasks.deep_view()[j].1,
                e.field,
                e.name@,
                e.service,
            ),
        project_first_bad(names.deep_view(), services.deep_view(), p.tasks.deep_view()) == match r {
            Ok(()) => None,
            Err(e) => Some((e.task@, e.field, e.name@, e.service)),
        },
{
    let ghost tasks = p.tasks.deep_view();
    assert(tasks.skip(0) =~= tasks);
    let mut j: usize = 0;
    while j < p.tasks.len()
        invariant
            j <= p.tasks.len(),
            tasks == p.tasks.deep_view(),
            forall|i: int| 0 <= i < j ==> refs_ok(names.deep_view(), services.deep_view(), #[trigger] p.tasks.deep_view()[i].1),
            project_first_bad(names.deep_view(), services.deep_view(), tasks) == project_first_bad(
                names.deep_view(),
                services.deep_view(),
                tasks.skip(j as int),
            ),
        decreases p.tasks.len() - j,
    {
        let t = &p.tasks[j].1;
        assert(tasks.skip(j as int)[0] == tasks[j as int]);
        assert(tasks.skip(j as int).drop_first() =~= tasks.skip(j + 1));
        match bad_ref_of(t, names, services) {
            Some((field, name, service)) => {
                let e = RefError { path: p.path.clone(), task: t.name.clone(), field, name, service };
                assert(p.tasks.deep_view()[j as int].1 == t.deep_view());
                return Err(e);
            },
            None => {
                assert(p.tasks.deep_view()[j as int].1 == t.deep_view());
            },
        }
        j = j + 1;
    }
    Ok(())
}

impl ProjectConfig {
    /// Checks the references between the tasks of the root project and its children: every
    /// task a dependency, a `wait_for` entry or a finalizer names must exist, and a finalizer
    /// must not be a service, which does not finish on its own. The first refused reference
    /// comes back, with the configuration file it is written in.
    pub fn validate_multi(root: &ProjectConfig, children: &Vec<(String, ProjectConfig)>) -> (r: Result<(), RefError>)
        ensures
            ({
                let ps = project_list(root.deep_view(), children.deep_view());
                let names = all_full_names(ps);
                let services = all_service_names(ps);
                &&& r is Ok <==> forall|i: int, j: int|
                    0 <= i < ps.len() && 0 <= j < ps[i].tasks.len() ==> refs_ok(names, services, #[trigger] ps[i].tasks[j].1)
                &&& r matches Err(e) ==> exists|i: int, j: int|
                    0 <= i < ps.len() && 0 <= j < ps[i].tasks.len() && ps[i].path == e.path@ && ps[i].tasks[j].1.name
                        == e.task@ && bad_ref(names, services, #[trigger] ps[i].tasks[j].1, e.field, e.name@, e.service)
                &&& first_bad(names, services, ps) == match r {
                    Ok(()) => None,
                    Err(e) => Some((e.path@, e.task@, e.field, e.name@, e.service)),
                }
            }),
    {
        let ghost ps = project_list(root.deep_view(), children.deep_view());
        let mut names: Vec<String> = Vec::new();
        let mut services: Vec<String> = Vec::new();
        project_names(root, &mut names, &mut services);
        proof {
            assert(ps.take(1).drop_last() =~= Seq::<ProjectConfigView>::empty());
            assert(ps.take(1).last() == root.deep_view());
            assert(all_full_names(Seq::<ProjectConfigView>::empty()) =~= Seq::<Seq<char>>::empty());
            assert(all_service_names(Seq::<ProjectConfigView>::empty()) =~= Seq::<Seq<char>>::empty());
            assert(names.deep_view() =~= all_full_names(ps.take(1)));
            assert(services.deep_view() =~= all_service_names(ps.take(1)));
        }
        let mut i: usize = 0;
        while i < children.len()
            invariant
                i <= children.len(),
                ps == project_list(root.deep_view(), children.deep_view()),
                names.deep_view() == all_full_names(ps.take(i + 1)),
                services.deep_view() == all_service_names(ps.take(i + 1)),
            decreases children.len() - i,
        {
            project_names(&children[i].1, &mut names, &mut services);
            proof {
                let next = ps.take(i + 2);
                assert(next.drop_last() =~= ps.take(i + 1));
                assert(next.last() == children.deep_view()[i as int].1);
            }
            i = i + 1;
        }
        assert(ps.take(children.len() + 1) =~= ps);
        assert(ps[0] == root.deep_view());
        match check_project(root, &names, &services) {
            Ok(()) => {
                assert(ps.drop_first() =~= ps.skip(1));
            },
            Err(e) => {
                proof {
                    assert(ps[0] == root.deep_view());
                    let j = choose|j: int|
                        0 <= j < root.tasks.len() && root.tasks.deep_view()[j].1.name == e.task@ && bad_ref(
                            names.deep_view(),
                            services.deep_view(),
                            #[trigger] root.tasks.deep_view()[j].1,
                            e.field,
                            e.name@,
                            e.service,
                        );
                    assert(ps[0].tasks[j].1 == root.tasks.deep_view()[j].1);
                }
                return Err(e);
            },
        }
        let mut i: usize = 0;
        while i < children.len()
            invariant
                i <= children.len(),
                ps == project_list(root.deep_view(), children.deep_view()),
                names.deep_view() == all_full_names(ps),
                services.deep_view() == all_service_names(ps),
                forall|a: int, j: int|
                    0 <= a < i + 1 && 0 <= j < ps[a].tasks.len() ==> refs_ok(
                        names.deep_view(),
                        services.deep_view(),
                        #[trigger] ps[a].tasks[j].1,
                    ),
                first_bad(names.deep_view(), services.deep_view(), ps) == first_bad(
                    names.deep_view(),
                    services.deep_view(),
                    ps.skip(i + 1),
                ),
            decreases children.len() - i,
        {
            assert(ps[i + 1] == children.deep_view()[i as int].1);
            assert(ps.skip(i + 1)[0] == ps[i + 1]);
            assert(ps.skip(i + 1).drop_first() =~= ps.skip(i + 2));
            match check_project(&children[i].1, &names, &services) {
                Ok(()) => {},
                Err(e) => {
                    proof {
                        let c = children.deep_view()[i as int].1;
                        let j = choose|j: int|
                            0 <= j < c.tasks.len() && c.tasks[j].1.name == e.task@ && bad_ref(
                                names.deep_view(),
                                services.deep_view(),
                                #[trigger] c.tasks[j].1,
                                e.field,
                                e.name@,
                                e.service,
                            );
                        assert(ps[i + 1].tasks[j].1 == c.tasks[j].1);
                    }
                    return Err(e);
                },
            }
            i = i + 1;
        }
        assert(ps.skip(children.len() + 1) =~= Seq::<ProjectConfigView>::empty());
        Ok(())
    }
}

/// The tasks with the variables of the first one named `k` overridden by `cli`.
pub open spec fn tasks_override(ts: TasksView, k: Seq<char>, cli: VarsMapView) -> TasksView {
    let i = choose|i: int| first_key(ts, k, i);
    ts.update(i, (ts[i].0, TaskConfigView { vars: override_vars(ts[i].1.vars, cli), ..ts[i].1 }))
}

/// The configurations with the variables of the task of the full name `t` overridden by the
/// variables `cli` given on the command line, or `None` when no task has that name.
pub open spec fn spec_override_task(
    root: ProjectConfigView,
    children: ChildrenView,
    t: Seq<char>,
    cli: VarsMapView,
) -> Option<(ProjectConfigView, ChildrenView)> {
    let (p, n) = spec_split_name(t);
    if p is Some && p->0.len() > 0 {
        if has_key(children, p->0) {
            let ci = choose|i: int| first_key(children, p->0, i);
            let c = children[ci].1;
            if has_key(c.tasks, n) {
                Some((root, children.update(ci, (children[ci].0, ProjectConfigView { tasks: tasks_override(c.tasks, n, cli), ..c }))))
            } else {
                None
            }
        } else {
            None
        }
    } else if has_key(root.tasks, n) {
        Some((ProjectConfigView { tasks: tasks_override(root.tasks, n, cli), ..root }, children))
    } else {
        None
    }
}

/// The configurations with the variables of each of the tasks `targets` overridden in turn, or
/// `None` when one of them names no task.
pub open spec fn override_all(
    root: ProjectConfigView,
    children: ChildrenView,
    targets: Seq<Seq<char>>,
    cli: VarsMapView,
) -> Option<(ProjectConfigView, ChildrenView)>
    decreases targets.len(),
{
    if targets.len() == 0 {
        Some((root, children))
    } else {
        match override_all(root, children, targets.drop_last(), cli) {
            Some((r, c)) => spec_override_task(r, c, targets.last(), cli),
            None => None,
        }
    }
}

fn override_in(tasks: &mut Vec<(String, TaskConfig)>, i: usize, cli: &Vec<(String, VarsConfig)>)
    requires
        i < old(tasks).len(),
    ensures
        final(tasks).deep_view() == old(tasks).deep_view().update(
            i as int,
            (old(tasks).deep_view()[i as int].0, TaskConfigView {
                vars: override_vars(old(tasks).deep_view()[i as int].1.vars, cli.deep_view()),
                ..old(tasks).deep_view()[i as int].1
            }),
        ),
{
    let ghost before = tasks.deep_view();
    let (k, mut t) = tasks.remove(i);
    assert(before[i as int] == (k@, t.deep_view()));
    apply_cli_vars(&mut t.vars, cli);
    tasks.insert(i, (k, t));
    assert(tasks.deep_view() =~= before.update(
        i as int,
        (before[i as int].0, TaskConfigView { vars: override_vars(before[i as int].1.vars, cli.deep_view()), ..before[i as int].1 }),
    ));
}

fn override_task(root: &mut ProjectConfig, children: &mut Vec<(String, ProjectConfig)>, t: &str, cli: &Vec<(String, VarsConfig)>) -> (r:
    Result<(), WorkspaceError>)
    ensures
        match spec_override_task(old(root).deep_view(), old(children).deep_view(), t@, cli.deep_view()) {
            Some((rv, cv)) => r is Ok && final(root).deep_view() == rv && final(children).deep_view() == cv,
            None => r is Err,
        },
{
    let (project, task) = Task::split_name(t);
    let in_child = match project {
        Some(p) => p.unicode_len() > 0,
        None => false,
    };
    if in_child {
        let p = project.unwrap();
        match find_key(children, p) {
            Some(ci) => {
                let ghost before = children.deep_view();
                let (ck, mut c) = children.remove(ci);
                assert(before[ci as int] == (ck@, c.deep_view()));
                match find_key(&c.tasks, task) {
                    Some(ti) => {
                        override_in(&mut c.tasks, ti, cli);
                        children.insert(ci, (ck, c));
                        assert(children.deep_view() =~= before.update(
                            ci as int,
                            (before[ci as int].0, ProjectConfigView {
                                tasks: tasks_override(before[ci as int].1.tasks, task@, cli.deep_view()),
                                ..before[ci as int].1
                            }),
                        ));
                        Ok(())
                    },
                    None => {
                        children.insert(ci, (ck, c));
                        Err(WorkspaceError::TaskNotDefined(String::from_str(task)))
                    },
                }
            },
            None => Err(WorkspaceError::ProjectNotDefined(String::from_str(p))),
        }
    } else {
        match find_key(&root.tasks, task) {
            Some(ti) => {
                override_in(&mut root.tasks, ti, cli);
                Ok(())
            },
            None => Err(WorkspaceError::TaskNotDefined(String::from_str(task))),
        }
    }
}

/// Overrides the variables the target tasks declare with those given on the command line; see
/// [`override_all`]. A target that names no task is refused.
pub fn override_target_vars(
    root: &mut ProjectConfig,
    children: &mut Vec<(String, ProjectConfig)>,
    targets: &Vec<String>,
    cli: &Vec<(String, VarsConfig)>,
) -> (r: Result<(), WorkspaceError>)
    ensures
        match override_all(old(root).deep_view(), old(children).deep_view(), targets.deep_view(), cli.deep_view()) {
            Some((rv, cv)) => r is Ok && final(root).deep_view() == rv && final(children).deep_view() == cv,
            None => r is Err,
        },
{
    let ghost r0 = root.deep_view();
    let ghost c0 = children.deep_view();
    let mut i: usize = 0;
    while i < targets.len()
        invariant
            i <= targets.len(),
            r0 == old(root).deep_view(),
            c0 == old(children).deep_view(),
            override_all(r0, c0, targets.deep_view().take(i as int), cli.deep_view()) == Some(
                (root.deep_view(), children.deep_view()),
            ),
        decreases targets.len() - i,
    {
        let ghost next = targets.deep_view().take(i + 1);
        proof {
            assert(next.drop_last() =~= targets.deep_view().take(i as int));
            assert(next.last() == targets.deep_view()[i as int]);
        }
        match override_task(root, children, targets[i].as_str(), cli) {
            Ok(()) => {},
            Err(e) => {
                proof {
                    lemma_override_none(r0, c0, targets.deep_view(), cli.deep_view(), i + 1);
                }
                return Err(e);
            },
        }
        i = i + 1;
    }
    assert(targets.deep_view().take(targets.len() as int) =~= targets.deep_view());
    Ok(())
}

proof fn lemma_override_none(
    root: ProjectConfigView,
    children: ChildrenView,
    targets: Seq<Seq<char>>,
    cli: VarsMapView,
    k: int,
)
    requires
        0 <= k <= targets.len(),
        override_all(root, children, targets.take(k), cli) is None,
    ensures
        override_all(root, children, targets, cli) is None,
    decreases targets.len() - k,
{
    if k < targets.len() {
        let next = targets.take(k + 1);
        assert(next.drop_last() =~= targets.take(k));
        lemma_override_none(root, children, targets, cli, k + 1);
    } else {
        assert(targets.take(k) =~= targets);
    }
}

} // verus!
