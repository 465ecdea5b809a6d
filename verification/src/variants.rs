//! Task variants. A dependency or a finalizer written with variables names a variant of its
//! task: a copy of it with those variables set. Variants are looked up by full name and by
//! the name they were written with, and each new one is numbered after its task.
use crate::ordered::{find_key, has_key, map_extend, map_get, map_insert, map_lookup, map_set, Duplicate};
use crate::project::{spec_split_name, Task};
use crate::project_config::{ProjectConfig, ProjectConfigView, TaskConfig, TaskConfigView, TasksView, VarsConfig, VarsMapView};
use crate::text::{chars_of, decimal_text, push_decimal, string_from_chars};
use crate::workspace::ChildrenView;
use vstd::prelude::*;

verus! {

impl TaskConfig {
    /// Whether `other` is a variant of the same task: the same project and the same name as
    /// written.
    pub fn is_variant(&self, other: &TaskConfig) -> (r: bool)
        ensures
            r == (self.project@ == other.project@ && self.orig_name@ == other.orig_name@),
    {
        crate::text::same_text(self.project.as_str(), other.project.as_str()) && crate::text::same_text(
            self.orig_name.as_str(),
            other.orig_name.as_str(),
        )
    }
}

/// The task named `name` in full, `project#task`, with the project it belongs to: the root
/// project for an empty project name, else the child of that name.
pub open spec fn spec_get_task(name: Seq<char>, root: ProjectConfigView, children: ChildrenView) -> Option<
    (TaskConfigView, ProjectConfigView),
> {
    match spec_split_name(name) {
        (Some(p), t) => if p.len() == 0 {
            match map_get(root.tasks, t) {
                Some(tc) => Some((tc, root)),
                None => None,
            }
        } else {
            match map_get(children, p) {
                Some(c) => match map_get(c.tasks, t) {
                    Some(tc) => Some((tc, c)),
                    None => None,
                },
                None => None,
            }
        },
        (None, _) => None,
    }
}

/// The task named `task_name` in full, with its project; see [`spec_get_task`].
pub fn get_task<'a>(task_name: &str, root: &'a ProjectConfig, children: &'a Vec<(String, ProjectConfig)>) -> (r:
    Option<(&'a TaskConfig, &'a ProjectConfig)>)
    ensures
        spec_get_task(task_name@, root.deep_view(), children.deep_view()) == match r {
            Some((t, p)) => Some((t.deep_view(), p.deep_view())),
            None => None,
        },
{
    let (p, t) = Task::split_name(task_name);
    match p {
        Some(p) => {
            if p.unicode_len() == 0 {
                match map_lookup(&root.tasks, t) {
                    Some(tc) => Some((tc, root)),
                    None => None,
                }
            } else {
                match map_lookup(children, p) {
                    Some(c) => match map_lookup(&c.tasks, t) {
                        Some(tc) => Some((tc, c)),
                        None => None,
                    },
                    None => None,
                }
            }
        },
        None => None,
    }
}

/// The tasks among `tasks` written with the name `orig`, in order.
pub open spec fn tasks_named(tasks: TasksView, orig: Seq<char>) -> Seq<TaskConfigView>
    decreases tasks.len(),
{
    if tasks.len() == 0 {
        Seq::empty()
    } else {
        tasks_named(tasks.drop_last(), orig) + if tasks.last().1.orig_name == orig {
            seq![tasks.last().1]
        } else {
            Seq::empty()
        }
    }
}

/// The variants of the task written `project#orig` in full: the tasks of that project written
/// with that name.
pub open spec fn spec_variant_tasks(orig_name: Seq<char>, root: ProjectConfigView, children: ChildrenView) -> Seq<
    TaskConfigView,
> {
    match spec_split_name(orig_name) {
        (Some(p), o) => if p.len() == 0 {
            tasks_named(root.tasks, o)
        } else {
            match map_get(children, p) {
                Some(c) => tasks_named(c.tasks, o),
                None => Seq::empty(),
            }
        },
        (None, _) => Seq::empty(),
    }
}

fn named_in<'a>(tasks: &'a Vec<(String, TaskConfig)>, orig: &str) -> (r: Vec<&'a TaskConfig>)
    ensures
        r@.map_values(|t: &TaskConfig| t.deep_view()) == tasks_named(tasks.deep_view(), orig@),
{
    let ghost tv = tasks.deep_view();
    let mut r: Vec<&'a TaskConfig> = Vec::new();
    let mut i: usize = 0;
    while i < tasks.len()
        invariant
            i <= tasks.len(),
            tv == tasks.deep_view(),
            r@.map_values(|t: &TaskConfig| t.deep_view()) == tasks_named(tv.take(i as int), orig@),
        decreases tasks.len() - i,
    {
        let ghost before = r@;
        let t = &tasks[i].1;
        proof {
            assert(tv.take(i + 1).drop_last() =~= tv.take(i as int));
            assert(tv.take(i + 1).last() == tv[i as int]);
            assert(tv[i as int].1 == t.deep_view());
        }
        if crate::text::same_text(t.orig_name.as_str(), orig) {
            r.push(t);
            assert(r@.map_values(|t: &TaskConfig| t.deep_view()) =~= before.map_values(|t: &TaskConfig| t.deep_view()).push(
                t.deep_view(),
            ));
        }
        assert(r@.map_values(|t: &TaskConfig| t.deep_view()) =~= tasks_named(tv.take(i + 1), orig@));
        i = i + 1;
    }
    assert(tv.take(tv.len() as int) =~= tv);
    r
}

/// The variants of the task written `orig_name` in full; see [`spec_variant_tasks`].
pub fn get_variant_tasks<'a>(orig_name: &str, root: &'a ProjectConfig, children: &'a Vec<(String, ProjectConfig)>) -> (r:
    Vec<&'a TaskConfig>)
    ensures
        r@.map_values(|t: &TaskConfig| t.deep_view()) == spec_variant_tasks(
            orig_name@,
            root.deep_view(),
            children.deep_view(),
        ),
{
    let (p, o) = Task::split_name(orig_name);
    match p {
        Some(p) => {
            if p.unicode_len() == 0 {
                named_in(&root.tasks, o)
            } else {
                match map_lookup(children, p) {
                    Some(c) => named_in(&c.tasks, o),
                    None => {
                        let r: Vec<&'a TaskConfig> = Vec::new();
                        assert(r@.map_values(|t: &TaskConfig| t.deep_view()) =~= Seq::<TaskConfigView>::empty());
                        r
                    },
                }
            }
        },
        None => {
            let r: Vec<&'a TaskConfig> = Vec::new();
            assert(r@.map_values(|t: &TaskConfig| t.deep_view()) =~= Seq::<TaskConfigView>::empty());
            r
        },
    }
}

/// The project `p` with the task `t` set under its name: in place of the task of that name,
/// or at the end.
pub open spec fn with_task(p: ProjectConfigView, t: TaskConfigView) -> ProjectConfigView {
    ProjectConfigView { tasks: map_insert(p.tasks, t.name, t), ..p }
}

/// The projects with the task `t` set in its project: the root project for an empty project
/// name, else the first child of that name; nothing changes when there is none.
pub open spec fn spec_set_task(t: TaskConfigView, root: ProjectConfigView, children: ChildrenView) -> (
    ProjectConfigView,
    ChildrenView,
) {
    if t.project.len() == 0 {
        (with_task(root, t), children)
    } else if has_key(children, t.project) {
        let i = choose|i: int| crate::ordered::first_key(children, t.project, i);
        (root, children.update(i, (children[i].0, with_task(children[i].1, t))))
    } else {
        (root, children)
    }
}

/// Sets the task `task_config` in its project; see [`spec_set_task`].
pub fn set_task(task_config: TaskConfig, root: &mut ProjectConfig, children: &mut Vec<(String, ProjectConfig)>)
    ensures
        (final(root).deep_view(), final(children).deep_view()) == spec_set_task(
            task_config.deep_view(),
            old(root).deep_view(),
            old(children).deep_view(),
        ),
{
    let ghost tv = task_config.deep_view();
    if task_config.project.as_str().unicode_len() == 0 {
        let name = task_config.name.clone();
        map_set(&mut root.tasks, name, task_config);
        assert(root.deep_view() =~= with_task(old(root).deep_view(), tv));
    } else {
        match find_key(children, task_config.project.as_str()) {
            Some(i) => {
                let (k, mut c) = children.remove(i);
                let name = task_config.name.clone();
                map_set(&mut c.tasks, name, task_config);
                children.insert(i, (k, c));
                proof {
                    let old_c = old(children).deep_view();
                    assert(old_c[i as int] == (old(children)@[i as int].0@, old(children)@[i as int].1.deep_view()));
                    assert(c.deep_view() =~= with_task(old_c[i as int].1, tv));
                    assert(children.deep_view() =~= old_c.update(i as int, (old_c[i as int].0, with_task(old_c[i as int].1, tv))));
                }
            },
            None => {},
        }
    }
}

/// The entries of `given` whose names `vars` declares, in order.
pub open spec fn declared_in(vars: VarsMapView, given: VarsMapView) -> VarsMapView
    decreases given.len(),
{
    if given.len() == 0 {
        Seq::empty()
    } else {
        declared_in(vars, given.drop_last()) + if has_key(vars, given.last().0) {
            seq![given.last()]
        } else {
            Seq::empty()
        }
    }
}

/// The variables of a variant of a task whose variables are `vars`, for a reference that
/// gives `given`: each given variable the task declares takes the given value; the others are
/// left out, so that they make no variant of their own.
pub fn merge_variant_vars(vars: &Vec<(String, VarsConfig)>, given: &Vec<(String, VarsConfig)>) -> (r: Vec<
    (String, VarsConfig),
>)
    ensures
        r.deep_view() == map_extend(vars.deep_view(), declared_in(vars.deep_view(), given.deep_view())),
{
    let ghost vv = vars.deep_view();
    let ghost gv = given.deep_view();
    let mut r = vars.duplicate();
    let mut i: usize = 0;
    while i < given.len()
        invariant
            i <= given.len(),
            vv == vars.deep_view(),
            gv == given.deep_view(),
            r.deep_view() == map_extend(vv, declared_in(vv, gv.take(i as int))),
        decreases given.len() - i,
    {
        proof {
            assert(gv.take(i + 1).drop_last() =~= gv.take(i as int));
            assert(gv.take(i + 1).last() == gv[i as int]);
            assert(gv[i as int] == (given@[i as int].0@, given@[i as int].1.deep_view()));
        }
        let ghost d = declared_in(vv, gv.take(i as int));
        if find_key(vars, given[i].0.as_str()).is_some() {
            map_set(&mut r, given[i].0.clone(), given[i].1.duplicate());
            proof {
                let d2 = d.push(gv[i as int]);
                assert(declared_in(vv, gv.take(i + 1)) =~= d2);
                assert(d2.drop_last() =~= d);
            }
        } else {
            assert(declared_in(vv, gv.take(i + 1)) =~= d);
        }
        i = i + 1;
    }
    assert(gv.take(gv.len() as int) =~= gv);
    r
}

/// The number the next variant of the task written `orig` in full takes: one more than the
/// count of its variants so far, the first being 1.
pub open spec fn next_number(counts: Seq<(Seq<char>, usize)>, orig: Seq<char>) -> int {
    match map_get(counts, orig) {
        Some(c) => c + 1,
        None => 1,
    }
}

/// Counts a new variant of the task written `orig_name` in full and returns its number; see
/// [`next_number`].
pub fn next_variant(counts: &mut Vec<(String, usize)>, orig_name: &str) -> (n: usize)
    requires
        map_get(old(counts).deep_view(), orig_name@) != Some(usize::MAX),
    ensures
        n == next_number(old(counts).deep_view(), orig_name@),
        final(counts).deep_view() == map_insert(old(counts).deep_view(), orig_name@, n),
{
    let n = match map_lookup(counts, orig_name) {
        Some(c) => *c + 1,
        None => 1,
    };
    map_set(counts, orig_name.to_string(), n);
    n
}

/// The full name of the variant number `n` of the task named `full_name` in full: the name, `-`
/// and the number.
pub open spec fn spec_variant_name(full_name: Seq<char>, n: nat) -> Seq<char> {
    full_name + seq!['-'] + decimal_text(n)
}

/// The full name of the variant number `n` of the task named `full_name`; see
/// [`spec_variant_name`].
pub fn variant_name(full_name: &str, n: usize) -> (r: String)
    ensures
        r@ == spec_variant_name(full_name@, n as nat),
{
    let mut chars = chars_of(full_name);
    chars.push('-');
    push_decimal(n as u64, &mut chars);
    string_from_chars(chars.as_slice())
}

} // verus!
