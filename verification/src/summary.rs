//! The list of tasks shown when the command line names none: for one project its tasks, those
//! with a description first; for a root project with children, every project when run from
//! the root directory, else the project whose directory the run is in.
use crate::ordered::{find_key, map_get};
use crate::path::{path_equal, same_path};
use crate::project_config::{ProjectConfig, ProjectConfigView, TasksView};
use crate::text::{chars_of, is_whitespace, spec_is_whitespace, string_from_chars};
use vstd::prelude::*;

verus! {

/// A line of the list; the interface gives each its text and style.
#[derive(Debug, Clone, PartialEq, Eq)]
pub enum SummaryLine {
    /// `Tasks:`
    TasksHeading,
    /// A task, by name
    Task(String),
    /// A line of the description of the task named before
    Description(String),
    /// `Project: root`
    RootProject,
    /// A child project, by name
    Project(String),
    /// The directory of the child project named before, as the root project gives it
    Directory(String),
    /// An empty line
    Blank,
    /// A horizontal rule across the list
    Rule,
}

/// What a [`SummaryLine`] says.
pub enum SummaryLineView {
    TasksHeading,
    Task(Seq<char>),
    Description(Seq<char>),
    RootProject,
    Project(Seq<char>),
    Directory(Seq<char>),
    Blank,
    Rule,
}

impl View for SummaryLine {
    type V = SummaryLineView;

    open spec fn view(&self) -> SummaryLineView {
        match self {
            SummaryLine::TasksHeading => SummaryLineView::TasksHeading,
            SummaryLine::Task(s) => SummaryLineView::Task(s@),
            SummaryLine::Description(s) => SummaryLineView::Description(s@),
            SummaryLine::RootProject => SummaryLineView::RootProject,
            SummaryLine::Project(s) => SummaryLineView::Project(s@),
            SummaryLine::Directory(s) => SummaryLineView::Directory(s@),
            SummaryLine::Blank => SummaryLineView::Blank,
            SummaryLine::Rule => SummaryLineView::Rule,
        }
    }
}

/// The views of a list of lines.
pub open spec fn lines_view(s: Seq<SummaryLine>) -> Seq<SummaryLineView> {
    s.map_values(|l: SummaryLine| l@)
}

/// `s` without the white space at its end, as `str::trim_end` gives it.
pub open spec fn trim_end(s: Seq<char>) -> Seq<char>
    decreases s.len(),
{
    if s.len() > 0 && spec_is_whitespace(s.last()) {
        trim_end(s.drop_last())
    } else {
        s
    }
}

/// The pieces of `s` between its newlines, as `str::split('\n')` gives them: one more than
/// there are newlines.
pub open spec fn split_newlines(s: Seq<char>) -> Seq<Seq<char>>
    decreases s.len(),
{
    if s.len() == 0 {
        seq![Seq::empty()]
    } else {
        let prev = split_newlines(s.drop_last());
        if s.last() == '\n' {
            prev.push(Seq::empty())
        } else {
            prev.update(prev.len() - 1, prev.last().push(s.last()))
        }
    }
}

/// The lines of a description: without its white space at the end, split at its newlines.
pub open spec fn description_lines(d: Seq<char>) -> Seq<SummaryLineView> {
    split_newlines(trim_end(d)).map_values(|l: Seq<char>| SummaryLineView::Description(l))
}

/// The tasks that have a description, in order, each followed by the lines of its description.
pub open spec fn described_tasks(tasks: TasksView) -> Seq<SummaryLineView>
    decreases tasks.len(),
{
    if tasks.len() == 0 {
        Seq::empty()
    } else {
        described_tasks(tasks.drop_last()) + match tasks.last().1.description {
            Some(d) => seq![SummaryLineView::Task(tasks.last().1.name)] + description_lines(d),
            None => Seq::empty(),
        }
    }
}

/// The tasks without a description, in order.
pub open spec fn undescribed_tasks(tasks: TasksView) -> Seq<SummaryLineView>
    decreases tasks.len(),
{
    if tasks.len() == 0 {
        Seq::empty()
    } else {
        undescribed_tasks(tasks.drop_last()) + match tasks.last().1.description {
            Some(_) => Seq::empty(),
            None => seq![SummaryLineView::Task(tasks.last().1.name)],
        }
    }
}

/// The tasks of a project: a heading, then the tasks that have a description, then the others.
pub open spec fn spec_project_task_lines(p: ProjectConfigView) -> Seq<SummaryLineView> {
    seq![SummaryLineView::TasksHeading] + described_tasks(p.tasks) + undescribed_tasks(p.tasks)
}

/// A child project `c` of `root`: its name, the directory the root project gives it (empty
/// when none), its tasks and an empty line.
pub open spec fn child_block(root: ProjectConfigView, c: ProjectConfigView) -> Seq<SummaryLineView> {
    let dir = match map_get(root.projects, c.name) {
        Some(d) => d,
        None => Seq::empty(),
    };
    seq![SummaryLineView::Project(c.name), SummaryLineView::Directory(dir)] + spec_project_task_lines(c) + seq![
        SummaryLineView::Blank,
    ]
}

/// Every child project in order, each after a rule.
pub open spec fn children_blocks(root: ProjectConfigView, children: Seq<(Seq<char>, ProjectConfigView)>) -> Seq<
    SummaryLineView,
>
    decreases children.len(),
{
    if children.len() == 0 {
        Seq::empty()
    } else {
        children_blocks(root, children.drop_last()) + seq![SummaryLineView::Rule] + child_block(
            root,
            children.last().1,
        )
    }
}

/// The list for the root project `root` and its `children`: with no child, the tasks of the
/// root project; run from the root directory (`at_root`), the root project and every child;
/// else the child at `here`, the one whose directory the run is in, or nothing.
pub open spec fn spec_summary_lines(
    root: ProjectConfigView,
    children: Seq<(Seq<char>, ProjectConfigView)>,
    at_root: bool,
    here: Option<int>,
) -> Seq<SummaryLineView> {
    if children.len() == 0 {
        spec_project_task_lines(root)
    } else if at_root {
        seq![SummaryLineView::RootProject] + spec_project_task_lines(root) + seq![SummaryLineView::Blank]
            + children_blocks(root, children)
    } else {
        match here {
            Some(i) => child_block(root, children[i].1),
            None => Seq::empty(),
        }
    }
}

/// The first child from `k` on whose directory is `cwd`.
pub open spec fn dir_index(children: Seq<(Seq<char>, ProjectConfigView)>, cwd: Seq<char>, k: int) -> Option<int>
    decreases children.len() - k,
{
    if k < 0 || k >= children.len() {
        None
    } else if path_equal(cwd, children[k].1.dir) {
        Some(k)
    } else {
        dir_index(children, cwd, k + 1)
    }
}

fn push_line(out: &mut Vec<SummaryLine>, l: SummaryLine)
    ensures
        lines_view(final(out)@) == lines_view(old(out)@).push(l@),
{
    out.push(l);
    proof {
        assert(lines_view(out@) =~= lines_view(old(out)@).push(l@));
    }
}

/// The length of `chars` without its white space at the end.
fn trimmed_len(chars: &Vec<char>) -> (r: usize)
    ensures
        r <= chars.len(),
        chars@.take(r as int) == trim_end(chars@),
{
    let mut n = chars.len();
    assert(chars@.take(n as int) =~= chars@);
    while n > 0 && is_whitespace(chars[n - 1])
        invariant
            n <= chars.len(),
            trim_end(chars@.take(n as int)) == trim_end(chars@),
        decreases n,
    {
        assert(chars@.take(n as int).drop_last() =~= chars@.take(n - 1));
        n = n - 1;
    }
    n
}

/// Appends the lines of the description `d`; see [`description_lines`].
fn push_description(out: &mut Vec<SummaryLine>, d: &String)
    ensures
        lines_view(final(out)@) == lines_view(old(out)@) + description_lines(d@),
{
    let chars = chars_of(d.as_str());
    let end = trimmed_len(&chars);
    let ghost text = chars@.take(end as int);
    let ghost base = lines_view(out@);
    let mut cur: Vec<char> = Vec::new();
    let mut i: usize = 0;
    while i < end
        invariant
            end <= chars.len(),
            text == chars@.take(end as int),
            i <= end,
            split_newlines(text.take(i as int)).len() >= 1,
            cur@ == split_newlines(text.take(i as int)).last(),
            lines_view(out@) == base + split_newlines(text.take(i as int)).drop_last().map_values(
                |l: Seq<char>| SummaryLineView::Description(l),
            ),
        decreases end - i,
    {
        let ghost s = split_newlines(text.take(i as int));
        let c = chars[i];
        proof {
            assert(text.take(i + 1).drop_last() =~= text.take(i as int));
            assert(text.take(i + 1).last() == c);
        }
        if c == '\n' {
            push_line(out, SummaryLine::Description(string_from_chars(cur.as_slice())));
            cur = Vec::new();
            proof {
                let s2 = split_newlines(text.take(i + 1));
                assert(s2 == s.push(Seq::empty()));
                assert(s2.drop_last() =~= s);
                assert(s =~= s.drop_last().push(s.last()));
                assert(lines_view(out@) =~= base + s2.drop_last().map_values(
                    |l: Seq<char>| SummaryLineView::Description(l),
                ));
            }
        } else {
            cur.push(c);
            proof {
                let s2 = split_newlines(text.take(i + 1));
                assert(s2 == s.update(s.len() - 1, s.last().push(c)));
                assert(s2.drop_last() =~= s.drop_last());
            }
        }
        i = i + 1;
    }
    let ghost s = split_newlines(text.take(end as int));
    push_line(out, SummaryLine::Description(string_from_chars(cur.as_slice())));
    proof {
        assert(text.take(end as int) =~= text);
        assert(s =~= s.drop_last().push(s.last()));
        assert(text == trim_end(d@));
        assert(lines_view(out@) =~= base + description_lines(d@));
    }
}

/// The lines listing the tasks of `project`: a heading, then the tasks that have a
/// description, each followed by the lines of its description, then the tasks without one.
pub fn project_task_lines(project: &ProjectConfig) -> (r: Vec<SummaryLine>)
    ensures
        lines_view(r@) == spec_project_task_lines(project.deep_view()),
{
    let mut out: Vec<SummaryLine> = Vec::new();
    push_line(&mut out, SummaryLine::TasksHeading);
    let ghost tasks = project.deep_view().tasks;
    let mut i: usize = 0;
    while i < project.tasks.len()
        invariant
            i <= project.tasks.len(),
            tasks == project.deep_view().tasks,
            lines_view(out@) == seq![SummaryLineView::TasksHeading] + described_tasks(tasks.take(i as int)),
        decreases project.tasks.len() - i,
    {
        let ghost before = lines_view(out@);
        let t = &project.tasks[i].1;
        proof {
            assert(tasks.take(i + 1).drop_last() =~= tasks.take(i as int));
            assert(tasks.take(i + 1).last() == tasks[i as int]);
            assert(tasks[i as int].1 == t.deep_view());
        }
        match &t.description {
            Some(d) => {
                push_line(&mut out, SummaryLine::Task(t.name.clone()));
                push_description(&mut out, d);
                assert(lines_view(out@) =~= before + (seq![SummaryLineView::Task(t.name@)] + description_lines(d@)));
            },
            None => {
                assert(lines_view(out@) =~= before + Seq::<SummaryLineView>::empty());
            },
        }
        i = i + 1;
    }
    assert(tasks.take(tasks.len() as int) =~= tasks);
    let ghost middle = lines_view(out@);
    let mut j: usize = 0;
    while j < project.tasks.len()
        invariant
            j <= project.tasks.len(),
            tasks == project.deep_view().tasks,
            lines_view(out@) == middle + undescribed_tasks(tasks.take(j as int)),
        decreases project.tasks.len() - j,
    {
        let ghost before = lines_view(out@);
        let t = &project.tasks[j].1;
        proof {
            assert(tasks.take(j + 1).drop_last() =~= tasks.take(j as int));
            assert(tasks.take(j + 1).last() == tasks[j as int]);
            assert(tasks[j as int].1 == t.deep_view());
        }
        if t.description.is_none() {
            push_line(&mut out, SummaryLine::Task(t.name.clone()));
        }
        assert(lines_view(out@) =~= middle + undescribed_tasks(tasks.take(j + 1)));
        j = j + 1;
    }
    assert(lines_view(out@) =~= spec_project_task_lines(project.deep_view()));
    out
}

/// Appends the lines of the child project `c` of `root`; see [`child_block`].
fn push_child_block(out: &mut Vec<SummaryLine>, root: &ProjectConfig, c: &ProjectConfig)
    ensures
        lines_view(final(out)@) == lines_view(old(out)@) + child_block(root.deep_view(), c.deep_view()),
{
    let ghost base = lines_view(out@);
    let dir = match find_key(&root.projects, c.name.as_str()) {
        Some(k) => {
            assert(root.projects.deep_view()[k as int].1 == root.projects@[k as int].1@);
            root.projects[k].1.clone()
        },
        None => String::new(),
    };
    assert(dir@ == match map_get(root.projects.deep_view(), c.name@) {
        Some(d) => d,
        None => Seq::<char>::empty(),
    });
    push_line(out, SummaryLine::Project(c.name.clone()));
    push_line(out, SummaryLine::Directory(dir));
    let mut tasks = project_task_lines(c);
    let ghost tv = lines_view(tasks@);
    let ghost before = out@;
    out.append(&mut tasks);
    proof {
        assert(lines_view(out@) =~= lines_view(before) + tv);
    }
    push_line(out, SummaryLine::Blank);
    assert(lines_view(out@) =~= base + child_block(root.deep_view(), c.deep_view()));
}

/// The list for the root project `root` and its `children`, knowing whether the run is in the
/// root directory (`at_root`) and which child's directory it is in (`here`); see
/// [`spec_summary_lines`].
pub fn summary_lines_at(
    root: &ProjectConfig,
    children: &Vec<(String, ProjectConfig)>,
    at_root: bool,
    here: Option<usize>,
) -> (r: Vec<SummaryLine>)
    requires
        here matches Some(i) ==> i < children.len(),
    ensures
        lines_view(r@) == spec_summary_lines(
            root.deep_view(),
            children.deep_view(),
            at_root,
            match here {
                Some(i) => Some(i as int),
                None => None,
            },
        ),
{
    let ghost rv = root.deep_view();
    let ghost cv = children.deep_view();
    if children.len() == 0 {
        return project_task_lines(root);
    }
    let mut out: Vec<SummaryLine> = Vec::new();
    if at_root {
        push_line(&mut out, SummaryLine::RootProject);
        let mut tasks = project_task_lines(root);
        let ghost tv = lines_view(tasks@);
        let ghost before = out@;
        out.append(&mut tasks);
        proof {
            assert(lines_view(out@) =~= lines_view(before) + tv);
        }
        push_line(&mut out, SummaryLine::Blank);
        let ghost head = lines_view(out@);
        let mut i: usize = 0;
        while i < children.len()
            invariant
                i <= children.len(),
                rv == root.deep_view(),
                cv == children.deep_view(),
                lines_view(out@) == head + children_blocks(rv, cv.take(i as int)),
            decreases children.len() - i,
        {
            let ghost b = lines_view(out@);
            push_line(&mut out, SummaryLine::Rule);
            push_child_block(&mut out, root, &children[i].1);
            proof {
                assert(cv.take(i + 1).drop_last() =~= cv.take(i as int));
                assert(cv.take(i + 1).last() == cv[i as int]);
                assert(cv[i as int].1 == children@[i as int].1.deep_view());
                assert(lines_view(out@) =~= head + children_blocks(rv, cv.take(i + 1)));
            }
            i = i + 1;
        }
        assert(cv.take(cv.len() as int) =~= cv);
        assert(lines_view(out@) =~= spec_summary_lines(rv, cv, at_root, None));
    } else {
        match here {
            Some(i) => {
                push_child_block(&mut out, root, &children[i].1);
                assert(cv[i as int].1 == children@[i as int].1.deep_view());
                assert(lines_view(out@) =~= child_block(rv, cv[i as int].1));
            },
            None => {
                assert(lines_view(out@) =~= Seq::<SummaryLineView>::empty());
            },
        }
    }
    out
}

/// The list of tasks for the root project `root` and its `children` when the run is in the
/// directory `cwd`: with no child, the tasks of the root project; in the root project's
/// directory, every project; else the first child whose directory `cwd` is, or nothing. The
/// directories are compared as paths; see [`spec_summary_lines`].
pub fn summary_lines(root: &ProjectConfig, children: &Vec<(String, ProjectConfig)>, cwd: &str) -> (r: Vec<
    SummaryLine,
>)
    ensures
        lines_view(r@) == spec_summary_lines(
            root.deep_view(),
            children.deep_view(),
            path_equal(cwd@, root.dir@),
            dir_index(children.deep_view(), cwd@, 0),
        ),
{
    let ghost cv = children.deep_view();
    let at_root = same_path(cwd, root.dir.as_str());
    let mut here: Option<usize> = None;
    let mut k: usize = 0;
    while k < children.len()
        invariant
            k <= children.len(),
            cv == children.deep_view(),
            here is None ==> dir_index(cv, cwd@, 0) == dir_index(cv, cwd@, k as int),
            here matches Some(i) ==> i < children.len() && dir_index(cv, cwd@, 0) == Some(i as int),
        decreases children.len() - k,
    {
        if here.is_none() && same_path(cwd, children[k].1.dir.as_str()) {
            assert(cv[k as int].1.dir == children@[k as int].1.dir@);
            here = Some(k);
        } else if here.is_none() {
            assert(cv[k as int].1.dir == children@[k as int].1.dir@);
        }
        k = k + 1;
    }
    summary_lines_at(root, children, at_root, here)
}

} // verus!
