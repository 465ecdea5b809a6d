//! Tasks as the dependency graph sees them, and the rules for naming them.
use crate::config::Restart;
use crate::env::{Env, EnvConfigView};
use crate::ordered::Duplicate;
use crate::probe::{Probe, ProbeView};
use vstd::prelude::*;
use vstd::string::*;

verus! {

/// Whether `s` holds the character `#`, which separates a project name from a task name.
pub open spec fn has_hash(s: Seq<char>) -> bool {
    exists|i: int| 0 <= i < s.len() && s[i] == '#'
}

/// The position of the first `#` in `s`.
pub open spec fn is_first_hash(s: Seq<char>, i: int) -> bool {
    &&& 0 <= i < s.len()
    &&& s[i] == '#'
    &&& forall|j: int| 0 <= j < i ==> s[j] != '#'
}

/// The place of the first `#` in a name that holds one.
pub open spec fn first_hash(s: Seq<char>) -> int {
    choose|i: int| is_first_hash(s, i)
}

/// A full task name split at its first `#`: the project name, if it has one, and the task name.
pub open spec fn spec_split_name(s: Seq<char>) -> (Option<Seq<char>>, Seq<char>) {
    if has_hash(s) {
        (Some(s.take(first_hash(s))), s.skip(first_hash(s) + 1))
    } else {
        (None, s)
    }
}

/// The first `#` is the only one with no `#` before it.
pub proof fn lemma_first_hash(s: Seq<char>, i: int)
    requires
        is_first_hash(s, i),
    ensures
        has_hash(s),
        first_hash(s) == i,
{
    let j = first_hash(s);
    assert(is_first_hash(s, j));
    if j < i {
        assert(s[j] != '#');
    } else if i < j {
        assert(s[i] != '#');
    }
}

/// The full name of a task: the task name as is when it is already qualified, that is when it
/// holds a `#`, or else the project name, `#` and the task name.
pub open spec fn spec_qualified_name(project: Seq<char>, task: Seq<char>) -> Seq<char> {
    if has_hash(task) {
        task
    } else {
        project + seq!['#'] + task
    }
}

/// Finds the first `#` in `s`.
pub(crate) fn find_hash(s: &str) -> (r: Option<usize>)
    ensures
        match r {
            Some(i) => is_first_hash(s@, i as int),
            None => !has_hash(s@),
        },
{
    let n = s.unicode_len();
    let mut i: usize = 0;
    while i < n
        invariant
            n == s@.len(),
            i <= n,
            forall|j: int| 0 <= j < i ==> s@[j] != '#',
        decreases n - i,
    {
        if s.get_char(i) == '#' {
            return Some(i);
        }
        i = i + 1;
    }
    None
}

/// A dependency of a task on another task.
#[derive(Debug)]
pub struct DependsOn {
    /// Full name of the dependency task
    pub task: String,
    /// Whether the dependent task re-runs when this dependency re-runs, in watch mode
    pub cascade: bool,
    /// Run the dependent task even if this dependency fails: the dependent task is a finalizer
    pub always: bool,
}

/// An entry of `wait_for`: the task to run after, without depending on it.
#[derive(Debug)]
pub struct WaitFor {
    /// Name of the task to wait for, as written in the config, so it names every variant of it
    pub task: String,
    /// Variables narrowing down which variants to wait for, each value as JSON text.
    /// Only these are compared, so a variant may differ in the others. Empty means every variant.
    pub vars: Vec<(String, String)>,
}

/// What the task graph reads of a task.
#[derive(Debug)]
pub struct Task {
    /// Full name, ex: `project#task`; a variant carries a suffix (-1, -2, ...)
    pub name: String,
    /// Full name as given in the config, shared by all the variants of a task
    pub orig_name: String,
    /// Dependency tasks
    pub depends_on: Vec<DependsOn>,
    /// Tasks to run after, without depending on them
    pub wait_for: Vec<WaitFor>,
    /// Resolved template variables, each value as JSON text
    pub vars: Vec<(String, String)>,
    /// Whether the task is a service
    pub is_service: bool,
    /// Label to show, the name as written by default
    pub label: String,
    /// Command to run
    pub command: String,
    /// Shell command
    pub shell: String,
    /// Arguments of the shell command
    pub shell_args: Vec<String>,
    /// Directory the command runs in
    pub working_dir: String,
    /// Environment of the command
    pub env: Env,
    /// How a service tells that it is ready
    pub probe: Probe,
    /// Restart policy of a service
    pub restart: Restart,
    /// Seconds between `SIGINT` and `SIGKILL` on stop
    pub stop_timeout: u64,
    /// Input files, with the dotenv files of the task
    pub inputs: Vec<String>,
    /// Output files, with the dotenv files of the task
    pub outputs: Vec<String>,
}

/// A variable as a name and a value.
pub type VarView = (Seq<char>, Seq<char>);

/// The variables of a list, by their text.
pub open spec fn vars_view(vars: Seq<(String, String)>) -> Seq<VarView> {
    vars.map_values(|p: (String, String)| (p.0@, p.1@))
}

/// What a dependency says.
pub struct DependsOnView {
    pub task: Seq<char>,
    pub cascade: bool,
    pub always: bool,
}

/// What a `wait_for` entry says.
pub struct WaitForView {
    pub task: Seq<char>,
    pub vars: Seq<VarView>,
}

/// What a task says.
pub struct TaskView {
    pub name: Seq<char>,
    pub orig_name: Seq<char>,
    pub depends_on: Seq<DependsOnView>,
    pub wait_for: Seq<WaitForView>,
    pub vars: Seq<VarView>,
    pub is_service: bool,
    pub label: Seq<char>,
    pub command: Seq<char>,
    pub shell: Seq<char>,
    pub shell_args: Seq<Seq<char>>,
    pub working_dir: Seq<char>,
    pub env: Seq<EnvConfigView>,
    pub probe: ProbeView,
    pub restart: Restart,
    pub stop_timeout: u64,
    pub inputs: Seq<Seq<char>>,
    pub outputs: Seq<Seq<char>>,
}

impl View for DependsOn {
    type V = DependsOnView;

    open spec fn view(&self) -> DependsOnView {
        DependsOnView { task: self.task@, cascade: self.cascade, always: self.always }
    }
}

impl View for WaitFor {
    type V = WaitForView;

    open spec fn view(&self) -> WaitForView {
        WaitForView { task: self.task@, vars: vars_view(self.vars@) }
    }
}

impl View for Task {
    type V = TaskView;

    open spec fn view(&self) -> TaskView {
        TaskView {
            name: self.name@,
            orig_name: self.orig_name@,
            depends_on: self.depends_on@.map_values(|d: DependsOn| d@),
            wait_for: self.wait_for@.map_values(|w: WaitFor| w@),
            vars: vars_view(self.vars@),
            is_service: self.is_service,
            label: self.label@,
            command: self.command@,
            shell: self.shell@,
            shell_args: self.shell_args.deep_view(),
            working_dir: self.working_dir@,
            env: self.env.deep_view(),
            probe: self.probe.deep_view(),
            restart: self.restart,
            stop_timeout: self.stop_timeout,
            inputs: self.inputs.deep_view(),
            outputs: self.outputs.deep_view(),
        }
    }
}

/// The views of a list of tasks.
pub open spec fn tasks_view(tasks: Seq<Task>) -> Seq<TaskView> {
    tasks.map_values(|t: Task| t@)
}

/// Whether `vars` declares the variable `k`.
pub open spec fn has_var(vars: Seq<VarView>, k: Seq<char>) -> bool {
    exists|i: int| 0 <= i < vars.len() && vars[i].0 == k
}

/// Whether the first declaration of `k` in `vars` has the value `v`.
pub open spec fn first_var_is(vars: Seq<VarView>, k: Seq<char>, v: Seq<char>) -> bool {
    forall|i: int|
        0 <= i < vars.len() && vars[i].0 == k && (forall|j: int| 0 <= j < i ==> vars[j].0 != k)
            ==> vars[i].1 == v
}

/// Whether `w` names the task `t`: `t` is a variant of the task `w` names, and agrees with `w`
/// on every var of `w` that `t` declares.
pub open spec fn spec_wait_matches(w: WaitForView, t: TaskView) -> bool {
    &&& w.task == t.orig_name
    &&& forall|i: int|
        0 <= i < w.vars.len() && has_var(t.vars, w.vars[i].0) ==> first_var_is(
            t.vars,
            w.vars[i].0,
            w.vars[i].1,
        )
}

/// Copies a list of variables.
pub fn copy_vars(vars: &Vec<(String, String)>) -> (r: Vec<(String, String)>)
    ensures
        r@ == vars@,
{
    let mut r: Vec<(String, String)> = Vec::new();
    let mut i: usize = 0;
    while i < vars.len()
        invariant
            i <= vars.len(),
            r@ == vars@.take(i as int),
        decreases vars.len() - i,
    {
        let k = vars[i].0.clone();
        let v = vars[i].1.clone();
        r.push((k, v));
        proof {
            assert(vars@.take(i + 1) =~= vars@.take(i as int).push(vars@[i as int]));
        }
        i = i + 1;
    }
    proof {
        assert(vars@.take(vars@.len() as int) =~= vars@);
    }
    r
}

/// Finds the first declaration of `k` in `vars`.
fn find_var(vars: &Vec<(String, String)>, k: &String) -> (r: Option<usize>)
    ensures
        match r {
            Some(i) => i < vars@.len() && vars@[i as int].0@ == k@ && forall|j: int|
                0 <= j < i ==> vars@[j].0@ != k@,
            None => !has_var(vars_view(vars@), k@),
        },
{
    let mut i: usize = 0;
    while i < vars.len()
        invariant
            i <= vars.len(),
            forall|j: int| 0 <= j < i ==> vars@[j].0@ != k@,
        decreases vars.len() - i,
    {
        if vars[i].0 == *k {
            return Some(i);
        }
        i = i + 1;
    }
    None
}

impl DependsOn {
    /// Returns a copy of this dependency.
    pub fn duplicate(&self) -> (r: Self)
        ensures
            r == *self,
    {
        DependsOn { task: self.task.clone(), cascade: self.cascade, always: self.always }
    }
}

impl WaitFor {
    /// Returns a copy of this entry.
    pub fn duplicate(&self) -> (r: Self)
        ensures
            r@ == self@,
    {
        WaitFor { task: self.task.clone(), vars: copy_vars(&self.vars) }
    }

    /// Returns whether the given task is one this entry waits for.
    ///
    /// A var the task does not declare is ignored, as `depends_on.vars` ignores it when picking
    /// the variant to create.
    pub fn matches(&self, task: &Task) -> (r: bool)
        ensures
            r == spec_wait_matches(self@, task@),
    {
        if self.task != task.orig_name {
            return false;
        }
        let mut i: usize = 0;
        while i < self.vars.len()
            invariant
                i <= self.vars@.len(),
                self.task@ == task.orig_name@,
                forall|j: int|
                    0 <= j < i && has_var(task@.vars, self@.vars[j].0) ==> first_var_is(
                        task@.vars,
                        self@.vars[j].0,
                        self@.vars[j].1,
                    ),
            decreases self.vars.len() - i,
        {
            match find_var(&task.vars, &self.vars[i].0) {
                Some(p) => {
                    let ghost tv = task@.vars;
                    let ghost k = self@.vars[i as int].0;
                    let ghost v = self@.vars[i as int].1;
                    assert(tv[p as int].0 == k);
                    if task.vars[p].1 != self.vars[i].1 {
                        assert(has_var(tv, k));
                        assert(!first_var_is(tv, k, v));
                        return false;
                    }
                    assert(first_var_is(tv, k, v)) by {
                        assert forall|a: int|
                            0 <= a < tv.len() && tv[a].0 == k && (forall|b: int| 0 <= b < a ==> tv[b].0 != k)
                            implies tv[a].1 == v by {
                            if a < p {
                                assert(tv[a].0 != k);
                            }
                            if a > p {
                                assert(tv[p as int].0 != k);
                            }
                        }
                    }
                },
                None => {
                    assert(!has_var(task@.vars, self@.vars[i as int].0));
                },
            }
            i = i + 1;
        }
        true
    }
}

impl Task {
    /// A copy of the task.
    pub fn duplicate(&self) -> (r: Self)
        ensures
            r@ == self@,
    {
        let mut depends_on: Vec<DependsOn> = Vec::new();
        let mut i: usize = 0;
        while i < self.depends_on.len()
            invariant
                i <= self.depends_on.len(),
                depends_on@ == self.depends_on@.take(i as int),
            decreases self.depends_on.len() - i,
        {
            depends_on.push(self.depends_on[i].duplicate());
            proof {
                assert(self.depends_on@.take(i + 1) =~= self.depends_on@.take(i as int).push(self.depends_on@[i as int]));
            }
            i = i + 1;
        }
        proof {
            assert(self.depends_on@.take(self.depends_on@.len() as int) =~= self.depends_on@);
        }
        let mut wait_for: Vec<WaitFor> = Vec::new();
        let mut i: usize = 0;
        while i < self.wait_for.len()
            invariant
                i <= self.wait_for.len(),
                wait_for@.len() == i,
                forall|j: int| 0 <= j < i ==> #[trigger] wait_for@[j]@ == self.wait_for@[j]@,
            decreases self.wait_for.len() - i,
        {
            wait_for.push(self.wait_for[i].duplicate());
            i = i + 1;
        }
        let r = Task {
            name: self.name.clone(),
            orig_name: self.orig_name.clone(),
            depends_on,
            wait_for,
            vars: copy_vars(&self.vars),
            is_service: self.is_service,
            label: self.label.clone(),
            command: self.command.clone(),
            shell: self.shell.clone(),
            shell_args: self.shell_args.duplicate(),
            working_dir: self.working_dir.clone(),
            env: self.env.duplicate(),
            probe: self.probe.duplicate(),
            restart: self.restart,
            stop_timeout: self.stop_timeout,
            inputs: self.inputs.duplicate(),
            outputs: self.outputs.duplicate(),
        };
        assert(r@.wait_for =~= self@.wait_for);
        assert(r@.depends_on =~= self@.depends_on);
        r
    }

    /// Splits a full task name into its project name and task name, at the first `#`.
    /// A name without `#` has no project name.
    pub fn split_name(task_name: &str) -> (r: (Option<&str>, &str))
        ensures
            has_hash(task_name@) ==> exists|i: int|
                is_first_hash(task_name@, i) && r.0 is Some && r.0->0@ == task_name@.take(i)
                    && r.1@ == task_name@.skip(i + 1),
            !has_hash(task_name@) ==> r.0 is None && r.1@ == task_name@,
            spec_split_name(task_name@) == (match r.0 {
                Some(p) => Some(p@),
                None => None,
            }, r.1@),
    {
        match find_hash(task_name) {
            Some(i) => {
                proof {
                    lemma_first_hash(task_name@, i as int);
                }
                let n = task_name.unicode_len();
                let p = task_name.substring_char(0, i);
                let t = task_name.substring_char(i + 1, n);
                assert(task_name@.subrange(0, i as int) =~= task_name@.take(i as int));
                assert(task_name@.subrange(i + 1, n as int) =~= task_name@.skip(i + 1));
                (Some(p), t)
            },
            None => (None, task_name),
        }
    }

    /// The full name of a task in a project: the task name as is when it already names its
    /// project, or else `project#task`.
    pub fn qualified_name(project_name: &str, task_name: &str) -> (r: String)
        ensures
            r@ == spec_qualified_name(project_name@, task_name@),
    {
        match find_hash(task_name) {
            Some(_) => String::from_str(task_name),
            None => {
                let mut s = String::from_str(project_name);
                let sep = "#";
                proof {
                    reveal_strlit("#");
                }
                s.append(sep);
                s.append(task_name);
                s
            },
        }
    }
}

/// Splitting the full name of a task gives back its project and its name: for a project
/// name and a task name without `#`, the full name `project#task` splits into them.
pub proof fn law_split_undoes_qualify(project: Seq<char>, task: Seq<char>)
    requires
        !has_hash(project),
        !has_hash(task),
    ensures
        spec_split_name(spec_qualified_name(project, task)) == (Some(project), task),
{
    let full = project + seq!['#'] + task;
    assert(spec_qualified_name(project, task) == full);
    let i = project.len() as int;
    assert(full[i] == '#');
    assert forall|j: int| 0 <= j < i implies full[j] != '#' by {
        assert(full[j] == project[j]);
    }
    assert(is_first_hash(full, i));
    lemma_first_hash(full, i);
    assert(full.take(i) =~= project);
    assert(full.skip(i + 1) =~= task);
}

/// The largest of the times, 0 for none.
pub open spec fn latest(times: Seq<u64>) -> u64
    decreases times.len(),
{
    if times.len() == 0 {
        0
    } else if times.last() > latest(times.drop_last()) {
        times.last()
    } else {
        latest(times.drop_last())
    }
}

/// The latest of some times is their maximum: no time is later, and it is one of them; it is 0
/// when there are none.
pub proof fn law_latest_is_the_maximum(times: Seq<u64>)
    ensures
        forall|i: int| 0 <= i < times.len() ==> times[i] <= latest(times),
        times.len() == 0 ==> latest(times) == 0,
        times.len() > 0 ==> exists|i: int| 0 <= i < times.len() && times[i] == latest(times),
    decreases times.len(),
{
    if times.len() > 0 {
        let rest = times.drop_last();
        law_latest_is_the_maximum(rest);
        assert forall|i: int| 0 <= i < times.len() implies times[i] <= latest(times) by {
            if i < times.len() - 1 {
                assert(times[i] == rest[i]);
            }
        }
        if times.last() > latest(rest) {
            assert(times[times.len() - 1] == latest(times));
        } else if rest.len() == 0 {
            assert(times[0] == 0 || times[0] <= 0);
            assert(times[0] == latest(times));
        } else {
            let j = choose|j: int| 0 <= j < rest.len() && rest[j] == latest(rest);
            assert(times[j] == latest(times));
        }
    }
}

/// A task with inputs and outputs that is no service is up to date exactly when one of its
/// outputs was modified after every one of its inputs: the newest input is compared with the
/// newest output.
pub proof fn law_up_to_date_compares_the_newest(inputs: Seq<u64>, outputs: Seq<u64>)
    requires
        inputs.len() > 0,
        outputs.len() > 0,
    ensures
        (latest(inputs) < latest(outputs)) <==> exists|j: int|
            #![trigger outputs[j]]
            0 <= j < outputs.len() && forall|i: int| 0 <= i < inputs.len() ==> #[trigger] inputs[i] < outputs[j],
{
    law_latest_is_the_maximum(inputs);
    law_latest_is_the_maximum(outputs);
    if latest(inputs) < latest(outputs) {
        let j = choose|j: int| 0 <= j < outputs.len() && outputs[j] == latest(outputs);
        assert forall|i: int| 0 <= i < inputs.len() implies #[trigger] inputs[i] < outputs[j] by {
            assert(inputs[i] <= latest(inputs));
        }
    }
    if exists|j: int|
        #![trigger outputs[j]]
        0 <= j < outputs.len() && forall|i: int| 0 <= i < inputs.len() ==> #[trigger] inputs[i] < outputs[j] {
        let j = choose|j: int|
            #![trigger outputs[j]]
            0 <= j < outputs.len() && forall|i: int| 0 <= i < inputs.len() ==> #[trigger] inputs[i] < outputs[j];
        let k = choose|k: int| 0 <= k < inputs.len() && inputs[k] == latest(inputs);
        assert(inputs[k] < outputs[j]);
        assert(outputs[j] <= latest(outputs));
    }
}

fn latest_of(times: &Vec<u64>) -> (r: u64)
    ensures
        r == latest(times@),
{
    let mut m: u64 = 0;
    let mut i: usize = 0;
    while i < times.len()
        invariant
            i <= times.len(),
            m == latest(times@.take(i as int)),
        decreases times.len() - i,
    {
        proof {
            let next = times@.take(i + 1);
            assert(next.drop_last() =~= times@.take(i as int));
            assert(next.last() == times@[i as int]);
        }
        if times[i] > m {
            m = times[i];
        }
        i = i + 1;
    }
    assert(times@.take(times.len() as int) =~= times@);
    m
}

/// Whether `pattern` is a glob `globmatch` accepts: not empty, and compiled by `globset`.
pub uninterp spec fn glob_valid(pattern: Seq<char>) -> bool;

/// Whether the path `path` matches the glob `pattern`, as `globmatch` matches it.
pub uninterp spec fn glob_match(pattern: Seq<char>, path: Seq<char>) -> bool;

/// Matches `path` against the glob `pattern`: `globmatch::Builder::new(pattern).build_glob()`,
/// then `Glob::is_match`. The glob borrows the pattern, so both calls stand together. The
/// contract names whether the pattern compiles and whether the path matches; the message of a
/// refused pattern is not stated.
#[verifier::external_body]
fn glob_is_match(pattern: &str, path: &str) -> (r: Result<bool, String>)
    ensures
        r is Ok <==> glob_valid(pattern@),
        r matches Ok(b) ==> b == glob_match(pattern@, path@),
{
    let glob = globmatch::Builder::new(pattern).build_glob()?;
    Ok(glob.is_match(path))
}

impl Task {
    /// Whether the task can be skipped: it is no service, it has input and output files, and
    /// the latest input was modified before the latest output. `input_latest` and
    /// `output_latest` hold, for each of its input and output patterns, the latest modification
    /// time in seconds of the files it matches, 0 when it matches none.
    pub fn is_up_to_date(&self, input_latest: &Vec<u64>, output_latest: &Vec<u64>) -> (r: bool)
        requires
            input_latest.len() == self.inputs.len(),
            output_latest.len() == self.outputs.len(),
        ensures
            r == (!self.is_service && self.inputs.len() > 0 && self.outputs.len() > 0 && latest(input_latest@)
                < latest(output_latest@)),
    {
        if self.is_service {
            return false;
        }
        if self.inputs.len() == 0 || self.outputs.len() == 0 {
            return false;
        }
        latest_of(input_latest) < latest_of(output_latest)
    }

    /// Whether one of `paths` matches one of the input patterns of the task; a pattern that is
    /// no valid glob matches nothing.
    pub fn match_inputs(&self, paths: &Vec<String>) -> (r: bool)
        ensures
            r == exists|i: int, j: int|
                0 <= i < self.inputs.len() && 0 <= j < paths.len() && glob_valid(self.inputs@[i]@)
                    && glob_match(self.inputs@[i]@, paths@[j]@),
    {
        let mut i: usize = 0;
        while i < self.inputs.len()
            invariant
                i <= self.inputs.len(),
                forall|a: int, b: int|
                    0 <= a < i && 0 <= b < paths.len() ==> !(glob_valid(self.inputs@[a]@) && glob_match(
                        self.inputs@[a]@,
                        paths@[b]@,
                    )),
            decreases self.inputs.len() - i,
        {
            let mut j: usize = 0;
            let mut valid = true;
            while j < paths.len() && valid
                invariant
                    i < self.inputs.len(),
                    j <= paths.len(),
                    forall|a: int, b: int|
                        0 <= a < i && 0 <= b < paths.len() ==> !(glob_valid(self.inputs@[a]@) && glob_match(
                            self.inputs@[a]@,
                            paths@[b]@,
                        )),
                    !valid ==> !glob_valid(self.inputs@[i as int]@),
                    forall|b: int|
                        0 <= b < j ==> !(glob_valid(self.inputs@[i as int]@) && glob_match(
                            self.inputs@[i as int]@,
                            paths@[b]@,
                        )),
                decreases paths.len() - j,
            {
                match glob_is_match(self.inputs[i].as_str(), paths[j].as_str()) {
                    Ok(true) => {
                        return true;
                    },
                    Ok(false) => {},
                    Err(_) => {
                        valid = false;
                    },
                }
                j = j + 1;
            }
            i = i + 1;
        }
        false
    }
}

} // verus!
