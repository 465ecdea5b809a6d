//! The configuration of a project as it is written: tasks, variables, dependencies, services and
//! the `defaults` entries, with what each means as a mathematical value and how `defaults` are
//! applied to the tasks.
use crate::config::{
    compile_pattern, default_stop_timeout, regex_match, regex_valid, LogConfig, LogProbeConfig, Restart, ShellConfig, TaskSelector, UI,
};
use crate::ordered::{append_copies, has_key, keys_unique, law_extend_later_wins, map_extend, map_extend_copies, map_get, Duplicate};
use crate::env::{env_layer, Env, EnvConfigView};
use crate::path::{absolute_or_join, paths_under, spec_absolute_or_join, spec_paths_under};
use crate::probe::{ExecProbe, LogLineProbe, Probe, ProbeView};
use crate::project::{has_hash, spec_qualified_name, vars_view, DependsOn, DependsOnView, Task, VarView, WaitFor, WaitForView};
use vstd::prelude::*;

verus! {

// ----- Values -----

/// What a shell setting says.
pub struct ShellView {
    pub command: Seq<char>,
    pub args: Seq<Seq<char>>,
}

impl DeepView for ShellConfig {
    type V = ShellView;

    open spec fn deep_view(&self) -> ShellView {
        ShellView { command: self.command@, args: self.args.deep_view() }
    }
}

impl Duplicate for ShellConfig {
    fn duplicate(&self) -> (r: ShellConfig) {
        ShellConfig { command: self.command.clone(), args: self.args.duplicate() }
    }
}

impl DeepView for Restart {
    type V = Restart;

    open spec fn deep_view(&self) -> Restart {
        *self
    }
}

impl Duplicate for Restart {
    fn duplicate(&self) -> (r: Restart) {
        *self
    }
}

/// What a task selector says.
pub enum SelectorView {
    Regex(Seq<char>),
    List(Seq<Seq<char>>),
}

impl DeepView for TaskSelector {
    type V = SelectorView;

    open spec fn deep_view(&self) -> SelectorView {
        match self {
            TaskSelector::Regex(p) => SelectorView::Regex(p@),
            TaskSelector::List(names) => SelectorView::List(names.deep_view()),
        }
    }
}

impl Duplicate for TaskSelector {
    fn duplicate(&self) -> (r: TaskSelector) {
        match self {
            TaskSelector::Regex(p) => TaskSelector::Regex(p.clone()),
            TaskSelector::List(names) => TaskSelector::List(names.duplicate()),
        }
    }
}

/// Whether a selector picks the task `name`; see [`crate::config::selects`].
pub open spec fn selects_view(s: SelectorView, name: Seq<char>) -> bool {
    match s {
        SelectorView::Regex(p) => p.len() > 0 && regex_valid(p) && regex_match(p, name),
        SelectorView::List(names) => names.len() > 0 && names.contains(name),
    }
}

proof fn lemma_selects_view(s: TaskSelector, name: Seq<char>)
    ensures
        crate::config::selects(s, name) == selects_view(s.deep_view(), name),
{
    match s {
        TaskSelector::Regex(_) => {},
        TaskSelector::List(names) => {
            let dv = names.deep_view();
            if crate::config::holds_name(names@, name) {
                let i = choose|i: int| 0 <= i < names@.len() && names@[i]@ == name;
                assert(dv[i] == name);
            }
            if dv.contains(name) {
                let i = choose|i: int| 0 <= i < dv.len() && dv[i] == name;
                assert(names@[i]@ == name);
            }
        },
    }
}

// ----- Variables -----

/// A variable declared with a type: `foo: { type: array, default: [a, b] }`.
#[derive(Debug)]
pub struct TypedVars {
    /// Name of the type, ex: `string`, `array`
    pub var_type: String,
    /// The default value as JSON text, if one is given
    pub default: Option<String>,
    /// The other JSON Schema keywords, as a JSON object in text
    pub schema: String,
}

/// A variable whose value is what a command writes: `foo: { command: ... }`.
#[derive(Debug)]
pub struct DynamicVars {
    /// Command to run
    pub command: String,
    /// Name of the type, if one is declared
    pub var_type: Option<String>,
    /// The other JSON Schema keywords, as a JSON object in text
    pub schema: String,
    /// Shell to run the command in
    pub shell: Option<ShellConfig>,
    /// Environment variables
    pub env: Vec<(String, String)>,
    /// Dotenv files
    pub env_files: Vec<String>,
    /// Working directory
    pub working_dir: Option<String>,
    /// Whether the output is kept for the other uses of the same command
    pub cache: bool,
}

/// A template variable: a scalar value, a typed declaration or a dynamic variable.
#[derive(Debug)]
pub enum VarsConfig {
    Dynamic(DynamicVars),
    Typed(TypedVars),
    /// A scalar value as JSON text, ex: `"abc"`, `42`, `null`
    Static(String),
}

/// What a typed declaration says.
pub struct TypedVarsView {
    pub var_type: Seq<char>,
    pub default: Option<Seq<char>>,
    pub schema: Seq<char>,
}

/// What a dynamic variable says.
pub struct DynamicVarsView {
    pub command: Seq<char>,
    pub var_type: Option<Seq<char>>,
    pub schema: Seq<char>,
    pub shell: Option<ShellView>,
    pub env: Seq<(Seq<char>, Seq<char>)>,
    pub env_files: Seq<Seq<char>>,
    pub working_dir: Option<Seq<char>>,
    pub cache: bool,
}

/// What a variable says.
pub enum VarsView {
    Dynamic(DynamicVarsView),
    Typed(TypedVarsView),
    Static(Seq<char>),
}

impl DeepView for TypedVars {
    type V = TypedVarsView;

    open spec fn deep_view(&self) -> TypedVarsView {
        TypedVarsView {
            var_type: self.var_type@,
            default: self.default.deep_view(),
            schema: self.schema@,
        }
    }
}

impl Duplicate for TypedVars {
    fn duplicate(&self) -> (r: TypedVars) {
        TypedVars {
            var_type: self.var_type.clone(),
            default: self.default.duplicate(),
            schema: self.schema.clone(),
        }
    }
}

impl DeepView for DynamicVars {
    type V = DynamicVarsView;

    open spec fn deep_view(&self) -> DynamicVarsView {
        DynamicVarsView {
            command: self.command@,
            var_type: self.var_type.deep_view(),
            schema: self.schema@,
            shell: self.shell.deep_view(),
            env: self.env.deep_view(),
            env_files: self.env_files.deep_view(),
            working_dir: self.working_dir.deep_view(),
            cache: self.cache,
        }
    }
}

impl Duplicate for DynamicVars {
    fn duplicate(&self) -> (r: DynamicVars) {
        DynamicVars {
            command: self.command.clone(),
            var_type: self.var_type.duplicate(),
            schema: self.schema.clone(),
            shell: self.shell.duplicate(),
            env: self.env.duplicate(),
            env_files: self.env_files.duplicate(),
            working_dir: self.working_dir.duplicate(),
            cache: self.cache,
        }
    }
}

impl DeepView for VarsConfig {
    type V = VarsView;

    open spec fn deep_view(&self) -> VarsView {
        match self {
            VarsConfig::Dynamic(d) => VarsView::Dynamic(d.deep_view()),
            VarsConfig::Typed(t) => VarsView::Typed(t.deep_view()),
            VarsConfig::Static(v) => VarsView::Static(v@),
        }
    }
}

impl Duplicate for VarsConfig {
    fn duplicate(&self) -> (r: VarsConfig) {
        match self {
            VarsConfig::Dynamic(d) => VarsConfig::Dynamic(d.duplicate()),
            VarsConfig::Typed(t) => VarsConfig::Typed(t.duplicate()),
            VarsConfig::Static(v) => VarsConfig::Static(v.clone()),
        }
    }
}

/// The JSON text of `null`.
pub open spec fn null_text() -> Seq<char> {
    seq!['n', 'u', 'l', 'l']
}

/// Whether a variable is declared without a value: `null`, or a type without a default.
pub open spec fn spec_is_unset(v: VarsView) -> bool {
    match v {
        VarsView::Static(t) => t == null_text(),
        VarsView::Typed(t) => t.default is None || t.default == Some(null_text()),
        VarsView::Dynamic(_) => false,
    }
}

/// The declaration that `value` makes of a variable declared as `declared`: a declared type is
/// kept, with the value as its default, when the value is a scalar; otherwise the value as it is.
pub open spec fn spec_with_value(declared: VarsView, value: VarsView) -> VarsView {
    let typed: Option<(Seq<char>, Seq<char>)> = match declared {
        VarsView::Typed(t) => Some((t.var_type, t.schema)),
        VarsView::Dynamic(d) => match d.var_type {
            Some(n) => Some((n, d.schema)),
            None => None,
        },
        VarsView::Static(_) => None,
    };
    match (typed, value) {
        (Some((n, schema)), VarsView::Static(v)) => VarsView::Typed(
            TypedVarsView { var_type: n, default: Some(v), schema },
        ),
        _ => value,
    }
}

fn is_null_text(t: &String) -> (r: bool)
    ensures
        r == (t@ == null_text()),
{
    let n = "null";
    proof {
        reveal_strlit("null");
        assert(n@ =~= null_text());
    }
    crate::text::same_text(t.as_str(), n)
}

impl VarsConfig {
    /// Returns whether the variable is declared without a value, ex: `foo:` or
    /// `foo: { type: string }`. Such a variable has no default, so it must be given a value
    /// before the task runs.
    pub fn is_unset(&self) -> (r: bool)
        ensures
            r == spec_is_unset(self.deep_view()),
    {
        match self {
            VarsConfig::Static(t) => is_null_text(t),
            VarsConfig::Typed(t) => match &t.default {
                None => true,
                Some(d) => is_null_text(d),
            },
            VarsConfig::Dynamic(_) => false,
        }
    }

    /// Returns the declaration to use when `value` overrides this one: a typed declaration
    /// keeps its type, so the value is read according to it; otherwise the value replaces the
    /// declaration as it is.
    pub fn with_value(&self, value: &VarsConfig) -> (r: VarsConfig)
        ensures
            r.deep_view() == spec_with_value(self.deep_view(), value.deep_view()),
    {
        let typed: Option<(&String, &String)> = match self {
            VarsConfig::Typed(t) => Some((&t.var_type, &t.schema)),
            VarsConfig::Dynamic(d) => match &d.var_type {
                Some(n) => Some((n, &d.schema)),
                None => None,
            },
            VarsConfig::Static(_) => None,
        };
        match (typed, value) {
            (Some((n, schema)), VarsConfig::Static(v)) => VarsConfig::Typed(
                TypedVars { var_type: n.clone(), default: Some(v.clone()), schema: schema.clone() },
            ),
            _ => value.duplicate(),
        }
    }
}

// ----- References to tasks -----

/// A dependency written as an object: the task, variables overriding its own, and whether
/// the dependent task re-runs with it.
#[derive(Debug)]
pub struct DependsOnConfigStruct {
    pub task: String,
    pub vars: Vec<(String, VarsConfig)>,
    pub cascade: bool,
}

/// A dependency: a task name, or an object.
#[derive(Debug)]
pub enum DependsOnConfig {
    String(String),
    Struct(DependsOnConfigStruct),
}

/// A `wait_for` entry written as an object: the task and the variables its variants must have.
#[derive(Debug)]
pub struct WaitForConfigStruct {
    pub task: String,
    pub vars: Vec<(String, VarsConfig)>,
}

/// A task to run after: a task name, or an object.
#[derive(Debug)]
pub enum WaitForConfig {
    String(String),
    Struct(WaitForConfigStruct),
}

/// A `finalized_by` entry written as an object: the finalizer and variables overriding its own.
#[derive(Debug)]
pub struct FinalizedByConfigStruct {
    pub task: String,
    pub vars: Vec<(String, VarsConfig)>,
}

/// A task that runs after this one, whether it succeeds or fails: a task name, or an object.
#[derive(Debug)]
pub enum FinalizedByConfig {
    String(String),
    Struct(FinalizedByConfigStruct),
}

/// The variables of a map, by what they say.
pub type VarsMapView = Seq<(Seq<char>, VarsView)>;

/// What a dependency says.
pub enum DependsOnConfigView {
    Name(Seq<char>),
    Struct { task: Seq<char>, vars: VarsMapView, cascade: bool },
}

/// What a `wait_for` or `finalized_by` entry says.
pub enum TaskRefView {
    Name(Seq<char>),
    Struct { task: Seq<char>, vars: VarsMapView },
}

impl DependsOnConfigView {
    /// The task it names.
    pub open spec fn task(self) -> Seq<char> {
        match self {
            DependsOnConfigView::Name(n) => n,
            DependsOnConfigView::Struct { task, .. } => task,
        }
    }
}

impl TaskRefView {
    /// The task it names.
    pub open spec fn task(self) -> Seq<char> {
        match self {
            TaskRefView::Name(n) => n,
            TaskRefView::Struct { task, .. } => task,
        }
    }
}

impl DeepView for DependsOnConfig {
    type V = DependsOnConfigView;

    open spec fn deep_view(&self) -> DependsOnConfigView {
        match self {
            DependsOnConfig::String(s) => DependsOnConfigView::Name(s@),
            DependsOnConfig::Struct(s) => DependsOnConfigView::Struct {
                task: s.task@,
                vars: s.vars.deep_view(),
                cascade: s.cascade,
            },
        }
    }
}

impl Duplicate for DependsOnConfig {
    fn duplicate(&self) -> (r: DependsOnConfig) {
        match self {
            DependsOnConfig::String(s) => DependsOnConfig::String(s.clone()),
            DependsOnConfig::Struct(s) => DependsOnConfig::Struct(
                DependsOnConfigStruct { task: s.task.clone(), vars: s.vars.duplicate(), cascade: s.cascade },
            ),
        }
    }
}

impl DeepView for WaitForConfig {
    type V = TaskRefView;

    open spec fn deep_view(&self) -> TaskRefView {
        match self {
            WaitForConfig::String(s) => TaskRefView::Name(s@),
            WaitForConfig::Struct(s) => TaskRefView::Struct { task: s.task@, vars: s.vars.deep_view() },
        }
    }
}

impl Duplicate for WaitForConfig {
    fn duplicate(&self) -> (r: WaitForConfig) {
        match self {
            WaitForConfig::String(s) => WaitForConfig::String(s.clone()),
            WaitForConfig::Struct(s) => WaitForConfig::Struct(
                WaitForConfigStruct { task: s.task.clone(), vars: s.vars.duplicate() },
            ),
        }
    }
}

impl DeepView for FinalizedByConfig {
    type V = TaskRefView;

    open spec fn deep_view(&self) -> TaskRefView {
        match self {
            FinalizedByConfig::String(s) => TaskRefView::Name(s@),
            FinalizedByConfig::Struct(s) => TaskRefView::Struct { task: s.task@, vars: s.vars.deep_view() },
        }
    }
}

impl Duplicate for FinalizedByConfig {
    fn duplicate(&self) -> (r: FinalizedByConfig) {
        match self {
            FinalizedByConfig::String(s) => FinalizedByConfig::String(s.clone()),
            FinalizedByConfig::Struct(s) => FinalizedByConfig::Struct(
                FinalizedByConfigStruct { task: s.task.clone(), vars: s.vars.duplicate() },
            ),
        }
    }
}

impl DependsOnConfig {
    /// The task it names.
    pub fn task(&self) -> (r: &str)
        ensures
            r@ == self.deep_view().task(),
    {
        match self {
            DependsOnConfig::String(s) => s.as_str(),
            DependsOnConfig::Struct(s) => s.task.as_str(),
        }
    }

    /// The same dependency on the task named `task`.
    pub fn with_task(&self, task: String) -> (r: DependsOnConfig)
        ensures
            r.deep_view() == (match self.deep_view() {
                DependsOnConfigView::Name(_) => DependsOnConfigView::Name(task@),
                DependsOnConfigView::Struct { vars, cascade, .. } => DependsOnConfigView::Struct { task: task@, vars, cascade },
            }),
    {
        match self {
            DependsOnConfig::String(_) => DependsOnConfig::String(task),
            DependsOnConfig::Struct(s) => DependsOnConfig::Struct(
                DependsOnConfigStruct { task, vars: s.vars.duplicate(), cascade: s.cascade },
            ),
        }
    }
}

/// The same entry naming `task`.
pub open spec fn ref_with_task(r: TaskRefView, task: Seq<char>) -> TaskRefView {
    match r {
        TaskRefView::Name(_) => TaskRefView::Name(task),
        TaskRefView::Struct { vars, .. } => TaskRefView::Struct { task, vars },
    }
}

impl WaitForConfig {
    /// The task it names.
    pub fn task(&self) -> (r: &str)
        ensures
            r@ == self.deep_view().task(),
    {
        match self {
            WaitForConfig::String(s) => s.as_str(),
            WaitForConfig::Struct(s) => s.task.as_str(),
        }
    }

    /// The variables the variants must have, for an entry written as an object.
    pub fn vars(&self) -> (r: Option<&Vec<(String, VarsConfig)>>)
        ensures
            r matches Some(v) ==> self.deep_view() == (TaskRefView::Struct {
                task: self.deep_view().task(),
                vars: v.deep_view(),
            }),
            r is None <==> self.deep_view() is Name,
    {
        match self {
            WaitForConfig::String(_) => None,
            WaitForConfig::Struct(s) => Some(&s.vars),
        }
    }

    /// The same entry naming `task`.
    pub fn with_task(&self, task: String) -> (r: WaitForConfig)
        ensures
            r.deep_view() == ref_with_task(self.deep_view(), task@),
    {
        match self {
            WaitForConfig::String(_) => WaitForConfig::String(task),
            WaitForConfig::Struct(s) => WaitForConfig::Struct(WaitForConfigStruct { task, vars: s.vars.duplicate() }),
        }
    }
}

impl FinalizedByConfig {
    /// The task it names.
    pub fn task(&self) -> (r: &str)
        ensures
            r@ == self.deep_view().task(),
    {
        match self {
            FinalizedByConfig::String(s) => s.as_str(),
            FinalizedByConfig::Struct(s) => s.task.as_str(),
        }
    }

    /// The same entry naming `task`.
    pub fn with_task(&self, task: String) -> (r: FinalizedByConfig)
        ensures
            r.deep_view() == ref_with_task(self.deep_view(), task@),
    {
        match self {
            FinalizedByConfig::String(_) => FinalizedByConfig::String(task),
            FinalizedByConfig::Struct(s) => FinalizedByConfig::Struct(
                FinalizedByConfigStruct { task, vars: s.vars.duplicate() },
            ),
        }
    }
}

// ----- Services -----

/// A readiness probe that runs a command until it succeeds.
#[derive(Debug)]
pub struct ExecProbeConfig {
    /// Command to run
    pub command: String,
    /// Shell to run it in
    pub shell: Option<ShellConfig>,
    /// Working directory
    pub working_dir: Option<String>,
    /// Environment variables
    pub env: Vec<(String, String)>,
    /// Dotenv files
    pub env_files: Vec<String>,
    /// Seconds between tries
    pub interval: u64,
    /// Seconds a try may take
    pub timeout: u64,
    /// Failed tries allowed before giving up
    pub retries: u64,
    /// Seconds from the start during which a failed try does not count
    pub start_period: u64,
}

/// How to tell that a service is ready.
#[derive(Debug)]
pub enum HealthCheckConfig {
    Log(LogProbeConfig),
    Exec(ExecProbeConfig),
}

/// A service written as an object: its readiness probe and restart policy.
#[derive(Debug)]
pub struct ServiceConfigStruct {
    pub healthcheck: Option<HealthCheckConfig>,
    pub restart: Restart,
}

/// Whether a task is a service: a flag, or an object that makes it one.
#[derive(Debug)]
pub enum ServiceConfig {
    Bool(bool),
    Struct(ServiceConfigStruct),
}

/// What a log probe says.
pub struct LogProbeView {
    pub log: Seq<char>,
    pub timeout: u64,
}

/// What a command probe says.
pub struct ExecProbeView {
    pub command: Seq<char>,
    pub shell: Option<ShellView>,
    pub working_dir: Option<Seq<char>>,
    pub env: Seq<(Seq<char>, Seq<char>)>,
    pub env_files: Seq<Seq<char>>,
    pub interval: u64,
    pub timeout: u64,
    pub retries: u64,
    pub start_period: u64,
}

/// What a readiness probe says.
pub enum HealthCheckView {
    Log(LogProbeView),
    Exec(ExecProbeView),
}

/// What a service setting says.
pub enum ServiceView {
    Bool(bool),
    Struct { healthcheck: Option<HealthCheckView>, restart: Restart },
}

impl DeepView for LogProbeConfig {
    type V = LogProbeView;

    open spec fn deep_view(&self) -> LogProbeView {
        LogProbeView { log: self.log@, timeout: self.timeout }
    }
}

impl Duplicate for LogProbeConfig {
    fn duplicate(&self) -> (r: LogProbeConfig) {
        LogProbeConfig { log: self.log.clone(), timeout: self.timeout }
    }
}

impl DeepView for ExecProbeConfig {
    type V = ExecProbeView;

    open spec fn deep_view(&self) -> ExecProbeView {
        ExecProbeView {
            command: self.command@,
            shell: self.shell.deep_view(),
            working_dir: self.working_dir.deep_view(),
            env: self.env.deep_view(),
            env_files: self.env_files.deep_view(),
            interval: self.interval,
            timeout: self.timeout,
            retries: self.retries,
            start_period: self.start_period,
        }
    }
}

impl Duplicate for ExecProbeConfig {
    fn duplicate(&self) -> (r: ExecProbeConfig) {
        ExecProbeConfig {
            command: self.command.clone(),
            shell: self.shell.duplicate(),
            working_dir: self.working_dir.duplicate(),
            env: self.env.duplicate(),
            env_files: self.env_files.duplicate(),
            interval: self.interval,
            timeout: self.timeout,
            retries: self.retries,
            start_period: self.start_period,
        }
    }
}

impl DeepView for HealthCheckConfig {
    type V = HealthCheckView;

    open spec fn deep_view(&self) -> HealthCheckView {
        match self {
            HealthCheckConfig::Log(c) => HealthCheckView::Log(c.deep_view()),
            HealthCheckConfig::Exec(c) => HealthCheckView::Exec(c.deep_view()),
        }
    }
}

impl Duplicate for HealthCheckConfig {
    fn duplicate(&self) -> (r: HealthCheckConfig) {
        match self {
            HealthCheckConfig::Log(c) => HealthCheckConfig::Log(c.duplicate()),
            HealthCheckConfig::Exec(c) => HealthCheckConfig::Exec(c.duplicate()),
        }
    }
}

impl DeepView for ServiceConfig {
    type V = ServiceView;

    open spec fn deep_view(&self) -> ServiceView {
        match self {
            ServiceConfig::Bool(b) => ServiceView::Bool(*b),
            ServiceConfig::Struct(s) => ServiceView::Struct {
                healthcheck: s.healthcheck.deep_view(),
                restart: s.restart,
            },
        }
    }
}

impl Duplicate for ServiceConfig {
    fn duplicate(&self) -> (r: ServiceConfig) {
        match self {
            ServiceConfig::Bool(b) => ServiceConfig::Bool(*b),
            ServiceConfig::Struct(s) => ServiceConfig::Struct(
                ServiceConfigStruct { healthcheck: s.healthcheck.duplicate(), restart: s.restart },
            ),
        }
    }
}

// ----- Tasks -----

/// A task as the configuration writes it.
#[derive(Debug)]
pub struct TaskConfig {
    /// Name, a variant carrying a suffix (-1, -2, ...)
    pub name: String,
    /// Name as written, shared by all the variants of the task
    pub orig_name: String,
    /// Name of the project, empty for the root project
    pub project: String,
    /// Label to show instead of the name
    pub label: Option<String>,
    pub description: Option<String>,
    /// Command to run
    pub command: Option<String>,
    pub shell: Option<ShellConfig>,
    pub working_dir: Option<String>,
    /// Template variables
    pub vars: Vec<(String, VarsConfig)>,
    /// Environment variables
    pub env: Vec<(String, String)>,
    /// Dotenv files
    pub env_files: Vec<String>,
    /// Dependency tasks
    pub depends_on: Vec<DependsOnConfig>,
    /// Tasks to run after, without depending on them
    pub wait_for: Vec<WaitForConfig>,
    /// Tasks to run after this one finishes, whether it succeeds or fails
    pub finalized_by: Vec<FinalizedByConfig>,
    /// Full names of the tasks this one finalizes, filled for each run
    pub finalizes: Vec<String>,
    pub service: Option<ServiceConfig>,
    /// Seconds between `SIGINT` and `SIGKILL` on stop
    pub stop_timeout: Option<u64>,
    /// Input file patterns
    pub inputs: Vec<String>,
    /// Output file patterns
    pub outputs: Vec<String>,
}

/// What a task's configuration says.
pub struct TaskConfigView {
    pub name: Seq<char>,
    pub orig_name: Seq<char>,
    pub project: Seq<char>,
    pub label: Option<Seq<char>>,
    pub description: Option<Seq<char>>,
    pub command: Option<Seq<char>>,
    pub shell: Option<ShellView>,
    pub working_dir: Option<Seq<char>>,
    pub vars: VarsMapView,
    pub env: Seq<(Seq<char>, Seq<char>)>,
    pub env_files: Seq<Seq<char>>,
    pub depends_on: Seq<DependsOnConfigView>,
    pub wait_for: Seq<TaskRefView>,
    pub finalized_by: Seq<TaskRefView>,
    pub finalizes: Seq<Seq<char>>,
    pub service: Option<ServiceView>,
    pub stop_timeout: Option<u64>,
    pub inputs: Seq<Seq<char>>,
    pub outputs: Seq<Seq<char>>,
}

impl DeepView for TaskConfig {
    type V = TaskConfigView;

    open spec fn deep_view(&self) -> TaskConfigView {
        TaskConfigView {
            name: self.name@,
            orig_name: self.orig_name@,
            project: self.project@,
            label: self.label.deep_view(),
            description: self.description.deep_view(),
            command: self.command.deep_view(),
            shell: self.shell.deep_view(),
            working_dir: self.working_dir.deep_view(),
            vars: self.vars.deep_view(),
            env: self.env.deep_view(),
            env_files: self.env_files.deep_view(),
            depends_on: self.depends_on.deep_view(),
            wait_for: self.wait_for.deep_view(),
            finalized_by: self.finalized_by.deep_view(),
            finalizes: self.finalizes.deep_view(),
            service: self.service.deep_view(),
            stop_timeout: self.stop_timeout,
            inputs: self.inputs.deep_view(),
            outputs: self.outputs.deep_view(),
        }
    }
}

impl Duplicate for TaskConfig {
    fn duplicate(&self) -> (r: TaskConfig) {
        TaskConfig {
            name: self.name.clone(),
            orig_name: self.orig_name.clone(),
            project: self.project.clone(),
            label: self.label.duplicate(),
            description: self.description.duplicate(),
            command: self.command.duplicate(),
            shell: self.shell.duplicate(),
            working_dir: self.working_dir.duplicate(),
            vars: self.vars.duplicate(),
            env: self.env.duplicate(),
            env_files: self.env_files.duplicate(),
            depends_on: self.depends_on.duplicate(),
            wait_for: self.wait_for.duplicate(),
            finalized_by: self.finalized_by.duplicate(),
            finalizes: self.finalizes.duplicate(),
            service: self.service.duplicate(),
            stop_timeout: self.stop_timeout,
            inputs: self.inputs.duplicate(),
            outputs: self.outputs.duplicate(),
        }
    }
}

/// `project#name`.
pub open spec fn full_name_of(project: Seq<char>, name: Seq<char>) -> Seq<char> {
    project + seq!['#'] + name
}

/// Whether a service setting makes the task a service.
pub open spec fn spec_is_service(service: Option<ServiceView>) -> bool {
    match service {
        Some(ServiceView::Bool(b)) => b,
        Some(ServiceView::Struct { .. }) => true,
        None => false,
    }
}

fn join_name(project: &String, name: &String) -> (r: String)
    ensures
        r@ == full_name_of(project@, name@),
{
    let mut s = project.clone();
    let sep = "#";
    proof {
        reveal_strlit("#");
    }
    s.append(sep);
    s.append(name.as_str());
    assert(s@ =~= full_name_of(project@, name@));
    s
}

impl TaskConfig {
    /// The full name, `project#name`.
    pub fn full_name(&self) -> (r: String)
        ensures
            r@ == full_name_of(self.project@, self.name@),
    {
        join_name(&self.project, &self.name)
    }

    /// The full name as written, `project#orig_name`.
    pub fn full_orig_name(&self) -> (r: String)
        ensures
            r@ == full_name_of(self.project@, self.orig_name@),
    {
        join_name(&self.project, &self.orig_name)
    }

    /// Whether the task is a service: `service: true`, or a service object.
    pub fn is_service(&self) -> (r: bool)
        ensures
            r == spec_is_service(self.service.deep_view()),
    {
        match &self.service {
            Some(ServiceConfig::Bool(b)) => *b,
            Some(ServiceConfig::Struct(_)) => true,
            None => false,
        }
    }
}

// ----- Defaults -----

/// Settings applied to the tasks a selector picks, or to every task without one.
#[derive(Debug)]
pub struct DefaultsConfig {
    pub tasks: Option<TaskSelector>,
    pub shell: Option<ShellConfig>,
    pub working_dir: Option<String>,
    pub vars: Vec<(String, VarsConfig)>,
    pub env: Vec<(String, String)>,
    pub env_files: Vec<String>,
    pub depends_on: Vec<DependsOnConfig>,
    pub wait_for: Vec<WaitForConfig>,
    pub service: Option<ServiceConfig>,
    pub stop_timeout: Option<u64>,
    pub inputs: Vec<String>,
    pub outputs: Vec<String>,
}

/// What a `defaults` entry says.
pub struct DefaultsView {
    pub tasks: Option<SelectorView>,
    pub shell: Option<ShellView>,
    pub working_dir: Option<Seq<char>>,
    pub vars: VarsMapView,
    pub env: Seq<(Seq<char>, Seq<char>)>,
    pub env_files: Seq<Seq<char>>,
    pub depends_on: Seq<DependsOnConfigView>,
    pub wait_for: Seq<TaskRefView>,
    pub service: Option<ServiceView>,
    pub stop_timeout: Option<u64>,
    pub inputs: Seq<Seq<char>>,
    pub outputs: Seq<Seq<char>>,
}

impl DeepView for DefaultsConfig {
    type V = DefaultsView;

    open spec fn deep_view(&self) -> DefaultsView {
        DefaultsView {
            tasks: self.tasks.deep_view(),
            shell: self.shell.deep_view(),
            working_dir: self.working_dir.deep_view(),
            vars: self.vars.deep_view(),
            env: self.env.deep_view(),
            env_files: self.env_files.deep_view(),
            depends_on: self.depends_on.deep_view(),
            wait_for: self.wait_for.deep_view(),
            service: self.service.deep_view(),
            stop_timeout: self.stop_timeout,
            inputs: self.inputs.deep_view(),
            outputs: self.outputs.deep_view(),
        }
    }
}

/// Whether a `defaults` entry applies to the task `name`: it has no selector, or its selector
/// picks the name.
pub open spec fn applies(d: DefaultsView, name: Seq<char>) -> bool {
    match d.tasks {
        None => true,
        Some(s) => selects_view(s, name),
    }
}

/// The later setting when there is one, else the earlier.
pub open spec fn later<T>(earlier: Option<T>, later: Option<T>) -> Option<T> {
    if later is Some {
        later
    } else {
        earlier
    }
}

/// `top` laid over `base`: a later setting replaces an earlier one, a later map entry replaces
/// the earlier one of its name, and lists are joined in order.
pub open spec fn layer(base: DefaultsView, top: DefaultsView) -> DefaultsView {
    DefaultsView {
        tasks: base.tasks,
        shell: later(base.shell, top.shell),
        working_dir: later(base.working_dir, top.working_dir),
        vars: map_extend(base.vars, top.vars),
        env: map_extend(base.env, top.env),
        env_files: base.env_files + top.env_files,
        depends_on: base.depends_on + top.depends_on,
        wait_for: base.wait_for + top.wait_for,
        service: later(base.service, top.service),
        stop_timeout: later(base.stop_timeout, top.stop_timeout),
        inputs: base.inputs + top.inputs,
        outputs: base.outputs + top.outputs,
    }
}

/// No settings at all.
pub open spec fn no_defaults() -> DefaultsView {
    DefaultsView {
        tasks: None,
        shell: None,
        working_dir: None,
        vars: Seq::empty(),
        env: Seq::empty(),
        env_files: Seq::empty(),
        depends_on: Seq::empty(),
        wait_for: Seq::empty(),
        service: None,
        stop_timeout: None,
        inputs: Seq::empty(),
        outputs: Seq::empty(),
    }
}

/// The entries of `ds` that apply to the task `name`, laid over each other in order.
pub open spec fn merged_defaults(ds: Seq<DefaultsView>, name: Seq<char>) -> DefaultsView
    decreases ds.len(),
{
    if ds.len() == 0 {
        no_defaults()
    } else if applies(ds.last(), name) {
        layer(merged_defaults(ds.drop_last(), name), ds.last())
    } else {
        merged_defaults(ds.drop_last(), name)
    }
}

/// Whether an entry of `ds` applies to the task `name`.
pub open spec fn any_applies(ds: Seq<DefaultsView>, name: Seq<char>) -> bool {
    exists|i: int| 0 <= i < ds.len() && applies(ds[i], name)
}

/// The task with the merged defaults as its base: its own settings win, its own map entries
/// replace those of the defaults, and the lists of the defaults come first.
pub open spec fn with_defaults(t: TaskConfigView, eff: DefaultsView) -> TaskConfigView {
    TaskConfigView {
        shell: later(eff.shell, t.shell),
        working_dir: later(eff.working_dir, t.working_dir),
        service: later(eff.service, t.service),
        stop_timeout: later(eff.stop_timeout, t.stop_timeout),
        vars: map_extend(eff.vars, t.vars),
        env: map_extend(eff.env, t.env),
        env_files: eff.env_files + t.env_files,
        depends_on: eff.depends_on + t.depends_on,
        wait_for: eff.wait_for + t.wait_for,
        inputs: eff.inputs + t.inputs,
        outputs: eff.outputs + t.outputs,
        ..t
    }
}

/// A dependency of a `defaults` entry of the project, its task named in full.
pub open spec fn qualify_dep(project: Seq<char>, d: DependsOnConfigView) -> DependsOnConfigView {
    match d {
        DependsOnConfigView::Name(n) => DependsOnConfigView::Name(spec_qualified_name(project, n)),
        DependsOnConfigView::Struct { task, vars, cascade } => DependsOnConfigView::Struct {
            task: spec_qualified_name(project, task),
            vars,
            cascade,
        },
    }
}

/// A `defaults` entry of the project with the tasks of its dependencies and `wait_for` entries
/// named in full.
pub open spec fn qualified_defaults(project: Seq<char>, d: DefaultsView) -> DefaultsView {
    DefaultsView {
        depends_on: d.depends_on.map_values(|x: DependsOnConfigView| qualify_dep(project, x)),
        wait_for: d.wait_for.map_values(|w: TaskRefView| ref_with_task(w, spec_qualified_name(project, w.task()))),
        ..d
    }
}

/// Whether a `defaults` entry selects tasks with a pattern that is no valid regular expression.
pub open spec fn has_bad_pattern(d: DefaultsView) -> bool {
    d.tasks matches Some(SelectorView::Regex(p)) && !regex_valid(p)
}

/// What the tasks become when the `defaults` entries are applied to them.
pub open spec fn tasks_with_defaults(
    tasks: Seq<(Seq<char>, TaskConfigView)>,
    ds: Seq<DefaultsView>,
) -> Seq<(Seq<char>, TaskConfigView)> {
    tasks.map_values(
        |e: (Seq<char>, TaskConfigView)|
            (e.0, if any_applies(ds, e.0) {
                with_defaults(e.1, merged_defaults(ds, e.0))
            } else {
                e.1
            }),
    )
}

/// Of two `defaults` entries that apply to a task, the later one wins: its settings, and its
/// entry for a variable or environment variable, while lists are joined in order.
pub proof fn law_later_defaults_win(base: DefaultsView, top: DefaultsView, k: Seq<char>)
    requires
        keys_unique(top.vars),
        keys_unique(top.env),
    ensures
        top.shell is Some ==> layer(base, top).shell == top.shell,
        top.working_dir is Some ==> layer(base, top).working_dir == top.working_dir,
        top.service is Some ==> layer(base, top).service == top.service,
        top.stop_timeout is Some ==> layer(base, top).stop_timeout == top.stop_timeout,
        has_key(top.vars, k) ==> map_get(layer(base, top).vars, k) == map_get(top.vars, k),
        has_key(top.env, k) ==> map_get(layer(base, top).env, k) == map_get(top.env, k),
        layer(base, top).env_files == base.env_files + top.env_files,
        layer(base, top).depends_on == base.depends_on + top.depends_on,
{
    law_extend_later_wins(base.vars, top.vars, k);
    law_extend_later_wins(base.env, top.env, k);
}

/// The settings of a task win over those of the defaults laid under it: its own settings, and
/// its own entry for a variable or environment variable; the defaults fill in the rest, and
/// their lists come before the task's.
pub proof fn law_task_settings_win(t: TaskConfigView, eff: DefaultsView, k: Seq<char>)
    requires
        keys_unique(t.vars),
        keys_unique(t.env),
    ensures
        t.shell is Some ==> with_defaults(t, eff).shell == t.shell,
        t.working_dir is Some ==> with_defaults(t, eff).working_dir == t.working_dir,
        t.service is Some ==> with_defaults(t, eff).service == t.service,
        t.stop_timeout is Some ==> with_defaults(t, eff).stop_timeout == t.stop_timeout,
        t.shell is None ==> with_defaults(t, eff).shell == eff.shell,
        map_get(with_defaults(t, eff).vars, k) == if has_key(t.vars, k) {
            map_get(t.vars, k)
        } else {
            map_get(eff.vars, k)
        },
        map_get(with_defaults(t, eff).env, k) == if has_key(t.env, k) {
            map_get(t.env, k)
        } else {
            map_get(eff.env, k)
        },
        with_defaults(t, eff).depends_on == eff.depends_on + t.depends_on,
        with_defaults(t, eff).name == t.name,
{
    law_extend_later_wins(eff.vars, t.vars, k);
    law_extend_later_wins(eff.env, t.env, k);
}

/// The entries of `ds` that apply to the task `name`, in order.
pub open spec fn applying(ds: Seq<DefaultsView>, name: Seq<char>) -> Seq<DefaultsView> {
    ds.filter(|d: DefaultsView| applies(d, name))
}

/// The last setting given in `s`, if any is.
pub open spec fn last_given<T>(s: Seq<Option<T>>) -> Option<T>
    decreases s.len(),
{
    if s.len() == 0 {
        None
    } else if s.last() is Some {
        s.last()
    } else {
        last_given(s.drop_last())
    }
}

/// The entries that apply to a task, merged in order: each setting is the last one they give,
/// each variable the last entry for it, and each list theirs joined in order.
proof fn lemma_merged_in_order(ds: Seq<DefaultsView>, name: Seq<char>, k: Seq<char>)
    requires
        forall|i: int| 0 <= i < ds.len() ==> keys_unique(#[trigger] ds[i].vars) && keys_unique(ds[i].env),
    ensures
        ({
            let m = applying(ds, name);
            let e = merged_defaults(ds, name);
            &&& e.shell == last_given(m.map_values(|d: DefaultsView| d.shell))
            &&& e.working_dir == last_given(m.map_values(|d: DefaultsView| d.working_dir))
            &&& e.service == last_given(m.map_values(|d: DefaultsView| d.service))
            &&& e.stop_timeout == last_given(m.map_values(|d: DefaultsView| d.stop_timeout))
            &&& map_get(e.vars, k) == last_given(m.map_values(|d: DefaultsView| map_get(d.vars, k)))
            &&& map_get(e.env, k) == last_given(m.map_values(|d: DefaultsView| map_get(d.env, k)))
            &&& e.env_files == m.map_values(|d: DefaultsView| d.env_files).flatten()
            &&& e.depends_on == m.map_values(|d: DefaultsView| d.depends_on).flatten()
            &&& e.wait_for == m.map_values(|d: DefaultsView| d.wait_for).flatten()
            &&& e.inputs == m.map_values(|d: DefaultsView| d.inputs).flatten()
            &&& e.outputs == m.map_values(|d: DefaultsView| d.outputs).flatten()
        }),
    decreases ds.len(),
{
    let m = applying(ds, name);
    if ds.len() == 0 {
        reveal(Seq::filter);
        assert(m =~= Seq::<DefaultsView>::empty());
        assert(map_get(Seq::<(Seq<char>, VarsView)>::empty(), k) is None);
        assert(map_get(Seq::<(Seq<char>, Seq<char>)>::empty(), k) is None);
    } else {
        let rest = ds.drop_last();
        let d = ds.last();
        lemma_merged_in_order(rest, name, k);
        assert(rest.push(d) =~= ds);
        rest.lemma_filter_push(d, |d: DefaultsView| applies(d, name));
        let mr = applying(rest, name);
        if applies(d, name) {
            assert(m == mr.push(d));
            let base = merged_defaults(rest, name);
            law_extend_later_wins(base.vars, d.vars, k);
            law_extend_later_wins(base.env, d.env, k);
            assert(m.map_values(|d: DefaultsView| d.shell) =~= mr.map_values(|d: DefaultsView| d.shell).push(d.shell));
            assert(m.map_values(|d: DefaultsView| d.working_dir) =~= mr.map_values(|d: DefaultsView| d.working_dir).push(
                d.working_dir,
            ));
            assert(m.map_values(|d: DefaultsView| d.service) =~= mr.map_values(|d: DefaultsView| d.service).push(d.service));
            assert(m.map_values(|d: DefaultsView| d.stop_timeout) =~= mr.map_values(|d: DefaultsView| d.stop_timeout).push(
                d.stop_timeout,
            ));
            assert(m.map_values(|d: DefaultsView| map_get(d.vars, k)) =~= mr.map_values(
                |d: DefaultsView| map_get(d.vars, k),
            ).push(map_get(d.vars, k)));
            assert(m.map_values(|d: DefaultsView| map_get(d.env, k)) =~= mr.map_values(
                |d: DefaultsView| map_get(d.env, k),
            ).push(map_get(d.env, k)));
            assert(m.map_values(|d: DefaultsView| d.env_files) =~= mr.map_values(|d: DefaultsView| d.env_files).push(
                d.env_files,
            ));
            assert(m.map_values(|d: DefaultsView| d.depends_on) =~= mr.map_values(|d: DefaultsView| d.depends_on).push(
                d.depends_on,
            ));
            assert(m.map_values(|d: DefaultsView| d.wait_for) =~= mr.map_values(|d: DefaultsView| d.wait_for).push(
                d.wait_for,
            ));
            assert(m.map_values(|d: DefaultsView| d.inputs) =~= mr.map_values(|d: DefaultsView| d.inputs).push(d.inputs));
            assert(m.map_values(|d: DefaultsView| d.outputs) =~= mr.map_values(|d: DefaultsView| d.outputs).push(
                d.outputs,
            ));
            mr.map_values(|d: DefaultsView| d.env_files).lemma_flatten_push(d.env_files);
            mr.map_values(|d: DefaultsView| d.depends_on).lemma_flatten_push(d.depends_on);
            mr.map_values(|d: DefaultsView| d.wait_for).lemma_flatten_push(d.wait_for);
            mr.map_values(|d: DefaultsView| d.inputs).lemma_flatten_push(d.inputs);
            mr.map_values(|d: DefaultsView| d.outputs).lemma_flatten_push(d.outputs);
            assert(mr.map_values(|d: DefaultsView| d.shell).push(d.shell).drop_last() =~= mr.map_values(
                |d: DefaultsView| d.shell,
            ));
            assert(mr.map_values(|d: DefaultsView| d.working_dir).push(d.working_dir).drop_last() =~= mr.map_values(
                |d: DefaultsView| d.working_dir,
            ));
            assert(mr.map_values(|d: DefaultsView| d.service).push(d.service).drop_last() =~= mr.map_values(
                |d: DefaultsView| d.service,
            ));
            assert(mr.map_values(|d: DefaultsView| d.stop_timeout).push(d.stop_timeout).drop_last() =~= mr.map_values(
                |d: DefaultsView| d.stop_timeout,
            ));
            assert(mr.map_values(|d: DefaultsView| map_get(d.vars, k)).push(map_get(d.vars, k)).drop_last()
                =~= mr.map_values(|d: DefaultsView| map_get(d.vars, k)));
            assert(mr.map_values(|d: DefaultsView| map_get(d.env, k)).push(map_get(d.env, k)).drop_last()
                =~= mr.map_values(|d: DefaultsView| map_get(d.env, k)));
        } else {
            assert(m == mr);
        }
    }
}

/// Applying the `defaults` entries to a task: the entries that apply to it, in order, are
/// merged and laid under the task. Each of its settings is its own, else the last one those
/// entries give; each variable and environment variable its own entry, else the last entry of
/// those entries for it; and each list the lists of those entries, in order, then its own. A
/// task no entry applies to keeps what it has.
pub proof fn law_defaults_applied_in_order(ds: Seq<DefaultsView>, name: Seq<char>, t: TaskConfigView, k: Seq<char>)
    requires
        forall|i: int| 0 <= i < ds.len() ==> keys_unique(#[trigger] ds[i].vars) && keys_unique(ds[i].env),
        keys_unique(t.vars),
        keys_unique(t.env),
    ensures
        any_applies(ds, name) <==> applying(ds, name).len() > 0,
        ({
            let m = applying(ds, name);
            let t2 = with_defaults(t, merged_defaults(ds, name));
            &&& t2.shell == later(last_given(m.map_values(|d: DefaultsView| d.shell)), t.shell)
            &&& t2.working_dir == later(last_given(m.map_values(|d: DefaultsView| d.working_dir)), t.working_dir)
            &&& t2.service == later(last_given(m.map_values(|d: DefaultsView| d.service)), t.service)
            &&& t2.stop_timeout == later(last_given(m.map_values(|d: DefaultsView| d.stop_timeout)), t.stop_timeout)
            &&& map_get(t2.vars, k) == (if has_key(t.vars, k) {
                map_get(t.vars, k)
            } else {
                last_given(m.map_values(|d: DefaultsView| map_get(d.vars, k)))
            })
            &&& map_get(t2.env, k) == (if has_key(t.env, k) {
                map_get(t.env, k)
            } else {
                last_given(m.map_values(|d: DefaultsView| map_get(d.env, k)))
            })
            &&& t2.env_files == m.map_values(|d: DefaultsView| d.env_files).flatten() + t.env_files
            &&& t2.depends_on == m.map_values(|d: DefaultsView| d.depends_on).flatten() + t.depends_on
            &&& t2.wait_for == m.map_values(|d: DefaultsView| d.wait_for).flatten() + t.wait_for
            &&& t2.inputs == m.map_values(|d: DefaultsView| d.inputs).flatten() + t.inputs
            &&& t2.outputs == m.map_values(|d: DefaultsView| d.outputs).flatten() + t.outputs
        }),
{
    let m = applying(ds, name);
    lemma_merged_in_order(ds, name, k);
    law_task_settings_win(t, merged_defaults(ds, name), k);
    if any_applies(ds, name) {
        let i = choose|i: int| 0 <= i < ds.len() && applies(ds[i], name);
        ds.lemma_filter_contains(|d: DefaultsView| applies(d, name), i);
    }
    if m.len() > 0 {
        ds.lemma_filter_pred(|d: DefaultsView| applies(d, name), 0);
        assert(m.contains(m[0]));
        ds.lemma_filter_contains_rev(|d: DefaultsView| applies(d, name), m[0]);
        let j = choose|j: int| 0 <= j < ds.len() && ds[j] == m[0];
        assert(applies(ds[j], name));
    }
}

impl DefaultsConfig {
    /// No settings at all.
    fn empty() -> (r: DefaultsConfig)
        ensures
            r.deep_view() == no_defaults(),
    {
        let r = DefaultsConfig {
            tasks: None,
            shell: None,
            working_dir: None,
            vars: Vec::new(),
            env: Vec::new(),
            env_files: Vec::new(),
            depends_on: Vec::new(),
            wait_for: Vec::new(),
            service: None,
            stop_timeout: None,
            inputs: Vec::new(),
            outputs: Vec::new(),
        };
        assert(r.deep_view().vars =~= Seq::<(Seq<char>, VarsView)>::empty());
        assert(r.deep_view().env =~= Seq::<(Seq<char>, Seq<char>)>::empty());
        assert(r.deep_view().env_files =~= Seq::<Seq<char>>::empty());
        assert(r.deep_view().depends_on =~= Seq::<DependsOnConfigView>::empty());
        assert(r.deep_view().wait_for =~= Seq::<TaskRefView>::empty());
        assert(r.deep_view().inputs =~= Seq::<Seq<char>>::empty());
        assert(r.deep_view().outputs =~= Seq::<Seq<char>>::empty());
        r
    }

    /// Lays `top` over these settings; see [`layer`].
    fn lay(&mut self, top: &DefaultsConfig)
        ensures
            final(self).deep_view() == layer(old(self).deep_view(), top.deep_view()),
    {
        if top.shell.is_some() {
            self.shell = top.shell.duplicate();
        }
        if top.working_dir.is_some() {
            self.working_dir = top.working_dir.duplicate();
        }
        if top.service.is_some() {
            self.service = top.service.duplicate();
        }
        if top.stop_timeout.is_some() {
            self.stop_timeout = top.stop_timeout;
        }
        map_extend_copies(&mut self.vars, &top.vars);
        map_extend_copies(&mut self.env, &top.env);
        append_copies(&mut self.env_files, &top.env_files);
        append_copies(&mut self.depends_on, &top.depends_on);
        append_copies(&mut self.wait_for, &top.wait_for);
        append_copies(&mut self.inputs, &top.inputs);
        append_copies(&mut self.outputs, &top.outputs);
    }

    /// The entry with the tasks of its dependencies and `wait_for` entries named in full, as
    /// tasks of the project `project`.
    fn qualified(&self, project: &str) -> (r: DefaultsConfig)
        ensures
            r.deep_view() == qualified_defaults(project@, self.deep_view()),
    {
        let mut depends_on: Vec<DependsOnConfig> = Vec::new();
        let mut i: usize = 0;
        while i < self.depends_on.len()
            invariant
                i <= self.depends_on.len(),
                depends_on.deep_view() =~= self.depends_on.deep_view().take(i as int).map_values(
                    |x: DependsOnConfigView| qualify_dep(project@, x),
                ),
            decreases self.depends_on.len() - i,
        {
            let d = &self.depends_on[i];
            let q = Task::qualified_name(project, d.task());
            let ghost before = depends_on.deep_view();
            depends_on.push(d.with_task(q));
            proof {
                assert(depends_on.deep_view() =~= before.push(qualify_dep(project@, d.deep_view())));
                assert(self.depends_on.deep_view().take(i + 1) =~= self.depends_on.deep_view().take(
                    i as int,
                ).push(d.deep_view()));
            }
            i = i + 1;
        }
        let mut wait_for: Vec<WaitForConfig> = Vec::new();
        let mut i: usize = 0;
        while i < self.wait_for.len()
            invariant
                i <= self.wait_for.len(),
                wait_for.deep_view() =~= self.wait_for.deep_view().take(i as int).map_values(
                    |w: TaskRefView| ref_with_task(w, spec_qualified_name(project@, w.task())),
                ),
            decreases self.wait_for.len() - i,
        {
            let w = &self.wait_for[i];
            let q = Task::qualified_name(project, w.task());
            let ghost before = wait_for.deep_view();
            wait_for.push(w.with_task(q));
            proof {
                assert(wait_for.deep_view() =~= before.push(
                    ref_with_task(w.deep_view(), spec_qualified_name(project@, w.deep_view().task())),
                ));
                assert(self.wait_for.deep_view().take(i + 1) =~= self.wait_for.deep_view().take(
                    i as int,
                ).push(w.deep_view()));
            }
            i = i + 1;
        }
        proof {
            assert(self.depends_on.deep_view().take(self.depends_on.len() as int) =~= self.depends_on.deep_view());
            assert(self.wait_for.deep_view().take(self.wait_for.len() as int) =~= self.wait_for.deep_view());
        }
        DefaultsConfig {
            tasks: self.tasks.duplicate(),
            shell: self.shell.duplicate(),
            working_dir: self.working_dir.duplicate(),
            vars: self.vars.duplicate(),
            env: self.env.duplicate(),
            env_files: self.env_files.duplicate(),
            depends_on,
            wait_for,
            service: self.service.duplicate(),
            stop_timeout: self.stop_timeout,
            inputs: self.inputs.duplicate(),
            outputs: self.outputs.duplicate(),
        }
    }

    /// Whether the entry applies to the task `name`; see [`applies`].
    fn applies_to(&self, name: &str) -> (r: bool)
        ensures
            r == applies(self.deep_view(), name@),
    {
        match &self.tasks {
            None => true,
            Some(s) => {
                proof {
                    lemma_selects_view(*s, name@);
                }
                s.matches(name)
            },
        }
    }
}

/// The `defaults` entries that apply to the task `name`, laid over each other in order, or
/// `None` when none applies.
fn merge_matching(ds: &Vec<DefaultsConfig>, name: &str) -> (r: Option<DefaultsConfig>)
    ensures
        r is Some <==> any_applies(ds.deep_view(), name@),
        r matches Some(e) ==> e.deep_view() == merged_defaults(ds.deep_view(), name@),
{
    let mut eff = DefaultsConfig::empty();
    let mut matched = false;
    let mut i: usize = 0;
    while i < ds.len()
        invariant
            i <= ds.len(),
            eff.deep_view() == merged_defaults(ds.deep_view().take(i as int), name@),
            matched == any_applies(ds.deep_view().take(i as int), name@),
        decreases ds.len() - i,
    {
        let ghost pre = ds.deep_view().take(i as int);
        let ghost next = ds.deep_view().take(i + 1);
        proof {
            assert(next.drop_last() =~= pre);
            assert(next.last() == ds.deep_view()[i as int]);
        }
        if ds[i].applies_to(name) {
            eff.lay(&ds[i]);
            matched = true;
            proof {
                assert(applies(next[i as int], name@));
            }
        } else {
            proof {
                if any_applies(next, name@) {
                    let j = choose|j: int| 0 <= j < next.len() && applies(next[j], name@);
                    assert(j < i);
                    assert(pre[j] == next[j]);
                }
            }
        }
        proof {
            if any_applies(pre, name@) {
                let j = choose|j: int| 0 <= j < pre.len() && applies(pre[j], name@);
                assert(next[j] == pre[j]);
            }
        }
        i = i + 1;
    }
    assert(ds.deep_view().take(ds.len() as int) =~= ds.deep_view());
    if matched {
        Some(eff)
    } else {
        None
    }
}

impl TaskConfig {
    /// The task with `eff` as its base; see [`with_defaults`].
    fn with_defaults(&self, eff: &DefaultsConfig) -> (r: TaskConfig)
        ensures
            r.deep_view() == with_defaults(self.deep_view(), eff.deep_view()),
    {
        let mut vars = eff.vars.duplicate();
        map_extend_copies(&mut vars, &self.vars);
        let mut env = eff.env.duplicate();
        map_extend_copies(&mut env, &self.env);
        let mut env_files = eff.env_files.duplicate();
        append_copies(&mut env_files, &self.env_files);
        let mut depends_on = eff.depends_on.duplicate();
        append_copies(&mut depends_on, &self.depends_on);
        let mut wait_for = eff.wait_for.duplicate();
        append_copies(&mut wait_for, &self.wait_for);
        let mut inputs = eff.inputs.duplicate();
        append_copies(&mut inputs, &self.inputs);
        let mut outputs = eff.outputs.duplicate();
        append_copies(&mut outputs, &self.outputs);
        let r = TaskConfig {
            name: self.name.clone(),
            orig_name: self.orig_name.clone(),
            project: self.project.clone(),
            label: self.label.duplicate(),
            description: self.description.duplicate(),
            command: self.command.duplicate(),
            shell: if self.shell.is_some() {
                self.shell.duplicate()
            } else {
                eff.shell.duplicate()
            },
            working_dir: if self.working_dir.is_some() {
                self.working_dir.duplicate()
            } else {
                eff.working_dir.duplicate()
            },
            vars,
            env,
            env_files,
            depends_on,
            wait_for,
            finalized_by: self.finalized_by.duplicate(),
            finalizes: self.finalizes.duplicate(),
            service: if self.service.is_some() {
                self.service.duplicate()
            } else {
                eff.service.duplicate()
            },
            stop_timeout: if self.stop_timeout.is_some() {
                self.stop_timeout
            } else {
                eff.stop_timeout
            },
            inputs,
            outputs,
        };
        r
    }
}

// ----- Projects -----

/// Why the configuration of a project is refused.
#[derive(Debug, Clone, PartialEq, Eq)]
pub enum ConfigError {
    /// A `defaults` entry selects tasks with this pattern, which is no valid regular expression
    InvalidDefaultsPattern(String),
}

/// The configuration of a project.
#[derive(Debug)]
pub struct ProjectConfig {
    /// Project name, empty for the root project
    pub name: String,
    /// Child projects by name, with their directories; in a root project only
    pub projects: Vec<(String, String)>,
    /// Shell for the tasks of the project (deprecated)
    pub shell: ShellConfig,
    /// Working directory of the tasks of the project (deprecated)
    pub working_dir: String,
    /// Template variables of the project
    pub vars: Vec<(String, VarsConfig)>,
    /// Environment variables of the tasks of the project (deprecated)
    pub env: Vec<(String, String)>,
    /// Dotenv files of the tasks of the project (deprecated)
    pub env_files: Vec<String>,
    /// Dependencies of all the tasks of the project (deprecated)
    pub depends_on: Vec<DependsOnConfig>,
    /// Settings applied to the tasks a selector picks
    pub defaults: Vec<DefaultsConfig>,
    /// Tasks by name
    pub tasks: Vec<(String, TaskConfig)>,
    /// How many tasks run at once; in a root project only
    pub concurrency: usize,
    /// Logging; in a root project only
    pub log: LogConfig,
    /// Gantt chart output file; in a root project only
    pub gantt_file: Option<String>,
    /// Which interface shows the run; in a root project only
    pub ui: UI,
    /// Other configuration files to include
    pub includes: Vec<String>,
    /// Path of the configuration file
    pub path: String,
    /// Directory of the project
    pub dir: String,
}

/// What a log setting says.
pub struct LogView {
    pub level: Seq<char>,
    pub file: Option<Seq<char>>,
}

impl DeepView for LogConfig {
    type V = LogView;

    open spec fn deep_view(&self) -> LogView {
        LogView { level: self.level@, file: self.file.deep_view() }
    }
}

/// The tasks of a project by name, by what they say.
pub type TasksView = Seq<(Seq<char>, TaskConfigView)>;

/// What the configuration of a project says.
pub struct ProjectConfigView {
    pub name: Seq<char>,
    pub projects: Seq<(Seq<char>, Seq<char>)>,
    pub shell: ShellView,
    pub working_dir: Seq<char>,
    pub vars: VarsMapView,
    pub env: Seq<(Seq<char>, Seq<char>)>,
    pub env_files: Seq<Seq<char>>,
    pub depends_on: Seq<DependsOnConfigView>,
    pub defaults: Seq<DefaultsView>,
    pub tasks: TasksView,
    pub concurrency: usize,
    pub log: LogView,
    pub gantt_file: Option<Seq<char>>,
    pub ui: UI,
    pub includes: Seq<Seq<char>>,
    pub path: Seq<char>,
    pub dir: Seq<char>,
}

impl DeepView for ProjectConfig {
    type V = ProjectConfigView;

    open spec fn deep_view(&self) -> ProjectConfigView {
        ProjectConfigView {
            name: self.name@,
            projects: self.projects.deep_view(),
            shell: self.shell.deep_view(),
            working_dir: self.working_dir@,
            vars: self.vars.deep_view(),
            env: self.env.deep_view(),
            env_files: self.env_files.deep_view(),
            depends_on: self.depends_on.deep_view(),
            defaults: self.defaults.deep_view(),
            tasks: self.tasks.deep_view(),
            concurrency: self.concurrency,
            log: self.log.deep_view(),
            gantt_file: self.gantt_file.deep_view(),
            ui: self.ui,
            includes: self.includes.deep_view(),
            path: self.path@,
            dir: self.dir@,
        }
    }
}

impl ProjectConfig {
    /// Applies the `defaults` entries to the tasks they select. For each task, the entries that
    /// apply are merged in order (a later setting or map entry wins, lists are joined) and laid
    /// under the task's own settings, which win. The dependencies and `wait_for` entries of the
    /// defaults name tasks of this project. A `defaults` pattern that is no valid regular
    /// expression is refused, the first one named, and nothing changes.
    pub fn apply_defaults(&mut self) -> (r: Result<(), ConfigError>)
        ensures
            r is Err <==> exists|i: int|
                0 <= i < old(self).defaults.len() && has_bad_pattern(old(self).defaults.deep_view()[i]),
            r matches Err(ConfigError::InvalidDefaultsPattern(p)) ==> exists|i: int|
                0 <= i < old(self).defaults.len() && old(self).defaults.deep_view()[i].tasks == Some(
                    SelectorView::Regex(p@),
                ) && has_bad_pattern(old(self).defaults.deep_view()[i]) && forall|j: int|
                    0 <= j < i ==> !has_bad_pattern(old(self).defaults.deep_view()[j]),
            r is Err ==> final(self).deep_view() == old(self).deep_view(),
            r is Ok ==> final(self).deep_view() == (ProjectConfigView {
                tasks: tasks_with_defaults(
                    old(self).tasks.deep_view(),
                    old(self).defaults.deep_view().map_values(
                        |d: DefaultsView| qualified_defaults(old(self).name@, d),
                    ),
                ),
                ..old(self).deep_view()
            }),
    {
        let ghost ds = self.defaults.deep_view();
        let mut qualified: Vec<DefaultsConfig> = Vec::new();
        let mut i: usize = 0;
        while i < self.defaults.len()
            invariant
                i <= self.defaults.len(),
                ds == self.defaults.deep_view(),
                forall|j: int| 0 <= j < i ==> !has_bad_pattern(ds[j]),
                qualified.deep_view() =~= ds.take(i as int).map_values(
                    |d: DefaultsView| qualified_defaults(self.name@, d),
                ),
            decreases self.defaults.len() - i,
        {
            let d = &self.defaults[i];
            match &d.tasks {
                Some(TaskSelector::Regex(p)) => {
                    if compile_pattern(p.as_str()).is_none() {
                        proof {
                            assert(has_bad_pattern(ds[i as int]));
                        }
                        return Err(ConfigError::InvalidDefaultsPattern(p.clone()));
                    }
                },
                _ => {},
            }
            let q = d.qualified(self.name.as_str());
            let ghost before = qualified.deep_view();
            qualified.push(q);
            proof {
                assert(qualified.deep_view() =~= before.push(qualified_defaults(self.name@, ds[i as int])));
                assert(ds.take(i + 1) =~= ds.take(i as int).push(ds[i as int]));
            }
            i = i + 1;
        }
        proof {
            assert(ds.take(ds.len() as int) =~= ds);
        }
        let ghost qs = qualified.deep_view();
        let ghost ts = self.tasks.deep_view();
        let mut tasks: Vec<(String, TaskConfig)> = Vec::new();
        let mut i: usize = 0;
        while i < self.tasks.len()
            invariant
                i <= self.tasks.len(),
                qs == qualified.deep_view(),
                ts == self.tasks.deep_view(),
                tasks.deep_view() =~= tasks_with_defaults(ts.take(i as int), qs),
            decreases self.tasks.len() - i,
        {
            let name = &self.tasks[i].0;
            let t = &self.tasks[i].1;
            let applied = match merge_matching(&qualified, name.as_str()) {
                Some(eff) => t.with_defaults(&eff),
                None => t.duplicate(),
            };
            let ghost before = tasks.deep_view();
            tasks.push((name.clone(), applied));
            proof {
                assert(tasks.deep_view() =~= before.push(tasks_with_defaults(seq![ts[i as int]], qs)[0]));
                assert(ts.take(i + 1) =~= ts.take(i as int).push(ts[i as int]));
            }
            i = i + 1;
        }
        proof {
            assert(ts.take(ts.len() as int) =~= ts);
        }
        self.tasks = tasks;
        Ok(())
    }
}

// ----- From configuration to task -----

/// Why a task of the configuration is refused.
#[derive(Debug, Clone, PartialEq, Eq)]
pub enum TaskError {
    /// The name of the task holds `#`, which separates a project name from a task name
    HashInName(String),
    /// The log probe of the service has this pattern, which is no valid regular expression
    InvalidPattern(String),
}

/// A dependency written in the configuration of the project `project`, as the graph reads it.
pub open spec fn graph_dep(project: Seq<char>, d: DependsOnConfigView) -> DependsOnView {
    match d {
        DependsOnConfigView::Name(n) => DependsOnView {
            task: spec_qualified_name(project, n),
            cascade: true,
            always: false,
        },
        DependsOnConfigView::Struct { task, cascade, .. } => DependsOnView {
            task: spec_qualified_name(project, task),
            cascade,
            always: false,
        },
    }
}

/// The dependency of a finalizer on the task `task` it finalizes: it runs whatever came of it.
pub open spec fn finalizes_dep(task: Seq<char>) -> DependsOnView {
    DependsOnView { task, cascade: true, always: true }
}

/// The dependencies that are not on the task `name` itself, in order.
pub open spec fn without_task(ds: Seq<DependsOnView>, name: Seq<char>) -> Seq<DependsOnView>
    decreases ds.len(),
{
    if ds.len() == 0 {
        ds
    } else if ds.last().task == name {
        without_task(ds.drop_last(), name)
    } else {
        without_task(ds.drop_last(), name).push(ds.last())
    }
}

/// The dependencies of the task `name` of the project `project`: its own, then those of the
/// project, then one on each task it finalizes, leaving out one on itself.
pub open spec fn task_deps(
    project: Seq<char>,
    own: Seq<DependsOnConfigView>,
    shared: Seq<DependsOnConfigView>,
    finalizes: Seq<Seq<char>>,
    name: Seq<char>,
) -> Seq<DependsOnView> {
    without_task(
        (own + shared).map_values(|d: DependsOnConfigView| graph_dep(project, d)) + finalizes.map_values(
            |t: Seq<char>| finalizes_dep(t),
        ),
        name,
    )
}

/// The values of the variables given as scalars, in order; the others have no value yet.
pub open spec fn resolved_vars(vars: VarsMapView) -> Seq<VarView>
    decreases vars.len(),
{
    if vars.len() == 0 {
        Seq::empty()
    } else {
        match vars.last().1 {
            VarsView::Static(v) => resolved_vars(vars.drop_last()).push((vars.last().0, v)),
            _ => resolved_vars(vars.drop_last()),
        }
    }
}

/// A `wait_for` entry written in the configuration of the project `project`, as the graph
/// reads it.
pub open spec fn graph_wait(project: Seq<char>, w: TaskRefView) -> WaitForView {
    WaitForView {
        task: spec_qualified_name(project, w.task()),
        vars: match w {
            TaskRefView::Name(_) => Seq::empty(),
            TaskRefView::Struct { vars, .. } => resolved_vars(vars),
        },
    }
}

/// The shell of a setting, or `fallback` without one.
pub open spec fn shell_or(shell: Option<ShellView>, fallback: ShellView) -> ShellView {
    match shell {
        Some(s) => s,
        None => fallback,
    }
}

/// The directory `wd` names, under `base`; `base` itself without one.
pub open spec fn dir_path(wd: Option<Seq<char>>, base: Seq<char>) -> Seq<char> {
    match wd {
        Some(w) => spec_absolute_or_join(w, base),
        None => base,
    }
}

/// The probe of the service `name` set as `service`, its commands run in `shell`, in the
/// directory `working_dir` and with the environment `env` of the task by default; the dotenv
/// files of a check command are under the project directory `dir`.
pub open spec fn spec_probe(
    name: Seq<char>,
    service: Option<ServiceView>,
    shell: ShellView,
    working_dir: Seq<char>,
    env: Seq<EnvConfigView>,
    dir: Seq<char>,
) -> ProbeView {
    match service {
        Some(ServiceView::Struct { healthcheck: Some(HealthCheckView::Log(c)), .. }) => ProbeView::LogLine {
            pattern: c.log,
            timeout: c.timeout,
        },
        Some(ServiceView::Struct { healthcheck: Some(HealthCheckView::Exec(c)), .. }) => ProbeView::Exec {
            name,
            command: c.command,
            shell: shell_or(c.shell, shell).command,
            shell_args: shell_or(c.shell, shell).args,
            working_dir: dir_path(c.working_dir, working_dir),
            env: env.push(env_layer(spec_paths_under(c.env_files, dir), c.env)),
            interval: c.interval,
            timeout: c.timeout,
            retries: c.retries,
            start_period: c.start_period,
        },
        _ => ProbeView::NoProbe,
    }
}

/// The restart policy a service setting gives.
pub open spec fn spec_restart(service: Option<ServiceView>) -> Restart {
    match service {
        Some(ServiceView::Struct { restart, .. }) => restart,
        _ => Restart::Never,
    }
}

/// Whether the log probe of a service setting has a pattern that is no valid regular
/// expression.
pub open spec fn bad_log_pattern(service: Option<ServiceView>) -> bool {
    service matches Some(ServiceView::Struct { healthcheck: Some(HealthCheckView::Log(c)), .. }) && !regex_valid(
        c.log,
    )
}

/// The task that the configuration `t` of the task `task_name` of the project `project`, whose
/// configuration is `config`, describes. The project's shell and dependencies apply to it; its
/// working directory is under that of the project, itself under the project directory; its
/// environment is that of the project with its own over it, each layer with dotenv files under
/// the project directory; its input and output files are under the project directory, and
/// count its dotenv files too.
pub open spec fn spec_task(project: Seq<char>, config: ProjectConfigView, task_name: Seq<char>, t: TaskConfigView) -> crate::project::TaskView {
    let name = spec_qualified_name(project, task_name);
    let orig = spec_qualified_name(project, t.orig_name);
    let task_shell = shell_or(t.shell, config.shell);
    let working_dir = dir_path(t.working_dir, spec_absolute_or_join(config.working_dir, config.dir));
    let env_files = spec_paths_under(t.env_files, config.dir);
    let env = seq![env_layer(spec_paths_under(config.env_files, config.dir), config.env), env_layer(env_files, t.env)];
    crate::project::TaskView {
        name,
        orig_name: orig,
        depends_on: task_deps(project, t.depends_on, config.depends_on, t.finalizes, name),
        wait_for: t.wait_for.map_values(|w: TaskRefView| graph_wait(project, w)),
        vars: resolved_vars(t.vars),
        is_service: spec_is_service(t.service),
        label: match t.label {
            Some(l) => l,
            None => orig,
        },
        command: match t.command {
            Some(c) => c,
            None => Seq::empty(),
        },
        shell: task_shell.command,
        shell_args: task_shell.args,
        working_dir,
        env,
        probe: spec_probe(name, t.service, task_shell, working_dir, env, config.dir),
        restart: spec_restart(t.service),
        stop_timeout: match t.stop_timeout {
            Some(s) => s,
            None => 10,
        },
        inputs: spec_paths_under(t.inputs, config.dir) + env_files,
        outputs: spec_paths_under(t.outputs, config.dir) + env_files,
    }
}

/// The values of the variables given as scalars; see [`resolved_vars`].
pub fn resolve_vars(vars: &Vec<(String, VarsConfig)>) -> (r: Vec<(String, String)>)
    ensures
        vars_view(r@) == resolved_vars(vars.deep_view()),
{
    let mut r: Vec<(String, String)> = Vec::new();
    let mut i: usize = 0;
    while i < vars.len()
        invariant
            i <= vars.len(),
            vars_view(r@) =~= resolved_vars(vars.deep_view().take(i as int)),
        decreases vars.len() - i,
    {
        let ghost pre = vars.deep_view().take(i as int);
        let ghost next = vars.deep_view().take(i + 1);
        proof {
            assert(next.drop_last() =~= pre);
            assert(next.last() == vars.deep_view()[i as int]);
        }
        match &vars[i].1 {
            VarsConfig::Static(v) => {
                let ghost before = r@;
                r.push((vars[i].0.clone(), v.clone()));
                assert(vars_view(r@) =~= vars_view(before).push((vars@[i as int].0@, v@)));
            },
            _ => {},
        }
        i = i + 1;
    }
    assert(vars.deep_view().take(vars.len() as int) =~= vars.deep_view());
    r
}

fn push_unless(out: &mut Vec<DependsOn>, d: DependsOn, name: &String, Ghost(all): Ghost<Seq<DependsOnView>>)
    requires
        out@.map_values(|x: DependsOn| x@) == without_task(all, name@),
    ensures
        final(out)@.map_values(|x: DependsOn| x@) == without_task(all.push(d@), name@),
{
    proof {
        assert(all.push(d@).drop_last() =~= all);
    }
    if !crate::text::same_text(d.task.as_str(), name.as_str()) {
        let ghost before = out@;
        out.push(d);
        assert(out@.map_values(|x: DependsOn| x@) =~= before.map_values(|x: DependsOn| x@).push(d@));
    }
}

fn push_config_dep(
    out: &mut Vec<DependsOn>,
    project: &str,
    c: &DependsOnConfig,
    name: &String,
    Ghost(all): Ghost<Seq<DependsOnView>>,
    Ghost(k): Ghost<int>,
)
    requires
        0 <= k < all.len(),
        all[k] == graph_dep(project@, c.deep_view()),
        old(out)@.map_values(|x: DependsOn| x@) == without_task(all.take(k), name@),
    ensures
        final(out)@.map_values(|x: DependsOn| x@) == without_task(all.take(k + 1), name@),
{
    let cascade = match c {
        DependsOnConfig::String(_) => true,
        DependsOnConfig::Struct(s) => s.cascade,
    };
    let d = DependsOn { task: Task::qualified_name(project, c.task()), cascade, always: false };
    assert(all.take(k + 1) =~= all.take(k).push(d@));
    push_unless(out, d, name, Ghost(all.take(k)));
}

/// The dependencies of a task; see [`task_deps`].
fn build_deps(
    project: &str,
    own: &Vec<DependsOnConfig>,
    shared: &Vec<DependsOnConfig>,
    finalizes: &Vec<String>,
    name: &String,
) -> (r: Vec<DependsOn>)
    ensures
        r@.map_values(|x: DependsOn| x@) == task_deps(
            project@,
            own.deep_view(),
            shared.deep_view(),
            finalizes.deep_view(),
            name@,
        ),
{
    let ghost all = (own.deep_view() + shared.deep_view()).map_values(
        |d: DependsOnConfigView| graph_dep(project@, d),
    ) + finalizes.deep_view().map_values(|t: Seq<char>| finalizes_dep(t));
    let ghost n1 = own.len() as int;
    let ghost n2 = own.len() + shared.len();
    assert(all.len() == n2 + finalizes.len());
    let mut r: Vec<DependsOn> = Vec::new();
    assert(r@.map_values(|x: DependsOn| x@) =~= without_task(all.take(0), name@));
    let mut i: usize = 0;
    while i < own.len()
        invariant
            i <= own.len(),
            n1 == own.len(),
            all == (own.deep_view() + shared.deep_view()).map_values(
                |d: DependsOnConfigView| graph_dep(project@, d),
            ) + finalizes.deep_view().map_values(|t: Seq<char>| finalizes_dep(t)),
            r@.map_values(|x: DependsOn| x@) == without_task(all.take(i as int), name@),
        decreases own.len() - i,
    {
        assert(all[i as int] == graph_dep(project@, own.deep_view()[i as int]));
        push_config_dep(&mut r, project, &own[i], name, Ghost(all), Ghost(i as int));
        i = i + 1;
    }
    let mut i: usize = 0;
    while i < shared.len()
        invariant
            i <= shared.len(),
            n1 == own.len(),
            all == (own.deep_view() + shared.deep_view()).map_values(
                |d: DependsOnConfigView| graph_dep(project@, d),
            ) + finalizes.deep_view().map_values(|t: Seq<char>| finalizes_dep(t)),
            r@.map_values(|x: DependsOn| x@) == without_task(all.take(n1 + i), name@),
        decreases shared.len() - i,
    {
        assert(all[n1 + i] == graph_dep(project@, shared.deep_view()[i as int]));
        push_config_dep(&mut r, project, &shared[i], name, Ghost(all), Ghost(n1 + i));
        i = i + 1;
    }
    let mut j: usize = 0;
    while j < finalizes.len()
        invariant
            j <= finalizes.len(),
            n2 == own.len() + shared.len(),
            all == (own.deep_view() + shared.deep_view()).map_values(
                |d: DependsOnConfigView| graph_dep(project@, d),
            ) + finalizes.deep_view().map_values(|t: Seq<char>| finalizes_dep(t)),
            r@.map_values(|x: DependsOn| x@) == without_task(all.take(n2 + j), name@),
        decreases finalizes.len() - j,
    {
        let d = DependsOn { task: finalizes[j].clone(), cascade: true, always: true };
        assert(all[n2 + j] == d@);
        assert(all.take(n2 + j + 1) =~= all.take(n2 + j).push(d@));
        push_unless(&mut r, d, name, Ghost(all.take(n2 + j)));
        j = j + 1;
    }
    assert(all.take(n2 + finalizes.len()) =~= all);
    r
}

/// Whether a task of the configuration is accepted: its name holds no `#`, and the pattern of
/// its log probe, if it has one, is a valid regular expression.
pub open spec fn task_accepted(e: (Seq<char>, TaskConfigView)) -> bool {
    !has_hash(e.0) && !bad_log_pattern(e.1.service)
}

impl Task {
    /// The task that the configuration `task_config` of the task `task_name` of the project
    /// `project_name` with the configuration `config` describes; see [`spec_task`]. A name
    /// holding `#` is refused, and so is a log probe whose pattern is no valid regular
    /// expression. Its working directory, environment and files come from the paths of the
    /// configuration.
    pub fn new(project_name: &str, config: &ProjectConfig, task_name: &str, task_config: &TaskConfig) -> (r: Result<
        Task,
        TaskError,
    >)
        ensures
            has_hash(task_name@) <==> (r matches Err(TaskError::HashInName(n)) && n@ == task_name@),
            !has_hash(task_name@) ==> (bad_log_pattern(task_config.deep_view().service) <==> r is Err),
            r matches Err(TaskError::InvalidPattern(p)) ==> (task_config.deep_view().service matches Some(
                ServiceView::Struct { healthcheck: Some(HealthCheckView::Log(c)), .. },
            ) && p@ == c.log),
            r matches Ok(t) ==> t@ == spec_task(project_name@, config.deep_view(), task_name@, task_config.deep_view()),
    {
        if crate::project::find_hash(task_name).is_some() {
            return Err(TaskError::HashInName(String::from_str(task_name)));
        }
        let name = Task::qualified_name(project_name, task_name);
        let orig_name = Task::qualified_name(project_name, task_config.orig_name.as_str());
        let task_shell = match &task_config.shell {
            Some(s) => s.duplicate(),
            None => config.shell.duplicate(),
        };
        let project_dir = config.dir.as_str();
        let project_wd = absolute_or_join(config.working_dir.as_str(), project_dir);
        let working_dir = match &task_config.working_dir {
            Some(wd) => absolute_or_join(wd.as_str(), project_wd.as_str()),
            None => project_wd,
        };
        let env_files = paths_under(&task_config.env_files, project_dir);
        let env = Env::new().with(&paths_under(&config.env_files, project_dir), &config.env).with(
            &env_files,
            &task_config.env,
        );
        let mut inputs = paths_under(&task_config.inputs, project_dir);
        append_copies(&mut inputs, &env_files);
        let mut outputs = paths_under(&task_config.outputs, project_dir);
        append_copies(&mut outputs, &env_files);
        let (is_service, probe, restart) = match &task_config.service {
            Some(ServiceConfig::Bool(b)) => (*b, Probe::NoProbe, Restart::Never),
            Some(ServiceConfig::Struct(st)) => {
                let probe = match &st.healthcheck {
                    Some(HealthCheckConfig::Log(c)) => {
                        if compile_pattern(c.log.as_str()).is_none() {
                            return Err(TaskError::InvalidPattern(c.log.clone()));
                        }
                        Probe::LogLine(LogLineProbe { pattern: c.log.clone(), timeout: c.timeout })
                    },
                    Some(HealthCheckConfig::Exec(c)) => {
                        let hc_shell = match &c.shell {
                            Some(s) => s.duplicate(),
                            None => task_shell.duplicate(),
                        };
                        Probe::Exec(
                            ExecProbe {
                                name: name.clone(),
                                command: c.command.clone(),
                                shell: hc_shell.command,
                                shell_args: hc_shell.args,
                                working_dir: match &c.working_dir {
                                    Some(wd) => absolute_or_join(wd.as_str(), working_dir.as_str()),
                                    None => working_dir.clone(),
                                },
                                env: env.with(&paths_under(&c.env_files, project_dir), &c.env),
                                interval: c.interval,
                                timeout: c.timeout,
                                retries: c.retries,
                                start_period: c.start_period,
                            },
                        )
                    },
                    None => Probe::NoProbe,
                };
                (true, probe, st.restart)
            },
            None => (false, Probe::NoProbe, Restart::Never),
        };
        let depends_on = build_deps(
            project_name,
            &task_config.depends_on,
            &config.depends_on,
            &task_config.finalizes,
            &name,
        );
        let mut wait_for: Vec<WaitFor> = Vec::new();
        let mut i: usize = 0;
        while i < task_config.wait_for.len()
            invariant
                i <= task_config.wait_for.len(),
                wait_for@.map_values(|w: WaitFor| w@) =~= task_config.wait_for.deep_view().take(
                    i as int,
                ).map_values(|w: TaskRefView| graph_wait(project_name@, w)),
            decreases task_config.wait_for.len() - i,
        {
            let w = &task_config.wait_for[i];
            let vars = match w.vars() {
                Some(v) => resolve_vars(v),
                None => Vec::new(),
            };
            let e = WaitFor { task: Task::qualified_name(project_name, w.task()), vars };
            assert(vars_view(e.vars@) =~= graph_wait(project_name@, w.deep_view()).vars);
            let ghost before = wait_for@;
            wait_for.push(e);
            proof {
                assert(wait_for@.map_values(|w: WaitFor| w@) =~= before.map_values(|w: WaitFor| w@).push(e@));
                assert(task_config.wait_for.deep_view().take(i + 1) =~= task_config.wait_for.deep_view().take(
                    i as int,
                ).push(w.deep_view()));
            }
            i = i + 1;
        }
        assert(task_config.wait_for.deep_view().take(task_config.wait_for.len() as int)
            =~= task_config.wait_for.deep_view());
        let label = match &task_config.label {
            Some(l) => l.clone(),
            None => orig_name.clone(),
        };
        let command = match &task_config.command {
            Some(c) => c.clone(),
            None => String::new(),
        };
        let stop_timeout = match task_config.stop_timeout {
            Some(s) => s,
            None => default_stop_timeout(),
        };
        let t = Task {
            name,
            orig_name,
            depends_on,
            wait_for,
            vars: resolve_vars(&task_config.vars),
            is_service,
            label,
            command,
            shell: task_shell.command,
            shell_args: task_shell.args,
            working_dir,
            env,
            probe,
            restart,
            stop_timeout,
            inputs,
            outputs,
        };
        assert(t@.depends_on =~= task_deps(
            project_name@,
            task_config.depends_on.deep_view(),
            config.depends_on.deep_view(),
            task_config.finalizes.deep_view(),
            t.name@,
        ));
        proof {
            let goal = spec_task(project_name@, config.deep_view(), task_name@, task_config.deep_view());
            assert(t@.env =~= goal.env);
            assert(t@.inputs =~= goal.inputs);
            assert(t@.outputs =~= goal.outputs);
            assert(t@.probe == goal.probe);
        }
        Ok(t)
    }

    /// The tasks of the project `project_name` with the configuration `config`, in the order of
    /// the configuration; the first task refused stops it.
    pub fn new_multi(project_name: &str, config: &ProjectConfig) -> (r: Result<Vec<Task>, TaskError>)
        ensures
            r matches Ok(ts) ==> ts.len() == config.tasks.len() && forall|i: int|
                0 <= i < ts.len() ==> (#[trigger] ts@[i])@ == spec_task(
                    project_name@,
                    config.deep_view(),
                    config.tasks.deep_view()[i].0,
                    config.tasks.deep_view()[i].1,
                ),
            r is Err <==> exists|i: int|
                0 <= i < config.tasks.len() && !task_accepted(#[trigger] config.tasks.deep_view()[i]),
    {
        let mut ts: Vec<Task> = Vec::new();
        let mut i: usize = 0;
        while i < config.tasks.len()
            invariant
                i <= config.tasks.len(),
                ts.len() == i,
                forall|j: int|
                    0 <= j < i ==> (#[trigger] ts@[j])@ == spec_task(
                        project_name@,
                        config.deep_view(),
                        config.tasks.deep_view()[j].0,
                        config.tasks.deep_view()[j].1,
                    ),
                forall|j: int| 0 <= j < i ==> task_accepted(#[trigger] config.tasks.deep_view()[j]),
            decreases config.tasks.len() - i,
        {
            let ghost e = config.tasks.deep_view()[i as int];
            match Task::new(project_name, config, config.tasks[i].0.as_str(), &config.tasks[i].1) {
                Ok(t) => {
                    assert(config.tasks.deep_view()[i as int].0 == config.tasks@[i as int].0@);
                    assert(task_accepted(e));
                    ts.push(t);
                },
                Err(err) => {
                    assert(!task_accepted(e));
                    return Err(err);
                },
            }
            i = i + 1;
        }
        Ok(ts)
    }
}

/// A task of the project `project` written under the key `k`: named after the key, and with the
/// tasks it refers to named in full.
pub open spec fn named_task(project: Seq<char>, k: Seq<char>, t: TaskConfigView) -> TaskConfigView {
    TaskConfigView {
        name: k,
        orig_name: k,
        project,
        depends_on: t.depends_on.map_values(|d: DependsOnConfigView| qualify_dep(project, d)),
        wait_for: t.wait_for.map_values(|w: TaskRefView| ref_with_task(w, spec_qualified_name(project, w.task()))),
        finalized_by: t.finalized_by.map_values(
            |f: TaskRefView| ref_with_task(f, spec_qualified_name(project, f.task())),
        ),
        ..t
    }
}

fn qualified_refs_wait(ws: &Vec<WaitForConfig>, project: &str) -> (r: Vec<WaitForConfig>)
    ensures
        r.deep_view() == ws.deep_view().map_values(
            |w: TaskRefView| ref_with_task(w, spec_qualified_name(project@, w.task())),
        ),
{
    let mut r: Vec<WaitForConfig> = Vec::new();
    let mut i: usize = 0;
    while i < ws.len()
        invariant
            i <= ws.len(),
            r.deep_view() =~= ws.deep_view().take(i as int).map_values(
                |w: TaskRefView| ref_with_task(w, spec_qualified_name(project@, w.task())),
            ),
        decreases ws.len() - i,
    {
        let w = &ws[i];
        let q = Task::qualified_name(project, w.task());
        let ghost before = r.deep_view();
        r.push(w.with_task(q));
        proof {
            assert(r.deep_view() =~= before.push(ref_with_task(w.deep_view(), spec_qualified_name(project@, w.deep_view().task()))));
            assert(ws.deep_view().take(i + 1) =~= ws.deep_view().take(i as int).push(w.deep_view()));
        }
        i = i + 1;
    }
    assert(ws.deep_view().take(ws.len() as int) =~= ws.deep_view());
    r
}

fn qualified_refs_fin(fs: &Vec<FinalizedByConfig>, project: &str) -> (r: Vec<FinalizedByConfig>)
    ensures
        r.deep_view() == fs.deep_view().map_values(
            |f: TaskRefView| ref_with_task(f, spec_qualified_name(project@, f.task())),
        ),
{
    let mut r: Vec<FinalizedByConfig> = Vec::new();
    let mut i: usize = 0;
    while i < fs.len()
        invariant
            i <= fs.len(),
            r.deep_view() =~= fs.deep_view().take(i as int).map_values(
                |f: TaskRefView| ref_with_task(f, spec_qualified_name(project@, f.task())),
            ),
        decreases fs.len() - i,
    {
        let f = &fs[i];
        let q = Task::qualified_name(project, f.task());
        let ghost before = r.deep_view();
        r.push(f.with_task(q));
        proof {
            assert(r.deep_view() =~= before.push(ref_with_task(f.deep_view(), spec_qualified_name(project@, f.deep_view().task()))));
            assert(fs.deep_view().take(i + 1) =~= fs.deep_view().take(i as int).push(f.deep_view()));
        }
        i = i + 1;
    }
    assert(fs.deep_view().take(fs.len() as int) =~= fs.deep_view());
    r
}

fn qualified_deps(ds: &Vec<DependsOnConfig>, project: &str) -> (r: Vec<DependsOnConfig>)
    ensures
        r.deep_view() == ds.deep_view().map_values(|d: DependsOnConfigView| qualify_dep(project@, d)),
{
    let mut r: Vec<DependsOnConfig> = Vec::new();
    let mut i: usize = 0;
    while i < ds.len()
        invariant
            i <= ds.len(),
            r.deep_view() =~= ds.deep_view().take(i as int).map_values(|d: DependsOnConfigView| qualify_dep(project@, d)),
        decreases ds.len() - i,
    {
        let d = &ds[i];
        let q = Task::qualified_name(project, d.task());
        let ghost before = r.deep_view();
        r.push(d.with_task(q));
        proof {
            assert(r.deep_view() =~= before.push(qualify_dep(project@, d.deep_view())));
            assert(ds.deep_view().take(i + 1) =~= ds.deep_view().take(i as int).push(d.deep_view()));
        }
        i = i + 1;
    }
    assert(ds.deep_view().take(ds.len() as int) =~= ds.deep_view());
    r
}

impl ProjectConfig {
    /// Whether this is the configuration of a root project: one that lists child projects.
    pub fn is_root(&self) -> (r: bool)
        ensures
            r == (self.projects.len() > 0),
    {
        self.projects.len() > 0
    }

    /// Names each task after its key in the project, and names in full the tasks that its
    /// dependencies, `wait_for` entries and finalizers refer to; see [`named_task`].
    pub fn name_tasks(&mut self)
        ensures
            final(self).deep_view() == (ProjectConfigView {
                tasks: old(self).deep_view().tasks.map_values(
                    |e: (Seq<char>, TaskConfigView)| (e.0, named_task(old(self).name@, e.0, e.1)),
                ),
                ..old(self).deep_view()
            }),
    {
        let ghost ts = self.tasks.deep_view();
        let mut tasks: Vec<(String, TaskConfig)> = Vec::new();
        let mut i: usize = 0;
        while i < self.tasks.len()
            invariant
                i <= self.tasks.len(),
                ts == self.tasks.deep_view(),
                tasks.deep_view() =~= ts.take(i as int).map_values(
                    |e: (Seq<char>, TaskConfigView)| (e.0, named_task(self.name@, e.0, e.1)),
                ),
            decreases self.tasks.len() - i,
        {
            let k = &self.tasks[i].0;
            let t = &self.tasks[i].1;
            let project = self.name.as_str();
            let named = TaskConfig {
                name: k.clone(),
                orig_name: k.clone(),
                project: self.name.clone(),
                label: t.label.duplicate(),
                description: t.description.duplicate(),
                command: t.command.duplicate(),
                shell: t.shell.duplicate(),
                working_dir: t.working_dir.duplicate(),
                vars: t.vars.duplicate(),
                env: t.env.duplicate(),
                env_files: t.env_files.duplicate(),
                depends_on: qualified_deps(&t.depends_on, project),
                wait_for: qualified_refs_wait(&t.wait_for, project),
                finalized_by: qualified_refs_fin(&t.finalized_by, project),
                finalizes: t.finalizes.duplicate(),
                service: t.service.duplicate(),
                stop_timeout: t.stop_timeout,
                inputs: t.inputs.duplicate(),
                outputs: t.outputs.duplicate(),
            };
            let ghost before = tasks.deep_view();
            tasks.push((k.clone(), named));
            proof {
                assert(tasks.deep_view() =~= before.push((ts[i as int].0, named_task(self.name@, ts[i as int].0, ts[i as int].1))));
                assert(ts.take(i + 1) =~= ts.take(i as int).push(ts[i as int]));
            }
            i = i + 1;
        }
        assert(ts.take(ts.len() as int) =~= ts);
        self.tasks = tasks;
    }
}

/// The default shell, `bash -c`, as a setting says it.
pub open spec fn default_shell_view() -> ShellView {
    ShellView { command: "bash"@, args: seq!["-c"@] }
}

/// The project-level settings that `defaults` replaces, that the project sets, in order.
pub open spec fn deprecated_fields(p: ProjectConfigView) -> Seq<Seq<char>> {
    (if p.shell != default_shell_view() { seq!["shell"@] } else { Seq::empty() }) + (if p.working_dir != "."@ {
        seq!["working_dir"@]
    } else {
        Seq::empty()
    }) + (if p.env.len() > 0 { seq!["env"@] } else { Seq::empty() }) + (if p.env_files.len() > 0 {
        seq!["env_files"@]
    } else {
        Seq::empty()
    }) + (if p.depends_on.len() > 0 { seq!["depends_on"@] } else { Seq::empty() })
}

/// The warning for the project-level setting `field` in the configuration file `file`.
pub open spec fn deprecation_warning(file: Seq<char>, field: Seq<char>) -> Seq<char> {
    file + ": project-level `"@ + field
        + "` is deprecated. Use `defaults` instead. See https://kota65535.github.io/firepit/schema.html#defaults"@
}

fn is_default_shell(shell: &ShellConfig) -> (r: bool)
    ensures
        r == (shell.deep_view() == default_shell_view()),
{
    let bash = "bash";
    let c = "-c";
    if !crate::text::same_text(shell.command.as_str(), bash) {
        return false;
    }
    if shell.args.len() != 1 {
        proof {
            assert(shell.deep_view().args.len() != 1);
        }
        return false;
    }
    let same = crate::text::same_text(shell.args[0].as_str(), c);
    proof {
        if same {
            assert(shell.deep_view().args =~= seq![c@]);
        } else {
            assert(shell.deep_view().args[0] != c@);
        }
    }
    same
}

fn push_warning(out: &mut Vec<String>, file: &String, field: &str)
    ensures
        final(out).deep_view() == old(out).deep_view().push(deprecation_warning(file@, field@)),
{
    let mut w = file.clone();
    w.append(": project-level `");
    w.append(field);
    w.append("` is deprecated. Use `defaults` instead. See https://kota65535.github.io/firepit/schema.html#defaults");
    let ghost before = out.deep_view();
    out.push(w);
    assert(out.deep_view() =~= before.push(deprecation_warning(file@, field@)));
}

impl ProjectConfig {
    /// The warnings for the project-level settings that `defaults` replaces and that the
    /// project sets: its shell other than `bash -c`, its working directory other than `.`,
    /// and any environment, dotenv file or dependency, in that order.
    pub fn deprecated_warnings(&self) -> (r: Vec<String>)
        ensures
            r.deep_view() == deprecated_fields(self.deep_view()).map_values(
                |f: Seq<char>| deprecation_warning(self.path@, f),
            ),
    {
        let mut out: Vec<String> = Vec::new();
        let ghost fs = deprecated_fields(self.deep_view());
        let ghost w = |f: Seq<char>| deprecation_warning(self.path@, f);
        let ghost mut done: Seq<Seq<char>> = Seq::empty();
        if !is_default_shell(&self.shell) {
            push_warning(&mut out, &self.path, "shell");
            proof { done = done.push("shell"@); }
        }
        if !crate::text::same_text(self.working_dir.as_str(), ".") {
            push_warning(&mut out, &self.path, "working_dir");
            proof { done = done.push("working_dir"@); }
        }
        if self.env.len() > 0 {
            push_warning(&mut out, &self.path, "env");
            proof { done = done.push("env"@); }
        }
        if self.env_files.len() > 0 {
            push_warning(&mut out, &self.path, "env_files");
            proof { done = done.push("env_files"@); }
        }
        if self.depends_on.len() > 0 {
            push_warning(&mut out, &self.path, "depends_on");
            proof { done = done.push("depends_on"@); }
        }
        assert(done =~= fs);
        assert(out.deep_view() =~= fs.map_values(w));
        out
    }
}

} // verus!
