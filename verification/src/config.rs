//! The parts of the configuration the runner reads: shells, logging, probes, restart policies,
//! task selectors, and their defaults.
use crate::text::same_text;
use regex::Regex;
use vstd::prelude::*;

verus! {

#[verifier::external_type_specification]
#[verifier::external_body]
pub struct ExRegex(Regex);

/// The shell a command runs in.
#[derive(Debug, Clone)]
pub struct ShellConfig {
    /// Shell command.
    pub command: String,
    /// Arguments of the shell command.
    pub args: Vec<String>,
}

/// Logging of the runner.
#[derive(Debug, Clone)]
pub struct LogConfig {
    /// Log level. Valid values: error, warn, info, debug, trace
    pub level: String,
    /// Log file path.
    pub file: Option<String>,
}

/// A readiness probe that waits for a line of the log.
#[derive(Debug, Clone)]
pub struct LogProbeConfig {
    /// Log regex pattern to determine the task service is ready
    pub log: String,
    /// Timeout in seconds
    pub timeout: u64,
}

/// A dynamic variable, ready to run: its command, shell, directory and environment.
#[derive(Debug, Clone)]
pub struct DynamicVarsInner {
    pub name: String,
    pub command: String,
    pub shell: ShellConfig,
    pub working_dir: String,
    /// The environment, ordered by name, each name once
    pub env: Vec<(String, String)>,
    pub cache: bool,
}

/// Which user interface shows the run.
#[derive(Debug, Clone, Copy, PartialEq, Eq, Structural)]
pub enum UI {
    Cui,
    Tui,
}

/// The characters of `bash`.
pub open spec fn bash_chars() -> Seq<char> {
    seq!['b', 'a', 's', 'h']
}

/// The shell command tasks run in unless told otherwise: `bash`.
pub fn default_shell_command() -> (r: String)
    ensures
        r@ == bash_chars(),
{
    let r = "bash".to_string();
    proof {
        reveal_strlit("bash");
    }
    r
}

/// The arguments of the default shell: `-c`, so that the command is the next argument.
pub fn default_shell_args() -> (r: Vec<String>)
    ensures
        r@.len() == 1,
        r@[0]@ == seq!['-', 'c'],
{
    let c = "-c".to_string();
    proof {
        reveal_strlit("-c");
    }
    vec![c]
}

/// The default shell: `bash -c`.
pub fn default_shell() -> (r: ShellConfig)
    ensures
        r.command@ == bash_chars(),
        r.args@.len() == 1,
        r.args@[0]@ == seq!['-', 'c'],
{
    ShellConfig { command: default_shell_command(), args: default_shell_args() }
}

/// The default working directory: the project directory, `.`.
pub fn default_working_dir() -> (r: String)
    ensures
        r@ == seq!['.'],
{
    let r = ".".to_string();
    proof {
        reveal_strlit(".");
    }
    r
}

/// The default log level: `info`.
pub fn default_log_level() -> (r: String)
    ensures
        r@ == seq!['i', 'n', 'f', 'o'],
{
    let r = "info".to_string();
    proof {
        reveal_strlit("info");
    }
    r
}

/// The default logging: at the level `info`, to no file.
pub fn default_log() -> (r: LogConfig)
    ensures
        r.level@ == seq!['i', 'n', 'f', 'o'],
        r.file is None,
{
    LogConfig { level: default_log_level(), file: None }
}

/// The default timeout of a log probe, in seconds.
pub fn default_log_healthcheck_timeout() -> (r: u64)
    ensures
        r == 20,
{
    20
}

/// The default interval of an exec probe, in seconds.
pub fn default_healthcheck_interval() -> (r: u64)
    ensures
        r == 5,
{
    5
}

/// The default timeout of an exec probe, in seconds.
pub fn default_healthcheck_timeout() -> (r: u64)
    ensures
        r == 5,
{
    5
}

/// The default number of failed checks an exec probe allows.
pub fn default_healthcheck_retries() -> (r: u64)
    ensures
        r == 3,
{
    3
}

/// The default initialization period of an exec probe, in seconds.
pub fn default_healthcheck_start_period() -> (r: u64)
    ensures
        r == 0,
{
    0
}

/// Default grace period in seconds between `SIGINT` and `SIGKILL` for a task process.
pub fn default_stop_timeout() -> (r: u64)
    ensures
        r == 10,
{
    10
}

/// The restart policy of a service.
#[derive(Debug, Clone, Copy, PartialEq, Eq, Structural)]
pub enum Restart {
    /// Restart whenever the service ends, at most the given number of times
    Always(Option<u64>),
    /// Restart when the service fails, at most the given number of times
    OnFailure(Option<u64>),
    /// Never restart
    Never,
}

/// The default restart policy: never.
pub fn default_service_restart() -> (r: Restart)
    ensures
        r == Restart::Never,
{
    Restart::Never
}

impl Restart {
    /// The most restarts the policy allows, or `None` when it sets no limit.
    pub open spec fn max_restart_spec(&self) -> Option<u64> {
        match *self {
            Restart::Always(n) => n,
            Restart::OnFailure(n) => n,
            Restart::Never => Some(0u64),
        }
    }

    /// The most restarts the policy allows, or `None` when it sets no limit.
    pub fn max_restart(&self) -> (r: Option<u64>)
        ensures
            r == self.max_restart_spec(),
    {
        match self {
            Restart::Always(n) => *n,
            Restart::OnFailure(n) => *n,
            Restart::Never => Some(0),
        }
    }
}

/// Whether the pattern is a valid regular expression, as `regex` parses it.
pub uninterp spec fn regex_valid(pattern: Seq<char>) -> bool;

/// Whether the regular expression `pattern` matches somewhere in `text`, as `regex` finds it.
pub uninterp spec fn regex_match(pattern: Seq<char>, text: Seq<char>) -> bool;

/// A compiled regular expression, with the pattern it was compiled from.
pub struct Pattern {
    source: String,
    re: Regex,
}

impl Pattern {
    /// The pattern the expression was compiled from.
    pub closed spec fn source(&self) -> Seq<char> {
        self.source@
    }

    /// Compiles `pattern`, or `None` when it is no valid regular expression.
    pub fn new(pattern: &str) -> (r: Option<Pattern>)
        ensures
            r is Some <==> regex_valid(pattern@),
            r matches Some(p) ==> p.source() == pattern@,
    {
        compile_pattern(pattern)
    }

    /// Whether the expression matches somewhere in `text`.
    pub fn is_match(&self, text: &str) -> (r: bool)
        ensures
            r == regex_match(self.source(), text@),
    {
        pattern_is_match(self, text)
    }
}

/// Compiles `pattern`: `regex::Regex::new`. The result is `Some` exactly when `regex` accepts
/// the pattern, which [`regex_valid`] names; the syntax is the crate's.
#[verifier::external_body]
pub(crate) fn compile_pattern(pattern: &str) -> (r: Option<Pattern>)
    ensures
        r is Some <==> regex_valid(pattern@),
        r matches Some(p) ==> p.source() == pattern@,
{
    match Regex::new(pattern) {
        Ok(re) => Some(Pattern { source: pattern.to_string(), re }),
        Err(_) => None,
    }
}

/// Whether the expression matches somewhere in `text`: `regex::Regex::is_match`. The result is
/// named by [`regex_match`], a function of the pattern and the text alone.
#[verifier::external_body]
pub(crate) fn pattern_is_match(p: &Pattern, text: &str) -> (r: bool)
    ensures
        r == regex_match(p.source(), text@),
{
    p.re.is_match(text)
}

/// Which tasks a `defaults` entry applies to: a regular expression the task name is matched
/// against, or an explicit list of task names.
#[derive(Debug, Clone)]
pub enum TaskSelector {
    Regex(String),
    List(Vec<String>),
}

/// Whether `selector` matches the task `name`: a non-empty valid pattern that matches the name,
/// or a non-empty list that holds it.
pub open spec fn selects(selector: TaskSelector, name: Seq<char>) -> bool {
    match selector {
        TaskSelector::Regex(p) => p@.len() > 0 && regex_valid(p@) && regex_match(p@, name),
        TaskSelector::List(names) => names@.len() > 0 && holds_name(names@, name),
    }
}

/// Whether one of `names` is `name`.
pub open spec fn holds_name(names: Seq<String>, name: Seq<char>) -> bool {
    exists|i: int| 0 <= i < names.len() && names[i]@ == name
}

impl TaskSelector {
    /// Returns true if the given task name matches this selector. An empty pattern, an invalid
    /// one and an empty list match no task.
    pub fn matches(&self, task_name: &str) -> (r: bool)
        ensures
            r == selects(*self, task_name@),
    {
        match self {
            TaskSelector::Regex(pattern) => {
                if pattern.as_str().is_empty() {
                    return false;
                }
                match compile_pattern(pattern.as_str()) {
                    Some(re) => pattern_is_match(&re, task_name),
                    None => false,
                }
            },
            TaskSelector::List(names) => {
                if names.len() == 0 {
                    return false;
                }
                let mut i: usize = 0;
                while i < names.len()
                    invariant
                        i <= names.len(),
                        *self == TaskSelector::List(*names),
                        names@.len() > 0,
                        forall|j: int| 0 <= j < i ==> names@[j]@ != task_name@,
                    decreases names.len() - i,
                {
                    if same_text(names[i].as_str(), task_name) {
                        proof {
                            assert(names@[i as int]@ == task_name@);
                            assert(holds_name(names@, task_name@));
                        }
                        return true;
                    }
                    i = i + 1;
                }
                false
            },
        }
    }
}

/// The value of some decimal digits, or `None` when they are not all ASCII digits, there are
/// none, or the value does not fit in `u64`: what `str::parse::<u64>` gives for digits.
pub open spec fn digits_value(d: Seq<char>) -> Option<u64> {
    if d.len() > 0 && (forall|i: int| 0 <= i < d.len() ==> '0' <= #[trigger] d[i] <= '9') && decimal(d) <= u64::MAX {
        Some(decimal(d) as u64)
    } else {
        None
    }
}

/// The number some ASCII digits write.
pub open spec fn decimal(d: Seq<char>) -> nat
    decreases d.len(),
{
    if d.len() == 0 {
        0
    } else {
        (decimal(d.drop_last()) * 10 + (d.last() as nat - '0' as nat)) as nat
    }
}

fn parse_digits(d: &[char]) -> (r: Option<u64>)
    ensures
        r == digits_value(d@),
{
    if d.len() == 0 {
        return None;
    }
    let mut v: u64 = 0;
    let mut i: usize = 0;
    while i < d.len()
        invariant
            0 < d.len(),
            i <= d.len(),
            forall|j: int| 0 <= j < i ==> '0' <= #[trigger] d@[j] <= '9',
            v == decimal(d@.take(i as int)),
        decreases d.len() - i,
    {
        let c = d[i];
        proof {
            let next = d@.take(i + 1);
            assert(next.drop_last() =~= d@.take(i as int));
            assert(next.last() == c);
        }
        if !('0' <= c && c <= '9') {
            return None;
        }
        let digit = (c as u32 - '0' as u32) as u64;
        if v > (u64::MAX - digit) / 10 {
            proof {
                lemma_decimal_grows(d@, i as int + 1);
            }
            return None;
        }
        v = v * 10 + digit;
        i = i + 1;
    }
    assert(d@.take(d.len() as int) =~= d@);
    Some(v)
}

proof fn lemma_decimal_grows(d: Seq<char>, k: int)
    requires
        0 < k <= d.len(),
        forall|j: int| 0 <= j < k ==> '0' <= #[trigger] d[j] <= '9',
        decimal(d.take(k)) > u64::MAX,
    ensures
        !(digits_value(d) is Some),
    decreases d.len() - k,
{
    if k < d.len() {
        let next = d.take(k + 1);
        assert(next.drop_last() =~= d.take(k));
        if '0' <= d[k] <= '9' {
            assert(decimal(next) >= decimal(d.take(k)));
            lemma_decimal_grows(d, k + 1);
        }
    } else {
        assert(d.take(k) =~= d);
    }
}

/// `^always(:(\d+))?$`
pub open spec fn always_pattern() -> Seq<char> {
    "^always(:(\\d+))?$"@
}

/// `^on-failure(:(\d+))?$`
pub open spec fn on_failure_pattern() -> Seq<char> {
    "^on-failure(:(\\d+))?$"@
}

/// The restart policy a service setting writes: `always` or `on-failure`, each with `:` and the
/// most restarts allowed after it, or `never`; `None` for anything else. A count that is no
/// ASCII number, or does not fit in `u64`, sets no limit.
pub open spec fn spec_parse_restart(s: Seq<char>) -> Option<Restart> {
    if regex_valid(always_pattern()) && regex_match(always_pattern(), s) {
        Some(Restart::Always(if s.len() > 6 { digits_value(s.skip(7)) } else { None }))
    } else if regex_valid(on_failure_pattern()) && regex_match(on_failure_pattern(), s) {
        Some(Restart::OnFailure(if s.len() > 10 { digits_value(s.skip(11)) } else { None }))
    } else if s == seq!['n', 'e', 'v', 'e', 'r'] {
        Some(Restart::Never)
    } else {
        None
    }
}

fn matches_pattern(pattern: &str, s: &str) -> (r: bool)
    ensures
        r == (regex_valid(pattern@) && regex_match(pattern@, s@)),
{
    match compile_pattern(pattern) {
        Some(p) => pattern_is_match(&p, s),
        None => false,
    }
}

/// Reads a restart policy; see [`spec_parse_restart`].
pub fn parse_restart(s: &str) -> (r: Option<Restart>)
    ensures
        r == spec_parse_restart(s@),
{
    let chars = crate::text::chars_of(s);
    if matches_pattern("^always(:(\\d+))?$", s) {
        let n = if chars.len() > 6 {
            let rest = vstd::slice::slice_subrange(chars.as_slice(), 7, chars.len());
            assert(rest@ =~= s@.skip(7));
            parse_digits(rest)
        } else {
            None
        };
        return Some(Restart::Always(n));
    }
    if matches_pattern("^on-failure(:(\\d+))?$", s) {
        let n = if chars.len() > 10 {
            let rest = vstd::slice::slice_subrange(chars.as_slice(), 11, chars.len());
            assert(rest@ =~= s@.skip(11));
            parse_digits(rest)
        } else {
            None
        };
        return Some(Restart::OnFailure(n));
    }
    let never = "never";
    proof {
        reveal_strlit("never");
        assert(never@ =~= seq!['n', 'e', 'v', 'e', 'r']);
    }
    if crate::text::same_text(s, never) {
        return Some(Restart::Never);
    }
    None
}

} // verus!
