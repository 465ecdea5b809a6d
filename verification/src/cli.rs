//! The command line: its options, and the split of its words into task names and variables.
use crate::config::UI;
use crate::project_config::{ProjectConfig, ProjectConfigView};
use crate::text::{chars_of, string_from_chars};
use serde_json::Value;
use vstd::prelude::*;

verus! {

#[verifier::external_type_specification]
#[verifier::external_body]
pub struct ExJsonValue(serde_json::Value);

#[verifier::external_type_specification]
#[verifier::external_body]
pub struct ExJsonError(serde_json::Error);

/// The options of the command line.
#[derive(Debug, Clone)]
pub struct Args {
    /// Task names or variables.
    /// Variable are in "Name=Value" format (e.g. ENV=prod, DEBUG=true)
    pub tasks_or_vars: Vec<String>,
    /// Working directory
    pub dir: String,
    /// Watch mode
    pub watch: bool,
    /// Force only the specified tasks to run, ignoring their dependencies
    pub force: bool,
    /// `--ff` was given
    pub _fail_fast: bool,
    /// `--no-ff` was given
    pub _no_fail_fast: bool,
    /// Log file
    pub log_file: Option<String>,
    /// Log level
    pub log_level: Option<String>,
    /// Gantt chart file
    pub gantt_file: Option<String>,
    /// Force TUI mode
    pub tui: bool,
    /// Force CUI mode
    pub cui: bool,
    /// Enable instrumentation for tokio-console
    pub tokio_console: bool,
}

impl Args {
    /// The fail-fast setting the command line asks for: on with `--ff`, off with `--no-ff`
    /// alone, and left to the interface when neither is given.
    pub fn fail_fast(&self) -> (r: Option<bool>)
        ensures
            r == (if self._fail_fast {
                Some(true)
            } else if self._no_fail_fast {
                Some(false)
            } else {
                None
            }),
    {
        match (self._fail_fast, self._no_fail_fast) {
            (true, false) => Some(true),
            (false, true) => Some(false),
            (false, false) => None,
            (true, true) => Some(true),
        }
    }
}

/// Whether `c` is a quote that can surround a value.
pub open spec fn is_quote(c: char) -> bool {
    c == '"' || c == '\''
}

/// The text inside a pair of matching quotes around `s`, if it has one.
pub open spec fn spec_strip_quotes(s: Seq<char>) -> Option<Seq<char>> {
    if s.len() >= 2 && is_quote(s[0]) && s[0] == s[s.len() - 1] {
        Some(s.subrange(1, s.len() - 1))
    } else {
        None
    }
}

/// Strips a pair of matching quotes, double or single, from around `input`; `None` when it is
/// not quoted.
pub fn strip_matching_quotes(input: &str) -> (r: Option<String>)
    ensures
        match r {
            Some(s) => spec_strip_quotes(input@) == Some(s@),
            None => spec_strip_quotes(input@) is None,
        },
{
    let chars = chars_of(input);
    let n = chars.len();
    if n >= 2 {
        let first = chars[0];
        let last = chars[n - 1];
        if (first == '"' && last == '"') || (first == '\'' && last == '\'') {
            let mut inner: Vec<char> = Vec::new();
            let mut i: usize = 1;
            while i < n - 1
                invariant
                    1 <= i <= n - 1,
                    n == chars.len(),
                    inner@ == chars@.subrange(1, i as int),
                decreases n - 1 - i,
            {
                inner.push(chars[i]);
                proof {
                    assert(chars@.subrange(1, i + 1) =~= chars@.subrange(1, i as int).push(chars@[i as int]));
                }
                i = i + 1;
            }
            return Some(string_from_chars(inner.as_slice()));
        }
    }
    None
}

/// The position of the first `=` of `s`, if it has one.
pub open spec fn first_eq(s: Seq<char>) -> Option<int> {
    if exists|i: int| 0 <= i < s.len() && s[i] == '=' {
        Some(choose|i: int| 0 <= i < s.len() && s[i] == '=' && forall|j: int| 0 <= j < i ==> s[j] != '=')
    } else {
        None
    }
}

/// Splits `s` at its first `=` into the name before it and the value after it.
pub fn split_once_eq(s: &str) -> (r: Option<(String, String)>)
    ensures
        match r {
            Some((k, v)) => exists|i: int|
                0 <= i < s@.len() && s@[i] == '=' && (forall|j: int| 0 <= j < i ==> s@[j] != '=') && k@ == s@.take(i)
                    && v@ == s@.skip(i + 1),
            None => forall|i: int| 0 <= i < s@.len() ==> s@[i] != '=',
        },
{
    let chars = chars_of(s);
    let mut i: usize = 0;
    while i < chars.len()
        invariant
            i <= chars.len(),
            chars@ == s@,
            forall|j: int| 0 <= j < i ==> chars@[j] != '=',
        decreases chars.len() - i,
    {
        if chars[i] == '=' {
            let mut key: Vec<char> = Vec::new();
            let mut j: usize = 0;
            while j < i
                invariant
                    j <= i < chars.len(),
                    key@ == chars@.take(j as int),
                decreases i - j,
            {
                key.push(chars[j]);
                proof {
                    assert(chars@.take(j + 1) =~= chars@.take(j as int).push(chars@[j as int]));
                }
                j = j + 1;
            }
            let mut value: Vec<char> = Vec::new();
            let mut k: usize = i + 1;
            while k < chars.len()
                invariant
                    i + 1 <= k <= chars.len(),
                    value@ == chars@.subrange(i + 1, k as int),
                decreases chars.len() - k,
            {
                value.push(chars[k]);
                proof {
                    assert(chars@.subrange(i + 1, k + 1) =~= chars@.subrange(i + 1, k as int).push(chars@[k as int]));
                }
                k = k + 1;
            }
            proof {
                assert(chars@.subrange(i + 1, chars.len() as int) =~= chars@.skip(i + 1));
            }
            return Some((string_from_chars(key.as_slice()), string_from_chars(value.as_slice())));
        }
        i = i + 1;
    }
    None
}

/// What `serde_json` makes of a text: the value it parses, or `None` when the text is not JSON.
pub uninterp spec fn json_of(text: Seq<char>) -> Option<Value>;

/// Parses `text` as JSON: `serde_json::from_str::<Value>`. The result is named by [`json_of`],
/// a function of the text alone; the grammar is the crate's.
#[verifier::external_body]
pub(crate) fn parse_json(text: &str) -> (r: Result<Value, serde_json::Error>)
    ensures
        r is Ok <==> json_of(text@) is Some,
        r matches Ok(v) ==> json_of(text@) == Some(v),
{
    serde_json::from_str::<Value>(text)
}

/// The string value of some characters: `serde_json::Value::String`.
#[verifier::external_body]
pub(crate) fn json_string(s: String) -> (r: Value)
    ensures
        r == json_string_of(s@),
{
    Value::String(s)
}

/// The JSON string holding the given characters.
pub uninterp spec fn json_string_of(s: Seq<char>) -> Value;

/// The value of a variable given as `name=value`: the JSON the value parses as, or else the
/// value as a string, without the quotes around it.
pub open spec fn var_value(v: Seq<char>) -> Value {
    match json_of(v) {
        Some(j) => j,
        None => match spec_strip_quotes(v) {
            Some(inner) => json_string_of(inner),
            None => json_string_of(v),
        },
    }
}

/// The variables of `items`, in the order their names first appear, each with the value of
/// its last occurrence.
pub open spec fn vars_of(items: Seq<Seq<char>>) -> Seq<(Seq<char>, Value)>
    decreases items.len(),
{
    if items.len() == 0 {
        Seq::empty()
    } else {
        let before = vars_of(items.drop_last());
        let item = items.last();
        match first_eq(item) {
            Some(i) => set_var(before, item.take(i), var_value(item.skip(i + 1))),
            None => before,
        }
    }
}

/// The first position from `k` on of the variable `name`.
pub open spec fn var_pos(vars: Seq<(Seq<char>, Value)>, name: Seq<char>, k: int) -> Option<int>
    decreases vars.len() - k,
{
    if k < 0 || k >= vars.len() {
        None
    } else if vars[k].0 == name {
        Some(k)
    } else {
        var_pos(vars, name, k + 1)
    }
}

/// The list of variables with `name` set to `value`: in place when it is there, at the end
/// when it is not.
pub open spec fn set_var(vars: Seq<(Seq<char>, Value)>, name: Seq<char>, value: Value) -> Seq<(Seq<char>, Value)> {
    match var_pos(vars, name, 0) {
        Some(i) => vars.update(i, (name, value)),
        None => vars.push((name, value)),
    }
}

/// The position of the variable `name` among `vars`.
fn find_var(vars: &Vec<(String, Value)>, name: &String) -> (r: Option<usize>)
    ensures
        match r {
            Some(i) => var_pos(vars_view(vars@), name@, 0) == Some(i as int) && i < vars.len(),
            None => var_pos(vars_view(vars@), name@, 0) is None,
        },
{
    let ghost v = vars_view(vars@);
    let mut j: usize = 0;
    while j < vars.len()
        invariant
            j <= vars.len(),
            v == vars_view(vars@),
            var_pos(v, name@, 0) == var_pos(v, name@, j as int),
        decreases vars.len() - j,
    {
        if vars[j].0 == *name {
            return Some(j);
        }
        j = j + 1;
    }
    None
}

/// The task names of `items`: the words without `=`.
pub open spec fn tasks_of(items: Seq<Seq<char>>) -> Seq<Seq<char>>
    decreases items.len(),
{
    if items.len() == 0 {
        Seq::empty()
    } else {
        let before = tasks_of(items.drop_last());
        if first_eq(items.last()) is Some {
            before
        } else {
            before.push(items.last())
        }
    }
}

/// The words of the command line, as characters.
pub open spec fn words_view(items: Seq<String>) -> Seq<Seq<char>> {
    items.map_values(|s: String| s@)
}

/// The variables as names and values.
pub open spec fn vars_view(vars: Seq<(String, Value)>) -> Seq<(Seq<char>, Value)> {
    vars.map_values(|p: (String, Value)| (p.0@, p.1))
}

/// The first `=` found by a scan is the one [`first_eq`] gives.
proof fn lemma_first_eq(s: Seq<char>, i: int)
    requires
        0 <= i < s.len(),
        s[i] == '=',
        forall|j: int| 0 <= j < i ==> s[j] != '=',
    ensures
        first_eq(s) == Some(i),
{
    let c = choose|c: int| 0 <= c < s.len() && s[c] == '=' && forall|j: int| 0 <= j < c ==> s[j] != '=';
    assert(s[c] == '=');
    if c < i {
        assert(s[c] != '=');
    } else if c > i {
        assert(s[i] != '=');
    }
}

/// Splits the words of the command line into the names of the tasks to run and the variables
/// `name=value` to run them with. A value that parses as JSON is that JSON; another is a string,
/// without the quotes around it. A name given twice keeps its first place and its last value.
pub fn parse_tasks_or_vars(items: &Vec<String>) -> (r: (Vec<String>, Vec<(String, Value)>))
    ensures
        words_view(r.0@) == tasks_of(words_view(items@)),
        vars_view(r.1@) == vars_of(words_view(items@)),
{
    let ghost words = words_view(items@);
    let mut tasks: Vec<String> = Vec::new();
    let mut vars: Vec<(String, Value)> = Vec::new();
    let mut n: usize = 0;
    while n < items.len()
        invariant
            n <= items.len(),
            words == words_view(items@),
            words_view(tasks@) == tasks_of(words.take(n as int)),
            vars_view(vars@) == vars_of(words.take(n as int)),
        decreases items.len() - n,
    {
        proof {
            assert(words.take(n + 1).drop_last() =~= words.take(n as int));
            assert(words.take(n + 1).last() == items@[n as int]@);
        }
        let item = &items[n];
        match split_once_eq(item.as_str()) {
            Some((k, v)) => {
                proof {
                    let i = choose|i: int|
                        0 <= i < item@.len() && item@[i] == '=' && (forall|j: int| 0 <= j < i ==> item@[j] != '=')
                            && k@ == item@.take(i) && v@ == item@.skip(i + 1);
                    lemma_first_eq(item@, i);
                }
                let value = match parse_json(v.as_str()) {
                    Ok(parsed) => parsed,
                    Err(_) => {
                        match strip_matching_quotes(v.as_str()) {
                            Some(stripped) => json_string(stripped),
                            None => json_string(v),
                        }
                    },
                };
                // Set in place when the name is there already
                let ghost before = vars_view(vars@);
                match find_var(&vars, &k) {
                    Some(j) => {
                        vars.set(j, (k, value));
                        proof {
                            assert(vars_view(vars@) =~= set_var(before, k@, value));
                        }
                    },
                    None => {
                        vars.push((k, value));
                        proof {
                            assert(vars_view(vars@) =~= set_var(before, k@, value));
                        }
                    },
                }
            },
            None => {
                proof {
                    assert(first_eq(item@) is None);
                }
                tasks.push(item.clone());
            },
        }
        n = n + 1;
    }
    proof {
        assert(words.take(items.len() as int) =~= words);
    }
    (tasks, vars)
}

/// Overrides the configuration of the root project with the options of the command line: the
/// log file and level and the Gantt chart file when given, and the interface when `--tui` or
/// `--cui` asks for one.
pub fn override_root(root: &mut ProjectConfig, args: &Args)
    ensures
        final(root).deep_view() == (ProjectConfigView {
            log: crate::project_config::LogView {
                file: match args.log_file {
                    Some(f) => Some(f@),
                    None => old(root).deep_view().log.file,
                },
                level: match args.log_level {
                    Some(l) => l@,
                    None => old(root).deep_view().log.level,
                },
            },
            gantt_file: match args.gantt_file {
                Some(g) => Some(g@),
                None => old(root).deep_view().gantt_file,
            },
            ui: if args.tui {
                UI::Tui
            } else if args.cui {
                UI::Cui
            } else {
                old(root).ui
            },
            ..old(root).deep_view()
        }),
{
    if let Some(f) = &args.log_file {
        root.log.file = Some(f.clone());
    }
    if let Some(l) = &args.log_level {
        root.log.level = l.clone();
    }
    if let Some(g) = &args.gantt_file {
        root.gantt_file = Some(g.clone());
    }
    if args.tui {
        root.ui = UI::Tui;
    } else if args.cui {
        root.ui = UI::Cui;
    }
}

/// Whether the run ends once its targets are done: unless it watches for changes, or the
/// terminal interface stays until it is quit.
pub fn quit_on_done(watch: bool, ui: UI) -> (r: bool)
    ensures
        r == (!watch && ui != UI::Tui),
{
    !watch && match ui {
        UI::Tui => false,
        UI::Cui => true,
    }
}

/// The tasks of the run that are not targets, in order: the dependencies and finalizers.
pub fn dependency_tasks(tasks: &Vec<String>, targets: &Vec<String>) -> (r: Vec<String>)
    ensures
        r.deep_view() == tasks.deep_view().filter(|t: Seq<char>| !targets.deep_view().contains(t)),
{
    let ghost tv = tasks.deep_view();
    let ghost pred = |t: Seq<char>| !targets.deep_view().contains(t);
    let mut r: Vec<String> = Vec::new();
    let mut i: usize = 0;
    while i < tasks.len()
        invariant
            i <= tasks.len(),
            tv == tasks.deep_view(),
            pred == (|t: Seq<char>| !targets.deep_view().contains(t)),
            r.deep_view() == tv.take(i as int).filter(pred),
        decreases tasks.len() - i,
    {
        proof {
            let next = tv.take(i + 1);
            assert(next.drop_last() =~= tv.take(i as int));
            assert(next.last() == tv[i as int]);
            assert(next == tv.take(i as int).push(tv[i as int]));
            tv.take(i as int).lemma_filter_push(tv[i as int], pred);
        }
        if !crate::workspace::holds(targets, &tasks[i]) {
            let ghost before = r.deep_view();
            r.push(tasks[i].clone());
            assert(r.deep_view() =~= before.push(tv[i as int]));
        }
        i = i + 1;
    }
    assert(tv.take(tv.len() as int) =~= tv);
    r
}

} // verus!
