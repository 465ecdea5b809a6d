//! The cache of the outputs of the dynamic variable commands run while the configuration is
//! rendered, and the count of the commands that ran more than once without it.
use crate::config::DynamicVarsInner;
use crate::text::{chars_of, same_text, string_from_chars};
use vstd::prelude::*;

verus! {

#[verifier::external_type_specification]
#[verifier::external_body]
pub struct ExQuoteError(shlex::QuoteError);

/// How long the repeated runs of one dynamic variable command have to take in total, in
/// nanoseconds, before the user is told about `cache: true`. Below this, running the command
/// again is not worth a warning.
pub const DYNAMIC_VAR_HINT_THRESHOLD_NANOS: u128 = 1_000_000_000;

/// What makes two `cache: true` dynamic variables share a command output.
///
/// The working directory is deliberately left out: a variable shared by several projects runs in
/// each project directory, so including it would make the cache never hit in the case it exists
/// for. Opting in with `cache: true` is the declaration that the output does not depend on where
/// the command runs.
#[derive(Debug, Clone)]
pub struct DynamicVarKey {
    pub shell_command: String,
    pub shell_args: Vec<String>,
    pub command: String,
    /// The environment, ordered by name
    pub env: Vec<(String, String)>,
}

/// What a [`DynamicVarKey`] holds.
pub struct DynamicVarKeyView {
    pub shell_command: Seq<char>,
    pub shell_args: Seq<Seq<char>>,
    pub command: Seq<char>,
    pub env: Seq<(Seq<char>, Seq<char>)>,
}

/// The characters of each string of a list.
pub open spec fn strings_view(v: Seq<String>) -> Seq<Seq<char>> {
    v.map_values(|s: String| s@)
}

/// The characters of each pair of strings of a list.
pub open spec fn pairs_view(v: Seq<(String, String)>) -> Seq<(Seq<char>, Seq<char>)> {
    v.map_values(|p: (String, String)| (p.0@, p.1@))
}

impl View for DynamicVarKey {
    type V = DynamicVarKeyView;

    open spec fn view(&self) -> DynamicVarKeyView {
        DynamicVarKeyView {
            shell_command: self.shell_command@,
            shell_args: strings_view(self.shell_args@),
            command: self.command@,
            env: pairs_view(self.env@),
        }
    }
}

/// A copy of a string.
fn copy_string(s: &String) -> (r: String)
    ensures
        r@ == s@,
{
    s.clone()
}

/// A copy of a list of strings.
fn copy_strings(v: &Vec<String>) -> (r: Vec<String>)
    ensures
        strings_view(r@) == strings_view(v@),
{
    let mut r: Vec<String> = Vec::new();
    let mut i: usize = 0;
    while i < v.len()
        invariant
            i <= v.len(),
            r.len() == i,
            forall|j: int| 0 <= j < i ==> r@[j]@ == v@[j]@,
        decreases v.len() - i,
    {
        r.push(copy_string(&v[i]));
        i = i + 1;
    }
    proof {
        assert(strings_view(r@) =~= strings_view(v@));
    }
    r
}

/// A copy of a list of pairs of strings.
fn copy_pairs(v: &Vec<(String, String)>) -> (r: Vec<(String, String)>)
    ensures
        pairs_view(r@) == pairs_view(v@),
{
    let mut r: Vec<(String, String)> = Vec::new();
    let mut i: usize = 0;
    while i < v.len()
        invariant
            i <= v.len(),
            r.len() == i,
            forall|j: int| 0 <= j < i ==> r@[j].0@ == v@[j].0@ && r@[j].1@ == v@[j].1@,
        decreases v.len() - i,
    {
        r.push((copy_string(&v[i].0), copy_string(&v[i].1)));
        i = i + 1;
    }
    proof {
        assert(pairs_view(r@) =~= pairs_view(v@));
    }
    r
}

/// Whether two lists of strings hold the same strings in the same order.
fn same_strings(a: &Vec<String>, b: &Vec<String>) -> (r: bool)
    ensures
        r == (strings_view(a@) == strings_view(b@)),
{
    if a.len() != b.len() {
        proof {
            assert(strings_view(a@).len() != strings_view(b@).len());
        }
        return false;
    }
    let mut i: usize = 0;
    while i < a.len()
        invariant
            i <= a.len() == b.len(),
            forall|j: int| 0 <= j < i ==> a@[j]@ == b@[j]@,
        decreases a.len() - i,
    {
        if a[i] != b[i] {
            proof {
                assert(strings_view(a@)[i as int] != strings_view(b@)[i as int]);
            }
            return false;
        }
        i = i + 1;
    }
    proof {
        assert(strings_view(a@) =~= strings_view(b@));
    }
    true
}

/// Whether two lists of pairs of strings hold the same pairs in the same order.
fn same_pairs(a: &Vec<(String, String)>, b: &Vec<(String, String)>) -> (r: bool)
    ensures
        r == (pairs_view(a@) == pairs_view(b@)),
{
    if a.len() != b.len() {
        proof {
            assert(pairs_view(a@).len() != pairs_view(b@).len());
        }
        return false;
    }
    let mut i: usize = 0;
    while i < a.len()
        invariant
            i <= a.len() == b.len(),
            forall|j: int| 0 <= j < i ==> a@[j].0@ == b@[j].0@ && a@[j].1@ == b@[j].1@,
        decreases a.len() - i,
    {
        if a[i].0 != b[i].0 || a[i].1 != b[i].1 {
            proof {
                assert(pairs_view(a@)[i as int] != pairs_view(b@)[i as int]);
            }
            return false;
        }
        i = i + 1;
    }
    proof {
        assert(pairs_view(a@) =~= pairs_view(b@));
    }
    true
}

impl DynamicVarKey {
    /// The key of the command of a dynamic variable: its shell, command and environment.
    pub fn new(inner: &DynamicVarsInner) -> (r: DynamicVarKey)
        ensures
            r@.shell_command == inner.shell.command@,
            r@.shell_args == strings_view(inner.shell.args@),
            r@.command == inner.command@,
            r@.env == pairs_view(inner.env@),
    {
        DynamicVarKey {
            shell_command: copy_string(&inner.shell.command),
            shell_args: copy_strings(&inner.shell.args),
            command: copy_string(&inner.command),
            env: copy_pairs(&inner.env),
        }
    }

    /// Whether `self` and `other` are the same key.
    pub fn same_as(&self, other: &DynamicVarKey) -> (r: bool)
        ensures
            r == (self@ == other@),
    {
        let r = self.shell_command == other.shell_command && same_strings(&self.shell_args, &other.shell_args)
            && self.command == other.command && same_pairs(&self.env, &other.env);
        proof {
            if !r {
                if self.shell_command@ != other.shell_command@ {
                    assert(self@.shell_command != other@.shell_command);
                }
            }
        }
        r
    }

    /// A copy of the key.
    pub fn duplicate(&self) -> (r: DynamicVarKey)
        ensures
            r@ == self@,
    {
        DynamicVarKey {
            shell_command: copy_string(&self.shell_command),
            shell_args: copy_strings(&self.shell_args),
            command: copy_string(&self.command),
            env: copy_pairs(&self.env),
        }
    }
}

/// How often one dynamic variable command has run, and how much time it has taken in total, in
/// nanoseconds.
#[derive(Debug, Clone, Copy, PartialEq, Eq, Structural)]
pub struct DynamicVarRuns {
    pub count: usize,
    pub elapsed: u128,
}

/// An entry of the runs: the name of the variable, the key of its command, and its runs.
pub type RunsEntry = (String, DynamicVarKey, DynamicVarRuns);

/// What an entry of the runs holds.
pub type RunsView = (Seq<char>, DynamicVarKeyView, DynamicVarRuns);

/// The view of an entry of the runs.
pub open spec fn entry_view(e: RunsEntry) -> RunsView {
    (e.0@, e.1@, e.2)
}

/// The name and key of an entry of the runs.
pub open spec fn run_id(e: RunsView) -> (Seq<char>, DynamicVarKeyView) {
    (e.0, e.1)
}

/// The position of the entry of `id` among `entries`, if there is one.
pub open spec fn run_index(entries: Seq<RunsView>, id: (Seq<char>, DynamicVarKeyView)) -> Option<int> {
    if exists|i: int| 0 <= i < entries.len() && run_id(entries[i]) == id {
        Some(choose|i: int| 0 <= i < entries.len() && run_id(entries[i]) == id)
    } else {
        None
    }
}

/// The hints of the entries: the name and runs of those that ran more than once and took at
/// least the threshold in total, in order.
pub open spec fn hints_of(entries: Seq<RunsView>) -> Seq<(Seq<char>, DynamicVarRuns)>
    decreases entries.len(),
{
    if entries.len() == 0 {
        Seq::empty()
    } else {
        let e = entries.last();
        let rest = hints_of(entries.drop_last());
        if e.2.count > 1 && e.2.elapsed >= DYNAMIC_VAR_HINT_THRESHOLD_NANOS {
            rest.push((e.0, e.2))
        } else {
            rest
        }
    }
}

/// Outputs of the dynamic variable commands that have already run, so that a variable with
/// `cache: true` included by several projects or tasks runs its command only once.
///
/// The cache lives for a single rendering of the configuration. Re-rendering the config, which is
/// what happens on every watch event, starts from an empty cache and runs the commands again.
///
/// Uncached commands are timed as well, so that a variable that would benefit from `cache: true`
/// can be pointed out by [`DynamicVarCache::uncached_hints`].
#[derive(Debug)]
pub struct DynamicVarCache {
    outputs: Vec<(DynamicVarKey, String)>,
    /// Keyed by variable name as well, so that the runs reported to the user all come from the
    /// one variable named in the report, and not from another that happens to run the same
    /// command. The working directory stays out of the key: a variable shared by several projects
    /// runs in a different directory in each, which is exactly the case worth reporting.
    runs: Vec<RunsEntry>,
}

impl DynamicVarCache {
    /// The outputs recorded, by the key of their command.
    pub closed spec fn outputs_map(&self) -> Map<DynamicVarKeyView, Seq<char>> {
        Map::new(
            |k: DynamicVarKeyView| exists|i: int| 0 <= i < self.outputs.len() && self.outputs@[i].0@ == k,
            |k: DynamicVarKeyView|
                self.outputs@[choose|i: int| 0 <= i < self.outputs.len() && self.outputs@[i].0@ == k].1@,
        )
    }

    /// The entries of the runs, in the order their commands first ran.
    pub closed spec fn run_entries(&self) -> Seq<RunsView> {
        self.runs@.map_values(|e: RunsEntry| entry_view(e))
    }

    /// Whether no key occurs twice, among the outputs and among the runs.
    pub closed spec fn wf(&self) -> bool {
        &&& forall|i: int, j: int|
            0 <= i < j < self.outputs.len() ==> self.outputs@[i].0@ != self.outputs@[j].0@
        &&& forall|i: int, j: int|
            0 <= i < j < self.runs.len() ==> run_id(entry_view(self.runs@[i])) != run_id(entry_view(self.runs@[j]))
    }

    /// An empty cache.
    pub fn new() -> (r: DynamicVarCache)
        ensures
            r.wf(),
            r.outputs_map() == Map::<DynamicVarKeyView, Seq<char>>::empty(),
            r.run_entries() == Seq::<RunsView>::empty(),
    {
        let r = DynamicVarCache { outputs: Vec::new(), runs: Vec::new() };
        proof {
            assert(r.run_entries() =~= Seq::<RunsView>::empty());
            assert(r.outputs_map() =~= Map::<DynamicVarKeyView, Seq<char>>::empty());
        }
        r
    }

    /// The output recorded for `key`, if any.
    pub fn get(&self, key: &DynamicVarKey) -> (r: Option<&String>)
        requires
            self.wf(),
        ensures
            match r {
                Some(s) => self.outputs_map().dom().contains(key@) && s@ == self.outputs_map()[key@],
                None => !self.outputs_map().dom().contains(key@),
            },
    {
        let mut i: usize = 0;
        while i < self.outputs.len()
            invariant
                i <= self.outputs.len(),
                self.wf(),
                forall|j: int| 0 <= j < i ==> self.outputs@[j].0@ != key@,
            decreases self.outputs.len() - i,
        {
            if self.outputs[i].0.same_as(key) {
                proof {
                    let k = key@;
                    let c = choose|j: int| 0 <= j < self.outputs.len() && self.outputs@[j].0@ == k;
                    assert(self.outputs@[c].0@ == k);
                    if c != i {
                        if c < i {
                            assert(self.outputs@[c].0@ != self.outputs@[i as int].0@);
                        } else {
                            assert(self.outputs@[i as int].0@ != self.outputs@[c].0@);
                        }
                    }
                }
                return Some(&self.outputs[i].1);
            }
            i = i + 1;
        }
        None
    }

    /// Records `output` as the output of the command of `key`, in place of any earlier one.
    pub fn insert(&mut self, key: DynamicVarKey, output: String)
        requires
            old(self).wf(),
        ensures
            final(self).wf(),
            final(self).outputs_map() == old(self).outputs_map().insert(key@, output@),
            final(self).run_entries() == old(self).run_entries(),
    {
        let ghost k = key@;
        let mut i: usize = 0;
        while i < self.outputs.len()
            invariant
                i <= self.outputs.len(),
                self.wf(),
                *self == *old(self),
                forall|j: int| 0 <= j < i ==> self.outputs@[j].0@ != k,
                k == key@,
            decreases self.outputs.len() - i,
        {
            if self.outputs[i].0.same_as(&key) {
                let ghost before = *self;
                self.outputs.set(i, (key, output));
                proof {
                    assert forall|a: int, b: int| 0 <= a < b < self.outputs.len() implies self.outputs@[a].0@
                        != self.outputs@[b].0@ by {
                        assert(before.outputs@[a].0@ != before.outputs@[b].0@);
                    }
                    assert(self.outputs_map() =~= before.outputs_map().insert(k, self.outputs@[i as int].1@)) by {
                        assert forall|kk: DynamicVarKeyView| #[trigger] self.outputs_map().dom().contains(kk) implies before.outputs_map().insert(k, self.outputs@[i as int].1@).dom().contains(kk) by {
                            let c = choose|j: int| 0 <= j < self.outputs.len() && self.outputs@[j].0@ == kk;
                            assert(before.outputs@[c].0@ == kk);
                        }
                        assert forall|kk: DynamicVarKeyView| #[trigger] before.outputs_map().insert(k, self.outputs@[i as int].1@).dom().contains(kk) implies self.outputs_map().dom().contains(kk) by {
                            if kk != k {
                                let c = choose|j: int| 0 <= j < before.outputs.len() && before.outputs@[j].0@ == kk;
                                assert(self.outputs@[c].0@ == kk);
                            } else {
                                assert(self.outputs@[i as int].0@ == kk);
                            }
                        }
                        assert forall|kk: DynamicVarKeyView| #[trigger] self.outputs_map().dom().contains(kk) implies self.outputs_map()[kk] == before.outputs_map().insert(k, self.outputs@[i as int].1@)[kk] by {
                            let c = choose|j: int| 0 <= j < self.outputs.len() && self.outputs@[j].0@ == kk;
                            if kk == k {
                                if c != i {
                                    if c < i {
                                        assert(self.outputs@[c].0@ != self.outputs@[i as int].0@);
                                    } else {
                                        assert(self.outputs@[i as int].0@ != self.outputs@[c].0@);
                                    }
                                }
                            } else {
                                let d = choose|j: int| 0 <= j < before.outputs.len() && before.outputs@[j].0@ == kk;
                                if c != d {
                                    if c < d {
                                        assert(self.outputs@[c].0@ != self.outputs@[d].0@);
                                    } else {
                                        assert(self.outputs@[d].0@ != self.outputs@[c].0@);
                                    }
                                }
                            }
                        }
                    }
                }
                return;
            }
            i = i + 1;
        }
        let ghost before = *self;
        self.outputs.push((key, output));
        proof {
            let n = before.outputs.len() as int;
            assert forall|a: int, b: int| 0 <= a < b < self.outputs.len() implies self.outputs@[a].0@
                != self.outputs@[b].0@ by {
                if b < n {
                    assert(before.outputs@[a].0@ != before.outputs@[b].0@);
                }
            }
            let m = before.outputs_map().insert(k, self.outputs@[n].1@);
            assert forall|kk: DynamicVarKeyView| #[trigger] self.outputs_map().dom().contains(kk) implies m.dom().contains(kk) by {
                let c = choose|j: int| 0 <= j < self.outputs.len() && self.outputs@[j].0@ == kk;
                if c < n {
                    assert(before.outputs@[c].0@ == kk);
                }
            }
            assert forall|kk: DynamicVarKeyView| #[trigger] m.dom().contains(kk) implies self.outputs_map().dom().contains(kk) by {
                if kk != k {
                    let c = choose|j: int| 0 <= j < before.outputs.len() && before.outputs@[j].0@ == kk;
                    assert(self.outputs@[c].0@ == kk);
                } else {
                    assert(self.outputs@[n].0@ == kk);
                }
            }
            assert forall|kk: DynamicVarKeyView| #[trigger] self.outputs_map().dom().contains(kk) implies self.outputs_map()[kk] == m[kk] by {
                let c = choose|j: int| 0 <= j < self.outputs.len() && self.outputs@[j].0@ == kk;
                if kk == k {
                    assert(c == n);
                } else {
                    let d = choose|j: int| 0 <= j < before.outputs.len() && before.outputs@[j].0@ == kk;
                    if c != d {
                        if c < d {
                            assert(self.outputs@[c].0@ != self.outputs@[d].0@);
                        } else {
                            assert(self.outputs@[d].0@ != self.outputs@[c].0@);
                        }
                    }
                }
            }
            assert(self.outputs_map() =~= m);
        }
    }

    /// Records that the uncached command of `key` has run once more for the variable `name`,
    /// taking `elapsed` nanoseconds.
    ///
    /// Cached runs are not recorded: the key does not tell a cached variable from an uncached one
    /// with the same command, so counting both would report a variable that is already cached.
    pub fn record_run(&mut self, key: &DynamicVarKey, name: &str, elapsed: u128)
        requires
            old(self).wf(),
            forall|i: int|
                0 <= i < old(self).run_entries().len() && run_id(#[trigger] old(self).run_entries()[i]) == (name@, key@)
                    ==> old(self).run_entries()[i].2.count < usize::MAX && old(self).run_entries()[i].2.elapsed
                    + elapsed <= u128::MAX,
        ensures
            final(self).wf(),
            final(self).outputs_map() == old(self).outputs_map(),
            ({
                let before = old(self).run_entries();
                let after = final(self).run_entries();
                match run_index(before, (name@, key@)) {
                    Some(i) => after == before.update(
                        i,
                        (
                            name@,
                            key@,
                            DynamicVarRuns { count: (before[i].2.count + 1) as usize, elapsed: (before[i].2.elapsed + elapsed) as u128 },
                        ),
                    ),
                    None => after == before.push((name@, key@, DynamicVarRuns { count: 1, elapsed })),
                }
            }),
    {
        let ghost id = (name@, key@);
        let mut i: usize = 0;
        while i < self.runs.len()
            invariant
                i <= self.runs.len(),
                self.wf(),
                *self == *old(self),
                forall|j: int| 0 <= j < i ==> run_id(entry_view(self.runs@[j])) != id,
                id == (name@, key@),
                forall|j: int|
                    0 <= j < old(self).run_entries().len() && run_id(#[trigger] old(self).run_entries()[j]) == (name@, key@)
                        ==> old(self).run_entries()[j].2.count < usize::MAX && old(self).run_entries()[j].2.elapsed
                        + elapsed <= u128::MAX,
            decreases self.runs.len() - i,
        {
            if same_text(self.runs[i].0.as_str(), name) && self.runs[i].1.same_as(key) {
                let ghost before = self.run_entries();
                proof {
                    assert(run_id(before[i as int]) == id);
                    let c = choose|j: int| 0 <= j < before.len() && run_id(before[j]) == id;
                    if c != i {
                        if c < i {
                            assert(run_id(entry_view(self.runs@[c])) != run_id(entry_view(self.runs@[i as int])));
                        } else {
                            assert(run_id(entry_view(self.runs@[i as int])) != run_id(entry_view(self.runs@[c])));
                        }
                    }
                }
                let runs = self.runs[i].2;
                let updated = DynamicVarRuns { count: runs.count + 1, elapsed: runs.elapsed + elapsed };
                let n = copy_string(&self.runs[i].0);
                let k = self.runs[i].1.duplicate();
                self.runs.set(i, (n, k, updated));
                proof {
                    assert forall|a: int, b: int| 0 <= a < b < self.runs.len() implies run_id(entry_view(self.runs@[a]))
                        != run_id(entry_view(self.runs@[b])) by {
                        assert(run_id(before[a]) != run_id(before[b]));
                    }
                    assert(self.run_entries() =~= before.update(
                        i as int,
                        (name@, key@, DynamicVarRuns { count: updated.count, elapsed: updated.elapsed }),
                    ));
                }
                return;
            }
            i = i + 1;
        }
        let ghost before = self.run_entries();
        self.runs.push((name.to_string(), key.duplicate(), DynamicVarRuns { count: 1, elapsed }));
        proof {
            assert(self.run_entries() =~= before.push((name@, key@, DynamicVarRuns { count: 1, elapsed })));
            assert forall|a: int, b: int| 0 <= a < b < self.runs.len() implies run_id(entry_view(self.runs@[a]))
                != run_id(entry_view(self.runs@[b])) by {
                if b < before.len() {
                    assert(run_id(before[a]) != run_id(before[b]));
                }
            }
        }
    }

    /// Returns the name and the runs of the uncached variables that ran their command more than
    /// once and took long enough for caching to be worth considering.
    pub fn uncached_hints(&self) -> (r: Vec<(String, DynamicVarRuns)>)
        ensures
            r@.map_values(|h: (String, DynamicVarRuns)| (h.0@, h.1)) == hints_of(self.run_entries()),
    {
        let mut r: Vec<(String, DynamicVarRuns)> = Vec::new();
        let mut i: usize = 0;
        while i < self.runs.len()
            invariant
                i <= self.runs.len(),
                r@.map_values(|h: (String, DynamicVarRuns)| (h.0@, h.1)) == hints_of(self.run_entries().take(i as int)),
            decreases self.runs.len() - i,
        {
            proof {
                assert(self.run_entries().take(i + 1).drop_last() =~= self.run_entries().take(i as int));
                assert(self.run_entries().take(i + 1).last() == entry_view(self.runs@[i as int]));
            }
            let runs = self.runs[i].2;
            if runs.count > 1 && runs.elapsed >= DYNAMIC_VAR_HINT_THRESHOLD_NANOS {
                let ghost before = r@;
                r.push((copy_string(&self.runs[i].0), runs));
                proof {
                    assert(r@.map_values(|h: (String, DynamicVarRuns)| (h.0@, h.1)) =~= before.map_values(
                        |h: (String, DynamicVarRuns)| (h.0@, h.1),
                    ).push((self.runs@[i as int].0@, runs)));
                }
            }
            i = i + 1;
        }
        proof {
            assert(self.run_entries().take(self.runs.len() as int) =~= self.run_entries());
        }
        r
    }
}

/// A JSON value, as the templates see the value of a variable.
#[derive(Debug)]
pub enum Json {
    Null,
    Bool(bool),
    /// A number, written as JSON writes it
    Number(String),
    String(String),
    Array(Vec<Json>),
    Object(Vec<(String, Json)>),
}

/// Why the `quote` filter refused a value.
#[derive(Debug, Clone, Copy, PartialEq, Eq, Structural)]
pub enum QuoteFilterError {
    /// A map, or an array holding an array or a map: it has no single-argument form
    NotScalar,
    /// The value holds a nul byte, which no shell argument can hold
    Nul,
}

/// The text of a scalar value for the `quote` filter: a string as it is, a number as JSON
/// writes it, `true` or `false`, nothing for null; `None` for an array or a map.
pub open spec fn scalar_text(value: Json) -> Option<Seq<char>> {
    match value {
        Json::String(s) => Some(s@),
        Json::Number(n) => Some(n@),
        Json::Bool(b) => Some(if b { seq!['t', 'r', 'u', 'e'] } else { seq!['f', 'a', 'l', 's', 'e'] }),
        Json::Null => Some(Seq::empty()),
        _ => None,
    }
}

/// Stringifies a scalar JSON value for the `quote` filter. Arrays and maps have no
/// single-argument shell form.
pub fn scalar_to_string(value: &Json) -> (r: Result<String, QuoteFilterError>)
    ensures
        match r {
            Ok(s) => scalar_text(*value) == Some(s@),
            Err(e) => scalar_text(*value) is None && e == QuoteFilterError::NotScalar,
        },
{
    match value {
        Json::String(s) => Ok(s.clone()),
        Json::Number(n) => Ok(n.clone()),
        Json::Bool(b) => {
            proof {
                reveal_strlit("true");
                reveal_strlit("false");
            }
            if *b {
                Ok("true".to_string())
            } else {
                Ok("false".to_string())
            }
        },
        Json::Null => Ok(String::new()),
        _ => Err(QuoteFilterError::NotScalar),
    }
}

/// How `shlex` writes a word as one shell argument.
pub uninterp spec fn shlex_quote(word: Seq<char>) -> Seq<char>;

/// Whether `s` holds a nul character.
pub open spec fn has_nul(s: Seq<char>) -> bool {
    s.contains('\0')
}

/// Quotes a word for the shell: `shlex::try_quote`. It fails exactly on a word holding a nul
/// byte; an empty word becomes `''`. The quoting itself is named by [`shlex_quote`].
#[verifier::external_body]
pub(crate) fn try_quote(word: &str) -> (r: Result<String, shlex::QuoteError>)
    ensures
        r is Err <==> has_nul(word@),
        r is Ok ==> r->Ok_0@ == shlex_quote(word@),
        word@.len() == 0 ==> r is Ok && r->Ok_0@ == seq!['\'', '\''],
{
    shlex::try_quote(word).map(|q| q.into_owned())
}

/// The words one after another, a single space between two.
pub open spec fn join_spaces(words: Seq<Seq<char>>) -> Seq<char>
    decreases words.len(),
{
    if words.len() == 0 {
        Seq::empty()
    } else if words.len() == 1 {
        words[0]
    } else {
        join_spaces(words.drop_last()) + seq![' '] + words.last()
    }
}

/// Each word quoted as [`try_quote`] does.
pub open spec fn quoted_words(words: Seq<Seq<char>>) -> Seq<Seq<char>> {
    words.map_values(|w: Seq<char>| shlex_quote(w))
}

/// Whether one of the words holds a nul character.
pub open spec fn any_nul(words: Seq<Seq<char>>) -> bool {
    exists|i: int| 0 <= i < words.len() && has_nul(words[i])
}

/// Quotes each word for the shell and joins them with spaces: `shlex::try_join`. It fails
/// exactly when a word holds a nul byte; otherwise the words are quoted as [`try_quote`] does.
#[verifier::external_body]
pub(crate) fn try_join(words: &Vec<String>) -> (r: Result<String, shlex::QuoteError>)
    ensures
        r is Err <==> any_nul(strings_view(words@)),
        r is Ok ==> r->Ok_0@ == join_spaces(quoted_words(strings_view(words@))),
{
    shlex::try_join(words.iter().map(|w| w.as_str()))
}

/// Whether every item is a scalar.
pub open spec fn all_scalar(items: Seq<Json>) -> bool {
    forall|i: int| 0 <= i < items.len() ==> scalar_text(#[trigger] items[i]) is Some
}

/// The texts of scalar items.
pub open spec fn scalar_words(items: Seq<Json>) -> Seq<Seq<char>> {
    items.map_values(|j: Json| scalar_text(j)->0)
}

/// What the `quote` filter makes of the items of an array: their texts quoted and joined by
/// spaces.
pub open spec fn quote_items(items: Seq<Json>) -> Result<Seq<char>, QuoteFilterError> {
    if !all_scalar(items) {
        Err(QuoteFilterError::NotScalar)
    } else if any_nul(scalar_words(items)) {
        Err(QuoteFilterError::Nul)
    } else {
        Ok(join_spaces(quoted_words(scalar_words(items))))
    }
}

/// What the `quote` filter makes of a value: a scalar quoted as one shell argument, an array
/// of scalars as its items quoted and joined by spaces, null as the empty argument.
pub open spec fn spec_quote(value: Json) -> Result<Seq<char>, QuoteFilterError> {
    match value {
        Json::Array(items) => quote_items(items@),
        _ => match scalar_text(value) {
            None => Err(QuoteFilterError::NotScalar),
            Some(word) => if has_nul(word) {
                Err(QuoteFilterError::Nul)
            } else {
                Ok(shlex_quote(word))
            },
        },
    }
}

/// The `quote` filter of the templates: quotes a value as a shell argument, or an array as
/// the arguments of its items.
///
/// It refuses a map, an array holding an array or a map, and a value holding a nul byte,
/// which cannot be represented as a shell argument.
pub fn quote_filter(value: &Json) -> (r: Result<String, QuoteFilterError>)
    ensures
        match r {
            Ok(s) => spec_quote(*value) == Ok::<Seq<char>, QuoteFilterError>(s@),
            Err(e) => spec_quote(*value) == Err::<Seq<char>, QuoteFilterError>(e),
        },
{
    match value {
        Json::Array(items) => {
            let mut words: Vec<String> = Vec::new();
            let mut i: usize = 0;
            while i < items.len()
                invariant
                    i <= items.len(),
                    *value == Json::Array(*items),
                    words.len() == i,
                    forall|j: int| 0 <= j < i ==> scalar_text(items@[j]) == Some(#[trigger] words@[j]@),
                decreases items.len() - i,
            {
                match scalar_to_string(&items[i]) {
                    Ok(w) => words.push(w),
                    Err(e) => {
                        proof {
                            assert(!all_scalar(items@));
                        }
                        return Err(e);
                    },
                }
                i = i + 1;
            }
            proof {
                assert(strings_view(words@) =~= scalar_words(items@));
                assert forall|j: int| 0 <= j < items.len() implies scalar_text(#[trigger] items@[j]) is Some by {
                    assert(scalar_text(items@[j]) == Some(words@[j]@));
                }
            }
            match try_join(&words) {
                Ok(joined) => Ok(joined),
                Err(_) => Err(QuoteFilterError::Nul),
            }
        },
        _ => {
            let word = match scalar_to_string(value) {
                Ok(w) => w,
                Err(e) => {
                    return Err(e);
                },
            };
            match try_quote(word.as_str()) {
                Ok(q) => Ok(q),
                Err(_) => Err(QuoteFilterError::Nul),
            }
        },
    }
}

} // verus!
