//! Readiness probes of services: the decisions of the loop that runs the check command, the
//! log lines that make a log probe succeed, and what the log says of each try.
use crate::config::{pattern_is_match, regex_match, Pattern};
use crate::env::{Env, EnvConfigView};
use crate::ordered::Duplicate;
use crate::text::{chars_of, spec_is_whitespace, string_from_chars, is_whitespace};
use vstd::prelude::*;
use vstd::utf8::{decode_utf8, valid_utf8};

verus! {

/// The text of some bytes, a replacement character standing for each invalid sequence.
pub uninterp spec fn lossy_text(bytes: Seq<u8>) -> Seq<char>;

/// The text of some bytes: `String::from_utf8_lossy`. Valid UTF-8 is decoded as it is; what the
/// replacement of invalid sequences gives is named by [`lossy_text`].
#[verifier::external_body]
pub(crate) fn utf8_lossy(bytes: &[u8]) -> (r: String)
    ensures
        r@ == lossy_text(bytes@),
        valid_utf8(bytes@) ==> r@ == decode_utf8(bytes@),
{
    String::from_utf8_lossy(bytes).into_owned()
}

/// A readiness probe that waits for a log line of the service matching a pattern.
#[derive(Debug)]
pub struct LogLineProbe {
    /// The regular expression, valid as `regex` parses it
    pub pattern: String,
    /// Seconds to wait for the line
    pub timeout: u64,
}

/// A readiness probe that runs a command until it succeeds.
#[derive(Debug)]
pub struct ExecProbe {
    /// Full name of the service
    pub name: String,
    pub command: String,
    pub shell: String,
    pub shell_args: Vec<String>,
    /// Directory the command runs in
    pub working_dir: String,
    /// Environment of the command
    pub env: Env,
    /// Seconds between tries
    pub interval: u64,
    /// Seconds a try may take
    pub timeout: u64,
    /// Failed tries allowed before giving up
    pub retries: u64,
    /// Seconds from the start during which a failed try does not count
    pub start_period: u64,
}

/// How a service tells that it is ready.
#[derive(Debug)]
pub enum Probe {
    LogLine(LogLineProbe),
    Exec(ExecProbe),
    /// Ready as soon as it starts
    NoProbe,
}

/// What a probe says.
pub enum ProbeView {
    LogLine { pattern: Seq<char>, timeout: u64 },
    Exec {
        name: Seq<char>,
        command: Seq<char>,
        shell: Seq<char>,
        shell_args: Seq<Seq<char>>,
        working_dir: Seq<char>,
        env: Seq<EnvConfigView>,
        interval: u64,
        timeout: u64,
        retries: u64,
        start_period: u64,
    },
    NoProbe,
}

impl DeepView for Probe {
    type V = ProbeView;

    open spec fn deep_view(&self) -> ProbeView {
        match self {
            Probe::LogLine(p) => ProbeView::LogLine { pattern: p.pattern@, timeout: p.timeout },
            Probe::Exec(p) => ProbeView::Exec {
                name: p.name@,
                command: p.command@,
                shell: p.shell@,
                shell_args: p.shell_args.deep_view(),
                working_dir: p.working_dir@,
                env: p.env.deep_view(),
                interval: p.interval,
                timeout: p.timeout,
                retries: p.retries,
                start_period: p.start_period,
            },
            Probe::NoProbe => ProbeView::NoProbe,
        }
    }
}

impl Duplicate for Probe {
    fn duplicate(&self) -> (r: Probe) {
        match self {
            Probe::LogLine(p) => Probe::LogLine(LogLineProbe { pattern: p.pattern.clone(), timeout: p.timeout }),
            Probe::Exec(p) => Probe::Exec(
                ExecProbe {
                    name: p.name.clone(),
                    command: p.command.clone(),
                    shell: p.shell.clone(),
                    shell_args: p.shell_args.duplicate(),
                    working_dir: p.working_dir.clone(),
                    env: p.env.duplicate(),
                    interval: p.interval,
                    timeout: p.timeout,
                    retries: p.retries,
                    start_period: p.start_period,
                },
            ),
            Probe::NoProbe => Probe::NoProbe,
        }
    }
}

/// How a try of the check command ended.
#[derive(Debug, Clone, Copy, PartialEq, Eq, Structural)]
pub enum TryOutcome {
    /// It exited with code 0
    Succeeded,
    /// It timed out, exited with another code, or ended otherwise
    Failed,
}

/// What the probe does after a try.
#[derive(Debug, Clone, Copy, PartialEq, Eq, Structural)]
pub enum ProbeDecision {
    /// The service is ready
    Ready,
    /// The service will not become ready
    GiveUp,
    /// Wait for the interval and try again
    Retry,
}

/// The count of the tries of an exec probe, and of the failed ones that count against its
/// retries.
#[derive(Debug, Clone, Copy)]
pub struct ExecProbeTries {
    /// Number of failed tries counted, at most `max_retries`
    pub retries: u64,
    /// Number of tries made
    pub tries: u64,
    /// Number of failed tries allowed before giving up
    pub max_retries: u64,
    /// Seconds from the start during which a failed try does not count
    pub start_period: u64,
}

/// The decision after a try that ended as `outcome`, `elapsed` seconds after the probe started,
/// with `retries` failures counted so far: ready on success, giving up on a failure once the
/// retries are used up, trying again otherwise.
pub open spec fn spec_decision(retries: u64, max_retries: u64, outcome: TryOutcome) -> ProbeDecision {
    match outcome {
        TryOutcome::Succeeded => ProbeDecision::Ready,
        TryOutcome::Failed => if retries >= max_retries {
            ProbeDecision::GiveUp
        } else {
            ProbeDecision::Retry
        },
    }
}

impl ExecProbeTries {
    /// Whether the failures counted are within the retries allowed.
    pub open spec fn wf(&self) -> bool {
        self.retries <= self.max_retries
    }

    /// No try made yet.
    pub fn new(max_retries: u64, start_period: u64) -> (r: ExecProbeTries)
        ensures
            r.wf(),
            r.retries == 0,
            r.tries == 0,
            r.max_retries == max_retries,
            r.start_period == start_period,
    {
        ExecProbeTries { retries: 0, tries: 0, max_retries, start_period }
    }

    /// Takes the outcome of a try, made `elapsed` seconds after the probe started, and decides
    /// what comes next. A failed try that does not give up counts against the retries once the
    /// start period has passed.
    pub fn record(&mut self, outcome: TryOutcome, elapsed: u64) -> (r: ProbeDecision)
        requires
            old(self).wf(),
            old(self).tries < u64::MAX,
        ensures
            final(self).wf(),
            r == spec_decision(old(self).retries, old(self).max_retries, outcome),
            final(self).tries == old(self).tries + 1,
            final(self).max_retries == old(self).max_retries,
            final(self).start_period == old(self).start_period,
            final(self).retries as int == (if r == ProbeDecision::Retry && elapsed >= old(self).start_period {
                old(self).retries + 1
            } else {
                old(self).retries as int
            }),
    {
        self.tries = self.tries + 1;
        match outcome {
            TryOutcome::Succeeded => ProbeDecision::Ready,
            TryOutcome::Failed => {
                // Retry up to `max_retries` times
                if self.retries >= self.max_retries {
                    return ProbeDecision::GiveUp;
                }
                // The retry count does not increase until `start_period` seconds elapsed
                if elapsed >= self.start_period {
                    self.retries = self.retries + 1;
                }
                ProbeDecision::Retry
            },
        }
    }
}

/// Past its start period, a probe gives up on its failed try after `max_retries` failed tries
/// before it: the failures counted go up by one each time until they reach the limit.
pub proof fn law_probe_gives_up_after_retries(p: ExecProbeTries, elapsed: u64)
    requires
        p.wf(),
        elapsed >= p.start_period,
    ensures
        spec_decision(p.retries, p.max_retries, TryOutcome::Failed) == ProbeDecision::GiveUp <==> p.retries
            == p.max_retries,
{
}

/// Whether a log line makes a log probe succeed: its text matches the pattern, an invalid byte
/// sequence being read as a replacement character rather than dropping the line.
pub fn log_line_matches(pattern: &Pattern, line: &[u8]) -> (r: bool)
    ensures
        r == regex_match(pattern.source(), lossy_text(line@)),
{
    let text = utf8_lossy(line);
    pattern_is_match(pattern, text.as_str())
}

/// The text without the white space at its end.
pub open spec fn trim_end(s: Seq<char>) -> Seq<char>
    decreases s.len(),
{
    if s.len() > 0 && spec_is_whitespace(s.last()) {
        trim_end(s.drop_last())
    } else {
        s
    }
}

/// What a probe command wrote, for the end of a log message: on lines of its own so that it
/// stays readable, and nothing at all when it wrote nothing but white space.
pub open spec fn spec_logged_output(output: Seq<char>) -> Seq<char> {
    let t = trim_end(output);
    if t.len() == 0 {
        Seq::empty()
    } else {
        seq!['\n'] + t
    }
}

/// Formats what a probe command wrote for the log; see [`spec_logged_output`].
pub fn logged_output(output: &str) -> (r: String)
    ensures
        r@ == spec_logged_output(output@),
{
    let chars = chars_of(output);
    let mut n: usize = chars.len();
    proof {
        assert(chars@.take(n as int) =~= chars@);
    }
    while n > 0 && is_whitespace(chars[n - 1])
        invariant
            n <= chars.len(),
            trim_end(chars@) == trim_end(chars@.take(n as int)),
        decreases n,
    {
        proof {
            assert(chars@.take(n as int).drop_last() =~= chars@.take(n - 1));
        }
        n = n - 1;
    }
    proof {
        assert(trim_end(chars@.take(n as int)) == chars@.take(n as int));
    }
    if n == 0 {
        return String::new();
    }
    let mut out: Vec<char> = Vec::new();
    out.push('\n');
    let mut i: usize = 0;
    while i < n
        invariant
            i <= n <= chars.len(),
            out@ == seq!['\n'] + chars@.take(i as int),
        decreases n - i,
    {
        out.push(chars[i]);
        proof {
            assert(chars@.take(i + 1) =~= chars@.take(i as int).push(chars@[i as int]));
            assert(seq!['\n'] + chars@.take(i + 1) =~= (seq!['\n'] + chars@.take(i as int)).push(chars@[i as int]));
        }
        i = i + 1;
    }
    string_from_chars(out.as_slice())
}

/// The output of a probe command, collected while it runs. It is one value with one owner:
/// every write goes through it and one read empties it.
#[derive(Debug)]
pub struct OutputCollector {
    buffer: Vec<u8>,
}

impl OutputCollector {
    /// The bytes collected.
    pub closed spec fn bytes(&self) -> Seq<u8> {
        self.buffer@
    }

    /// Nothing collected yet.
    pub fn new() -> (r: OutputCollector)
        ensures
            r.bytes() == Seq::<u8>::empty(),
    {
        OutputCollector { buffer: Vec::new() }
    }

    /// Collects `buf`.
    pub fn write(&mut self, buf: &[u8]) -> (r: usize)
        ensures
            final(self).bytes() == old(self).bytes() + buf@,
            r == buf.len(),
    {
        let mut i: usize = 0;
        let ghost start = self.buffer@;
        while i < buf.len()
            invariant
                i <= buf.len(),
                self.buffer@ == start + buf@.take(i as int),
            decreases buf.len() - i,
        {
            self.buffer.push(buf[i]);
            proof {
                assert(buf@.take(i + 1) =~= buf@.take(i as int).push(buf@[i as int]));
                assert(start + buf@.take(i + 1) =~= (start + buf@.take(i as int)).push(buf@[i as int]));
            }
            i = i + 1;
        }
        proof {
            assert(buf@.take(buf.len() as int) =~= buf@);
        }
        buf.len()
    }

    /// Takes what was collected, as text, and starts over empty.
    pub fn take_output(&mut self) -> (r: String)
        ensures
            r@ == lossy_text(old(self).bytes()),
            valid_utf8(old(self).bytes()) ==> r@ == decode_utf8(old(self).bytes()),
            final(self).bytes() == Seq::<u8>::empty(),
    {
        let contents = utf8_lossy(self.buffer.as_slice());
        self.buffer.clear();
        contents
    }
}

} // verus!
