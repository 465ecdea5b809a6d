//! Records of the program's own log on their way to the interface, and the lines that show
//! them.
use crate::text::{chars_of, string_from_chars};
use vstd::prelude::*;

verus! {

/// How much a record matters.
#[derive(Debug, Clone, Copy, PartialEq, Eq, Structural)]
pub enum LogLevel {
    Trace,
    Debug,
    Info,
    Warn,
    Error,
}

/// The name of a level, as the log writes it.
pub open spec fn level_text(level: LogLevel) -> Seq<char> {
    match level {
        LogLevel::Trace => seq!['T', 'R', 'A', 'C', 'E'],
        LogLevel::Debug => seq!['D', 'E', 'B', 'U', 'G'],
        LogLevel::Info => seq!['I', 'N', 'F', 'O'],
        LogLevel::Warn => seq!['W', 'A', 'R', 'N'],
        LogLevel::Error => seq!['E', 'R', 'R', 'O', 'R'],
    }
}

impl LogLevel {
    /// The name of the level: `TRACE`, `DEBUG`, `INFO`, `WARN` or `ERROR`.
    pub fn as_str(&self) -> (r: &'static str)
        ensures
            r@ == level_text(*self),
    {
        match self {
            LogLevel::Trace => {
                let r = "TRACE";
                proof {
                    reveal_strlit("TRACE");
                }
                assert(r@ =~= level_text(*self));
                r
            },
            LogLevel::Debug => {
                let r = "DEBUG";
                proof {
                    reveal_strlit("DEBUG");
                }
                assert(r@ =~= level_text(*self));
                r
            },
            LogLevel::Info => {
                let r = "INFO";
                proof {
                    reveal_strlit("INFO");
                }
                assert(r@ =~= level_text(*self));
                r
            },
            LogLevel::Warn => {
                let r = "WARN";
                proof {
                    reveal_strlit("WARN");
                }
                assert(r@ =~= level_text(*self));
                r
            },
            LogLevel::Error => {
                let r = "ERROR";
                proof {
                    reveal_strlit("ERROR");
                }
                assert(r@ =~= level_text(*self));
                r
            },
        }
    }
}

/// A record of the log.
#[derive(Debug, Clone)]
pub struct LogRecord {
    /// The task the record is about, or `None` when it is about the program itself
    pub task: Option<String>,
    pub level: LogLevel,
    /// Where in the program the record was made, as `firepit::probe`
    pub module: String,
    pub message: String,
}

/// The pieces of `s` between its newlines, one more than there are newlines.
pub open spec fn pieces(s: Seq<char>) -> Seq<Seq<char>>
    decreases s.len(),
{
    if s.len() == 0 {
        seq![Seq::empty()]
    } else {
        let prev = pieces(s.drop_last());
        if s.last() == '\n' {
            prev.push(Seq::empty())
        } else {
            prev.update(prev.len() - 1, prev.last().push(s.last()))
        }
    }
}

/// A line without the `\r` that ends it, if one does.
pub open spec fn without_cr(l: Seq<char>) -> Seq<char> {
    if l.len() > 0 && l.last() == '\r' {
        l.drop_last()
    } else {
        l
    }
}

/// The lines of `s`, as `str::lines` gives them: the text between line endings, `\n` or
/// `\r\n`, the last line ending being optional.
pub open spec fn text_lines(s: Seq<char>) -> Seq<Seq<char>> {
    let p = pieces(s);
    let ended = p.drop_last().map_values(|l: Seq<char>| without_cr(l));
    if p.last().len() == 0 {
        ended
    } else {
        ended.push(p.last())
    }
}

/// The lines that show a record: each line of its message after the level and the module.
pub open spec fn record_lines(level: LogLevel, module: Seq<char>, message: Seq<char>) -> Seq<Seq<char>> {
    text_lines(message).map_values(|l: Seq<char>| level_text(level) + seq![' '] + module + seq![':', ' '] + l)
}

impl LogRecord {
    /// The lines that show the record: each line of its message, opening with the level and
    /// the module, so that a record reads as a log line among the output of the tasks.
    pub fn lines(&self) -> (r: Vec<String>)
        ensures
            r.deep_view() == record_lines(self.level, self.module@, self.message@),
    {
        let mut opening = chars_of(self.level.as_str());
        opening.push(' ');
        let mut module = chars_of(self.module.as_str());
        opening.append(&mut module);
        opening.push(':');
        opening.push(' ');
        let ghost op = level_text(self.level) + seq![' '] + self.module@ + seq![':', ' '];
        assert(opening@ =~= op);
        let opening = string_from_chars(opening.as_slice());
        let text = chars_of(self.message.as_str());
        let ghost s = text@;
        let mut out: Vec<String> = Vec::new();
        let mut cur: Vec<char> = Vec::new();
        let mut i: usize = 0;
        while i < text.len()
            invariant
                i <= text.len(),
                s == text@,
                opening@ == op,
                pieces(s.take(i as int)).len() >= 1,
                cur@ == pieces(s.take(i as int)).last(),
                out.deep_view() == pieces(s.take(i as int)).drop_last().map_values(|l: Seq<char>| op + without_cr(l)),
            decreases text.len() - i,
        {
            let ghost p = pieces(s.take(i as int));
            let c = text[i];
            proof {
                assert(s.take(i + 1).drop_last() =~= s.take(i as int));
                assert(s.take(i + 1).last() == c);
            }
            if c == '\n' {
                let mut line = chars_of(opening.as_str());
                let n = cur.len();
                if n > 0 && cur[n - 1] == '\r' {
                    cur.pop();
                }
                line.append(&mut cur);
                let ghost before = out.deep_view();
                out.push(string_from_chars(line.as_slice()));
                cur = Vec::new();
                proof {
                    assert(line@ =~= op + without_cr(p.last()));
                    let p2 = pieces(s.take(i + 1));
                    assert(p2 == p.push(Seq::empty()));
                    assert(p2.drop_last() =~= p);
                    assert(p =~= p.drop_last().push(p.last()));
                    assert(out.deep_view() =~= before.push(op + without_cr(p.last())));
                    assert(out.deep_view() =~= p2.drop_last().map_values(|l: Seq<char>| op + without_cr(l)));
                }
            } else {
                cur.push(c);
                proof {
                    let p2 = pieces(s.take(i + 1));
                    assert(p2 == p.update(p.len() - 1, p.last().push(c)));
                    assert(p2.drop_last() =~= p.drop_last());
                }
            }
            i = i + 1;
        }
        let ghost p = pieces(s);
        assert(s.take(s.len() as int) =~= s);
        let ghost ended = p.drop_last().map_values(|l: Seq<char>| without_cr(l));
        assert(out.deep_view() =~= ended.map_values(|l: Seq<char>| op + l));
        if cur.len() > 0 {
            let mut line = chars_of(opening.as_str());
            line.append(&mut cur);
            let ghost before = out.deep_view();
            out.push(string_from_chars(line.as_slice()));
            proof {
                assert(out.deep_view() =~= before.push(op + p.last()));
                assert(out.deep_view() =~= ended.push(p.last()).map_values(|l: Seq<char>| op + l));
            }
        }
        assert(out.deep_view() =~= record_lines(self.level, self.module@, self.message@));
        out
    }
}

} // verus!
