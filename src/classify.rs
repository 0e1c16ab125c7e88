//! Recognition of the `LEVEL [timestamp] message` shape of a log line.

use vstd::prelude::*;
use crate::text::{CharClass, chars_of, in_class, is_space, lemma_skip_class, skip, skip_class};

verus! {

broadcast use vstd::string::group_string_axioms;

/// The severity of a log line.
#[derive(Clone, Copy, Debug, PartialEq, Eq, Structural)]
pub enum Level {
    Info,
    Warn,
    Error,
    Debug,
    Trace,
}

impl Level {
    /// The keyword that opens a line of this level.
    pub open spec fn keyword(self) -> Seq<char> {
        match self {
            Level::Info => seq!['I', 'N', 'F', 'O'],
            Level::Warn => seq!['W', 'A', 'R', 'N'],
            Level::Error => seq!['E', 'R', 'R', 'O', 'R'],
            Level::Debug => seq!['D', 'E', 'B', 'U', 'G'],
            Level::Trace => seq!['T', 'R', 'A', 'C', 'E'],
        }
    }

    /// The keyword of this level.
    pub fn as_str(&self) -> (r: &'static str)
        ensures
            r@ == self.keyword(),
    {
        match self {
            Level::Info => {
                proof {
                    reveal_strlit("INFO");
                }
                "INFO"
            },
            Level::Warn => {
                proof {
                    reveal_strlit("WARN");
                }
                "WARN"
            },
            Level::Error => {
                proof {
                    reveal_strlit("ERROR");
                }
                "ERROR"
            },
            Level::Debug => {
                proof {
                    reveal_strlit("DEBUG");
                }
                "DEBUG"
            },
            Level::Trace => {
                proof {
                    reveal_strlit("TRACE");
                }
                "TRACE"
            },
        }
    }
}

/// The line without its terminator, `\n` or `\r\n`.
pub open spec fn strip_terminator(line: Seq<char>) -> Seq<char> {
    if line.len() >= 2 && line.last() == '\n' && line[line.len() - 2] == '\r' {
        line.subrange(0, line.len() - 2)
    } else if line.len() >= 1 && line.last() == '\n' {
        line.drop_last()
    } else {
        line
    }
}

/// The level whose keyword opens `s`, if any.
pub open spec fn level_prefix(s: Seq<char>) -> Option<Level> {
    if Level::Info.keyword().is_prefix_of(s) {
        Some(Level::Info)
    } else if Level::Warn.keyword().is_prefix_of(s) {
        Some(Level::Warn)
    } else if Level::Error.keyword().is_prefix_of(s) {
        Some(Level::Error)
    } else if Level::Debug.keyword().is_prefix_of(s) {
        Some(Level::Debug)
    } else if Level::Trace.keyword().is_prefix_of(s) {
        Some(Level::Trace)
    } else {
        None
    }
}

/// The parts of a line of the shape `LEVEL [timestamp] message`: a level keyword,
/// optional whitespace, a non-empty timestamp text free of `]` between `[` and
/// `]`, one or more whitespace characters, and the rest of the line as the
/// message. The line terminator is not part of the message.
pub open spec fn classify_spec(line: Seq<char>) -> Option<(Level, Seq<char>, Seq<char>)> {
    let s = strip_terminator(line);
    match level_prefix(s) {
        None => None,
        Some(lv) => {
            let a = skip_class(s, lv.keyword().len() as int, CharClass::Space);
            let c = skip_class(s, a + 1, CharClass::NotCloseBracket);
            let m = skip_class(s, c + 1, CharClass::Space);
            if a < s.len() && s[a] == '[' && a + 1 < c && c < s.len() && c + 1 < m {
                Some((lv, s.subrange(a + 1, c), s.subrange(m, s.len() as int)))
            } else {
                None
            }
        },
    }
}

/// The line opens with a level keyword, optional whitespace, a `[`, one or more
/// characters other than `]`, a `]` and a whitespace character.
pub open spec fn has_bracketed_timestamp(line: Seq<char>) -> bool {
    exists|lv: Level, a: int, c: int|
        #![trigger lv.keyword(), line[a], line[c]]
        {
            &&& lv.keyword().is_prefix_of(line)
            &&& lv.keyword().len() <= a
            &&& a + 1 < c
            &&& c + 1 < line.len()
            &&& (forall|m: int| lv.keyword().len() <= m < a ==> is_space(#[trigger] line[m]))
            &&& line[a] == '['
            &&& (forall|m: int| a < m < c ==> #[trigger] line[m] != ']')
            &&& line[c] == ']'
            &&& is_space(line[c + 1])
        }
}

/// A line that does not start with a level keyword, or that lacks a bracketed
/// timestamp followed by whitespace after its keyword, is not classified.
pub proof fn lemma_unclassified(line: Seq<char>)
    requires
        (forall|lv: Level| !(#[trigger] lv.keyword()).is_prefix_of(line)) || !has_bracketed_timestamp(
            line,
        ),
    ensures
        classify_spec(line) is None,
{
    let s = strip_terminator(line);
    assert(s =~= line.subrange(0, s.len() as int));
    match level_prefix(s) {
        None => {},
        Some(lv) => {
            assert(lv.keyword().is_prefix_of(line)) by {
                assert forall|m: int| 0 <= m < lv.keyword().len() implies lv.keyword()[m]
                    == line[m] by {
                    assert(s[m] == line[m]);
                }
            }
            let n = lv.keyword().len() as int;
            lemma_skip_class(s, n, CharClass::Space);
            let a = skip_class(s, n, CharClass::Space);
            if a < s.len() {
                lemma_skip_class(s, a + 1, CharClass::NotCloseBracket);
                let c = skip_class(s, a + 1, CharClass::NotCloseBracket);
                if s[a] == '[' && a + 1 < c && c < s.len() {
                    lemma_skip_class(s, c + 1, CharClass::Space);
                    let m = skip_class(s, c + 1, CharClass::Space);
                    if c + 1 < m {
                        assert(in_class(CharClass::Space, s[c + 1]));
                        assert forall|i: int| n <= i < a implies is_space(#[trigger] line[i]) by {
                            assert(in_class(CharClass::Space, s[i]));
                        }
                        assert forall|i: int| a < i < c implies #[trigger] line[i] != ']' by {
                            assert(in_class(CharClass::NotCloseBracket, s[i]));
                        }
                        assert(has_bracketed_timestamp(line));
                    }
                }
            }
        },
    }
}

/// A classified line: its level, the raw text of its timestamp and its message.
pub struct Classified {
    pub level: Level,
    pub timestamp: String,
    pub message: String,
}

/// Whether `w` opens `cs`.
fn starts_with(cs: &Vec<char>, w: &Vec<char>) -> (r: bool)
    ensures
        r == w@.is_prefix_of(cs@),
{
    if w.len() > cs.len() {
        return false;
    }
    let mut i: usize = 0;
    while i < w.len()
        invariant
            w@.len() <= cs@.len(),
            i <= w@.len(),
            forall|m: int| 0 <= m < i ==> w@[m] == cs@[m],
        decreases w@.len() - i,
    {
        if w[i] != cs[i] {
            return false;
        }
        i = i + 1;
    }
    true
}

/// The level whose keyword opens `cs`, if any.
fn find_level(cs: &Vec<char>) -> (r: Option<Level>)
    ensures
        r == level_prefix(cs@),
{
    let info = vec!['I', 'N', 'F', 'O'];
    let warn = vec!['W', 'A', 'R', 'N'];
    let error = vec!['E', 'R', 'R', 'O', 'R'];
    let debug = vec!['D', 'E', 'B', 'U', 'G'];
    let trace = vec!['T', 'R', 'A', 'C', 'E'];
    assert(info@ == Level::Info.keyword());
    assert(warn@ == Level::Warn.keyword());
    assert(error@ == Level::Error.keyword());
    assert(debug@ == Level::Debug.keyword());
    assert(trace@ == Level::Trace.keyword());
    if starts_with(cs, &info) {
        Some(Level::Info)
    } else if starts_with(cs, &warn) {
        Some(Level::Warn)
    } else if starts_with(cs, &error) {
        Some(Level::Error)
    } else if starts_with(cs, &debug) {
        Some(Level::Debug)
    } else if starts_with(cs, &trace) {
        Some(Level::Trace)
    } else {
        None
    }
}

/// Recognises a line of the shape `LEVEL [timestamp] message`; a line of any
/// other shape gives `None`. A trailing `\n` or `\r\n` is ignored.
pub fn classify(line: &str) -> (r: Option<Classified>)
    ensures
        match classify_spec(line@) {
            None => r is None,
            Some(t) => r matches Some(c) && c.level == t.0 && c.timestamp@ == t.1 && c.message@
                == t.2,
        },
{
    let mut cs = chars_of(line);
    let ghost s = strip_terminator(line@);
    let len = cs.len();
    if len >= 2 && cs[len - 1] == '\n' && cs[len - 2] == '\r' {
        cs.truncate(len - 2);
    } else if len >= 1 && cs[len - 1] == '\n' {
        cs.truncate(len - 1);
    }
    assert(cs@ =~= s);
    assert(s =~= line@.subrange(0, s.len() as int));
    let lv = match find_level(&cs) {
        Some(lv) => lv,
        None => {
            return None;
        },
    };
    let n = lv.as_str().unicode_len();
    assert(lv.keyword().is_prefix_of(cs@));
    let a = skip(&cs, n, CharClass::Space);
    if a >= cs.len() || cs[a] != '[' {
        return None;
    }
    let c = skip(&cs, a + 1, CharClass::NotCloseBracket);
    if c <= a + 1 || c >= cs.len() {
        return None;
    }
    let m = skip(&cs, c + 1, CharClass::Space);
    if m <= c + 1 {
        return None;
    }
    let timestamp = line.substring_char(a + 1, c).to_owned();
    let message = line.substring_char(m, cs.len()).to_owned();
    assert(timestamp@ =~= s.subrange(a + 1, c as int));
    assert(message@ =~= s.subrange(m as int, s.len() as int));
    Some(Classified { level: lv, timestamp, message })
}

} // verus!
