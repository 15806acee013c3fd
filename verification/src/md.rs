//! One checklist entry and its line grammar.
//!
//! A line is scanned left to right through five states: before the dash,
//! after the dash (expecting `[`), inside the checkbox (expecting `x`,
//! whitespace, or `]`), after the checkbox (consuming whitespace and trying an
//! 18-character deadline window), and accumulating body text. The whole
//! scan is given as a spec-level state machine, and the executable parser is
//! proved to compute exactly what the machine computes.

use vstd::prelude::*;

use crate::chars::{
    char_is_alphabetic, char_is_ascii_ws, is_alpha, is_ascii_ws, push_char, str_to_chars,
};
use crate::date::{deadline_chars, deadline_wf, parse_deadline_window, parse_window_at, push_deadline, Deadline};

verus! {

/// Why a line failed to parse as a checklist entry.
#[derive(Clone, Copy, Debug, PartialEq, Eq, Structural)]
pub enum ParseError {
    /// A character inside the checkbox was neither `x`, whitespace, nor `]`.
    InvalidCheckbox,
    /// The line ended before the scan ever reached body text.
    InvalidEntry,
}

/// A to-do list entry; the abstract form of one line of markdown such as
/// `- [ ] Do something` or `- [x] (2024-06-20 20:00) Do another thing`.
#[derive(Debug, Clone, PartialEq, Eq)]
pub struct Entry {
    pub done: bool,
    pub text: String,
    pub deadline: Option<Deadline>,
}

/// Mathematical model of an [`Entry`].
pub struct EntryV {
    pub done: bool,
    pub text: Seq<char>,
    pub deadline: Option<Deadline>,
}

impl View for Entry {
    type V = EntryV;

    open spec fn view(&self) -> EntryV {
        EntryV { done: self.done, text: self.text@, deadline: self.deadline }
    }
}

/// An entry is well formed when its deadline, if any, is a real calendar
/// date and time.
pub open spec fn entry_wf(e: EntryV) -> bool {
    match e.deadline {
        Some(d) => deadline_wf(d),
        None => true,
    }
}

/// Copies an entry.
pub fn clone_entry(e: &Entry) -> (r: Entry)
    ensures
        r == *e,
{
    Entry { done: e.done, text: e.text.clone(), deadline: e.deadline }
}

/// The scanner's position in the line grammar.
pub enum LineState {
    /// Before the dash.
    Start,
    /// After the dash, expecting `[`.
    Dash,
    /// Inside the checkbox.
    Checkbox,
    /// After the checkbox, trying deadline windows.
    AfterBox,
    /// Accumulating body text.
    Body,
    /// A hard error: an invalid checkbox character.
    Failed,
}

/// The scanner's full state: grammar position, checkbox flag, deadline found
/// so far, and the text accumulator.
pub struct LineMachine {
    pub state: LineState,
    pub done: bool,
    pub deadline: Option<Deadline>,
    pub acc: Seq<char>,
}

/// The scanner's initial state.
pub open spec fn line_init() -> LineMachine {
    LineMachine { state: LineState::Start, done: false, deadline: None, acc: Seq::empty() }
}

/// Appends a body character to the accumulator, dropping carriage returns
/// and line feeds.
pub open spec fn body_push(acc: Seq<char>, c: char) -> Seq<char> {
    if c == '\r' || c == '\n' {
        acc
    } else {
        acc.push(c)
    }
}

/// Whether an 18-character window contains an alphabetic character, which
/// abandons the deadline attempt.
pub open spec fn window_has_alpha(w: Seq<char>) -> bool {
    exists|j: int| 0 <= j < w.len() && is_alpha(w[j])
}

/// One step of the scanner at position `i`; returns the next state and the
/// next position (one past the current character, or past a consumed
/// deadline window).
pub open spec fn line_step(s: Seq<char>, i: int, m: LineMachine) -> (LineMachine, int) {
    let c = s[i];
    match m.state {
        LineState::Start => (
            if c == '-' {
                (LineMachine { state: LineState::Dash, ..m })
            } else {
                m
            },
            i + 1,
        ),
        LineState::Dash => (
            if c == '[' {
                (LineMachine { state: LineState::Checkbox, ..m })
            } else {
                m
            },
            i + 1,
        ),
        LineState::Checkbox => (
            if c == 'x' {
                (LineMachine { done: true, ..m })
            } else if c == ']' {
                (LineMachine { state: LineState::AfterBox, ..m })
            } else if !is_ascii_ws(c) {
                (LineMachine { state: LineState::Failed, ..m })
            } else {
                m
            },
            i + 1,
        ),
        LineState::AfterBox => {
            if s.len() - i >= 18 {
                let w = s.subrange(i, i + 18);
                if window_has_alpha(w) {
                    ((LineMachine { state: LineState::Body, acc: body_push(m.acc, c), ..m }), i + 1)
                } else if parse_deadline_window(w) is Some {
                    (
                        (LineMachine {
                            state: LineState::Body,
                            deadline: parse_deadline_window(w),
                            acc: Seq::empty(),
                            ..m
                        }),
                        i + 18,
                    )
                } else {
                    ((LineMachine { acc: m.acc.push(c), ..m }), i + 1)
                }
            } else if !is_ascii_ws(c) {
                ((LineMachine { state: LineState::Body, acc: m.acc.push(c), ..m }), i + 1)
            } else {
                (m, i + 1)
            }
        },
        LineState::Body => ((LineMachine { acc: body_push(m.acc, c), ..m }), i + 1),
        LineState::Failed => (m, i + 1),
    }
}

/// Runs the scanner from position `i` to the end of the line.
pub open spec fn line_run(s: Seq<char>, i: int, m: LineMachine) -> LineMachine
    decreases s.len() - i,
{
    if 0 <= i < s.len() {
        let r = line_step(s, i, m);
        line_run(s, r.1, r.0)
    } else {
        m
    }
}

/// Leading ASCII whitespace removed.
pub open spec fn trim_start(s: Seq<char>) -> Seq<char>
    decreases s.len(),
{
    if s.len() > 0 && is_ascii_ws(s[0]) {
        trim_start(s.drop_first())
    } else {
        s
    }
}

/// What parsing one line yields: the entry, or the reason the line is not one.
pub open spec fn entry_parse(s: Seq<char>) -> Result<EntryV, ParseError> {
    let m = line_run(s, 0, line_init());
    match m.state {
        LineState::Body => Ok(
            (EntryV { done: m.done, text: trim_start(m.acc), deadline: m.deadline }),
        ),
        LineState::Failed => Err(ParseError::InvalidCheckbox),
        _ => Err(ParseError::InvalidEntry),
    }
}

/// An entry's view of a parse result.
pub open spec fn parse_result_view(r: Result<Entry, ParseError>) -> Result<EntryV, ParseError> {
    match r {
        Ok(e) => Ok(e@),
        Err(p) => Err(p),
    }
}

/// A failed scan stays failed to the end of the line.
proof fn lemma_run_failed(s: Seq<char>, i: int, m: LineMachine)
    requires
        m.state is Failed,
    ensures
        line_run(s, i, m) == m,
    decreases s.len() - i,
{
    if 0 <= i < s.len() {
        lemma_run_failed(s, i + 1, m);
    }
}

/// Checkbox fill validation: a line whose checkbox holds any character that
/// is neither `x`, whitespace, nor the closing bracket is a hard parse
/// error, whatever follows it.
pub proof fn lemma_invalid_checkbox_char(c: char, rest: Seq<char>)
    requires
        !is_ascii_ws(c),
        c != 'x',
        c != ']',
    ensures
        entry_parse(seq!['-', ' ', '[', c] + rest) == Err::<EntryV, ParseError>(
            ParseError::InvalidCheckbox,
        ),
{
    let s = seq!['-', ' ', '[', c] + rest;
    assert(s[0] == '-' && s[1] == ' ' && s[2] == '[' && s[3] == c);
    let m0 = line_init();
    let m1 = LineMachine { state: LineState::Dash, done: false, deadline: None, acc: Seq::empty() };
    let m2 = LineMachine {
        state: LineState::Checkbox,
        done: false,
        deadline: None,
        acc: Seq::empty(),
    };
    let m3 = LineMachine {
        state: LineState::Failed,
        done: false,
        deadline: None,
        acc: Seq::empty(),
    };
    assert(s.len() >= 4);
    assert(line_run(s, 0, m0) == line_run(s, 1, m1));
    assert(line_run(s, 1, m1) == line_run(s, 2, m1));
    assert(line_run(s, 2, m1) == line_run(s, 3, m2));
    assert(line_run(s, 3, m2) == line_run(s, 4, m3));
    lemma_run_failed(s, 4, m3);
}

/// The serialized checkbox prefix: `- [x] ` or `- [ ] `.
pub open spec fn checkbox_chars(done: bool) -> Seq<char> {
    seq!['-', ' ', '[', (if done { 'x' } else { ' ' }), ']', ' ']
}

/// The serialized form of one entry: checkbox, optional deadline, body text.
/// No trailing newline.
pub open spec fn entry_md(e: EntryV) -> Seq<char> {
    checkbox_chars(e.done) + (match e.deadline {
        Some(d) => deadline_chars(d) + seq![' '],
        None => Seq::<char>::empty(),
    }) + e.text
}

impl Entry {
    /// Serializes the entry to its markdown line.
    pub fn to_md(&self) -> (r: String)
        ensures
            r@ == entry_md(self@),
    {
        let mut r = String::new();
        push_char(&mut r, '-');
        push_char(&mut r, ' ');
        push_char(&mut r, '[');
        if self.done {
            push_char(&mut r, 'x');
        } else {
            push_char(&mut r, ' ');
        }
        push_char(&mut r, ']');
        push_char(&mut r, ' ');
        proof {
            assert(r@ =~= checkbox_chars(self.done));
        }
        match &self.deadline {
            Some(d) => {
                push_deadline(&mut r, d);
                push_char(&mut r, ' ');
            },
            None => {},
        }
        r.append(self.text.as_str());
        proof {
            assert(r@ =~= entry_md(self@));
        }
        r
    }

    /// Parses one markdown line as an entry; yields exactly what the line
    /// grammar's scanner yields, and an error for every line the grammar
    /// rejects.
    pub fn from_md(md: String) -> (r: Result<Entry, ParseError>)
        ensures
            parse_result_view(r) == entry_parse(md@),
    {
        let s = str_to_chars(md.as_str());
        parse_entry_chars(&s)
    }
}

/// Whether the 18-character window at `i` contains an alphabetic character;
/// matches [`window_has_alpha`] on that window.
fn window_alpha_at(s: &Vec<char>, i: usize) -> (r: bool)
    requires
        i + 18 <= s@.len(),
    ensures
        r == window_has_alpha(s@.subrange(i as int, i + 18)),
{
    let ghost w = s@.subrange(i as int, i + 18);
    let n = s.len();
    let mut j: usize = 0;
    while j < 18
        invariant
            i + 18 <= s@.len(),
            n == s@.len(),
            j <= 18,
            w == s@.subrange(i as int, i + 18),
            forall|k: int| 0 <= k < j ==> !is_alpha(w[k]),
        decreases 18 - j,
    {
        if char_is_alphabetic(s[i + j]) {
            assert(w[j as int] == s@[i + j]);
            return true;
        }
        assert(w[j as int] == s@[i + j]);
        j += 1;
    }
    false
}

/// Leading ASCII whitespace trimmed; matches [`trim_start`].
fn trim_start_chars(v: &Vec<char>) -> (r: Vec<char>)
    ensures
        r@ == trim_start(v@),
{
    let n = v.len();
    let mut k: usize = 0;
    proof {
        assert(v@.skip(0) =~= v@);
    }
    while k < n && char_is_ascii_ws(v[k])
        invariant
            n == v@.len(),
            k <= n,
            trim_start(v@) == trim_start(v@.skip(k as int)),
            forall|j: int| 0 <= j < k ==> is_ascii_ws(v@[j]),
        decreases n - k,
    {
        proof {
            assert(v@.skip(k as int)[0] == v@[k as int]);
            assert(v@.skip(k as int).drop_first() =~= v@.skip(k + 1));
        }
        k += 1;
    }
    let mut r: Vec<char> = Vec::new();
    let mut j: usize = k;
    while j < n
        invariant
            n == v@.len(),
            k <= j <= n,
            r@ == v@.subrange(k as int, j as int),
        decreases n - j,
    {
        r.push(v[j]);
        j += 1;
        proof {
            assert(r@ =~= v@.subrange(k as int, j as int));
        }
    }
    proof {
        if k < n {
            assert(!is_ascii_ws(v@.skip(k as int)[0]));
        }
        assert(r@ =~= v@.skip(k as int));
    }
    r
}

/// Conversion to and from the markdown checklist grammar. The impls
/// delegate to the inherent methods, whose contracts state what the
/// conversions yield.
pub trait Markdown {
    /// Serializes to markdown text.
    fn to_md(&self) -> String;

    /// Parses from markdown text.
    fn from_md(md: String) -> Result<Self, ParseError> where Self: core::marker::Sized;
}

impl Markdown for Entry {
    fn to_md(&self) -> String {
        Entry::to_md(self)
    }

    fn from_md(md: String) -> Result<Entry, ParseError> {
        Entry::from_md(md)
    }
}

/// The scanner's grammar position, as executable state.
enum ScanPos {
    Start,
    Dash,
    Checkbox,
    AfterBox,
    Body,
}

/// The spec-level state a [`ScanPos`] stands for.
spec fn scan_pos_view(p: ScanPos) -> LineState {
    match p {
        ScanPos::Start => LineState::Start,
        ScanPos::Dash => LineState::Dash,
        ScanPos::Checkbox => LineState::Checkbox,
        ScanPos::AfterBox => LineState::AfterBox,
        ScanPos::Body => LineState::Body,
    }
}

/// Parses one line, given as its character sequence; computes exactly what
/// the line grammar's scanner computes.
pub fn parse_entry_chars(s: &Vec<char>) -> (r: Result<Entry, ParseError>)
    ensures
        parse_result_view(r) == entry_parse(s@),
{
    let n = s.len();
    let mut pos = ScanPos::Start;
    let mut done: bool = false;
    let mut deadline: Option<Deadline> = None;
    let mut acc: Vec<char> = Vec::new();
    let mut i: usize = 0;
    while i < n
        invariant
            n == s@.len(),
            i <= n,
            line_run(s@, 0, line_init()) == line_run(
                s@,
                i as int,
                (LineMachine {
                    state: scan_pos_view(pos),
                    done: done,
                    deadline: deadline,
                    acc: acc@,
                }),
            ),
        decreases n - i,
    {
        let ghost m = LineMachine {
            state: scan_pos_view(pos),
            done: done,
            deadline: deadline,
            acc: acc@,
        };
        let c = s[i];
        match pos {
            ScanPos::Start => {
                if c == '-' {
                    pos = ScanPos::Dash;
                }
                i += 1;
            },
            ScanPos::Dash => {
                if c == '[' {
                    pos = ScanPos::Checkbox;
                }
                i += 1;
            },
            ScanPos::Checkbox => {
                if c == 'x' {
                    done = true;
                } else if c == ']' {
                    pos = ScanPos::AfterBox;
                } else if !char_is_ascii_ws(c) {
                    proof {
                        let m2 = line_step(s@, i as int, m).0;
                        assert(m2.state is Failed);
                        lemma_run_failed(s@, i + 1, m2);
                    }
                    return Err(ParseError::InvalidCheckbox);
                }
                i += 1;
            },
            ScanPos::AfterBox => {
                if n - i >= 18 {
                    if window_alpha_at(s, i) {
                        pos = ScanPos::Body;
                        if !(c == '\r' || c == '\n') {
                            acc.push(c);
                        }
                        i += 1;
                    } else {
                        match parse_window_at(s, i) {
                            Some(d) => {
                                deadline = Some(d);
                                acc.clear();
                                pos = ScanPos::Body;
                                i += 18;
                            },
                            None => {
                                acc.push(c);
                                i += 1;
                            },
                        }
                    }
                } else if !char_is_ascii_ws(c) {
                    pos = ScanPos::Body;
                    acc.push(c);
                    i += 1;
                } else {
                    i += 1;
                }
            },
            ScanPos::Body => {
                if !(c == '\r' || c == '\n') {
                    acc.push(c);
                }
                i += 1;
            },
        }
        proof {
            let m2 = LineMachine {
                state: scan_pos_view(pos),
                done: done,
                deadline: deadline,
                acc: acc@,
            };
            assert(line_step(s@, i - 1, m).0 == m2 || line_step(s@, i - 18, m).0 == m2);
            assert(line_run(s@, 0, line_init()) == line_run(s@, i as int, m2));
        }
    }
    let ghost mfin = LineMachine {
        state: scan_pos_view(pos),
        done: done,
        deadline: deadline,
        acc: acc@,
    };
    proof {
        assert(line_run(s@, i as int, mfin) == mfin);
    }
    match pos {
        ScanPos::Body => {
            let t = trim_start_chars(&acc);
            let mut text = String::new();
            let mut j: usize = 0;
            while j < t.len()
                invariant
                    j <= t@.len(),
                    text@ == t@.subrange(0, j as int),
                decreases t@.len() - j,
            {
                push_char(&mut text, t[j]);
                j += 1;
                proof {
                    assert(text@ =~= t@.subrange(0, j as int));
                }
            }
            proof {
                assert(text@ =~= t@);
            }
            Ok(Entry { done, text, deadline })
        },
        _ => Err(ParseError::InvalidEntry),
    }
}

} // verus!
