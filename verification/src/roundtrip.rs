//! Round-trip fidelity: parsing a serialized document yields the document
//! back. Proved for documents whose entries and title keep clear of the
//! grammar's lossy corners, which [`entry_round_trip_safe`] and
//! [`doc_round_trip_safe`] spell out.

use vstd::prelude::*;

use crate::chars::{digit_char, is_alpha, is_ascii_ws};
use crate::date::{deadline_chars, parse_deadline_window, Deadline};
use crate::doc::{
    doc_empty, doc_md, doc_parse, doc_run, doc_step, entry_lines_md, hash_count,
    lemma_find_nl_at, split_lines, strip_cr, title_of_line, DocumentV,
};
use crate::md::{
    body_push, checkbox_chars, entry_md, entry_parse, entry_wf, line_init, line_run, line_step,
    trim_start, window_has_alpha, EntryV, LineMachine, LineState,
};

verus! {

/// A sufficient condition for one entry to survive serialization and
/// re-parsing unchanged: its deadline, if any, is a real date; its text
/// holds no line break and no carriage return and does not begin with
/// whitespace; and an entry without a deadline has text that is short
/// enough never to look like a deadline window, or carries an alphabetic
/// character early enough to call the deadline attempt off.
pub open spec fn entry_round_trip_safe(e: EntryV) -> bool {
    &&& entry_wf(e)
    &&& forall|j: int| 0 <= j < e.text.len() ==> e.text[j] != '\n' && e.text[j] != '\r'
    &&& e.text.len() > 0 ==> !is_ascii_ws(e.text[0])
    &&& e.deadline is None ==> {
        &&& e.text.len() > 0
        &&& (e.text.len() <= 16 || exists|j: int|
            0 <= j < 17 && j < e.text.len() && is_alpha(#[trigger] e.text[j]))
    }
}

/// A sufficient condition for a whole document: every entry is safe, and a
/// title holds no line break or carriage return, does not begin with
/// whitespace, and does not itself read as a checklist entry.
pub open spec fn doc_round_trip_safe(d: DocumentV) -> bool {
    &&& forall|i: int| 0 <= i < d.entries.len() ==> entry_round_trip_safe(#[trigger] d.entries[i])
    &&& match d.title {
        Some(t) => {
            &&& forall|j: int| 0 <= j < t.len() ==> t[j] != '\n' && t[j] != '\r'
            &&& t.len() > 0 ==> !is_ascii_ws(t[0])
            &&& entry_parse(seq!['#', ' '] + t) is Err
        },
        None => true,
    }
}

/// No digit character is alphabetic.
proof fn lemma_digit_char_not_alpha(n: int)
    ensures
        !is_alpha(digit_char(n)),
        digit_char(n) != '\n' && digit_char(n) != '\r',
        !is_ascii_ws(digit_char(n)),
{
}

/// No character of a deadline's canonical text is alphabetic, a line break,
/// or a carriage return.
proof fn lemma_deadline_chars_plain(d: Deadline)
    ensures
        forall|j: int| 0 <= j < 18 ==> !is_alpha(#[trigger] deadline_chars(d)[j]),
        forall|j: int| 0 <= j < 18 ==> deadline_chars(d)[j] != '\n' && deadline_chars(d)[j] != '\r',
        deadline_chars(d).len() == 18,
{
    let w = deadline_chars(d);
    assert(w.len() == 18);
    assert forall|j: int| 0 <= j < 18 implies !is_alpha(#[trigger] w[j]) && w[j] != '\n' && w[j]
        != '\r' by {
        if j == 0 || j == 5 || j == 8 || j == 11 || j == 14 || j == 17 {
            assert(w[0] == '(' && w[5] == '-' && w[8] == '-' && w[11] == ' ' && w[14] == ':'
                && w[17] == ')');
        } else if j == 1 {
            lemma_digit_char_not_alpha(d.year as int / 1000 % 10);
        } else if j == 2 {
            lemma_digit_char_not_alpha(d.year as int / 100 % 10);
        } else if j == 3 {
            lemma_digit_char_not_alpha(d.year as int / 10 % 10);
        } else if j == 4 {
            lemma_digit_char_not_alpha(d.year as int % 10);
        } else if j == 6 {
            lemma_digit_char_not_alpha(d.month as int / 10 % 10);
        } else if j == 7 {
            lemma_digit_char_not_alpha(d.month as int % 10);
        } else if j == 9 {
            lemma_digit_char_not_alpha(d.day as int / 10 % 10);
        } else if j == 10 {
            lemma_digit_char_not_alpha(d.day as int % 10);
        } else if j == 12 {
            lemma_digit_char_not_alpha(d.hour as int / 10 % 10);
        } else if j == 13 {
            lemma_digit_char_not_alpha(d.hour as int % 10);
        } else if j == 15 {
            lemma_digit_char_not_alpha(d.minute as int / 10 % 10);
        } else {
            lemma_digit_char_not_alpha(d.minute as int % 10);
        }
    }
}

/// Once the scanner accumulates body text, it appends every remaining
/// character of a line that holds no line break and no carriage return.
proof fn lemma_body_appends(s: Seq<char>, i: int, m: LineMachine)
    requires
        m.state is Body,
        0 <= i <= s.len(),
        forall|j: int| i <= j < s.len() ==> s[j] != '\n' && s[j] != '\r',
    ensures
        line_run(s, i, m) == (LineMachine {
            state: LineState::Body,
            done: m.done,
            deadline: m.deadline,
            acc: m.acc + s.skip(i),
        }),
    decreases s.len() - i,
{
    if i < s.len() {
        let m2 = LineMachine {
            state: LineState::Body,
            done: m.done,
            deadline: m.deadline,
            acc: m.acc.push(s[i]),
        };
        assert(body_push(m.acc, s[i]) == m.acc.push(s[i]));
        assert(line_step(s, i, m).0 == m2);
        lemma_body_appends(s, i + 1, m2);
        assert(m.acc.push(s[i]) + s.skip(i + 1) =~= m.acc + s.skip(i));
    } else {
        assert(m.acc + s.skip(i) =~= m.acc);
        assert(m == (LineMachine {
            state: LineState::Body,
            done: m.done,
            deadline: m.deadline,
            acc: m.acc + s.skip(i),
        }));
    }
}

/// Trimming does nothing to text that does not begin with whitespace.
proof fn lemma_trim_nonws(t: Seq<char>)
    requires
        t.len() > 0 ==> !is_ascii_ws(t[0]),
    ensures
        trim_start(t) == t,
{
}

/// Trimming removes a single leading space.
proof fn lemma_trim_space(t: Seq<char>)
    ensures
        trim_start(seq![' '] + t) == trim_start(t),
{
    assert((seq![' '] + t)[0] == ' ');
    assert((seq![' '] + t).drop_first() =~= t);
}

/// A serialized entry parses back to the entry itself.
pub proof fn lemma_entry_round_trip(e: EntryV)
    requires
        entry_round_trip_safe(e),
    ensures
        entry_parse(entry_md(e)) == Ok::<EntryV, crate::md::ParseError>(e),
{
    let s = entry_md(e);
    let cb = checkbox_chars(e.done);
    assert(cb.len() == 6);
    assert(s[0] == '-' && s[1] == ' ' && s[2] == '[' && s[4] == ']' && s[5] == ' ');
    assert(s[3] == (if e.done {
        'x'
    } else {
        ' '
    }));
    let m0 = line_init();
    let m1 = LineMachine { state: LineState::Dash, done: false, deadline: None, acc: Seq::empty() };
    let m2 = LineMachine {
        state: LineState::Checkbox,
        done: false,
        deadline: None,
        acc: Seq::empty(),
    };
    let m3 = LineMachine {
        state: LineState::Checkbox,
        done: e.done,
        deadline: None,
        acc: Seq::empty(),
    };
    let m4 = LineMachine {
        state: LineState::AfterBox,
        done: e.done,
        deadline: None,
        acc: Seq::empty(),
    };
    assert(s.len() > 6);
    assert(line_run(s, 0, m0) == line_run(s, 1, m1));
    assert(line_run(s, 1, m1) == line_run(s, 2, m1));
    assert(line_run(s, 2, m1) == line_run(s, 3, m2));
    assert(!is_ascii_ws('x'));
    assert(line_run(s, 3, m2) == line_run(s, 4, m3));
    assert(line_run(s, 4, m3) == line_run(s, 5, m4));
    match e.deadline {
        Some(d) => {
            lemma_entry_round_trip_dated(e, d);
        },
        None => {
            lemma_entry_round_trip_dateless(e);
        },
    }
    let mfin = line_run(s, 5, m4);
    assert(line_run(s, 0, m0) == mfin);
    assert(entry_parse(s) == Ok::<EntryV, crate::md::ParseError>((EntryV {
        done: mfin.done,
        text: trim_start(mfin.acc),
        deadline: mfin.deadline,
    })));
    assert((EntryV { done: mfin.done, text: trim_start(mfin.acc), deadline: mfin.deadline }) == e);
}

/// Round trip of the deadline and text of an entry that carries a deadline:
/// continues the scan from the space after the checkbox.
proof fn lemma_entry_round_trip_dated(e: EntryV, d: Deadline)
    requires
        entry_round_trip_safe(e),
        e.deadline == Some(d),
    ensures
        ({
            let m = line_run(
                entry_md(e),
                5,
                (LineMachine {
                    state: LineState::AfterBox,
                    done: e.done,
                    deadline: None,
                    acc: Seq::empty(),
                }),
            );
            m.state is Body && m.done == e.done && m.deadline == e.deadline && trim_start(m.acc)
                == e.text
        }),
{
    let s = entry_md(e);
    let dc = deadline_chars(d);
    let m4 = LineMachine {
        state: LineState::AfterBox,
        done: e.done,
        deadline: None,
        acc: Seq::empty(),
    };
    assert(s =~= checkbox_chars(e.done) + (dc + seq![' ']) + e.text);
    assert(s.len() == 25 + e.text.len());
    lemma_deadline_chars_plain(d);
    // At the space after the checkbox the window starts with the space, so
    // it is neither alphabetic nor a deadline; the space is accumulated.
    let w5 = s.subrange(5, 23);
    assert(w5[0] == ' ');
    assert forall|j: int| 0 <= j < 18 implies !is_alpha(#[trigger] w5[j]) by {
        if j > 0 {
            assert(w5[j] == dc[j - 1]);
        }
    }
    assert(!window_has_alpha(w5));
    assert(parse_deadline_window(w5) is None);
    let m5 = LineMachine {
        state: LineState::AfterBox,
        done: e.done,
        deadline: None,
        acc: seq![' '],
    };
    assert(Seq::<char>::empty().push(' ') =~= seq![' ']);
    assert(line_run(s, 5, m4) == line_run(s, 6, m5));
    // At the opening parenthesis the window is exactly the deadline's
    // canonical text: it parses, and the scan consumes it whole.
    let w6 = s.subrange(6, 24);
    assert(w6 =~= dc);
    assert(!window_has_alpha(w6));
    crate::date::lemma_deadline_round_trip(d);
    assert(parse_deadline_window(w6) == Some(d));
    let m6 = LineMachine {
        state: LineState::Body,
        done: e.done,
        deadline: Some(d),
        acc: Seq::empty(),
    };
    assert(line_run(s, 6, m5) == line_run(s, 24, m6));
    // The rest of the line is the separating space and the text.
    assert(forall|j: int| 24 <= j < s.len() ==> s[j] != '\n' && s[j] != '\r');
    lemma_body_appends(s, 24, m6);
    let mfin = line_run(s, 24, m6);
    assert(mfin.acc =~= seq![' '] + e.text);
    lemma_trim_space(e.text);
    lemma_trim_nonws(e.text);
    assert(trim_start(mfin.acc) == e.text);
    assert(line_run(s, 5, m4) == mfin);
}

/// Round trip of the text of an entry without a deadline: continues the
/// scan from the space after the checkbox.
proof fn lemma_entry_round_trip_dateless(e: EntryV)
    requires
        entry_round_trip_safe(e),
        e.deadline is None,
    ensures
        ({
            let m = line_run(
                entry_md(e),
                5,
                (LineMachine {
                    state: LineState::AfterBox,
                    done: e.done,
                    deadline: None,
                    acc: Seq::empty(),
                }),
            );
            m.state is Body && m.done == e.done && m.deadline == e.deadline && trim_start(m.acc)
                == e.text
        }),
{
    let s = entry_md(e);
    let t = e.text;
    let m4 = LineMachine {
        state: LineState::AfterBox,
        done: e.done,
        deadline: None,
        acc: Seq::empty(),
    };
    assert(s =~= checkbox_chars(e.done) + t);
    assert(s.len() == 6 + t.len());
    assert(forall|j: int| 6 <= j < s.len() ==> s[j] != '\n' && s[j] != '\r');
    if t.len() <= 16 {
        // The line is too short for a deadline window: the space is skipped
        // as whitespace and the first text character starts the body.
        assert(s.len() - 5 < 18);
        assert(line_run(s, 5, m4) == line_run(s, 6, m4));
        assert(!is_ascii_ws(s[6]));
        let m6 = LineMachine {
            state: LineState::Body,
            done: e.done,
            deadline: None,
            acc: seq![t[0]],
        };
        assert(Seq::<char>::empty().push(t[0]) =~= seq![t[0]]);
        assert(line_run(s, 6, m4) == line_run(s, 7, m6));
        lemma_body_appends(s, 7, m6);
        let mfin = line_run(s, 7, m6);
        assert(mfin.acc =~= t);
        lemma_trim_nonws(t);
        assert(line_run(s, 5, m4) == mfin);
    } else {
        // The first window, at the space after the checkbox, contains an
        // alphabetic character among the first seventeen text characters:
        // the deadline attempt is called off and the body begins here.
        let w5 = s.subrange(5, 23);
        let j = choose|j: int| 0 <= j < 17 && j < t.len() && is_alpha(#[trigger] t[j]);
        assert(w5[j + 1] == t[j]);
        assert(window_has_alpha(w5));
        let m5 = LineMachine {
            state: LineState::Body,
            done: e.done,
            deadline: None,
            acc: seq![' '],
        };
        assert(body_push(Seq::<char>::empty(), ' ') =~= seq![' ']);
        assert(line_run(s, 5, m4) == line_run(s, 6, m5));
        lemma_body_appends(s, 6, m5);
        let mfin = line_run(s, 6, m5);
        assert(mfin.acc =~= seq![' '] + t);
        lemma_trim_space(t);
        lemma_trim_nonws(t);
        assert(line_run(s, 5, m4) == mfin);
    }
}

/// No character of a safe entry's serialized line is a line feed or a
/// carriage return.
proof fn lemma_entry_md_plain(e: EntryV)
    requires
        forall|j: int| 0 <= j < e.text.len() ==> e.text[j] != '\n' && e.text[j] != '\r',
    ensures
        forall|j: int| 0 <= j < entry_md(e).len() ==> entry_md(e)[j] != '\n' && entry_md(e)[j]
            != '\r',
{
    let s = entry_md(e);
    let cb = checkbox_chars(e.done);
    assert forall|j: int| 0 <= j < s.len() implies s[j] != '\n' && s[j] != '\r' by {
        match e.deadline {
            Some(d) => {
                lemma_deadline_chars_plain(d);
                assert(s =~= cb + (deadline_chars(d) + seq![' ']) + e.text);
                if j < 6 {
                    assert(s[j] == cb[j]);
                } else if j < 25 {
                    assert(s[j] == (deadline_chars(d) + seq![' '])[j - 6]);
                } else {
                    assert(s[j] == e.text[j - 25]);
                }
            },
            None => {
                assert(s =~= cb + e.text);
                if j < 6 {
                    assert(s[j] == cb[j]);
                } else {
                    assert(s[j] == e.text[j - 6]);
                }
            },
        }
    }
}

/// Splitting text that starts with one clean line yields that line followed
/// by the split of the rest.
proof fn lemma_split_prepend(a: Seq<char>, rest: Seq<char>)
    requires
        forall|j: int| 0 <= j < a.len() ==> a[j] != '\n',
        a.len() > 0 ==> a.last() != '\r',
    ensures
        split_lines(a + seq!['\n'] + rest) == seq![a] + split_lines(rest),
{
    let s = a + seq!['\n'] + rest;
    assert(s.len() > 0);
    assert(s[a.len() as int] == '\n');
    assert(forall|j: int| 0 <= j < a.len() ==> s[j] == a[j]);
    lemma_find_nl_at(s, a.len() as int);
    assert(s.take(a.len() as int) =~= a);
    assert(strip_cr(a) == a);
    assert(s.skip((a.len() + 1) as int) =~= rest);
    assert(split_lines(s) =~= seq![a] + split_lines(rest));
}

/// The serialized lines of a sequence of entries, one line per entry.
pub open spec fn entry_line_seq(es: Seq<EntryV>) -> Seq<Seq<char>> {
    Seq::new(es.len(), |i: int| entry_md(es[i]))
}

/// Splitting the serialized entries yields exactly one line per entry.
proof fn lemma_split_entry_lines(es: Seq<EntryV>)
    requires
        forall|i: int| 0 <= i < es.len() ==> entry_round_trip_safe(#[trigger] es[i]),
    ensures
        split_lines(entry_lines_md(es)) == entry_line_seq(es),
    decreases es.len(),
{
    if es.len() == 0 {
        assert(split_lines(entry_lines_md(es)) =~= entry_line_seq(es));
    } else {
        let a = entry_md(es[0]);
        lemma_entry_md_plain(es[0]);
        assert(a.len() > 0 ==> a.last() != '\r');
        lemma_split_prepend(a, entry_lines_md(es.drop_first()));
        lemma_split_entry_lines(es.drop_first());
        assert(seq![a] + entry_line_seq(es.drop_first()) =~= entry_line_seq(es));
    }
}

/// A serialized title line offers exactly the title back.
proof fn lemma_title_line(t: Seq<char>)
    requires
        t.len() > 0 ==> !is_ascii_ws(t[0]),
    ensures
        title_of_line(seq!['#', ' '] + t) == Some(t),
{
    let l = seq!['#', ' '] + t;
    assert(l[0] == '#');
    assert(!is_ascii_ws('#'));
    lemma_trim_nonws(l);
    assert(l.drop_first() =~= seq![' '] + t);
    assert((seq![' '] + t)[0] == ' ');
    assert(hash_count(seq![' '] + t) == 0);
    assert(hash_count(l) == 1);
    assert(l.skip(1) =~= seq![' '] + t);
    lemma_trim_space(t);
    lemma_trim_nonws(t);
}

/// A serialized entry line never offers a title: it begins with a dash.
proof fn lemma_entry_line_no_title(e: EntryV)
    ensures
        title_of_line(entry_md(e)) is None,
{
    let l = entry_md(e);
    assert(l[0] == '-');
    assert(!is_ascii_ws('-'));
    lemma_trim_nonws(l);
    assert(hash_count(l) == 0);
}

/// A blank line changes nothing: it offers no title and is no entry.
proof fn lemma_blank_line_step(d0: DocumentV)
    ensures
        doc_step(d0, Seq::empty()) == d0,
{
    let l = Seq::<char>::empty();
    assert(trim_start(l) == l);
    assert(hash_count(l) == 0);
    assert(title_of_line(l) is None);
    assert(line_run(l, 0, line_init()) == line_init());
    assert(entry_parse(l) is Err);
}

/// Folding the serialized entry lines into a document appends exactly the
/// entries, in order, and leaves the title alone.
proof fn lemma_doc_run_entry_lines(d0: DocumentV, es: Seq<EntryV>)
    requires
        forall|i: int| 0 <= i < es.len() ==> entry_round_trip_safe(#[trigger] es[i]),
    ensures
        doc_run(d0, entry_line_seq(es)) == (DocumentV {
            title: d0.title,
            entries: d0.entries + es,
        }),
    decreases es.len(),
{
    let ls = entry_line_seq(es);
    if es.len() == 0 {
        assert(ls =~= Seq::<Seq<char>>::empty());
        assert(d0.entries + es =~= d0.entries);
        assert(d0 == (DocumentV { title: d0.title, entries: d0.entries + es }));
    } else {
        assert(ls[0] == entry_md(es[0]));
        lemma_entry_line_no_title(es[0]);
        lemma_entry_round_trip(es[0]);
        let d1 = DocumentV { title: d0.title, entries: d0.entries.push(es[0]) };
        assert(doc_step(d0, ls[0]) == d1);
        assert(ls.drop_first() =~= entry_line_seq(es.drop_first()));
        lemma_doc_run_entry_lines(d1, es.drop_first());
        assert(d0.entries.push(es[0]) + es.drop_first() =~= d0.entries + es);
    }
}

/// A serialized document parses back to the document itself.
pub proof fn lemma_doc_round_trip(d: DocumentV)
    requires
        doc_round_trip_safe(d),
    ensures
        doc_parse(doc_md(d)) == d,
{
    let s = doc_md(d);
    let es = d.entries;
    lemma_split_entry_lines(es);
    match d.title {
        Some(t) => {
            let a = seq!['#', ' '] + t;
            lemma_title_line(t);
            let d1 = DocumentV { title: Some(t), entries: Seq::empty() };
            assert(doc_step(doc_empty(), a) == d1);
            if es.len() == 0 {
                assert(s =~= a + seq!['\n'] + Seq::<char>::empty());
                lemma_split_prepend(a, Seq::<char>::empty());
                assert(split_lines(Seq::<char>::empty()) =~= Seq::<Seq<char>>::empty());
                assert(split_lines(s) =~~= seq![a]);
                assert(seq![a].drop_first() =~= Seq::<Seq<char>>::empty());
                assert(doc_run(doc_empty(), seq![a]) == doc_run(
                    d1,
                    Seq::<Seq<char>>::empty(),
                ));
                assert(doc_run(d1, Seq::<Seq<char>>::empty()) == d1);
                assert(doc_parse(s) == d1);
                assert(d1.entries =~= es);
                assert(d1 == d);
            } else {
                let rest = seq!['\n'] + entry_lines_md(es);
                assert(s =~= a + seq!['\n'] + rest);
                lemma_split_prepend(a, rest);
                assert(rest =~= Seq::<char>::empty() + seq!['\n'] + entry_lines_md(es));
                lemma_split_prepend(Seq::<char>::empty(), entry_lines_md(es));
                let ls = split_lines(s);
                assert(ls =~~= seq![a] + (seq![Seq::<char>::empty()] + entry_line_seq(es)));
                assert(ls[0] == a);
                assert(ls.drop_first() =~~= seq![Seq::<char>::empty()] + entry_line_seq(es));
                lemma_blank_line_step(d1);
                assert((seq![Seq::<char>::empty()] + entry_line_seq(es)).drop_first()
                    =~~= entry_line_seq(es));
                lemma_doc_run_entry_lines(d1, es);
                assert(doc_run(doc_empty(), ls) == doc_run(d1, ls.drop_first()));
                assert(doc_run(d1, ls.drop_first()) == doc_run(
                    d1,
                    (seq![Seq::<char>::empty()] + entry_line_seq(es)).drop_first(),
                ));
                assert(doc_run(d1, entry_line_seq(es)) == (DocumentV {
                    title: d1.title,
                    entries: d1.entries + es,
                }));
                assert(Seq::<EntryV>::empty() + es =~= es);
                assert(doc_parse(s) == d);
            }
        },
        None => {
            if es.len() == 0 {
                assert(s =~= Seq::<char>::empty());
                assert(split_lines(s) =~= Seq::<Seq<char>>::empty());
                assert(doc_parse(s) == doc_empty());
                assert(doc_empty().entries =~= es);
                assert(doc_empty() == d);
            } else {
                assert(s =~= Seq::<char>::empty() + seq!['\n'] + entry_lines_md(es));
                lemma_split_prepend(Seq::<char>::empty(), entry_lines_md(es));
                let ls = split_lines(s);
                assert(ls =~~= seq![Seq::<char>::empty()] + entry_line_seq(es));
                assert(ls[0] == Seq::<char>::empty());
                lemma_blank_line_step(doc_empty());
                assert(ls.drop_first() =~~= entry_line_seq(es));
                lemma_doc_run_entry_lines(doc_empty(), es);
                assert(doc_run(doc_empty(), ls) == doc_run(doc_empty(), ls.drop_first()));
                assert(doc_run(doc_empty(), entry_line_seq(es)) == (DocumentV {
                    title: doc_empty().title,
                    entries: doc_empty().entries + es,
                }));
                assert(Seq::<EntryV>::empty() + es =~= es);
                assert(doc_parse(s) == d);
            }
        },
    }
}

} // verus!
