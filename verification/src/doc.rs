//! A whole to-do document: an optional title taken from the first `# `
//! heading candidate, and the ordered entries parsed from its lines.
//!
//! Parsing a document never fails: lines that are not checklist entries are
//! skipped, and the first line whose leading whitespace is followed by
//! exactly one `#` supplies the title.

use vstd::prelude::*;

use crate::chars::{char_is_ascii_ws, chars_to_string, push_char, str_to_chars};
use crate::md::{
    clone_entry, entry_md, entry_parse, parse_entry_chars, trim_start, Entry, EntryV, ParseError,
};

verus! {

/// A to-do document; the abstract form of an entire markdown file.
#[derive(Debug, Clone, PartialEq, Eq)]
pub struct Document {
    pub title: Option<String>,
    pub entries: Vec<Entry>,
}

/// Mathematical model of a [`Document`].
pub struct DocumentV {
    pub title: Option<Seq<char>>,
    pub entries: Seq<EntryV>,
}

/// The models of a sequence of entries.
pub open spec fn entries_view(es: Seq<Entry>) -> Seq<EntryV> {
    es.map_values(|e: Entry| e@)
}

/// The model of an optional title.
pub open spec fn title_view(t: Option<String>) -> Option<Seq<char>> {
    match t {
        Some(s) => Some(s@),
        None => None,
    }
}

impl View for Document {
    type V = DocumentV;

    open spec fn view(&self) -> DocumentV {
        DocumentV {
            title: match self.title {
                Some(t) => Some(t@),
                None => None,
            },
            entries: entries_view(self.entries@),
        }
    }
}

/// An empty document: no title, no entries.
pub open spec fn doc_empty() -> DocumentV {
    DocumentV { title: None, entries: Seq::empty() }
}

/// Copies a document.
pub fn clone_document(d: &Document) -> (r: Document)
    ensures
        r@ == d@,
{
    let title = match &d.title {
        Some(t) => Some(t.clone()),
        None => None,
    };
    let mut entries: Vec<Entry> = Vec::new();
    let mut i: usize = 0;
    while i < d.entries.len()
        invariant
            i <= d.entries@.len(),
            entries@ == d.entries@.subrange(0, i as int),
        decreases d.entries@.len() - i,
    {
        entries.push(clone_entry(&d.entries[i]));
        i += 1;
        proof {
            assert(entries@ =~= d.entries@.subrange(0, i as int));
        }
    }
    proof {
        assert(entries@ =~= d.entries@);
    }
    let r = Document { title, entries };
    proof {
        assert(r@.entries =~= d@.entries);
    }
    r
}

/// The serialized form of a sequence of entries: each entry's line followed
/// by a newline.
pub open spec fn entry_lines_md(es: Seq<EntryV>) -> Seq<char>
    decreases es.len(),
{
    if es.len() == 0 {
        Seq::empty()
    } else {
        entry_md(es[0]) + seq!['\n'] + entry_lines_md(es.drop_first())
    }
}

/// The serialized form of a document: `# title` and a newline when a title
/// is present, then, when entries exist, a blank separator line and the
/// entries' lines.
pub open spec fn doc_md(d: DocumentV) -> Seq<char> {
    (match d.title {
        Some(t) => seq!['#', ' '] + t + seq!['\n'],
        None => Seq::<char>::empty(),
    }) + (if d.entries.len() == 0 {
        Seq::<char>::empty()
    } else {
        seq!['\n'] + entry_lines_md(d.entries)
    })
}

/// Serializing one more entry appends its line.
proof fn lemma_entry_lines_snoc(es: Seq<EntryV>, i: int)
    requires
        0 <= i < es.len(),
    ensures
        entry_lines_md(es.take(i + 1)) == entry_lines_md(es.take(i)) + entry_md(es[i]) + seq!['\n'],
    decreases i,
{
    if i == 0 {
        assert(es.take(1)[0] == es[0]);
        assert(es.take(1).drop_first() =~= Seq::<EntryV>::empty());
        assert(es.take(0) =~= Seq::<EntryV>::empty());
        assert(entry_lines_md(es.take(1)) =~= entry_md(es[0]) + seq!['\n']);
        assert(entry_lines_md(es.take(0)) + entry_md(es[0]) + seq!['\n'] =~= entry_md(es[0])
            + seq!['\n']);
    } else {
        lemma_entry_lines_snoc(es.drop_first(), i - 1);
        assert(es.take(i + 1).drop_first() =~= es.drop_first().take(i));
        assert(es.take(i).drop_first() =~= es.drop_first().take(i - 1));
        assert(es.take(i + 1)[0] == es[0]);
        assert(es.take(i)[0] == es[0]);
        assert(es.drop_first()[i - 1] == es[i]);
        assert(entry_lines_md(es.take(i + 1)) =~= entry_lines_md(es.take(i)) + entry_md(es[i])
            + seq!['\n']);
    }
}

/// Index of the first line feed in `s`, or `s.len()` when there is none.
pub open spec fn find_nl(s: Seq<char>) -> int
    decreases s.len(),
{
    if s.len() == 0 {
        0
    } else if s[0] == '\n' {
        0
    } else {
        1 + find_nl(s.drop_first())
    }
}

/// [`find_nl`] is determined by the position of the first line feed.
pub proof fn lemma_find_nl_at(s: Seq<char>, m: int)
    requires
        0 <= m <= s.len(),
        forall|j: int| 0 <= j < m ==> s[j] != '\n',
        m < s.len() ==> s[m] == '\n',
    ensures
        find_nl(s) == m,
    decreases m,
{
    if m == 0 {
    } else {
        assert(s[0] != '\n');
        lemma_find_nl_at(s.drop_first(), m - 1);
    }
}

/// A line with its trailing carriage return, if any, removed.
pub open spec fn strip_cr(l: Seq<char>) -> Seq<char> {
    if l.len() > 0 && l.last() == '\r' {
        l.drop_last()
    } else {
        l
    }
}

/// The lines of a text: split at each line feed, a trailing carriage return
/// removed from each line, and no final empty line for text that ends with a
/// line feed.
pub open spec fn split_lines(s: Seq<char>) -> Seq<Seq<char>>
    decreases s.len(),
{
    if s.len() == 0 {
        Seq::empty()
    } else {
        let k = find_nl(s);
        if 0 <= k < s.len() {
            seq![strip_cr(s.take(k))] + split_lines(s.skip(k + 1))
        } else {
            seq![strip_cr(s)]
        }
    }
}

/// Number of consecutive `#` characters at the start of a sequence.
pub open spec fn hash_count(s: Seq<char>) -> int
    decreases s.len(),
{
    if s.len() > 0 && s[0] == '#' {
        1 + hash_count(s.drop_first())
    } else {
        0
    }
}

/// [`hash_count`] is determined by the position of the first other character.
proof fn lemma_hash_count_at(s: Seq<char>, m: int)
    requires
        0 <= m <= s.len(),
        forall|j: int| 0 <= j < m ==> s[j] == '#',
        m < s.len() ==> s[m] != '#',
    ensures
        hash_count(s) == m,
    decreases m,
{
    if m == 0 {
    } else {
        lemma_hash_count_at(s.drop_first(), m - 1);
    }
}

/// The title a line offers: strip leading whitespace, count the `#`
/// characters that follow, and when the count is exactly one, the rest of
/// the line with leading whitespace stripped.
pub open spec fn title_of_line(l: Seq<char>) -> Option<Seq<char>> {
    let t = trim_start(l);
    if hash_count(t) == 1 {
        Some(trim_start(t.skip(1)))
    } else {
        None
    }
}

/// Folds one line into a document under construction: the first title
/// candidate sets the title, and every line that parses as an entry appends
/// it, in source order.
pub open spec fn doc_step(d: DocumentV, l: Seq<char>) -> DocumentV {
    let d1 = if d.title is None {
        match title_of_line(l) {
            Some(t) => DocumentV { title: Some(t), ..d },
            None => d,
        }
    } else {
        d
    };
    match entry_parse(l) {
        Ok(e) => DocumentV { entries: d1.entries.push(e), ..d1 },
        Err(_) => d1,
    }
}

/// Folds a sequence of lines into a document under construction.
pub open spec fn doc_run(d: DocumentV, ls: Seq<Seq<char>>) -> DocumentV
    decreases ls.len(),
{
    if ls.len() == 0 {
        d
    } else {
        doc_run(doc_step(d, ls[0]), ls.drop_first())
    }
}

/// What parsing a whole text yields; never an error.
pub open spec fn doc_parse(s: Seq<char>) -> DocumentV {
    doc_run(doc_empty(), split_lines(s))
}

impl Document {
    /// Serializes the document: the title line if a title is set, then, if
    /// any entries exist, a blank separator line and each entry's line.
    pub fn to_md(&self) -> (r: String)
        ensures
            r@ == doc_md(self@),
    {
        let mut r = String::new();
        match &self.title {
            Some(t) => {
                push_char(&mut r, '#');
                push_char(&mut r, ' ');
                r.append(t.as_str());
                push_char(&mut r, '\n');
            },
            None => {},
        }
        let ghost title_part = match self@.title {
            Some(t) => seq!['#', ' '] + t + seq!['\n'],
            None => Seq::<char>::empty(),
        };
        proof {
            assert(r@ =~= title_part);
        }
        if self.entries.len() > 0 {
            push_char(&mut r, '\n');
            let mut i: usize = 0;
            while i < self.entries.len()
                invariant
                    i <= self.entries@.len(),
                    self@.entries.len() == self.entries@.len(),
                    r@ == title_part + seq!['\n'] + entry_lines_md(self@.entries.take(i as int)),
                decreases self.entries@.len() - i,
            {
                proof {
                    assert(self.entries@[i as int]@ == self@.entries[i as int]);
                }
                let line = self.entries[i].to_md();
                r.append(line.as_str());
                push_char(&mut r, '\n');
                proof {
                    lemma_entry_lines_snoc(self@.entries, i as int);
                    assert(self@.entries[i as int] == self.entries@[i as int]@);
                    assert(r@ =~= title_part + seq!['\n'] + entry_lines_md(
                        self@.entries.take(i + 1),
                    ));
                }
                i += 1;
            }
            proof {
                assert(self@.entries.take(i as int) =~= self@.entries);
                assert(r@ =~= doc_md(self@));
            }
        } else {
            proof {
                assert(r@ =~= doc_md(self@));
            }
        }
        r
    }

    /// Parses a whole text. Never fails: lines that do not parse as entries
    /// are skipped, and the first title candidate sets the title.
    pub fn from_md(md: String) -> (r: Result<Document, ParseError>)
        ensures
            match r {
                Ok(d) => d@ == doc_parse(md@),
                Err(_) => false,
            },
    {
        let s = str_to_chars(md.as_str());
        let n = s.len();
        let mut title: Option<String> = None;
        let mut entries: Vec<Entry> = Vec::new();
        let mut pos: usize = 0;
        proof {
            assert(s@.skip(0) =~= s@);
            assert(entries_view(entries@) =~= Seq::<EntryV>::empty());
        }
        while pos < n
            invariant
                n == s@.len(),
                pos <= n,
                doc_parse(s@) == doc_run(
                    (DocumentV { title: title_view(title), entries: entries_view(entries@) }),
                    split_lines(s@.skip(pos as int)),
                ),
            decreases n - pos,
        {
            let ghost rest = s@.skip(pos as int);
            let ghost d_cur = DocumentV {
                title: title_view(title),
                entries: entries_view(entries@),
            };
            // Find the end of the current line.
            let mut k: usize = pos;
            while k < n && s[k] != '\n'
                invariant
                    n == s@.len(),
                    pos <= k <= n,
                    forall|j: int| pos <= j < k ==> s@[j] != '\n',
                decreases n - k,
            {
                k += 1;
            }
            proof {
                lemma_find_nl_at(rest, k - pos);
                assert(find_nl(rest) == k - pos);
            }
            // Extract the line, without a trailing carriage return.
            let mut line_end = k;
            if k > pos && s[k - 1] == '\r' {
                line_end = k - 1;
            }
            let mut line: Vec<char> = Vec::new();
            let mut j: usize = pos;
            while j < line_end
                invariant
                    n == s@.len(),
                    pos <= j <= line_end <= n,
                    line@ == s@.subrange(pos as int, j as int),
                decreases line_end - j,
            {
                line.push(s[j]);
                j += 1;
                proof {
                    assert(line@ =~= s@.subrange(pos as int, j as int));
                }
            }
            proof {
                let raw = if k < n {
                    rest.take(k - pos)
                } else {
                    rest
                };
                assert(raw =~= s@.subrange(pos as int, k as int));
                assert(line@ =~= strip_cr(raw));
                if k < n {
                    assert(split_lines(rest) =~= seq![line@] + split_lines(rest.skip(k - pos + 1)));
                } else {
                    assert(split_lines(rest) =~= seq![line@]);
                }
            }
            // Title detection, attempted until the first candidate is found.
            if title.is_none() {
                match extract_title(&line) {
                    Some(t) => {
                        title = Some(t);
                    },
                    None => {},
                }
            }
            // Every line is also attempted as an entry.
            match parse_entry_chars(&line) {
                Ok(e) => {
                    let ghost evs = entries_view(entries@);
                    entries.push(e);
                    proof {
                        assert(entries_view(entries@) =~= evs.push(e@));
                    }
                },
                Err(_) => {},
            }
            let ghost d_next = DocumentV {
                title: title_view(title),
                entries: entries_view(entries@),
            };
            proof {
                assert(d_next == doc_step(d_cur, line@));
            }
            let new_pos = if k < n {
                k + 1
            } else {
                n
            };
            proof {
                let ls = split_lines(rest);
                if k < n {
                    assert(rest.skip(k - pos + 1) =~= s@.skip(new_pos as int));
                } else {
                    assert(s@.skip(new_pos as int) =~= Seq::<char>::empty());
                }
                assert(ls[0] == line@);
                assert(ls.drop_first() =~= split_lines(s@.skip(new_pos as int)));
                assert(doc_run(d_cur, ls) == doc_run(d_next, split_lines(s@.skip(new_pos as int))));
            }
            pos = new_pos;
        }
        proof {
            assert(s@.skip(pos as int) =~= Seq::<char>::empty());
        }
        Ok(Document { title, entries })
    }
}

impl crate::md::Markdown for Document {
    fn to_md(&self) -> String {
        Document::to_md(self)
    }

    fn from_md(md: String) -> Result<Document, ParseError> {
        Document::from_md(md)
    }
}

/// The title a line offers, if any; matches [`title_of_line`].
fn extract_title(line: &Vec<char>) -> (r: Option<String>)
    ensures
        match r {
            Some(t) => title_of_line(line@) == Some(t@),
            None => title_of_line(line@) is None,
        },
{
    // Skip leading whitespace.
    let n = line.len();
    let mut a: usize = 0;
    proof {
        assert(line@.skip(0) =~= line@);
    }
    while a < n && char_is_ascii_ws(line[a])
        invariant
            n == line@.len(),
            a <= n,
            trim_start(line@) == trim_start(line@.skip(a as int)),
        decreases n - a,
    {
        proof {
            assert(line@.skip(a as int)[0] == line@[a as int]);
            assert(line@.skip(a as int).drop_first() =~= line@.skip(a + 1));
        }
        a += 1;
    }
    let ghost t = trim_start(line@);
    proof {
        if a < n {
            assert(!is_ws_at(line@, a as int));
        }
        assert(t =~= line@.skip(a as int));
    }
    // Count the `#` characters that follow.
    let mut b: usize = a;
    while b < n && line[b] == '#'
        invariant
            n == line@.len(),
            a <= b <= n,
            forall|j: int| a <= j < b ==> line@[j] == '#',
        decreases n - b,
    {
        b += 1;
    }
    proof {
        lemma_hash_count_at(t, b - a);
    }
    if b - a != 1 {
        return None;
    }
    // Skip whitespace again; the rest of the line is the title.
    let mut c: usize = b;
    proof {
        assert(t.skip(1) =~= line@.skip(b as int));
    }
    while c < n && char_is_ascii_ws(line[c])
        invariant
            n == line@.len(),
            b <= c <= n,
            trim_start(line@.skip(b as int)) == trim_start(line@.skip(c as int)),
        decreases n - c,
    {
        proof {
            assert(line@.skip(c as int)[0] == line@[c as int]);
            assert(line@.skip(c as int).drop_first() =~= line@.skip(c + 1));
        }
        c += 1;
    }
    let mut rest: Vec<char> = Vec::new();
    let mut j: usize = c;
    while j < n
        invariant
            n == line@.len(),
            c <= j <= n,
            rest@ == line@.subrange(c as int, j as int),
        decreases n - j,
    {
        rest.push(line[j]);
        j += 1;
        proof {
            assert(rest@ =~= line@.subrange(c as int, j as int));
        }
    }
    proof {
        if c < n {
            assert(!is_ws_at(line@, c as int));
        }
        assert(rest@ =~= trim_start(line@.skip(b as int)));
        assert(rest@ =~= trim_start(t.skip(1)));
    }
    Some(chars_to_string(&rest))
}

/// Whether the character at a position is ASCII whitespace.
spec fn is_ws_at(s: Seq<char>, i: int) -> bool {
    crate::chars::is_ascii_ws(s[i])
}

} // verus!
