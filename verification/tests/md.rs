use todue::date::Deadline;
use todue::md::{Entry, Markdown, ParseError};

/// test case: valid markdown, entry not done, not actually a date, date-like entry text
#[test]
fn test_valid_fake_date_not_done_dateless() {
    let entry = Entry::from_md("- [ ] (2024-06-what) this should work, kind of".to_string());
    assert_eq!(
        entry.unwrap(),
        Entry {
            done: false,
            deadline: None,
            text: "(2024-06-what) this should work, kind of".to_string(),
        }
    );
}

/// test case: valid, weirdly spaced, done with date
#[test]
fn test_valid_weirdly_spaced_done_dated() {
    let entry =
        Entry::from_md("     -  [     x] (2024-06-20 20:30) weirdly spaced but ok".to_string());
    assert_eq!(
        entry.unwrap(),
        Entry {
            done: true,
            deadline: Some(Deadline { year: 2024, month: 6, day: 20, hour: 20, minute: 30 }),
            text: "weirdly spaced but ok".to_string(),
        }
    );
}

// test case: invalid, undefined checkbox fill character 'a'
#[test]
fn test_invalid_bad_checkbox_fill() {
    let entry = Entry::from_md("- [a] this shouldn't work".to_string());
    assert!(entry.is_err());
}

// every non-whitespace character other than 'x' inside the checkbox is a
// hard parse error
#[test]
fn test_every_bad_checkbox_fill_char_fails() {
    for c in "abcdefghijklmnopqrstuvwyzABCDEFGHIJKLMNOPQRSTUVWXYZ0123456789!#$%&'()*+,-./:;<=>?@X_~[".chars() {
        let line = format!("- [{}] text", c);
        let entry = Entry::from_md(line);
        assert_eq!(entry.unwrap_err(), ParseError::InvalidCheckbox);
    }
}

// whitespace and repeated 'x' inside the checkbox are fine
#[test]
fn test_checkbox_whitespace_and_x_ok() {
    let entry = Entry::from_md("- [ x x ] still fine".to_string()).unwrap();
    assert!(entry.done);
    assert_eq!(entry.text, "still fine");
}

// a line that never completes the grammar is an invalid entry
#[test]
fn test_unterminated_lines_are_invalid_entries() {
    assert_eq!(
        Entry::from_md("no dash here".to_string()).unwrap_err(),
        ParseError::InvalidEntry
    );
    assert_eq!(Entry::from_md("- [".to_string()).unwrap_err(), ParseError::InvalidEntry);
    assert_eq!(Entry::from_md("- [ ] ".to_string()).unwrap_err(), ParseError::InvalidEntry);
    assert_eq!(Entry::from_md("".to_string()).unwrap_err(), ParseError::InvalidEntry);
}

// a deadline-shaped window with out-of-range fields falls back to text,
// character by character
#[test]
fn test_invalid_date_ranges_become_text() {
    let entry = Entry::from_md("- [ ] (2024-13-20 20:30) x".to_string()).unwrap();
    assert_eq!(entry.deadline, None);
    assert_eq!(entry.text, "(2024-13-20 20:30) x");

    let entry = Entry::from_md("- [ ] (2024-02-30 10:00) x".to_string()).unwrap();
    assert_eq!(entry.deadline, None);
    assert_eq!(entry.text, "(2024-02-30 10:00) x");

    let entry = Entry::from_md("- [ ] (2024-06-20 24:00) x".to_string()).unwrap();
    assert_eq!(entry.deadline, None);
    assert_eq!(entry.text, "(2024-06-20 24:00) x");
}

// leap-day deadlines parse in leap years only
#[test]
fn test_leap_year_deadline() {
    let entry = Entry::from_md("- [x] (2024-02-29 08:15) leap".to_string()).unwrap();
    assert_eq!(
        entry.deadline,
        Some(Deadline { year: 2024, month: 2, day: 29, hour: 8, minute: 15 })
    );
    assert_eq!(entry.text, "leap");

    let entry = Entry::from_md("- [x] (2023-02-29 08:15) leap".to_string()).unwrap();
    assert_eq!(entry.deadline, None);
    assert_eq!(entry.text, "(2023-02-29 08:15) leap");
}

// an alphabetic character before a later valid date window keeps the whole
// line as text: the deadline attempt is abandoned at the first window
#[test]
fn test_alpha_guards_date_window() {
    let entry = Entry::from_md("- [ ] x (2024-06-20 20:30) done".to_string()).unwrap();
    assert_eq!(entry.deadline, None);
    assert_eq!(entry.text, "x (2024-06-20 20:30) done");
}

// serialization is canonical: single spaces, zero-padded fields
#[test]
fn test_entry_to_md_exact() {
    let e = Entry {
        done: true,
        deadline: Some(Deadline { year: 2024, month: 6, day: 20, hour: 20, minute: 30 }),
        text: "weirdly spaced but ok".to_string(),
    };
    assert_eq!(e.to_md(), "- [x] (2024-06-20 20:30) weirdly spaced but ok");

    let e = Entry { done: false, deadline: None, text: "plain".to_string() };
    assert_eq!(e.to_md(), "- [ ] plain");

    let e = Entry {
        done: false,
        deadline: Some(Deadline { year: 42, month: 1, day: 2, hour: 3, minute: 4 }),
        text: "padded".to_string(),
    };
    assert_eq!(e.to_md(), "- [ ] (0042-01-02 03:04) padded");
}

// carriage returns and line feeds are dropped from accumulated text
#[test]
fn test_crlf_dropped() {
    let entry = Entry::from_md("- [ ] windows line\r\n".to_string()).unwrap();
    assert_eq!(entry.text, "windows line");
}

// text keeps its trailing whitespace but not its leading whitespace
#[test]
fn test_text_left_trimmed_only() {
    let entry = Entry::from_md("- [ ]    spaced out   ".to_string()).unwrap();
    assert_eq!(entry.text, "spaced out   ");
}

// the trait surface parses and serializes like the inherent methods
#[test]
fn test_markdown_trait_dispatch() {
    let entry: Entry = <Entry as Markdown>::from_md("- [x] via trait".to_string()).unwrap();
    assert!(entry.done);
    assert_eq!(<Entry as Markdown>::to_md(&entry), "- [x] via trait");
}
