use todue::date::Deadline;
use todue::doc::Document;
use todue::md::{Entry, Markdown};

fn sample_document() -> Document {
    Document {
        title: Some("Groceries".to_string()),
        entries: vec![
            Entry { done: false, deadline: None, text: "buy apples".to_string() },
            Entry {
                done: true,
                deadline: Some(Deadline { year: 2024, month: 6, day: 20, hour: 20, minute: 30 }),
                text: "buy bananas".to_string(),
            },
        ],
    }
}

// a document with a title and entries serializes with the blank separator
#[test]
fn test_document_to_md_exact() {
    let md = sample_document().to_md();
    assert_eq!(md, "# Groceries\n\n- [ ] buy apples\n- [x] (2024-06-20 20:30) buy bananas\n");
}

// a document with neither title nor entries serializes to the empty string
#[test]
fn test_empty_document_to_md() {
    let d = Document { title: None, entries: vec![] };
    assert_eq!(d.to_md(), "");
}

// parse of serialize gives the document back
#[test]
fn test_document_round_trip() {
    let d = sample_document();
    let parsed = Document::from_md(d.to_md()).unwrap();
    assert_eq!(parsed, d);
}

// round trip without a title: the separator line stays blank
#[test]
fn test_document_round_trip_untitled() {
    let d = Document {
        title: None,
        entries: vec![Entry { done: false, deadline: None, text: "only one".to_string() }],
    };
    let parsed = Document::from_md(d.to_md()).unwrap();
    assert_eq!(parsed, d);
}

// document parsing never fails; unparseable lines are skipped
#[test]
fn test_unparseable_lines_skipped() {
    let parsed = Document::from_md(
        "# Title\nrandom prose\n- [ ] real entry\n-- not an entry [\n- [x] another\n".to_string(),
    )
    .unwrap();
    assert_eq!(parsed.title, Some("Title".to_string()));
    assert_eq!(parsed.entries.len(), 2);
    assert_eq!(parsed.entries[0].text, "real entry");
    assert_eq!(parsed.entries[1].text, "another");
}

// the title is the first line whose leading whitespace is followed by
// exactly one '#'; a blank line before it is tolerated
#[test]
fn test_title_detection() {
    let parsed = Document::from_md("\n  # Indented\n".to_string()).unwrap();
    assert_eq!(parsed.title, Some("Indented".to_string()));

    let parsed = Document::from_md("## Second level\n# Real\n".to_string()).unwrap();
    assert_eq!(parsed.title, Some("Real".to_string()));

    let parsed = Document::from_md("- [ ] entry first\n# Late title\n".to_string()).unwrap();
    assert_eq!(parsed.title, Some("Late title".to_string()));

    let parsed = Document::from_md("no heading anywhere\n".to_string()).unwrap();
    assert_eq!(parsed.title, None);
}

// both line-ending conventions are accepted
#[test]
fn test_crlf_document() {
    let parsed = Document::from_md("# T\r\n\r\n- [ ] a\r\n- [x] b\r\n".to_string()).unwrap();
    assert_eq!(parsed.title, Some("T".to_string()));
    assert_eq!(parsed.entries.len(), 2);
    assert_eq!(parsed.entries[0].text, "a");
    assert!(parsed.entries[1].done);
}

// the trait surface works for documents too
#[test]
fn test_document_markdown_trait() {
    let d = <Document as Markdown>::from_md("# X\n".to_string()).unwrap();
    assert_eq!(<Document as Markdown>::to_md(&d), "# X\n");
}
