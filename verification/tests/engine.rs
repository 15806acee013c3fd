use todue::date::Deadline;
use todue::doc::Document;
use todue::log::{ErrorCode, Log};
use todue::md::Entry;
use todue::ui::{MoveDirection, SortMode, Ui, UiError};

fn entry(text: &str) -> Entry {
    Entry { done: false, deadline: None, text: text.to_string() }
}

fn dated(text: &str, day: u8, hour: u8) -> Entry {
    Entry {
        done: false,
        deadline: Some(Deadline { year: 2024, month: 6, day, hour, minute: 0 }),
        text: text.to_string(),
    }
}

fn ui_with(entries: Vec<Entry>) -> Ui {
    Ui::init(Document { title: None, entries }, 80, 24)
}

fn texts(ui: &Ui) -> Vec<String> {
    ui.document.entries.iter().map(|e| e.text.clone()).collect()
}

// initialization takes the defaults the session starts from
#[test]
fn test_init_defaults() {
    let ui = ui_with(vec![entry("a")]);
    assert_eq!(ui.scrolloff, 8);
    assert_eq!(ui.active_entry_idx, 0);
    assert_eq!(ui.current_scroll_offset, 0);
    assert!(ui.save_on_quit);
    assert!(matches!(ui.current_sort_mode, SortMode::Default));
    assert_eq!(ui.document, ui.original_document);
}

// moving the selection N times in either direction returns it to the start
#[test]
fn test_selection_wraps_after_n_moves() {
    let mut ui = ui_with(vec![entry("a"), entry("b"), entry("c")]);
    ui.active_entry_idx = 1;
    for _ in 0..3 {
        ui.move_selection(MoveDirection::Down).unwrap();
    }
    assert_eq!(ui.active_entry_idx, 1);
    for _ in 0..3 {
        ui.move_selection(MoveDirection::Up).unwrap();
    }
    assert_eq!(ui.active_entry_idx, 1);
}

// the selection wraps at both ends
#[test]
fn test_selection_wraps_at_edges() {
    let mut ui = ui_with(vec![entry("a"), entry("b"), entry("c")]);
    ui.move_selection(MoveDirection::Up).unwrap();
    assert_eq!(ui.active_entry_idx, 2);
    ui.move_selection(MoveDirection::Down).unwrap();
    assert_eq!(ui.active_entry_idx, 0);
}

// selection operations on an empty document signal or do nothing
#[test]
fn test_empty_document_operations() {
    let mut ui = ui_with(vec![]);
    assert_eq!(ui.move_selection(MoveDirection::Down), Err(UiError::EmptyDocument));
    ui.move_selected_entry(MoveDirection::Up);
    ui.move_selection_to_bottom();
    ui.move_selection_to_top();
    ui.toggle_active_entry();
    assert_eq!(ui.active_entry_idx, 0);
    assert_eq!(ui.document.entries.len(), 0);
}

// jump targets
#[test]
fn test_jump_top_bottom() {
    let mut ui = ui_with(vec![entry("a"), entry("b"), entry("c")]);
    ui.move_selection_to_bottom();
    assert_eq!(ui.active_entry_idx, 2);
    ui.move_selection_to_top();
    assert_eq!(ui.active_entry_idx, 0);
}

// moving an entry swaps it with its neighbor and the selection follows
#[test]
fn test_move_selected_entry() {
    let mut ui = ui_with(vec![entry("a"), entry("b"), entry("c")]);
    ui.move_selected_entry(MoveDirection::Down);
    assert_eq!(texts(&ui), vec!["b", "a", "c"]);
    assert_eq!(ui.active_entry_idx, 1);
    ui.move_selected_entry(MoveDirection::Down);
    assert_eq!(texts(&ui), vec!["b", "c", "a"]);
    assert_eq!(ui.active_entry_idx, 2);
    // wrap-around: the last entry swaps with the first
    ui.move_selected_entry(MoveDirection::Down);
    assert_eq!(texts(&ui), vec!["a", "c", "b"]);
    assert_eq!(ui.active_entry_idx, 0);
}

// toggling flips only the selected entry's done flag
#[test]
fn test_toggle_active_entry() {
    let mut ui = ui_with(vec![entry("a"), entry("b")]);
    ui.toggle_active_entry();
    assert!(ui.document.entries[0].done);
    assert!(!ui.document.entries[1].done);
    ui.toggle_active_entry();
    assert!(!ui.document.entries[0].done);
}

// cycling the sort mode five times returns to the default mode
#[test]
fn test_sort_cycle_period() {
    let mut ui = ui_with(vec![entry("a")]);
    assert!(matches!(ui.current_sort_mode, SortMode::Default));
    ui.cycle_sort_mode();
    assert!(matches!(ui.current_sort_mode, SortMode::ByDeadlineDescending));
    ui.cycle_sort_mode();
    assert!(matches!(ui.current_sort_mode, SortMode::ByDeadlineAscending));
    ui.cycle_sort_mode();
    assert!(matches!(ui.current_sort_mode, SortMode::ByTextAscending));
    ui.cycle_sort_mode();
    assert!(matches!(ui.current_sort_mode, SortMode::ByTextDescending));
    ui.cycle_sort_mode();
    assert!(matches!(ui.current_sort_mode, SortMode::Default));
}

// applying the default sort restores the pristine order, whatever manual
// reordering happened in between
#[test]
fn test_default_sort_restores_original() {
    let mut ui = ui_with(vec![entry("a"), entry("b"), entry("c")]);
    ui.move_selected_entry(MoveDirection::Down);
    ui.move_selected_entry(MoveDirection::Down);
    assert_eq!(texts(&ui), vec!["b", "c", "a"]);
    for _ in 0..5 {
        ui.cycle_sort_mode();
        ui.apply_sort_mode();
    }
    assert!(matches!(ui.current_sort_mode, SortMode::Default));
    assert_eq!(ui.document, ui.original_document);
    assert_eq!(texts(&ui), vec!["a", "b", "c"]);
}

// applying the pending sort twice is the same as applying it once
#[test]
fn test_apply_sort_idempotent_when_not_pending() {
    let mut ui = ui_with(vec![dated("late", 22, 10), entry("undated"), dated("early", 2, 9)]);
    ui.cycle_sort_mode();
    ui.cycle_sort_mode();
    ui.apply_sort_mode();
    let after_first = ui.document.clone();
    ui.apply_sort_mode();
    assert_eq!(ui.document, after_first);
}

// ascending deadline sort puts undated entries first; descending is the
// exact reversal
#[test]
fn test_sort_by_deadline() {
    let mut ui = ui_with(vec![dated("late", 22, 10), entry("undated"), dated("early", 2, 9)]);
    ui.cycle_sort_mode();
    ui.cycle_sort_mode();
    assert!(matches!(ui.current_sort_mode, SortMode::ByDeadlineAscending));
    ui.apply_sort_mode();
    assert_eq!(texts(&ui), vec!["undated", "early", "late"]);

    let mut ui = ui_with(vec![dated("late", 22, 10), entry("undated"), dated("early", 2, 9)]);
    ui.cycle_sort_mode();
    assert!(matches!(ui.current_sort_mode, SortMode::ByDeadlineDescending));
    ui.apply_sort_mode();
    assert_eq!(texts(&ui), vec!["late", "early", "undated"]);
}

// text sorting is case-insensitive: it compares the lowercased text
#[test]
fn test_sort_by_text_case_folded() {
    let mut ui = ui_with(vec![entry("Banana"), entry("apple"), entry("Cherry")]);
    for _ in 0..3 {
        ui.cycle_sort_mode();
    }
    assert!(matches!(ui.current_sort_mode, SortMode::ByTextAscending));
    ui.apply_sort_mode();
    assert_eq!(texts(&ui), vec!["apple", "Banana", "Cherry"]);
}

// stable-sort tie behavior: equal keys keep their original order ascending,
// and the descending mode reverses them
#[test]
fn test_stable_tie_behavior_deadline() {
    let a = dated("A", 20, 12);
    let b = dated("B", 20, 12);
    let mut ui = ui_with(vec![a.clone(), b.clone()]);
    ui.cycle_sort_mode();
    ui.cycle_sort_mode();
    ui.apply_sort_mode();
    assert_eq!(texts(&ui), vec!["A", "B"]);

    let mut ui = ui_with(vec![a, b]);
    ui.cycle_sort_mode();
    ui.apply_sort_mode();
    assert_eq!(texts(&ui), vec!["B", "A"]);
}

// the same tie behavior holds for identical case-folded text
#[test]
fn test_stable_tie_behavior_text() {
    let a = Entry { done: false, deadline: None, text: "Same".to_string() };
    let b = Entry { done: true, deadline: None, text: "sAME".to_string() };
    let mut ui = ui_with(vec![a.clone(), b.clone()]);
    for _ in 0..3 {
        ui.cycle_sort_mode();
    }
    ui.apply_sort_mode();
    assert_eq!(texts(&ui), vec!["Same", "sAME"]);

    let mut ui = ui_with(vec![a, b]);
    for _ in 0..4 {
        ui.cycle_sort_mode();
    }
    ui.apply_sort_mode();
    assert_eq!(texts(&ui), vec!["sAME", "Same"]);
}

// the scroll offset follows the selection and never exceeds what fits
#[test]
fn test_scroll_offset_follows_and_clamps() {
    let mut ui = ui_with((0..100).map(|i| entry(&format!("e{}", i))).collect());
    ui.update_dimensions(80, 23).unwrap();
    ui.active_entry_idx = 50;
    ui.update_scroll_offset();
    assert_eq!(ui.current_scroll_offset, 38);
    ui.active_entry_idx = 99;
    ui.update_scroll_offset();
    assert_eq!(ui.current_scroll_offset, 80);
    ui.active_entry_idx = 0;
    ui.update_scroll_offset();
    assert_eq!(ui.current_scroll_offset, 0);
}

// the scroll offset stays clamped for every size combination tried
#[test]
fn test_scroll_clamp_sweep() {
    for count in [0usize, 1, 5, 20, 100] {
        for height in [4usize, 10, 24, 50] {
            let mut ui = ui_with((0..count).map(|i| entry(&format!("e{}", i))).collect());
            ui.update_dimensions(80, height).unwrap();
            for sel in 0..count {
                ui.active_entry_idx = sel;
                ui.update_scroll_offset();
                let max = count.saturating_sub(height - 3);
                assert!(ui.current_scroll_offset <= max);
            }
        }
    }
}

// too-small terminal dimensions are reported
#[test]
fn test_update_dimensions_too_small() {
    let mut ui = ui_with(vec![entry("a")]);
    assert_eq!(ui.update_dimensions(44, 24), Err(UiError::WindowTooSmall));
    assert_eq!(ui.update_dimensions(80, 3), Err(UiError::WindowTooSmall));
    assert_eq!(ui.update_dimensions(45, 4), Ok(()));
    assert_eq!(ui.inner_height(), 1);
}

// discarding changes only clears the save flag
#[test]
fn test_dont_save_on_quit() {
    let mut ui = ui_with(vec![entry("a")]);
    ui.dont_save_on_quit();
    assert!(!ui.save_on_quit);
    assert_eq!(texts(&ui), vec!["a"]);
}

// the log buffers styled, labelled lines in order
#[test]
fn test_log_lines() {
    let mut log = Log::new();
    log.error("boom");
    log.info("fyi");
    log.warn("careful");
    log.log("custom:  ", "message", "\x1b[1m");
    assert_eq!(
        log.contents(),
        &format!(
            "{}{}{}{}{}{}{}{}",
            "\x1b[1;31merror:   \x1b[0mboom\r\n",
            "\x1b[1;34m", "info:    \x1b[0m", "fyi\r\n",
            "\x1b[1;33mwarning: \x1b[0m", "careful\r\n",
            "\x1b[1mcustom:  \x1b[0m", "message\r\n"
        )
    );
}

// exit codes carry their numeric values
#[test]
fn test_error_codes() {
    assert_eq!(i32::from(ErrorCode::App), 1);
    assert_eq!(i32::from(ErrorCode::IO), 2);
}
