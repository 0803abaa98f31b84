use runner::config::Config;
use runner::engine::AppState;
use runner::history::History;
use runner::model::{Entry, EntryType};
use runner::session::{handle_key, KeyInput, KeyOutcome};
use runner::view::{scroll_offset, search_line, visible_capacity, visible_rows, SearchLine};

fn entry(id: &str, name: &str) -> Entry {
    Entry::new(id.to_string(), name.to_string(), id.to_string(), EntryType::Binary, false)
}

fn state_with(n: usize) -> AppState {
    let mut state = AppState::new(Config::default(), History::new());
    let mut items = Vec::new();
    for i in 0..n {
        // zero-padded names keep the empty-query order equal to the
        // catalog order
        items.push(entry(&format!("id{:03}", i), &format!("item{:03}", i)));
    }
    state.set_entries(items);
    state
}

#[test]
fn window_is_zero_when_everything_fits() {
    assert_eq!(scroll_offset(5, 10, 3), 0);
}

#[test]
fn window_centers_on_the_cursor() {
    assert_eq!(scroll_offset(100, 10, 50), 45);
}

#[test]
fn window_clamps_at_the_start() {
    assert_eq!(scroll_offset(100, 10, 2), 0);
}

#[test]
fn window_clamps_at_the_end() {
    assert_eq!(scroll_offset(100, 10, 98), 90);
}

#[test]
fn capacity_counts_whole_rows() {
    // 400 - 20 (padding) - 20 (search) - 10 (spacing) - 20 (padding) = 330
    assert_eq!(visible_capacity(400, 20, 10), 11);
}

#[test]
fn capacity_is_zero_on_a_tiny_panel() {
    assert_eq!(visible_capacity(50, 20, 10), 0);
}

#[test]
fn rows_carry_ordinals_and_selection() {
    let mut state = state_with(12);
    state.move_selection(1);
    let rows = visible_rows(&state, 10);
    assert_eq!(rows.len(), 10);
    assert_eq!(rows[0].view_index, 0);
    assert_eq!(rows[0].catalog_index, state.filtered_indices[0]);
    assert_eq!(rows[0].ordinal, Some(1));
    assert!(!rows[0].selected);
    assert!(rows[1].selected);
    assert_eq!(rows[8].ordinal, Some(9));
    assert_eq!(rows[9].ordinal, None);
}

#[test]
fn search_line_echoes_the_query() {
    match search_line("") {
        SearchLine::Placeholder => {},
        _ => panic!("empty query shows the placeholder"),
    }
    match search_line("fire") {
        SearchLine::Echo(text) => assert_eq!(text, "> fire"),
        _ => panic!("typed query is echoed"),
    }
}

#[test]
fn escape_quits() {
    let mut state = state_with(3);
    assert_eq!(handle_key(&mut state, KeyInput::Escape, 10), KeyOutcome::Quit);
}

#[test]
fn enter_executes_the_selection() {
    let mut state = state_with(3);
    state.move_selection(2);
    let expected = state.filtered_indices[2];
    assert_eq!(handle_key(&mut state, KeyInput::Enter, 10), KeyOutcome::Execute(expected));
}

#[test]
fn enter_on_empty_view_does_nothing() {
    let mut state = AppState::new(Config::default(), History::new());
    assert_eq!(handle_key(&mut state, KeyInput::Enter, 10), KeyOutcome::Nothing);
}

#[test]
fn arrows_move_the_selection() {
    let mut state = state_with(3);
    assert_eq!(handle_key(&mut state, KeyInput::Up, 10), KeyOutcome::Redraw);
    assert_eq!(state.selected_index, 2);
    assert_eq!(handle_key(&mut state, KeyInput::Down, 10), KeyOutcome::Redraw);
    assert_eq!(state.selected_index, 0);
}

#[test]
fn digits_execute_visible_rows() {
    let mut state = state_with(3);
    let expected = state.filtered_indices[1];
    assert_eq!(handle_key(&mut state, KeyInput::Digit(2), 10), KeyOutcome::Execute(expected));
    // ordinal 9 names no visible row here
    assert_eq!(handle_key(&mut state, KeyInput::Digit(9), 10), KeyOutcome::Nothing);
}

#[test]
fn digits_use_the_scrolled_window() {
    let mut state = state_with(30);
    for _ in 0..20 {
        state.move_selection(1);
    }
    assert_eq!(state.selected_index, 20);
    // capacity 10: the window starts at 15, so digit 1 is row 15
    let expected = state.filtered_indices[15];
    assert_eq!(handle_key(&mut state, KeyInput::Digit(1), 10), KeyOutcome::Execute(expected));
}

#[test]
fn text_appends_to_the_query() {
    let mut state = state_with(3);
    assert_eq!(
        handle_key(&mut state, KeyInput::Text("it".to_string()), 10),
        KeyOutcome::Redraw,
    );
    assert_eq!(state.query, "it");
    assert_eq!(
        handle_key(&mut state, KeyInput::Text("em".to_string()), 10),
        KeyOutcome::Redraw,
    );
    assert_eq!(state.query, "item");
    assert_eq!(state.filtered_indices.len(), 3);
}

#[test]
fn control_characters_are_ignored() {
    let mut state = state_with(3);
    assert_eq!(
        handle_key(&mut state, KeyInput::Text("\u{7}".to_string()), 10),
        KeyOutcome::Nothing,
    );
    assert_eq!(state.query, "");
}

#[test]
fn backspace_pops_and_refilters() {
    let mut state = state_with(3);
    handle_key(&mut state, KeyInput::Text("item0".to_string()), 10);
    assert_eq!(handle_key(&mut state, KeyInput::Backspace, 10), KeyOutcome::Redraw);
    assert_eq!(state.query, "item");
    assert_eq!(state.selected_index, 0);
}

#[test]
fn backspace_on_empty_query_is_harmless() {
    let mut state = state_with(2);
    assert_eq!(handle_key(&mut state, KeyInput::Backspace, 10), KeyOutcome::Redraw);
    assert_eq!(state.query, "");
    assert_eq!(state.filtered_indices.len(), 2);
}
