use runner::config::{Config, LaunchGroup};
use runner::engine::AppState;
use runner::history::History;
use runner::model::{Entry, EntryType};

fn entry(id: &str, name: &str) -> Entry {
    Entry::new(
        id.to_string(),
        name.to_string(),
        name.to_lowercase(),
        EntryType::Desktop,
        false,
    )
}

fn history(counts: &[(&str, u32)]) -> History {
    History {
        usage_counts: counts.iter().map(|(id, c)| (id.to_string(), *c)).collect(),
    }
}

fn alpha_beta_catalog() -> Vec<Entry> {
    vec![entry("a", "Alpha"), entry("b", "Beta")]
}

#[test]
fn empty_query_orders_by_usage_descending() {
    let hist = history(&[("a", 2), ("b", 5)]);
    let mut state = AppState::new(Config::default(), hist);
    state.set_entries(alpha_beta_catalog());
    // Beta (usage 5) before Alpha (usage 2)
    assert_eq!(state.filtered_indices, vec![1, 0]);
    assert_eq!(state.selected_index, 0);
}

#[test]
fn empty_query_ties_break_by_name_ascending() {
    let mut state = AppState::new(Config::default(), History::new());
    state.set_entries(vec![entry("c", "Cherry"), entry("a", "Apricot"), entry("b", "Banana")]);
    assert_eq!(state.filtered_indices, vec![1, 2, 0]);
}

#[test]
fn query_keeps_only_fuzzy_matches() {
    let hist = history(&[("a", 2), ("b", 5)]);
    let mut state = AppState::new(Config::default(), hist);
    state.set_entries(alpha_beta_catalog());
    state.update_query("alp");
    // "alp" is a subsequence of "Alpha" but not of "Beta"
    assert_eq!(state.filtered_indices, vec![0]);
    assert_eq!(state.selected_index, 0);
}

#[test]
fn matched_entries_have_positive_scores() {
    let mut state = AppState::new(Config::default(), History::new());
    state.set_entries(alpha_beta_catalog());
    state.update_query("alp");
    for &idx in &state.filtered_indices {
        assert!(state.entries[idx].score > 0);
    }
    // the non-match keeps a sentinel score
    assert_eq!(state.entries[1].score, -1);
}

#[test]
fn usage_boost_outranks_raw_score() {
    // Both names match "al"; the heavily used one must come first even
    // though their raw fuzzy scores are close.
    let hist = history(&[("low", 0), ("high", 50)]);
    let mut state = AppState::new(Config::default(), hist);
    state.set_entries(vec![entry("low", "Almanac"), entry("high", "Almanax")]);
    state.update_query("alman");
    assert_eq!(state.filtered_indices[0], 1);
}

#[test]
fn blacklist_prunes_matching_names() {
    let mut config = Config::default();
    config.groups[0].1.blacklist = Some(vec!["^Beta$".to_string()]);
    let mut state = AppState::new(config, History::new());
    state.set_entries(alpha_beta_catalog());
    assert_eq!(state.filtered_indices, vec![0]);
}

#[test]
fn malformed_blacklist_pattern_is_skipped() {
    let mut config = Config::default();
    config.groups[0].1.blacklist = Some(vec!["[".to_string(), "^Beta$".to_string()]);
    let mut state = AppState::new(config, History::new());
    state.set_entries(alpha_beta_catalog());
    // "[" does not compile and must not block the other pattern
    assert_eq!(state.filtered_indices, vec![0]);
}

#[test]
fn whitelist_prunes_before_blacklist() {
    // Alpha fails the whitelist; even though the blacklist would keep
    // it, it must not appear. Beta passes the whitelist.
    let mut config = Config::default();
    config.groups[0].1.whitelist = Some(vec!["Bet".to_string()]);
    config.groups[0].1.blacklist = Some(vec!["NoSuchName".to_string()]);
    let mut state = AppState::new(config, History::new());
    state.set_entries(alpha_beta_catalog());
    assert_eq!(state.filtered_indices, vec![1]);
}

#[test]
fn whitelist_matches_id_as_well() {
    let mut config = Config::default();
    config.groups[0].1.whitelist = Some(vec!["a".to_string()]);
    let mut state = AppState::new(config, History::new());
    state.set_entries(alpha_beta_catalog());
    // "a" occurs in id "a" and in names "Alpha" and "Beta"? No: only in
    // "Alpha" (name) and "a"/"Beta" — Beta contains "a", so both stay.
    assert_eq!(state.filtered_indices.len(), 2);
}

#[test]
fn move_selection_wraps_backwards() {
    let mut state = AppState::new(Config::default(), History::new());
    state.set_entries(vec![entry("a", "A"), entry("b", "B"), entry("c", "C")]);
    assert_eq!(state.selected_index, 0);
    state.move_selection(-1);
    assert_eq!(state.selected_index, 2);
}

#[test]
fn move_selection_wraps_forwards() {
    let mut state = AppState::new(Config::default(), History::new());
    state.set_entries(vec![entry("a", "A"), entry("b", "B"), entry("c", "C")]);
    state.move_selection(1);
    assert_eq!(state.selected_index, 1);
    state.move_selection(2);
    assert_eq!(state.selected_index, 0);
    state.move_selection(7);
    assert_eq!(state.selected_index, 1);
}

#[test]
fn move_selection_on_empty_view_stays_zero() {
    let mut state = AppState::new(Config::default(), History::new());
    state.move_selection(-5);
    assert_eq!(state.selected_index, 0);
    state.move_selection(3);
    assert_eq!(state.selected_index, 0);
}

#[test]
fn get_selected_returns_cursor_item() {
    let mut state = AppState::new(Config::default(), History::new());
    state.set_entries(alpha_beta_catalog());
    let selected = state.get_selected().expect("non-empty view");
    assert_eq!(selected.name, "Alpha");
    state.move_selection(1);
    let selected = state.get_selected().expect("non-empty view");
    assert_eq!(selected.name, "Beta");
}

#[test]
fn get_selected_on_empty_view_is_none() {
    let state = AppState::new(Config::default(), History::new());
    assert!(state.get_selected().is_none());
}

#[test]
fn query_then_clear_restores_usage_order() {
    let hist = history(&[("b", 9)]);
    let mut state = AppState::new(Config::default(), hist);
    state.set_entries(alpha_beta_catalog());
    state.update_query("alp");
    assert_eq!(state.filtered_indices, vec![0]);
    state.update_query("");
    assert_eq!(state.filtered_indices, vec![1, 0]);
}

#[test]
fn ingest_resets_cursor() {
    let mut state = AppState::new(Config::default(), History::new());
    state.set_entries(vec![entry("a", "A"), entry("b", "B"), entry("c", "C")]);
    state.move_selection(2);
    assert_eq!(state.selected_index, 2);
    state.set_entries(alpha_beta_catalog());
    assert_eq!(state.selected_index, 0);
}
