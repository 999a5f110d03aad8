use k9_console::autocomplete::{preview_window, Autocomplete, PreviewWindow};
use k9_console::registry::{CommandRegistry, ConsoleCommand};

fn registry(names: &[&str]) -> CommandRegistry<()> {
    let mut commands = CommandRegistry::new();
    for name in names {
        commands.register(name.to_string(), ConsoleCommand::new((), Vec::new(), String::new()));
    }
    commands
}

fn candidates(state: &Autocomplete) -> Vec<String> {
    state.candidates().clone()
}

fn selected(state: &Autocomplete) -> Option<(String, usize)> {
    state.selected().map(|(name, place)| (name.clone(), place))
}

fn chosen(name: &str, place: usize) -> Option<(String, usize)> {
    Some((name.to_string(), place))
}

#[test]
fn the_selected_command_stays_selected_while_it_matches() {
    let commands = registry(&["quit"]);
    let mut state = Autocomplete::new();
    state.text_changed("qu", &commands);
    assert_eq!(candidates(&state), vec!["quit".to_string()]);
    assert_eq!(selected(&state), chosen("quit", 0));
    state.text_changed("qui", &commands);
    assert_eq!(candidates(&state), vec!["quit".to_string()]);
    assert_eq!(selected(&state), chosen("quit", 0));
}

#[test]
fn the_selection_follows_its_command_to_a_new_place() {
    let commands = registry(&["quit", "qua", "quota", "other"]);
    let mut state = Autocomplete::new();
    state.text_changed("qu", &commands);
    assert_eq!(candidates(&state), vec!["qua".to_string(), "quit".to_string(), "quota".to_string()]);
    assert_eq!(selected(&state), chosen("qua", 0));
    state.move_down();
    state.move_down();
    assert_eq!(selected(&state), chosen("quota", 2));
    state.text_changed("quo", &commands);
    assert_eq!(candidates(&state), vec!["quota".to_string()]);
    assert_eq!(selected(&state), chosen("quota", 0));
    state.text_changed("q", &commands);
    assert_eq!(selected(&state), chosen("quota", 2));
}

#[test]
fn a_selection_that_no_longer_matches_gives_way_to_the_first_candidate() {
    let commands = registry(&["alpha", "beta", "bravo"]);
    let mut state = Autocomplete::new();
    state.text_changed("a", &commands);
    assert_eq!(selected(&state), chosen("alpha", 0));
    state.text_changed("b", &commands);
    assert_eq!(candidates(&state), vec!["beta".to_string(), "bravo".to_string()]);
    assert_eq!(selected(&state), chosen("beta", 0));
    state.text_changed("x", &commands);
    assert_eq!(candidates(&state), Vec::<String>::new());
    assert_eq!(selected(&state), None);
}

#[test]
fn the_empty_text_has_no_candidates() {
    let commands = registry(&["alpha", "beta"]);
    let mut state = Autocomplete::new();
    state.text_changed("a", &commands);
    assert_eq!(selected(&state), chosen("alpha", 0));
    state.text_changed("", &commands);
    assert_eq!(candidates(&state), Vec::<String>::new());
    assert_eq!(selected(&state), None);
}

#[test]
fn candidates_come_in_the_order_of_their_names() {
    let commands = registry(&["zeta", "Zulu", "zebra", "ze", "z", "zz", "az"]);
    let mut state = Autocomplete::new();
    state.text_changed("z", &commands);
    assert_eq!(
        candidates(&state),
        vec!["z".to_string(), "ze".to_string(), "zebra".to_string(), "zeta".to_string(), "zz".to_string()]
    );
}

#[test]
fn the_arrow_keys_go_round() {
    let commands = registry(&["a1", "a2", "a3"]);
    let mut state = Autocomplete::new();
    state.move_up();
    state.move_down();
    assert_eq!(selected(&state), None);
    state.text_changed("a", &commands);
    assert_eq!(selected(&state), chosen("a1", 0));
    state.move_up();
    assert_eq!(selected(&state), chosen("a3", 2));
    state.move_up();
    assert_eq!(selected(&state), chosen("a2", 1));
    state.move_down();
    assert_eq!(selected(&state), chosen("a3", 2));
    state.move_down();
    assert_eq!(selected(&state), chosen("a1", 0));
    assert_eq!(candidates(&state).len(), 3);
}

#[test]
fn tab_accepts_a_single_candidate() {
    let commands = registry(&["quit", "other"]);
    let mut state = Autocomplete::new();
    state.text_changed("q", &commands);
    assert_eq!(state.tab(false), None);
    assert_eq!(selected(&state), chosen("quit", 0));
    assert_eq!(state.tab(true), Some("quit".to_string()));
    assert_eq!(candidates(&state), Vec::<String>::new());
    assert_eq!(selected(&state), None);
    assert!(!state.shows_list());
}

#[test]
fn tab_shows_and_hides_a_list_of_several() {
    let commands = registry(&["a1", "a2"]);
    let mut state = Autocomplete::new();
    state.text_changed("a", &commands);
    assert!(!state.shows_list());
    assert_eq!(state.tab(true), None);
    assert!(state.shows_list());
    assert_eq!(selected(&state), chosen("a1", 0));
    assert_eq!(state.tab(false), None);
    assert!(state.shows_list());
    assert_eq!(state.tab(true), None);
    assert!(!state.shows_list());
}

#[test]
fn tab_shows_nothing_where_nothing_matches() {
    let mut state = Autocomplete::new();
    assert_eq!(state.tab(true), None);
    assert!(!state.shows_list());
}

#[test]
fn the_selection_is_accepted_with_the_caret_at_the_end() {
    let commands = registry(&["a1", "a2"]);
    let mut state = Autocomplete::new();
    state.text_changed("a", &commands);
    state.move_down();
    assert_eq!(state.accept(0, 1), None);
    assert_eq!(selected(&state), chosen("a2", 1));
    assert_eq!(state.accept(1, 1), Some("a2".to_string()));
    assert_eq!(selected(&state), None);
    assert_eq!(candidates(&state), Vec::<String>::new());
    assert_eq!(state.accept(1, 1), None);
}

#[test]
fn clearing_leaves_nothing_to_choose_from() {
    let commands = registry(&["a1", "a2"]);
    let mut state = Autocomplete::new();
    state.text_changed("a", &commands);
    state.tab(true);
    state.clear();
    assert_eq!(selected(&state), None);
    assert_eq!(candidates(&state), Vec::<String>::new());
    assert!(!state.shows_list());
}

fn window(first: isize, last: isize, more_above: Option<isize>, more_below: Option<isize>) -> PreviewWindow {
    PreviewWindow { first, last, more_above, more_below }
}

#[test]
fn a_list_that_fits_is_shown_whole() {
    assert_eq!(preview_window(0, 1, 1), window(0, 0, None, None));
    assert_eq!(preview_window(2, 5, 5), window(0, 4, None, None));
    assert_eq!(preview_window(4, 5, 100), window(0, 4, None, None));
}

#[test]
fn the_window_is_centred_on_the_selection() {
    assert_eq!(preview_window(5, 10, 5), window(4, 6, Some(4), Some(3)));
    assert_eq!(preview_window(4, 10, 5), window(3, 5, Some(3), Some(4)));
    assert_eq!(preview_window(5, 10, 4), window(4, 5, Some(4), Some(4)));
    assert_eq!(preview_window(5, 10, 6), window(3, 6, Some(3), Some(3)));
    assert_eq!(preview_window(50, 100, 7), window(48, 52, Some(48), Some(47)));
}

#[test]
fn the_window_stops_at_the_top_of_the_list() {
    assert_eq!(preview_window(0, 10, 5), window(0, 3, None, Some(6)));
    assert_eq!(preview_window(1, 10, 5), window(0, 3, None, Some(6)));
    assert_eq!(preview_window(2, 10, 5), window(0, 3, None, Some(6)));
    assert_eq!(preview_window(1, 10, 4), window(0, 2, None, Some(7)));
    assert_eq!(preview_window(2, 10, 4), window(0, 2, None, Some(7)));
}

#[test]
fn the_window_stops_at_the_end_of_the_list() {
    assert_eq!(preview_window(9, 10, 5), window(6, 9, Some(6), None));
    assert_eq!(preview_window(8, 10, 5), window(6, 9, Some(6), None));
    assert_eq!(preview_window(7, 10, 5), window(6, 9, Some(6), None));
    assert_eq!(preview_window(6, 10, 5), window(5, 7, Some(5), Some(2)));
    assert_eq!(preview_window(8, 10, 4), window(7, 9, Some(7), None));
}

#[test]
fn a_window_without_room_shows_only_markers() {
    assert_eq!(preview_window(3, 10, 0), window(4, 1, Some(4), Some(8)));
    assert_eq!(preview_window(0, 10, 0), window(0, -2, None, Some(11)));
    assert_eq!(preview_window(3, 10, 1), window(4, 2, Some(4), Some(7)));
    assert_eq!(preview_window(3, 10, 2), window(3, 2, Some(3), Some(7)));
}
