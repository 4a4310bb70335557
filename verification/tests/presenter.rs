use bite::presenter::{
    compose_session_height, compute_session_height, fix_selected_prediction, selection_radius, selections_from_to,
    show_selection, tui_key, update_input_cursor_backwards, update_input_cursor_forwards, visible_elements,
    CursorMapping, ModifierState, NeedRedraw, PresenterCommand, Selection, SelectionMode, SpecialKey, TuiKey,
    SELECTION_RAD,
};

fn mods(shift: bool, control: bool, meta: bool) -> ModifierState {
    ModifierState { shift_pressed: shift, control_pressed: control, meta_pressed: meta }
}

#[test]
fn modifier_state_queries() {
    assert!(mods(false, false, false).none_pressed());
    assert!(!mods(true, false, false).none_pressed());
    assert!(!mods(true, false, false).not_only_shift());
    assert!(mods(false, false, true).not_only_shift());
    assert_eq!(mods(true, true, false).as_tuple(), (true, true, false));
    assert_eq!(mods(true, true, true).to_text(), "Shift-Ctrl-Meta-");
    assert_eq!(mods(false, true, false).to_text(), "Ctrl-");
    assert_eq!(mods(false, false, false).to_text(), "");
}

#[test]
fn tui_keys_send_capabilities() {
    assert_eq!(tui_key(&mods(false, false, false), SpecialKey::Enter), TuiKey::Capability("kent".to_string()));
    assert_eq!(tui_key(&mods(false, false, false), SpecialKey::Left), TuiKey::Capability("kcub1".to_string()));
    assert_eq!(tui_key(&mods(true, false, false), SpecialKey::Left), TuiKey::Capability("kLFT".to_string()));
    assert_eq!(tui_key(&mods(true, true, false), SpecialKey::Delete), TuiKey::Capability("kDC".to_string()));
    assert_eq!(tui_key(&mods(false, false, false), SpecialKey::Escape), TuiKey::Redraw);
    assert_eq!(tui_key(&mods(false, false, false), SpecialKey::Space), TuiKey::Unknown);
}

#[test]
fn selection_moves_within_the_list() {
    let mut sel = Selection { items: vec!["one".to_string(), "two".to_string(), "three".to_string()], current: 0 };
    let none = mods(false, false, false);
    assert_eq!(sel.event_special_key(&none, SpecialKey::Up), PresenterCommand::Redraw);
    assert_eq!(sel.current, 0);
    sel.event_special_key(&none, SpecialKey::Down);
    sel.event_special_key(&none, SpecialKey::Down);
    sel.event_special_key(&none, SpecialKey::Down);
    assert_eq!(sel.current, 2);
    sel.event_special_key(&none, SpecialKey::Home);
    assert_eq!(sel.current, 0);
    sel.event_special_key(&none, SpecialKey::End);
    assert_eq!(sel.current, 2);
    assert_eq!(sel.event_special_key(&mods(false, true, false), SpecialKey::Up), PresenterCommand::Unknown);
    assert_eq!(sel.event_special_key(&none, SpecialKey::Tab), PresenterCommand::Unknown);
}

#[test]
fn selection_is_kept_visible() {
    assert_eq!(show_selection(5, 2, 10, 20, 30), (10, NeedRedraw::No));
    assert_eq!(show_selection(12, 2, 10, 20, 30), (22, NeedRedraw::Yes));
    assert_eq!(show_selection(25, 2, 10, 20, 30), (30, NeedRedraw::Yes));
}

#[test]
fn predictions_and_heights() {
    assert_eq!(fix_selected_prediction(3, 0), 0);
    assert_eq!(fix_selected_prediction(3, 2), 1);
    assert_eq!(fix_selected_prediction(1, 2), 1);
    assert_eq!(compute_session_height(25, 1), 24);
}

#[test]
fn selection_window_around_the_selected_entry() {
    assert_eq!(visible_elements(SelectionMode::Nothing, true), (true, true, false, false));
    assert_eq!(visible_elements(SelectionMode::History, false), (false, false, true, true));
    assert_eq!(visible_elements(SelectionMode::History, true), (false, false, true, false));
    assert_eq!(visible_elements(SelectionMode::Completion, false), (true, false, true, false));
    assert_eq!(selection_radius(20), 5);
    assert_eq!(selection_radius(4), SELECTION_RAD);
    assert_eq!(selections_from_to(5, 2, 10), (3, 8));
    assert_eq!(selections_from_to(0, 2, 1), (0, 1));
    assert_eq!(selections_from_to(9, 2, 10), (7, 10));
    // 24 rows: 2 input rows, entries 3..8 shown, one search line.
    assert_eq!(compose_session_height(SelectionMode::History, false, 24, 2, 5, 2, 10), 24 - 5 - 1);
    assert_eq!(compose_session_height(SelectionMode::Nothing, true, 24, 2, 5, 2, 10), 22);
    assert_eq!(compose_session_height(SelectionMode::Completion, true, 3, 2, 5, 2, 10), 0);
}

#[test]
fn cursor_mapping_follows_the_text_position() {
    let map = vec![
        CursorMapping { position: 0, x: 0, y: 0 },
        CursorMapping { position: 5, x: 0, y: 1 },
        CursorMapping { position: 10, x: 2, y: 1 },
    ];
    let mut index = 0;
    assert_eq!(update_input_cursor_forwards(&map, &mut index, 7), Some((2, 1)));
    assert_eq!(index, 1);
    assert_eq!(update_input_cursor_forwards(&map, &mut index, 12), Some((4, 1)));
    assert_eq!(index, 2);
    assert_eq!(update_input_cursor_backwards(&map, &mut index, 3), Some((3, 0)));
    assert_eq!(index, 0);
    let mut past = 3;
    assert_eq!(update_input_cursor_backwards(&map, &mut past, 3), None);
    assert_eq!(past, 3);
}
