use tms::keymap::{default_keymap, with_defaults, Key, KeyCode, Keymap, Modifiers, PickerAction};
use tms::picker::{InputPosition, Picker, PickerItem, PickerOutcome};

fn labels(v: &[&str]) -> Vec<String> {
    v.iter().map(|s| s.to_string()).collect()
}

fn settle(picker: &mut Picker) {
    for _ in 0..200 {
        if !picker.tick(10) {
            return;
        }
    }
    panic!("matcher did not settle");
}

#[test]
fn matcher_round_trip() {
    // filtering with a query and then clearing it restores the full
    // original candidate set, in original order
    let list = labels(&["proj", "work/proj", "other"]);
    let mut picker = Picker::new(&list, None, None, InputPosition::Bottom);
    picker.update_filter('w');
    picker.update_filter('o');
    settle(&mut picker);
    let restored = picker.clear_filter().expect("matcher did not settle");
    assert_eq!(restored, list);
}

#[test]
fn matcher_case_insensitive_without_uppercase() {
    let list = labels(&["Foo", "bar"]);
    let mut picker = Picker::new(&list, None, None, InputPosition::Bottom);
    picker.update_filter('f');
    picker.update_filter('o');
    picker.update_filter('o');
    settle(&mut picker);
    picker.update_selection();
    // lowercase query still matches the capitalized label
    assert_eq!(picker.get_selected(), Some("Foo".to_string()));
    // an uppercase letter in the query turns matching case-sensitive
    let mut upper = Picker::new(&labels(&["foo"]), None, None, InputPosition::Bottom);
    upper.update_filter('F');
    settle(&mut upper);
    upper.update_selection();
    assert_eq!(upper.get_selected(), None);
}

#[test]
fn selection_invariant_and_wrapping() {
    let list = labels(&["a", "b", "c"]);
    let mut picker = Picker::new(&list, None, None, InputPosition::Bottom);
    // nothing matched yet: selection stays none
    picker.update_selection();
    assert_eq!(picker.selection, None);
    settle(&mut picker);
    picker.update_selection();
    assert_eq!(picker.selection, Some(0));

    // moving down from rank 0 wraps to the last rank
    picker.move_down();
    assert_eq!(picker.selection, Some(2));
    picker.move_up();
    assert_eq!(picker.selection, Some(0));

    // n downs followed by n ups return to the start
    for _ in 0..2 {
        picker.move_down();
    }
    for _ in 0..2 {
        picker.move_up();
    }
    assert_eq!(picker.selection, Some(0));
}

#[test]
fn confirm_without_selection_is_noop() {
    let list: Vec<String> = Vec::new();
    let mut picker = Picker::new(&list, None, None, InputPosition::Bottom);
    settle(&mut picker);
    picker.update_selection();
    let enter = Key::new(KeyCode::Enter, Modifiers::none());
    assert_eq!(picker.handle_key(enter), PickerOutcome::Continue);
    let esc = Key::new(KeyCode::Esc, Modifiers::none());
    assert_eq!(picker.handle_key(esc), PickerOutcome::Cancelled);
}

#[test]
fn confirm_returns_selected_label() {
    let list = labels(&["alpha", "beta"]);
    let mut picker = Picker::new(&list, None, None, InputPosition::Bottom);
    settle(&mut picker);
    picker.update_selection();
    let enter = Key::new(KeyCode::Enter, Modifiers::none());
    match picker.handle_key(enter) {
        PickerOutcome::Confirmed(label) => assert_eq!(label, "alpha"),
        other => panic!("expected a confirmation, got {:?}", other),
    }
}

#[test]
fn editing_operates_at_the_cursor() {
    let list = labels(&["x"]);
    let mut picker = Picker::new(&list, None, None, InputPosition::Bottom);
    picker.update_filter('a');
    picker.update_filter('b');
    picker.update_filter('c');
    assert_eq!(picker.filter, vec!['a', 'b', 'c']);
    picker.move_cursor_left();
    picker.remove_filter();
    assert_eq!(picker.filter, vec!['a', 'c']);
    assert_eq!(picker.cursor_pos, 1);
    picker.delete();
    assert_eq!(picker.filter, vec!['a']);
    // backspace at position 0 is a no-op
    picker.move_to_start();
    picker.remove_filter();
    assert_eq!(picker.filter, vec!['a']);
}

#[test]
fn delete_word_erases_spaces_then_word() {
    let list = labels(&["x"]);
    let mut picker = Picker::new(&list, None, None, InputPosition::Bottom);
    for c in "ab cd  ".chars() {
        picker.update_filter(c);
    }
    picker.delete_word();
    assert_eq!(picker.filter, vec!['a', 'b', ' ']);
    picker.delete_word();
    assert_eq!(picker.filter, Vec::<char>::new());
}

#[test]
fn unmapped_printable_inserts_literally() {
    let list = labels(&["x"]);
    let mut picker = Picker::new(&list, None, None, InputPosition::Bottom);
    let plain_x = Key::new(KeyCode::Char('x'), Modifiers::none());
    assert_eq!(picker.handle_key(plain_x), PickerOutcome::Continue);
    let plain_y = Key::new(KeyCode::Char('y'), Modifiers::none());
    assert_eq!(picker.handle_key(plain_y), PickerOutcome::Continue);
    assert_eq!(picker.filter, vec!['x', 'y']);
    assert_eq!(picker.cursor_pos, 2);
    // an unmapped non-printable key changes nothing
    let home = Key::new(KeyCode::Home, Modifiers::none());
    assert_eq!(picker.handle_key(home), PickerOutcome::Continue);
    assert_eq!(picker.filter, vec!['x', 'y']);
}

#[test]
fn keymap_defaults_and_overrides() {
    let km = default_keymap();
    assert_eq!(
        km.get(Key::new(KeyCode::Esc, Modifiers::none())),
        Some(PickerAction::Cancel)
    );
    assert_eq!(
        km.get(Key::new(KeyCode::Char('w'), Modifiers::ctrl())),
        Some(PickerAction::DeleteWord)
    );
    assert_eq!(km.get(Key::new(KeyCode::Char('q'), Modifiers::none())), None);

    let mut overrides = Keymap::new();
    overrides.set(
        Key::new(KeyCode::Char('q'), Modifiers::none()),
        PickerAction::Cancel,
    );
    overrides.set(Key::new(KeyCode::Esc, Modifiers::none()), PickerAction::Noop);
    let merged = with_defaults(&overrides);
    assert_eq!(
        merged.get(Key::new(KeyCode::Char('q'), Modifiers::none())),
        Some(PickerAction::Cancel)
    );
    assert_eq!(
        merged.get(Key::new(KeyCode::Esc, Modifiers::none())),
        Some(PickerAction::Noop)
    );
    assert_eq!(
        merged.get(Key::new(KeyCode::Enter, Modifiers::none())),
        Some(PickerAction::Confirm)
    );
}

#[test]
fn picker_item_display() {
    let item = PickerItem::Project {
        name: "proj".to_string(),
        path: "/srv/proj".to_string(),
    };
    let running = vec!["proj".to_string()];
    assert!(item.is_running(&running));
    assert_eq!(item.display_name(&running), "* proj");
    let idle: Vec<String> = Vec::new();
    assert!(!item.is_running(&idle));
    assert_eq!(item.display_name(&idle), "proj");
}

#[test]
fn render_plan_layout() {
    let list = labels(&["a", "b"]);
    let mut picker = Picker::new(
        &list,
        Some(tms::picker::Preview::Directory),
        None,
        InputPosition::Top,
    );
    settle(&mut picker);
    // a wide terminal splits horizontally and keeps the configured input
    // position
    let wide = picker.render_plan(200, 50);
    assert!(wide.horizontal_split);
    assert_eq!(wide.input_position, InputPosition::Top);
    assert!(!wide.list_bottom_to_top);
    assert_eq!(wide.title, "2/2");
    // a tall terminal splits vertically and forces the input to the bottom
    let tall = picker.render_plan(40, 60);
    assert!(!tall.horizontal_split);
    assert_eq!(tall.input_position, InputPosition::Bottom);
    assert!(tall.list_bottom_to_top);
}
