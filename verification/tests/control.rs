use todo_core::control::{Control, ControlSettings};
use todo_core::key::KeyCode;

#[test]
fn commands_by_number() {
    assert_eq!(Control::from_num(0), Control::Up);
    assert_eq!(Control::from_num(7), Control::Complete);
    assert_eq!(Control::from_num(14), Control::Config);
    assert_eq!(Control::from_num(15), Control::Unused);
    assert_eq!(Control::from_num(usize::MAX), Control::Unused);
    for i in 0..16 {
        assert_eq!(Control::from_num(i).index(), i);
    }
}

#[test]
fn command_texts() {
    assert_eq!(Control::Up.string(), "Move up");
    assert_eq!(Control::PrintUnfinished.string(), "Save unfinished to txt file");
    assert_eq!(Control::Unused.string(), "Unused control");
}

#[test]
fn default_keys() {
    assert_eq!(Control::Select.default(), KeyCode::Enter);
    assert_eq!(Control::Complete.default(), KeyCode::Char(' '));
    assert_eq!(Control::Unused.default(), KeyCode::Null);
    let s = ControlSettings::new();
    assert_eq!(s.len(), 15);
    assert_eq!(s.key_at_control(Control::Save), KeyCode::Char('s'));
    assert_eq!(s.keycode_to_control(KeyCode::Char('e')), Control::Edit);
    assert_eq!(s.keycode_to_control(KeyCode::F(1)), Control::Unused);
}

#[test]
fn first_binding_wins() {
    let mut s = ControlSettings::new();
    s.set_key_at_num(9, KeyCode::Up);
    assert_eq!(s.key_at_control(Control::PrintUnfinished), KeyCode::Up);
    assert_eq!(s.keycode_to_control(KeyCode::Up), Control::Up);
    s.set_key_at_num(0, KeyCode::Tab);
    assert_eq!(s.keycode_to_control(KeyCode::Up), Control::PrintUnfinished);
}
