use simplechat::text_input::{TextInput, TextInputAction};

fn typed(s: &str) -> TextInput {
    let mut t = TextInput::default();
    for c in s.chars() {
        t.action(TextInputAction::Char(c));
    }
    t
}

#[test]
fn typing_appends() {
    let t = typed("héllo");
    assert_eq!(t.get_input(), "héllo");
    assert_eq!(t.cursor_position(0, 0), (7, 1));
}

#[test]
fn insert_in_the_middle() {
    let mut t = typed("ac");
    t.action(TextInputAction::MoveLeft);
    t.action(TextInputAction::Char('b'));
    assert_eq!(t.get_input(), "abc");
    assert_eq!(t.cursor_position(10, 20), (14, 21));
}

#[test]
fn cursor_stays_in_bounds() {
    let mut t = typed("ab");
    t.action(TextInputAction::MoveRight);
    assert_eq!(t.cursor_position(0, 0), (4, 1));
    for _ in 0..5 {
        t.action(TextInputAction::MoveLeft);
    }
    assert_eq!(t.cursor_position(0, 0), (2, 1));
}

#[test]
fn backspace_and_delete() {
    let mut t = typed("abcd");
    t.action(TextInputAction::Backspace);
    assert_eq!(t.get_input(), "abc");
    t.action(TextInputAction::Delete);
    assert_eq!(t.get_input(), "abc");
    t.action(TextInputAction::MoveLeft);
    t.action(TextInputAction::MoveLeft);
    t.action(TextInputAction::Delete);
    assert_eq!(t.get_input(), "ac");
    t.action(TextInputAction::Backspace);
    assert_eq!(t.get_input(), "c");
    t.action(TextInputAction::Backspace);
    assert_eq!(t.get_input(), "c");
}

#[test]
fn clear_empties() {
    let mut t = typed("xyz");
    t.action(TextInputAction::Clear);
    assert_eq!(t.get_input(), "");
    assert_eq!(t.cursor_position(0, 0), (2, 1));
}
