use ghs::keys::{Key, KeyPress};
use ghs::text_input::TextInputState;

fn press(state: &mut TextInputState, code: Key) -> bool {
    state.handle_key(KeyPress { code, ctrl: false })
}

#[test]
fn typing_inserts_at_the_cursor() {
    let mut st = TextInputState::default();
    press(&mut st, Key::Char('a'));
    press(&mut st, Key::Char('c'));
    press(&mut st, Key::Left);
    press(&mut st, Key::Char('b'));
    assert_eq!(st.input, "abc");
    assert_eq!(st.cursor_position, 2);
}

#[test]
fn backspace_removes_before_the_cursor() {
    let mut st = TextInputState::default();
    press(&mut st, Key::Char('a'));
    press(&mut st, Key::Char('b'));
    press(&mut st, Key::Backspace);
    assert_eq!(st.input, "a");
    assert_eq!(st.cursor_position, 1);
    press(&mut st, Key::Backspace);
    press(&mut st, Key::Backspace);
    assert_eq!(st.input, "");
    assert_eq!(st.cursor_position, 0);
}

#[test]
fn delete_removes_at_the_cursor() {
    let mut st = TextInputState::default();
    press(&mut st, Key::Char('a'));
    press(&mut st, Key::Char('b'));
    press(&mut st, Key::Home);
    press(&mut st, Key::Delete);
    assert_eq!(st.input, "b");
    assert_eq!(st.cursor_position, 0);
}

#[test]
fn motion_keys_clamp_to_the_content() {
    let mut st = TextInputState::default();
    press(&mut st, Key::Char('x'));
    press(&mut st, Key::Right);
    assert_eq!(st.cursor_position, 1);
    press(&mut st, Key::End);
    assert_eq!(st.cursor_position, 1);
    press(&mut st, Key::Home);
    assert_eq!(st.cursor_position, 0);
    press(&mut st, Key::Left);
    assert_eq!(st.cursor_position, 0);
}

#[test]
fn unhandled_keys_are_reported() {
    let mut st = TextInputState::default();
    assert!(!press(&mut st, Key::Esc));
    assert!(!press(&mut st, Key::Enter));
    assert!(press(&mut st, Key::Char('q')));
}
