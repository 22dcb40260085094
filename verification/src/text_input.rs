//! A single-line text input: its content, a cursor, and the editing keys
//! it understands. Positions are counted in characters.

use vstd::prelude::*;

use crate::keys::{Key, KeyPress};
use crate::strutil::push_char;

verus! {

/// The rendering half of the input widget: whether it draws focused.
#[derive(Debug, Clone, Default)]
pub struct TextInput {
    pub is_focused: bool,
}

/// The edited state: the content and the cursor position in characters.
#[derive(Debug, Clone)]
pub struct TextInputState {
    pub input: String,
    pub cursor_position: usize,
}

/// The content after one editing key: a character is inserted at the
/// cursor, backspace removes before it, delete removes at it, and every
/// other key leaves the content alone.
pub open spec fn spec_text_after(inp: Seq<char>, cur: int, key: KeyPress) -> Seq<char> {
    match key.code {
        Key::Char(c) => inp.insert(cur, c),
        Key::Backspace => if cur > 0 {
            inp.remove(cur - 1)
        } else {
            inp
        },
        Key::Delete => if cur < inp.len() {
            inp.remove(cur)
        } else {
            inp
        },
        _ => inp,
    }
}

/// The cursor after one editing key.
pub open spec fn spec_cursor_after(inp: Seq<char>, cur: int, key: KeyPress) -> int {
    match key.code {
        Key::Char(_) => cur + 1,
        Key::Backspace => if cur > 0 {
            cur - 1
        } else {
            0
        },
        Key::Delete => cur,
        Key::Left => if cur > 0 {
            cur - 1
        } else {
            0
        },
        Key::Right => if cur < inp.len() {
            cur + 1
        } else {
            inp.len() as int
        },
        Key::Home => 0,
        Key::End => inp.len() as int,
        _ => cur,
    }
}

/// Whether the input consumes the key at all.
pub open spec fn spec_key_handled(key: KeyPress) -> bool {
    match key.code {
        Key::Char(_) | Key::Backspace | Key::Delete | Key::Left | Key::Right | Key::Home
            | Key::End => true,
        _ => false,
    }
}

impl TextInputState {
    /// The cursor always sits between two characters of the content.
    pub open spec fn wf(&self) -> bool {
        self.cursor_position <= self.input@.len()
    }

    /// Applies one editing key: a character is inserted at the cursor,
    /// backspace removes before it, delete removes at it, the motion keys
    /// move it; every other key leaves the state alone and is reported as
    /// unhandled.
    pub fn handle_key(&mut self, key: KeyPress) -> (r: bool)
        requires
            old(self).wf(),
            old(self).input@.len() < usize::MAX,
        ensures
            final(self).wf(),
            final(self).input@ == spec_text_after(
                old(self).input@,
                old(self).cursor_position as int,
                key,
            ),
            final(self).cursor_position as int == spec_cursor_after(
                old(self).input@,
                old(self).cursor_position as int,
                key,
            ),
            r == spec_key_handled(key),
    {
        let n = self.input.unicode_len();
        let cur = self.cursor_position;
        match key.code {
            Key::Char(c) => {
                let before = self.input.as_str().substring_char(0, cur).to_owned();
                let after = self.input.as_str().substring_char(cur, n).to_owned();
                let mut s = before;
                push_char(&mut s, c);
                s.append(after.as_str());
                proof {
                    assert(s@ =~= self.input@.insert(cur as int, c));
                }
                self.input = s;
                self.cursor_position = cur + 1;
                true
            },
            Key::Backspace => {
                if cur > 0 {
                    let before = self.input.as_str().substring_char(0, cur - 1).to_owned();
                    let after = self.input.as_str().substring_char(cur, n).to_owned();
                    let mut s = before;
                    s.append(after.as_str());
                    proof {
                        assert(s@ =~= self.input@.remove(cur - 1));
                    }
                    self.input = s;
                    self.cursor_position = cur - 1;
                }
                true
            },
            Key::Delete => {
                if cur < n {
                    let before = self.input.as_str().substring_char(0, cur).to_owned();
                    let after = self.input.as_str().substring_char(cur + 1, n).to_owned();
                    let mut s = before;
                    s.append(after.as_str());
                    proof {
                        assert(s@ =~= self.input@.remove(cur as int));
                    }
                    self.input = s;
                }
                true
            },
            Key::Left => {
                if cur > 0 {
                    self.cursor_position = cur - 1;
                }
                true
            },
            Key::Right => {
                if cur < n {
                    self.cursor_position = cur + 1;
                } else {
                    self.cursor_position = n;
                }
                true
            },
            Key::Home => {
                self.cursor_position = 0;
                true
            },
            Key::End => {
                self.cursor_position = n;
                true
            },
            _ => false,
        }
    }
}

impl Default for TextInputState {
    /// An empty input with the cursor at the start.
    fn default() -> (r: TextInputState)
        ensures
            r.input@.len() == 0,
            r.cursor_position == 0,
            r.wf(),
    {
        TextInputState { input: String::new(), cursor_position: 0 }
    }
}

} // verus!
