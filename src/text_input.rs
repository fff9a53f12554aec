//! Editing state of a one-line text input: the characters typed so far and
//! a cursor between them.
use vstd::prelude::*;

verus! {

/// Edits the input understands.
#[derive(Debug)]
pub enum TextInputAction {
    /// Inserts a character at the cursor.
    Char(char),
    /// Moves the cursor one character right.
    MoveRight,
    /// Moves the cursor one character left.
    MoveLeft,
    /// Deletes the character before the cursor.
    Backspace,
    /// Deletes the character under the cursor.
    Delete,
    /// Clears the input.
    Clear,
}

/// Abstract value of a [`TextInput`]: the characters and the cursor, which
/// counts the characters before it.
pub struct TextInputView {
    pub cursor: nat,
    pub input: Seq<char>,
}

/// A line being typed.
#[derive(Debug)]
pub struct TextInput {
    cursor_position: usize,
    input: Vec<char>,
}

/// Relies on `String`'s `FromIterator<char>`: the string of those characters
/// in order.
#[verifier::external_body]
fn string_from_chars(v: &[char]) -> (r: String)
    ensures
        r@ == v@,
{
    v.iter().collect()
}

/// `s` without its character at `idx`; unchanged where there is none.
pub open spec fn without_at(s: Seq<char>, idx: int) -> Seq<char> {
    if 0 <= idx < s.len() {
        s.remove(idx)
    } else {
        s
    }
}

impl View for TextInput {
    type V = TextInputView;

    closed spec fn view(&self) -> TextInputView {
        TextInputView { cursor: self.cursor_position as nat, input: self.input@ }
    }
}

impl Default for TextInput {
    fn default() -> (r: Self)
        ensures
            r.wf(),
            r@.cursor <= r@.input.len(),
            r@.cursor == 0,
            r@.input == Seq::<char>::empty(),
    {
        TextInput { cursor_position: 0, input: Vec::new() }
    }
}

impl TextInput {
    /// The cursor stands within the text, or just after it.
    pub closed spec fn wf(&self) -> bool {
        self.cursor_position <= self.input@.len()
    }

    pub fn new() -> (r: Self)
        ensures
            r.wf(),
            r@.cursor <= r@.input.len(),
            r@.cursor == 0,
            r@.input == Seq::<char>::empty(),
    {
        TextInput { cursor_position: 0, input: Vec::new() }
    }

    /// Applies one edit.
    pub fn action(&mut self, action: TextInputAction)
        requires
            old(self).wf(),
        ensures
            final(self).wf(),
            final(self)@.cursor <= final(self)@.input.len(),
            final(self)@ == match action {
                TextInputAction::Char(c) => TextInputView {
                    cursor: old(self)@.cursor + 1,
                    input: old(self)@.input.insert(old(self)@.cursor as int, c),
                },
                TextInputAction::MoveRight => TextInputView {
                    cursor: if old(self)@.cursor < old(self)@.input.len() {
                        old(self)@.cursor + 1
                    } else {
                        old(self)@.cursor
                    },
                    input: old(self)@.input,
                },
                TextInputAction::MoveLeft => TextInputView {
                    cursor: if old(self)@.cursor > 0 {
                        (old(self)@.cursor - 1) as nat
                    } else {
                        0
                    },
                    input: old(self)@.input,
                },
                TextInputAction::Backspace => if old(self)@.cursor > 0 {
                    TextInputView {
                        cursor: (old(self)@.cursor - 1) as nat,
                        input: old(self)@.input.remove(old(self)@.cursor - 1),
                    }
                } else {
                    old(self)@
                },
                TextInputAction::Delete => TextInputView {
                    cursor: old(self)@.cursor,
                    input: without_at(old(self)@.input, old(self)@.cursor as int),
                },
                TextInputAction::Clear => TextInputView { cursor: 0, input: Seq::<char>::empty() },
            },
    {
        match action {
            TextInputAction::Char(c) => self.enter_char(c),
            TextInputAction::MoveRight => self.move_cursor_right(),
            TextInputAction::MoveLeft => self.move_cursor_left(),
            TextInputAction::Backspace => self.backspace(),
            TextInputAction::Delete => self.delete(),
            TextInputAction::Clear => self.clear(),
        }
    }

    /// Where to draw the cursor inside a bordered, padded box whose top-left
    /// corner is at (`area_x`, `area_y`).
    pub fn cursor_position(&self, area_x: u16, area_y: u16) -> (r: (u16, u16))
        requires
            area_x + self@.cursor + 2 <= u16::MAX,
            area_y + 1 <= u16::MAX,
        ensures
            r.0 == area_x + self@.cursor + 2,
            r.1 == area_y + 1,
    {
        (area_x + self.cursor_position as u16 + 2, area_y + 1)
    }

    /// The text typed so far.
    pub fn get_input(&self) -> (r: String)
        ensures
            r@ == self@.input,
    {
        string_from_chars(self.input.as_slice())
    }

    /// Moves the cursor one left, and into the text where it stood past it.
    fn move_cursor_left(&mut self)
        ensures
            final(self).wf(),
            final(self)@.input == old(self)@.input,
            final(self)@.cursor == if old(self)@.cursor == 0 {
                0
            } else if old(self)@.cursor - 1 <= old(self)@.input.len() {
                (old(self)@.cursor - 1) as nat
            } else {
                old(self)@.input.len()
            },
    {
        let moved = self.cursor_position.saturating_sub(1);
        self.cursor_position = self.clamp_cursor(moved);
    }

    fn move_cursor_right(&mut self)
        requires
            old(self).wf(),
        ensures
            final(self).wf(),
            final(self)@.input == old(self)@.input,
            final(self)@.cursor == if old(self)@.cursor < old(self)@.input.len() {
                old(self)@.cursor + 1
            } else {
                old(self)@.cursor
            },
    {
        // reading the length bounds it by usize::MAX, so the cursor can grow
        let _len = self.input.len();
        let moved = self.cursor_position.saturating_add(1);
        self.cursor_position = self.clamp_cursor(moved);
    }

    fn enter_char(&mut self, new_char: char)
        requires
            old(self).wf(),
        ensures
            final(self).wf(),
            final(self)@.input == old(self)@.input.insert(old(self)@.cursor as int, new_char),
            final(self)@.cursor == old(self)@.cursor + 1,
    {
        self.input.insert(self.cursor_position, new_char);
        self.move_cursor_right();
    }

    fn backspace(&mut self)
        requires
            old(self).wf(),
        ensures
            final(self).wf(),
            old(self)@.cursor > 0 ==> final(self)@ == (TextInputView {
                cursor: (old(self)@.cursor - 1) as nat,
                input: old(self)@.input.remove(old(self)@.cursor - 1),
            }),
            old(self)@.cursor == 0 ==> final(self)@ == old(self)@,
    {
        if self.cursor_position != 0 {
            self.delete_at(self.cursor_position - 1);
            self.move_cursor_left();
        }
    }

    fn delete(&mut self)
        requires
            old(self).wf(),
        ensures
            final(self).wf(),
            final(self)@.cursor == old(self)@.cursor,
            final(self)@.input == without_at(old(self)@.input, old(self)@.cursor as int),
    {
        self.delete_at(self.cursor_position);
    }

    /// Removes the character at `idx`, if there is one; the cursor stays.
    fn delete_at(&mut self, idx: usize)
        ensures
            final(self)@.cursor == old(self)@.cursor,
            final(self)@.input == without_at(old(self)@.input, idx as int),
    {
        if idx < self.input.len() {
            self.input.remove(idx);
        }
    }

    fn clamp_cursor(&self, new_cursor_pos: usize) -> (r: usize)
        ensures
            r == if new_cursor_pos <= self.input@.len() {
                new_cursor_pos as int
            } else {
                self.input@.len() as int
            },
    {
        if new_cursor_pos <= self.input.len() {
            new_cursor_pos
        } else {
            self.input.len()
        }
    }

    fn reset_cursor(&mut self)
        ensures
            final(self)@.cursor == 0,
            final(self)@.input == old(self)@.input,
    {
        self.cursor_position = 0;
    }

    fn clear(&mut self)
        ensures
            final(self).wf(),
            final(self)@.cursor == 0,
            final(self)@.input == Seq::<char>::empty(),
    {
        self.input.clear();
        self.reset_cursor();
    }
}

} // verus!
