//! Keyboard chords and editing session state.
//!
//! A [`Key`] is an abstracted key press: an ASCII key code plus control
//! and shift. [`key_from_symbol`] parses the notation the shortcut table
//! is written in: a single printable character, optionally preceded by a
//! caret for control, with shifted punctuation and upper-case letters
//! normalised to their unshifted key plus the shift modifier.

use vstd::prelude::*;
use vstd::string::StrSliceExecFns;

verus! {

/// An ASCII key code.
pub type KeyCode = u32;

/// One abstracted key press.
#[derive(Clone, Copy, Debug, PartialEq, Eq, Structural)]
pub struct Key {
    pub code: KeyCode,
    pub control: bool,
    pub shift: bool,
}

/// The unshifted key under a character, and whether reaching the
/// character needs shift: shifted punctuation maps to its key, letters
/// keep their case for the later case fold.
pub open spec fn unshift(c: char) -> (char, bool) {
    if c == '!' {
        ('1', true)
    } else if c == '@' {
        ('2', true)
    } else if c == '#' {
        ('3', true)
    } else if c == '$' {
        ('4', true)
    } else if c == '%' {
        ('5', true)
    } else if c == '^' {
        ('6', true)
    } else if c == '&' {
        ('7', true)
    } else if c == '*' {
        ('8', true)
    } else if c == '(' {
        ('9', true)
    } else if c == ')' {
        ('0', true)
    } else if c == '_' {
        ('-', true)
    } else if c == '+' {
        ('=', true)
    } else if c == '{' {
        ('[', true)
    } else if c == '}' {
        (']', true)
    } else if c == '|' {
        ('\\', true)
    } else if c == ':' {
        (';', true)
    } else if c == '"' {
        ('\'', true)
    } else if c == '<' {
        (',', true)
    } else if c == '>' {
        ('.', true)
    } else if c == '?' {
        ('/', true)
    } else if c == '~' {
        ('`', true)
    } else {
        (c, false)
    }
}

/// Folds an upper-case ASCII letter to lower case, shift set.
pub open spec fn fold_case(c: char, shift: bool) -> (char, bool) {
    if 'A' <= c <= 'Z' {
        ((c as u8 + 32) as char, true)
    } else {
        (c, shift)
    }
}

/// The key a symbol names: one character, or a caret followed by one
/// character for control; `None` for any other shape or a character
/// outside printable ASCII.
pub open spec fn spec_key_from_symbol(s: Seq<char>) -> Option<Key> {
    let (c0, ctrl) = if s.len() == 1 {
        (s[0], false)
    } else if s.len() == 2 && s[0] == '^' {
        (s[1], true)
    } else {
        ('\u{0}', false)
    };
    if s.len() == 0 || s.len() > 2 || (s.len() == 2 && s[0] != '^') {
        None
    } else {
        let (c1, shift1) = unshift(c0);
        let (c2, shift2) = fold_case(c1, shift1);
        if 0x20 <= c2 as u32 <= 0x7e {
            Some(Key { code: c2 as u32, control: ctrl, shift: shift2 })
        } else {
            None
        }
    }
}

fn unshift_exec(c: char) -> (r: (char, bool))
    ensures
        r == unshift(c),
{
    match c {
        '!' => ('1', true),
        '@' => ('2', true),
        '#' => ('3', true),
        '$' => ('4', true),
        '%' => ('5', true),
        '^' => ('6', true),
        '&' => ('7', true),
        '*' => ('8', true),
        '(' => ('9', true),
        ')' => ('0', true),
        '_' => ('-', true),
        '+' => ('=', true),
        '{' => ('[', true),
        '}' => (']', true),
        '|' => ('\\', true),
        ':' => (';', true),
        '"' => ('\'', true),
        '<' => (',', true),
        '>' => ('.', true),
        '?' => ('/', true),
        '~' => ('`', true),
        _ => (c, false),
    }
}

pub fn key_from_symbol(symbol: &str) -> (r: Option<Key>)
    ensures
        r == spec_key_from_symbol(symbol@),
{
    let len = symbol.unicode_len();
    let (c0, ctrl): (char, bool) = if len == 1 {
        (symbol.get_char(0), false)
    } else if len == 2 {
        if symbol.get_char(0) == '^' {
            (symbol.get_char(1), true)
        } else {
            return None;
        }
    } else {
        return None;
    };

    let (c1, shift1) = unshift_exec(c0);
    let (c2, shift2): (char, bool) = if c1 >= 'A' && c1 <= 'Z' {
        (((c1 as u8) + 32) as char, true)
    } else {
        (c1, shift1)
    };

    let code = c2 as u32;
    if code >= 0x20 && code <= 0x7e {
        Some(Key { code, control: ctrl, shift: shift2 })
    } else {
        None
    }
}

/// The key a symbol names; the symbol must be well-formed.
pub fn k(symbol: &str) -> (r: Key)
    requires
        spec_key_from_symbol(symbol@) is Some,
    ensures
        Some(r) == spec_key_from_symbol(symbol@),
{
    match key_from_symbol(symbol) {
        Some(key) => key,
        None => unreached(),
    }
}

/// Whether playback is stopped, running or recording.
#[derive(Clone, Copy, Debug, PartialEq, Eq, Structural)]
pub enum PlayingState {
    Stopped,
    Playing,
    Recording,
}

impl PlayingState {
    /// Whether audio is advancing: playing or recording.
    pub fn is_playing(&self) -> (r: bool)
        ensures
            r == !(self is Stopped),
    {
        match self {
            PlayingState::Stopped => false,
            PlayingState::Playing => true,
            PlayingState::Recording => true,
        }
    }

    /// Toggles between stopped and playing; recording stops.
    pub fn play_pause(&mut self)
        ensures
            *final(self) == (match *old(self) {
                PlayingState::Playing => PlayingState::Stopped,
                PlayingState::Stopped => PlayingState::Playing,
                PlayingState::Recording => PlayingState::Stopped,
            }),
    {
        match self {
            PlayingState::Playing => *self = PlayingState::Stopped,
            PlayingState::Stopped => *self = PlayingState::Playing,
            PlayingState::Recording => *self = PlayingState::Stopped,
        }
    }
}

/// Which part of the editor currently owns the keyboard.
#[derive(Clone, Debug, PartialEq, Eq, Structural)]
pub enum EditingContext {
    PianoRoll,
    InputField(usize),
    CommandPallet,
}

impl EditingContext {
    /// Whether keystrokes go to this context instead of the shortcut
    /// table.
    pub fn grabs_keyboard(&self) -> (r: bool)
        ensures
            r == (self is InputField || self is CommandPallet),
    {
        match self {
            EditingContext::InputField(_) => true,
            EditingContext::CommandPallet => true,
            _ => false,
        }
    }
}

/// The pending multi-key state of the shortcut dispatcher: the keys of an
/// unfinished chord and the typed-in repeat count.
pub struct ShortcutsBuffer {
    pub keys: Vec<Key>,
    pub amount_modifier: Option<i32>,
}

impl ShortcutsBuffer {
    pub fn new() -> (r: Self)
        ensures
            r.keys@ == Seq::<Key>::empty(),
            r.amount_modifier is None,
    {
        ShortcutsBuffer { keys: Vec::new(), amount_modifier: None }
    }

    /// Drops any pending chord and repeat count.
    pub fn clear(&mut self)
        ensures
            final(self).keys@ == Seq::<Key>::empty(),
            final(self).amount_modifier is None,
    {
        self.keys.clear();
        self.amount_modifier = None;
    }

    /// The typed-in repeat count, defaulting to one.
    pub fn get_amount(&self) -> (r: i32)
        ensures
            r == (match self.amount_modifier {
                Some(amount) => amount,
                None => 1i32,
            }),
    {
        match self.amount_modifier {
            Some(amount) => amount,
            None => 1,
        }
    }

    /// Extends the repeat count by one decimal digit; once the count
    /// passes ten thousand in magnitude further digits are ignored.
    pub fn push_amount_digit(&mut self, num: i32)
        requires
            0 <= num <= 9,
        ensures
            final(self).keys == old(self).keys,
            final(self).amount_modifier == (match old(self).amount_modifier {
                Some(current) => if current > 10000 || current < -10000 {
                    Some(current)
                } else {
                    Some((current * 10 + num) as i32)
                },
                None => Some(num),
            }),
    {
        match self.amount_modifier {
            Some(current) => {
                if current > 10000 || current < -10000 {
                } else {
                    self.amount_modifier = Some(current * 10 + num);
                }
            },
            None => {
                self.amount_modifier = Some(num);
            },
        }
    }
}

} // verus!
