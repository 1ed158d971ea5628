//! What the player types: the guess for a hidden number, taken key by key
//! and judged when Enter is pressed.

use crate::text::decimal;
use vstd::prelude::*;
use vstd::string::StringExecFns;

verus! {

/// `String::push` of the standard library: appends one character.
pub assume_specification[ String::push ](s: &mut String, c: char)
    ensures
        final(s)@ == old(s)@.push(c),
;

/// `String::clear` of the standard library: removes all characters.
pub assume_specification[ String::clear ](s: &mut String)
    ensures
        final(s)@ == Seq::<char>::empty(),
;

/// The keys that matter to the puzzle; every other key is `Other`.
#[derive(Debug, Clone, Copy, PartialEq, Eq, Structural)]
pub enum Key {
    Enter,
    Minus,
    Digit0,
    Digit1,
    Digit2,
    Digit3,
    Digit4,
    Digit5,
    Digit6,
    Digit7,
    Digit8,
    Digit9,
    Other,
}

/// The character that a key types into a guess, if it types one.
pub open spec fn key_char(key: Key) -> Option<char> {
    match key {
        Key::Minus => Some('-'),
        Key::Digit0 => Some('0'),
        Key::Digit1 => Some('1'),
        Key::Digit2 => Some('2'),
        Key::Digit3 => Some('3'),
        Key::Digit4 => Some('4'),
        Key::Digit5 => Some('5'),
        Key::Digit6 => Some('6'),
        Key::Digit7 => Some('7'),
        Key::Digit8 => Some('8'),
        Key::Digit9 => Some('9'),
        _ => None,
    }
}

/// The character that a key types into a guess: the minus sign or a digit.
pub fn key_to_digit(key: Key) -> (digit: Option<char>)
    ensures
        digit == key_char(key),
{
    match key {
        Key::Minus => Some('-'),
        Key::Digit0 => Some('0'),
        Key::Digit1 => Some('1'),
        Key::Digit2 => Some('2'),
        Key::Digit3 => Some('3'),
        Key::Digit4 => Some('4'),
        Key::Digit5 => Some('5'),
        Key::Digit6 => Some('6'),
        Key::Digit7 => Some('7'),
        Key::Digit8 => Some('8'),
        Key::Digit9 => Some('9'),
        _ => None,
    }
}

/// What follows from a key press.
#[derive(Debug, Clone, Copy, PartialEq, Eq, Structural)]
pub enum KeyEffect {
    /// Enter on a guess that matches: the hidden number of this entity, if
    /// one was selected, is to be shown.
    Correct(Option<u64>),
    /// Enter on a guess that does not match.
    Incorrect,
    /// The character was added to the guess.
    Typed(char),
    /// The key does nothing.
    Ignored,
}

/// The mathematical content of a [`PlayerKeyboardInput`].
pub struct PlayerKeyboardInputView {
    pub enabled: bool,
    pub entity: Option<u64>,
    pub curr_input: Seq<char>,
    pub target_digit: Seq<char>,
}

impl PlayerKeyboardInputView {
    /// The state in which nothing is selected and nothing typed.
    pub open spec fn idle() -> PlayerKeyboardInputView {
        PlayerKeyboardInputView {
            enabled: false,
            entity: None,
            curr_input: Seq::empty(),
            target_digit: Seq::empty(),
        }
    }

    /// The state after `key` is pressed. Enter ends the guess and returns to
    /// the idle state; a digit or the minus sign is added to the guess; any
    /// other key leaves the state as it is.
    pub open spec fn after_key(self, key: Key) -> PlayerKeyboardInputView {
        if key == Key::Enter {
            Self::idle()
        } else {
            match key_char(key) {
                Some(c) => PlayerKeyboardInputView {
                    enabled: self.enabled,
                    entity: self.entity,
                    curr_input: self.curr_input.push(c),
                    target_digit: self.target_digit,
                },
                None => self,
            }
        }
    }

    /// What follows from pressing `key` in this state. Enter judges the
    /// guess: it is correct exactly when it equals the expected text.
    pub open spec fn effect_of(self, key: Key) -> KeyEffect {
        if key == Key::Enter {
            if self.curr_input == self.target_digit {
                KeyEffect::Correct(self.entity)
            } else {
                KeyEffect::Incorrect
            }
        } else {
            match key_char(key) {
                Some(c) => KeyEffect::Typed(c),
                None => KeyEffect::Ignored,
            }
        }
    }

    /// The state after the hidden number `number` of `entity` is selected.
    pub open spec fn after_select(self, entity: u64, number: i32) -> PlayerKeyboardInputView {
        PlayerKeyboardInputView {
            enabled: true,
            entity: Some(entity),
            curr_input: self.curr_input,
            target_digit: decimal(number as int),
        }
    }
}

/// The guess in progress: whether a hidden number is selected, the entity
/// that shows it, what was typed so far and the text that is expected.
pub struct PlayerKeyboardInput {
    pub enabled: bool,
    pub entity: Option<u64>,
    pub curr_input: String,
    pub target_digit: String,
}

impl View for PlayerKeyboardInput {
    type V = PlayerKeyboardInputView;

    open spec fn view(&self) -> PlayerKeyboardInputView {
        PlayerKeyboardInputView {
            enabled: self.enabled,
            entity: self.entity,
            curr_input: self.curr_input@,
            target_digit: self.target_digit@,
        }
    }
}

impl Default for PlayerKeyboardInput {
    fn default() -> (state: PlayerKeyboardInput)
        ensures
            state@ == PlayerKeyboardInputView::idle(),
    {
        PlayerKeyboardInput {
            enabled: false,
            entity: None,
            curr_input: String::new(),
            target_digit: String::new(),
        }
    }
}

impl PlayerKeyboardInput {
    /// Selects the hidden number `number` shown by `entity` as the one to
    /// guess.
    pub fn select(&mut self, entity: u64, number: i32)
        ensures
            final(self)@ == old(self)@.after_select(entity, number),
    {
        self.entity = Some(entity);
        self.target_digit = crate::symbol::Symbol::Number(number).to_string();
        self.enabled = true;
    }

    /// Takes one key press and says what follows from it.
    pub fn press(&mut self, key: Key) -> (effect: KeyEffect)
        ensures
            final(self)@ == old(self)@.after_key(key),
            effect == old(self)@.effect_of(key),
    {
        if key == Key::Enter {
            let effect = if self.curr_input.eq(&self.target_digit) {
                KeyEffect::Correct(self.entity)
            } else {
                KeyEffect::Incorrect
            };
            self.curr_input.clear();
            self.target_digit.clear();
            self.entity = None;
            self.enabled = false;
            return effect;
        }
        match key_to_digit(key) {
            Some(digit) => {
                self.curr_input.push(digit);
                KeyEffect::Typed(digit)
            },
            None => KeyEffect::Ignored,
        }
    }

    /// The line that shows the guess to the player.
    pub fn prompt(&self) -> (line: String)
        ensures
            line@ == "Input: "@ + self@.curr_input,
    {
        let mut line = String::from_str("Input: ");
        line.append(self.curr_input.as_str());
        line
    }
}

} // verus!
