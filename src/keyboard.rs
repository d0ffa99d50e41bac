//! Keyboard input: raw scancode bytes go through the scancode-set-1 decoder
//! of pc-keyboard, which keeps its state across interrupts and now and then
//! yields a key.

use vstd::prelude::*;
use pc_keyboard::layouts::Us104Key;
use pc_keyboard::{DecodedKey, HandleControl, KeyCode, KeyEvent, Keyboard, ScancodeSet1};

verus! {

#[verifier::external_type_specification]
#[verifier::external_body]
pub struct ExKeyEvent(KeyEvent);

#[verifier::external_type_specification]
#[verifier::external_body]
pub struct ExKeyCode(KeyCode);

#[verifier::external_type_specification]
#[verifier::external_body]
pub struct ExKeyboardError(pc_keyboard::Error);

/// A decoded key: a character, or a key that has none.
#[derive(Debug, Clone, Copy)]
pub enum KeyInput {
    Unicode(char),
    RawKey(KeyCode),
}

/// The scancode decoder that persists across keyboard interrupts: a
/// pc_keyboard decoder, held here because its type cannot be declared to
/// the verifier (its parameters are bound by the crate's own traits).
#[verifier::external_body]
pub struct KeyboardDecoder {
    keyboard: Keyboard<Us104Key, ScancodeSet1>,
}

/// Relies on pc_keyboard::Keyboard::new: a decoder in its start state, US
/// 104-key layout, scancode set 1, control keys passed through as keys.
#[verifier::external_body]
fn new_keyboard() -> KeyboardDecoder {
    KeyboardDecoder { keyboard: Keyboard::new(Us104Key, ScancodeSet1, HandleControl::Ignore) }
}

/// Relies on pc_keyboard::Keyboard::add_byte: one step of the scancode state
/// machine, which may complete a key event.
#[verifier::external_body]
fn add_byte(decoder: &mut KeyboardDecoder, byte: u8) -> Result<
    Option<KeyEvent>,
    pc_keyboard::Error,
> {
    decoder.keyboard.add_byte(byte)
}

/// Relies on pc_keyboard::Keyboard::process_keyevent: applies a key event
/// to the modifier state and maps it through the layout; each variant of
/// its result is carried over as it is.
#[verifier::external_body]
fn process_keyevent(decoder: &mut KeyboardDecoder, event: KeyEvent) -> Option<
    KeyInput,
> {
    match decoder.keyboard.process_keyevent(event) {
        Some(DecodedKey::Unicode(c)) => Some(KeyInput::Unicode(c)),
        Some(DecodedKey::RawKey(k)) => Some(KeyInput::RawKey(k)),
        None => None,
    }
}

impl KeyboardDecoder {
    /// A decoder in its start state.
    pub fn new() -> (r: KeyboardDecoder) {
        new_keyboard()
    }

    /// Feeds one scancode byte. A key comes out only when the byte completes
    /// a key event that the layout maps to a key; an incomplete or malformed
    /// sequence yields nothing and raises no error.
    pub fn add_scancode(&mut self, scancode: u8) -> (r: Option<KeyInput>) {
        match add_byte(self, scancode) {
            Ok(Some(event)) => process_keyevent(self, event),
            _ => None,
        }
    }
}

} // verus!
