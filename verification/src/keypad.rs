//! The sixteen-key CHIP-8 keypad: the mapping from keyboard keys to hex
//! buttons and the held-state of every button.

use vstd::prelude::*;

use crate::input::{ButtonState, InputEvent, KeyboardEventKey};

verus! {

/// One of the sixteen hexadecimal CHIP-8 buttons.
#[derive(Clone, Copy, Debug, PartialEq, Eq, Structural)]
pub enum InputButton {
    /// Button 0.
    Button0,
    /// Button 1.
    Button1,
    /// Button 2.
    Button2,
    /// Button 3.
    Button3,
    /// Button 4.
    Button4,
    /// Button 5.
    Button5,
    /// Button 6.
    Button6,
    /// Button 7.
    Button7,
    /// Button 8.
    Button8,
    /// Button 9.
    Button9,
    /// Button A.
    ButtonA,
    /// Button B.
    ButtonB,
    /// Button C.
    ButtonC,
    /// Button D.
    ButtonD,
    /// Button E.
    ButtonE,
    /// Button F.
    ButtonF,
}

/// The numeric value of a button, 0 through 15.
pub open spec fn spec_button_value(button: InputButton) -> u8 {
    match button {
        InputButton::Button0 => 0,
        InputButton::Button1 => 1,
        InputButton::Button2 => 2,
        InputButton::Button3 => 3,
        InputButton::Button4 => 4,
        InputButton::Button5 => 5,
        InputButton::Button6 => 6,
        InputButton::Button7 => 7,
        InputButton::Button8 => 8,
        InputButton::Button9 => 9,
        InputButton::ButtonA => 10,
        InputButton::ButtonB => 11,
        InputButton::ButtonC => 12,
        InputButton::ButtonD => 13,
        InputButton::ButtonE => 14,
        InputButton::ButtonF => 15,
    }
}

/// The button with the given numeric value, if the value is below 16.
pub open spec fn spec_button_from_value(value: u8) -> Option<InputButton> {
    if value == 0 {
        Some(InputButton::Button0)
    } else if value == 1 {
        Some(InputButton::Button1)
    } else if value == 2 {
        Some(InputButton::Button2)
    } else if value == 3 {
        Some(InputButton::Button3)
    } else if value == 4 {
        Some(InputButton::Button4)
    } else if value == 5 {
        Some(InputButton::Button5)
    } else if value == 6 {
        Some(InputButton::Button6)
    } else if value == 7 {
        Some(InputButton::Button7)
    } else if value == 8 {
        Some(InputButton::Button8)
    } else if value == 9 {
        Some(InputButton::Button9)
    } else if value == 10 {
        Some(InputButton::ButtonA)
    } else if value == 11 {
        Some(InputButton::ButtonB)
    } else if value == 12 {
        Some(InputButton::ButtonC)
    } else if value == 13 {
        Some(InputButton::ButtonD)
    } else if value == 14 {
        Some(InputButton::ButtonE)
    } else if value == 15 {
        Some(InputButton::ButtonF)
    } else {
        None
    }
}

/// The hex button a keyboard key stands for on a QWERTY layout, if any.
pub open spec fn spec_button_from_key(key: KeyboardEventKey) -> Option<InputButton> {
    match key {
        KeyboardEventKey::Number1 => Some(InputButton::Button1),
        KeyboardEventKey::Number2 => Some(InputButton::Button2),
        KeyboardEventKey::Number3 => Some(InputButton::Button3),
        KeyboardEventKey::Number4 => Some(InputButton::ButtonC),
        KeyboardEventKey::Q => Some(InputButton::Button4),
        KeyboardEventKey::W => Some(InputButton::Button5),
        KeyboardEventKey::E => Some(InputButton::Button6),
        KeyboardEventKey::R => Some(InputButton::ButtonD),
        KeyboardEventKey::A => Some(InputButton::Button7),
        KeyboardEventKey::S => Some(InputButton::Button8),
        KeyboardEventKey::D => Some(InputButton::Button9),
        KeyboardEventKey::F => Some(InputButton::ButtonE),
        KeyboardEventKey::Y => Some(InputButton::ButtonA),
        KeyboardEventKey::X => Some(InputButton::Button0),
        KeyboardEventKey::C => Some(InputButton::ButtonB),
        KeyboardEventKey::V => Some(InputButton::ButtonF),
        _ => None,
    }
}

impl InputButton {
    /// The numeric value of the button, 0 through 15.
    pub fn value(self) -> (r: u8)
        ensures
            r == spec_button_value(self),
            r < 16,
    {
        match self {
            InputButton::Button0 => 0,
            InputButton::Button1 => 1,
            InputButton::Button2 => 2,
            InputButton::Button3 => 3,
            InputButton::Button4 => 4,
            InputButton::Button5 => 5,
            InputButton::Button6 => 6,
            InputButton::Button7 => 7,
            InputButton::Button8 => 8,
            InputButton::Button9 => 9,
            InputButton::ButtonA => 10,
            InputButton::ButtonB => 11,
            InputButton::ButtonC => 12,
            InputButton::ButtonD => 13,
            InputButton::ButtonE => 14,
            InputButton::ButtonF => 15,
        }
    }

    /// The button with the given numeric value, or `None` for a value of
    /// 16 or more.
    pub fn from_value(value: u8) -> (r: Option<InputButton>)
        ensures
            r == spec_button_from_value(value),
            value < 16 ==> r is Some,
            value >= 16 ==> r is None,
    {
        match value {
            0 => Some(InputButton::Button0),
            1 => Some(InputButton::Button1),
            2 => Some(InputButton::Button2),
            3 => Some(InputButton::Button3),
            4 => Some(InputButton::Button4),
            5 => Some(InputButton::Button5),
            6 => Some(InputButton::Button6),
            7 => Some(InputButton::Button7),
            8 => Some(InputButton::Button8),
            9 => Some(InputButton::Button9),
            10 => Some(InputButton::ButtonA),
            11 => Some(InputButton::ButtonB),
            12 => Some(InputButton::ButtonC),
            13 => Some(InputButton::ButtonD),
            14 => Some(InputButton::ButtonE),
            15 => Some(InputButton::ButtonF),
            _ => None,
        }
    }

    /// The hex button `key` stands for on a QWERTY layout, or `None` for
    /// a key outside the keypad mapping.
    pub fn from_key(key: KeyboardEventKey) -> (r: Option<InputButton>)
        ensures
            r == spec_button_from_key(key),
    {
        match key {
            KeyboardEventKey::Number1 => Some(InputButton::Button1),
            KeyboardEventKey::Number2 => Some(InputButton::Button2),
            KeyboardEventKey::Number3 => Some(InputButton::Button3),
            KeyboardEventKey::Number4 => Some(InputButton::ButtonC),
            KeyboardEventKey::Q => Some(InputButton::Button4),
            KeyboardEventKey::W => Some(InputButton::Button5),
            KeyboardEventKey::E => Some(InputButton::Button6),
            KeyboardEventKey::R => Some(InputButton::ButtonD),
            KeyboardEventKey::A => Some(InputButton::Button7),
            KeyboardEventKey::S => Some(InputButton::Button8),
            KeyboardEventKey::D => Some(InputButton::Button9),
            KeyboardEventKey::F => Some(InputButton::ButtonE),
            KeyboardEventKey::Y => Some(InputButton::ButtonA),
            KeyboardEventKey::X => Some(InputButton::Button0),
            KeyboardEventKey::C => Some(InputButton::ButtonB),
            KeyboardEventKey::V => Some(InputButton::ButtonF),
            _ => None,
        }
    }
}

/// The held-state of every hex button; buttons never touched count as
/// released.
pub struct KeypadState {
    pressed: Vec<bool>,
}

/// What `KeypadState` becomes after consuming one input event: the state
/// of the mapped button is replaced, and an event whose key maps to no
/// button leaves the keypad unchanged.
pub open spec fn spec_parse_input_event(keys: Seq<bool>, event: InputEvent) -> Seq<bool> {
    match event {
        InputEvent::Keyboard(key, state) => match spec_button_from_key(key) {
            Some(button) => keys.update(
                spec_button_value(button) as int,
                state == ButtonState::Pressed,
            ),
            None => keys,
        },
    }
}

impl KeypadState {
    /// Which buttons are held, indexed by button value.
    pub closed spec fn view(&self) -> Seq<bool> {
        self.pressed@
    }

    /// The keypad always tracks exactly sixteen buttons.
    pub open spec fn wf(&self) -> bool {
        self.view().len() == 16
    }

    /// A keypad with every button released.
    pub fn new() -> (r: KeypadState)
        ensures
            r.wf(),
            forall|i: int| 0 <= i < 16 ==> !r.view()[i],
    {
        let mut pressed: Vec<bool> = Vec::new();
        let mut idx: usize = 0;
        while idx < 16
            invariant
                idx <= 16,
                pressed@.len() == idx,
                forall|i: int| 0 <= i < idx ==> !pressed@[i],
            decreases 16 - idx,
        {
            pressed.push(false);
            idx = idx + 1;
        }
        KeypadState { pressed }
    }

    /// Consumes one input event, updating the mapped button's state and
    /// ignoring events whose key is outside the keypad mapping.
    pub fn parse_input_event(&mut self, event: InputEvent)
        requires
            old(self).wf(),
        ensures
            final(self).wf(),
            final(self).view() == spec_parse_input_event(old(self).view(), event),
    {
        match event {
            InputEvent::Keyboard(key, state) => {
                match InputButton::from_key(key) {
                    Some(button) => {
                        let idx = button.value() as usize;
                        self.pressed[idx] = matches!(state, ButtonState::Pressed);
                    },
                    None => {},
                }
            },
        }
    }

    /// The tracked state of `button`; a button never pressed is released.
    pub fn get_state_for_button(&self, button: InputButton) -> (r: ButtonState)
        requires
            self.wf(),
        ensures
            r == (if self.view()[spec_button_value(button) as int] {
                ButtonState::Pressed
            } else {
                ButtonState::Released
            }),
    {
        if self.pressed[button.value() as usize] {
            ButtonState::Pressed
        } else {
            ButtonState::Released
        }
    }
}

} // verus!
