use vstd::prelude::*;

verus! {

/// The 16-key input device, modelled as at most one designated pressed key.
#[derive(Debug)]
pub struct Keyboard {
    key_pressed: Option<u8>,
}

impl View for Keyboard {
    type V = Option<u8>;

    closed spec fn view(&self) -> Option<u8> {
        self.key_pressed
    }
}

impl Keyboard {
    /// Fresh keyboard: no key pressed.
    pub fn new() -> (r: Keyboard)
        ensures
            r@ == Option::<u8>::None,
    {
        Keyboard { key_pressed: None }
    }

    /// Record which key, if any, is currently pressed.
    pub fn set_key_pressed(&mut self, key: Option<u8>)
        ensures
            final(self)@ == key,
    {
        self.key_pressed = key;
    }

    /// The currently recorded pressed key, if any.
    pub fn get_key_pressed(&self) -> (r: Option<u8>)
        ensures
            r == self@,
    {
        self.key_pressed
    }

    /// Whether `key_code` is the currently recorded pressed key.
    pub fn is_key_pressed(&self, key_code: u8) -> (r: bool)
        ensures
            r == (self@ == Some(key_code)),
    {
        match self.key_pressed {
            Some(k) => k == key_code,
            None => false,
        }
    }
}

} // verus!
