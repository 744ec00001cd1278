//! The confirmed prefix of the sequence being typed.
use vstd::prelude::*;

use crate::types::KeyPress;

verus! {

/// The key presses matched since the last reset, oldest first.
pub struct KeyPressBuffer {
    buffer: Vec<KeyPress>,
}

impl View for KeyPressBuffer {
    type V = Seq<KeyPress>;

    closed spec fn view(&self) -> Seq<KeyPress> {
        self.buffer@
    }
}

impl KeyPressBuffer {
    /// An empty buffer.
    pub fn new() -> (r: Self)
        ensures
            r@ == Seq::<KeyPress>::empty(),
    {
        Self { buffer: Vec::new() }
    }

    /// Appends `key`.
    pub fn push(&mut self, key: KeyPress)
        ensures
            final(self)@ == old(self)@.push(key),
    {
        self.buffer.push(key);
    }

    /// Forgets every key.
    pub fn clear(&mut self)
        ensures
            final(self)@ == Seq::<KeyPress>::empty(),
    {
        self.buffer.clear();
    }

    /// The keys, oldest first.
    pub fn get_keypresses(&self) -> (r: &Vec<KeyPress>)
        ensures
            r@ == self@,
    {
        &self.buffer
    }
}

} // verus!
