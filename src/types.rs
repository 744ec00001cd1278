//! The key model (keys, modifiers, key presses) and the mapping model
//! (behaviours, choice sets, mappings, events).
use vstd::prelude::*;

verus! {

/// The modifier held while a key went down.
#[derive(Clone, Copy, Debug, Hash, PartialEq, Eq, Structural)]
pub enum Modifier {
    NoMod,
    ModAlt,
}

/// A logical key; raw codes without a name of their own stay `Unmapped`.
#[derive(Clone, Copy, Debug, Hash, PartialEq, Eq, Structural)]
pub enum Key {
    Key0,
    Key1,
    Key2,
    Key3,
    Key4,
    Key5,
    Key6,
    Key7,
    Key8,
    Key9,
    KeyA,
    KeyB,
    KeyC,
    KeyD,
    KeyE,
    KeyF,
    KeyG,
    KeyH,
    KeyI,
    KeyJ,
    KeyK,
    KeyL,
    KeyM,
    KeyN,
    KeyO,
    KeyP,
    KeyQ,
    KeyR,
    KeyS,
    KeyT,
    KeyU,
    KeyV,
    KeyW,
    KeyX,
    KeyY,
    KeyZ,
    Unmapped(u8),
}

/// The logical key that a raw key code stands for.
pub open spec fn key_of(code: u8) -> Key {
    match code {
        48 => Key::Key0,
        49 => Key::Key1,
        50 => Key::Key2,
        51 => Key::Key3,
        52 => Key::Key4,
        53 => Key::Key5,
        65 => Key::KeyA,
        66 => Key::KeyB,
        67 => Key::KeyC,
        68 => Key::KeyD,
        69 => Key::KeyE,
        70 => Key::KeyF,
        71 => Key::KeyG,
        72 => Key::KeyH,
        73 => Key::KeyI,
        74 => Key::KeyJ,
        75 => Key::KeyK,
        76 => Key::KeyL,
        77 => Key::KeyM,
        78 => Key::KeyN,
        79 => Key::KeyO,
        80 => Key::KeyP,
        81 => Key::KeyQ,
        82 => Key::KeyR,
        83 => Key::KeyS,
        84 => Key::KeyT,
        85 => Key::KeyU,
        86 => Key::KeyV,
        87 => Key::KeyW,
        88 => Key::KeyX,
        89 => Key::KeyY,
        90 => Key::KeyZ,
        _ => Key::Unmapped(code),
    }
}

impl Key {
    /// Normalizes a raw key code: digits `0`-`5` and the letters `A`-`Z`
    /// have keys of their own, every other code becomes `Unmapped(code)`.
    pub fn from_u8(key: u8) -> (r: Key)
        ensures
            r == key_of(key),
    {
        match key {
            48 => Key::Key0,
            49 => Key::Key1,
            50 => Key::Key2,
            51 => Key::Key3,
            52 => Key::Key4,
            53 => Key::Key5,
            65 => Key::KeyA,
            66 => Key::KeyB,
            67 => Key::KeyC,
            68 => Key::KeyD,
            69 => Key::KeyE,
            70 => Key::KeyF,
            71 => Key::KeyG,
            72 => Key::KeyH,
            73 => Key::KeyI,
            74 => Key::KeyJ,
            75 => Key::KeyK,
            76 => Key::KeyL,
            77 => Key::KeyM,
            78 => Key::KeyN,
            79 => Key::KeyO,
            80 => Key::KeyP,
            81 => Key::KeyQ,
            82 => Key::KeyR,
            83 => Key::KeyS,
            84 => Key::KeyT,
            85 => Key::KeyU,
            86 => Key::KeyV,
            87 => Key::KeyW,
            88 => Key::KeyX,
            89 => Key::KeyY,
            90 => Key::KeyZ,
            _ => Key::Unmapped(key),
        }
    }
}

/// The atomic matching unit: a key together with its modifier.
#[derive(Clone, Copy, Debug, Hash, PartialEq, Eq, Structural)]
pub enum KeyPress {
    Mod(Key, Modifier),
}


impl KeyPress {
    /// The key of this press.
    pub open spec fn key_spec(self) -> Key {
        match self {
            KeyPress::Mod(k, _) => k,
        }
    }
}

/// What one specific key press does at one step of a sequence.
#[derive(Clone, Copy, Debug, Hash, PartialEq, Eq)]
pub enum Behaviour<A> {
    /// Keep waiting for the next key of the sequence.
    Timeout(KeyPress),
    /// Deliver the action at once.
    Action(KeyPress, A),
    /// Deliver the action once the quiet period has elapsed.
    ActionOnTimeout(KeyPress, A),
    /// Terminate the whole engine.
    Shutdown(KeyPress),
}

impl<A> Behaviour<A> {
    /// The key press that this behaviour reacts to.
    pub open spec fn press(self) -> KeyPress {
        match self {
            Behaviour::Timeout(k) => k,
            Behaviour::Action(k, _) => k,
            Behaviour::ActionOnTimeout(k, _) => k,
            Behaviour::Shutdown(k) => k,
        }
    }
}

impl<A: Copy> Behaviour<A> {
    /// A `Timeout` behaviour for `key` held with `modifier`.
    pub fn new(key: Key, modifier: Modifier) -> (r: Self)
        ensures
            r == Behaviour::<A>::Timeout(KeyPress::Mod(key, modifier)),
    {
        Behaviour::Timeout(KeyPress::Mod(key, modifier))
    }

    /// An immediate `Action` behaviour for `key` held with `modifier`.
    pub fn a(key: Key, modifier: Modifier, action: A) -> (r: Self)
        ensures
            r == Behaviour::Action(KeyPress::Mod(key, modifier), action),
    {
        Behaviour::Action(KeyPress::Mod(key, modifier), action)
    }

    /// A `Timeout` behaviour for `key` pressed alone.
    pub fn nomod(key: Key) -> (r: Self)
        ensures
            r == Behaviour::<A>::Timeout(KeyPress::Mod(key, Modifier::NoMod)),
    {
        Behaviour::Timeout(KeyPress::Mod(key, Modifier::NoMod))
    }

    /// An immediate `Action` behaviour for `key` pressed alone.
    pub fn nomod_a(key: Key, action: A) -> (r: Self)
        ensures
            r == Behaviour::Action(KeyPress::Mod(key, Modifier::NoMod), action),
    {
        Behaviour::Action(KeyPress::Mod(key, Modifier::NoMod), action)
    }

    /// A `Timeout` behaviour for `key` held with Alt.
    pub fn alt(key: Key) -> (r: Self)
        ensures
            r == Behaviour::<A>::Timeout(KeyPress::Mod(key, Modifier::ModAlt)),
    {
        Behaviour::Timeout(KeyPress::Mod(key, Modifier::ModAlt))
    }

    /// An immediate `Action` behaviour for `key` held with Alt.
    pub fn alt_a(key: Key, action: A) -> (r: Self)
        ensures
            r == Behaviour::Action(KeyPress::Mod(key, Modifier::ModAlt), action),
    {
        Behaviour::Action(KeyPress::Mod(key, Modifier::ModAlt), action)
    }

    /// The key press that this behaviour reacts to.
    pub fn get_key(&self) -> (r: KeyPress)
        ensures
            r == self.press(),
    {
        match self {
            Behaviour::Timeout(key) => *key,
            Behaviour::Action(key, _) => *key,
            Behaviour::ActionOnTimeout(key, _) => *key,
            Behaviour::Shutdown(key) => *key,
        }
    }

    /// The modifier of the key press that this behaviour reacts to.
    pub fn get_modifier(&self) -> (r: &Modifier)
        ensures
            self.press() == KeyPress::Mod(self.press().key_spec(), *r),
    {
        match self {
            Behaviour::Timeout(KeyPress::Mod(_, modifier)) => modifier,
            Behaviour::Action(KeyPress::Mod(_, modifier), _) => modifier,
            Behaviour::ActionOnTimeout(KeyPress::Mod(_, modifier), _) => modifier,
            Behaviour::Shutdown(KeyPress::Mod(_, modifier)) => modifier,
        }
    }
}

/// The position of the first behaviour of `s` that reacts to `key`.
pub open spec fn first_with_press<A>(s: Seq<Behaviour<A>>, key: KeyPress) -> Option<int>
    decreases s.len(),
{
    if s.len() == 0 {
        None
    } else {
        match first_with_press(s.drop_last(), key) {
            Some(i) => Some(i),
            None => if s.last().press() == key {
                Some(s.len() - 1)
            } else {
                None
            },
        }
    }
}

/// A first match found in a prefix is the first match of the whole sequence.
pub proof fn lemma_first_with_press_prefix<A>(s: Seq<Behaviour<A>>, n: int, key: KeyPress)
    requires
        0 <= n <= s.len(),
        first_with_press(s.take(n), key) is Some,
    ensures
        first_with_press(s, key) == first_with_press(s.take(n), key),
    decreases s.len() - n,
{
    if n < s.len() {
        assert(s.take(n + 1).drop_last() == s.take(n));
        lemma_first_with_press_prefix(s, n + 1, key);
    } else {
        assert(s.take(n) == s);
    }
}

/// Every press of `s` differs from the others.
pub open spec fn distinct_presses<A>(s: Seq<Behaviour<A>>) -> bool {
    forall|i: int, j: int|
        0 <= i < s.len() && 0 <= j < s.len() && i != j ==> #[trigger] s[i].press() != #[trigger] s[j].press()
}

/// A choice set: behaviours that may be pressed in any order, any number of
/// times, sharing one tag.
#[derive(Clone, Debug, Hash, PartialEq, Eq)]
pub struct Behaviours<A>(pub Vec<Behaviour<A>>);

impl<A: Copy> Behaviours<A> {
    /// The first member that reacts to `key`, if any.
    pub fn get_mapping(&self, key: &KeyPress) -> (r: Option<&Behaviour<A>>)
        ensures
            match first_with_press(self.0@, *key) {
                Some(i) => r == Some(&self.0@[i]),
                None => r is None,
            },
    {
        let mut i: usize = 0;
        while i < self.0.len()
            invariant
                i <= self.0@.len(),
                first_with_press(self.0@.take(i as int), *key) is None,
            decreases self.0@.len() - i,
        {
            assert(self.0@.take(i + 1).drop_last() == self.0@.take(i as int));
            if self.0[i].get_key() == *key {
                proof {
                    lemma_first_with_press_prefix(self.0@, i + 1, *key);
                }
                return Some(&self.0[i]);
            }
            i = i + 1;
        }
        assert(self.0@.take(i as int) == self.0@);
        None
    }
}

/// One step of a sequence.
#[derive(Clone, Debug, Hash, PartialEq, Eq)]
pub enum Mapping<A, T> {
    /// Exactly one behaviour.
    Single(Behaviour<A>),
    /// A repeatable choice among a set of behaviours, tied to a tag.
    Choice(Behaviours<A>, T),
}

/// Engine lifecycle notices.
#[derive(Clone, Copy, Debug, Hash, PartialEq, Eq, Structural)]
pub enum SystemAction {
    Hello,
    Bye,
}

/// An event delivered to the application.
#[derive(Clone, Debug, Hash, PartialEq, Eq)]
pub enum Event<A, T> {
    /// Engine lifecycle (hooked, unhooked).
    System(SystemAction),
    /// One action.
    Single(A),
    /// The ordered batch of actions of one choice episode, with its tag.
    Multi(T, Vec<A>),
}

/// An event, in the terms of contracts.
pub enum Notice<A, T> {
    System(SystemAction),
    Single(A),
    Multi(T, Seq<A>),
}

impl<A, T> View for Event<A, T> {
    type V = Notice<A, T>;

    open spec fn view(&self) -> Notice<A, T> {
        match self {
            Event::System(s) => Notice::System(*s),
            Event::Single(a) => Notice::Single(*a),
            Event::Multi(t, v) => Notice::Multi(*t, v@),
        }
    }
}

/// The signal that asks the engine to terminate.
pub struct ShutdownAction;

} // verus!
