//! Keyboard state: which keys went down or up since the last frame, and
//! which are held.

use vstd::prelude::*;
use std::collections::HashMap;

verus! {

broadcast use vstd::std_specs::hash::group_hash_axioms;

/// What the keyboard reports of one input event. Keys are named by their
/// key codes.
#[derive(Clone, Copy, Debug, PartialEq, Eq, Structural)]
pub enum KeyEvent {
    /// A key went down, or repeats because it is kept down.
    KeyDown { keycode: i32, repeat: bool },
    /// A key went up.
    KeyUp { keycode: i32 },
    /// Anything else.
    Other,
}

/// Whether `keys` records `keycode` as set.
pub open spec fn is_set(keys: Map<i32, bool>, keycode: i32) -> bool {
    keys.contains_key(keycode) && keys[keycode]
}

/// What a keyboard handler knows.
pub struct Keys {
    /// The keys that went down since the frame began.
    pub pressed: Map<i32, bool>,
    /// The keys that went up since the frame began.
    pub released: Map<i32, bool>,
    /// For each key seen so far, whether it is down.
    pub held: Map<i32, bool>,
}

impl Keys {
    /// No key seen.
    pub open spec fn none() -> Keys {
        Keys { pressed: Map::empty(), released: Map::empty(), held: Map::empty() }
    }

    /// The state once `keycode` has gone down.
    pub open spec fn down(self, keycode: i32) -> Keys {
        Keys {
            pressed: self.pressed.insert(keycode, true),
            released: self.released,
            held: self.held.insert(keycode, true),
        }
    }

    /// The state once `keycode` has gone up.
    pub open spec fn up(self, keycode: i32) -> Keys {
        Keys {
            pressed: self.pressed,
            released: self.released.insert(keycode, true),
            held: self.held.insert(keycode, false),
        }
    }

    /// The state at the start of the next frame.
    pub open spec fn cleared(self) -> Keys {
        Keys { pressed: Map::empty(), released: Map::empty(), held: self.held }
    }

    /// The state after `event`: a key that goes down without merely
    /// repeating counts as down, a key that goes up as up, nothing else
    /// counts.
    pub open spec fn after(self, event: KeyEvent) -> Keys {
        match event {
            KeyEvent::KeyDown { keycode, repeat } => if repeat {
                self
            } else {
                self.down(keycode)
            },
            KeyEvent::KeyUp { keycode } => self.up(keycode),
            KeyEvent::Other => self,
        }
    }
}

/// Keeps track of the keys pressed and released within a frame and of the
/// keys held down across frames.
pub struct KeyboardHandler {
    pressed_keys: HashMap<i32, bool>,
    released_keys: HashMap<i32, bool>,
    held_keys: HashMap<i32, bool>,
}

impl View for KeyboardHandler {
    type V = Keys;

    closed spec fn view(&self) -> Keys {
        Keys { pressed: self.pressed_keys@, released: self.released_keys@, held: self.held_keys@ }
    }
}

impl KeyboardHandler {
    /// A handler that has seen no key.
    pub fn new() -> (handler: KeyboardHandler)
        ensures
            handler@ == Keys::none(),
    {
        KeyboardHandler {
            pressed_keys: HashMap::new(),
            released_keys: HashMap::new(),
            held_keys: HashMap::new(),
        }
    }

    /// Takes note of `event`: a key that goes down and does not merely
    /// repeat is pressed and held, a key that goes up is released and no
    /// longer held.
    pub fn process(&mut self, event: &KeyEvent)
        ensures
            final(self)@ == old(self)@.after(*event),
    {
        match *event {
            KeyEvent::KeyDown { keycode, repeat } => {
                if repeat == false {
                    self.key_down(keycode);
                }
            },
            KeyEvent::KeyUp { keycode } => {
                self.key_up(keycode);
            },
            KeyEvent::Other => (),
        }
    }

    /// Begins a new frame: forgets which keys were pressed and released, not
    /// which are held.
    pub fn clear(&mut self)
        ensures
            final(self)@ == old(self)@.cleared(),
    {
        self.pressed_keys.clear();
        self.released_keys.clear();
    }

    /// Records that the key went down.
    pub fn key_down(&mut self, keycode: i32)
        ensures
            final(self)@ == old(self)@.down(keycode),
    {
        self.pressed_keys.insert(keycode, true);
        self.held_keys.insert(keycode, true);
    }

    /// Records that the key went up.
    pub fn key_up(&mut self, keycode: i32)
        ensures
            final(self)@ == old(self)@.up(keycode),
    {
        self.released_keys.insert(keycode, true);
        self.held_keys.insert(keycode, false);
    }

    /// Whether the key went down since the frame began.
    pub fn was_pressed(&self, keycode: i32) -> (yes: bool)
        ensures
            yes == is_set(self@.pressed, keycode),
    {
        match self.pressed_keys.get(&keycode) {
            Some(state) => *state,
            None => false,
        }
    }

    /// Whether the key went up since the frame began.
    pub fn was_released(&self, keycode: i32) -> (yes: bool)
        ensures
            yes == is_set(self@.released, keycode),
    {
        match self.released_keys.get(&keycode) {
            Some(state) => *state,
            None => false,
        }
    }

    /// Whether the key is down.
    pub fn is_held(&self, keycode: i32) -> (yes: bool)
        ensures
            yes == is_set(self@.held, keycode),
    {
        match self.held_keys.get(&keycode) {
            Some(state) => *state,
            None => false,
        }
    }
}

} // verus!
