use vstd::prelude::*;
use crate::input::edges::EdgeSet;
use crate::input::state::{keys_of, Key};

verus! {

/// A keyboard tracker whose edges are symmetric: a key counts as pressed
/// only if it was up, and as released only if it was held.
pub struct Keyboard {
    keys: EdgeSet,
}

impl Keyboard {
    /// The keys that are held.
    pub closed spec fn pressed_keys(&self) -> Set<Key> {
        keys_of(self.keys.down())
    }

    /// The keys that went down since the edge was cleared.
    pub closed spec fn just_pressed(&self) -> Set<Key> {
        keys_of(self.keys.pressed())
    }

    /// The keys that went up since the edge was cleared.
    pub closed spec fn just_released(&self) -> Set<Key> {
        keys_of(self.keys.released())
    }

    pub fn new() -> (keyboard: Self)
        ensures
            keyboard.pressed_keys() == Set::<Key>::empty(),
            keyboard.just_pressed() == Set::<Key>::empty(),
            keyboard.just_released() == Set::<Key>::empty(),
    {
        let keyboard = Keyboard { keys: EdgeSet::new() };
        assert(keys_of(Set::<u64>::empty()) =~= Set::<Key>::empty());
        keyboard
    }

    /// Records that `key` went down or up. A "down" of a held key and an
    /// "up" of a key that is not held change nothing.
    pub fn handle_key_event(&mut self, key: Key, is_pressed: bool)
        ensures
            is_pressed && !old(self).pressed_keys().contains(key) ==> {
                &&& final(self).pressed_keys() == old(self).pressed_keys().insert(key)
                &&& final(self).just_pressed() == old(self).just_pressed().insert(key)
                &&& final(self).just_released() == old(self).just_released()
            },
            !is_pressed && old(self).pressed_keys().contains(key) ==> {
                &&& final(self).pressed_keys() == old(self).pressed_keys().remove(key)
                &&& final(self).just_pressed() == old(self).just_pressed()
                &&& final(self).just_released() == old(self).just_released().insert(key)
            },
            is_pressed == old(self).pressed_keys().contains(key) ==> {
                &&& final(self).pressed_keys() == old(self).pressed_keys()
                &&& final(self).just_pressed() == old(self).just_pressed()
                &&& final(self).just_released() == old(self).just_released()
            },
    {
        let code = key.code();
        if is_pressed {
            self.keys.press(code);
            proof {
                assert(keys_of(old(self).keys.down().insert(code)) =~= keys_of(
                    old(self).keys.down(),
                ).insert(key));
                assert(keys_of(old(self).keys.pressed().insert(code)) =~= keys_of(
                    old(self).keys.pressed(),
                ).insert(key));
                if old(self).pressed_keys().contains(key) {
                    assert(old(self).keys.down().insert(code) =~= old(self).keys.down());
                }
            }
        } else {
            self.keys.release_if_down(code);
            proof {
                assert(keys_of(old(self).keys.down().remove(code)) =~= keys_of(
                    old(self).keys.down(),
                ).remove(key));
                assert(keys_of(old(self).keys.released().insert(code)) =~= keys_of(
                    old(self).keys.released(),
                ).insert(key));
                if !old(self).pressed_keys().contains(key) {
                    assert(old(self).keys.down().remove(code) =~= old(self).keys.down());
                }
            }
        }
    }

    pub fn is_pressed(&self, key: Key) -> (b: bool)
        ensures
            b == self.pressed_keys().contains(key),
    {
        self.keys.is_down(key.code())
    }

    pub fn was_just_pressed(&self, key: Key) -> (b: bool)
        ensures
            b == self.just_pressed().contains(key),
    {
        self.keys.was_pressed(key.code())
    }

    pub fn was_just_released(&self, key: Key) -> (b: bool)
        ensures
            b == self.just_released().contains(key),
    {
        self.keys.was_released(key.code())
    }

    pub fn clear_just_pressed(&mut self)
        ensures
            final(self).pressed_keys() == old(self).pressed_keys(),
            final(self).just_pressed() == Set::<Key>::empty(),
            final(self).just_released() == old(self).just_released(),
    {
        self.keys.clear_pressed();
        assert(keys_of(Set::<u64>::empty()) =~= Set::<Key>::empty());
    }

    pub fn clear_just_released(&mut self)
        ensures
            final(self).pressed_keys() == old(self).pressed_keys(),
            final(self).just_pressed() == old(self).just_pressed(),
            final(self).just_released() == Set::<Key>::empty(),
    {
        self.keys.clear_released();
        assert(keys_of(Set::<u64>::empty()) =~= Set::<Key>::empty());
    }

    /// Clears both edges and keeps what is held.
    pub fn clear_frame_state(&mut self)
        ensures
            final(self).pressed_keys() == old(self).pressed_keys(),
            final(self).just_pressed() == Set::<Key>::empty(),
            final(self).just_released() == Set::<Key>::empty(),
    {
        self.keys.clear_pressed();
        self.keys.clear_released();
        assert(keys_of(Set::<u64>::empty()) =~= Set::<Key>::empty());
    }
}

} // verus!
