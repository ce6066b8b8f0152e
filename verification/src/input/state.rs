use vstd::prelude::*;
use crate::input::edges::EdgeSet;

verus! {

/// Mouse button identifiers.
#[derive(Debug, Clone, Copy, PartialEq, Eq, Hash, Structural)]
pub enum MouseButton {
    Left,
    Right,
    Middle,
}

impl MouseButton {
    /// The number that stands for the button in an [`EdgeSet`].
    pub open spec fn code_spec(self) -> u64 {
        match self {
            MouseButton::Left => 0,
            MouseButton::Right => 1,
            MouseButton::Middle => 2,
        }
    }

    pub fn code(self) -> (code: u64)
        ensures
            code == self.code_spec(),
    {
        match self {
            MouseButton::Left => 0,
            MouseButton::Right => 1,
            MouseButton::Middle => 2,
        }
    }
}

/// A key by its physical position: the eight movement keys and Escape by
/// name, every other key by a number of the caller's choice.
#[derive(Debug, Clone, Copy, PartialEq, Eq, Hash, Structural)]
pub enum Key {
    W,
    A,
    S,
    D,
    ArrowUp,
    ArrowDown,
    ArrowLeft,
    ArrowRight,
    Escape,
    Other(u32),
}

impl Key {
    /// The number that stands for the key in an [`EdgeSet`]; different keys
    /// have different numbers.
    pub open spec fn code_spec(self) -> u64 {
        match self {
            Key::W => 0,
            Key::A => 1,
            Key::S => 2,
            Key::D => 3,
            Key::ArrowUp => 4,
            Key::ArrowDown => 5,
            Key::ArrowLeft => 6,
            Key::ArrowRight => 7,
            Key::Escape => 8,
            Key::Other(n) => (9 + n) as u64,
        }
    }

    pub fn code(self) -> (code: u64)
        ensures
            code == self.code_spec(),
    {
        match self {
            Key::W => 0,
            Key::A => 1,
            Key::S => 2,
            Key::D => 3,
            Key::ArrowUp => 4,
            Key::ArrowDown => 5,
            Key::ArrowLeft => 6,
            Key::ArrowRight => 7,
            Key::Escape => 8,
            Key::Other(n) => 9 + (n as u64),
        }
    }
}

/// The keys whose codes are in `codes`.
pub open spec fn keys_of(codes: Set<u64>) -> Set<Key> {
    Set::new(|key: Key| codes.contains(key.code_spec()))
}

/// The mouse buttons whose codes are in `codes`.
pub open spec fn buttons_of(codes: Set<u64>) -> Set<MouseButton> {
    Set::new(|button: MouseButton| codes.contains(button.code_spec()))
}

/// The mathematical state of the input: for keys and for mouse buttons, the
/// ones held and the ones that went down or up in this frame.
pub struct InputState {
    pub keys_down: Set<Key>,
    pub keys_pressed: Set<Key>,
    pub keys_released: Set<Key>,
    pub buttons_down: Set<MouseButton>,
    pub buttons_pressed: Set<MouseButton>,
    pub buttons_released: Set<MouseButton>,
}

/// One for true, zero for false.
pub open spec fn unit(b: bool) -> int {
    if b {
        1
    } else {
        0
    }
}

impl InputState {
    /// Nothing held, no edges.
    pub open spec fn empty() -> Self {
        InputState {
            keys_down: Set::empty(),
            keys_pressed: Set::empty(),
            keys_released: Set::empty(),
            buttons_down: Set::empty(),
            buttons_pressed: Set::empty(),
            buttons_released: Set::empty(),
        }
    }

    /// The start of a frame clears the edges and keeps what is held.
    pub open spec fn begin_frame(self) -> Self {
        InputState {
            keys_pressed: Set::empty(),
            keys_released: Set::empty(),
            buttons_pressed: Set::empty(),
            buttons_released: Set::empty(),
            ..self
        }
    }

    /// A key goes down: it is held from now on, and counts as pressed in
    /// this frame unless it was held already.
    pub open spec fn key_pressed(self, key: Key) -> Self {
        InputState {
            keys_down: self.keys_down.insert(key),
            keys_pressed: if self.keys_down.contains(key) {
                self.keys_pressed
            } else {
                self.keys_pressed.insert(key)
            },
            ..self
        }
    }

    /// A key goes up: it is no longer held, and counts as released in this
    /// frame, also when it was not held.
    pub open spec fn key_released(self, key: Key) -> Self {
        InputState {
            keys_down: self.keys_down.remove(key),
            keys_released: self.keys_released.insert(key),
            ..self
        }
    }

    /// A mouse button goes down, with the same rule as a key.
    pub open spec fn button_pressed(self, button: MouseButton) -> Self {
        InputState {
            buttons_down: self.buttons_down.insert(button),
            buttons_pressed: if self.buttons_down.contains(button) {
                self.buttons_pressed
            } else {
                self.buttons_pressed.insert(button)
            },
            ..self
        }
    }

    /// A mouse button goes up, with the same rule as a key.
    pub open spec fn button_released(self, button: MouseButton) -> Self {
        InputState {
            buttons_down: self.buttons_down.remove(button),
            buttons_released: self.buttons_released.insert(button),
            ..self
        }
    }

    /// The movement that the held keys ask for, before it is scaled to unit
    /// length: on each axis, one step for a held key of the positive
    /// direction (D or right; W or up) less one for a held key of the
    /// negative direction (A or left; S or down).
    pub open spec fn movement(self) -> (int, int) {
        let up = self.keys_down.contains(Key::W) || self.keys_down.contains(Key::ArrowUp);
        let down = self.keys_down.contains(Key::S) || self.keys_down.contains(Key::ArrowDown);
        let left = self.keys_down.contains(Key::A) || self.keys_down.contains(Key::ArrowLeft);
        let right = self.keys_down.contains(Key::D) || self.keys_down.contains(Key::ArrowRight);
        (unit(right) - unit(left), unit(up) - unit(down))
    }
}

/// With no key held the movement is zero; a held key together with a held
/// key of the opposite direction gives zero on that axis, so that W and S
/// alone, or A and D alone, give the zero vector.
pub proof fn law_opposing_keys_cancel(s: InputState)
    ensures
        s.keys_down == Set::<Key>::empty() ==> s.movement() == (0int, 0int),
        ({
            &&& s.keys_down.contains(Key::W) || s.keys_down.contains(Key::ArrowUp)
            &&& s.keys_down.contains(Key::S) || s.keys_down.contains(Key::ArrowDown)
        }) ==> s.movement().1 == 0,
        ({
            &&& s.keys_down.contains(Key::A) || s.keys_down.contains(Key::ArrowLeft)
            &&& s.keys_down.contains(Key::D) || s.keys_down.contains(Key::ArrowRight)
        }) ==> s.movement().0 == 0,
        s.keys_down == set![Key::W, Key::S] ==> s.movement() == (0int, 0int),
        s.keys_down == set![Key::A, Key::D] ==> s.movement() == (0int, 0int),
        -1 <= s.movement().0 <= 1,
        -1 <= s.movement().1 <= 1,
{
}

/// Input state tracking for keyboard and mouse buttons.
pub struct Input {
    keys: EdgeSet,
    buttons: EdgeSet,
}

impl Input {
    pub closed spec fn view(&self) -> InputState {
        InputState {
            keys_down: keys_of(self.keys.down()),
            keys_pressed: keys_of(self.keys.pressed()),
            keys_released: keys_of(self.keys.released()),
            buttons_down: buttons_of(self.buttons.down()),
            buttons_pressed: buttons_of(self.buttons.pressed()),
            buttons_released: buttons_of(self.buttons.released()),
        }
    }

    /// Nothing held, no edges.
    pub fn new() -> (input: Self)
        ensures
            input@ == InputState::empty(),
    {
        let input = Input { keys: EdgeSet::new(), buttons: EdgeSet::new() };
        assert(keys_of(Set::<u64>::empty()) =~= Set::<Key>::empty());
        assert(buttons_of(Set::<u64>::empty()) =~= Set::<MouseButton>::empty());
        input
    }

    /// Starts a frame: clears the edges of keys and buttons.
    pub fn begin_frame(&mut self)
        ensures
            final(self)@ == old(self)@.begin_frame(),
    {
        self.keys.clear_pressed();
        self.keys.clear_released();
        self.buttons.clear_pressed();
        self.buttons.clear_released();
        assert(keys_of(Set::<u64>::empty()) =~= Set::<Key>::empty());
        assert(buttons_of(Set::<u64>::empty()) =~= Set::<MouseButton>::empty());
    }

    /// The key went down.
    pub fn on_key_pressed(&mut self, key: Key)
        ensures
            final(self)@ == old(self)@.key_pressed(key),
    {
        self.keys.press(key.code());
        proof {
            let code = key.code_spec();
            assert(keys_of(old(self).keys.down().insert(code)) =~= keys_of(
                old(self).keys.down(),
            ).insert(key));
            assert(keys_of(old(self).keys.pressed().insert(code)) =~= keys_of(
                old(self).keys.pressed(),
            ).insert(key));
        }
    }

    /// The key went up.
    pub fn on_key_released(&mut self, key: Key)
        ensures
            final(self)@ == old(self)@.key_released(key),
    {
        self.keys.release(key.code());
        proof {
            let code = key.code_spec();
            assert(keys_of(old(self).keys.down().remove(code)) =~= keys_of(
                old(self).keys.down(),
            ).remove(key));
            assert(keys_of(old(self).keys.released().insert(code)) =~= keys_of(
                old(self).keys.released(),
            ).insert(key));
        }
    }

    /// Whether the key is held.
    pub fn key_down(&self, key: Key) -> (b: bool)
        ensures
            b == self@.keys_down.contains(key),
    {
        self.keys.is_down(key.code())
    }

    /// Whether the key went down in this frame.
    pub fn key_pressed(&self, key: Key) -> (b: bool)
        ensures
            b == self@.keys_pressed.contains(key),
    {
        self.keys.was_pressed(key.code())
    }

    /// Whether the key went up in this frame.
    pub fn key_released(&self, key: Key) -> (b: bool)
        ensures
            b == self@.keys_released.contains(key),
    {
        self.keys.was_released(key.code())
    }

    /// The movement that the held keys ask for, each axis in -1, 0 or 1; the
    /// caller scales it to unit length unless it is zero.
    pub fn get_movement_input(&self) -> (dir: (i8, i8))
        ensures
            (dir.0 as int, dir.1 as int) == self@.movement(),
    {
        let mut x: i8 = 0;
        let mut y: i8 = 0;
        if self.key_down(Key::W) || self.key_down(Key::ArrowUp) {
            y = y + 1;
        }
        if self.key_down(Key::S) || self.key_down(Key::ArrowDown) {
            y = y - 1;
        }
        if self.key_down(Key::A) || self.key_down(Key::ArrowLeft) {
            x = x - 1;
        }
        if self.key_down(Key::D) || self.key_down(Key::ArrowRight) {
            x = x + 1;
        }
        (x, y)
    }

    /// The mouse button went down.
    pub fn on_mouse_button_pressed(&mut self, button: MouseButton)
        ensures
            final(self)@ == old(self)@.button_pressed(button),
    {
        self.buttons.press(button.code());
        proof {
            let code = button.code_spec();
            assert(buttons_of(old(self).buttons.down().insert(code)) =~= buttons_of(
                old(self).buttons.down(),
            ).insert(button));
            assert(buttons_of(old(self).buttons.pressed().insert(code)) =~= buttons_of(
                old(self).buttons.pressed(),
            ).insert(button));
        }
    }

    /// The mouse button went up.
    pub fn on_mouse_button_released(&mut self, button: MouseButton)
        ensures
            final(self)@ == old(self)@.button_released(button),
    {
        self.buttons.release(button.code());
        proof {
            let code = button.code_spec();
            assert(buttons_of(old(self).buttons.down().remove(code)) =~= buttons_of(
                old(self).buttons.down(),
            ).remove(button));
            assert(buttons_of(old(self).buttons.released().insert(code)) =~= buttons_of(
                old(self).buttons.released(),
            ).insert(button));
        }
    }

    /// Whether the button is held.
    pub fn mouse_button_down(&self, button: MouseButton) -> (b: bool)
        ensures
            b == self@.buttons_down.contains(button),
    {
        self.buttons.is_down(button.code())
    }

    /// Whether the button went down in this frame.
    pub fn mouse_button_pressed(&self, button: MouseButton) -> (b: bool)
        ensures
            b == self@.buttons_pressed.contains(button),
    {
        self.buttons.was_pressed(button.code())
    }

    /// Whether the button went up in this frame.
    pub fn mouse_button_released(&self, button: MouseButton) -> (b: bool)
        ensures
            b == self@.buttons_released.contains(button),
    {
        self.buttons.was_released(button.code())
    }
}

} // verus!
