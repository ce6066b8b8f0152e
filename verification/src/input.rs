//! Per-frame input state: which keys and mouse buttons are held, and which
//! went down or up since the frame began.

pub mod edges;
pub mod keyboard;
pub mod state;

pub use self::edges::EdgeSet;
pub use self::keyboard::Keyboard;
pub use self::state::{Input, InputState, Key, MouseButton};
