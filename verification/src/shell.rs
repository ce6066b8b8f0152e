//! The decisions of the application shell: what each event of the windowing
//! layer does to the input state, and what the frame loop has to do next.
//! The loop itself, with the window, the clock and the GPU, is the caller's.

use vstd::prelude::*;
use crate::input::state::{Input, InputState, Key, MouseButton};

verus! {

/// An event of the windowing layer, as far as the shell decides on it.
#[derive(Debug, Clone, Copy, PartialEq, Eq, Structural)]
pub enum ShellEvent {
    /// The user asked to close the window.
    CloseRequested,
    /// The window has a new size, in pixels.
    Resized { width: u32, height: u32 },
    /// The window wants the next frame.
    RedrawRequested,
    /// A key went down (`pressed`) or up.
    KeyInput { key: Key, pressed: bool },
    /// A mouse button went down (`pressed`) or up; `None` stands for a
    /// button that the input state does not track.
    MouseInput { button: Option<MouseButton>, pressed: bool },
    /// Any other event.
    Other,
}

/// What the frame loop does after an event.
#[derive(Debug, Clone, Copy, PartialEq, Eq, Structural)]
pub enum ShellAction {
    /// Nothing.
    Nothing,
    /// Leave the loop before the next frame.
    Exit,
    /// Give the camera the new viewport and, if `configure_surface` says so,
    /// configure the surface with the new size.
    Resize { width: u32, height: u32, configure_surface: bool },
    /// Run a frame: advance the time, call the game's update, render, and
    /// hand the outcome of the rendering to [`after_render`].
    RunFrame,
    /// Tell the game that the key went down, then leave the loop if `exit`.
    KeyPressed { key: Key, exit: bool },
    /// Tell the game that the key went up.
    KeyReleased { key: Key },
}

/// How the rendering of a frame ended.
#[derive(Debug, Clone, Copy, PartialEq, Eq, Structural)]
pub enum RenderOutcome {
    Presented,
    /// The surface was lost.
    SurfaceLost,
    /// The device is out of memory.
    OutOfMemory,
    /// Any other failure.
    OtherError,
}

/// What the frame loop does after the rendering of a frame.
#[derive(Debug, Clone, Copy, PartialEq, Eq, Structural)]
pub enum Recovery {
    /// Go on with the next event.
    Continue,
    /// Configure the surface again with the size it has.
    Reconfigure,
    /// Leave the loop.
    Exit,
    /// Report the failure and go on.
    Report,
}

/// A surface can be configured only with a size that has no zero side.
pub open spec fn can_configure_spec(width: u32, height: u32) -> bool {
    width > 0 && height > 0
}

/// Whether a surface can be configured with this size.
pub fn can_configure(width: u32, height: u32) -> (ok: bool)
    ensures
        ok == can_configure_spec(width, height),
{
    width > 0 && height > 0
}

/// A key event ends the loop exactly if it is Escape going down.
pub open spec fn ends_loop_spec(key: Key, pressed: bool) -> bool {
    pressed && key == Key::Escape
}

/// Whether a key event ends the loop.
pub fn ends_loop(key: Key, pressed: bool) -> (exit: bool)
    ensures
        exit == ends_loop_spec(key, pressed),
{
    pressed && key == Key::Escape
}

/// The input state after an event: a redraw starts a frame, a key or a
/// tracked button changes what is held, and every other event leaves the
/// state as it is.
pub open spec fn input_after(state: InputState, event: ShellEvent) -> InputState {
    match event {
        ShellEvent::RedrawRequested => state.begin_frame(),
        ShellEvent::KeyInput { key, pressed } => if pressed {
            state.key_pressed(key)
        } else {
            state.key_released(key)
        },
        ShellEvent::MouseInput { button: Some(button), pressed } => if pressed {
            state.button_pressed(button)
        } else {
            state.button_released(button)
        },
        _ => state,
    }
}

/// What the frame loop does after an event. A close request ends the loop,
/// and so does Escape once the game has heard of it.
pub open spec fn action_for(event: ShellEvent) -> ShellAction {
    match event {
        ShellEvent::CloseRequested => ShellAction::Exit,
        ShellEvent::Resized { width, height } => ShellAction::Resize {
            width,
            height,
            configure_surface: can_configure_spec(width, height),
        },
        ShellEvent::RedrawRequested => ShellAction::RunFrame,
        ShellEvent::KeyInput { key, pressed } => if pressed {
            ShellAction::KeyPressed { key, exit: ends_loop_spec(key, pressed) }
        } else {
            ShellAction::KeyReleased { key }
        },
        _ => ShellAction::Nothing,
    }
}

/// Applies an event to the input state and says what the frame loop does
/// next.
pub fn handle_event(input: &mut Input, event: ShellEvent) -> (action: ShellAction)
    ensures
        final(input)@ == input_after(old(input)@, event),
        action == action_for(event),
{
    match event {
        ShellEvent::CloseRequested => ShellAction::Exit,
        ShellEvent::Resized { width, height } => ShellAction::Resize {
            width,
            height,
            configure_surface: can_configure(width, height),
        },
        ShellEvent::RedrawRequested => {
            input.begin_frame();
            ShellAction::RunFrame
        },
        ShellEvent::KeyInput { key, pressed } => {
            if pressed {
                input.on_key_pressed(key);
                ShellAction::KeyPressed { key, exit: ends_loop(key, pressed) }
            } else {
                input.on_key_released(key);
                ShellAction::KeyReleased { key }
            }
        },
        ShellEvent::MouseInput { button, pressed } => {
            match button {
                Some(button) => {
                    if pressed {
                        input.on_mouse_button_pressed(button);
                    } else {
                        input.on_mouse_button_released(button);
                    }
                },
                None => {},
            }
            ShellAction::Nothing
        },
        ShellEvent::Other => ShellAction::Nothing,
    }
}

/// What follows the rendering of a frame: a lost surface is configured
/// again, a device out of memory ends the loop, any other failure is
/// reported, and the loop goes on.
pub open spec fn recovery_for(outcome: RenderOutcome) -> Recovery {
    match outcome {
        RenderOutcome::Presented => Recovery::Continue,
        RenderOutcome::SurfaceLost => Recovery::Reconfigure,
        RenderOutcome::OutOfMemory => Recovery::Exit,
        RenderOutcome::OtherError => Recovery::Report,
    }
}

/// What the frame loop does after the rendering of a frame.
pub fn after_render(outcome: RenderOutcome) -> (recovery: Recovery)
    ensures
        recovery == recovery_for(outcome),
{
    match outcome {
        RenderOutcome::Presented => Recovery::Continue,
        RenderOutcome::SurfaceLost => Recovery::Reconfigure,
        RenderOutcome::OutOfMemory => Recovery::Exit,
        RenderOutcome::OtherError => Recovery::Report,
    }
}

/// The edges of a frame last for that frame: whatever happened before, a
/// redraw leaves no key and no button pressed or released, and keeps what is
/// held.
pub proof fn law_redraw_clears_edges(state: InputState)
    ensures
        input_after(state, ShellEvent::RedrawRequested).keys_pressed == Set::<Key>::empty(),
        input_after(state, ShellEvent::RedrawRequested).keys_released == Set::<Key>::empty(),
        input_after(state, ShellEvent::RedrawRequested).buttons_pressed == Set::<
            MouseButton,
        >::empty(),
        input_after(state, ShellEvent::RedrawRequested).buttons_released == Set::<
            MouseButton,
        >::empty(),
        input_after(state, ShellEvent::RedrawRequested).keys_down == state.keys_down,
        input_after(state, ShellEvent::RedrawRequested).buttons_down == state.buttons_down,
{
}

} // verus!
