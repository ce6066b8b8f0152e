use grey_engine::input::{Input, Key, MouseButton};
use grey_engine::shell::{
    after_render, can_configure, ends_loop, handle_event, Recovery, RenderOutcome, ShellAction,
    ShellEvent,
};

#[test]
fn close_request_ends_the_loop() {
    let mut input = Input::new();
    assert_eq!(handle_event(&mut input, ShellEvent::CloseRequested), ShellAction::Exit);
}

#[test]
fn resize_configures_the_surface_only_with_a_real_size() {
    let mut input = Input::new();
    assert_eq!(
        handle_event(&mut input, ShellEvent::Resized { width: 800, height: 600 }),
        ShellAction::Resize { width: 800, height: 600, configure_surface: true }
    );
    assert_eq!(
        handle_event(&mut input, ShellEvent::Resized { width: 0, height: 600 }),
        ShellAction::Resize { width: 0, height: 600, configure_surface: false }
    );
    assert_eq!(
        handle_event(&mut input, ShellEvent::Resized { width: 800, height: 0 }),
        ShellAction::Resize { width: 800, height: 0, configure_surface: false }
    );
}

#[test]
fn redraw_starts_a_frame() {
    let mut input = Input::new();
    input.on_key_pressed(Key::W);
    input.on_mouse_button_pressed(MouseButton::Left);
    input.on_key_released(Key::A);
    assert_eq!(handle_event(&mut input, ShellEvent::RedrawRequested), ShellAction::RunFrame);
    assert!(input.key_down(Key::W));
    assert!(!input.key_pressed(Key::W));
    assert!(!input.key_released(Key::A));
    assert!(input.mouse_button_down(MouseButton::Left));
    assert!(!input.mouse_button_pressed(MouseButton::Left));
}

#[test]
fn key_events_reach_the_input_and_the_game() {
    let mut input = Input::new();
    assert_eq!(
        handle_event(&mut input, ShellEvent::KeyInput { key: Key::Other(3), pressed: true }),
        ShellAction::KeyPressed { key: Key::Other(3), exit: false }
    );
    assert!(input.key_down(Key::Other(3)));
    assert!(input.key_pressed(Key::Other(3)));
    assert_eq!(
        handle_event(&mut input, ShellEvent::KeyInput { key: Key::Other(3), pressed: false }),
        ShellAction::KeyReleased { key: Key::Other(3) }
    );
    assert!(!input.key_down(Key::Other(3)));
    assert!(input.key_released(Key::Other(3)));
}

#[test]
fn escape_ends_the_loop_after_the_game_heard_of_it() {
    let mut input = Input::new();
    assert_eq!(
        handle_event(&mut input, ShellEvent::KeyInput { key: Key::Escape, pressed: true }),
        ShellAction::KeyPressed { key: Key::Escape, exit: true }
    );
    assert!(input.key_down(Key::Escape));
    assert_eq!(
        handle_event(&mut input, ShellEvent::KeyInput { key: Key::Escape, pressed: false }),
        ShellAction::KeyReleased { key: Key::Escape }
    );
}

#[test]
fn mouse_buttons_reach_the_input() {
    let mut input = Input::new();
    let event = ShellEvent::MouseInput { button: Some(MouseButton::Right), pressed: true };
    assert_eq!(handle_event(&mut input, event), ShellAction::Nothing);
    assert!(input.mouse_button_down(MouseButton::Right));
    let event = ShellEvent::MouseInput { button: Some(MouseButton::Right), pressed: false };
    assert_eq!(handle_event(&mut input, event), ShellAction::Nothing);
    assert!(!input.mouse_button_down(MouseButton::Right));
    assert!(input.mouse_button_released(MouseButton::Right));
    let event = ShellEvent::MouseInput { button: None, pressed: true };
    assert_eq!(handle_event(&mut input, event), ShellAction::Nothing);
    assert!(!input.mouse_button_down(MouseButton::Left));
    assert!(!input.mouse_button_down(MouseButton::Middle));
}

#[test]
fn other_events_change_nothing() {
    let mut input = Input::new();
    input.on_key_pressed(Key::D);
    assert_eq!(handle_event(&mut input, ShellEvent::Other), ShellAction::Nothing);
    assert!(input.key_down(Key::D));
    assert!(input.key_pressed(Key::D));
}

#[test]
fn recovery_after_rendering() {
    assert_eq!(after_render(RenderOutcome::Presented), Recovery::Continue);
    assert_eq!(after_render(RenderOutcome::SurfaceLost), Recovery::Reconfigure);
    assert_eq!(after_render(RenderOutcome::OutOfMemory), Recovery::Exit);
    assert_eq!(after_render(RenderOutcome::OtherError), Recovery::Report);
}

#[test]
fn a_surface_needs_a_size_without_a_zero_side() {
    assert!(can_configure(1, 1));
    assert!(can_configure(1280, 720));
    assert!(!can_configure(0, 720));
    assert!(!can_configure(1280, 0));
    assert!(!can_configure(0, 0));
}

#[test]
fn only_escape_going_down_ends_the_loop() {
    assert!(ends_loop(Key::Escape, true));
    assert!(!ends_loop(Key::Escape, false));
    assert!(!ends_loop(Key::W, true));
    assert!(!ends_loop(Key::Other(8), true));
    assert!(!ends_loop(Key::Other(0), false));
}
