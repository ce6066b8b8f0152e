use grey_engine::input::{EdgeSet, Input, Key, Keyboard, MouseButton};

#[test]
fn new_input_has_nothing_held() {
    let input = Input::new();
    assert!(!input.key_down(Key::W));
    assert!(!input.key_pressed(Key::W));
    assert!(!input.key_released(Key::W));
    assert!(!input.mouse_button_down(MouseButton::Left));
    assert_eq!(input.get_movement_input(), (0, 0));
}

#[test]
fn press_marks_down_and_pressed() {
    let mut input = Input::new();
    input.on_key_pressed(Key::Other(30));
    assert!(input.key_down(Key::Other(30)));
    assert!(input.key_pressed(Key::Other(30)));
    assert!(!input.key_released(Key::Other(30)));
    assert!(!input.key_down(Key::Other(31)));
    assert!(!input.key_down(Key::W));
}

#[test]
fn repeated_press_raises_no_second_edge() {
    let mut input = Input::new();
    input.on_key_pressed(Key::A);
    input.begin_frame();
    assert!(input.key_down(Key::A));
    assert!(!input.key_pressed(Key::A));
    input.on_key_pressed(Key::A);
    assert!(input.key_down(Key::A));
    assert!(!input.key_pressed(Key::A));
}

#[test]
fn release_marks_released_even_if_not_held() {
    let mut input = Input::new();
    input.on_key_released(Key::D);
    assert!(!input.key_down(Key::D));
    assert!(input.key_released(Key::D));
    input.begin_frame();
    assert!(!input.key_released(Key::D));
    input.on_key_pressed(Key::D);
    input.on_key_released(Key::D);
    assert!(!input.key_down(Key::D));
    assert!(input.key_pressed(Key::D));
    assert!(input.key_released(Key::D));
}

#[test]
fn begin_frame_clears_edges_and_keeps_held() {
    let mut input = Input::new();
    input.on_key_pressed(Key::W);
    input.on_key_released(Key::S);
    input.on_mouse_button_pressed(MouseButton::Left);
    input.on_mouse_button_released(MouseButton::Right);
    input.begin_frame();
    assert!(input.key_down(Key::W));
    assert!(!input.key_pressed(Key::W));
    assert!(!input.key_released(Key::S));
    assert!(input.mouse_button_down(MouseButton::Left));
    assert!(!input.mouse_button_pressed(MouseButton::Left));
    assert!(!input.mouse_button_released(MouseButton::Right));
}

#[test]
fn movement_with_no_keys_is_zero() {
    let input = Input::new();
    assert_eq!(input.get_movement_input(), (0, 0));
}

#[test]
fn opposing_keys_cancel() {
    let mut input = Input::new();
    input.on_key_pressed(Key::W);
    input.on_key_pressed(Key::S);
    assert_eq!(input.get_movement_input(), (0, 0));
    input.on_key_pressed(Key::ArrowLeft);
    input.on_key_pressed(Key::D);
    assert_eq!(input.get_movement_input(), (0, 0));
    input.on_key_released(Key::S);
    assert_eq!(input.get_movement_input(), (0, 1));
    input.on_key_released(Key::ArrowLeft);
    assert_eq!(input.get_movement_input(), (1, 1));
}

#[test]
fn movement_directions() {
    let cases = [
        (Key::W, (0, 1)),
        (Key::ArrowUp, (0, 1)),
        (Key::S, (0, -1)),
        (Key::ArrowDown, (0, -1)),
        (Key::A, (-1, 0)),
        (Key::ArrowLeft, (-1, 0)),
        (Key::D, (1, 0)),
        (Key::ArrowRight, (1, 0)),
        (Key::Other(0), (0, 0)),
    ];
    for (key, expected) in cases {
        let mut input = Input::new();
        input.on_key_pressed(key);
        assert_eq!(input.get_movement_input(), expected);
    }
    let mut input = Input::new();
    input.on_key_pressed(Key::W);
    input.on_key_pressed(Key::ArrowUp);
    input.on_key_pressed(Key::A);
    assert_eq!(input.get_movement_input(), (-1, 1));
}

#[test]
fn key_codes_are_distinct() {
    let keys = [
        Key::W,
        Key::A,
        Key::S,
        Key::D,
        Key::ArrowUp,
        Key::ArrowDown,
        Key::ArrowLeft,
        Key::ArrowRight,
        Key::Escape,
        Key::Other(0),
        Key::Other(1),
        Key::Other(u32::MAX),
    ];
    for (i, a) in keys.iter().enumerate() {
        for (j, b) in keys.iter().enumerate() {
            assert_eq!(a.code() == b.code(), i == j);
        }
    }
    assert_eq!(Key::Other(u32::MAX).code(), 9 + u32::MAX as u64);
    assert_eq!(MouseButton::Left.code(), 0);
    assert_eq!(MouseButton::Right.code(), 1);
    assert_eq!(MouseButton::Middle.code(), 2);
}

#[test]
fn mouse_buttons_have_edges_too() {
    let mut input = Input::new();
    input.on_mouse_button_pressed(MouseButton::Middle);
    assert!(input.mouse_button_down(MouseButton::Middle));
    assert!(input.mouse_button_pressed(MouseButton::Middle));
    assert!(!input.mouse_button_down(MouseButton::Left));
    assert!(!input.key_down(Key::S));
    input.begin_frame();
    input.on_mouse_button_pressed(MouseButton::Middle);
    assert!(!input.mouse_button_pressed(MouseButton::Middle));
    input.on_mouse_button_released(MouseButton::Middle);
    assert!(!input.mouse_button_down(MouseButton::Middle));
    assert!(input.mouse_button_released(MouseButton::Middle));
    input.on_mouse_button_released(MouseButton::Right);
    assert!(input.mouse_button_released(MouseButton::Right));
}

#[test]
fn keyboard_edges_are_symmetric() {
    let mut keyboard = Keyboard::new();
    keyboard.handle_key_event(Key::W, false);
    assert!(!keyboard.was_just_released(Key::W));
    keyboard.handle_key_event(Key::W, true);
    assert!(keyboard.is_pressed(Key::W));
    assert!(keyboard.was_just_pressed(Key::W));
    keyboard.clear_just_pressed();
    assert!(!keyboard.was_just_pressed(Key::W));
    keyboard.handle_key_event(Key::W, true);
    assert!(!keyboard.was_just_pressed(Key::W));
    keyboard.handle_key_event(Key::W, false);
    assert!(!keyboard.is_pressed(Key::W));
    assert!(keyboard.was_just_released(Key::W));
    keyboard.clear_just_released();
    assert!(!keyboard.was_just_released(Key::W));
    keyboard.handle_key_event(Key::A, true);
    keyboard.handle_key_event(Key::A, false);
    keyboard.clear_frame_state();
    assert!(!keyboard.was_just_pressed(Key::A));
    assert!(!keyboard.was_just_released(Key::A));
    assert!(!keyboard.is_pressed(Key::A));
}

#[test]
fn edge_set_by_code() {
    let mut edges = EdgeSet::new();
    edges.press(5);
    edges.press(5);
    edges.release_if_down(6);
    assert!(edges.is_down(5));
    assert!(edges.was_pressed(5));
    assert!(!edges.was_released(6));
    edges.release(6);
    assert!(edges.was_released(6));
    edges.release_if_down(5);
    assert!(!edges.is_down(5));
    assert!(edges.was_released(5));
    edges.clear_pressed();
    assert!(!edges.was_pressed(5));
    assert!(edges.was_released(5));
    edges.clear_released();
    assert!(!edges.was_released(5));
}
