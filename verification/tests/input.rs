use webgateway::input::{
    to_button_mask, to_coordinate, to_pointer_button, to_scancode, InputEvent, KeyEventType, KeyboardEvent, MouseEvent,
    MouseEventType, PointerButton, WireInputEvent,
};

fn key(code: &str, kind: KeyEventType) -> InputEvent {
    InputEvent::Keyboard(KeyboardEvent { code: code.to_string() }, kind)
}

fn mouse(x: i32, y: i32, button: i16, kind: MouseEventType) -> InputEvent {
    InputEvent::Mouse(MouseEvent { offset_x: x, offset_y: y, button }, kind)
}

#[test]
fn key_a_has_its_scancode() {
    assert_eq!(to_scancode("KeyA"), 0x001E);
}

#[test]
fn enter_has_its_scancode() {
    assert_eq!(to_scancode("Enter"), 0x001C);
}

#[test]
fn unknown_key_has_no_scancode() {
    assert_eq!(to_scancode("FooBar"), 0x0000);
    assert_eq!(to_scancode(""), 0x0000);
    assert_eq!(to_scancode("keya"), 0x0000);
    assert_eq!(to_scancode("KeyAA"), 0x0000);
}

#[test]
fn first_and_last_of_the_plain_set() {
    assert_eq!(to_scancode("Escape"), 0x0001);
    assert_eq!(to_scancode("NumpadComma"), 0x007E);
    assert_eq!(to_scancode("F12"), 0x0058);
    assert_eq!(to_scancode("F1"), 0x003B);
    assert_eq!(to_scancode("Pause"), 0x0045);
}

#[test]
fn extended_keys_carry_e0() {
    assert_eq!(to_scancode("MediaTrackPrevious"), 0xE010);
    assert_eq!(to_scancode("NumpadEnter"), 0xE01C);
    assert_eq!(to_scancode("ControlRight"), 0xE01D);
    assert_eq!(to_scancode("ArrowUp"), 0xE048);
    assert_eq!(to_scancode("Delete"), 0xE053);
    assert_eq!(to_scancode("MediaSelect"), 0xE06D);
}

#[test]
fn move_with_button_0_holds_no_button() {
    assert_eq!(
        WireInputEvent::from(mouse(3, 4, 0, MouseEventType::Move)),
        WireInputEvent::Pointer { x: 3, y: 4, button: PointerButton::Nothing, down: false }
    );
}

#[test]
fn down_with_button_0_is_left_down() {
    assert_eq!(
        WireInputEvent::from(mouse(3, 4, 0, MouseEventType::Down)),
        WireInputEvent::Pointer { x: 3, y: 4, button: PointerButton::Left, down: true }
    );
}

#[test]
fn up_with_button_0_is_left_up() {
    assert_eq!(
        WireInputEvent::from(mouse(3, 4, 0, MouseEventType::Up)),
        WireInputEvent::Pointer { x: 3, y: 4, button: PointerButton::Left, down: false }
    );
}

#[test]
fn buttons_1_and_2_are_middle_and_right() {
    assert_eq!(to_pointer_button(1, MouseEventType::Down), PointerButton::Middle);
    assert_eq!(to_pointer_button(1, MouseEventType::Move), PointerButton::Middle);
    assert_eq!(to_pointer_button(2, MouseEventType::Up), PointerButton::Right);
}

#[test]
fn unknown_buttons_are_no_button() {
    assert_eq!(to_pointer_button(3, MouseEventType::Down), PointerButton::Nothing);
    assert_eq!(to_pointer_button(-1, MouseEventType::Down), PointerButton::Nothing);
    assert_eq!(to_pointer_button(i16::MAX, MouseEventType::Up), PointerButton::Nothing);
}

#[test]
fn negative_offsets_become_zero() {
    assert_eq!(to_coordinate(-1), 0);
    assert_eq!(to_coordinate(i32::MIN), 0);
    assert_eq!(
        WireInputEvent::from(mouse(-5, 9, 2, MouseEventType::Down)),
        WireInputEvent::Pointer { x: 0, y: 9, button: PointerButton::Right, down: true }
    );
}

#[test]
fn offsets_pass_where_they_fit() {
    assert_eq!(to_coordinate(0), 0);
    assert_eq!(to_coordinate(1920), 1920);
    assert_eq!(to_coordinate(65535), 65535);
}

#[test]
fn offsets_beyond_a_coordinate_become_zero() {
    assert_eq!(to_coordinate(65536), 0);
    assert_eq!(to_coordinate(i32::MAX), 0);
}

#[test]
fn physical_key_is_sent_by_scancode() {
    assert_eq!(
        WireInputEvent::from(key("KeyA", KeyEventType::Down)),
        WireInputEvent::Key { code: 0x001E, down: true }
    );
    assert_eq!(
        WireInputEvent::from(key("ArrowLeft", KeyEventType::Up)),
        WireInputEvent::Key { code: 0xE04B, down: false }
    );
}

#[test]
fn unknown_physical_key_is_sent_with_code_0() {
    assert_eq!(
        WireInputEvent::from(key("FooBar", KeyEventType::Down)),
        WireInputEvent::Key { code: 0, down: true }
    );
}

#[test]
fn resolved_code_passes_unchanged() {
    assert_eq!(
        WireInputEvent::from(InputEvent::KeyCode(0xBEEF, KeyEventType::Down)),
        WireInputEvent::Key { code: 0xBEEF, down: true }
    );
    assert_eq!(
        WireInputEvent::from(InputEvent::KeyCode(0, KeyEventType::Up)),
        WireInputEvent::Key { code: 0, down: false }
    );
}

#[test]
fn button_mask_has_a_bit_for_each_button() {
    assert_eq!(to_button_mask(PointerButton::Left, true), 1);
    assert_eq!(to_button_mask(PointerButton::Middle, true), 2);
    assert_eq!(to_button_mask(PointerButton::Right, true), 4);
    assert_eq!(to_button_mask(PointerButton::Nothing, true), 0);
    assert_eq!(to_button_mask(PointerButton::Left, false), 0);
    assert_eq!(to_button_mask(PointerButton::Right, false), 0);
}
