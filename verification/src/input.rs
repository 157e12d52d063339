//! Local pointer and keyboard events, and the wire events they become.
//!
//! A local event arrives as plain values: where the pointer is and which
//! button changed, or which physical key changed. What leaves is the event
//! as the remote side takes it, with keys named by hardware scancode.

use vstd::prelude::*;

verus! {

/// What the pointer did.
#[derive(Clone, Copy, Debug, PartialEq, Eq, Structural)]
pub enum MouseEventType {
    Down,
    Up,
    Move,
}

/// What a key did.
#[derive(Clone, Copy, Debug, PartialEq, Eq, Structural)]
pub enum KeyEventType {
    Down,
    Up,
}

/// A local pointer event: where the pointer is, relative to the surface,
/// and the number of the button that the event is about.
#[derive(Clone, Copy, Debug, PartialEq, Eq, Structural)]
pub struct MouseEvent {
    pub offset_x: i32,
    pub offset_y: i32,
    pub button: i16,
}

/// A local keyboard event: the identifier of the physical key.
#[derive(Clone, Debug, PartialEq, Eq)]
pub struct KeyboardEvent {
    pub code: String,
}

/// A local input event.
#[derive(Clone, Debug, PartialEq, Eq)]
pub enum InputEvent {
    /// The pointer moved, or a button went down or up.
    Mouse(MouseEvent, MouseEventType),
    /// A physical key went down or up.
    Keyboard(KeyboardEvent, KeyEventType),
    /// A key that the caller has resolved to its code already.
    KeyCode(u16, KeyEventType),
}

/// The button a pointer event speaks of.
#[derive(Clone, Copy, Debug, PartialEq, Eq, Structural)]
pub enum PointerButton {
    /// No button is held.
    Nothing,
    Left,
    Middle,
    Right,
}

/// An input event as it goes over the wire.
#[derive(Clone, Copy, Debug, PartialEq, Eq, Structural)]
pub enum WireInputEvent {
    /// The pointer at `x`, `y`, with the button that changed and whether it
    /// went down.
    Pointer { x: u16, y: u16, button: PointerButton, down: bool },
    /// A key, by its code, and whether it went down.
    Key { code: u16, down: bool },
    /// A request for a fresh update of the framebuffer.
    Refresh,
}

/// `str::eq`: whether two strings hold the same characters.
#[verifier::external_body]
fn same_text(left: &str, right: &str) -> (same: bool)
    ensures
        same == (left@ == right@),
{
    left == right
}

/// The table of hardware scancodes by physical-key identifier. Keys of the
/// extended set carry `0xE0` in the high byte. A key that the table does
/// not hold has the code 0, which stands for no key.
pub open spec fn scancode(code: Seq<char>) -> u16 {
    if code == "Escape"@ {
        0x0001u16
    } else if code == "Digit1"@ {
        0x0002u16
    } else if code == "Digit2"@ {
        0x0003u16
    } else if code == "Digit3"@ {
        0x0004u16
    } else if code == "Digit4"@ {
        0x0005u16
    } else if code == "Digit5"@ {
        0x0006u16
    } else if code == "Digit6"@ {
        0x0007u16
    } else if code == "Digit7"@ {
        0x0008u16
    } else if code == "Digit8"@ {
        0x0009u16
    } else if code == "Digit9"@ {
        0x000Au16
    } else if code == "Digit0"@ {
        0x000Bu16
    } else if code == "Minus"@ {
        0x000Cu16
    } else if code == "Equal"@ {
        0x000Du16
    } else if code == "Backspace"@ {
        0x000Eu16
    } else if code == "Tab"@ {
        0x000Fu16
    } else if code == "KeyQ"@ {
        0x0010u16
    } else if code == "KeyW"@ {
        0x0011u16
    } else if code == "KeyE"@ {
        0x0012u16
    } else if code == "KeyR"@ {
        0x0013u16
    } else if code == "KeyT"@ {
        0x0014u16
    } else if code == "KeyY"@ {
        0x0015u16
    } else if code == "KeyU"@ {
        0x0016u16
    } else if code == "KeyI"@ {
        0x0017u16
    } else if code == "KeyO"@ {
        0x0018u16
    } else if code == "KeyP"@ {
        0x0019u16
    } else if code == "BracketLeft"@ {
        0x001Au16
    } else if code == "BracketRight"@ {
        0x001Bu16
    } else if code == "Enter"@ {
        0x001Cu16
    } else if code == "ControlLeft"@ {
        0x001Du16
    } else if code == "KeyA"@ {
        0x001Eu16
    } else if code == "KeyS"@ {
        0x001Fu16
    } else if code == "KeyD"@ {
        0x0020u16
    } else if code == "KeyF"@ {
        0x0021u16
    } else if code == "KeyG"@ {
        0x0022u16
    } else if code == "KeyH"@ {
        0x0023u16
    } else if code == "KeyJ"@ {
        0x0024u16
    } else if code == "KeyK"@ {
        0x0025u16
    } else if code == "KeyL"@ {
        0x0026u16
    } else if code == "Semicolon"@ {
        0x0027u16
    } else if code == "Quote"@ {
        0x0028u16
    } else if code == "Backquote"@ {
        0x0029u16
    } else if code == "ShiftLeft"@ {
        0x002Au16
    } else if code == "Backslash"@ {
        0x002Bu16
    } else if code == "KeyZ"@ {
        0x002Cu16
    } else if code == "KeyX"@ {
        0x002Du16
    } else if code == "KeyC"@ {
        0x002Eu16
    } else if code == "KeyV"@ {
        0x002Fu16
    } else if code == "KeyB"@ {
        0x0030u16
    } else if code == "KeyN"@ {
        0x0031u16
    } else if code == "KeyM"@ {
        0x0032u16
    } else if code == "Comma"@ {
        0x0033u16
    } else if code == "Period"@ {
        0x0034u16
    } else if code == "Slash"@ {
        0x0035u16
    } else if code == "ShiftRight"@ {
        0x0036u16
    } else if code == "NumpadMultiply"@ {
        0x0037u16
    } else if code == "AltLeft"@ {
        0x0038u16
    } else if code == "Space"@ {
        0x0039u16
    } else if code == "CapsLock"@ {
        0x003Au16
    } else if code == "F1"@ {
        0x003Bu16
    } else if code == "F2"@ {
        0x003Cu16
    } else if code == "F3"@ {
        0x003Du16
    } else if code == "F4"@ {
        0x003Eu16
    } else if code == "F5"@ {
        0x003Fu16
    } else if code == "F6"@ {
        0x0040u16
    } else if code == "F7"@ {
        0x0041u16
    } else if code == "F8"@ {
        0x0042u16
    } else if code == "F9"@ {
        0x0043u16
    } else if code == "F10"@ {
        0x0044u16
    } else if code == "Pause"@ {
        0x0045u16
    } else if code == "ScrollLock"@ {
        0x0046u16
    } else if code == "Numpad7"@ {
        0x0047u16
    } else if code == "Numpad8"@ {
        0x0048u16
    } else if code == "Numpad9"@ {
        0x0049u16
    } else if code == "NumpadSubtract"@ {
        0x004Au16
    } else if code == "Numpad4"@ {
        0x004Bu16
    } else if code == "Numpad5"@ {
        0x004Cu16
    } else if code == "Numpad6"@ {
        0x004Du16
    } else if code == "NumpadAdd"@ {
        0x004Eu16
    } else if code == "Numpad1"@ {
        0x004Fu16
    } else if code == "Numpad2"@ {
        0x0050u16
    } else if code == "Numpad3"@ {
        0x0051u16
    } else if code == "Numpad0"@ {
        0x0052u16
    } else if code == "NumpadDecimal"@ {
        0x0053u16
    } else if code == "IntlBackslash"@ {
        0x0056u16
    } else if code == "F11"@ {
        0x0057u16
    } else if code == "F12"@ {
        0x0058u16
    } else if code == "NumpadEqual"@ {
        0x0059u16
    } else if code == "F13"@ {
        0x0064u16
    } else if code == "F14"@ {
        0x0065u16
    } else if code == "F15"@ {
        0x0066u16
    } else if code == "F16"@ {
        0x0067u16
    } else if code == "F17"@ {
        0x0068u16
    } else if code == "F18"@ {
        0x0069u16
    } else if code == "F19"@ {
        0x006Au16
    } else if code == "F20"@ {
        0x006Bu16
    } else if code == "F21"@ {
        0x006Cu16
    } else if code == "F22"@ {
        0x006Du16
    } else if code == "F23"@ {
        0x006Eu16
    } else if code == "KanaMode"@ {
        0x0070u16
    } else if code == "Lang2"@ {
        0x0071u16
    } else if code == "Lang1"@ {
        0x0072u16
    } else if code == "IntlRo"@ {
        0x0073u16
    } else if code == "F24"@ {
        0x0076u16
    } else if code == "Convert"@ {
        0x0079u16
    } else if code == "NonConvert"@ {
        0x007Bu16
    } else if code == "IntlYen"@ {
        0x007Du16
    } else if code == "NumpadComma"@ {
        0x007Eu16
    } else if code == "MediaTrackPrevious"@ {
        0xE010u16
    } else if code == "MediaTrackNext"@ {
        0xE019u16
    } else if code == "NumpadEnter"@ {
        0xE01Cu16
    } else if code == "ControlRight"@ {
        0xE01Du16
    } else if code == "AudioVolumeMute"@ {
        0xE020u16
    } else if code == "LaunchApp2"@ {
        0xE021u16
    } else if code == "MediaPlayPause"@ {
        0xE022u16
    } else if code == "MediaStop"@ {
        0xE024u16
    } else if code == "BrowserHome"@ {
        0xE032u16
    } else if code == "NumpadDivide"@ {
        0xE035u16
    } else if code == "PrintScreen"@ {
        0xE037u16
    } else if code == "AltRight"@ {
        0xE038u16
    } else if code == "NumLock"@ {
        0xE045u16
    } else if code == "Home"@ {
        0xE047u16
    } else if code == "ArrowUp"@ {
        0xE048u16
    } else if code == "PageUp"@ {
        0xE049u16
    } else if code == "ArrowLeft"@ {
        0xE04Bu16
    } else if code == "ArrowRight"@ {
        0xE04Du16
    } else if code == "End"@ {
        0xE04Fu16
    } else if code == "ArrowDown"@ {
        0xE050u16
    } else if code == "PageDown"@ {
        0xE051u16
    } else if code == "Insert"@ {
        0xE052u16
    } else if code == "Delete"@ {
        0xE053u16
    } else if code == "ContextMenu"@ {
        0xE05Du16
    } else if code == "Power"@ {
        0xE05Eu16
    } else if code == "BrowserSearch"@ {
        0xE065u16
    } else if code == "BrowserFavorites"@ {
        0xE066u16
    } else if code == "BrowserRefresh"@ {
        0xE067u16
    } else if code == "BrowserStop"@ {
        0xE068u16
    } else if code == "BrowserForward"@ {
        0xE069u16
    } else if code == "BrowserBack"@ {
        0xE06Au16
    } else if code == "LaunchApp1"@ {
        0xE06Bu16
    } else if code == "LaunchMail"@ {
        0xE06Cu16
    } else if code == "MediaSelect"@ {
        0xE06Du16
    } else {
        0x0000u16
    }
}

/// A scancode of the table is 0, a code of the plain set, or a code of the
/// extended set.
pub open spec fn scancode_in_range(value: u16) -> bool {
    value == 0 || 0x0001 <= value <= 0x007E || 0xE010 <= value <= 0xE06D
}

/// Looks a physical-key identifier up in the table of scancodes.
pub fn to_scancode(code: &str) -> (value: u16)
    ensures
        value == scancode(code@),
        scancode_in_range(value),
{
    if same_text(code, "Escape") {
        0x0001
    } else if same_text(code, "Digit1") {
        0x0002
    } else if same_text(code, "Digit2") {
        0x0003
    } else if same_text(code, "Digit3") {
        0x0004
    } else if same_text(code, "Digit4") {
        0x0005
    } else if same_text(code, "Digit5") {
        0x0006
    } else if same_text(code, "Digit6") {
        0x0007
    } else if same_text(code, "Digit7") {
        0x0008
    } else if same_text(code, "Digit8") {
        0x0009
    } else if same_text(code, "Digit9") {
        0x000A
    } else if same_text(code, "Digit0") {
        0x000B
    } else if same_text(code, "Minus") {
        0x000C
    } else if same_text(code, "Equal") {
        0x000D
    } else if same_text(code, "Backspace") {
        0x000E
    } else if same_text(code, "Tab") {
        0x000F
    } else if same_text(code, "KeyQ") {
        0x0010
    } else if same_text(code, "KeyW") {
        0x0011
    } else if same_text(code, "KeyE") {
        0x0012
    } else if same_text(code, "KeyR") {
        0x0013
    } else if same_text(code, "KeyT") {
        0x0014
    } else if same_text(code, "KeyY") {
        0x0015
    } else if same_text(code, "KeyU") {
        0x0016
    } else if same_text(code, "KeyI") {
        0x0017
    } else if same_text(code, "KeyO") {
        0x0018
    } else if same_text(code, "KeyP") {
        0x0019
    } else if same_text(code, "BracketLeft") {
        0x001A
    } else if same_text(code, "BracketRight") {
        0x001B
    } else if same_text(code, "Enter") {
        0x001C
    } else if same_text(code, "ControlLeft") {
        0x001D
    } else if same_text(code, "KeyA") {
        0x001E
    } else if same_text(code, "KeyS") {
        0x001F
    } else if same_text(code, "KeyD") {
        0x0020
    } else if same_text(code, "KeyF") {
        0x0021
    } else if same_text(code, "KeyG") {
        0x0022
    } else if same_text(code, "KeyH") {
        0x0023
    } else if same_text(code, "KeyJ") {
        0x0024
    } else if same_text(code, "KeyK") {
        0x0025
    } else if same_text(code, "KeyL") {
        0x0026
    } else if same_text(code, "Semicolon") {
        0x0027
    } else if same_text(code, "Quote") {
        0x0028
    } else if same_text(code, "Backquote") {
        0x0029
    } else if same_text(code, "ShiftLeft") {
        0x002A
    } else if same_text(code, "Backslash") {
        0x002B
    } else if same_text(code, "KeyZ") {
        0x002C
    } else if same_text(code, "KeyX") {
        0x002D
    } else if same_text(code, "KeyC") {
        0x002E
    } else if same_text(code, "KeyV") {
        0x002F
    } else if same_text(code, "KeyB") {
        0x0030
    } else if same_text(code, "KeyN") {
        0x0031
    } else if same_text(code, "KeyM") {
        0x0032
    } else if same_text(code, "Comma") {
        0x0033
    } else if same_text(code, "Period") {
        0x0034
    } else if same_text(code, "Slash") {
        0x0035
    } else if same_text(code, "ShiftRight") {
        0x0036
    } else if same_text(code, "NumpadMultiply") {
        0x0037
    } else if same_text(code, "AltLeft") {
        0x0038
    } else if same_text(code, "Space") {
        0x0039
    } else if same_text(code, "CapsLock") {
        0x003A
    } else if same_text(code, "F1") {
        0x003B
    } else if same_text(code, "F2") {
        0x003C
    } else if same_text(code, "F3") {
        0x003D
    } else if same_text(code, "F4") {
        0x003E
    } else if same_text(code, "F5") {
        0x003F
    } else if same_text(code, "F6") {
        0x0040
    } else if same_text(code, "F7") {
        0x0041
    } else if same_text(code, "F8") {
        0x0042
    } else if same_text(code, "F9") {
        0x0043
    } else if same_text(code, "F10") {
        0x0044
    } else if same_text(code, "Pause") {
        0x0045
    } else if same_text(code, "ScrollLock") {
        0x0046
    } else if same_text(code, "Numpad7") {
        0x0047
    } else if same_text(code, "Numpad8") {
        0x0048
    } else if same_text(code, "Numpad9") {
        0x0049
    } else if same_text(code, "NumpadSubtract") {
        0x004A
    } else if same_text(code, "Numpad4") {
        0x004B
    } else if same_text(code, "Numpad5") {
        0x004C
    } else if same_text(code, "Numpad6") {
        0x004D
    } else if same_text(code, "NumpadAdd") {
        0x004E
    } else if same_text(code, "Numpad1") {
        0x004F
    } else if same_text(code, "Numpad2") {
        0x0050
    } else if same_text(code, "Numpad3") {
        0x0051
    } else if same_text(code, "Numpad0") {
        0x0052
    } else if same_text(code, "NumpadDecimal") {
        0x0053
    } else if same_text(code, "IntlBackslash") {
        0x0056
    } else if same_text(code, "F11") {
        0x0057
    } else if same_text(code, "F12") {
        0x0058
    } else if same_text(code, "NumpadEqual") {
        0x0059
    } else if same_text(code, "F13") {
        0x0064
    } else if same_text(code, "F14") {
        0x0065
    } else if same_text(code, "F15") {
        0x0066
    } else if same_text(code, "F16") {
        0x0067
    } else if same_text(code, "F17") {
        0x0068
    } else if same_text(code, "F18") {
        0x0069
    } else if same_text(code, "F19") {
        0x006A
    } else if same_text(code, "F20") {
        0x006B
    } else if same_text(code, "F21") {
        0x006C
    } else if same_text(code, "F22") {
        0x006D
    } else if same_text(code, "F23") {
        0x006E
    } else if same_text(code, "KanaMode") {
        0x0070
    } else if same_text(code, "Lang2") {
        0x0071
    } else if same_text(code, "Lang1") {
        0x0072
    } else if same_text(code, "IntlRo") {
        0x0073
    } else if same_text(code, "F24") {
        0x0076
    } else if same_text(code, "Convert") {
        0x0079
    } else if same_text(code, "NonConvert") {
        0x007B
    } else if same_text(code, "IntlYen") {
        0x007D
    } else if same_text(code, "NumpadComma") {
        0x007E
    } else if same_text(code, "MediaTrackPrevious") {
        0xE010
    } else if same_text(code, "MediaTrackNext") {
        0xE019
    } else if same_text(code, "NumpadEnter") {
        0xE01C
    } else if same_text(code, "ControlRight") {
        0xE01D
    } else if same_text(code, "AudioVolumeMute") {
        0xE020
    } else if same_text(code, "LaunchApp2") {
        0xE021
    } else if same_text(code, "MediaPlayPause") {
        0xE022
    } else if same_text(code, "MediaStop") {
        0xE024
    } else if same_text(code, "BrowserHome") {
        0xE032
    } else if same_text(code, "NumpadDivide") {
        0xE035
    } else if same_text(code, "PrintScreen") {
        0xE037
    } else if same_text(code, "AltRight") {
        0xE038
    } else if same_text(code, "NumLock") {
        0xE045
    } else if same_text(code, "Home") {
        0xE047
    } else if same_text(code, "ArrowUp") {
        0xE048
    } else if same_text(code, "PageUp") {
        0xE049
    } else if same_text(code, "ArrowLeft") {
        0xE04B
    } else if same_text(code, "ArrowRight") {
        0xE04D
    } else if same_text(code, "End") {
        0xE04F
    } else if same_text(code, "ArrowDown") {
        0xE050
    } else if same_text(code, "PageDown") {
        0xE051
    } else if same_text(code, "Insert") {
        0xE052
    } else if same_text(code, "Delete") {
        0xE053
    } else if same_text(code, "ContextMenu") {
        0xE05D
    } else if same_text(code, "Power") {
        0xE05E
    } else if same_text(code, "BrowserSearch") {
        0xE065
    } else if same_text(code, "BrowserFavorites") {
        0xE066
    } else if same_text(code, "BrowserRefresh") {
        0xE067
    } else if same_text(code, "BrowserStop") {
        0xE068
    } else if same_text(code, "BrowserForward") {
        0xE069
    } else if same_text(code, "BrowserBack") {
        0xE06A
    } else if same_text(code, "LaunchApp1") {
        0xE06B
    } else if same_text(code, "LaunchMail") {
        0xE06C
    } else if same_text(code, "MediaSelect") {
        0xE06D
    } else {
        0x0000
    }
}

/// A pointer offset as a wire coordinate. An offset that a coordinate
/// cannot hold, below 0 or beyond 65535, becomes 0.
pub open spec fn coordinate(offset: i32) -> u16 {
    if 0 <= offset <= 0xffff {
        offset as u16
    } else {
        0u16
    }
}

/// The button a local button number stands for. Button 0 is the left
/// button, but a move that names it holds no button; 1 is the middle and 2
/// the right button; any other number stands for no button.
pub open spec fn pointer_button(button: i16, kind: MouseEventType) -> PointerButton {
    if button == 0 {
        if kind == MouseEventType::Move {
            PointerButton::Nothing
        } else {
            PointerButton::Left
        }
    } else if button == 1 {
        PointerButton::Middle
    } else if button == 2 {
        PointerButton::Right
    } else {
        PointerButton::Nothing
    }
}

/// The wire event a local event becomes.
pub open spec fn wire_event(event: InputEvent) -> WireInputEvent {
    match event {
        InputEvent::Mouse(mouse, kind) => WireInputEvent::Pointer {
            x: coordinate(mouse.offset_x),
            y: coordinate(mouse.offset_y),
            button: pointer_button(mouse.button, kind),
            down: kind == MouseEventType::Down,
        },
        InputEvent::Keyboard(key, kind) => WireInputEvent::Key {
            code: scancode(key.code@),
            down: kind == KeyEventType::Down,
        },
        InputEvent::KeyCode(code, kind) => WireInputEvent::Key {
            code,
            down: kind == KeyEventType::Down,
        },
    }
}

/// The button mask of a pointer event, for a protocol that sends the state
/// of all buttons at once: bit 0 for the left, bit 1 for the middle and
/// bit 2 for the right button, set where the button went down.
pub open spec fn button_mask(button: PointerButton, down: bool) -> u8 {
    if !down {
        0u8
    } else {
        match button {
            PointerButton::Nothing => 0u8,
            PointerButton::Left => 1u8,
            PointerButton::Middle => 2u8,
            PointerButton::Right => 4u8,
        }
    }
}

/// Works out the button mask of a pointer event.
pub fn to_button_mask(button: PointerButton, down: bool) -> (mask: u8)
    ensures
        mask == button_mask(button, down),
{
    if !down {
        0
    } else {
        match button {
            PointerButton::Nothing => 0,
            PointerButton::Left => 1,
            PointerButton::Middle => 2,
            PointerButton::Right => 4,
        }
    }
}

/// Turns a pointer offset into a wire coordinate.
pub fn to_coordinate(offset: i32) -> (value: u16)
    ensures
        value == coordinate(offset),
{
    if 0 <= offset && offset <= 0xffff {
        offset as u16
    } else {
        0
    }
}

/// Tells which button a pointer event speaks of.
pub fn to_pointer_button(button: i16, kind: MouseEventType) -> (which: PointerButton)
    ensures
        which == pointer_button(button, kind),
{
    if button == 0 {
        match kind {
            MouseEventType::Move => PointerButton::Nothing,
            _ => PointerButton::Left,
        }
    } else if button == 1 {
        PointerButton::Middle
    } else if button == 2 {
        PointerButton::Right
    } else {
        PointerButton::Nothing
    }
}

impl From<InputEvent> for WireInputEvent {
    /// Turns a local event into the event that goes over the wire.
    /// Nothing is refused: an unknown key has the code 0, an unknown button
    /// is no button, and a code the caller resolved passes as it is.
    fn from(event: InputEvent) -> (wire: WireInputEvent) {
        match event {
            InputEvent::Mouse(mouse, kind) => WireInputEvent::Pointer {
                x: to_coordinate(mouse.offset_x),
                y: to_coordinate(mouse.offset_y),
                button: to_pointer_button(mouse.button, kind),
                down: matches!(kind, MouseEventType::Down),
            },
            InputEvent::Keyboard(key, kind) => WireInputEvent::Key {
                code: to_scancode(key.code.as_str()),
                down: matches!(kind, KeyEventType::Down),
            },
            InputEvent::KeyCode(code, kind) => WireInputEvent::Key {
                code,
                down: matches!(kind, KeyEventType::Down),
            },
        }
    }
}

impl vstd::std_specs::convert::FromSpecImpl<InputEvent> for WireInputEvent {
    open spec fn obeys_from_spec() -> bool {
        true
    }

    open spec fn from_spec(event: InputEvent) -> WireInputEvent {
        wire_event(event)
    }
}

} // verus!
