//! The keys of a keyboard, and what each system calls them.
//!
//! A key has a number of its own on every system: an input event code on Linux,
//! a key code on macOS, a virtual key on Windows. The tables that lead from one
//! to another are right when both numbers belong to one key, and that is what
//! is stated here: key by key, against the numbers that the systems publish.

use crate::hotkeys::{chord_of, function_number, vk_named, with_modifier, HotkeyModifiers};
use crate::keys::{
    button_of_evdev, evdev_of_button, evdev_of_vk, law_mac_keys_send_what_they_stand_for,
    law_evdev_round_trip, law_only_the_enter_keys_share_a_virtual_key, mac_key_of_vk, mac_pairs,
    modifier_of, reaching, remapped_event, remapped_vk, vk_of_evdev, vk_of_mac_key,
    vk_of_modifier_name, LogicalModifier,
};
use crate::layout::LayoutState;
use crate::platform::Platform;
use crate::seqs::{first, lemma_first, lemma_first_is};
use crate::shared_input::{EventView, MouseButton};
use crate::text::parsed_u16;
use vstd::prelude::*;

verus! {

/// A key, by what is printed on it.
pub enum Key {
    /// A capital letter.
    Letter(char),
    /// A digit above the letters.
    Digit(int),
    /// A function key, from 1 on.
    Function(int),
    /// A digit of the keypad.
    Pad(int),
    Escape,
    Backspace,
    Tab,
    Enter,
    Space,
    Minus,
    Equal,
    LeftBracket,
    RightBracket,
    Semicolon,
    Apostrophe,
    Grave,
    Backslash,
    Comma,
    Dot,
    Slash,
    /// The key beside the left shift key of European keyboards.
    Extra,
    LeftControl,
    RightControl,
    LeftShift,
    RightShift,
    LeftAlt,
    RightAlt,
    LeftMeta,
    RightMeta,
    Menu,
    CapsLock,
    NumLock,
    ScrollLock,
    PrintScreen,
    Pause,
    /// The key labelled Help on a Mac keyboard.
    Insert,
    Delete,
    Home,
    End,
    PageUp,
    PageDown,
    Up,
    Down,
    Left,
    Right,
    PadStar,
    PadMinus,
    PadPlus,
    PadSlash,
    PadDot,
    PadEnter,
    Mute,
    VolumeDown,
    VolumeUp,
}

/// Whether a key is one that exists.
pub open spec fn exists_on_keyboards(key: Key) -> bool {
    match key {
        Key::Letter(c) => 'A' <= c <= 'Z',
        Key::Digit(n) => 0 <= n <= 9,
        Key::Function(n) => 1 <= n <= 24,
        Key::Pad(n) => 0 <= n <= 9,
        _ => true,
    }
}

/// The virtual key of a key: letters and digits have that of their character.
pub open spec fn virtual_key(key: Key) -> int {
    match key {
        Key::Letter(c) => c as int,
        Key::Digit(n) => '0' as int + n,
        Key::Function(n) => 0x6F + n,
        Key::Pad(n) => 0x60 + n,
        Key::Escape => 0x1B,
        Key::Backspace => 0x08,
        Key::Tab => 0x09,
        Key::Enter => 0x0D,
        Key::Space => 0x20,
        Key::Minus => 0xBD,
        Key::Equal => 0xBB,
        Key::LeftBracket => 0xDB,
        Key::RightBracket => 0xDD,
        Key::Semicolon => 0xBA,
        Key::Apostrophe => 0xDE,
        Key::Grave => 0xC0,
        Key::Backslash => 0xDC,
        Key::Comma => 0xBC,
        Key::Dot => 0xBE,
        Key::Slash => 0xBF,
        Key::Extra => 0xE2,
        Key::LeftControl => 0xA2,
        Key::RightControl => 0xA3,
        Key::LeftShift => 0xA0,
        Key::RightShift => 0xA1,
        Key::LeftAlt => 0xA4,
        Key::RightAlt => 0xA5,
        Key::LeftMeta => 0x5B,
        Key::RightMeta => 0x5C,
        Key::Menu => 0x5D,
        Key::CapsLock => 0x14,
        Key::NumLock => 0x90,
        Key::ScrollLock => 0x91,
        Key::PrintScreen => 0x2C,
        Key::Pause => 0x13,
        Key::Insert => 0x2D,
        Key::Delete => 0x2E,
        Key::Home => 0x24,
        Key::End => 0x23,
        Key::PageUp => 0x21,
        Key::PageDown => 0x22,
        Key::Up => 0x26,
        Key::Down => 0x28,
        Key::Left => 0x25,
        Key::Right => 0x27,
        Key::PadStar => 0x6A,
        Key::PadMinus => 0x6D,
        Key::PadPlus => 0x6B,
        Key::PadSlash => 0x6F,
        Key::PadDot => 0x6E,
        Key::PadEnter => 0x0D,
        Key::Mute => 0xAD,
        Key::VolumeDown => 0xAE,
        Key::VolumeUp => 0xAF,
    }
}

// ---------------------------------------------------------------------------
// Linux
// ---------------------------------------------------------------------------
/// The key of an input event code: the main block of the keyboard is numbered
/// row by row, and so is the keypad.
pub open spec fn key_of_event_code(code: int) -> Option<Key> {
    if 2 <= code <= 10 {
        Some(Key::Digit(code - 1))
    } else if 16 <= code <= 25 {
        Some(Key::Letter("QWERTYUIOP"@[code - 16]))
    } else if 30 <= code <= 38 {
        Some(Key::Letter("ASDFGHJKL"@[code - 30]))
    } else if 44 <= code <= 50 {
        Some(Key::Letter("ZXCVBNM"@[code - 44]))
    } else if 59 <= code <= 68 {
        Some(Key::Function(code - 58))
    } else if 71 <= code <= 73 {
        Some(Key::Pad(code - 64))
    } else if 75 <= code <= 77 {
        Some(Key::Pad(code - 71))
    } else if 79 <= code <= 81 {
        Some(Key::Pad(code - 78))
    } else if code == 1 {
        Some(Key::Escape)
    } else if code == 11 {
        Some(Key::Digit(0))
    } else if code == 12 {
        Some(Key::Minus)
    } else if code == 13 {
        Some(Key::Equal)
    } else if code == 14 {
        Some(Key::Backspace)
    } else if code == 15 {
        Some(Key::Tab)
    } else if code == 26 {
        Some(Key::LeftBracket)
    } else if code == 27 {
        Some(Key::RightBracket)
    } else if code == 28 {
        Some(Key::Enter)
    } else if code == 29 {
        Some(Key::LeftControl)
    } else if code == 39 {
        Some(Key::Semicolon)
    } else if code == 40 {
        Some(Key::Apostrophe)
    } else if code == 41 {
        Some(Key::Grave)
    } else if code == 42 {
        Some(Key::LeftShift)
    } else if code == 43 {
        Some(Key::Backslash)
    } else if code == 51 {
        Some(Key::Comma)
    } else if code == 52 {
        Some(Key::Dot)
    } else if code == 53 {
        Some(Key::Slash)
    } else if code == 54 {
        Some(Key::RightShift)
    } else if code == 55 {
        Some(Key::PadStar)
    } else if code == 56 {
        Some(Key::LeftAlt)
    } else if code == 57 {
        Some(Key::Space)
    } else if code == 58 {
        Some(Key::CapsLock)
    } else if code == 69 {
        Some(Key::NumLock)
    } else if code == 70 {
        Some(Key::ScrollLock)
    } else if code == 74 {
        Some(Key::PadMinus)
    } else if code == 78 {
        Some(Key::PadPlus)
    } else if code == 82 {
        Some(Key::Pad(0))
    } else if code == 83 {
        Some(Key::PadDot)
    } else if code == 86 {
        Some(Key::Extra)
    } else if code == 87 {
        Some(Key::Function(11))
    } else if code == 88 {
        Some(Key::Function(12))
    } else if code == 96 {
        Some(Key::PadEnter)
    } else if code == 97 {
        Some(Key::RightControl)
    } else if code == 98 {
        Some(Key::PadSlash)
    } else if code == 99 {
        Some(Key::PrintScreen)
    } else if code == 100 {
        Some(Key::RightAlt)
    } else if code == 102 {
        Some(Key::Home)
    } else if code == 103 {
        Some(Key::Up)
    } else if code == 104 {
        Some(Key::PageUp)
    } else if code == 105 {
        Some(Key::Left)
    } else if code == 106 {
        Some(Key::Right)
    } else if code == 107 {
        Some(Key::End)
    } else if code == 108 {
        Some(Key::Down)
    } else if code == 109 {
        Some(Key::PageDown)
    } else if code == 110 {
        Some(Key::Insert)
    } else if code == 111 {
        Some(Key::Delete)
    } else if code == 113 {
        Some(Key::Mute)
    } else if code == 114 {
        Some(Key::VolumeDown)
    } else if code == 115 {
        Some(Key::VolumeUp)
    } else if code == 119 {
        Some(Key::Pause)
    } else if code == 125 {
        Some(Key::LeftMeta)
    } else if code == 126 {
        Some(Key::RightMeta)
    } else if code == 127 {
        Some(Key::Menu)
    } else {
        None
    }
}

/// Each key that Linux reports is sent as the virtual key of that key, and a
/// code of no key is not sent at all.
pub proof fn law_linux_keys_are_sent_as_themselves(code: u32)
    ensures
        match key_of_event_code(code as int) {
            Some(key) => exists_on_keyboards(key) && vk_of_evdev(code) == Some(virtual_key(key) as u16)
                && 0 <= virtual_key(key) <= 0xFF,
            None => vk_of_evdev(code) is None,
        },
{
    reveal_strlit("QWERTYUIOP");
    reveal_strlit("ASDFGHJKL");
    reveal_strlit("ZXCVBNM");
}

/// The rows of letters, as text.
pub proof fn law_linux_letters_spell_the_rows(i: int)
    ensures
        0 <= i < 10 ==> vk_of_evdev((16 + i) as u32) == Some("QWERTYUIOP"@[i] as u16),
        0 <= i < 9 ==> vk_of_evdev((30 + i) as u32) == Some("ASDFGHJKL"@[i] as u16),
        0 <= i < 7 ==> vk_of_evdev((44 + i) as u32) == Some("ZXCVBNM"@[i] as u16),
{
    reveal_strlit("QWERTYUIOP");
    reveal_strlit("ASDFGHJKL");
    reveal_strlit("ZXCVBNM");
}

/// A virtual key is typed on Linux as the key that has it; of the two that
/// share one it is the keypad's Enter.
pub proof fn law_linux_types_the_key_that_was_meant(code: u32)
    requires
        key_of_event_code(code as int) is Some,
    ensures
        ({
            let key = key_of_event_code(code as int)->0;
            let typed = evdev_of_vk(virtual_key(key) as u16);
            if key is Enter {
                typed is Some && key_of_event_code(typed->0 as int) == Some(Key::PadEnter)
            } else {
                typed == Some(code)
            }
        }),
{
    let key = key_of_event_code(code as int)->0;
    let vk = virtual_key(key) as u16;
    law_linux_keys_are_sent_as_themselves(code);
    law_evdev_round_trip(code);
    let typed = evdev_of_vk(vk)->0;
    if typed != code {
        if typed < code {
            law_only_the_enter_keys_share_a_virtual_key(typed, code);
        } else {
            law_only_the_enter_keys_share_a_virtual_key(code, typed);
        }
    }
    if key is Enter {
        law_linux_keys_are_sent_as_themselves(96);
        crate::keys::lemma_evdev_below(vk, 256, 96);
    }
    if key is PadEnter {
        crate::keys::lemma_evdev_below(vk, 256, 96);
    }
}

// ---------------------------------------------------------------------------
// macOS
// ---------------------------------------------------------------------------
/// The key of a macOS key code. The codes follow the first Mac keyboard, which
/// was numbered in no order of rows.
pub open spec fn key_of_mac_code(code: int) -> Option<Key> {
    if 0 <= code <= 9 {
        Some(Key::Letter("ASDFHGZXCV"@[code]))
    } else if 11 <= code <= 17 {
        Some(Key::Letter("BQWERYT"@[code - 11]))
    } else if 18 <= code <= 21 {
        Some(Key::Digit(code - 17))
    } else if code == 22 {
        Some(Key::Digit(6))
    } else if code == 23 {
        Some(Key::Digit(5))
    } else if code == 24 {
        Some(Key::Equal)
    } else if code == 25 {
        Some(Key::Digit(9))
    } else if code == 26 {
        Some(Key::Digit(7))
    } else if code == 27 {
        Some(Key::Minus)
    } else if code == 28 {
        Some(Key::Digit(8))
    } else if code == 29 {
        Some(Key::Digit(0))
    } else if code == 30 {
        Some(Key::RightBracket)
    } else if 31 <= code <= 32 {
        Some(Key::Letter("OU"@[code - 31]))
    } else if code == 33 {
        Some(Key::LeftBracket)
    } else if 34 <= code <= 35 {
        Some(Key::Letter("IP"@[code - 34]))
    } else if code == 36 {
        Some(Key::Enter)
    } else if 37 <= code <= 38 {
        Some(Key::Letter("LJ"@[code - 37]))
    } else if code == 39 {
        Some(Key::Apostrophe)
    } else if code == 40 {
        Some(Key::Letter('K'))
    } else if code == 41 {
        Some(Key::Semicolon)
    } else if code == 42 {
        Some(Key::Backslash)
    } else if code == 43 {
        Some(Key::Comma)
    } else if code == 44 {
        Some(Key::Slash)
    } else if 45 <= code <= 46 {
        Some(Key::Letter("NM"@[code - 45]))
    } else if code == 47 {
        Some(Key::Dot)
    } else if code == 48 {
        Some(Key::Tab)
    } else if code == 49 {
        Some(Key::Space)
    } else if code == 50 {
        Some(Key::Grave)
    } else if code == 51 {
        Some(Key::Backspace)
    } else if code == 53 {
        Some(Key::Escape)
    } else if code == 54 {
        Some(Key::RightMeta)
    } else if code == 55 {
        Some(Key::LeftMeta)
    } else if code == 56 {
        Some(Key::LeftShift)
    } else if code == 57 {
        Some(Key::CapsLock)
    } else if code == 58 {
        Some(Key::LeftAlt)
    } else if code == 59 {
        Some(Key::LeftControl)
    } else if code == 60 {
        Some(Key::RightShift)
    } else if code == 61 {
        Some(Key::RightAlt)
    } else if code == 62 {
        Some(Key::RightControl)
    } else if code == 64 {
        Some(Key::Function(17))
    } else if code == 65 {
        Some(Key::PadDot)
    } else if code == 67 {
        Some(Key::PadStar)
    } else if code == 69 {
        Some(Key::PadPlus)
    } else if code == 71 {
        Some(Key::NumLock)
    } else if code == 75 {
        Some(Key::PadSlash)
    } else if code == 76 {
        Some(Key::PadEnter)
    } else if code == 78 {
        Some(Key::PadMinus)
    } else if 82 <= code <= 89 {
        Some(Key::Pad(code - 82))
    } else if 91 <= code <= 92 {
        Some(Key::Pad(code - 83))
    } else if 96 <= code <= 98 {
        Some(Key::Function(code - 91))
    } else if code == 99 {
        Some(Key::Function(3))
    } else if 100 <= code <= 101 {
        Some(Key::Function(code - 92))
    } else if code == 103 {
        Some(Key::Function(11))
    } else if code == 105 {
        Some(Key::Function(13))
    } else if code == 106 {
        Some(Key::Function(16))
    } else if code == 107 {
        Some(Key::Function(14))
    } else if code == 109 {
        Some(Key::Function(10))
    } else if code == 111 {
        Some(Key::Function(12))
    } else if code == 114 {
        Some(Key::Insert)
    } else if code == 115 {
        Some(Key::Home)
    } else if code == 116 {
        Some(Key::PageUp)
    } else if code == 117 {
        Some(Key::Delete)
    } else if code == 118 {
        Some(Key::Function(4))
    } else if code == 119 {
        Some(Key::End)
    } else if code == 120 {
        Some(Key::Function(2))
    } else if code == 121 {
        Some(Key::PageDown)
    } else if code == 122 {
        Some(Key::Function(1))
    } else if code == 123 {
        Some(Key::Left)
    } else if code == 124 {
        Some(Key::Right)
    } else if code == 125 {
        Some(Key::Down)
    } else if code == 126 {
        Some(Key::Up)
    } else {
        None
    }
}

proof fn lemma_mac_letters()
    ensures
        "ASDFHGZXCV"@ == seq!['A', 'S', 'D', 'F', 'H', 'G', 'Z', 'X', 'C', 'V'],
        "BQWERYT"@ == seq!['B', 'Q', 'W', 'E', 'R', 'Y', 'T'],
        "OU"@ == seq!['O', 'U'],
        "IP"@ == seq!['I', 'P'],
        "LJ"@ == seq!['L', 'J'],
        "NM"@ == seq!['N', 'M'],
{
    reveal_strlit("ASDFHGZXCV");
    reveal_strlit("BQWERYT");
    reveal_strlit("OU");
    reveal_strlit("IP");
    reveal_strlit("LJ");
    reveal_strlit("NM");
}

/// Each key that a Mac reports is sent as the virtual key of that key. Of the
/// keys that Windows lacks, two go as a neighbour: Fn as the Windows key, and
/// the keypad's equals sign as its minus. No other code is sent.
pub proof fn law_mac_keys_are_sent_as_themselves(code: u16)
    ensures
        match key_of_mac_code(code as int) {
            Some(key) => exists_on_keyboards(key) && vk_of_mac_key(code) == Some(virtual_key(key) as u16)
                && 0 <= virtual_key(key) <= 0xFF,
            None => if code == 63 {
                vk_of_mac_key(code) == Some(virtual_key(Key::LeftMeta) as u16)
            } else if code == 81 {
                vk_of_mac_key(code) == Some(virtual_key(Key::PadMinus) as u16)
            } else {
                vk_of_mac_key(code) is None
            },
        },
{
    lemma_mac_letters();
}

/// Where in the list of pairs a key code stands with the key's own virtual key.
spec fn place_in_pairs(code: int) -> int {
    if code <= 9 {
        code
    } else if code <= 51 {
        code - 1
    } else if code <= 55 {
        code - 2
    } else if code <= 57 {
        code - 1
    } else if code == 58 {
        58
    } else if code <= 65 {
        code + 1
    } else if code == 67 {
        67
    } else if code == 69 {
        68
    } else if code == 71 {
        69
    } else if code <= 76 {
        code - 5
    } else if code == 78 {
        72
    } else if code <= 89 {
        code - 8
    } else if code <= 92 {
        code - 9
    } else if code <= 101 {
        code - 12
    } else if code == 103 {
        90
    } else if code <= 107 {
        code - 14
    } else if code == 109 {
        94
    } else if code == 111 {
        95
    } else {
        code - 18
    }
}

proof fn lemma_place_in_pairs(code: u16)
    requires
        vk_of_mac_key(code) is Some,
    ensures
        0 <= place_in_pairs(code as int) < mac_pairs().len(),
        mac_pairs()[place_in_pairs(code as int)] == (code, vk_of_mac_key(code)->0),
{
}

proof fn lemma_mac_keys_apart(a: u16, b: u16)
    requires
        a < b,
        vk_of_mac_key(a) is Some,
        vk_of_mac_key(a) == vk_of_mac_key(b),
    ensures
        (a, b) == (36u16, 76u16) || (a, b) == (55u16, 63u16) || (a, b) == (78u16, 81u16),
{
}

proof fn lemma_none_before(vk: u16, n: int)
    requires
        (vk, n) == (0x0Du16, 35int) || (vk, n) == (0x5Bu16, 53int) || (vk, n) == (0x6Du16, 72int),
    ensures
        forall|j: int| 0 <= j < n ==> (#[trigger] mac_pairs()[j]).1 != vk,
{
}

/// A virtual key is typed on a Mac as the key that has it; of the two Enter
/// keys, which share one, it is the main one.
pub proof fn law_a_mac_types_the_key_that_was_meant(code: u16)
    requires
        key_of_mac_code(code as int) is Some,
    ensures
        ({
            let key = key_of_mac_code(code as int)->0;
            let typed = mac_key_of_vk(virtual_key(key) as u16);
            if key is PadEnter {
                typed is Some && key_of_mac_code(typed->0 as int) == Some(Key::Enter)
            } else {
                typed == Some(code)
            }
        }),
{
    law_mac_keys_are_sent_as_themselves(code);
    let key = key_of_mac_code(code as int)->0;
    let vk = virtual_key(key) as u16;
    lemma_place_in_pairs(code);
    lemma_first(mac_pairs(), reaching(vk));
    assert(reaching(vk)(mac_pairs()[place_in_pairs(code as int)]));
    let typed = mac_key_of_vk(vk)->0;
    law_mac_keys_send_what_they_stand_for(vk);
    if vk == 0x0D {
        lemma_none_before(vk, 35);
        lemma_place_in_pairs(36);
        lemma_first_is(mac_pairs(), reaching(vk), 35);
    } else if vk == 0x5B {
        lemma_none_before(vk, 53);
        lemma_place_in_pairs(55);
        lemma_first_is(mac_pairs(), reaching(vk), 53);
    } else if vk == 0x6D {
        lemma_none_before(vk, 72);
        lemma_place_in_pairs(78);
        lemma_first_is(mac_pairs(), reaching(vk), 72);
    } else {
        if typed < code {
            lemma_mac_keys_apart(typed, code);
        } else if code < typed {
            lemma_mac_keys_apart(code, typed);
        }
    }
}

/// A key that both systems have comes out alike from either.
pub proof fn law_linux_and_mac_agree_on_every_key(event_code: u32, mac_code: u16)
    requires
        key_of_event_code(event_code as int) is Some,
        key_of_event_code(event_code as int) == key_of_mac_code(mac_code as int),
    ensures
        vk_of_evdev(event_code) is Some,
        vk_of_evdev(event_code) == vk_of_mac_key(mac_code),
{
    law_linux_keys_are_sent_as_themselves(event_code);
    law_mac_keys_are_sent_as_themselves(mac_code);
}

// ---------------------------------------------------------------------------
// Modifiers
// ---------------------------------------------------------------------------
/// The modifier that a key is, whichever side it is on. Shift is none of those
/// that are remapped.
pub open spec fn modifier_key(key: Key) -> Option<LogicalModifier> {
    match key {
        Key::LeftControl => Some(LogicalModifier::Control),
        Key::RightControl => Some(LogicalModifier::Control),
        Key::LeftAlt => Some(LogicalModifier::Alt),
        Key::RightAlt => Some(LogicalModifier::Alt),
        Key::LeftMeta => Some(LogicalModifier::Meta),
        Key::RightMeta => Some(LogicalModifier::Meta),
        _ => None,
    }
}

/// The virtual key that stands for a modifier on either side.
pub open spec fn sideless_key(modifier: LogicalModifier) -> int {
    match modifier {
        LogicalModifier::Control => 0x11,
        LogicalModifier::Alt => 0x12,
        LogicalModifier::Meta => 0x5B,
    }
}

/// The name of a modifier in the settings.
pub open spec fn modifier_name(modifier: LogicalModifier) -> Seq<char> {
    match modifier {
        LogicalModifier::Control => "control"@,
        LogicalModifier::Alt => "alt"@,
        LogicalModifier::Meta => "meta"@,
    }
}

/// A virtual key is taken for a modifier exactly when it is one's.
pub proof fn law_modifiers_are_known_by_their_keys(key: Key, modifier: LogicalModifier)
    requires
        exists_on_keyboards(key),
    ensures
        modifier_of(virtual_key(key) as u16) == modifier_key(key),
        modifier_of(sideless_key(modifier) as u16) == Some(modifier),
{
}

/// A setting that names a modifier stands for a key of that modifier, and any
/// other text for none.
pub proof fn law_modifier_names_stand_for_their_keys(modifier: LogicalModifier, name: Seq<char>)
    ensures
        vk_of_modifier_name(modifier_name(modifier)) == Some(sideless_key(modifier) as u16),
        vk_of_modifier_name(name) is Some ==> exists|m: LogicalModifier|
            name == #[trigger] modifier_name(m),
{
    reveal_strlit("control");
    reveal_strlit("alt");
    reveal_strlit("meta");
    assert("control"@.len() == 7 && "alt"@.len() == 3 && "meta"@.len() == 4);
    assert(modifier_name(LogicalModifier::Control) == "control"@);
    assert(modifier_name(LogicalModifier::Alt) == "alt"@);
    assert(modifier_name(LogicalModifier::Meta) == "meta"@);
}

/// A remapped modifier becomes the one that the setting of its own modifier
/// names; where that names none it stays as it is, and so does every other key.
pub proof fn law_a_modifier_becomes_the_named_one(
    key: Key,
    to: LogicalModifier,
    control: Seq<char>,
    alt: Seq<char>,
    meta: Seq<char>,
)
    requires
        exists_on_keyboards(key),
    ensures
        ({
            let vk = virtual_key(key) as u16;
            let r = remapped_vk(vk, control, alt, meta);
            match modifier_key(key) {
                None => r == vk,
                Some(modifier) => {
                    let setting = match modifier {
                        LogicalModifier::Control => control,
                        LogicalModifier::Alt => alt,
                        LogicalModifier::Meta => meta,
                    };
                    &&& setting == modifier_name(to) ==> r == sideless_key(to)
                    &&& (forall|m: LogicalModifier| setting != #[trigger] modifier_name(m)) ==> r
                        == vk
                },
            }
        }),
{
    law_modifiers_are_known_by_their_keys(key, to);
    law_modifier_names_stand_for_their_keys(to, control);
    law_modifier_names_stand_for_their_keys(to, alt);
    law_modifier_names_stand_for_their_keys(to, meta);
}

/// Modifiers are remapped on the way from one system to a Mac or a Windows
/// machine that is not of the same system, where the layout asks for it, each
/// after the setting of its own name. Between machines of one system, and of
/// everything that is no key, nothing changes.
pub proof fn law_keys_are_remapped_between_systems(
    key: Key,
    to: LogicalModifier,
    down: bool,
    other: EventView,
    own: Platform,
    layout: LayoutState,
)
    requires
        exists_on_keyboards(key),
        !(other is Key),
    ensures
        ({
            let pressed = EventView::Key { key_code: virtual_key(key) as u16, down };
            let changed = EventView::Key { key_code: sideless_key(to) as u16, down };
            let setting = match modifier_key(key) {
                Some(LogicalModifier::Control) => layout.modifier_map.control@,
                Some(LogicalModifier::Alt) => layout.modifier_map.alt@,
                Some(LogicalModifier::Meta) => layout.modifier_map.meta@,
                None => seq![],
            };
            let asked = layout.modifier_remap && modifier_key(key) is Some && setting
                == modifier_name(to);
            let on_windows = remapped_event(pressed, "windows"@, own, layout);
            let on_a_mac = remapped_event(pressed, "macos"@, own, layout);
            &&& asked && own != Platform::Windows ==> on_windows == changed
            &&& asked && own != Platform::MacOs ==> on_a_mac == changed
            &&& own == Platform::Windows ==> on_windows == pressed
            &&& own == Platform::MacOs ==> on_a_mac == pressed
            &&& remapped_event(pressed, "linux"@, own, layout) == pressed
            &&& !layout.modifier_remap ==> on_windows == pressed && on_a_mac == pressed
            &&& modifier_key(key) is None ==> on_windows == pressed && on_a_mac == pressed
            &&& remapped_event(other, "windows"@, own, layout) == other
            &&& remapped_event(other, "macos"@, own, layout) == other
        }),
{
    let map = layout.modifier_map;
    law_a_modifier_becomes_the_named_one(key, to, map.control@, map.alt@, map.meta@);
    reveal_strlit("windows");
    reveal_strlit("macos");
    reveal_strlit("linux");
    reveal_strlit("unknown");
    assert("windows"@.len() == 7 && "macos"@.len() == 5 && "linux"@.len() == 5 && "unknown"@.len()
        == 7);
    assert("windows"@[0] != "unknown"@[0]);
    assert("macos"@[0] != "linux"@[0]);
}

/// The modifiers that peers send without a side are typed on a Mac as the key on
/// the left.
pub proof fn law_sideless_modifiers_go_to_the_left_on_a_mac()
    ensures
        mac_key_of_vk(0x10) matches Some(code) && key_of_mac_code(code as int) == Some(
            Key::LeftShift,
        ),
        mac_key_of_vk(0x11) matches Some(code) && key_of_mac_code(code as int) == Some(
            Key::LeftControl,
        ),
        mac_key_of_vk(0x12) matches Some(code) && key_of_mac_code(code as int) == Some(
            Key::LeftAlt,
        ),
{
    lemma_sideless_pair(0x10, 54, 56);
    lemma_sideless_pair(0x12, 57, 58);
    lemma_sideless_pair(0x11, 59, 59);
}

proof fn lemma_sideless_pair(vk: u16, place: int, code: u16)
    requires
        (vk, place, code) == (0x10u16, 54int, 56u16) || (vk, place, code) == (0x12u16, 57int, 58u16)
            || (vk, place, code) == (0x11u16, 59int, 59u16),
    ensures
        mac_key_of_vk(vk) == Some(code),
{
    assert(mac_pairs()[place] == (code, vk));
    assert forall|j: int| 0 <= j < place implies !reaching(vk)(#[trigger] mac_pairs()[j]) by {}
    lemma_first_is(mac_pairs(), reaching(vk), place);
}

// ---------------------------------------------------------------------------
// Buttons
// ---------------------------------------------------------------------------
/// The buttons in the order in which Linux numbers them.
pub open spec fn button_place(button: MouseButton) -> int {
    match button {
        MouseButton::Left => 0,
        MouseButton::Right => 1,
        MouseButton::Middle => 2,
        MouseButton::Back => 3,
        MouseButton::Forward => 4,
    }
}

/// A button has the Linux code of its place in that order, both ways.
pub proof fn law_linux_buttons_are_numbered_in_order(button: MouseButton)
    ensures
        evdev_of_button(button) == 0x110 + button_place(button),
        button_of_evdev((0x110 + button_place(button)) as u32) matches Some(read) && read.button()
            == button,
{
}

// ---------------------------------------------------------------------------
// Names in chords
// ---------------------------------------------------------------------------
/// Whether a text names a key in a chord.
pub open spec fn named_by(key: Key, name: Seq<char>) -> bool {
    match key {
        Key::Letter(c) => name.len() == 1 && (name[0] == c || name[0] as int == c as int + 32),
        Key::Digit(n) => name.len() == 1 && name[0] as int == '0' as int + n,
        Key::Function(n) => name.len() > 1 && name[0] == 'f' && parsed_u16(name.drop_first())
            == Some(n as u16),
        Key::Space => name == "space"@ || name == "spacebar"@,
        Key::Tab => name == "tab"@,
        Key::Enter => name == "enter"@ || name == "return"@,
        Key::Escape => name == "esc"@ || name == "escape"@,
        Key::ScrollLock => name == "scrolllock"@ || name == "scroll"@ || name == "scrlk"@,
        Key::Up => name == "up"@ || name == "arrowup"@,
        Key::Down => name == "down"@ || name == "arrowdown"@,
        Key::Left => name == "left"@ || name == "arrowleft"@,
        Key::Right => name == "right"@ || name == "arrowright"@,
        _ => false,
    }
}

proof fn lemma_key_names()
    ensures
        "space"@ == seq!['s', 'p', 'a', 'c', 'e'],
        "spacebar"@ == seq!['s', 'p', 'a', 'c', 'e', 'b', 'a', 'r'],
        "tab"@ == seq!['t', 'a', 'b'],
        "enter"@ == seq!['e', 'n', 't', 'e', 'r'],
        "return"@ == seq!['r', 'e', 't', 'u', 'r', 'n'],
        "esc"@ == seq!['e', 's', 'c'],
        "escape"@ == seq!['e', 's', 'c', 'a', 'p', 'e'],
        "scrolllock"@ == seq!['s', 'c', 'r', 'o', 'l', 'l', 'l', 'o', 'c', 'k'],
        "scroll"@ == seq!['s', 'c', 'r', 'o', 'l', 'l'],
        "scrlk"@ == seq!['s', 'c', 'r', 'l', 'k'],
        "up"@ == seq!['u', 'p'],
        "arrowup"@ == seq!['a', 'r', 'r', 'o', 'w', 'u', 'p'],
        "down"@ == seq!['d', 'o', 'w', 'n'],
        "arrowdown"@ == seq!['a', 'r', 'r', 'o', 'w', 'd', 'o', 'w', 'n'],
        "left"@ == seq!['l', 'e', 'f', 't'],
        "arrowleft"@ == seq!['a', 'r', 'r', 'o', 'w', 'l', 'e', 'f', 't'],
        "right"@ == seq!['r', 'i', 'g', 'h', 't'],
        "arrowright"@ == seq!['a', 'r', 'r', 'o', 'w', 'r', 'i', 'g', 'h', 't'],
{
    reveal_strlit("space");
    reveal_strlit("spacebar");
    reveal_strlit("tab");
    reveal_strlit("enter");
    reveal_strlit("return");
    reveal_strlit("esc");
    reveal_strlit("escape");
    reveal_strlit("scrolllock");
    reveal_strlit("scroll");
    reveal_strlit("scrlk");
    reveal_strlit("up");
    reveal_strlit("arrowup");
    reveal_strlit("down");
    reveal_strlit("arrowdown");
    reveal_strlit("left");
    reveal_strlit("arrowleft");
    reveal_strlit("right");
    reveal_strlit("arrowright");
}

/// Each name of a key in a chord stands for the virtual key of that key.
pub proof fn law_key_names_stand_for_their_keys(key: Key, name: Seq<char>)
    requires
        exists_on_keyboards(key),
        named_by(key, name),
    ensures
        vk_named(name) == Some(virtual_key(key) as u16),
{
    lemma_key_names();
    assert(function_number(name) is Some ==> name[0] == 'f');
}

/// A text that names no key stands for none.
pub proof fn law_only_key_names_stand_for_keys(name: Seq<char>)
    ensures
        vk_named(name) is Some ==> exists|key: Key|
            #![trigger named_by(key, name)]
            exists_on_keyboards(key) && named_by(key, name),
{
    if vk_named(name) is Some {
        if name.len() == 1 && 'a' <= name[0] <= 'z' {
            assert(named_by(Key::Letter((name[0] as u32 - 32) as char), name));
        } else if name.len() == 1 && 'A' <= name[0] <= 'Z' {
            assert(named_by(Key::Letter(name[0]), name));
        } else if name.len() == 1 && '0' <= name[0] <= '9' {
            assert(named_by(Key::Digit(name[0] as int - '0' as int), name));
        } else if function_number(name) is Some {
            assert(named_by(Key::Function(function_number(name)->0 as int), name));
        } else {
            lemma_key_names();
            assert(named_by(Key::Space, name) || named_by(Key::Tab, name) || named_by(
                Key::Enter,
                name,
            ) || named_by(Key::Escape, name) || named_by(Key::ScrollLock, name) || named_by(
                Key::Up,
                name,
            ) || named_by(Key::Down, name) || named_by(Key::Left, name) || named_by(
                Key::Right,
                name,
            ));
        }
    }
}

/// The arrow keys: a chord that names one answers to what either system sends
/// for that arrow, and to no other arrow.
pub proof fn law_arrow_names_mean_the_arrow_keys(
    key: Key,
    name: Seq<char>,
    event_code: u32,
    mac_code: u16,
    other: Key,
)
    requires
        key is Up || key is Down || key is Left || key is Right,
        other is Up || other is Down || other is Left || other is Right,
        named_by(key, name),
        key_of_event_code(event_code as int) == Some(key),
        key_of_mac_code(mac_code as int) == Some(key),
    ensures
        vk_named(name) is Some,
        vk_named(name) == vk_of_evdev(event_code),
        vk_named(name) == vk_of_mac_key(mac_code),
        vk_named(name) == Some(virtual_key(other) as u16) ==> other == key,
{
    law_key_names_stand_for_their_keys(key, name);
    law_linux_keys_are_sent_as_themselves(event_code);
    law_mac_keys_are_sent_as_themselves(mac_code);
}

/// A chord that names a key answers to what Linux and macOS send for that key.
pub proof fn law_chords_answer_to_the_key_they_name(
    key: Key,
    name: Seq<char>,
    event_code: u32,
    mac_code: u16,
)
    requires
        exists_on_keyboards(key),
        named_by(key, name),
    ensures
        key_of_event_code(event_code as int) == Some(key) ==> vk_named(name) == vk_of_evdev(
            event_code,
        ),
        key_of_mac_code(mac_code as int) == Some(key) ==> vk_named(name) == vk_of_mac_key(mac_code),
{
    law_key_names_stand_for_their_keys(key, name);
    law_linux_keys_are_sent_as_themselves(event_code);
    law_mac_keys_are_sent_as_themselves(mac_code);
}

// ---------------------------------------------------------------------------
// Chords
// ---------------------------------------------------------------------------
pub open spec fn names_control(piece: Seq<char>) -> bool {
    piece == "ctrl"@ || piece == "control"@
}

pub open spec fn names_alt(piece: Seq<char>) -> bool {
    piece == "alt"@ || piece == "option"@
}

pub open spec fn names_shift(piece: Seq<char>) -> bool {
    piece == "shift"@
}

pub open spec fn names_meta(piece: Seq<char>) -> bool {
    piece == "meta"@ || piece == "cmd"@ || piece == "command"@ || piece == "win"@ || piece
        == "windows"@ || piece == "super"@ || piece == "os"@
}

pub open spec fn names_a_modifier(piece: Seq<char>) -> bool {
    names_control(piece) || names_alt(piece) || names_shift(piece) || names_meta(piece)
}

proof fn lemma_modifier_names()
    ensures
        "ctrl"@ == seq!['c', 't', 'r', 'l'],
        "control"@ == seq!['c', 'o', 'n', 't', 'r', 'o', 'l'],
        "alt"@ == seq!['a', 'l', 't'],
        "option"@ == seq!['o', 'p', 't', 'i', 'o', 'n'],
        "shift"@ == seq!['s', 'h', 'i', 'f', 't'],
        "meta"@ == seq!['m', 'e', 't', 'a'],
        "cmd"@ == seq!['c', 'm', 'd'],
        "command"@ == seq!['c', 'o', 'm', 'm', 'a', 'n', 'd'],
        "win"@ == seq!['w', 'i', 'n'],
        "windows"@ == seq!['w', 'i', 'n', 'd', 'o', 'w', 's'],
        "super"@ == seq!['s', 'u', 'p', 'e', 'r'],
        "os"@ == seq!['o', 's'],
{
    reveal_strlit("ctrl");
    reveal_strlit("control");
    reveal_strlit("alt");
    reveal_strlit("option");
    reveal_strlit("shift");
    reveal_strlit("meta");
    reveal_strlit("cmd");
    reveal_strlit("command");
    reveal_strlit("win");
    reveal_strlit("windows");
    reveal_strlit("super");
    reveal_strlit("os");
}

/// A modifier's name adds that modifier to a chord and takes none away; any
/// other piece names none.
pub proof fn law_modifier_names_add_their_modifier(required: HotkeyModifiers, piece: Seq<char>)
    ensures
        with_modifier(required, piece) is Some <==> names_a_modifier(piece),
        with_modifier(required, piece) matches Some(r) ==> {
            &&& r.ctrl == (required.ctrl || names_control(piece))
            &&& r.alt == (required.alt || names_alt(piece))
            &&& r.shift == (required.shift || names_shift(piece))
            &&& r.meta == (required.meta || names_meta(piece))
        },
{
    lemma_modifier_names();
}

/// What a chord asks for: each of the modifiers that some piece of it names and
/// no other, whatever their order, and the key that its one other piece names.
pub proof fn law_a_chord_asks_for_what_its_pieces_name(parts: Seq<Seq<char>>, n: nat)
    requires
        n <= parts.len(),
    ensures
        chord_of(parts, n) matches Some(chord) ==> {
            &&& chord.required.ctrl <==> exists|i: int|
                0 <= i < n && names_control(#[trigger] parts[i])
            &&& chord.required.alt <==> exists|i: int| 0 <= i < n && names_alt(#[trigger] parts[i])
            &&& chord.required.shift <==> exists|i: int|
                0 <= i < n && names_shift(#[trigger] parts[i])
            &&& chord.required.meta <==> exists|i: int|
                0 <= i < n && names_meta(#[trigger] parts[i])
            &&& chord.main_key matches Some(vk) ==> exists|i: int|
                0 <= i < n && !names_a_modifier(#[trigger] parts[i]) && vk_named(parts[i])
                    == Some(vk)
        },
    decreases n,
{
    if n > 0 {
        law_a_chord_asks_for_what_its_pieces_name(parts, (n - 1) as nat);
        match chord_of(parts, (n - 1) as nat) {
            Some(before) => {
                let piece = parts[n - 1];
                law_modifier_names_add_their_modifier(before.required, piece);
                if piece.len() == 0 {
                    lemma_modifier_names();
                }
            },
            None => {},
        }
    }
}

/// A list of modifiers and one key is a chord for that key.
pub proof fn law_modifiers_and_one_key_make_a_chord(parts: Seq<Seq<char>>, at: int, n: nat, vk: u16)
    requires
        n <= parts.len(),
        0 <= at < parts.len(),
        vk_named(parts[at]) == Some(vk),
        !names_a_modifier(parts[at]),
        parts[at].len() > 0,
        forall|i: int| 0 <= i < parts.len() && i != at ==> names_a_modifier(#[trigger] parts[i]),
    ensures
        chord_of(parts, n) is Some,
        (chord_of(parts, n)->0).main_key == (if at < n {
            Some(vk)
        } else {
            None
        }),
    decreases n,
{
    if n > 0 {
        law_modifiers_and_one_key_make_a_chord(parts, at, (n - 1) as nat, vk);
        let before = chord_of(parts, (n - 1) as nat)->0;
        law_modifier_names_add_their_modifier(before.required, parts[n - 1]);
        lemma_modifier_names();
    }
}

} // verus!
