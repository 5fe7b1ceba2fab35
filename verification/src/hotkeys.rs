//! Key chords that move control between screens.

use crate::layout::{LayoutState, ScreenSwitchHotkeys};
use crate::text::{
    char_lists, chars_of, lower_chars, lowered, parse_u16, parsed_u16, pieces, same, split, text_of,
    trim, trimmed,
};
use vstd::prelude::*;

verus! {

/// The modifiers of a chord, whichever side they are on.
#[derive(Clone, Copy, Debug, PartialEq, Eq, Structural)]
pub struct HotkeyModifiers {
    pub ctrl: bool,
    pub alt: bool,
    pub shift: bool,
    pub meta: bool,
}

impl Default for HotkeyModifiers {
    fn default() -> (r: HotkeyModifiers)
        ensures
            r == no_modifiers(),
    {
        HotkeyModifiers { ctrl: false, alt: false, shift: false, meta: false }
    }
}

pub open spec fn no_modifiers() -> HotkeyModifiers {
    HotkeyModifiers { ctrl: false, alt: false, shift: false, meta: false }
}

/// A chord as it is read: lower case, without blanks.
pub open spec fn normalized(value: Seq<char>) -> Seq<char> {
    without_spaces(lowered(trimmed(value)))
}

pub open spec fn without_spaces(s: Seq<char>) -> Seq<char>
    decreases s.len(),
{
    if s.len() == 0 {
        s
    } else if s.last() == ' ' {
        without_spaces(s.drop_last())
    } else {
        without_spaces(s.drop_last()).push(s.last())
    }
}

fn normalize(value: &str) -> (r: Vec<char>)
    ensures
        r@ == normalized(value@),
{
    let lower = lower_chars(trim(value));
    let mut out: Vec<char> = Vec::new();
    let mut i: usize = 0;
    while i < lower.len()
        invariant
            i <= lower.len(),
            out@ == without_spaces(lower@.take(i as int)),
        decreases lower.len() - i,
    {
        assert(lower@.take(i + 1).drop_last() =~= lower@.take(i as int));
        if lower[i] != ' ' {
            out.push(lower[i]);
        }
        i = i + 1;
    }
    assert(lower@.take(lower.len() as int) =~= lower@);
    out
}

/// The virtual key that a name in a chord stands for.
pub open spec fn vk_named(key: Seq<char>) -> Option<u16> {
    if key.len() == 1 && 'a' <= key[0] <= 'z' {
        Some((key[0] as u32 - 32) as u16)
    } else if key.len() == 1 && ('A' <= key[0] <= 'Z' || '0' <= key[0] <= '9') {
        Some(key[0] as u16)
    } else {
        match function_number(key) {
            Some(n) => Some((0x70 + n - 1) as u16),
            None => if key == "space"@ || key == "spacebar"@ {
                Some(0x20)
            } else if key == "tab"@ {
                Some(0x09)
            } else if key == "enter"@ || key == "return"@ {
                Some(0x0D)
            } else if key == "esc"@ || key == "escape"@ {
                Some(0x1B)
            } else if key == "scrolllock"@ || key == "scroll"@ || key == "scrlk"@ {
                Some(0x91)
            } else if key == "up"@ || key == "arrowup"@ {
                Some(0x26)
            } else if key == "down"@ || key == "arrowdown"@ {
                Some(0x28)
            } else if key == "left"@ || key == "arrowleft"@ {
                Some(0x25)
            } else if key == "right"@ || key == "arrowright"@ {
                Some(0x27)
            } else {
                None
            },
        }
    }
}

/// The number of a function key, from 1 to 24.
pub open spec fn function_number(key: Seq<char>) -> Option<u16> {
    if key.len() > 0 && key[0] == 'f' {
        match parsed_u16(key.drop_first()) {
            Some(n) => if 1 <= n <= 24 {
                Some(n)
            } else {
                None
            },
            None => None,
        }
    } else {
        None
    }
}

fn function_key(key: &Vec<char>) -> (r: Option<u16>)
    ensures
        r == function_number(key@),
{
    if key.len() == 0 || key[0] != 'f' {
        return None;
    }
    let mut rest: Vec<char> = Vec::new();
    let mut i: usize = 1;
    while i < key.len()
        invariant
            1 <= i <= key.len(),
            rest@ == key@.subrange(1, i as int),
        decreases key.len() - i,
    {
        rest.push(key[i]);
        i = i + 1;
    }
    assert(rest@ =~= key@.drop_first());
    match parse_u16(&rest) {
        Some(n) => if 1 <= n && n <= 24 {
            Some(n)
        } else {
            None
        },
        None => None,
    }
}

pub fn hotkey_key_to_windows_vk(key: &str) -> (r: Option<u16>)
    ensures
        r == vk_named(key@),
{
    let chars = chars_of(key);
    if chars.len() == 1 {
        let c: char = chars[0];
        if 'a' <= c && c <= 'z' {
            return Some((c as u8 - 32) as u16);
        }
        if ('A' <= c && c <= 'Z') || ('0' <= c && c <= '9') {
            return Some(c as u8 as u16);
        }
    }
    if let Some(n) = function_key(&chars) {
        return Some(0x70 + n - 1);
    }
    if same(key, "space") || same(key, "spacebar") {
        Some(0x20)
    } else if same(key, "tab") {
        Some(0x09)
    } else if same(key, "enter") || same(key, "return") {
        Some(0x0D)
    } else if same(key, "esc") || same(key, "escape") {
        Some(0x1B)
    } else if same(key, "scrolllock") || same(key, "scroll") || same(key, "scrlk") {
        Some(0x91)
    } else if same(key, "up") || same(key, "arrowup") {
        Some(0x26)
    } else if same(key, "down") || same(key, "arrowdown") {
        Some(0x28)
    } else if same(key, "left") || same(key, "arrowleft") {
        Some(0x25)
    } else if same(key, "right") || same(key, "arrowright") {
        Some(0x27)
    } else {
        None
    }
}

/// A chord as far as it was read.
#[derive(Clone, Copy, Debug, PartialEq, Eq, Structural)]
pub struct Chord {
    pub required: HotkeyModifiers,
    pub main_key: Option<u16>,
}

/// The modifier that a piece of a chord names, added to those already read.
pub open spec fn with_modifier(required: HotkeyModifiers, piece: Seq<char>) -> Option<
    HotkeyModifiers,
> {
    if piece == "ctrl"@ || piece == "control"@ {
        Some(HotkeyModifiers { ctrl: true, ..required })
    } else if piece == "alt"@ || piece == "option"@ {
        Some(HotkeyModifiers { alt: true, ..required })
    } else if piece == "shift"@ {
        Some(HotkeyModifiers { shift: true, ..required })
    } else if piece == "meta"@ || piece == "cmd"@ || piece == "command"@ || piece == "win"@ || piece
        == "windows"@ || piece == "super"@ || piece == "os"@ {
        Some(HotkeyModifiers { meta: true, ..required })
    } else {
        None
    }
}

fn add_modifier(required: HotkeyModifiers, piece: &str) -> (r: Option<HotkeyModifiers>)
    ensures
        r == with_modifier(required, piece@),
{
    let mut next = required;
    if same(piece, "ctrl") || same(piece, "control") {
        next.ctrl = true;
    } else if same(piece, "alt") || same(piece, "option") {
        next.alt = true;
    } else if same(piece, "shift") {
        next.shift = true;
    } else if same(piece, "meta") || same(piece, "cmd") || same(piece, "command") || same(
        piece,
        "win",
    ) || same(piece, "windows") || same(piece, "super") || same(piece, "os") {
        next.meta = true;
    } else {
        return None;
    }
    Some(next)
}

/// The chord that the first `n` pieces spell. There is none where a key follows
/// one that was recognised.
pub open spec fn chord_of(parts: Seq<Seq<char>>, n: nat) -> Option<Chord>
    decreases n,
{
    if n == 0 {
        Some(Chord { required: no_modifiers(), main_key: None })
    } else {
        match chord_of(parts, (n - 1) as nat) {
            None => None,
            Some(chord) => {
                let piece = parts[n - 1];
                if piece.len() == 0 {
                    Some(chord)
                } else {
                    match with_modifier(chord.required, piece) {
                        Some(required) => Some(Chord { required, ..chord }),
                        None => if chord.main_key is Some {
                            None
                        } else {
                            Some(Chord { main_key: vk_named(piece), ..chord })
                        },
                    }
                }
            },
        }
    }
}

/// Whether a text switches a chord off.
pub open spec fn disabled(chord: Seq<char>) -> bool {
    chord.len() == 0 || chord == "disabled"@ || chord == "disable"@ || chord == "off"@ || chord
        == "none"@
}

/// Whether a pressed key under given modifiers is a chord: the same key, and
/// exactly the same modifiers.
pub open spec fn matches_chord(value: Seq<char>, key_code: u16, modifiers: HotkeyModifiers) -> bool {
    let text = normalized(value);
    let parts = pieces(text, '+');
    !disabled(text) && chord_of(parts, parts.len()) == Some(
        Chord { required: modifiers, main_key: Some(key_code) },
    )
}

pub fn hotkey_matches_vk(value: &str, key_code: u16, modifiers: HotkeyModifiers) -> (r: bool)
    ensures
        r == matches_chord(value@, key_code, modifiers),
{
    let chars = normalize(value);
    let text = text_of(&chars);
    if chars.len() == 0 || same(text.as_str(), "disabled") || same(text.as_str(), "disable")
        || same(text.as_str(), "off") || same(text.as_str(), "none") {
        return false;
    }
    let parts = split(&chars, '+');
    let ghost all = pieces(chars@, '+');
    let mut chord = Chord { required: HotkeyModifiers::default(), main_key: None };
    let mut i: usize = 0;
    while i < parts.len()
        invariant
            i <= parts.len(),
            char_lists(parts@) == all,
            all == pieces(normalized(value@), '+'),
            chord_of(all, i as nat) == Some(chord),
        decreases parts.len() - i,
    {
        assert(all[i as int] == parts@[i as int]@);
        if parts[i].len() > 0 {
            let piece = text_of(&parts[i]);
            match add_modifier(chord.required, piece.as_str()) {
                Some(required) => {
                    chord.required = required;
                },
                None => {
                    if chord.main_key.is_some() {
                        proof {
                            lemma_no_chord_stays(all, (i + 1) as nat, all.len());
                        }
                        return false;
                    }
                    chord.main_key = hotkey_key_to_windows_vk(piece.as_str());
                },
            }
        }
        i = i + 1;
    }
    chord.main_key == Some(key_code) && chord.required == modifiers
}

proof fn lemma_no_chord_stays(parts: Seq<Seq<char>>, n: nat, m: nat)
    requires
        n <= m,
        chord_of(parts, n) is None,
    ensures
        chord_of(parts, m) is None,
    decreases m - n,
{
    if n < m {
        lemma_no_chord_stays(parts, n, (m - 1) as nat);
    }
}

/// Whether a pressed key is one of the four chords.
pub open spec fn matches_any(hotkeys: ScreenSwitchHotkeys, key_code: u16, modifiers: HotkeyModifiers) -> bool {
    ||| matches_chord(hotkeys.left@, key_code, modifiers)
    ||| matches_chord(hotkeys.right@, key_code, modifiers)
    ||| matches_chord(hotkeys.up@, key_code, modifiers)
    ||| matches_chord(hotkeys.down@, key_code, modifiers)
}

pub fn screen_switch_hotkeys_match_vk(
    hotkeys: &ScreenSwitchHotkeys,
    key_code: u16,
    modifiers: HotkeyModifiers,
) -> (r: bool)
    ensures
        r == matches_any(*hotkeys, key_code, modifiers),
{
    hotkey_matches_vk(hotkeys.left.as_str(), key_code, modifiers) || hotkey_matches_vk(
        hotkeys.right.as_str(),
        key_code,
        modifiers,
    ) || hotkey_matches_vk(hotkeys.up.as_str(), key_code, modifiers) || hotkey_matches_vk(
        hotkeys.down.as_str(),
        key_code,
        modifiers,
    )
}

/// Whether a pressed key moves control on this machine: only a server has
/// chords.
pub open spec fn switches(layout: LayoutState, key_code: u16, modifiers: HotkeyModifiers) -> bool {
    layout.machine_role@ == "server"@ && matches_any(
        layout.screen_switch_hotkeys,
        key_code,
        modifiers,
    )
}

pub fn screen_switch_hotkey_matches_vk(
    layout: &LayoutState,
    key_code: u16,
    modifiers: HotkeyModifiers,
) -> (r: bool)
    ensures
        r == switches(*layout, key_code, modifiers),
{
    if !same(layout.machine_role.as_str(), "server") {
        return false;
    }
    screen_switch_hotkeys_match_vk(&layout.screen_switch_hotkeys, key_code, modifiers)
}

/// A chord answers to one key under one set of modifiers, no other.
pub proof fn law_a_chord_is_one_key_under_exact_modifiers(
    value: Seq<char>,
    key_code: u16,
    modifiers: HotkeyModifiers,
    other_key: u16,
    other_modifiers: HotkeyModifiers,
)
    requires
        matches_chord(value, key_code, modifiers),
        matches_chord(value, other_key, other_modifiers),
    ensures
        other_key == key_code,
        other_modifiers == modifiers,
{
}

} // verus!
