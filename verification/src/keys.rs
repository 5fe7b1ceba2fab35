//! Key codes: macOS and evdev codes against the Windows virtual keys that
//! travel between peers, and what a key means under a modifier map.

use crate::layout::LayoutState;
use crate::platform::Platform;
use crate::seqs::{first, lemma_first};
use crate::shared_input::{EventView, InputEvent, MouseButton};
use crate::text::same;
use vstd::prelude::*;

verus! {

// ---------------------------------------------------------------------------
// macOS
// ---------------------------------------------------------------------------
/// The virtual key of a macOS key.
pub open spec fn vk_of_mac_key(code: u16) -> Option<u16> {
    match code {
        0 => Some(0x41),
        1 => Some(0x53),
        2 => Some(0x44),
        3 => Some(0x46),
        4 => Some(0x48),
        5 => Some(0x47),
        6 => Some(0x5A),
        7 => Some(0x58),
        8 => Some(0x43),
        9 => Some(0x56),
        11 => Some(0x42),
        12 => Some(0x51),
        13 => Some(0x57),
        14 => Some(0x45),
        15 => Some(0x52),
        16 => Some(0x59),
        17 => Some(0x54),
        18 => Some(0x31),
        19 => Some(0x32),
        20 => Some(0x33),
        21 => Some(0x34),
        22 => Some(0x36),
        23 => Some(0x35),
        24 => Some(0xBB),
        25 => Some(0x39),
        26 => Some(0x37),
        27 => Some(0xBD),
        28 => Some(0x38),
        29 => Some(0x30),
        30 => Some(0xDD),
        31 => Some(0x4F),
        32 => Some(0x55),
        33 => Some(0xDB),
        34 => Some(0x49),
        35 => Some(0x50),
        36 => Some(0x0D),
        37 => Some(0x4C),
        38 => Some(0x4A),
        39 => Some(0xDE),
        40 => Some(0x4B),
        41 => Some(0xBA),
        42 => Some(0xDC),
        43 => Some(0xBC),
        44 => Some(0xBF),
        45 => Some(0x4E),
        46 => Some(0x4D),
        47 => Some(0xBE),
        48 => Some(0x09),
        49 => Some(0x20),
        50 => Some(0xC0),
        51 => Some(0x08),
        53 => Some(0x1B),
        54 => Some(0x5C),
        55 => Some(0x5B),
        56 => Some(0xA0),
        57 => Some(0x14),
        58 => Some(0xA4),
        59 => Some(0xA2),
        60 => Some(0xA1),
        61 => Some(0xA5),
        62 => Some(0xA3),
        63 => Some(0x5B),
        64 => Some(0x80),
        65 => Some(0x6E),
        67 => Some(0x6A),
        69 => Some(0x6B),
        71 => Some(0x90),
        75 => Some(0x6F),
        76 => Some(0x0D),
        78 => Some(0x6D),
        81 => Some(0x6D),
        82 => Some(0x60),
        83 => Some(0x61),
        84 => Some(0x62),
        85 => Some(0x63),
        86 => Some(0x64),
        87 => Some(0x65),
        88 => Some(0x66),
        89 => Some(0x67),
        91 => Some(0x68),
        92 => Some(0x69),
        96 => Some(0x74),
        97 => Some(0x75),
        98 => Some(0x76),
        99 => Some(0x72),
        100 => Some(0x77),
        101 => Some(0x78),
        103 => Some(0x7A),
        105 => Some(0x7C),
        106 => Some(0x7F),
        107 => Some(0x7D),
        109 => Some(0x79),
        111 => Some(0x7B),
        114 => Some(0x2D),
        115 => Some(0x24),
        116 => Some(0x21),
        117 => Some(0x2E),
        118 => Some(0x73),
        119 => Some(0x23),
        120 => Some(0x71),
        121 => Some(0x22),
        122 => Some(0x70),
        123 => Some(0x25),
        124 => Some(0x27),
        125 => Some(0x28),
        126 => Some(0x26),
        _ => None,
    }
}

pub fn mac_key_to_windows_vk(code: u16) -> (r: Option<u16>)
    ensures
        r == vk_of_mac_key(code),
{
    match code {
        0 => Some(0x41),
        1 => Some(0x53),
        2 => Some(0x44),
        3 => Some(0x46),
        4 => Some(0x48),
        5 => Some(0x47),
        6 => Some(0x5A),
        7 => Some(0x58),
        8 => Some(0x43),
        9 => Some(0x56),
        11 => Some(0x42),
        12 => Some(0x51),
        13 => Some(0x57),
        14 => Some(0x45),
        15 => Some(0x52),
        16 => Some(0x59),
        17 => Some(0x54),
        18 => Some(0x31),
        19 => Some(0x32),
        20 => Some(0x33),
        21 => Some(0x34),
        22 => Some(0x36),
        23 => Some(0x35),
        24 => Some(0xBB),
        25 => Some(0x39),
        26 => Some(0x37),
        27 => Some(0xBD),
        28 => Some(0x38),
        29 => Some(0x30),
        30 => Some(0xDD),
        31 => Some(0x4F),
        32 => Some(0x55),
        33 => Some(0xDB),
        34 => Some(0x49),
        35 => Some(0x50),
        36 => Some(0x0D),
        37 => Some(0x4C),
        38 => Some(0x4A),
        39 => Some(0xDE),
        40 => Some(0x4B),
        41 => Some(0xBA),
        42 => Some(0xDC),
        43 => Some(0xBC),
        44 => Some(0xBF),
        45 => Some(0x4E),
        46 => Some(0x4D),
        47 => Some(0xBE),
        48 => Some(0x09),
        49 => Some(0x20),
        50 => Some(0xC0),
        51 => Some(0x08),
        53 => Some(0x1B),
        54 => Some(0x5C),
        55 => Some(0x5B),
        56 => Some(0xA0),
        57 => Some(0x14),
        58 => Some(0xA4),
        59 => Some(0xA2),
        60 => Some(0xA1),
        61 => Some(0xA5),
        62 => Some(0xA3),
        63 => Some(0x5B),
        64 => Some(0x80),
        65 => Some(0x6E),
        67 => Some(0x6A),
        69 => Some(0x6B),
        71 => Some(0x90),
        75 => Some(0x6F),
        76 => Some(0x0D),
        78 => Some(0x6D),
        81 => Some(0x6D),
        82 => Some(0x60),
        83 => Some(0x61),
        84 => Some(0x62),
        85 => Some(0x63),
        86 => Some(0x64),
        87 => Some(0x65),
        88 => Some(0x66),
        89 => Some(0x67),
        91 => Some(0x68),
        92 => Some(0x69),
        96 => Some(0x74),
        97 => Some(0x75),
        98 => Some(0x76),
        99 => Some(0x72),
        100 => Some(0x77),
        101 => Some(0x78),
        103 => Some(0x7A),
        105 => Some(0x7C),
        106 => Some(0x7F),
        107 => Some(0x7D),
        109 => Some(0x79),
        111 => Some(0x7B),
        114 => Some(0x2D),
        115 => Some(0x24),
        116 => Some(0x21),
        117 => Some(0x2E),
        118 => Some(0x73),
        119 => Some(0x23),
        120 => Some(0x71),
        121 => Some(0x22),
        122 => Some(0x70),
        123 => Some(0x25),
        124 => Some(0x27),
        125 => Some(0x28),
        126 => Some(0x26),
        _ => None,
    }
}

/// The macOS keys and the virtual keys that reach them. The sideless modifiers
/// stand before the sided ones, so that either finds its key.
pub open spec fn mac_pairs() -> Seq<(u16, u16)> {
    seq![
        (0u16, 0x41u16),
        (1u16, 0x53u16),
        (2u16, 0x44u16),
        (3u16, 0x46u16),
        (4u16, 0x48u16),
        (5u16, 0x47u16),
        (6u16, 0x5Au16),
        (7u16, 0x58u16),
        (8u16, 0x43u16),
        (9u16, 0x56u16),
        (11u16, 0x42u16),
        (12u16, 0x51u16),
        (13u16, 0x57u16),
        (14u16, 0x45u16),
        (15u16, 0x52u16),
        (16u16, 0x59u16),
        (17u16, 0x54u16),
        (18u16, 0x31u16),
        (19u16, 0x32u16),
        (20u16, 0x33u16),
        (21u16, 0x34u16),
        (22u16, 0x36u16),
        (23u16, 0x35u16),
        (24u16, 0xBBu16),
        (25u16, 0x39u16),
        (26u16, 0x37u16),
        (27u16, 0xBDu16),
        (28u16, 0x38u16),
        (29u16, 0x30u16),
        (30u16, 0xDDu16),
        (31u16, 0x4Fu16),
        (32u16, 0x55u16),
        (33u16, 0xDBu16),
        (34u16, 0x49u16),
        (35u16, 0x50u16),
        (36u16, 0x0Du16),
        (37u16, 0x4Cu16),
        (38u16, 0x4Au16),
        (39u16, 0xDEu16),
        (40u16, 0x4Bu16),
        (41u16, 0xBAu16),
        (42u16, 0xDCu16),
        (43u16, 0xBCu16),
        (44u16, 0xBFu16),
        (45u16, 0x4Eu16),
        (46u16, 0x4Du16),
        (47u16, 0xBEu16),
        (48u16, 0x09u16),
        (49u16, 0x20u16),
        (50u16, 0xC0u16),
        (51u16, 0x08u16),
        (53u16, 0x1Bu16),
        (54u16, 0x5Cu16),
        (55u16, 0x5Bu16),
        (56u16, 0x10u16),
        (56u16, 0xA0u16),
        (57u16, 0x14u16),
        (58u16, 0x12u16),
        (58u16, 0xA4u16),
        (59u16, 0x11u16),
        (59u16, 0xA2u16),
        (60u16, 0xA1u16),
        (61u16, 0xA5u16),
        (62u16, 0xA3u16),
        (63u16, 0x5Bu16),
        (64u16, 0x80u16),
        (65u16, 0x6Eu16),
        (67u16, 0x6Au16),
        (69u16, 0x6Bu16),
        (71u16, 0x90u16),
        (75u16, 0x6Fu16),
        (76u16, 0x0Du16),
        (78u16, 0x6Du16),
        (81u16, 0x6Du16),
        (82u16, 0x60u16),
        (83u16, 0x61u16),
        (84u16, 0x62u16),
        (85u16, 0x63u16),
        (86u16, 0x64u16),
        (87u16, 0x65u16),
        (88u16, 0x66u16),
        (89u16, 0x67u16),
        (91u16, 0x68u16),
        (92u16, 0x69u16),
        (96u16, 0x74u16),
        (97u16, 0x75u16),
        (98u16, 0x76u16),
        (99u16, 0x72u16),
        (100u16, 0x77u16),
        (101u16, 0x78u16),
        (103u16, 0x7Au16),
        (105u16, 0x7Cu16),
        (106u16, 0x7Fu16),
        (107u16, 0x7Du16),
        (109u16, 0x79u16),
        (111u16, 0x7Bu16),
        (114u16, 0x2Du16),
        (115u16, 0x24u16),
        (116u16, 0x21u16),
        (117u16, 0x2Eu16),
        (118u16, 0x73u16),
        (119u16, 0x23u16),
        (120u16, 0x71u16),
        (121u16, 0x22u16),
        (122u16, 0x70u16),
        (123u16, 0x25u16),
        (124u16, 0x27u16),
        (125u16, 0x28u16),
        (126u16, 0x26u16),
    ]
}

pub fn mac_key_to_windows_vk_pairs() -> (r: [(u16, u16); 109])
    ensures
        r@ == mac_pairs(),
{
    [
        (0u16, 0x41u16),
        (1u16, 0x53u16),
        (2u16, 0x44u16),
        (3u16, 0x46u16),
        (4u16, 0x48u16),
        (5u16, 0x47u16),
        (6u16, 0x5Au16),
        (7u16, 0x58u16),
        (8u16, 0x43u16),
        (9u16, 0x56u16),
        (11u16, 0x42u16),
        (12u16, 0x51u16),
        (13u16, 0x57u16),
        (14u16, 0x45u16),
        (15u16, 0x52u16),
        (16u16, 0x59u16),
        (17u16, 0x54u16),
        (18u16, 0x31u16),
        (19u16, 0x32u16),
        (20u16, 0x33u16),
        (21u16, 0x34u16),
        (22u16, 0x36u16),
        (23u16, 0x35u16),
        (24u16, 0xBBu16),
        (25u16, 0x39u16),
        (26u16, 0x37u16),
        (27u16, 0xBDu16),
        (28u16, 0x38u16),
        (29u16, 0x30u16),
        (30u16, 0xDDu16),
        (31u16, 0x4Fu16),
        (32u16, 0x55u16),
        (33u16, 0xDBu16),
        (34u16, 0x49u16),
        (35u16, 0x50u16),
        (36u16, 0x0Du16),
        (37u16, 0x4Cu16),
        (38u16, 0x4Au16),
        (39u16, 0xDEu16),
        (40u16, 0x4Bu16),
        (41u16, 0xBAu16),
        (42u16, 0xDCu16),
        (43u16, 0xBCu16),
        (44u16, 0xBFu16),
        (45u16, 0x4Eu16),
        (46u16, 0x4Du16),
        (47u16, 0xBEu16),
        (48u16, 0x09u16),
        (49u16, 0x20u16),
        (50u16, 0xC0u16),
        (51u16, 0x08u16),
        (53u16, 0x1Bu16),
        (54u16, 0x5Cu16),
        (55u16, 0x5Bu16),
        (56u16, 0x10u16),
        (56u16, 0xA0u16),
        (57u16, 0x14u16),
        (58u16, 0x12u16),
        (58u16, 0xA4u16),
        (59u16, 0x11u16),
        (59u16, 0xA2u16),
        (60u16, 0xA1u16),
        (61u16, 0xA5u16),
        (62u16, 0xA3u16),
        (63u16, 0x5Bu16),
        (64u16, 0x80u16),
        (65u16, 0x6Eu16),
        (67u16, 0x6Au16),
        (69u16, 0x6Bu16),
        (71u16, 0x90u16),
        (75u16, 0x6Fu16),
        (76u16, 0x0Du16),
        (78u16, 0x6Du16),
        (81u16, 0x6Du16),
        (82u16, 0x60u16),
        (83u16, 0x61u16),
        (84u16, 0x62u16),
        (85u16, 0x63u16),
        (86u16, 0x64u16),
        (87u16, 0x65u16),
        (88u16, 0x66u16),
        (89u16, 0x67u16),
        (91u16, 0x68u16),
        (92u16, 0x69u16),
        (96u16, 0x74u16),
        (97u16, 0x75u16),
        (98u16, 0x76u16),
        (99u16, 0x72u16),
        (100u16, 0x77u16),
        (101u16, 0x78u16),
        (103u16, 0x7Au16),
        (105u16, 0x7Cu16),
        (106u16, 0x7Fu16),
        (107u16, 0x7Du16),
        (109u16, 0x79u16),
        (111u16, 0x7Bu16),
        (114u16, 0x2Du16),
        (115u16, 0x24u16),
        (116u16, 0x21u16),
        (117u16, 0x2Eu16),
        (118u16, 0x73u16),
        (119u16, 0x23u16),
        (120u16, 0x71u16),
        (121u16, 0x22u16),
        (122u16, 0x70u16),
        (123u16, 0x25u16),
        (124u16, 0x27u16),
        (125u16, 0x28u16),
        (126u16, 0x26u16),
    ]
}

/// The test for the pairs that reach a virtual key.
pub open spec fn reaching(vk: u16) -> spec_fn((u16, u16)) -> bool {
    |pair: (u16, u16)| pair.1 == vk
}

/// The macOS key of a virtual key: that of the first pair that reaches it.
pub open spec fn mac_key_of_vk(vk: u16) -> Option<u16> {
    match first(mac_pairs(), reaching(vk)) {
        Some(pair) => Some(pair.0),
        None => None,
    }
}

pub fn windows_vk_to_mac_key(code: u16) -> (r: Option<u16>)
    ensures
        r == mac_key_of_vk(code),
{
    let pairs = mac_key_to_windows_vk_pairs();
    let ghost all = mac_pairs();
    let mut i: usize = 0;
    assert(all.skip(0) =~= all);
    while i < pairs.len()
        invariant
            pairs@ == all,
            all == mac_pairs(),
            i <= pairs.len(),
            first(all, reaching(code)) == first(all.skip(i as int), reaching(code)),
        decreases pairs.len() - i,
    {
        proof {
            crate::seqs::lemma_first_step(all, reaching(code), i as int);
        }
        if pairs[i].1 == code {
            return Some(pairs[i].0);
        }
        i = i + 1;
    }
    None
}

/// Whether a pair stands for a key that sends its virtual key, or for one of
/// the sideless modifiers.
pub open spec fn mirrors_a_key(pair: (u16, u16)) -> bool {
    pair.1 == 0x10 || pair.1 == 0x11 || pair.1 == 0x12 || vk_of_mac_key(pair.0) == Some(pair.1)
}

proof fn lemma_pairs_mirror_keys()
    ensures
        forall|i: int| 0 <= i < mac_pairs().len() ==> mirrors_a_key(#[trigger] mac_pairs()[i]),
{
}

/// A virtual key is injected as a macOS key that sends it; the modifiers without
/// a side are the exception, which go to the key on the left.
pub proof fn law_mac_keys_send_what_they_stand_for(vk: u16)
    ensures
        mac_key_of_vk(vk) matches Some(code) ==> vk_of_mac_key(code) == Some(vk) || vk == 0x10
            || vk == 0x11 || vk == 0x12,
{
    lemma_first(mac_pairs(), reaching(vk));
    lemma_pairs_mirror_keys();
}

// ---------------------------------------------------------------------------
// evdev
// ---------------------------------------------------------------------------
/// The virtual key of an evdev key. Both name physical keys, so the receiving
/// machine applies its own keyboard layout to whatever arrives; that is what
/// keeps dead keys and the third level of international layouts working. For
/// the same reason left and right modifiers stay apart.
pub open spec fn vk_of_evdev(code: u32) -> Option<u16> {
    if 2 <= code <= 10 {
        Some((0x31 + (code - 2)) as u16)
    } else if 59 <= code <= 68 {
        Some((0x70 + (code - 59)) as u16)
    } else {
        match code {
            1 => Some(0x1B),
            11 => Some(0x30),
            12 => Some(0xBD),
            13 => Some(0xBB),
            14 => Some(0x08),
            15 => Some(0x09),
            16 => Some(0x51),
            17 => Some(0x57),
            18 => Some(0x45),
            19 => Some(0x52),
            20 => Some(0x54),
            21 => Some(0x59),
            22 => Some(0x55),
            23 => Some(0x49),
            24 => Some(0x4F),
            25 => Some(0x50),
            26 => Some(0xDB),
            27 => Some(0xDD),
            28 => Some(0x0D),
            29 => Some(0xA2),
            30 => Some(0x41),
            31 => Some(0x53),
            32 => Some(0x44),
            33 => Some(0x46),
            34 => Some(0x47),
            35 => Some(0x48),
            36 => Some(0x4A),
            37 => Some(0x4B),
            38 => Some(0x4C),
            39 => Some(0xBA),
            40 => Some(0xDE),
            41 => Some(0xC0),
            42 => Some(0xA0),
            43 => Some(0xDC),
            44 => Some(0x5A),
            45 => Some(0x58),
            46 => Some(0x43),
            47 => Some(0x56),
            48 => Some(0x42),
            49 => Some(0x4E),
            50 => Some(0x4D),
            51 => Some(0xBC),
            52 => Some(0xBE),
            53 => Some(0xBF),
            54 => Some(0xA1),
            55 => Some(0x6A),
            56 => Some(0xA4),
            57 => Some(0x20),
            58 => Some(0x14),
            69 => Some(0x90),
            70 => Some(0x91),
            71 => Some(0x67),
            72 => Some(0x68),
            73 => Some(0x69),
            74 => Some(0x6D),
            75 => Some(0x64),
            76 => Some(0x65),
            77 => Some(0x66),
            78 => Some(0x6B),
            79 => Some(0x61),
            80 => Some(0x62),
            81 => Some(0x63),
            82 => Some(0x60),
            83 => Some(0x6E),
            86 => Some(0xE2),
            87 => Some(0x7A),
            88 => Some(0x7B),
            96 => Some(0x0D),
            97 => Some(0xA3),
            98 => Some(0x6F),
            99 => Some(0x2C),
            100 => Some(0xA5),
            102 => Some(0x24),
            103 => Some(0x26),
            104 => Some(0x21),
            105 => Some(0x25),
            106 => Some(0x27),
            107 => Some(0x23),
            108 => Some(0x28),
            109 => Some(0x22),
            110 => Some(0x2D),
            111 => Some(0x2E),
            113 => Some(0xAD),
            114 => Some(0xAE),
            115 => Some(0xAF),
            119 => Some(0x13),
            125 => Some(0x5B),
            126 => Some(0x5C),
            127 => Some(0x5D),
            _ => None,
        }
    }
}

pub fn evdev_to_windows_vk(code: u32) -> (r: Option<u16>)
    ensures
        r == vk_of_evdev(code),
{
    if 2 <= code && code <= 10 {
        return Some(0x31 + (code - 2) as u16);
    }
    if 59 <= code && code <= 68 {
        return Some(0x70 + (code - 59) as u16);
    }
    match code {
        1 => Some(0x1B),  // ESC
        11 => Some(0x30),  // 0
        12 => Some(0xBD),  // MINUS -> VK_OEM_MINUS
        13 => Some(0xBB),  // EQUAL -> VK_OEM_PLUS
        14 => Some(0x08),  // BACKSPACE
        15 => Some(0x09),  // TAB
        16 => Some(0x51),  // Q
        17 => Some(0x57),  // W
        18 => Some(0x45),  // E
        19 => Some(0x52),  // R
        20 => Some(0x54),  // T
        21 => Some(0x59),  // Y
        22 => Some(0x55),  // U
        23 => Some(0x49),  // I
        24 => Some(0x4F),  // O
        25 => Some(0x50),  // P
        26 => Some(0xDB),  // LEFTBRACE -> VK_OEM_4
        27 => Some(0xDD),  // RIGHTBRACE -> VK_OEM_6
        28 => Some(0x0D),  // ENTER
        29 => Some(0xA2),  // LEFTCTRL
        30 => Some(0x41),  // A
        31 => Some(0x53),  // S
        32 => Some(0x44),  // D
        33 => Some(0x46),  // F
        34 => Some(0x47),  // G
        35 => Some(0x48),  // H
        36 => Some(0x4A),  // J
        37 => Some(0x4B),  // K
        38 => Some(0x4C),  // L
        39 => Some(0xBA),  // SEMICOLON -> VK_OEM_1
        40 => Some(0xDE),  // APOSTROPHE -> VK_OEM_7  (the dead-key that started all this)
        41 => Some(0xC0),  // GRAVE -> VK_OEM_3
        42 => Some(0xA0),  // LEFTSHIFT
        43 => Some(0xDC),  // BACKSLASH -> VK_OEM_5
        44 => Some(0x5A),  // Z
        45 => Some(0x58),  // X
        46 => Some(0x43),  // C
        47 => Some(0x56),  // V
        48 => Some(0x42),  // B
        49 => Some(0x4E),  // N
        50 => Some(0x4D),  // M
        51 => Some(0xBC),  // COMMA
        52 => Some(0xBE),  // DOT
        53 => Some(0xBF),  // SLASH -> VK_OEM_2
        54 => Some(0xA1),  // RIGHTSHIFT
        55 => Some(0x6A),  // KPASTERISK
        56 => Some(0xA4),  // LEFTALT
        57 => Some(0x20),  // SPACE
        58 => Some(0x14),  // CAPSLOCK
        69 => Some(0x90),  // NUMLOCK
        70 => Some(0x91),  // SCROLLLOCK
        71 => Some(0x67),  // KP7
        72 => Some(0x68),  // KP8
        73 => Some(0x69),  // KP9
        74 => Some(0x6D),  // KPMINUS
        75 => Some(0x64),  // KP4
        76 => Some(0x65),  // KP5
        77 => Some(0x66),  // KP6
        78 => Some(0x6B),  // KPPLUS
        79 => Some(0x61),  // KP1
        80 => Some(0x62),  // KP2
        81 => Some(0x63),  // KP3
        82 => Some(0x60),  // KP0
        83 => Some(0x6E),  // KPDOT
        86 => Some(0xE2),  // 102ND (the extra ISO key) -> VK_OEM_102
        87 => Some(0x7A),  // F11
        88 => Some(0x7B),  // F12
        96 => Some(0x0D),  // KPENTER
        97 => Some(0xA3),  // RIGHTCTRL
        98 => Some(0x6F),  // KPSLASH
        99 => Some(0x2C),  // SYSRQ -> VK_SNAPSHOT
        100 => Some(0xA5),  // RIGHTALT -> VK_RMENU (AltGr)
        102 => Some(0x24),  // HOME
        103 => Some(0x26),  // UP
        104 => Some(0x21),  // PAGEUP
        105 => Some(0x25),  // LEFT
        106 => Some(0x27),  // RIGHT
        107 => Some(0x23),  // END
        108 => Some(0x28),  // DOWN
        109 => Some(0x22),  // PAGEDOWN
        110 => Some(0x2D),  // INSERT
        111 => Some(0x2E),  // DELETE
        113 => Some(0xAD),  // MUTE
        114 => Some(0xAE),  // VOLUMEDOWN
        115 => Some(0xAF),  // VOLUMEUP
        119 => Some(0x13),  // PAUSE
        125 => Some(0x5B),  // LEFTMETA -> VK_LWIN
        126 => Some(0x5C),  // RIGHTMETA -> VK_RWIN
        127 => Some(0x5D),  // COMPOSE -> VK_APPS
        _ => None,
    }
}

/// No two keys come out as one virtual key, but for the two Enter keys.
pub proof fn law_only_the_enter_keys_share_a_virtual_key(a: u32, b: u32)
    requires
        a < b,
        vk_of_evdev(a) is Some,
        vk_of_evdev(a) == vk_of_evdev(b),
    ensures
        a == 28,
        b == 96,
{
}

/// A modifier comes out as the one on its own side, never as the key that
/// stands for either.
pub proof fn law_modifiers_keep_their_side(code: u32)
    ensures
        vk_of_evdev(code) != Some(0x10u16),
        vk_of_evdev(code) != Some(0x11u16),
        vk_of_evdev(code) != Some(0x12u16),
{
}

/// The greatest evdev code below `n` that has a virtual key.
pub open spec fn evdev_below(vk: u16, n: nat) -> Option<u32>
    decreases n,
{
    if n == 0 {
        None
    } else if vk_of_evdev((n - 1) as u32) == Some(vk) {
        Some((n - 1) as u32)
    } else {
        evdev_below(vk, (n - 1) as nat)
    }
}

/// The evdev code of a virtual key: the greatest of the first 256 that has it.
pub open spec fn evdev_of_vk(vk: u16) -> Option<u32> {
    evdev_below(vk, 256)
}

pub fn windows_vk_to_evdev(vk: u16) -> (r: Option<u32>)
    ensures
        r == evdev_of_vk(vk),
{
    let mut n: u32 = 256;
    while n > 0
        invariant
            n <= 256,
            evdev_of_vk(vk) == evdev_below(vk, n as nat),
        decreases n,
    {
        if evdev_to_windows_vk(n - 1) == Some(vk) {
            return Some(n - 1);
        }
        n = n - 1;
    }
    None
}

/// A virtual key goes to an evdev code that has it, wherever one does.
pub proof fn law_evdev_round_trip(code: u32)
    requires
        code <= 255,
    ensures
        vk_of_evdev(code) matches Some(vk) ==> {
            &&& evdev_of_vk(vk) matches Some(picked)
            &&& vk_of_evdev(picked) == Some(vk)
        },
{
    match vk_of_evdev(code) {
        Some(vk) => lemma_evdev_below(vk, 256, code),
        None => {},
    }
}

pub proof fn lemma_evdev_below(vk: u16, n: nat, code: u32)
    requires
        code < n <= 256,
        vk_of_evdev(code) == Some(vk),
    ensures
        ({
            &&& evdev_below(vk, n) matches Some(picked)
            &&& code <= picked < n
            &&& vk_of_evdev(picked) == Some(vk)
        }),
    decreases n,
{
    if vk_of_evdev((n - 1) as u32) != Some(vk) {
        lemma_evdev_below(vk, (n - 1) as nat, code);
    }
}

// ---------------------------------------------------------------------------
// Buttons
// ---------------------------------------------------------------------------
pub const BTN_LEFT: u32 = 0x110;

pub const BTN_RIGHT: u32 = 0x111;

pub const BTN_MIDDLE: u32 = 0x112;

pub const BTN_SIDE: u32 = 0x113;

pub const BTN_EXTRA: u32 = 0x114;

/// The evdev code of a mouse button.
pub open spec fn evdev_of_button(button: MouseButton) -> u32 {
    match button {
        MouseButton::Left => BTN_LEFT,
        MouseButton::Right => BTN_RIGHT,
        MouseButton::Middle => BTN_MIDDLE,
        MouseButton::Back => BTN_SIDE,
        MouseButton::Forward => BTN_EXTRA,
    }
}

/// A mouse button as the capture of a Linux machine reports it.
#[derive(Debug, Clone, Copy, PartialEq, Eq, Structural)]
pub enum LinuxButton {
    Left,
    Right,
    Middle,
    Back,
    Forward,
}

impl LinuxButton {
    /// The button that is sent for it.
    pub open spec fn button(self) -> MouseButton {
        match self {
            LinuxButton::Left => MouseButton::Left,
            LinuxButton::Right => MouseButton::Right,
            LinuxButton::Middle => MouseButton::Middle,
            LinuxButton::Back => MouseButton::Back,
            LinuxButton::Forward => MouseButton::Forward,
        }
    }

    pub fn mouse_button(self) -> (r: MouseButton)
        ensures
            r == self.button(),
    {
        match self {
            LinuxButton::Left => MouseButton::Left,
            LinuxButton::Right => MouseButton::Right,
            LinuxButton::Middle => MouseButton::Middle,
            LinuxButton::Back => MouseButton::Back,
            LinuxButton::Forward => MouseButton::Forward,
        }
    }
}

/// The mouse button of an evdev code.
pub open spec fn button_of_evdev(code: u32) -> Option<LinuxButton> {
    if code == BTN_LEFT {
        Some(LinuxButton::Left)
    } else if code == BTN_RIGHT {
        Some(LinuxButton::Right)
    } else if code == BTN_MIDDLE {
        Some(LinuxButton::Middle)
    } else if code == BTN_SIDE {
        Some(LinuxButton::Back)
    } else if code == BTN_EXTRA {
        Some(LinuxButton::Forward)
    } else {
        None
    }
}

pub fn mouse_button_to_evdev(button: MouseButton) -> (r: u32)
    ensures
        r == evdev_of_button(button),
{
    match button {
        MouseButton::Left => BTN_LEFT,
        MouseButton::Right => BTN_RIGHT,
        MouseButton::Middle => BTN_MIDDLE,
        MouseButton::Back => BTN_SIDE,
        MouseButton::Forward => BTN_EXTRA,
    }
}

pub fn map_button(code: u32) -> (r: Option<LinuxButton>)
    ensures
        r == button_of_evdev(code),
{
    if code == BTN_LEFT {
        Some(LinuxButton::Left)
    } else if code == BTN_RIGHT {
        Some(LinuxButton::Right)
    } else if code == BTN_MIDDLE {
        Some(LinuxButton::Middle)
    } else if code == BTN_SIDE {
        Some(LinuxButton::Back)
    } else if code == BTN_EXTRA {
        Some(LinuxButton::Forward)
    } else {
        None
    }
}

/// What injection writes for a button is what capture reads for it.
pub proof fn law_buttons_round_trip(button: MouseButton)
    ensures
        button_of_evdev(evdev_of_button(button)) matches Some(read) && read.button() == button,
{
}

// ---------------------------------------------------------------------------
// Modifiers
// ---------------------------------------------------------------------------
/// A modifier, whichever side of the keyboard it is on.
#[derive(Debug, Clone, Copy, PartialEq, Eq, Structural)]
pub enum LogicalModifier {
    Control,
    Alt,
    /// The Windows key, Command on macOS.
    Meta,
}

/// The modifier that a virtual key is.
pub open spec fn modifier_of(vk: u16) -> Option<LogicalModifier> {
    if vk == 0x11 || vk == 0xA2 || vk == 0xA3 {
        Some(LogicalModifier::Control)
    } else if vk == 0x12 || vk == 0xA4 || vk == 0xA5 {
        Some(LogicalModifier::Alt)
    } else if vk == 0x5B || vk == 0x5C {
        Some(LogicalModifier::Meta)
    } else {
        None
    }
}

pub fn classify_modifier_vk(vk: u16) -> (r: Option<LogicalModifier>)
    ensures
        r == modifier_of(vk),
{
    if vk == 0x11 || vk == 0xA2 || vk == 0xA3 {
        Some(LogicalModifier::Control)
    } else if vk == 0x12 || vk == 0xA4 || vk == 0xA5 {
        Some(LogicalModifier::Alt)
    } else if vk == 0x5B || vk == 0x5C {
        Some(LogicalModifier::Meta)
    } else {
        None
    }
}

/// The virtual key that a configured modifier name stands for. "same", like
/// any other name, stands for none, so that the key keeps its side.
pub open spec fn vk_of_modifier_name(name: Seq<char>) -> Option<u16> {
    if name == "control"@ {
        Some(0x11)
    } else if name == "alt"@ {
        Some(0x12)
    } else if name == "meta"@ {
        Some(0x5B)
    } else {
        None
    }
}

pub fn logical_target_vk(target: &str) -> (r: Option<u16>)
    ensures
        r == vk_of_modifier_name(target@),
{
    if same(target, "control") {
        Some(0x11)
    } else if same(target, "alt") {
        Some(0x12)
    } else if same(target, "meta") {
        Some(0x5B)
    } else {
        None
    }
}

/// A virtual key under a modifier map.
pub open spec fn remapped_vk(vk: u16, control: Seq<char>, alt: Seq<char>, meta: Seq<char>) -> u16 {
    let name = match modifier_of(vk) {
        Some(LogicalModifier::Control) => Some(control),
        Some(LogicalModifier::Alt) => Some(alt),
        Some(LogicalModifier::Meta) => Some(meta),
        None => None,
    };
    match name {
        Some(target) => match vk_of_modifier_name(target) {
            Some(mapped) => mapped,
            None => vk,
        },
        None => vk,
    }
}

pub fn remap_modifier_vk(vk: u16, control: &str, alt: &str, meta: &str) -> (r: u16)
    ensures
        r == remapped_vk(vk, control@, alt@, meta@),
{
    let target = match classify_modifier_vk(vk) {
        Some(LogicalModifier::Control) => control,
        Some(LogicalModifier::Alt) => alt,
        Some(LogicalModifier::Meta) => meta,
        None => {
            return vk;
        },
    };
    match logical_target_vk(target) {
        Some(mapped) => mapped,
        None => vk,
    }
}

/// A key that is no modifier is never remapped, and what a modifier is remapped
/// to is a modifier.
pub proof fn law_only_modifiers_are_remapped(
    vk: u16,
    control: Seq<char>,
    alt: Seq<char>,
    meta: Seq<char>,
)
    ensures
        modifier_of(vk) is None ==> remapped_vk(vk, control, alt, meta) == vk,
        modifier_of(vk) is Some ==> modifier_of(remapped_vk(vk, control, alt, meta)) is Some,
{
}

/// Whether keys are remapped on their way to a platform: it is one of the two
/// whose conventions differ, and not this machine's own.
pub open spec fn platforms_differ(target_platform: Seq<char>, own: Platform) -> bool {
    (target_platform == "macos"@ || target_platform == "windows"@) && target_platform
        != own.named()
}

/// An event as it is sent to a machine of another platform.
pub open spec fn remapped_event(
    event: EventView,
    target_platform: Seq<char>,
    own: Platform,
    layout: LayoutState,
) -> EventView {
    match event {
        EventView::Key { key_code, down } => if platforms_differ(target_platform, own)
            && layout.modifier_remap {
            EventView::Key {
                key_code: remapped_vk(
                    key_code,
                    layout.modifier_map.control@,
                    layout.modifier_map.alt@,
                    layout.modifier_map.meta@,
                ),
                down,
            }
        } else {
            event
        },
        _ => event,
    }
}

/// Rewrites the modifier keys of key events, so that shortcuts follow the
/// conventions of the target's platform.
pub fn remap_event_for_target_layout(
    event: InputEvent,
    target_platform: &str,
    own: Platform,
    layout: &LayoutState,
) -> (r: InputEvent)
    ensures
        r@ == remapped_event(event@, target_platform@, own, *layout),
{
    match event {
        InputEvent::Key { key_code, down } => {
            if !same(target_platform, "macos") && !same(target_platform, "windows") {
                return InputEvent::Key { key_code, down };
            }
            if same(target_platform, own.name()) || !layout.modifier_remap {
                return InputEvent::Key { key_code, down };
            }
            InputEvent::Key {
                key_code: remap_modifier_vk(
                    key_code,
                    layout.modifier_map.control.as_str(),
                    layout.modifier_map.alt.as_str(),
                    layout.modifier_map.meta.as_str(),
                ),
                down,
            }
        },
        other => other,
    }
}

/// Events that are no keys, and keys for a platform that is not known, go out
/// as they are.
pub proof fn law_remap_leaves_the_rest_alone(
    event: EventView,
    target_platform: Seq<char>,
    own: Platform,
    layout: LayoutState,
)
    ensures
        !(event is Key) ==> remapped_event(event, target_platform, own, layout) == event,
        target_platform != "macos"@ && target_platform != "windows"@ ==> remapped_event(
            event,
            target_platform,
            own,
            layout,
        ) == event,
        target_platform == own.named() ==> remapped_event(event, target_platform, own, layout)
            == event,
{
}

} // verus!
