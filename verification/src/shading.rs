//! The step function from brightness to glyph.

use vstd::prelude::*;

verus! {

/// Full brightness: a brightness `b` stands for the fraction `b / BRIGHTNESS_ONE`.
pub const BRIGHTNESS_ONE: u32 = 10000;

/// The number of glyphs in the palette.
pub const PALETTE_LEN: usize = 92;

/// The glyphs, from the emptiest to the densest.
pub const PALETTE: [char; 92] = [
    ' ', '`', '.', '-', '\'', ':', '_', ',', '^', '=', ';', '>', '<', '+', '!', 'r', 'c', '*',
    '/', 'z', '?', 's', 'L', 'T', 'v', ')', 'J', '7', '(', '|', 'F', 'i', '{', 'C', '}', 'f',
    'I', '3', '1', 't', 'l', 'u', '[', 'n', 'e', 'o', 'Z', '5', 'Y', 'x', 'j', 'y', 'a', ']',
    '2', 'E', 'S', 'w', 'q', 'k', 'P', '6', 'h', '9', 'd', '4', 'V', 'p', 'O', 'G', 'b', 'U',
    'A', 'K', 'X', 'H', 'm', '8', 'R', 'D', '#', '$', 'B', 'g', '0', 'M', 'N', 'W', 'Q', '%',
    '&', '@',
];

/// The brightness that each glyph of the palette reaches, in steps of
/// `1 / BRIGHTNESS_ONE`, in ascending order.
pub const BRIGHTNESS_LEVELS: [u32; 92] = [
    0, 751, 829, 848, 1227, 1403, 1559, 1850, 2183, 2417, 2571,
    2852, 2902, 2919, 3099, 3192, 3232, 3294, 3384, 3609, 3619, 3667,
    3737, 3747, 3838, 3921, 3960, 3984, 3993, 4075, 4091, 4101, 4200,
    4230, 4247, 4274, 4293, 4328, 4382, 4385, 4420, 4473, 4477, 4503,
    4562, 4580, 4610, 4638, 4667, 4686, 4693, 4703, 4833, 4881, 4944,
    4953, 4992, 5509, 5567, 5569, 5591, 5602, 5602, 5650, 5776, 5777,
    5818, 5870, 5972, 5999, 6043, 6049, 6093, 6099, 6465, 6561, 6595,
    6631, 6714, 6759, 6809, 6816, 6925, 7039, 7086, 7235, 7302, 7332,
    7602, 7834, 8037, 9999,
];

/// Position `k` of the palette is the one selected for `brightness`: no
/// earlier level reaches the brightness, and level `k` does, or `k` is the
/// last position and no level reaches it.
pub open spec fn selects(brightness: u32, k: int) -> bool {
    &&& 0 <= k < PALETTE_LEN
    &&& forall|j: int| 0 <= j < k ==> BRIGHTNESS_LEVELS[j] < brightness
    &&& (brightness <= BRIGHTNESS_LEVELS[k] || k == PALETTE_LEN - 1)
}

/// The palette position selected for `brightness`.
pub closed spec fn shade_index(brightness: u32) -> int {
    choose|k: int| selects(brightness, k)
}

/// The glyph for `brightness`.
pub open spec fn shade_of(brightness: u32) -> char {
    PALETTE[shade_index(brightness)]
}

/// At most one position is selected for a brightness.
pub proof fn lemma_selects_unique(brightness: u32, k1: int, k2: int)
    requires
        selects(brightness, k1),
        selects(brightness, k2),
    ensures
        k1 == k2,
{
}

/// A position that is selected for a brightness is its shade index.
pub proof fn lemma_shade_index(brightness: u32, k: int)
    requires
        selects(brightness, k),
    ensures
        shade_index(brightness) == k,
{
    lemma_selects_unique(brightness, k, shade_index(brightness));
}

/// The position of the glyph for `brightness`.
fn find_shade(brightness: u32) -> (index: usize)
    ensures
        selects(brightness, index as int),
        index == shade_index(brightness),
{
    let mut index: usize = 0;
    while index < PALETTE_LEN - 1 && BRIGHTNESS_LEVELS[index] < brightness
        invariant
            index <= PALETTE_LEN - 1,
            forall|j: int| 0 <= j < index ==> BRIGHTNESS_LEVELS[j] < brightness,
        decreases PALETTE_LEN - index,
    {
        index += 1;
    }
    proof {
        lemma_shade_index(brightness, index as int);
    }
    index
}

/// The glyph for a brightness: the first of the palette whose level is at
/// least the brightness, and the last one where no level is.
pub fn map_brightness_to_char(b: u32) -> (glyph: char)
    ensures
        glyph == shade_of(b),
        selects(b, shade_index(b)),
{
    PALETTE[find_shade(b)]
}

/// A brighter surface never gets an emptier glyph: the selected position
/// does not fall as the brightness rises.
pub proof fn lemma_shade_monotonic(darker: u32, brighter: u32)
    requires
        darker <= brighter,
    ensures
        shade_index(darker) <= shade_index(brighter),
{
    lemma_shade_selected(darker);
    lemma_shade_selected(brighter);
}

/// Every brightness has a glyph.
pub proof fn lemma_shade_selected(brightness: u32)
    ensures
        selects(brightness, shade_index(brightness)),
{
    lemma_some_selected(brightness, 0);
}

/// Where no level before `from` reaches the brightness, some position from
/// `from` on is selected.
proof fn lemma_some_selected(brightness: u32, from: int)
    requires
        0 <= from < PALETTE_LEN,
        forall|j: int| 0 <= j < from ==> BRIGHTNESS_LEVELS[j] < brightness,
    ensures
        exists|k: int| selects(brightness, k),
    decreases PALETTE_LEN - from,
{
    if brightness <= BRIGHTNESS_LEVELS[from] || from == PALETTE_LEN - 1 {
        assert(selects(brightness, from));
    } else {
        lemma_some_selected(brightness, from + 1);
    }
}

/// No brightness gets the first glyph but zero, and the first glyph is a
/// space; full brightness gets the last glyph.
pub proof fn lemma_shade_ends()
    ensures
        shade_of(0) == ' ',
        shade_of(BRIGHTNESS_ONE) == '@',
        forall|b: u32| b > 0 ==> shade_index(b) > 0,
{
    assert(selects(0, 0));
    lemma_shade_index(0, 0);
    lemma_levels_below_one();
    assert(selects(BRIGHTNESS_ONE, PALETTE_LEN - 1));
    lemma_shade_index(BRIGHTNESS_ONE, PALETTE_LEN - 1);
    assert forall|b: u32| b > 0 implies shade_index(b) > 0 by {
        lemma_shade_selected(b);
    }
}

/// No level reaches full brightness.
proof fn lemma_levels_below_one()
    ensures
        forall|j: int| 0 <= j < PALETTE_LEN ==> BRIGHTNESS_LEVELS[j] < BRIGHTNESS_ONE,
{
    lemma_levels_ascend();
}

/// The levels ascend.
pub proof fn lemma_levels_ascend()
    ensures
        forall|i: int, j: int|
            0 <= i <= j < PALETTE_LEN ==> BRIGHTNESS_LEVELS[i] <= BRIGHTNESS_LEVELS[j],
        BRIGHTNESS_LEVELS[PALETTE_LEN - 1] == 9999,
{
}

} // verus!
