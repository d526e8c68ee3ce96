//! The hexadecimal keypad and its layout on a keyboard.
//!
//! ```text
//! Keypad       Keyboard
//! 1 2 3 C      1 2 3 4
//! 4 5 6 D      Q W E R
//! 7 8 9 E      A S D F
//! A 0 B F      Z X C V
//! ```
//!
//! Keyboard keys are given by their SDL key codes, the lower-case character for a
//! letter or digit key.

use vstd::prelude::*;

verus! {

/// Key code of the `1` key.
pub const KEY_1: i32 = 49;

/// Key code of the `2` key.
pub const KEY_2: i32 = 50;

/// Key code of the `3` key.
pub const KEY_3: i32 = 51;

/// Key code of the `4` key.
pub const KEY_4: i32 = 52;

/// Key code of the `Q` key.
pub const KEY_Q: i32 = 113;

/// Key code of the `W` key.
pub const KEY_W: i32 = 119;

/// Key code of the `E` key.
pub const KEY_E: i32 = 101;

/// Key code of the `R` key.
pub const KEY_R: i32 = 114;

/// Key code of the `A` key.
pub const KEY_A: i32 = 97;

/// Key code of the `S` key.
pub const KEY_S: i32 = 115;

/// Key code of the `D` key.
pub const KEY_D: i32 = 100;

/// Key code of the `F` key.
pub const KEY_F: i32 = 102;

/// Key code of the `Z` key.
pub const KEY_Z: i32 = 122;

/// Key code of the `X` key.
pub const KEY_X: i32 = 120;

/// Key code of the `C` key.
pub const KEY_C: i32 = 99;

/// Key code of the `V` key.
pub const KEY_V: i32 = 118;

/// The keypad key that a keyboard key stands for, if any.
pub open spec fn keypad_value(keycode: i32) -> Option<u8> {
    if keycode == KEY_1 {
        Some(0x1u8)
    } else if keycode == KEY_2 {
        Some(0x2u8)
    } else if keycode == KEY_3 {
        Some(0x3u8)
    } else if keycode == KEY_4 {
        Some(0xcu8)
    } else if keycode == KEY_Q {
        Some(0x4u8)
    } else if keycode == KEY_W {
        Some(0x5u8)
    } else if keycode == KEY_E {
        Some(0x6u8)
    } else if keycode == KEY_R {
        Some(0xdu8)
    } else if keycode == KEY_A {
        Some(0x7u8)
    } else if keycode == KEY_S {
        Some(0x8u8)
    } else if keycode == KEY_D {
        Some(0x9u8)
    } else if keycode == KEY_F {
        Some(0xeu8)
    } else if keycode == KEY_Z {
        Some(0xau8)
    } else if keycode == KEY_X {
        Some(0x0u8)
    } else if keycode == KEY_C {
        Some(0xbu8)
    } else if keycode == KEY_V {
        Some(0xfu8)
    } else {
        None
    }
}

/// The keyboard key laid out at keypad key `k`.
pub open spec fn keyboard_key(k: u8) -> i32 {
    if k == 0x1 {
        KEY_1
    } else if k == 0x2 {
        KEY_2
    } else if k == 0x3 {
        KEY_3
    } else if k == 0xc {
        KEY_4
    } else if k == 0x4 {
        KEY_Q
    } else if k == 0x5 {
        KEY_W
    } else if k == 0x6 {
        KEY_E
    } else if k == 0xd {
        KEY_R
    } else if k == 0x7 {
        KEY_A
    } else if k == 0x8 {
        KEY_S
    } else if k == 0x9 {
        KEY_D
    } else if k == 0xe {
        KEY_F
    } else if k == 0xa {
        KEY_Z
    } else if k == 0x0 {
        KEY_X
    } else if k == 0xb {
        KEY_C
    } else {
        KEY_V
    }
}

/// The keypad key that a keyboard key stands for; `None` for a key outside the layout.
pub fn keynum_for_keycode(keycode: i32) -> (r: Option<u8>)
    ensures
        r == keypad_value(keycode),
{
    if keycode == KEY_1 {
        Some(0x1)
    } else if keycode == KEY_2 {
        Some(0x2)
    } else if keycode == KEY_3 {
        Some(0x3)
    } else if keycode == KEY_4 {
        Some(0xc)
    } else if keycode == KEY_Q {
        Some(0x4)
    } else if keycode == KEY_W {
        Some(0x5)
    } else if keycode == KEY_E {
        Some(0x6)
    } else if keycode == KEY_R {
        Some(0xd)
    } else if keycode == KEY_A {
        Some(0x7)
    } else if keycode == KEY_S {
        Some(0x8)
    } else if keycode == KEY_D {
        Some(0x9)
    } else if keycode == KEY_F {
        Some(0xe)
    } else if keycode == KEY_Z {
        Some(0xa)
    } else if keycode == KEY_X {
        Some(0x0)
    } else if keycode == KEY_C {
        Some(0xb)
    } else if keycode == KEY_V {
        Some(0xf)
    } else {
        None
    }
}

/// The layout is a one-to-one map between sixteen keyboard keys and the sixteen keypad
/// keys: every keypad key that a keyboard key gives is below 16, no two keyboard keys
/// give the same keypad key, and every keypad key is given by some keyboard key.
pub proof fn lemma_layout_is_one_to_one(a: i32, b: i32, k: u8)
    ensures
        keypad_value(a) matches Some(v) ==> v < 16,
        keypad_value(a) is Some && keypad_value(a) == keypad_value(b) ==> a == b,
        k < 16 ==> keypad_value(keyboard_key(k)) == Some(k),
{
}

/// The layout follows the diagram: the keyboard key in row `r`, column `c` of the
/// block `1 2 3 4 / Q W E R / A S D F / Z X C V` stands for the keypad key in the same
/// place of `1 2 3 C / 4 5 6 D / 7 8 9 E / A 0 B F`.
pub proof fn lemma_layout_follows_the_grid(r: int, c: int)
    requires
        0 <= r < 4,
        0 <= c < 4,
    ensures
        keypad_value(
            seq![
                seq![49i32, 50, 51, 52],
                seq![113i32, 119, 101, 114],
                seq![97i32, 115, 100, 102],
                seq![122i32, 120, 99, 118],
            ][r][c],
        ) == Some(
            seq![
                seq![0x1u8, 0x2, 0x3, 0xC],
                seq![0x4u8, 0x5, 0x6, 0xD],
                seq![0x7u8, 0x8, 0x9, 0xE],
                seq![0xAu8, 0x0, 0xB, 0xF],
            ][r][c],
        ),
{
}

} // verus!
