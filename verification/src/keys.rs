use vstd::prelude::*;

verus! {

/// The keyboard layout front-ends use: the 4x4 CHIP-8 pad mapped onto
/// the left-hand block of a QWERTY keyboard.
pub open spec fn spec_key2btn(key: char) -> Option<usize> {
    if key == '1' {
        Some(0x1)
    } else if key == '2' {
        Some(0x2)
    } else if key == '3' {
        Some(0x3)
    } else if key == '4' {
        Some(0xC)
    } else if key == 'q' {
        Some(0x4)
    } else if key == 'w' {
        Some(0x5)
    } else if key == 'e' {
        Some(0x6)
    } else if key == 'r' {
        Some(0xD)
    } else if key == 'a' {
        Some(0x7)
    } else if key == 's' {
        Some(0x8)
    } else if key == 'd' {
        Some(0x9)
    } else if key == 'f' {
        Some(0xE)
    } else if key == 'z' {
        Some(0xA)
    } else if key == 'x' {
        Some(0x0)
    } else if key == 'c' {
        Some(0xB)
    } else if key == 'v' {
        Some(0xF)
    } else {
        None
    }
}

/// Maps a pressed keyboard character to the pad button it stands for,
/// or nothing when the character is not part of the layout.  Every
/// button named is a valid key index.
pub fn key2btn(key: char) -> (button: Option<usize>)
    ensures
        button == spec_key2btn(key),
        button matches Some(b) ==> b < 16,
{
    if key == '1' {
        Some(0x1)
    } else if key == '2' {
        Some(0x2)
    } else if key == '3' {
        Some(0x3)
    } else if key == '4' {
        Some(0xC)
    } else if key == 'q' {
        Some(0x4)
    } else if key == 'w' {
        Some(0x5)
    } else if key == 'e' {
        Some(0x6)
    } else if key == 'r' {
        Some(0xD)
    } else if key == 'a' {
        Some(0x7)
    } else if key == 's' {
        Some(0x8)
    } else if key == 'd' {
        Some(0x9)
    } else if key == 'f' {
        Some(0xE)
    } else if key == 'z' {
        Some(0xA)
    } else if key == 'x' {
        Some(0x0)
    } else if key == 'c' {
        Some(0xB)
    } else if key == 'v' {
        Some(0xF)
    } else {
        None
    }
}

} // verus!
