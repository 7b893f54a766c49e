//! Virtual-key to human label mapping for the keystroke overlay.
//!
//! Only shortcuts (modifier chords) and "special" keys are ever labeled; plain character
//! typing is deliberately not, both to keep the overlay readable and because echoing typed
//! text into a shared GIF is a privacy hazard.

use crate::text::{decimal, decimals_read_back, digit, read_decimal};
use vstd::prelude::*;

verus! {

/// Which modifier a virtual-key code represents, if any.
#[derive(Debug, Clone, Copy, PartialEq, Eq, Structural)]
pub enum Modifier {
    Shift,
    Ctrl,
    Alt,
    Win,
}

/// `VK_CONTROL`, `VK_LCONTROL`, `VK_RCONTROL`.
pub open spec fn ctrl_key(vk: u16) -> bool {
    vk == 0x11 || vk == 0xA2 || vk == 0xA3
}

/// `VK_SHIFT`, `VK_LSHIFT`, `VK_RSHIFT`.
pub open spec fn shift_key(vk: u16) -> bool {
    vk == 0x10 || vk == 0xA0 || vk == 0xA1
}

/// `VK_MENU`, `VK_LMENU`, `VK_RMENU`.
pub open spec fn alt_key(vk: u16) -> bool {
    vk == 0x12 || vk == 0xA4 || vk == 0xA5
}

/// `VK_LWIN`, `VK_RWIN`.
pub open spec fn win_key(vk: u16) -> bool {
    vk == 0x5B || vk == 0x5C
}

/// The modifier a virtual-key code stands for.
pub open spec fn modifier_of(vk: u16) -> Option<Modifier> {
    if shift_key(vk) {
        Some(Modifier::Shift)
    } else if ctrl_key(vk) {
        Some(Modifier::Ctrl)
    } else if alt_key(vk) {
        Some(Modifier::Alt)
    } else if win_key(vk) {
        Some(Modifier::Win)
    } else {
        None
    }
}

/// Classify a virtual-key code as a modifier.
pub fn modifier(vk: u16) -> (m: Option<Modifier>)
    ensures
        m == modifier_of(vk),
{
    match vk {
        0x10 | 0xA0 | 0xA1 => Some(Modifier::Shift),
        0x11 | 0xA2 | 0xA3 => Some(Modifier::Ctrl),
        0x12 | 0xA4 | 0xA5 => Some(Modifier::Alt),
        0x5B | 0x5C => Some(Modifier::Win),
        _ => None,
    }
}

/// Whether a key is a control key.
pub fn is_ctrl(vk: u16) -> (r: bool)
    ensures
        r == ctrl_key(vk),
{
    vk == 0x11 || vk == 0xA2 || vk == 0xA3
}

/// Whether a key is a shift key.
pub fn is_shift(vk: u16) -> (r: bool)
    ensures
        r == shift_key(vk),
{
    vk == 0x10 || vk == 0xA0 || vk == 0xA1
}

/// Whether a key types a letter or a digit.
pub open spec fn types_text(vk: u16) -> bool {
    0x30 <= vk <= 0x39 || 0x41 <= vk <= 0x5A
}

/// The label of a key: letters, digits and function keys by their own names, editing keys
/// and punctuation by the names below.
pub open spec fn label_of(vk: u16) -> Option<Seq<char>> {
    if 0x30 <= vk <= 0x39 {
        Some(seq![digit((vk - 0x30) as nat)])
    } else if 0x41 <= vk <= 0x5A {
        Some(seq![vk as char])
    } else if 0x70 <= vk <= 0x7B {
        Some(seq!['F'] + decimal((vk - 0x6F) as nat))
    } else {
        special_label(vk)
    }
}

/// The label of an editing key or of punctuation.
pub open spec fn special_label(vk: u16) -> Option<Seq<char>> {
    if vk == 0x08 {
        Some("Backspace"@)
    } else if vk == 0x09 {
        Some("Tab"@)
    } else if vk == 0x0D {
        Some("Enter"@)
    } else if vk == 0x1B {
        Some("Esc"@)
    } else if vk == 0x20 {
        Some("Space"@)
    } else if vk == 0x21 {
        Some("PgUp"@)
    } else if vk == 0x22 {
        Some("PgDn"@)
    } else if vk == 0x23 {
        Some("End"@)
    } else if vk == 0x24 {
        Some("Home"@)
    } else if vk == 0x25 {
        Some("←"@)
    } else if vk == 0x26 {
        Some("↑"@)
    } else if vk == 0x27 {
        Some("→"@)
    } else if vk == 0x28 {
        Some("↓"@)
    } else if vk == 0x2D {
        Some("Ins"@)
    } else if vk == 0x2E {
        Some("Del"@)
    } else if vk == 0xBB {
        Some("+"@)
    } else if vk == 0xBC {
        Some(","@)
    } else if vk == 0xBD {
        Some("-"@)
    } else if vk == 0xBE {
        Some("."@)
    } else if vk == 0xBF {
        Some("/"@)
    } else if vk == 0xC0 {
        Some("`"@)
    } else {
        None
    }
}

/// The label of a digit key.
fn digit_name(vk: u16) -> (s: &'static str)
    requires
        0x30 <= vk <= 0x39,
    ensures
        s@ == seq![digit((vk - 0x30) as nat)],
{
    proof {
        reveal_strlit("0");
        reveal_strlit("1");
        reveal_strlit("2");
        reveal_strlit("3");
        reveal_strlit("4");
        reveal_strlit("5");
        reveal_strlit("6");
        reveal_strlit("7");
        reveal_strlit("8");
        reveal_strlit("9");
    }
    let s = match vk {
        0x30 => "0",
        0x31 => "1",
        0x32 => "2",
        0x33 => "3",
        0x34 => "4",
        0x35 => "5",
        0x36 => "6",
        0x37 => "7",
        0x38 => "8",
        _ => "9",
    };
    assert(s@ =~= seq![digit((vk - 0x30) as nat)]);
    s
}

/// The label of a letter key.
fn letter_name(vk: u16) -> (s: &'static str)
    requires
        0x41 <= vk <= 0x5A,
    ensures
        s@ == seq![vk as char],
{
    proof {
        reveal_strlit("A");
        reveal_strlit("B");
        reveal_strlit("C");
        reveal_strlit("D");
        reveal_strlit("E");
        reveal_strlit("F");
        reveal_strlit("G");
        reveal_strlit("H");
        reveal_strlit("I");
        reveal_strlit("J");
        reveal_strlit("K");
        reveal_strlit("L");
        reveal_strlit("M");
        reveal_strlit("N");
        reveal_strlit("O");
        reveal_strlit("P");
        reveal_strlit("Q");
        reveal_strlit("R");
        reveal_strlit("S");
        reveal_strlit("T");
        reveal_strlit("U");
        reveal_strlit("V");
        reveal_strlit("W");
        reveal_strlit("X");
        reveal_strlit("Y");
        reveal_strlit("Z");
    }
    let s = match vk {
        0x41 => "A",
        0x42 => "B",
        0x43 => "C",
        0x44 => "D",
        0x45 => "E",
        0x46 => "F",
        0x47 => "G",
        0x48 => "H",
        0x49 => "I",
        0x4A => "J",
        0x4B => "K",
        0x4C => "L",
        0x4D => "M",
        0x4E => "N",
        0x4F => "O",
        0x50 => "P",
        0x51 => "Q",
        0x52 => "R",
        0x53 => "S",
        0x54 => "T",
        0x55 => "U",
        0x56 => "V",
        0x57 => "W",
        0x58 => "X",
        0x59 => "Y",
        _ => "Z",
    };
    assert(s@ =~= seq![vk as char]);
    s
}

/// The label of a function key.
fn function_name(vk: u16) -> (s: &'static str)
    requires
        0x70 <= vk <= 0x7B,
    ensures
        s@ == seq!['F'] + decimal((vk - 0x6F) as nat),
{
    proof {
        reveal_strlit("F1");
        reveal_strlit("F2");
        reveal_strlit("F3");
        reveal_strlit("F4");
        reveal_strlit("F5");
        reveal_strlit("F6");
        reveal_strlit("F7");
        reveal_strlit("F8");
        reveal_strlit("F9");
        reveal_strlit("F10");
        reveal_strlit("F11");
        reveal_strlit("F12");
        reveal_with_fuel(decimal, 3);
    }
    let s = match vk {
        0x70 => "F1",
        0x71 => "F2",
        0x72 => "F3",
        0x73 => "F4",
        0x74 => "F5",
        0x75 => "F6",
        0x76 => "F7",
        0x77 => "F8",
        0x78 => "F9",
        0x79 => "F10",
        0x7A => "F11",
        _ => "F12",
    };
    assert(s@ =~= seq!['F'] + decimal((vk - 0x6F) as nat));
    s
}

/// Human-readable name for a (non-modifier) virtual-key code, if it has one.
pub fn key_name(vk: u16) -> (name: Option<&'static str>)
    ensures
        name is Some <==> label_of(vk) is Some,
        name matches Some(s) ==> s@ == label_of(vk)->Some_0,
{
    if 0x30 <= vk && vk <= 0x39 {
        return Some(digit_name(vk));
    }
    if 0x41 <= vk && vk <= 0x5A {
        return Some(letter_name(vk));
    }
    if 0x70 <= vk && vk <= 0x7B {
        return Some(function_name(vk));
    }
    match vk {
        0x08 => Some("Backspace"),
        0x09 => Some("Tab"),
        0x0D => Some("Enter"),
        0x1B => Some("Esc"),
        0x20 => Some("Space"),
        0x21 => Some("PgUp"),
        0x22 => Some("PgDn"),
        0x23 => Some("End"),
        0x24 => Some("Home"),
        0x25 => Some("←"),
        0x26 => Some("↑"),
        0x27 => Some("→"),
        0x28 => Some("↓"),
        0x2D => Some("Ins"),
        0x2E => Some("Del"),
        0xBB => Some("+"),
        0xBC => Some(","),
        0xBD => Some("-"),
        0xBE => Some("."),
        0xBF => Some("/"),
        0xC0 => Some("`"),
        _ => None,
    }
}

/// Whether a key is shown on its own.
pub open spec fn shown_alone(vk: u16) -> bool {
    vk == 0x09 || vk == 0x0D || vk == 0x1B || vk == 0x2E || 0x25 <= vk <= 0x28 || 0x70 <= vk <= 0x7B
}

/// Whether this key is worth showing without any modifier held (Enter, Esc, F-keys, …).
/// Letters and digits never qualify alone; that would echo typed text.
pub fn is_standalone(vk: u16) -> (r: bool)
    ensures
        r == shown_alone(vk),
        types_text(vk) ==> !r,
{
    vk == 0x09 || vk == 0x0D || vk == 0x1B || vk == 0x2E || (0x25 <= vk && vk <= 0x28) || (0x70
        <= vk && vk <= 0x7B)
}

/// A key that is shown on its own has a label, types no text and is no modifier.
pub proof fn standalone_keys_are_labeled(vk: u16)
    requires
        shown_alone(vk),
    ensures
        label_of(vk) is Some,
        !types_text(vk),
        modifier_of(vk) is None,
{
}

/// Keys that type text are labeled with it: digits and letters count up from their first, and
/// so do function keys. The others are labeled with their names or signs, and modifiers not at
/// all.
pub proof fn labels_name_their_keys(a: u16)
    ensures
        0x30 <= a <= 0x39 ==> label_of(a) is Some && label_of(a)->Some_0.len() == 1
            && label_of(a)->Some_0[0] as int == '0' as int + (a - 0x30),
        0x41 <= a <= 0x5A ==> label_of(a) is Some && label_of(a)->Some_0.len() == 1
            && label_of(a)->Some_0[0] as int == 'A' as int + (a - 0x41),
        0x70 <= a <= 0x7B ==> label_of(a) is Some && label_of(a)->Some_0[0] == 'F' && read_decimal(
            label_of(a)->Some_0.drop_first(),
        ) == a - 0x70 + 1,
        modifier_of(a) is Some ==> label_of(a) is None,
        label_of(0x25) == Some("←"@),
        label_of(0x26) == Some("↑"@),
        label_of(0x27) == Some("→"@),
        label_of(0x28) == Some("↓"@),
        label_of(0x21) == Some("PgUp"@) && label_of(0x22) == Some("PgDn"@),
        label_of(0x23) == Some("End"@) && label_of(0x24) == Some("Home"@),
        label_of(0x08) == Some("Backspace"@) && label_of(0x09) == Some("Tab"@),
        label_of(0x0D) == Some("Enter"@) && label_of(0x1B) == Some("Esc"@),
        label_of(0x20) == Some("Space"@),
        label_of(0x2D) == Some("Ins"@) && label_of(0x2E) == Some("Del"@),
        label_of(0xBB) == Some("+"@) && label_of(0xBD) == Some("-"@),
        label_of(0xBC) == Some(","@) && label_of(0xBE) == Some("."@),
        label_of(0xBF) == Some("/"@) && label_of(0xC0) == Some("`"@),
{
    if 0x70 <= a <= 0x7B {
        let n = (a - 0x6F) as nat;
        decimals_read_back(n);
        assert((seq!['F'] + decimal(n)).drop_first() =~= decimal(n));
    }
}

/// Each modifier has a plain key and one on either side, but for the system's, which has only
/// the two.
pub proof fn modifiers_have_their_keys(vk: u16)
    ensures
        modifier_of(vk) == Some(Modifier::Shift) <==> vk == 0x10 || vk == 0xA0 || vk == 0xA1,
        modifier_of(vk) == Some(Modifier::Ctrl) <==> vk == 0x11 || vk == 0xA2 || vk == 0xA3,
        modifier_of(vk) == Some(Modifier::Alt) <==> vk == 0x12 || vk == 0xA4 || vk == 0xA5,
        modifier_of(vk) == Some(Modifier::Win) <==> vk == 0x5B || vk == 0x5C,
{
}

/// Keys that are worth showing on their own are those that do something: tab, enter, escape,
/// delete, the arrows and the function keys.
pub proof fn keys_that_act_are_shown_alone(vk: u16)
    ensures
        shown_alone(vk) <==> vk == 0x09 || vk == 0x0D || vk == 0x1B || vk == 0x2E || vk == 0x25
            || vk == 0x26 || vk == 0x27 || vk == 0x28 || (0x70 <= vk <= 0x7B),
        types_text(vk) <==> (0x30 <= vk <= 0x39) || (0x41 <= vk <= 0x5A),
{
}

} // verus!
