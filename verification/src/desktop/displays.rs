//! Displays to record.

use crate::text::same_text;
use vstd::prelude::*;

verus! {

/// One selectable capture display.
#[derive(Debug)]
pub struct DisplayInfo {
    /// Device name, the key the capture path matches on.
    pub name: String,
    /// 1-based index for a friendly label ("Display 1").
    pub index: usize,
    /// Virtual-desktop origin in physical pixels.
    pub x: i32,
    pub y: i32,
    pub w: u32,
    pub h: u32,
    pub primary: bool,
}

impl Clone for DisplayInfo {
    fn clone(&self) -> (r: Self)
        ensures
            r == *self,
    {
        DisplayInfo {
            name: self.name.clone(),
            index: self.index,
            x: self.x,
            y: self.y,
            w: self.w,
            h: self.h,
            primary: self.primary,
        }
    }
}

/// The length of an extent between two edges; none if they are the wrong way round.
pub open spec fn extent_of(lo: i32, hi: i32) -> int {
    if hi < lo {
        0
    } else {
        hi - lo
    }
}

/// The length of an extent between two edges.
pub fn extent(lo: i32, hi: i32) -> (n: u32)
    ensures
        n == extent_of(lo, hi),
{
    if hi < lo {
        0
    } else {
        (hi as i64 - lo as i64) as u32
    }
}

/// `char::from_u32` gives the character of a code point, except for surrogates and for
/// numbers past the last code point, which have none.
pub assume_specification[ char::from_u32 ](i: u32) -> (c: Option<char>)
    ensures
        c == code_point(i),
;

/// The character of a code point, if it has one.
pub open spec fn code_point(i: u32) -> Option<char> {
    if i < 0xD800 || (0xE000 <= i && i <= 0x10FFFF) {
        Some(i as char)
    } else {
        None
    }
}

/// The character of a 16-bit unit; a surrogate has none and shows as a replacement.
pub open spec fn unit_char(u: u16) -> char {
    match code_point(u as u32) {
        Some(c) => c,
        None => '\u{FFFD}',
    }
}

/// The characters of a name that ends at the first zero.
pub open spec fn name_of(units: Seq<u16>) -> Seq<char>
    decreases units.len(),
{
    if units.len() == 0 || units[0] == 0 {
        Seq::empty()
    } else {
        seq![unit_char(units[0])] + name_of(units.drop_first())
    }
}

/// Read a device name that ends at the first zero.
pub fn device_name(units: &[u16]) -> (s: String)
    ensures
        s@ == name_of(units@),
{
    let mut s = String::new();
    let mut i: usize = 0;
    assert(units@.skip(0) =~= units@);
    assert(s@ =~= Seq::<char>::empty());
    while i < units.len() && units[i] != 0
        invariant
            i <= units@.len(),
            name_of(units@) =~= s@ + name_of(units@.skip(i as int)),
        decreases units@.len() - i,
    {
        let c: char = match char::from_u32(units[i] as u32) {
            Some(c) => c,
            None => '\u{FFFD}',
        };
        assert(units@.skip(i as int).drop_first() =~= units@.skip(i + 1));
        s.push(c);
        i += 1;
    }
    assert(s@ + Seq::<char>::empty() =~= s@);
    s
}

/// Number displays in the order they were enumerated in, from one.
pub fn number_displays(displays: &mut Vec<DisplayInfo>)
    ensures
        final(displays)@.len() == old(displays)@.len(),
        forall|i: int|
            0 <= i < final(displays)@.len() ==> #[trigger] final(displays)@[i] == (DisplayInfo {
                index: (i + 1) as usize,
                ..old(displays)@[i]
            }),
{
    let ghost before = displays@;
    let mut i: usize = 0;
    while i < displays.len()
        invariant
            i <= displays@.len(),
            displays@.len() == before.len(),
            forall|j: int|
                0 <= j < i ==> #[trigger] displays@[j] == (DisplayInfo {
                    index: (j + 1) as usize,
                    ..before[j]
                }),
            forall|j: int| i <= j < before.len() ==> #[trigger] displays@[j] == before[j],
        decreases displays@.len() - i,
    {
        let mut d = displays[i].clone();
        d.index = i + 1;
        displays.set(i, d);
        i += 1;
    }
}

/// The place of the first display with a name.
pub open spec fn named(displays: Seq<DisplayInfo>, name: Seq<char>, from: int) -> Option<int>
    decreases displays.len() - from,
{
    if from < 0 || from >= displays.len() {
        None
    } else if displays[from].name@ == name {
        Some(from)
    } else {
        named(displays, name, from + 1)
    }
}

/// Find an enumerated display by its device name.
pub fn find_by_name(displays: &[DisplayInfo], name: &str) -> (d: Option<DisplayInfo>)
    ensures
        d == (match named(displays@, name@, 0) {
            Some(i) => Some(displays@[i]),
            None => None,
        }),
{
    let mut i: usize = 0;
    while i < displays.len()
        invariant
            i <= displays@.len(),
            named(displays@, name@, 0) == named(displays@, name@, i as int),
        decreases displays@.len() - i,
    {
        if same_text(displays[i].name.as_str(), name) {
            return Some(displays[i].clone());
        }
        i += 1;
    }
    None
}

/// A device's name is read up to its first zero, unit by unit, and what is no character is
/// replaced.
pub proof fn names_end_at_the_first_zero(units: Seq<u16>, n: int, i: int)
    requires
        0 <= n <= units.len(),
        n == units.len() || units[n] == 0,
        forall|j: int| 0 <= j < n ==> #[trigger] units[j] != 0,
    ensures
        name_of(units).len() == n,
        0 <= i < n && (units[i] < 0xD800 || units[i] > 0xDFFF) ==> name_of(units)[i] as int
            == units[i],
        0 <= i < n && 0xD800 <= units[i] <= 0xDFFF ==> name_of(units)[i] == '\u{FFFD}',
    decreases units.len(),
{
    if n > 0 {
        let rest = units.drop_first();
        assert(units[0] != 0);
        assert forall|j: int| 0 <= j < n - 1 implies #[trigger] rest[j] != 0 by {
            assert(rest[j] == units[j + 1]);
        }
        if n < units.len() {
            assert(rest[n - 1] == units[n]);
        }
        names_end_at_the_first_zero(rest, n - 1, i - 1);
        if i > 0 && i < n {
            assert(rest[i - 1] == units[i]);
            assert(name_of(units)[i] == name_of(rest)[i - 1]);
        } else if i == 0 {
            assert(name_of(units)[0] == unit_char(units[0]));
        }
    }
}

/// A display is found by its name, the first of several.
pub proof fn displays_go_by_their_names(displays: Seq<DisplayInfo>, name: Seq<char>, i: int)
    requires
        0 <= i < displays.len(),
        displays[i].name@ == name,
        forall|j: int| 0 <= j < i ==> (#[trigger] displays[j]).name@ != name,
    ensures
        named(displays, name, 0) == Some(i),
{
    lemma_named_from(displays, name, 0, i);
}

/// Where the search for a name from a place ends.
proof fn lemma_named_from(displays: Seq<DisplayInfo>, name: Seq<char>, from: int, i: int)
    requires
        0 <= from <= i < displays.len(),
        displays[i].name@ == name,
        forall|j: int| 0 <= j < i ==> (#[trigger] displays[j]).name@ != name,
    ensures
        named(displays, name, from) == Some(i),
    decreases i - from,
{
    if from < i {
        assert(displays[from].name@ != name);
        lemma_named_from(displays, name, from + 1, i);
    }
}

} // verus!
