//! Shortcut and special key presses for the keystroke overlay.

use crate::input::clock::{nanos_between, ticks_to_nanos};
use crate::input::event::{RawEvent, RawEventKind};
use crate::input::keys::{
    alt_key, ctrl_key, is_standalone, key_name, label_of, modifier, modifier_of, shift_key,
    shown_alone, types_text, win_key, Modifier,
};
use crate::input::normalize::{held_before, VK_Z};
use crate::project::model::KeyTap;
use crate::text::same_text;
use vstd::prelude::*;

verus! {

/// The key of the stop-recording hotkey, which is pressed with control and shift.
pub const VK_X: u16 = 0x58;

/// Whether a chord drives the app itself (stop recording, manual zoom) and not what is
/// recorded. Other modifiers make no difference.
pub open spec fn is_control_chord(ctrl: bool, shift: bool, vk: u16) -> bool {
    ctrl && shift && (vk == VK_X || vk == VK_Z)
}

/// Whether a chord drives the app itself.
pub fn is_app_control_chord(ctrl: bool, shift: bool, vk: u16) -> (r: bool)
    ensures
        r == is_control_chord(ctrl, shift, vk),
{
    ctrl && shift && (vk == VK_X || vk == VK_Z)
}

/// Key presses of one label that follow each other closer than this are taken for auto-repeat.
pub const REPEAT_GAP: i64 = 500_000_000;

/// The label of a chord: the modifiers that are held, then the key. Shift is named only with
/// another modifier.
pub open spec fn chord_label(
    ctrl: bool,
    shift: bool,
    alt: bool,
    win: bool,
    name: Seq<char>,
) -> Seq<char> {
    let a = if win {
        "Win+"@
    } else {
        Seq::empty()
    };
    let b = if ctrl {
        a + "Ctrl+"@
    } else {
        a
    };
    let c = if alt {
        b + "Alt+"@
    } else {
        b
    };
    let d = if shift && (ctrl || alt || win) {
        c + "Shift+"@
    } else {
        c
    };
    d + name
}

/// The time and label that the press at event `i` is shown with, if it is shown: no release,
/// no modifier, inside the clip, a key with a name, no chord of the app itself, and either a
/// chord or a special key. Plain typing is never shown.
pub open spec fn tap_at(raw: Seq<RawEvent>, i: int, freq: i64, start_qpc: i64, duration: i64) -> Option<
    (i64, Seq<char>),
> {
    let ctrl = held_before(raw, i, |vk: u16| ctrl_key(vk));
    let shift = held_before(raw, i, |vk: u16| shift_key(vk));
    let alt = held_before(raw, i, |vk: u16| alt_key(vk));
    let win = held_before(raw, i, |vk: u16| win_key(vk));
    let t = ticks_to_nanos(raw[i].qpc - start_qpc, freq);
    match raw[i].kind {
        RawEventKind::KeyDown(vk) => {
            if modifier_of(vk) is None && 0 <= t <= duration && !is_control_chord(ctrl, shift, vk)
                && (ctrl || alt || win || shown_alone(vk)) {
                match label_of(vk) {
                    Some(name) => Some((t, chord_label(ctrl, shift, alt, win, name))),
                    None => None,
                }
            } else {
                None
            }
        },
        _ => None,
    }
}

/// The key and the time of the last press among the first `n` events that is worth showing,
/// auto-repeat included.
pub open spec fn last_press(
    raw: Seq<RawEvent>,
    n: int,
    freq: i64,
    start_qpc: i64,
    duration: i64,
) -> Option<(u16, i64)>
    decreases n,
{
    if n <= 0 {
        None
    } else {
        match tap_at(raw, n - 1, freq, start_qpc, duration) {
            Some(tap) => Some((raw[n - 1].kind->KeyDown_0, tap.0)),
            None => last_press(raw, n - 1, freq, start_qpc, duration),
        }
    }
}

/// Whether a key is down just before event `i`.
pub open spec fn key_is_down(raw: Seq<RawEvent>, i: int, vk: u16) -> bool
    decreases i,
{
    if i <= 0 {
        false
    } else {
        match raw[i - 1].kind {
            RawEventKind::KeyDown(k) => k == vk || key_is_down(raw, i - 1, vk),
            RawEventKind::KeyUp(k) => k != vk && key_is_down(raw, i - 1, vk),
            _ => key_is_down(raw, i - 1, vk),
        }
    }
}

/// Whether a held key repeats at event `i`, at time `t`: it is the key pressed last, not
/// released since, and that was not long ago.
pub open spec fn held_on(
    raw: Seq<RawEvent>,
    i: int,
    t: i64,
    freq: i64,
    start_qpc: i64,
    duration: i64,
) -> bool {
    match last_press(raw, i, freq, start_qpc, duration) {
        Some((vk, then)) => raw[i].kind == RawEventKind::KeyDown(vk) && key_is_down(raw, i, vk) && t
            - then < REPEAT_GAP,
        None => false,
    }
}

/// The key presses shown of the first `n` events, auto-repeat coalesced into the original
/// press: a press with the label of the last one shown is left out soon after it, and however
/// long after it while the key is held.
pub open spec fn taps_of(raw: Seq<RawEvent>, n: int, freq: i64, start_qpc: i64, duration: i64) -> Seq<
    (i64, Seq<char>),
>
    decreases n,
{
    if n <= 0 {
        Seq::empty()
    } else {
        let before = taps_of(raw, n - 1, freq, start_qpc, duration);
        match tap_at(raw, n - 1, freq, start_qpc, duration) {
            Some(tap) => if before.len() > 0 && before.last().1 == tap.1 && (tap.0
                - before.last().0 < REPEAT_GAP || held_on(
                raw,
                n - 1,
                tap.0,
                freq,
                start_qpc,
                duration,
            )) {
                before
            } else {
                before.push(tap)
            },
            None => before,
        }
    }
}

/// The times and labels of key presses.
pub open spec fn taps_view(taps: Seq<KeyTap>) -> Seq<(i64, Seq<char>)> {
    Seq::new(taps.len(), |i: int| (taps[i].t, taps[i].label@))
}

/// A key is at most one modifier.
proof fn lemma_modifiers(vk: u16)
    ensures
        modifier_of(vk) is Some <==> ctrl_key(vk) || shift_key(vk) || alt_key(vk) || win_key(vk),
        ctrl_key(vk) <==> modifier_of(vk) == Some(Modifier::Ctrl),
        shift_key(vk) <==> modifier_of(vk) == Some(Modifier::Shift),
        alt_key(vk) <==> modifier_of(vk) == Some(Modifier::Alt),
        win_key(vk) <==> modifier_of(vk) == Some(Modifier::Win),
{
}

fn build_label(ctrl: bool, shift: bool, alt: bool, win: bool, name: &str) -> (s: String)
    ensures
        s@ == chord_label(ctrl, shift, alt, win, name@),
{
    let mut label = String::new();
    if win {
        label.push_str("Win+");
        assert(label@ =~= "Win+"@);
    }
    if ctrl {
        label.push_str("Ctrl+");
    }
    if alt {
        label.push_str("Alt+");
    }
    if shift && (ctrl || alt || win) {
        label.push_str("Shift+");
    }
    label.push_str(name);
    assert(label@ =~= chord_label(ctrl, shift, alt, win, name@));
    label
}

/// Turn the raw key log into key presses worth showing: modifier chords (`Ctrl+Shift+P`) and
/// standalone special keys (Enter, Esc, F-keys, arrows). However long a key is held, its
/// auto-repeat is coalesced into the original press.
pub fn extract_key_taps(raw: &[RawEvent], freq: i64, start_qpc: i64, duration: i64) -> (taps: Vec<
    KeyTap,
>)
    ensures
        taps_view(taps@) == taps_of(raw@, raw@.len() as int, freq, start_qpc, duration),
{
    let mut shift = false;
    let mut ctrl = false;
    let mut alt = false;
    let mut win = false;
    let mut taps: Vec<KeyTap> = Vec::new();
    let mut last_vk: u16 = 0;
    let mut last_t: i64 = 0;
    let mut held = false;
    let mut i: usize = 0;
    assert(taps_view(taps@) =~= Seq::empty());
    while i < raw.len()
        invariant
            i <= raw@.len(),
            ctrl == held_before(raw@, i as int, |vk: u16| ctrl_key(vk)),
            shift == held_before(raw@, i as int, |vk: u16| shift_key(vk)),
            alt == held_before(raw@, i as int, |vk: u16| alt_key(vk)),
            win == held_before(raw@, i as int, |vk: u16| win_key(vk)),
            taps_view(taps@) == taps_of(raw@, i as int, freq, start_qpc, duration),
            last_press(raw@, i as int, freq, start_qpc, duration) == (if taps@.len() == 0 {
                None
            } else {
                Some((last_vk, last_t))
            }),
            held == key_is_down(raw@, i as int, last_vk),
        decreases raw@.len() - i,
    {
        let e = raw[i];
        let ghost before = taps@;
        let t: i64 = nanos_between(start_qpc, e.qpc, freq);
        let ghost tap = tap_at(raw@, i as int, freq, start_qpc, duration);
        match e.kind {
            RawEventKind::KeyDown(vk) => {
                proof {
                    lemma_modifiers(vk);
                }
                match modifier(vk) {
                    Some(m) => {
                        match m {
                            Modifier::Shift => {
                                shift = true;
                            },
                            Modifier::Ctrl => {
                                ctrl = true;
                            },
                            Modifier::Alt => {
                                alt = true;
                            },
                            Modifier::Win => {
                                win = true;
                            },
                        }
                        assert(tap is None);
                    },
                    None => {
                        let chord = ctrl || alt || win;
                        if t >= 0 && t <= duration && !is_app_control_chord(ctrl, shift, vk)
                            && (chord || is_standalone(vk)) {
                            if let Some(name) = key_name(vk) {
                                let label = build_label(ctrl, shift, alt, win, name);
                                assert(tap == Some((t, label@)));
                                let n: usize = taps.len();
                                let soon = n > 0 && (t as i128 - taps[n - 1].t as i128)
                                    < REPEAT_GAP as i128;
                                let again = n > 0 && held && vk == last_vk && (t as i128 - last_t as i128)
                                    < REPEAT_GAP as i128;
                                let repeat = (soon || again) && same_text(
                                    taps[n - 1].label.as_str(),
                                    label.as_str(),
                                );
                                if n > 0 {
                                    assert(taps_view(taps@).last() == (
                                        taps@[n - 1].t,
                                        taps@[n - 1].label@,
                                    ));
                                }
                                last_vk = vk;
                                last_t = t;
                                if !repeat {
                                    taps.push(KeyTap { t, label });
                                    assert(taps_view(taps@) =~= taps_view(before).push((t, label@)));
                                }
                            } else {
                                assert(tap is None);
                            }
                        } else {
                            assert(tap is None);
                        }
                    },
                }
                if vk == last_vk {
                    held = true;
                }
            },
            RawEventKind::KeyUp(vk) => {
                proof {
                    lemma_modifiers(vk);
                }
                if vk == last_vk {
                    held = false;
                }
                if let Some(m) = modifier(vk) {
                    match m {
                        Modifier::Shift => {
                            shift = false;
                        },
                        Modifier::Ctrl => {
                            ctrl = false;
                        },
                        Modifier::Alt => {
                            alt = false;
                        },
                        Modifier::Win => {
                            win = false;
                        },
                    }
                }
            },
            _ => {},
        }
        i += 1;
    }
    taps
}

/// Plain typing is never shown: a letter or digit shows only while control, alt or the
/// system key is held.
pub proof fn plain_typing_is_never_shown(
    raw: Seq<RawEvent>,
    i: int,
    vk: u16,
    freq: i64,
    start_qpc: i64,
    duration: i64,
)
    requires
        raw[i].kind == RawEventKind::KeyDown(vk),
        types_text(vk),
        !held_before(raw, i, |k: u16| ctrl_key(k)),
        !held_before(raw, i, |k: u16| alt_key(k)),
        !held_before(raw, i, |k: u16| win_key(k)),
    ensures
        tap_at(raw, i, freq, start_qpc, duration) is None,
{
}

/// The app's own chords are never shown.
pub proof fn control_chords_are_never_shown(
    raw: Seq<RawEvent>,
    i: int,
    vk: u16,
    freq: i64,
    start_qpc: i64,
    duration: i64,
)
    requires
        raw[i].kind == RawEventKind::KeyDown(vk),
        vk == VK_X || vk == VK_Z,
        held_before(raw, i, |k: u16| ctrl_key(k)),
        held_before(raw, i, |k: u16| shift_key(k)),
    ensures
        tap_at(raw, i, freq, start_qpc, duration) is None,
{
}

/// A held key is shown once: as long as every press is the same key held on, under the label
/// that was shown, nothing more is shown.
pub proof fn held_keys_are_shown_once(
    raw: Seq<RawEvent>,
    m: int,
    n: int,
    freq: i64,
    start_qpc: i64,
    duration: i64,
)
    requires
        0 <= m <= n <= raw.len(),
        taps_of(raw, m, freq, start_qpc, duration).len() > 0,
        forall|i: int|
            m <= i < n ==> (#[trigger] tap_at(raw, i, freq, start_qpc, duration) matches Some(tap)
                ==> tap.1 == taps_of(raw, m, freq, start_qpc, duration).last().1 && held_on(
                raw,
                i,
                tap.0,
                freq,
                start_qpc,
                duration,
            )),
    ensures
        taps_of(raw, n, freq, start_qpc, duration) == taps_of(raw, m, freq, start_qpc, duration),
    decreases n - m,
{
    if m < n {
        held_keys_are_shown_once(raw, m, n - 1, freq, start_qpc, duration);
        let last = tap_at(raw, n - 1, freq, start_qpc, duration);
        assert(last matches Some(tap) ==> held_on(raw, n - 1, tap.0, freq, start_qpc, duration));
    }
}

/// Every key press shown lies in the clip and was shown for some event of the log.
pub proof fn shown_presses_come_from_the_log(
    raw: Seq<RawEvent>,
    n: int,
    freq: i64,
    start_qpc: i64,
    duration: i64,
    k: int,
)
    requires
        0 <= n <= raw.len(),
        0 <= k < taps_of(raw, n, freq, start_qpc, duration).len(),
    ensures
        0 <= taps_of(raw, n, freq, start_qpc, duration)[k].0 <= duration,
        exists|i: int|
            0 <= i < n && #[trigger] tap_at(raw, i, freq, start_qpc, duration) == Some(
                taps_of(raw, n, freq, start_qpc, duration)[k],
            ),
    decreases n,
{
    let before = taps_of(raw, n - 1, freq, start_qpc, duration);
    if k < before.len() {
        shown_presses_come_from_the_log(raw, n - 1, freq, start_qpc, duration, k);
    } else {
        assert(tap_at(raw, n - 1, freq, start_qpc, duration) is Some);
    }
}

/// A chord names its modifiers before the key: the system's first, then control, alternate and
/// shift; shift alone is not named.
pub proof fn chords_name_their_modifiers(
    ctrl: bool,
    shift: bool,
    alt: bool,
    win: bool,
    name: Seq<char>,
)
    ensures
        ({
            let l = chord_label(ctrl, shift, alt, win, name);
            &&& !ctrl && !alt && !win ==> l == name
            &&& win && !ctrl && !alt && !shift ==> l == "Win+"@ + name
            &&& ctrl && !win && !alt && !shift ==> l == "Ctrl+"@ + name
            &&& alt && !win && !ctrl && !shift ==> l == "Alt+"@ + name
            &&& ctrl && shift && !win && !alt ==> l == "Ctrl+"@ + "Shift+"@ + name
            &&& alt && shift && !win && !ctrl ==> l == "Alt+"@ + "Shift+"@ + name
            &&& win && shift && !alt && !ctrl ==> l == "Win+"@ + "Shift+"@ + name
            &&& ctrl && alt && !win && !shift ==> l == "Ctrl+"@ + "Alt+"@ + name
            &&& win && ctrl && !alt && !shift ==> l == "Win+"@ + "Ctrl+"@ + name
            &&& win && ctrl && alt && shift ==> l == "Win+"@ + "Ctrl+"@ + "Alt+"@ + "Shift+"@ + name
        }),
{
    let l = chord_label(ctrl, shift, alt, win, name);
    let none = Seq::<char>::empty();
    assert(none + name =~= name);
    assert(none + "Ctrl+"@ =~= "Ctrl+"@);
    assert(none + "Alt+"@ =~= "Alt+"@);
}

/// A press in the clip of a labeled key, with a modifier held or one that is shown alone, is
/// shown at its time under its label, unless it is the app's own chord or another modifier;
/// nothing else is.
pub proof fn labeled_presses_are_shown(
    raw: Seq<RawEvent>,
    i: int,
    vk: u16,
    freq: i64,
    start_qpc: i64,
    duration: i64,
)
    requires
        raw[i].kind == RawEventKind::KeyDown(vk),
    ensures
        ({
            let ctrl = held_before(raw, i, |k: u16| ctrl_key(k));
            let shift = held_before(raw, i, |k: u16| shift_key(k));
            let alt = held_before(raw, i, |k: u16| alt_key(k));
            let win = held_before(raw, i, |k: u16| win_key(k));
            let t = ticks_to_nanos(raw[i].qpc - start_qpc, freq);
            let tap = tap_at(raw, i, freq, start_qpc, duration);
            let own = ctrl && shift && (vk == 0x58 || vk == 0x5A);
            &&& tap is Some <==> modifier_of(vk) is None && 0 <= t <= duration && !own && (ctrl
                || alt || win || shown_alone(vk)) && label_of(vk) is Some
            &&& tap is Some ==> tap->Some_0.0 == t && tap->Some_0.1 == chord_label(
                ctrl,
                shift,
                alt,
                win,
                label_of(vk)->Some_0,
            )
        }),
{
}

/// A press with another label than the last is shown, and so is one with the same that comes
/// half a second later or more without its key being held; one that comes sooner is not shown
/// again.
pub proof fn presses_are_shown_anew(
    raw: Seq<RawEvent>,
    n: int,
    freq: i64,
    start_qpc: i64,
    duration: i64,
)
    requires
        0 < n <= raw.len(),
        tap_at(raw, n - 1, freq, start_qpc, duration) is Some,
    ensures
        ({
            let before = taps_of(raw, n - 1, freq, start_qpc, duration);
            let after = taps_of(raw, n, freq, start_qpc, duration);
            let tap = tap_at(raw, n - 1, freq, start_qpc, duration)->Some_0;
            let vk = raw[n - 1].kind->KeyDown_0;
            let last = before[before.len() - 1];
            &&& before.len() == 0 || last.1 != tap.1 ==> after == before.push(tap)
            &&& before.len() > 0 && last.1 == tap.1 && tap.0 - last.0 < 500_000_000 ==> after
                == before
            &&& before.len() > 0 && last.1 == tap.1 && tap.0 - last.0 >= 500_000_000
                && !key_is_down(raw, n - 1, vk) ==> after == before.push(tap)
        }),
{
}

/// The last press is the latest that counts, whatever comes in between that does not.
pub proof fn the_last_press_counts(
    raw: Seq<RawEvent>,
    n: int,
    freq: i64,
    start_qpc: i64,
    duration: i64,
    m: int,
)
    requires
        0 <= m < n <= raw.len(),
        tap_at(raw, m, freq, start_qpc, duration) is Some,
        forall|k: int| m < k < n ==> #[trigger] tap_at(raw, k, freq, start_qpc, duration) is None,
    ensures
        last_press(raw, n, freq, start_qpc, duration) == Some(
            (raw[m].kind->KeyDown_0, tap_at(raw, m, freq, start_qpc, duration)->Some_0.0),
        ),
    decreases n,
{
    if m < n - 1 {
        assert(tap_at(raw, n - 1, freq, start_qpc, duration) is None);
        the_last_press_counts(raw, n - 1, freq, start_qpc, duration, m);
    }
}

/// A key is down where it went down and did not come up since, whatever other keys do.
pub proof fn keys_are_down_until_released(raw: Seq<RawEvent>, i: int, vk: u16, j: int)
    requires
        0 <= j < i <= raw.len(),
        forall|k: int|
            j < k < i ==> (#[trigger] raw[k]).kind != RawEventKind::KeyDown(vk) && raw[k].kind
                != RawEventKind::KeyUp(vk),
    ensures
        raw[j].kind == RawEventKind::KeyDown(vk) ==> key_is_down(raw, i, vk),
        raw[j].kind == RawEventKind::KeyUp(vk) ==> !key_is_down(raw, i, vk),
    decreases i,
{
    if j < i - 1 {
        keys_are_down_until_released(raw, i - 1, vk, j);
        assert(raw[i - 1].kind != RawEventKind::KeyDown(vk));
    }
}

} // verus!
