//! A recording under way: when it started, what it captures, and its pauses.

use crate::capture::CropRegion;
use crate::session::space::{check_free_space, fits_rate, free_space_outcome, says};
use crate::session::state::{Session, SessionModel};
use vstd::prelude::*;

verus! {

/// A paused span in counter ticks; an open one is not over yet.
#[derive(Debug, Clone, Copy, PartialEq, Eq, Structural)]
pub struct Pause {
    pub start: i64,
    pub end: Option<i64>,
}

/// A recording under way.
#[derive(Debug)]
pub struct Take {
    pub start_qpc: i64,
    pub region: Option<CropRegion>,
    /// Virtual-desktop origin of what is captured.
    pub origin: (i32, i32),
    pub pauses: Vec<Pause>,
    /// Set where the recording started on a disk low on space.
    pub space_warning: Option<String>,
}

/// What a recording under way holds.
#[verifier::ext_equal]
pub struct TakeModel {
    pub start_qpc: i64,
    pub region: Option<CropRegion>,
    pub origin: (i32, i32),
    pub pauses: Seq<Pause>,
    pub space_warning: Option<Seq<char>>,
}

/// The characters of an optional text.
pub open spec fn chars(s: Option<String>) -> Option<Seq<char>> {
    match s {
        Some(s) => Some(s@),
        None => None,
    }
}

impl View for Take {
    type V = TakeModel;

    open spec fn view(&self) -> TakeModel {
        TakeModel {
            start_qpc: self.start_qpc,
            region: self.region,
            origin: self.origin,
            pauses: self.pauses@,
            space_warning: chars(self.space_warning),
        }
    }
}

/// Why a recording did not start.
#[derive(Debug)]
pub enum StartError {
    AlreadyRecording,
    /// Too little disk space, with the text shown to the user.
    NoSpace(String),
}

impl StartError {
    /// The text shown to the user.
    pub open spec fn text(self) -> Seq<char> {
        match self {
            StartError::AlreadyRecording => "already recording"@,
            StartError::NoSpace(s) => s@,
        }
    }

    /// The text shown to the user.
    pub fn message(&self) -> (s: String)
        ensures
            s@ == self.text(),
    {
        match self {
            StartError::AlreadyRecording => "already recording".to_owned(),
            StartError::NoSpace(s) => s.clone(),
        }
    }
}

/// The recording that no one is making: refused with a message.
#[derive(Debug, Clone, Copy, PartialEq, Eq, Structural)]
pub struct NotRecording;

impl NotRecording {
    /// The text shown to the user.
    pub fn message(&self) -> (s: String)
        ensures
            s@ == "not recording"@,
    {
        "not recording".to_owned()
    }
}

/// Storage that a recording is using.
#[derive(Debug, Clone, Copy, PartialEq, Eq, Structural)]
pub struct StorageBusy;

impl StorageBusy {
    /// The text shown to the user.
    pub fn message(&self) -> (s: String)
        ensures
            s@ == "Can't clear storage while recording."@,
    {
        "Can't clear storage while recording.".to_owned()
    }
}

/// The pauses after pausing or resuming at `now`: a pause opens a span, resuming closes it,
/// and asking for what is the case already changes nothing.
pub open spec fn toggled(pauses: Seq<Pause>, paused: bool, now: i64) -> Seq<Pause> {
    let open = pauses.len() > 0 && pauses.last().end is None;
    if paused && !open {
        pauses.push(Pause { start: now, end: None })
    } else if !paused && open {
        pauses.drop_last().push(Pause { start: pauses.last().start, end: Some(now) })
    } else {
        pauses
    }
}

/// At most the last span is open.
pub open spec fn only_last_open(pauses: Seq<Pause>) -> bool {
    forall|i: int| 0 <= i < pauses.len() - 1 ==> (#[trigger] pauses[i]).end is Some
}

/// However pausing and resuming alternate, at most the last span is open.
pub proof fn toggling_leaves_one_open_span(pauses: Seq<Pause>, paused: bool, now: i64)
    requires
        only_last_open(pauses),
    ensures
        only_last_open(toggled(pauses, paused, now)),
{
    let out = toggled(pauses, paused, now);
    assert forall|i: int| 0 <= i < out.len() - 1 implies (#[trigger] out[i]).end is Some by {
        if i < pauses.len() - 1 {
            assert(out[i] == pauses[i]);
        }
    }
}

impl Session {
    /// Whether a recording may start with `free` bytes on its disk (`None` = unknown, which
    /// never blocks), and the warning it starts with.
    pub fn check_start(&self, free: Option<u64>) -> (r: Result<Option<String>, StartError>)
        requires
            fits_rate(self@.pending.size_of().0, self@.pending.size_of().1),
        ensures
            if self@.take is Some {
                r == Err::<Option<String>, StartError>(StartError::AlreadyRecording)
            } else {
                match free {
                    None => r matches Ok(None),
                    Some(n) => {
                        let size = self@.pending.size_of();
                        let outcome = free_space_outcome(n, size.0, size.1);
                        match r {
                            Ok(w) => says(Ok(w), outcome),
                            Err(StartError::NoSpace(e)) => says(Err(e), outcome),
                            Err(_) => false,
                        }
                    },
                }
            },
    {
        if self.recording().is_some() {
            return Err(StartError::AlreadyRecording);
        }
        let (w, h) = self.pending().size();
        match free {
            None => Ok(None),
            Some(n) => match check_free_space(n, w, h) {
                Ok(warning) => Ok(warning),
                Err(e) => Err(StartError::NoSpace(e)),
            },
        }
    }

    /// Start a recording of the pending target at counter value `start_qpc`. The clip in the
    /// editor goes, with its history.
    pub fn start_recording(&mut self, start_qpc: i64, space_warning: Option<String>)
        requires
            old(self)@.take is None,
        ensures
            final(self)@ == (SessionModel {
                take: Some(
                    TakeModel {
                        start_qpc,
                        region: old(self)@.pending.region,
                        origin: old(self)@.pending.origin_of(),
                        pauses: Seq::empty(),
                        space_warning: chars(space_warning),
                    },
                ),
                ..old(self)@.loaded(None)
            }),
    {
        let take = Take {
            start_qpc,
            region: self.pending().region,
            origin: self.pending().origin(),
            pauses: Vec::new(),
            space_warning,
        };
        self.unload();
        let _ = self.replace_take(Some(take));
    }

    /// Abort a running recording without keeping anything. Says whether there was one.
    pub fn cancel_recording(&mut self) -> (r: bool)
        ensures
            r == (old(self)@.take is Some),
            final(self)@ == (SessionModel { take: None, ..old(self)@ }),
    {
        self.replace_take(None).is_some()
    }

    /// Whether stored recordings may be deleted: not while one is being made.
    pub fn check_clear_storage(&self) -> (r: Result<(), StorageBusy>)
        ensures
            r is Ok == (self@.take is None),
    {
        if self.recording().is_some() {
            Err(StorageBusy)
        } else {
            Ok(())
        }
    }

    /// Pause or resume the running recording at counter value `now`. Capture keeps running;
    /// the paused span is turned into a cut at stop time.
    pub fn set_record_paused(&mut self, paused: bool, now: i64) -> (r: Result<(), NotRecording>)
        ensures
            match old(self)@.take {
                None => r is Err && final(self)@ == old(self)@,
                Some(t) => {
                    &&& r is Ok
                    &&& final(self)@ == (SessionModel {
                        take: Some(TakeModel { pauses: toggled(t.pauses, paused, now), ..t }),
                        ..old(self)@
                    })
                },
            },
    {
        match self.replace_take(None) {
            None => Err(NotRecording),
            Some(t) => {
                let mut t = t;
                let n: usize = t.pauses.len();
                let open = n > 0 && t.pauses[n - 1].end.is_none();
                let ghost before = t.pauses@;
                if paused && !open {
                    t.pauses.push(Pause { start: now, end: None });
                } else if !paused && open {
                    let start: i64 = t.pauses[n - 1].start;
                    t.pauses.set(n - 1, Pause { start, end: Some(now) });
                }
                assert(t.pauses@ =~= toggled(before, paused, now));
                let _ = self.replace_take(Some(t));
                Ok(())
            },
        }
    }
}

/// Pausing opens a span at that instant and going on closes it at that; either one twice does
/// no more than once, and the spans before stay.
pub proof fn pausing_and_going_on_make_a_span(pauses: Seq<Pause>, a: i64, b: i64, c: i64)
    requires
        pauses.len() == 0 || pauses[pauses.len() - 1].end is Some,
    ensures
        ({
            let open = toggled(pauses, true, a);
            let closed = toggled(open, false, b);
            &&& open == pauses.push(Pause { start: a, end: None })
            &&& closed == pauses.push(Pause { start: a, end: Some(b) })
            &&& toggled(open, true, c) == open
            &&& toggled(closed, false, c) == closed
            &&& toggled(pauses, false, c) == pauses
        }),
{
    let open = pauses.push(Pause { start: a, end: None });
    assert(open.drop_last() =~= pauses);
}

} // verus!
