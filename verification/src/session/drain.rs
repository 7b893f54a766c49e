//! Draining captured frames to disk: when to look at free space again, when to stop writing,
//! and how the recording ended.
//!
//! If writing fails, frames keep being drained (so capture never blocks) but are no longer
//! written; what was written before stays usable.

use crate::session::space::{DISK_CHECK_EVERY, DRAIN_STOP_FLOOR_BYTES};
use crate::session::take::chars;
use crate::text::{decimal, push_decimal};
use vstd::prelude::*;

verus! {

/// What to do with a frame that arrived.
#[derive(Debug, Clone, Copy, PartialEq, Eq, Structural)]
pub enum FrameStep {
    /// Look at the free space before deciding.
    ProbeDisk,
    /// Write it.
    Write,
    /// Drop it: writing has stopped.
    Discard,
}

/// What happened where a frame was waited for.
#[derive(Debug, Clone, Copy, PartialEq, Eq, Structural)]
pub enum WaitStep {
    KeepWaiting,
    Finish,
}

/// The state of the draining loop.
#[derive(Debug)]
pub struct Drain {
    write_err: Option<String>,
    since_check: u32,
    ended_early: bool,
}

/// What the draining loop holds.
pub struct DrainModel {
    /// Why writing stopped, if it did.
    pub write_err: Option<Seq<char>>,
    /// Frames since free space was looked at.
    pub since_check: int,
    /// Whether capture ended before a stop was asked for.
    pub ended_early: bool,
}

impl View for Drain {
    type V = DrainModel;

    closed spec fn view(&self) -> DrainModel {
        DrainModel {
            write_err: chars(self.write_err),
            since_check: self.since_check as int,
            ended_early: self.ended_early,
        }
    }
}

/// Why writing stopped on a full disk.
pub open spec fn low_space_text(free: u64) -> Seq<char> {
    "low on space, ~"@ + decimal((free / 1_048_576) as nat) + " MB left"@
}

impl Drain {
    /// Counting starts anew before it reaches the next check.
    pub closed spec fn wf(&self) -> bool {
        self.since_check < DISK_CHECK_EVERY
    }

    /// Nothing drained yet.
    pub fn new() -> (d: Self)
        ensures
            d.wf(),
            d@ == (DrainModel { write_err: None, since_check: 0, ended_early: false }),
    {
        Drain { write_err: None, since_check: 0, ended_early: false }
    }

    /// A frame arrived.
    pub fn frame_arrived(&mut self) -> (step: FrameStep)
        requires
            old(self).wf(),
        ensures
            final(self).wf(),
            ({
                let m = old(self)@;
                if m.write_err is Some {
                    step is Discard && final(self)@ == m
                } else if m.since_check + 1 >= DISK_CHECK_EVERY {
                    step is ProbeDisk && final(self)@ == DrainModel { since_check: 0, ..m }
                } else {
                    step is Write && final(self)@ == DrainModel {
                        since_check: m.since_check + 1,
                        ..m
                    }
                }
            }),
    {
        if self.write_err.is_some() {
            return FrameStep::Discard;
        }
        self.since_check = self.since_check + 1;
        if self.since_check >= DISK_CHECK_EVERY {
            self.since_check = 0;
            FrameStep::ProbeDisk
        } else {
            FrameStep::Write
        }
    }

    /// Free space was looked at for a frame that arrived; `None` = unknown, which never
    /// stops writing.
    pub fn probed(&mut self, free: Option<u64>) -> (step: FrameStep)
        requires
            old(self).wf(),
        ensures
            final(self).wf(),
            match free {
                Some(n) if n < DRAIN_STOP_FLOOR_BYTES => {
                    &&& step is Discard
                    &&& final(self)@ == DrainModel {
                        write_err: Some(low_space_text(n)),
                        ..old(self)@
                    }
                },
                _ => step is Write && final(self)@ == old(self)@,
            },
    {
        if let Some(n) = free {
            if n < DRAIN_STOP_FLOOR_BYTES {
                let mut s = "low on space, ~".to_owned();
                push_decimal(&mut s, (n / 1_048_576) as u128);
                s.push_str(" MB left");
                self.write_err = Some(s);
                return FrameStep::Discard;
            }
        }
        FrameStep::Write
    }

    /// Writing a frame failed.
    pub fn write_failed(&mut self, why: String)
        requires
            old(self).wf(),
        ensures
            final(self).wf(),
            final(self)@ == (DrainModel { write_err: Some(why@), ..old(self)@ }),
    {
        self.write_err = Some(why);
    }

    /// No frame came for a while.
    pub fn timed_out(&self, stop_requested: bool) -> (step: WaitStep)
        ensures
            step == (if stop_requested {
                WaitStep::Finish
            } else {
                WaitStep::KeepWaiting
            }),
    {
        if stop_requested {
            WaitStep::Finish
        } else {
            WaitStep::KeepWaiting
        }
    }

    /// The capture went away. Where no stop was asked for, it ended on its own (a monitor was
    /// unplugged).
    pub fn disconnected(&mut self, stop_requested: bool) -> (step: WaitStep)
        requires
            old(self).wf(),
        ensures
            final(self).wf(),
            step is Finish,
            final(self)@ == (DrainModel { ended_early: !stop_requested, ..old(self)@ }),
    {
        self.ended_early = !stop_requested;
        WaitStep::Finish
    }

    /// Whether the files must be salvaged: writing stopped before the end.
    pub fn must_salvage(&self) -> (r: bool)
        ensures
            r == (self@.write_err is Some),
    {
        self.write_err.is_some()
    }

    /// Why writing stopped, and whether capture ended on its own.
    pub fn outcome(self) -> (r: (Option<String>, bool))
        ensures
            chars(r.0) == self@.write_err,
            r.1 == self@.ended_early,
    {
        (self.write_err, self.ended_early)
    }
}

/// What is left of the disk is told in whole mebibytes.
pub proof fn space_left_is_told_in_mebibytes(free: u64, n: int)
    requires
        n * 1_048_576 <= free < (n + 1) * 1_048_576,
    ensures
        low_space_text(free) == "low on space, ~"@ + decimal(n as nat) + " MB left"@,
{
}

} // verus!
