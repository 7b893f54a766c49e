//! The engine boots in the background while the window paints: until it is there, commands
//! are told to come back.

use vstd::prelude::*;

verus! {

/// A lazily booted engine: nothing yet, the booted session, or why it did not boot.
#[derive(Debug)]
pub struct Engine<S> {
    boot: Option<Result<S, String>>,
}

impl<S> Engine<S> {
    /// How booting went, if it is over.
    pub closed spec fn outcome(&self) -> Option<Result<S, String>> {
        self.boot
    }

    /// Still booting.
    pub fn new() -> (e: Self)
        ensures
            e.outcome() is None,
    {
        Engine { boot: None }
    }

    /// Booting is over. Only the first outcome counts; a later one is handed back.
    pub fn set(&mut self, outcome: Result<S, String>) -> (r: Result<(), Result<S, String>>)
        ensures
            match old(self).outcome() {
                None => r is Ok && final(self).outcome() == Some(outcome),
                Some(_) => r == Err::<(), Result<S, String>>(outcome) && final(self).outcome()
                    == old(self).outcome(),
            },
    {
        if self.boot.is_some() {
            return Err(outcome);
        }
        self.boot = Some(outcome);
        Ok(())
    }

    /// The booted session, a hint to retry, or the boot error.
    pub fn session(&self) -> (r: Result<&S, String>)
        ensures
            match self.outcome() {
                None => r matches Err(e) && e@ == "engine-starting"@,
                Some(Ok(s)) => r == Ok::<&S, String>(&s),
                Some(Err(why)) => r matches Err(e) && e@ == "engine failed to start: "@ + why@,
            },
    {
        match &self.boot {
            None => Err("engine-starting".to_owned()),
            Some(Ok(s)) => Ok(s),
            Some(Err(why)) => {
                let mut s = "engine failed to start: ".to_owned();
                s.push_str(why);
                Err(s)
            },
        }
    }
}

} // verus!
