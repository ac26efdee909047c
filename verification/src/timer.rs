//! The signal that ends a search.
use vstd::prelude::*;
use core::sync::atomic::{AtomicBool, Ordering};

verus! {

/// When a search has to stop: once the flag is raised, or never.
#[derive(Clone, Copy)]
pub struct Deadline<'a> {
    flag: Option<&'a AtomicBool>,
}

impl<'a> Deadline<'a> {
    /// Whether there is no flag to raise.
    pub closed spec fn is_never(&self) -> bool {
        self.flag is None
    }

    /// The deadline that never passes.
    pub fn never() -> (r: Self)
        ensures
            r.is_never(),
    {
        Deadline { flag: None }
    }

    /// The deadline that passes when `flag` is raised.
    pub fn flag(flag: &'a AtomicBool) -> (r: Self)
        ensures
            !r.is_never(),
    {
        Deadline { flag: Some(flag) }
    }

    /// Whether the flag has been seen raised. What another thread does to the
    /// flag is not known here, so the answer is only fixed where there is no
    /// flag.
    pub fn passed(&self) -> (r: bool)
        ensures
            self.is_never() ==> !r,
    {
        match self.flag {
            Some(flag) => self.passed_when(flag.load(Ordering::Relaxed)),
            None => false,
        }
    }

    /// Whether the deadline has passed where its flag, if it has one, holds
    /// `raised`: a deadline with a flag has passed exactly when the flag is
    /// raised, and one without a flag never has.
    pub fn passed_when(&self, raised: bool) -> (r: bool)
        ensures
            r == (!self.is_never() && raised),
    {
        match self.flag {
            Some(_) => raised,
            None => false,
        }
    }
}

} // verus!
