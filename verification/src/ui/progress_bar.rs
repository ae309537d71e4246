//! The bar that shows how far an extraction has come.

use vstd::prelude::*;

verus! {

/// A progress in percent, from 0 to 100.
#[derive(Debug, Copy, Clone, PartialEq, Eq)]
pub struct ProgressBar {
    progress: u8,
}

impl ProgressBar {
    /// The progress that is shown.
    pub closed spec fn progress(&self) -> u8 {
        self.progress
    }

    /// A bar for the given progress; what goes beyond 100 counts as 100.
    pub fn new(progress: u8) -> (bar: Self)
        ensures
            bar.progress() == if progress <= 100 {
                progress
            } else {
                100
            },
    {
        ProgressBar { progress: if progress <= 100 { progress } else { 100 } }
    }

    /// The progress that is shown.
    pub fn percent(&self) -> (progress: u8)
        ensures
            progress == self.progress(),
            progress <= 100,
    {
        proof {
            use_type_invariant(self);
        }
        self.progress
    }

    #[verifier::type_invariant]
    spec fn in_range(self) -> bool {
        self.progress <= 100
    }
}

} // verus!
