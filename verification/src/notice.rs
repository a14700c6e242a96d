//! Progress notices. The queue decides when one is due and what it carries;
//! where it goes is the driver's business.

use vstd::prelude::*;

verus! {

/// A progress notice for the driver to pass on.
#[derive(Clone, Copy, Debug, PartialEq, Eq)]
pub enum Notice {
    /// A retry round is about to start.
    RoundStarted {
        /// The number of keys that the round attempts again.
        pending: usize,
        /// The number of the retry round, counted from 1.
        attempt: usize,
    },
    /// The retry rounds are over: nothing is left to retry, or no round is
    /// left to retry in.
    Completed {
        /// The number of retry rounds that ran.
        attempts: usize,
    },
    /// Keys are still pending and no retry round is left.
    GaveUp {
        /// The number of keys that are still pending.
        pending: usize,
        /// The number of retry rounds that ran.
        attempts: usize,
    },
}

/// A notice as the contracts speak of it, with unbounded numbers.
pub enum NoticeView {
    /// Retry round `attempt`, counted from 1, is about to start with
    /// `pending` keys.
    RoundStarted { pending: nat, attempt: nat },
    /// The retry rounds are over after `attempts` of them.
    Completed { attempts: nat },
    /// `pending` keys are left after `attempts` retry rounds, and no round is
    /// left.
    GaveUp { pending: nat, attempts: nat },
}

impl View for Notice {
    type V = NoticeView;

    open spec fn view(&self) -> NoticeView {
        match *self {
            Notice::RoundStarted { pending, attempt } => NoticeView::RoundStarted {
                pending: pending as nat,
                attempt: attempt as nat,
            },
            Notice::Completed { attempts } => NoticeView::Completed { attempts: attempts as nat },
            Notice::GaveUp { pending, attempts } => NoticeView::GaveUp {
                pending: pending as nat,
                attempts: attempts as nat,
            },
        }
    }
}

} // verus!
