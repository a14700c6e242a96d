//! The retry queue: a state machine that collects the completions of one
//! round at a time and decides, when a round is over, whether another one
//! starts.

use crate::notice::{Notice, NoticeView};
use crate::outcome::{first_error, retries_of, successes_of, Attempt, RetryQueueOutcome};
use vstd::prelude::*;

verus! {

/// The state of a run between two completions.
///
/// A queue is always collecting a round: the initial one, in which every
/// initial key is attempted, or a retry round. It is made by
/// [`RetryQueue::start`], fed by [`RetryQueue::record`] and asked for the next
/// round by [`RetryQueue::end_round`].
pub struct RetryQueue<T, K> {
    successes: Vec<T>,
    pending: Vec<K>,
    attempts: usize,
    max_retry_attempts: usize,
}

/// What a queue holds, as the contracts speak of it.
pub struct QueueView<T, K> {
    /// The values of the operations that succeeded so far, in the order in
    /// which they completed.
    pub successes: Seq<T>,
    /// The keys that the current round has queued for the next one, first
    /// queued first.
    pub pending: Seq<K>,
    /// The number of retry rounds started so far.
    pub attempts: nat,
    /// The number of retry rounds that may be started in all.
    pub max_retry_attempts: nat,
}

impl<T, K> View for RetryQueue<T, K> {
    type V = QueueView<T, K>;

    closed spec fn view(&self) -> QueueView<T, K> {
        QueueView {
            successes: self.successes@,
            pending: self.pending@,
            attempts: self.attempts as nat,
            max_retry_attempts: self.max_retry_attempts as nat,
        }
    }
}

/// What the driver does when a round is over.
pub enum Step<T, K> {
    /// Run another round: if `pause` is set, wait for the retry delay first;
    /// then pass `notice` on, start one operation per key of `keys`, all at
    /// once, and record their completions in `queue`.
    Retry { queue: RetryQueue<T, K>, keys: Vec<K>, pause: bool, notice: Notice },
    /// Pass `notices` on in order and return `successes` and `pending`.
    Finish { successes: Vec<T>, pending: Vec<K>, notices: Vec<Notice> },
}

/// A step as the contracts speak of it.
pub enum StepView<T, K> {
    /// Another round follows: after a pause if `pause` is set, and after
    /// `notice`, it starts `keys` and collects in `queue`.
    Retry { queue: QueueView<T, K>, keys: Seq<K>, pause: bool, notice: NoticeView },
    /// The run ends: after `notices` it returns `successes` and `pending`.
    Finish { successes: Seq<T>, pending: Seq<K>, notices: Seq<NoticeView> },
}

impl<T, K> View for Step<T, K> {
    type V = StepView<T, K>;

    open spec fn view(&self) -> StepView<T, K> {
        match *self {
            Step::Retry { queue, keys, pause, notice } => StepView::Retry {
                queue: queue@,
                keys: keys@,
                pause,
                notice: notice@,
            },
            Step::Finish { successes, pending, notices } => StepView::Finish {
                successes: successes@,
                pending: pending@,
                notices: notices@.map_values(|notice: Notice| notice@),
            },
        }
    }
}

/// The queue at the start of a run: nothing has completed, no retry round has
/// started.
pub open spec fn start_spec<T, K>(max_retry_attempts: nat) -> QueueView<T, K> {
    QueueView { successes: Seq::empty(), pending: Seq::empty(), attempts: 0, max_retry_attempts }
}

/// The queue after one more completion: a success joins the successes, a
/// retry joins the pending keys, and a fatal error ends the run with nothing
/// left of the queue.
pub open spec fn record_spec<T, K, E>(queue: QueueView<T, K>, attempt: Attempt<T, K, E>) -> Result<
    QueueView<T, K>,
    E,
> {
    match attempt {
        Ok(RetryQueueOutcome::Success(value)) => Ok(
            QueueView { successes: queue.successes.push(value), ..queue },
        ),
        Ok(RetryQueueOutcome::Retry(key)) => Ok(
            QueueView { pending: queue.pending.push(key), ..queue },
        ),
        Err(error) => Err(error),
    }
}

/// The queue after the completions `done`, taken in order: the error that
/// completed first, if there is one, else the queue with the successes and
/// the retry keys of `done` appended.
pub open spec fn collect_spec<T, K, E>(queue: QueueView<T, K>, done: Seq<Attempt<T, K, E>>) -> Result<
    QueueView<T, K>,
    E,
> {
    match first_error(done) {
        Some(error) => Err(error),
        None => Ok(
            QueueView {
                successes: queue.successes + successes_of(done),
                pending: queue.pending + retries_of(done),
                ..queue
            },
        ),
    }
}

/// Whether another round follows the one that `queue` has collected: keys are
/// pending and a retry round is left.
pub open spec fn retries_again<T, K>(queue: QueueView<T, K>) -> bool {
    queue.pending.len() > 0 && queue.attempts < queue.max_retry_attempts
}

/// The notices that end a run, in order: that the retry rounds are over, if
/// one ran, and that keys were given up, if any is pending.
pub open spec fn closing_notices<T, K>(queue: QueueView<T, K>) -> Seq<NoticeView> {
    let completed = if queue.attempts > 0 {
        seq![NoticeView::Completed { attempts: queue.attempts }]
    } else {
        Seq::empty()
    };
    let gave_up = if queue.pending.len() > 0 {
        seq![NoticeView::GaveUp { pending: queue.pending.len(), attempts: queue.attempts }]
    } else {
        Seq::empty()
    };
    completed + gave_up
}

/// What follows a round whose completions `queue` has collected.
///
/// Another round follows if keys are pending and a retry round is left. It
/// attempts all the pending keys, in the order in which they were queued, and
/// starts with an empty pending queue. The driver pauses before every retry
/// round but the first. Otherwise the run ends with what the queue holds.
pub open spec fn end_round_spec<T, K>(queue: QueueView<T, K>) -> StepView<T, K> {
    if retries_again(queue) {
        StepView::Retry {
            queue: QueueView {
                successes: queue.successes,
                pending: Seq::empty(),
                attempts: queue.attempts + 1,
                max_retry_attempts: queue.max_retry_attempts,
            },
            keys: queue.pending,
            pause: queue.attempts > 0,
            notice: NoticeView::RoundStarted {
                pending: queue.pending.len(),
                attempt: queue.attempts + 1,
            },
        }
    } else {
        StepView::Finish {
            successes: queue.successes,
            pending: queue.pending,
            notices: closing_notices(queue),
        }
    }
}

/// Recording the completions of a round one by one, as they arrive, collects
/// the round: an empty round leaves the queue as it is, and one more
/// completion is recorded in what the earlier ones left, unless one of them
/// was a fatal error.
pub proof fn law_collect_by_record<T, K, E>(
    queue: QueueView<T, K>,
    done: Seq<Attempt<T, K, E>>,
    attempt: Attempt<T, K, E>,
)
    ensures
        collect_spec(queue, Seq::<Attempt<T, K, E>>::empty()) == Ok::<QueueView<T, K>, E>(queue),
        collect_spec(queue, done.push(attempt)) == match collect_spec(queue, done) {
            Ok(collected) => record_spec(collected, attempt),
            Err(error) => Err(error),
        },
{
    let none = Seq::<Attempt<T, K, E>>::empty();
    assert(queue.successes + successes_of(none) =~= queue.successes);
    assert(queue.pending + retries_of(none) =~= queue.pending);
    let more = done.push(attempt);
    assert(more.drop_last() =~= done);
    if first_error(done) is None {
        match attempt {
            Ok(RetryQueueOutcome::Success(value)) => {
                assert(queue.successes + successes_of(more) =~= (queue.successes + successes_of(
                    done,
                )).push(value));
            },
            Ok(RetryQueueOutcome::Retry(key)) => {
                assert(queue.pending + retries_of(more) =~= (queue.pending + retries_of(
                    done,
                )).push(key));
            },
            Err(_) => {},
        }
    }
}

impl<T, K> RetryQueue<T, K> {
    /// Starts a run. The driver starts one operation per key of `keys`, all
    /// at once, and records their completions in the queue returned.
    pub fn start(keys: Vec<K>, max_retry_attempts: usize) -> (run: (Self, Vec<K>))
        ensures
            run.0@ == start_spec::<T, K>(max_retry_attempts as nat),
            run.1@ == keys@,
    {
        let queue = RetryQueue {
            successes: Vec::new(),
            pending: Vec::new(),
            attempts: 0,
            max_retry_attempts,
        };
        (queue, keys)
    }

    /// Records one completed attempt of the current round.
    ///
    /// A fatal error is handed back and the queue is gone with all it held:
    /// the driver stops waiting for the rest of the round and returns the
    /// error.
    pub fn record<E>(self, attempt: Attempt<T, K, E>) -> (next: Result<Self, E>)
        ensures
            match record_spec(self@, attempt) {
                Ok(queue) => next is Ok && next->Ok_0@ == queue,
                Err(error) => next is Err && next->Err_0 == error,
            },
    {
        let mut queue = self;
        match attempt {
            Ok(RetryQueueOutcome::Success(value)) => {
                queue.successes.push(value);
                Ok(queue)
            },
            Ok(RetryQueueOutcome::Retry(key)) => {
                queue.pending.push(key);
                Ok(queue)
            },
            Err(error) => Err(error),
        }
    }

    /// Ends the current round, once all its operations have completed.
    pub fn end_round(self) -> (step: Step<T, K>)
        ensures
            step@ == end_round_spec(self@),
    {
        let RetryQueue { successes, pending, attempts, max_retry_attempts } = self;
        let waiting: usize = pending.len();
        if waiting > 0 && attempts < max_retry_attempts {
            let queue = RetryQueue {
                successes,
                pending: Vec::new(),
                attempts: attempts + 1,
                max_retry_attempts,
            };
            Step::Retry {
                queue,
                keys: pending,
                pause: attempts > 0,
                notice: Notice::RoundStarted { pending: waiting, attempt: attempts + 1 },
            }
        } else {
            let mut notices: Vec<Notice> = Vec::new();
            if attempts > 0 {
                notices.push(Notice::Completed { attempts });
            }
            if waiting > 0 {
                notices.push(Notice::GaveUp { pending: waiting, attempts });
            }
            proof {
                assert(notices@.map_values(|notice: Notice| notice@) =~= closing_notices(self@));
            }
            Step::Finish { successes, pending, notices }
        }
    }
}

} // verus!
