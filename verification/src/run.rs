//! A whole run: the rounds that a driver goes through when it does what the
//! queue tells it, and what holds of every such run.

use crate::notice::NoticeView;
use crate::outcome::{
    all_retry, all_succeed, first_error, lemma_all_retry, lemma_all_succeed,
    lemma_completion_order, retries_of, successes_of, Attempt,
};
use crate::queue::{
    closing_notices, collect_spec, end_round_spec, retries_again, start_spec, QueueView, StepView,
};
use vstd::prelude::*;

verus! {

/// What the operations do: for the number of a round (0 for the initial one)
/// and the keys that the round starts, the completed attempts of the round in
/// the order in which they arrive.
pub type World<T, K, E> = spec_fn(nat, Seq<K>) -> Seq<Attempt<T, K, E>>;

/// A run from the outside.
pub struct RunView<T, K, E> {
    /// What the run returns: the successes and the keys still pending, or the
    /// fatal error.
    pub result: Result<(Seq<T>, Seq<K>), E>,
    /// The keys that each round started, round by round: one operation was
    /// started for each.
    pub batches: Seq<Seq<K>>,
    /// How often the driver waited for the retry delay.
    pub pauses: nat,
    /// The notices passed on, in order.
    pub notices: Seq<NoticeView>,
}

/// The run that goes on from a round which starts `keys` and collects in
/// `queue`.
pub open spec fn run_from<T, K, E>(
    queue: QueueView<T, K>,
    keys: Seq<K>,
    world: World<T, K, E>,
) -> RunView<T, K, E>
    decreases queue.max_retry_attempts - queue.attempts,
{
    match collect_spec(queue, world(queue.attempts, keys)) {
        Err(error) => RunView {
            result: Err(error),
            batches: seq![keys],
            pauses: 0,
            notices: Seq::empty(),
        },
        Ok(collected) => match end_round_spec(collected) {
            StepView::Finish { successes, pending, notices } => RunView {
                result: Ok((successes, pending)),
                batches: seq![keys],
                pauses: 0,
                notices,
            },
            StepView::Retry { queue: next, keys: batch, pause, notice } => {
                let rest = run_from(next, batch, world);
                RunView {
                    result: rest.result,
                    batches: seq![keys] + rest.batches,
                    pauses: rest.pauses + if pause { 1nat } else { 0nat },
                    notices: seq![notice] + rest.notices,
                }
            },
        },
    }
}

/// The run on the initial `keys` with at most `max_retry_attempts` retry
/// rounds.
pub open spec fn run<T, K, E>(keys: Seq<K>, max_retry_attempts: nat, world: World<T, K, E>) -> RunView<
    T,
    K,
    E,
> {
    run_from(start_spec(max_retry_attempts), keys, world)
}

/// The successes of the rounds that started `batches`, the first of them being
/// round `from`: round after round, and within a round in the order of
/// arrival.
pub open spec fn harvest<T, K, E>(world: World<T, K, E>, from: nat, batches: Seq<Seq<K>>) -> Seq<T>
    decreases batches.len(),
{
    if batches.len() == 0 {
        Seq::empty()
    } else {
        successes_of(world(from, batches.first())) + harvest(
            world,
            from + 1,
            batches.drop_first(),
        )
    }
}

/// The number of pauses in a run of `rounds` rounds, the first of them being
/// round `from`: one before every retry round but the first.
pub open spec fn pauses_in(from: nat, rounds: nat) -> nat {
    if from > 0 {
        (rounds - 1) as nat
    } else if rounds >= 2 {
        (rounds - 2) as nat
    } else {
        0
    }
}

/// What holds of a run from any round on, round by round.
pub open spec fn goes_by_rounds<T, K, E>(
    queue: QueueView<T, K>,
    keys: Seq<K>,
    world: World<T, K, E>,
    ran: RunView<T, K, E>,
) -> bool {
    let from = queue.attempts;
    let rounds = ran.batches.len();
    let last = world((from + rounds - 1) as nat, ran.batches.last());
    &&& 1 <= rounds <= queue.max_retry_attempts - from + 1
    &&& ran.batches[0] == keys
    &&& forall|i: int|
        0 <= i < rounds - 1 ==> {
            let done = world((from + i) as nat, #[trigger] ran.batches[i]);
            &&& first_error(done) is None
            &&& retries_of(done).len() > 0
            &&& ran.batches[i + 1] == retries_of(done)
        }
    &&& ran.pauses == pauses_in(from, rounds)
    &&& ran.notices.len() >= rounds - 1
    &&& forall|i: int|
        0 <= i < rounds - 1 ==> #[trigger] ran.notices[i] == (NoticeView::RoundStarted {
            pending: ran.batches[i + 1].len(),
            attempt: (from + i + 1) as nat,
        })
    &&& match first_error(last) {
        Some(error) => {
            &&& ran.result == Err::<(Seq<T>, Seq<K>), E>(error)
            &&& ran.notices.len() == rounds - 1
        },
        None => {
            let successes = queue.successes + harvest(world, from, ran.batches);
            let pending = retries_of(last);
            &&& ran.result == Ok::<(Seq<T>, Seq<K>), E>((successes, pending))
            &&& pending.len() == 0 || rounds == queue.max_retry_attempts - from + 1
            &&& ran.notices.skip(rounds - 1) == closing_notices(
                QueueView {
                    successes,
                    pending,
                    attempts: (from + rounds - 1) as nat,
                    max_retry_attempts: queue.max_retry_attempts,
                },
            )
        },
    }
}

/// A run from any round on goes by rounds, if the round starts with nothing
/// pending and within the number of retry rounds allowed.
pub proof fn lemma_run_from_goes_by_rounds<T, K, E>(
    queue: QueueView<T, K>,
    keys: Seq<K>,
    world: World<T, K, E>,
)
    requires
        queue.pending.len() == 0,
        queue.attempts <= queue.max_retry_attempts,
    ensures
        goes_by_rounds(queue, keys, world, run_from(queue, keys, world)),
    decreases queue.max_retry_attempts - queue.attempts,
{
    let from = queue.attempts;
    let done = world(from, keys);
    let ran = run_from(queue, keys, world);
    assert(queue.pending + retries_of(done) =~= retries_of(done));
    assert(harvest(world, from + 1, Seq::<Seq<K>>::empty()) =~= Seq::<T>::empty());
    match collect_spec(queue, done) {
        Err(error) => {
            assert(ran.batches =~= seq![keys]);
        },
        Ok(collected) => {
            if retries_again(collected) {
                let next = QueueView {
                    successes: collected.successes,
                    pending: Seq::empty(),
                    attempts: from + 1,
                    max_retry_attempts: queue.max_retry_attempts,
                };
                let batch = collected.pending;
                let rest = run_from(next, batch, world);
                lemma_run_from_goes_by_rounds(next, batch, world);
                let rounds = ran.batches.len();
                assert(ran.batches.drop_first() =~= rest.batches);
                assert(ran.batches.last() == rest.batches.last());
                assert forall|i: int| 0 <= i < rounds - 1 implies {
                    let done = world((from + i) as nat, #[trigger] ran.batches[i]);
                    &&& first_error(done) is None
                    &&& retries_of(done).len() > 0
                    &&& ran.batches[i + 1] == retries_of(done)
                } by {
                    if i > 0 {
                        assert(ran.batches[i] == rest.batches[i - 1]);
                        assert(ran.batches[i + 1] == rest.batches[i]);
                    }
                }
                assert forall|i: int| 0 <= i < rounds - 1 implies #[trigger] ran.notices[i] == (
                NoticeView::RoundStarted {
                    pending: ran.batches[i + 1].len(),
                    attempt: (from + i + 1) as nat,
                }) by {
                    if i > 0 {
                        assert(ran.notices[i] == rest.notices[i - 1]);
                        assert(ran.batches[i + 1] == rest.batches[i]);
                    }
                }
                assert(ran.notices.skip(rounds - 1) =~= rest.notices.skip(rounds - 2));
                assert(queue.successes + harvest(world, from, ran.batches) =~= next.successes
                    + harvest(world, from + 1, rest.batches));
            } else {
                assert(ran.batches =~= seq![keys]);
                assert(ran.batches.drop_first() =~= Seq::<Seq<K>>::empty());
                assert(queue.successes + harvest(world, from, ran.batches) =~= collected.successes);
                assert(ran.notices.skip(0) =~= ran.notices);
            }
        },
    }
}

/// A run goes by rounds. The initial round starts the initial keys. Each
/// later round starts exactly the keys that the round before it queued for a
/// retry, in the order in which they were queued, so a key whose operation
/// succeeded is never started again. There are at most `max_retry_attempts`
/// retry rounds, and fewer only if a round leaves nothing to retry or fails.
/// The driver pauses before every retry round but the first, and a notice
/// announces every retry round. A run whose last round fails returns the
/// error that completed first in it; any other run returns the successes of
/// all its rounds and the keys that its last round queued.
pub proof fn law_run_goes_by_rounds<T, K, E>(
    keys: Seq<K>,
    max_retry_attempts: nat,
    world: World<T, K, E>,
)
    ensures
        goes_by_rounds(
            start_spec(max_retry_attempts),
            keys,
            world,
            run(keys, max_retry_attempts, world),
        ),
{
    lemma_run_from_goes_by_rounds(start_spec(max_retry_attempts), keys, world);
}

/// Where every operation succeeds at once, in whatever order the operations
/// complete, the run returns the value of every initial key and no pending
/// key. One operation is started per key, and there is no retry round, no
/// pause and no notice.
pub proof fn law_all_succeed<T, K, E>(
    keys: Seq<K>,
    max_retry_attempts: nat,
    world: World<T, K, E>,
    value_of: spec_fn(K) -> T,
)
    requires
        world(0, keys).to_multiset() == all_succeed::<T, K, E>(keys, value_of).to_multiset(),
    ensures
        ({
            let ran = run(keys, max_retry_attempts, world);
            &&& ran.result matches Ok((successes, pending)) && successes.to_multiset()
                == keys.map_values(value_of).to_multiset() && pending.len() == 0
            &&& ran.batches == seq![keys]
            &&& ran.pauses == 0
            &&& ran.notices.len() == 0
        }),
{
    broadcast use vstd::seq_lib::group_to_multiset_ensures;

    let done = world(0, keys);
    lemma_all_succeed::<T, K, E>(keys, value_of);
    lemma_completion_order(done, all_succeed::<T, K, E>(keys, value_of));
    assert(retries_of(done).to_multiset().len() == 0);
    let none = Seq::<T>::empty();
    assert(none + successes_of(done) =~= successes_of(done));
}

/// What holds from any round on where every operation asks to be retried
/// under the key that it was started with.
proof fn lemma_all_retry_from<T, K, E>(
    queue: QueueView<T, K>,
    batch: Seq<K>,
    world: World<T, K, E>,
    keys: Seq<K>,
)
    requires
        queue.successes.len() == 0,
        queue.pending.len() == 0,
        queue.attempts <= queue.max_retry_attempts,
        batch.to_multiset() == keys.to_multiset(),
        forall|round: nat, batch: Seq<K>|
            round <= queue.max_retry_attempts && batch.to_multiset() == keys.to_multiset()
                ==> (#[trigger] world(round, batch)).to_multiset() == all_retry::<T, K, E>(
                batch,
            ).to_multiset(),
    ensures
        ({
            let ran = run_from(queue, batch, world);
            &&& ran.result matches Ok((successes, pending)) && successes.len() == 0
                && pending.to_multiset() == keys.to_multiset()
            &&& ran.batches.len() == if keys.len() == 0 {
                1
            } else {
                queue.max_retry_attempts - queue.attempts + 1
            }
            &&& forall|i: int|
                0 <= i < ran.batches.len() ==> (#[trigger] ran.batches[i]).to_multiset()
                    == keys.to_multiset()
        }),
    decreases queue.max_retry_attempts - queue.attempts,
{
    broadcast use vstd::seq_lib::group_to_multiset_ensures;

    let done = world(queue.attempts, batch);
    let ran = run_from(queue, batch, world);
    lemma_all_retry::<T, K, E>(batch);
    lemma_completion_order(done, all_retry::<T, K, E>(batch));
    assert(successes_of(done).to_multiset().len() == 0);
    assert(queue.successes + successes_of(done) =~= Seq::<T>::empty());
    assert(queue.pending + retries_of(done) =~= retries_of(done));
    assert(retries_of(done).to_multiset() == keys.to_multiset());
    assert(retries_of(done).to_multiset().len() == retries_of(done).len());
    assert(keys.to_multiset().len() == keys.len());
    let collected = collect_spec(queue, done)->Ok_0;
    if retries_again(collected) {
        let next = QueueView {
            successes: collected.successes,
            pending: Seq::empty(),
            attempts: queue.attempts + 1,
            max_retry_attempts: queue.max_retry_attempts,
        };
        let rest = run_from(next, collected.pending, world);
        lemma_all_retry_from(next, collected.pending, world, keys);
        assert forall|i: int| 0 <= i < ran.batches.len() implies (#[trigger] ran.batches[i]).to_multiset()
            == keys.to_multiset() by {
            if i > 0 {
                assert(ran.batches[i] == rest.batches[i - 1]);
            }
        }
    }
}

/// Where every operation asks to be retried under the key that it was
/// started with, in whatever order the operations complete, the run returns
/// no success and the initial keys as pending, in some order. Every round
/// starts one operation per initial key, and unless there is no key at all
/// there are `max_retry_attempts` retry rounds after the initial one: every
/// key is attempted `max_retry_attempts + 1` times.
pub proof fn law_all_retry<T, K, E>(keys: Seq<K>, max_retry_attempts: nat, world: World<T, K, E>)
    requires
        forall|round: nat, batch: Seq<K>|
            round <= max_retry_attempts && batch.to_multiset() == keys.to_multiset() ==> (
            #[trigger] world(round, batch)).to_multiset() == all_retry::<T, K, E>(
                batch,
            ).to_multiset(),
    ensures
        ({
            let ran = run(keys, max_retry_attempts, world);
            &&& ran.result matches Ok((successes, pending)) && successes.len() == 0
                && pending.to_multiset() == keys.to_multiset()
            &&& ran.batches.len() == if keys.len() == 0 {
                1
            } else {
                max_retry_attempts + 1
            }
            &&& forall|i: int|
                0 <= i < ran.batches.len() ==> (#[trigger] ran.batches[i]).to_multiset()
                    == keys.to_multiset()
        }),
{
    lemma_all_retry_from(start_spec(max_retry_attempts), keys, world, keys);
}

/// With no retry round allowed, whatever the operations do, one operation is
/// started per initial key and none after that, and the driver never pauses.
/// The run returns the error that completed first, if there is one, else the
/// successes and the keys that asked for a retry, each in the order of
/// arrival.
pub proof fn law_single_attempt<T, K, E>(keys: Seq<K>, world: World<T, K, E>)
    ensures
        ({
            let ran = run(keys, 0, world);
            let done = world(0, keys);
            &&& ran.batches == seq![keys]
            &&& ran.pauses == 0
            &&& ran.result == match first_error(done) {
                Some(error) => Err::<(Seq<T>, Seq<K>), E>(error),
                None => Ok::<(Seq<T>, Seq<K>), E>((successes_of(done), retries_of(done))),
            }
        }),
{
    let done = world(0, keys);
    assert(Seq::<T>::empty() + successes_of(done) =~= successes_of(done));
    assert(Seq::<K>::empty() + retries_of(done) =~= retries_of(done));
}

/// A fatal error in any round, the initial one or a retry round, ends the run
/// in that round: no round follows it, and the run returns the error that
/// completed first in it and nothing of what succeeded or was queued before.
/// A run returns an error only so.
pub proof fn law_fatal_error<T, K, E>(keys: Seq<K>, max_retry_attempts: nat, world: World<T, K, E>)
    ensures
        ({
            let ran = run(keys, max_retry_attempts, world);
            let last = ran.batches.len() - 1;
            &&& last >= 0
            &&& forall|i: int|
                0 <= i <= last && first_error(world(i as nat, #[trigger] ran.batches[i])) is Some
                    ==> i == last
            &&& match first_error(world(last as nat, ran.batches.last())) {
                Some(error) => ran.result == Err::<(Seq<T>, Seq<K>), E>(error),
                None => ran.result is Ok,
            }
        }),
{
    lemma_run_from_goes_by_rounds(start_spec(max_retry_attempts), keys, world);
}

/// Whether two worlds differ at most in the order in which the operations of
/// a round complete: where two rounds of the same number start the same keys,
/// in whatever order, the same attempts complete in both.
pub open spec fn same_but_for_order<T, K, E>(one: World<T, K, E>, other: World<T, K, E>) -> bool {
    forall|round: nat, batch: Seq<K>, permuted: Seq<K>|
        batch.to_multiset() == permuted.to_multiset() ==> (#[trigger] one(
            round,
            batch,
        )).to_multiset() == (#[trigger] other(round, permuted)).to_multiset()
}

/// Whether two runs differ at most in the order of what they started and
/// returned: they went through the same number of rounds, started the same
/// keys in each, paused as often and passed on the same notices, and either
/// both failed or both returned the same successes and the same pending keys.
pub open spec fn same_run_but_for_order<T, K, E>(one: RunView<T, K, E>, other: RunView<T, K, E>) -> bool {
    &&& one.batches.len() == other.batches.len()
    &&& forall|i: int|
        0 <= i < one.batches.len() ==> (#[trigger] one.batches[i]).to_multiset()
            == other.batches[i].to_multiset()
    &&& one.pauses == other.pauses
    &&& one.notices == other.notices
    &&& one.result is Ok <==> other.result is Ok
    &&& one.result is Ok ==> {
        &&& one.result->Ok_0.0.to_multiset() == other.result->Ok_0.0.to_multiset()
        &&& one.result->Ok_0.1.to_multiset() == other.result->Ok_0.1.to_multiset()
    }
}

/// From any round on, two runs differ at most in order if the worlds do and
/// the rounds start alike.
proof fn lemma_completion_order_from<T, K, E>(
    queue: QueueView<T, K>,
    batch: Seq<K>,
    world: World<T, K, E>,
    other_queue: QueueView<T, K>,
    other_batch: Seq<K>,
    other_world: World<T, K, E>,
)
    requires
        same_but_for_order(world, other_world),
        batch.to_multiset() == other_batch.to_multiset(),
        queue.successes.to_multiset() == other_queue.successes.to_multiset(),
        queue.pending.to_multiset() == other_queue.pending.to_multiset(),
        queue.attempts == other_queue.attempts,
        queue.max_retry_attempts == other_queue.max_retry_attempts,
    ensures
        same_run_but_for_order(
            run_from(queue, batch, world),
            run_from(other_queue, other_batch, other_world),
        ),
    decreases queue.max_retry_attempts - queue.attempts,
{
    broadcast use vstd::seq_lib::group_to_multiset_ensures;
    broadcast use vstd::seq_lib::lemma_multiset_commutative;

    let done = world(queue.attempts, batch);
    let other_done = other_world(queue.attempts, other_batch);
    let ran = run_from(queue, batch, world);
    let other_ran = run_from(other_queue, other_batch, other_world);
    lemma_completion_order(done, other_done);
    if first_error(done) is None {
        let collected = collect_spec(queue, done)->Ok_0;
        let other_collected = collect_spec(other_queue, other_done)->Ok_0;
        assert(collected.successes.to_multiset() == other_collected.successes.to_multiset());
        assert(collected.pending.to_multiset() == other_collected.pending.to_multiset());
        assert(collected.pending.to_multiset().len() == collected.pending.len());
        assert(other_collected.pending.to_multiset().len() == other_collected.pending.len());
        if retries_again(collected) {
            let next = QueueView {
                successes: collected.successes,
                pending: Seq::empty(),
                attempts: queue.attempts + 1,
                max_retry_attempts: queue.max_retry_attempts,
            };
            let other_next = QueueView {
                successes: other_collected.successes,
                pending: Seq::empty(),
                attempts: queue.attempts + 1,
                max_retry_attempts: queue.max_retry_attempts,
            };
            let rest = run_from(next, collected.pending, world);
            let other_rest = run_from(other_next, other_collected.pending, other_world);
            lemma_completion_order_from(
                next,
                collected.pending,
                world,
                other_next,
                other_collected.pending,
                other_world,
            );
            assert forall|i: int| 0 <= i < ran.batches.len() implies (#[trigger] ran.batches[i]).to_multiset()
                == other_ran.batches[i].to_multiset() by {
                if i > 0 {
                    assert(ran.batches[i] == rest.batches[i - 1]);
                    assert(other_ran.batches[i] == other_rest.batches[i - 1]);
                }
            }
        }
    }
}

/// The order in which the operations of a round complete changes only the
/// order of what a run returns. Where two worlds differ at most in that
/// order, the two runs on the same initial keys go through the same number of
/// rounds, start the same keys in each round, pause as often and pass on the
/// same notices, and either both fail or both return the same successes and
/// the same pending keys, each in some order.
pub proof fn law_completion_order<T, K, E>(
    keys: Seq<K>,
    max_retry_attempts: nat,
    world: World<T, K, E>,
    other_world: World<T, K, E>,
)
    requires
        same_but_for_order(world, other_world),
    ensures
        same_run_but_for_order(
            run(keys, max_retry_attempts, world),
            run(keys, max_retry_attempts, other_world),
        ),
{
    lemma_completion_order_from(
        start_spec(max_retry_attempts),
        keys,
        world,
        start_spec(max_retry_attempts),
        keys,
        other_world,
    );
}

} // verus!
