//! The result of one attempt, and what a sequence of completed attempts adds
//! up to.

use vstd::prelude::*;

verus! {

/// How one attempt of an operation ended, when it did not fail fatally.
pub enum RetryQueueOutcome<T, K> {
    /// The operation completed and produced a value.
    Success(T),
    /// The operation did not complete; it is to be attempted again with this
    /// key, which need not be the key it was started with.
    Retry(K),
}

/// A completed attempt: an outcome, or a fatal error.
pub type Attempt<T, K, E> = Result<RetryQueueOutcome<T, K>, E>;

/// The values of the successful attempts among `done`, in the order in which
/// they completed.
pub open spec fn successes_of<T, K, E>(done: Seq<Attempt<T, K, E>>) -> Seq<T>
    decreases done.len(),
{
    if done.len() == 0 {
        Seq::empty()
    } else {
        let before = successes_of(done.drop_last());
        match done.last() {
            Ok(RetryQueueOutcome::Success(value)) => before.push(value),
            _ => before,
        }
    }
}

/// The keys of the attempts among `done` that ask for a retry, in the order in
/// which they completed.
pub open spec fn retries_of<T, K, E>(done: Seq<Attempt<T, K, E>>) -> Seq<K>
    decreases done.len(),
{
    if done.len() == 0 {
        Seq::empty()
    } else {
        let before = retries_of(done.drop_last());
        match done.last() {
            Ok(RetryQueueOutcome::Retry(key)) => before.push(key),
            _ => before,
        }
    }
}

/// The fatal error that completed first among `done`, if there is one.
pub open spec fn first_error<T, K, E>(done: Seq<Attempt<T, K, E>>) -> Option<E>
    decreases done.len(),
{
    if done.len() == 0 {
        None
    } else {
        match first_error(done.drop_last()) {
            Some(error) => Some(error),
            None => match done.last() {
                Err(error) => Some(error),
                Ok(_) => None,
            },
        }
    }
}

/// Whether every attempt among `done` ended without a fatal error.
pub open spec fn error_free<T, K, E>(done: Seq<Attempt<T, K, E>>) -> bool {
    forall|i: int| 0 <= i < done.len() ==> (#[trigger] done[i]) is Ok
}

/// The attempts that answer `keys` with a success each, the value of a key
/// being `value_of` of it.
pub open spec fn all_succeed<T, K, E>(keys: Seq<K>, value_of: spec_fn(K) -> T) -> Seq<
    Attempt<T, K, E>,
> {
    keys.map_values(|key: K| Ok(RetryQueueOutcome::Success(value_of(key))))
}

/// The attempts that answer `keys` with a retry each, under the same key.
pub open spec fn all_retry<T, K, E>(keys: Seq<K>) -> Seq<Attempt<T, K, E>> {
    keys.map_values(|key: K| Ok(RetryQueueOutcome::Retry(key)))
}

/// A value occurs among the successes as often as a success with that value
/// occurs among the attempts.
pub proof fn lemma_successes_count<T, K, E>(done: Seq<Attempt<T, K, E>>, value: T)
    ensures
        successes_of(done).to_multiset().count(value) == done.to_multiset().count(
            Ok(RetryQueueOutcome::Success(value)),
        ),
    decreases done.len(),
{
    broadcast use vstd::seq_lib::group_to_multiset_ensures;
    broadcast use vstd::multiset::group_multiset_axioms;

    if done.len() == 0 {
        assert(successes_of(done).to_multiset().len() == 0);
        assert(done.to_multiset().len() == 0);
    } else {
        let before = done.drop_last();
        lemma_successes_count(before, value);
        assert(done =~= before.push(done.last()));
        assert(done.to_multiset() == before.to_multiset().insert(done.last()));
    }
}

/// A key occurs among the retries as often as a retry with that key occurs
/// among the attempts.
pub proof fn lemma_retries_count<T, K, E>(done: Seq<Attempt<T, K, E>>, key: K)
    ensures
        retries_of(done).to_multiset().count(key) == done.to_multiset().count(
            Ok(RetryQueueOutcome::Retry(key)),
        ),
    decreases done.len(),
{
    broadcast use vstd::seq_lib::group_to_multiset_ensures;
    broadcast use vstd::multiset::group_multiset_axioms;

    if done.len() == 0 {
        assert(retries_of(done).to_multiset().len() == 0);
        assert(done.to_multiset().len() == 0);
    } else {
        let before = done.drop_last();
        lemma_retries_count(before, key);
        assert(done =~= before.push(done.last()));
        assert(done.to_multiset() == before.to_multiset().insert(done.last()));
    }
}

/// There is a first fatal error exactly when some attempt failed fatally, and
/// it is one of the errors among the attempts.
pub proof fn lemma_first_error<T, K, E>(done: Seq<Attempt<T, K, E>>)
    ensures
        first_error(done) is None <==> error_free(done),
        first_error(done) matches Some(error) ==> done.contains(Err(error)),
    decreases done.len(),
{
    if done.len() > 0 {
        let before = done.drop_last();
        lemma_first_error(before);
        if first_error(before) is Some {
            let error = first_error(before)->0;
            let i = choose|i: int| 0 <= i < before.len() && before[i] == Err::<RetryQueueOutcome<T, K>, E>(error);
            assert(done[i] == before[i]);
            assert(!(done[i] is Ok));
        } else if done.last() is Err {
            assert(done[done.len() - 1] == done.last());
        } else {
            assert forall|i: int| 0 <= i < done.len() implies (#[trigger] done[i]) is Ok by {
                if i < before.len() {
                    assert(before[i] == done[i]);
                }
            }
        }
    }
}

/// The order in which attempts complete does not change which values
/// succeeded, which keys are to be retried, or whether an attempt failed
/// fatally; it changes only the order of the first two.
pub proof fn lemma_completion_order<T, K, E>(one: Seq<Attempt<T, K, E>>, other: Seq<Attempt<T, K, E>>)
    requires
        one.to_multiset() == other.to_multiset(),
    ensures
        successes_of(one).to_multiset() == successes_of(other).to_multiset(),
        retries_of(one).to_multiset() == retries_of(other).to_multiset(),
        first_error(one) is Some <==> first_error(other) is Some,
{
    broadcast use vstd::seq_lib::group_to_multiset_ensures;

    assert forall|value: T|
        successes_of(one).to_multiset().count(value) == successes_of(other).to_multiset().count(
            value,
        ) by {
        lemma_successes_count(one, value);
        lemma_successes_count(other, value);
    }
    assert(successes_of(one).to_multiset() =~= successes_of(other).to_multiset());
    assert forall|key: K|
        retries_of(one).to_multiset().count(key) == retries_of(other).to_multiset().count(
            key,
        ) by {
        lemma_retries_count(one, key);
        lemma_retries_count(other, key);
    }
    assert(retries_of(one).to_multiset() =~= retries_of(other).to_multiset());
    lemma_first_error(one);
    lemma_first_error(other);
    if first_error(one) is Some {
        let error = first_error(one)->0;
        assert(one.to_multiset().count(Err(error)) > 0);
        assert(other.contains(Err(error)));
    }
    if first_error(other) is Some {
        let error = first_error(other)->0;
        assert(other.to_multiset().count(Err(error)) > 0);
        assert(one.contains(Err(error)));
    }
}

/// Where every key is answered with a success, the successes are the values
/// of the keys in order, nothing is to be retried and nothing failed.
pub proof fn lemma_all_succeed<T, K, E>(keys: Seq<K>, value_of: spec_fn(K) -> T)
    ensures
        successes_of(all_succeed::<T, K, E>(keys, value_of)) == keys.map_values(value_of),
        retries_of(all_succeed::<T, K, E>(keys, value_of)) == Seq::<K>::empty(),
        first_error(all_succeed::<T, K, E>(keys, value_of)) is None,
    decreases keys.len(),
{
    let done = all_succeed::<T, K, E>(keys, value_of);
    if keys.len() > 0 {
        lemma_all_succeed::<T, K, E>(keys.drop_last(), value_of);
        assert(done.drop_last() =~= all_succeed::<T, K, E>(keys.drop_last(), value_of));
        assert(keys.map_values(value_of) =~= keys.drop_last().map_values(value_of).push(
            value_of(keys.last()),
        ));
    } else {
        assert(keys.map_values(value_of) =~= Seq::<T>::empty());
    }
}

/// Where every key is answered with a retry under the same key, the retries
/// are the keys in order, nothing succeeded and nothing failed.
pub proof fn lemma_all_retry<T, K, E>(keys: Seq<K>)
    ensures
        successes_of(all_retry::<T, K, E>(keys)) == Seq::<T>::empty(),
        retries_of(all_retry::<T, K, E>(keys)) == keys,
        first_error(all_retry::<T, K, E>(keys)) is None,
    decreases keys.len(),
{
    let done = all_retry::<T, K, E>(keys);
    if keys.len() > 0 {
        lemma_all_retry::<T, K, E>(keys.drop_last());
        assert(done.drop_last() =~= all_retry::<T, K, E>(keys.drop_last()));
        assert(keys =~= keys.drop_last().push(keys.last()));
    } else {
        assert(keys =~= Seq::<K>::empty());
    }
}

} // verus!
