use vstd::prelude::*;

verus! {

/// The lines that a sequence of outcomes delivers: the payload of every
/// success, in order of arrival. A failure contributes nothing.
pub open spec fn successes<T, E>(outcomes: Seq<Result<T, E>>) -> Seq<T> {
    outcomes.filter_map(|outcome: Result<T, E>| delivered(outcome))
}

/// The line that one outcome delivers, if it delivers one.
pub open spec fn delivered<T, E>(outcome: Result<T, E>) -> Option<T> {
    match outcome {
        Ok(line) => Some(line),
        Err(_) => None,
    }
}

/// One more outcome at the end adds its line at the end, or nothing.
pub proof fn lemma_successes_push<T, E>(outcomes: Seq<Result<T, E>>, outcome: Result<T, E>)
    ensures
        successes(outcomes.push(outcome)) == match outcome {
            Ok(line) => successes(outcomes).push(line),
            Err(_) => successes(outcomes),
        },
{
    assert(outcomes.push(outcome).drop_last() == outcomes);
    match outcome {
        Ok(line) => {
            assert(successes(outcomes) + seq![line] == successes(outcomes).push(line));
        },
        Err(_) => {},
    }
}

/// The lines of a sequence read in two parts are those of the first part
/// followed by those of the second.
pub proof fn lemma_successes_concat<T, E>(head: Seq<Result<T, E>>, tail: Seq<Result<T, E>>)
    ensures
        successes(head + tail) == successes(head) + successes(tail),
    decreases tail.len(),
{
    if tail.len() == 0 {
        assert(head + tail == head);
        assert(successes(head) + successes(tail) == successes(head));
    } else {
        let front = tail.drop_last();
        lemma_successes_concat(head, front);
        assert(head + tail == (head + front).push(tail.last()));
        assert(tail == front.push(tail.last()));
        lemma_successes_push(head + front, tail.last());
        lemma_successes_push(front, tail.last());
        match tail.last() {
            Ok(line) => {
                assert((successes(head) + successes(front)).push(line) == successes(head)
                    + successes(front).push(line));
            },
            Err(_) => {},
        }
    }
}

/// No more lines are delivered than there are outcomes.
pub proof fn lemma_successes_bounded<T, E>(outcomes: Seq<Result<T, E>>)
    ensures
        successes(outcomes).len() <= outcomes.len(),
    decreases outcomes.len(),
{
    if outcomes.len() > 0 {
        let front = outcomes.drop_last();
        lemma_successes_bounded(front);
        assert(outcomes == front.push(outcomes.last()));
        lemma_successes_push(front, outcomes.last());
    }
}

/// A prefix of the outcomes delivers a prefix of the lines.
pub proof fn lemma_successes_prefix<T, E>(outcomes: Seq<Result<T, E>>, count: int)
    requires
        0 <= count <= outcomes.len(),
    ensures
        successes(outcomes.take(count)).is_prefix_of(successes(outcomes)),
        successes(outcomes.take(count)).len() <= successes(outcomes).len(),
{
    assert(outcomes == outcomes.take(count) + outcomes.skip(count));
    lemma_successes_concat(outcomes.take(count), outcomes.skip(count));
}

/// Where every outcome is a success, the lines are the outcomes' payloads,
/// one for one.
pub proof fn lemma_successes_of_unfailing<T, E>(outcomes: Seq<Result<T, E>>)
    requires
        forall|i: int| 0 <= i < outcomes.len() ==> (#[trigger] outcomes[i]) is Ok,
    ensures
        successes(outcomes).len() == outcomes.len(),
        forall|i: int|
            0 <= i < outcomes.len() ==> Ok::<T, E>(#[trigger] successes(outcomes)[i])
                == outcomes[i],
    decreases outcomes.len(),
{
    if outcomes.len() > 0 {
        let front = outcomes.drop_last();
        lemma_successes_of_unfailing(front);
        assert(outcomes == front.push(outcomes.last()));
        lemma_successes_push(front, outcomes.last());
    }
}

} // verus!
