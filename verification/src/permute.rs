use crate::lines::{lemma_successes_push, successes};
use crate::random::rearrange;
use vstd::prelude::*;
use vstd::relations::total_ordering;
use vstd::std_specs::iter::IteratorSpec;

verus! {

/// `shuffled` holds the lines of `lines`, each as often as `lines` has it,
/// in some order.
pub open spec fn is_shuffle_of<T>(shuffled: Seq<T>, lines: Seq<T>) -> bool {
    shuffled.to_multiset() == lines.to_multiset()
}

/// A shuffle has as many lines as what was shuffled.
pub proof fn lemma_shuffle_len<T>(shuffled: Seq<T>, lines: Seq<T>)
    requires
        is_shuffle_of(shuffled, lines),
    ensures
        shuffled.len() == lines.len(),
{
    vstd::seq_lib::to_multiset_len(shuffled);
    vstd::seq_lib::to_multiset_len(lines);
}

/// Shuffling changes the order of the lines and nothing else: put in order
/// again, by any total order, a shuffle and its input are the same sequence.
pub proof fn lemma_shuffle_sorts_alike<T>(
    shuffled: Seq<T>,
    lines: Seq<T>,
    leq: spec_fn(T, T) -> bool,
)
    requires
        is_shuffle_of(shuffled, lines),
        total_ordering(leq),
    ensures
        shuffled.sort_by(leq) == lines.sort_by(leq),
{
    shuffled.lemma_sort_by_ensures(leq);
    lines.lemma_sort_by_ensures(leq);
    vstd::seq_lib::lemma_sorted_unique(shuffled.sort_by(leq), lines.sort_by(leq), leq);
}

/// Reads `input` to its end and returns its lines in a random order.
/// Outcomes that failed are passed over: the result holds exactly the lines
/// that were delivered.
///
/// The source must come to an end. The result is always `Ok`. Which order
/// comes out is up to the generator; that each order is equally likely is not
/// part of what is proved here.
pub fn read_from_iter<T, E, I>(input: I) -> (shuffled: Result<Vec<T>, E>) where
    I: Iterator<Item = Result<T, E>>,

    requires
        input.obeys_prophetic_iter_laws(),
        input.decrease() is Some,
    ensures
        shuffled is Ok,
        is_shuffle_of(shuffled->Ok_0@, successes(input.remaining())),
        shuffled->Ok_0@.len() == successes(input.remaining()).len(),
{
    let mut input = input;
    let mut rng = rand::thread_rng();
    let mut items: Vec<T> = Vec::new();
    let ghost outcomes = input.remaining();
    let ghost mut read: int = 0;
    loop
        invariant
            input.obeys_prophetic_iter_laws(),
            input.decrease() is Some,
            0 <= read <= outcomes.len(),
            input.remaining() == outcomes.skip(read),
            items@ == successes(outcomes.take(read)),
        ensures
            items@ == successes(outcomes),
        decreases input.decrease()->0,
    {
        match input.next() {
            Some(outcome) => {
                proof {
                    assert(outcomes.skip(read).drop_first() == outcomes.skip(read + 1));
                    assert(outcomes.take(read + 1) == outcomes.take(read).push(outcome));
                    lemma_successes_push(outcomes.take(read), outcome);
                    read = read + 1;
                }
                match outcome {
                    Ok(valid) => {
                        items.push(valid);
                    },
                    Err(_) => {},
                }
            },
            None => {
                proof {
                    assert(outcomes.take(read) == outcomes);
                }
                break ;
            },
        }
    }
    rearrange(&mut items, &mut rng);
    proof {
        lemma_shuffle_len(items@, successes(outcomes));
    }
    Ok(items)
}

} // verus!
