use crate::lines::{lemma_successes_prefix, lemma_successes_push, successes};
use crate::random::draw_below;
use vstd::prelude::*;
use vstd::std_specs::iter::IteratorSpec;

verus! {

/// What the reservoir holds after one more line was offered to it.
///
/// `seen` lines came before this one. While fewer lines than `capacity` have
/// arrived, the line takes the next free slot. After that `draw` decides: a
/// draw below `capacity` names the slot whose line is replaced, any other draw
/// lets the line pass.
pub open spec fn after_offer<T>(
    slots: Seq<T>,
    capacity: nat,
    seen: nat,
    line: T,
    draw: int,
) -> Seq<T> {
    if seen < capacity {
        slots.push(line)
    } else if 0 <= draw < capacity {
        slots.update(draw, line)
    } else {
        slots
    }
}

/// What a reservoir of `capacity` slots holds after `lines` went through it
/// one by one, `draws[i]` being the number drawn for `lines[i]`.
pub open spec fn reservoir_after<T>(lines: Seq<T>, capacity: nat, draws: Seq<int>) -> Seq<T>
    decreases lines.len(),
{
    if lines.len() == 0 {
        Seq::empty()
    } else {
        after_offer(
            reservoir_after(lines.drop_last(), capacity, draws.drop_last()),
            capacity,
            (lines.len() - 1) as nat,
            lines.last(),
            draws.last(),
        )
    }
}

/// How many lines a sample holds: as many as were asked for, or every line
/// where fewer are available.
pub open spec fn sample_len(available: nat, asked: nat) -> nat {
    if available <= asked {
        available
    } else {
        asked
    }
}

/// One draw for each of `count` lines, the draw for line `i` lying in `[0, i]`.
pub open spec fn fair_draws(draws: Seq<int>, count: nat) -> bool {
    &&& draws.len() == count
    &&& forall|i: int| 0 <= i < count ==> 0 <= #[trigger] draws[i] <= i
}

/// `sample` is what a reservoir of `capacity` slots can hold after `lines`:
/// some course of draws leads to it.
pub open spec fn is_sample_of<T>(sample: Seq<T>, lines: Seq<T>, capacity: nat) -> bool {
    exists|draws: Seq<int>| #[trigger]
        fair_draws(draws, lines.len()) && sample == reservoir_after(lines, capacity, draws)
}

/// Offering one more line extends the course of the reservoir by one step.
pub proof fn lemma_reservoir_push<T>(
    lines: Seq<T>,
    capacity: nat,
    draws: Seq<int>,
    line: T,
    draw: int,
)
    ensures
        reservoir_after(lines.push(line), capacity, draws.push(draw)) == after_offer(
            reservoir_after(lines, capacity, draws),
            capacity,
            lines.len(),
            line,
            draw,
        ),
{
    assert(lines.push(line).drop_last() == lines);
    assert(draws.push(draw).drop_last() == draws);
}

/// The reservoir holds every line until it is full, and never more than
/// `capacity` lines, whatever was drawn.
pub proof fn lemma_reservoir_len<T>(lines: Seq<T>, capacity: nat, draws: Seq<int>)
    ensures
        reservoir_after(lines, capacity, draws).len() == sample_len(lines.len(), capacity),
    decreases lines.len(),
{
    if lines.len() > 0 {
        lemma_reservoir_len(lines.drop_last(), capacity, draws.drop_last());
    }
}

/// A reservoir with room for every line holds the lines as they came.
pub proof fn lemma_reservoir_keeps_short_input<T>(lines: Seq<T>, capacity: nat, draws: Seq<int>)
    requires
        lines.len() <= capacity,
    ensures
        reservoir_after(lines, capacity, draws) == lines,
    decreases lines.len(),
{
    if lines.len() > 0 {
        lemma_reservoir_keeps_short_input(lines.drop_last(), capacity, draws.drop_last());
        assert(lines.drop_last().push(lines.last()) == lines);
    }
}

/// Whatever was drawn, the reservoir holds lines of the input only, and none
/// more often than the input has it.
pub proof fn lemma_reservoir_within_input<T>(lines: Seq<T>, capacity: nat, draws: Seq<int>)
    ensures
        reservoir_after(lines, capacity, draws).to_multiset().subset_of(lines.to_multiset()),
    decreases lines.len(),
{
    broadcast use vstd::seq_lib::group_to_multiset_ensures;
    broadcast use vstd::multiset::group_multiset_axioms;

    if lines.len() > 0 {
        let front = lines.drop_last();
        let before = reservoir_after(front, capacity, draws.drop_last());
        let after = reservoir_after(lines, capacity, draws);
        lemma_reservoir_within_input(front, capacity, draws.drop_last());
        lemma_reservoir_len(front, capacity, draws.drop_last());
        assert(front.push(lines.last()) == lines);
        assert(lines.to_multiset() == front.to_multiset().insert(lines.last()));
        if front.len() >= capacity && 0 <= draws.last() < capacity {
            vstd::seq_lib::to_multiset_update(before, draws.last(), lines.last());
        }
        assert forall|line: T| after.to_multiset().count(line) <= lines.to_multiset().count(
            line,
        ) by {
            assert(before.to_multiset().count(line) <= front.to_multiset().count(line));
        }
    }
}

/// A sample has as many lines as were asked for, or all the lines where
/// the input has fewer.
pub proof fn lemma_sample_len<T>(sample: Seq<T>, lines: Seq<T>, capacity: nat)
    requires
        is_sample_of(sample, lines, capacity),
    ensures
        sample.len() == sample_len(lines.len(), capacity),
{
    let draws = choose|draws: Seq<int>| #[trigger]
        fair_draws(draws, lines.len()) && sample == reservoir_after(lines, capacity, draws);
    lemma_reservoir_len(lines, capacity, draws);
}

/// A sample of no lines is empty, whatever the input.
pub proof fn lemma_sample_of_size_zero<T>(sample: Seq<T>, lines: Seq<T>)
    requires
        is_sample_of(sample, lines, 0),
    ensures
        sample == Seq::<T>::empty(),
{
    lemma_sample_len(sample, lines, 0);
}

/// Asked for at least as many lines as the input has, a sample is the whole
/// input: the same lines, each as often.
pub proof fn lemma_sample_keeps_short_input<T>(sample: Seq<T>, lines: Seq<T>, capacity: nat)
    requires
        is_sample_of(sample, lines, capacity),
        capacity >= lines.len(),
    ensures
        sample == lines,
        sample.to_multiset() == lines.to_multiset(),
{
    let draws = choose|draws: Seq<int>| #[trigger]
        fair_draws(draws, lines.len()) && sample == reservoir_after(lines, capacity, draws);
    lemma_reservoir_keeps_short_input(lines, capacity, draws);
}

/// A sample is drawn from the input without replacement: it holds lines of
/// the input only, and none more often than the input has it.
pub proof fn lemma_sample_within_input<T>(sample: Seq<T>, lines: Seq<T>, capacity: nat)
    requires
        is_sample_of(sample, lines, capacity),
    ensures
        sample.to_multiset().subset_of(lines.to_multiset()),
{
    let draws = choose|draws: Seq<int>| #[trigger]
        fair_draws(draws, lines.len()) && sample == reservoir_after(lines, capacity, draws);
    lemma_reservoir_within_input(lines, capacity, draws);
}

/// A bounded buffer of lines together with the count of lines offered to it.
pub struct Reservoir<T> {
    slots: Vec<T>,
    capacity: usize,
    seen: usize,
}

impl<T> View for Reservoir<T> {
    type V = Seq<T>;

    /// The lines held, by slot.
    closed spec fn view(&self) -> Seq<T> {
        self.slots@
    }
}

impl<T> Reservoir<T> {
    /// Every line is kept until the reservoir is full; from then on it stays
    /// exactly full.
    #[verifier::type_invariant]
    spec fn filled_in_step(self) -> bool {
        self.slots@.len() == sample_len(self.seen as nat, self.capacity as nat)
    }

    /// The number of slots.
    pub closed spec fn capacity(self) -> nat {
        self.capacity as nat
    }

    /// The number of lines offered so far.
    pub closed spec fn seen(self) -> nat {
        self.seen as nat
    }

    /// An empty reservoir of `capacity` slots.
    pub fn new(capacity: usize) -> (fresh: Self)
        ensures
            fresh@ == Seq::<T>::empty(),
            fresh.capacity() == capacity,
            fresh.seen() == 0,
    {
        Reservoir { slots: Vec::new(), capacity, seen: 0 }
    }

    /// How many lines were offered so far: the index of the next line.
    pub fn offered(&self) -> (count: usize)
        ensures
            count == self.seen(),
            self@.len() == sample_len(self.seen(), self.capacity()),
    {
        proof {
            use_type_invariant(self);
        }
        self.seen
    }

    /// Whether every slot is taken, so that the next line needs a draw.
    pub fn is_full(&self) -> (full: bool)
        ensures
            full == (self.seen() >= self.capacity()),
    {
        self.seen >= self.capacity
    }

    /// Offers one more line, with the number drawn for it.
    pub fn offer(self, line: T, draw: usize) -> (next: Self)
        requires
            self.seen() < usize::MAX,
        ensures
            next@ == after_offer(self@, self.capacity(), self.seen(), line, draw as int),
            next.capacity() == self.capacity(),
            next.seen() == self.seen() + 1,
            next@.len() == sample_len(next.seen(), next.capacity()),
    {
        proof {
            use_type_invariant(&self);
        }
        let Reservoir { slots, capacity, seen } = self;
        let mut slots = slots;
        if seen < capacity {
            slots.push(line);
        } else if draw < capacity {
            slots[draw] = line;
        }
        Reservoir { slots, capacity, seen: seen + 1 }
    }

    /// Gives up the lines held, by slot.
    pub fn into_lines(self) -> (lines: Vec<T>)
        ensures
            lines@ == self@,
            lines@.len() == sample_len(self.seen(), self.capacity()),
    {
        proof {
            use_type_invariant(&self);
        }
        self.slots
    }
}

/// Draws a sample of at most `items` lines from `input` in one pass, holding
/// no more than `items` lines at any time. Outcomes that failed are passed
/// over; the lines that were delivered are sampled as if the failures had
/// not been there.
///
/// The source must come to an end, and deliver no more lines than a `usize`
/// can count. The result is always `Ok`. Which lines are chosen depends on
/// the draws; that each choice is equally likely is a matter of the generator
/// and is not part of what is proved here.
pub fn sample_from_iter<T, E, I>(input: I, items: usize) -> (sample: Result<Vec<T>, E>) where
    I: Iterator<Item = Result<T, E>>,

    requires
        input.obeys_prophetic_iter_laws(),
        input.decrease() is Some,
        successes(input.remaining()).len() <= usize::MAX,
    ensures
        sample is Ok,
        is_sample_of(sample->Ok_0@, successes(input.remaining()), items as nat),
        sample->Ok_0@.len() == sample_len(successes(input.remaining()).len(), items as nat),
        sample->Ok_0@.to_multiset().subset_of(successes(input.remaining()).to_multiset()),
        items == 0 ==> sample->Ok_0@ == Seq::<T>::empty(),
        items >= successes(input.remaining()).len() ==> sample->Ok_0@ == successes(
            input.remaining(),
        ),
{
    let mut input = input;
    let mut rng = rand::thread_rng();
    let mut reservoir: Reservoir<T> = Reservoir::new(items);
    let ghost outcomes = input.remaining();
    let ghost mut read: int = 0;
    let ghost mut draws: Seq<int> = Seq::empty();
    loop
        invariant
            input.obeys_prophetic_iter_laws(),
            input.decrease() is Some,
            0 <= read <= outcomes.len(),
            input.remaining() == outcomes.skip(read),
            successes(outcomes).len() <= usize::MAX,
            reservoir.capacity() == items,
            reservoir.seen() == successes(outcomes.take(read)).len(),
            fair_draws(draws, reservoir.seen()),
            reservoir@ == reservoir_after(successes(outcomes.take(read)), items as nat, draws),
        ensures
            fair_draws(draws, successes(outcomes).len()),
            reservoir@ == reservoir_after(successes(outcomes), items as nat, draws),
        decreases input.decrease()->0,
    {
        match input.next() {
            Some(outcome) => {
                proof {
                    assert(outcomes.skip(read).drop_first() == outcomes.skip(read + 1));
                    assert(outcomes.take(read + 1) == outcomes.take(read).push(outcome));
                    lemma_successes_push(outcomes.take(read), outcome);
                    lemma_successes_prefix(outcomes, read + 1);
                }
                match outcome {
                    Ok(line) => {
                        let index: usize = reservoir.offered();
                        let draw: usize = if reservoir.is_full() {
                            draw_below(&mut rng, index + 1)
                        } else {
                            index
                        };
                        proof {
                            lemma_reservoir_push(
                                successes(outcomes.take(read)),
                                items as nat,
                                draws,
                                line,
                                draw as int,
                            );
                            draws = draws.push(draw as int);
                        }
                        reservoir = reservoir.offer(line, draw);
                    },
                    Err(_) => {},
                }
                proof {
                    read = read + 1;
                }
            },
            None => {
                proof {
                    assert(outcomes.take(read) == outcomes);
                }
                break ;
            },
        }
    }
    proof {
        let lines = successes(outcomes);
        lemma_sample_len(reservoir@, lines, items as nat);
        lemma_sample_within_input(reservoir@, lines, items as nat);
        assert(items >= lines.len() ==> reservoir@ == lines) by {
            if items >= lines.len() {
                lemma_sample_keeps_short_input(reservoir@, lines, items as nat);
            }
        }
    }
    Ok(reservoir.into_lines())
}

} // verus!
