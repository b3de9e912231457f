use crate::lines::successes;
use crate::permute::{is_shuffle_of, read_from_iter};
use crate::reservoir::{is_sample_of, sample_from_iter, sample_len};
use vstd::prelude::*;
use vstd::std_specs::iter::IteratorSpec;

verus! {

/// Either shuffles every line of an input or draws a sample of a requested
/// size from it.
pub struct Shuffler {
    num: Option<usize>,
}

impl Shuffler {
    /// The size of the sample that was asked for, if one was.
    pub closed spec fn requested(&self) -> Option<usize> {
        self.num
    }

    /// A shuffler that shuffles every line.
    pub fn new() -> (shuffler: Shuffler)
        ensures
            shuffler.requested() is None,
    {
        Shuffler { num: None }
    }

    /// Asks for a sample of `arg` lines.
    pub fn with_num(&mut self, arg: usize) -> (same: &mut Shuffler)
        ensures
            same.requested() == Some(arg),
            *final(self) == *final(same),
    {
        self.num = Some(arg);
        self
    }

    /// Shuffles the lines of `data`, or samples them where a size was asked
    /// for. The shuffler itself stays as it was.
    ///
    /// The source must come to an end, and for a sample deliver no more lines
    /// than a `usize` can count.
    pub fn shuffle<E, I>(&mut self, data: I) -> (lines: Result<Vec<String>, E>) where
        I: Iterator<Item = Result<String, E>>,

        requires
            data.obeys_prophetic_iter_laws(),
            data.decrease() is Some,
            old(self).requested() is Some ==> successes(data.remaining()).len() <= usize::MAX,
        ensures
            *final(self) == *old(self),
            lines is Ok,
            match old(self).requested() {
                Some(n) => {
                    &&& is_sample_of(lines->Ok_0@, successes(data.remaining()), n as nat)
                    &&& lines->Ok_0@.len() == sample_len(
                        successes(data.remaining()).len(),
                        n as nat,
                    )
                    &&& lines->Ok_0@.to_multiset().subset_of(
                        successes(data.remaining()).to_multiset(),
                    )
                    &&& n >= successes(data.remaining()).len() ==> lines->Ok_0@ == successes(
                        data.remaining(),
                    )
                },
                None => {
                    &&& is_shuffle_of(lines->Ok_0@, successes(data.remaining()))
                    &&& lines->Ok_0@.len() == successes(data.remaining()).len()
                },
            },
    {
        match self.num {
            Some(n) => sample_from_iter(data, n),
            None => read_from_iter(data),
        }
    }
}

} // verus!
