use crate::scan::{count_bytes, lemma_occurrences_concat, occurrences};
use vstd::prelude::*;

verus! {

/// What a stream counter has seen so far.
pub struct StreamState {
    /// The byte that is counted.
    pub delimiter: u8,
    /// The bytes of all reads so far, in the order in which they came.
    pub consumed: Seq<u8>,
    /// Whether the end of the input has been seen.
    pub finished: bool,
}

impl StreamState {
    /// The state before the first read.
    pub open spec fn start(delimiter: u8) -> StreamState {
        StreamState { delimiter, consumed: Seq::empty(), finished: false }
    }

    /// The state after one more read has returned `bytes`. A read that
    /// returns no bytes is the end of the input, and whatever comes after the
    /// end is left aside.
    pub open spec fn after_read(self, bytes: Seq<u8>) -> StreamState {
        if self.finished {
            self
        } else if bytes.len() == 0 {
            StreamState { finished: true, ..self }
        } else {
            StreamState { consumed: self.consumed + bytes, ..self }
        }
    }

    /// The state after the given reads, one after the other.
    pub open spec fn after_reads(self, reads: Seq<Seq<u8>>) -> StreamState
        decreases reads.len(),
    {
        if reads.len() == 0 {
            self
        } else {
            self.after_reads(reads.drop_last()).after_read(reads.last())
        }
    }

    /// The count that belongs to the state.
    pub open spec fn count(self) -> nat {
        occurrences(self.consumed, self.delimiter)
    }
}

/// What the caller of a stream counter does next.
#[derive(Clone, Copy, Debug, PartialEq, Eq, Structural)]
pub enum StreamStep {
    /// Read again and hand the bytes over.
    ReadMore,
    /// The input has ended: the count is final.
    Finished,
}

/// Counts a delimiter over an input that is read front to back, one buffer
/// at a time. The owner of the input reads; the counter is told what each
/// read returned and says whether to read on.
pub struct StreamCounter {
    delimiter: u8,
    count: u64,
    finished: bool,
    consumed: Ghost<Seq<u8>>,
}

impl View for StreamCounter {
    type V = StreamState;

    closed spec fn view(&self) -> StreamState {
        StreamState {
            delimiter: self.delimiter,
            consumed: self.consumed@,
            finished: self.finished,
        }
    }
}

impl StreamCounter {
    #[verifier::type_invariant]
    spec fn counted(self) -> bool {
        self.count == occurrences(self.consumed@, self.delimiter)
    }

    /// A counter of `delimiter` that has seen nothing yet.
    pub fn new(delimiter: u8) -> (counter: StreamCounter)
        ensures
            counter@ == StreamState::start(delimiter),
    {
        StreamCounter { delimiter, count: 0, finished: false, consumed: Ghost(Seq::empty()) }
    }

    /// Takes in what one read returned. Bytes are counted and added to the
    /// running count; a read without bytes ends the input. The count must
    /// stay within `u64`.
    pub fn feed(&mut self, bytes: &[u8]) -> (step: StreamStep)
        requires
            old(self)@.after_read(bytes@).count() <= u64::MAX,
        ensures
            final(self)@ == old(self)@.after_read(bytes@),
            step == if final(self)@.finished {
                StreamStep::Finished
            } else {
                StreamStep::ReadMore
            },
    {
        proof {
            use_type_invariant(&*self);
        }
        if self.finished {
            StreamStep::Finished
        } else if bytes.len() == 0 {
            self.finished = true;
            StreamStep::Finished
        } else {
            proof {
                lemma_occurrences_concat(self.consumed@, bytes@, self.delimiter);
            }
            let count: u64 = self.count + count_bytes(bytes, self.delimiter);
            *self = StreamCounter {
                delimiter: self.delimiter,
                count,
                finished: false,
                consumed: Ghost(self.consumed@ + bytes@),
            };
            StreamStep::ReadMore
        }
    }

    /// The running count: how often the delimiter occurs in all the bytes
    /// taken in so far.
    pub fn total(&self) -> (count: u64)
        ensures
            count == self@.count(),
    {
        proof {
            use_type_invariant(self);
        }
        self.count
    }

    /// Whether the end of the input has been seen.
    pub fn is_finished(&self) -> (finished: bool)
        ensures
            finished == self@.finished,
    {
        self.finished
    }
}

/// However an input is cut into reads, a counter that is fed the reads in
/// order has taken in the input itself: short reads change nothing.
pub proof fn lemma_reads_deliver_input(delimiter: u8, reads: Seq<Seq<u8>>)
    requires
        forall|i: int| 0 <= i < reads.len() ==> (#[trigger] reads[i]).len() > 0,
    ensures
        StreamState::start(delimiter).after_reads(reads) == (StreamState {
            consumed: reads.flatten(),
            ..StreamState::start(delimiter)
        }),
        StreamState::start(delimiter).after_reads(reads).count() == occurrences(
            reads.flatten(),
            delimiter,
        ),
    decreases reads.len(),
{
    if reads.len() == 0 {
        assert(reads.flatten() =~= Seq::<u8>::empty());
    } else {
        let front = reads.drop_last();
        lemma_reads_deliver_input(delimiter, front);
        reads.lemma_flatten_and_flatten_alt_are_equivalent();
        front.lemma_flatten_and_flatten_alt_are_equivalent();
        assert(reads.flatten_alt() == front.flatten_alt() + reads.last());
    }
}

} // verus!
