use crate::error::CountError;
use crate::plan::ChunkDescriptor;
use crate::reduce::total;
use vstd::prelude::*;

verus! {

/// How far the reading of one chunk has come.
pub struct FillState {
    /// The number of bytes that the chunk holds.
    pub wanted: nat,
    /// The number of bytes read so far.
    pub filled: nat,
    /// Whether a read has returned no bytes: the input ended early.
    pub ended: bool,
}

impl FillState {
    /// The state before the first read.
    pub open spec fn start(wanted: nat) -> FillState {
        FillState { wanted, filled: 0, ended: false }
    }

    /// Nothing is left to read: the chunk is full, or the input has ended.
    pub open spec fn done(self) -> bool {
        self.ended || self.filled == self.wanted
    }

    /// The number of bytes that the next read may return at most.
    pub open spec fn remaining(self) -> nat {
        if self.done() {
            0
        } else {
            (self.wanted - self.filled) as nat
        }
    }

    /// The state after one more read has returned `bytes_read` bytes. A read
    /// that returns fewer bytes than were asked for is no end: only a read
    /// without bytes is.
    pub open spec fn after_read(self, bytes_read: nat) -> FillState {
        if self.done() {
            self
        } else if bytes_read == 0 {
            FillState { ended: true, ..self }
        } else {
            FillState { filled: self.filled + bytes_read, ..self }
        }
    }

    /// The state after reads of the given sizes, one after the other.
    pub open spec fn after_reads(self, sizes: Seq<nat>) -> FillState
        decreases sizes.len(),
    {
        if sizes.len() == 0 {
            self
        } else {
            self.after_reads(sizes.drop_last()).after_read(sizes.last())
        }
    }
}

/// What the reader of a chunk does next.
#[derive(Clone, Copy, Debug, PartialEq, Eq, Structural)]
pub enum FillStep {
    /// Read into the part `from .. to` of the chunk's buffer and report how
    /// many bytes came.
    Read { from: usize, to: usize },
    /// Stop: the first `filled` bytes of the buffer hold what the chunk gave.
    Done { filled: usize },
}

/// Steers the reading of one chunk into a buffer. One read may return fewer
/// bytes than the chunk holds, so the reader asks again for the rest until
/// the chunk is full or the input ends.
pub struct ChunkFill {
    wanted: usize,
    filled: usize,
    ended: bool,
}

impl View for ChunkFill {
    type V = FillState;

    closed spec fn view(&self) -> FillState {
        FillState { wanted: self.wanted as nat, filled: self.filled as nat, ended: self.ended }
    }
}

impl ChunkFill {
    #[verifier::type_invariant]
    spec fn bounded(self) -> bool {
        self.filled <= self.wanted
    }

    /// The reading of a chunk of `wanted` bytes, before the first read.
    pub fn new(wanted: usize) -> (fill: ChunkFill)
        ensures
            fill@ == FillState::start(wanted as nat),
    {
        ChunkFill { wanted, filled: 0, ended: false }
    }

    /// The reading of `chunk`, before the first read. A chunk that is longer
    /// than a buffer can be on this machine is refused.
    pub fn for_chunk(chunk: &ChunkDescriptor) -> (result: Result<ChunkFill, CountError>)
        ensures
            chunk.length > usize::MAX <==> result is Err,
            result matches Err(error) ==> error == CountError::InvalidConfig,
            result matches Ok(fill) ==> fill@ == FillState::start(chunk.length as nat),
    {
        if chunk.length > usize::MAX as u64 {
            Err(CountError::InvalidConfig)
        } else {
            Ok(ChunkFill::new(chunk.length as usize))
        }
    }

    /// The next step: a read into the part of the buffer that is still
    /// empty, or the end of the reading.
    pub fn next_step(&self) -> (step: FillStep)
        ensures
            step == if self@.done() {
                FillStep::Done { filled: self@.filled as usize }
            } else {
                FillStep::Read { from: self@.filled as usize, to: self@.wanted as usize }
            },
            self@.filled <= self@.wanted <= usize::MAX,
    {
        proof {
            use_type_invariant(self);
        }
        if self.ended || self.filled == self.wanted {
            FillStep::Done { filled: self.filled }
        } else {
            FillStep::Read { from: self.filled, to: self.wanted }
        }
    }

    /// Takes in the number of bytes that the last read returned, which is no
    /// more than that read was asked for.
    pub fn record(&mut self, bytes_read: usize)
        requires
            bytes_read <= old(self)@.remaining(),
        ensures
            final(self)@ == old(self)@.after_read(bytes_read as nat),
    {
        proof {
            use_type_invariant(&*self);
        }
        let done = self.ended || self.filled == self.wanted;
        if !done {
            if bytes_read == 0 {
                self.ended = true;
            } else {
                self.filled = self.filled + bytes_read;
            }
        }
    }
}

/// Reads of any sizes fill a chunk with as many bytes as they returned
/// together, as long as that is no more than the chunk holds; the reading is
/// done exactly when the chunk is full.
pub proof fn lemma_short_reads_fill(wanted: nat, sizes: Seq<nat>)
    requires
        forall|i: int| 0 <= i < sizes.len() ==> (#[trigger] sizes[i]) > 0,
        total(sizes) <= wanted,
    ensures
        FillState::start(wanted).after_reads(sizes) == (FillState {
            filled: total(sizes),
            ..FillState::start(wanted)
        }),
        FillState::start(wanted).after_reads(sizes).done() <==> total(sizes)
            == wanted,
    decreases sizes.len(),
{
    if sizes.len() > 0 {
        lemma_short_reads_fill(wanted, sizes.drop_last());
    }
}

} // verus!
