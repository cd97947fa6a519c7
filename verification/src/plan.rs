use crate::error::CountError;
use vstd::arithmetic::div_mod::lemma_fundamental_div_mod_converse;
use vstd::prelude::*;

verus! {

/// A range of byte offsets of the input: `length` bytes from `start_offset` on.
#[derive(Clone, Copy, Debug, PartialEq, Eq, Structural)]
pub struct ChunkDescriptor {
    pub start_offset: u64,
    pub length: u64,
}

impl ChunkDescriptor {
    /// The first offset behind the chunk.
    pub open spec fn end(self) -> int {
        self.start_offset + self.length
    }

    /// Whether the byte at `offset` belongs to the chunk.
    pub open spec fn covers(self, offset: int) -> bool {
        self.start_offset <= offset < self.end()
    }
}

/// The number of chunks of `chunk_size` bytes that `byte_length` bytes need:
/// the quotient, rounded up.
pub open spec fn chunk_count(byte_length: nat, chunk_size: nat) -> nat
    recommends
        chunk_size > 0,
{
    ((byte_length + chunk_size - 1) / (chunk_size as int)) as nat
}

/// Where the chunk of the given index ends: a whole chunk size behind its
/// start, or at the end of the input where that comes first.
pub open spec fn planned_end(index: int, byte_length: nat, chunk_size: nat) -> int {
    if (index + 1) * chunk_size <= byte_length {
        (index + 1) * chunk_size
    } else {
        byte_length as int
    }
}

/// `chunks` is the plan for `byte_length` bytes in chunks of `chunk_size`:
/// the chunk of index `i` reaches from `i * chunk_size` to the next multiple of
/// the chunk size, or to the end of the input.
pub open spec fn is_plan(chunks: Seq<ChunkDescriptor>, byte_length: nat, chunk_size: nat) -> bool {
    &&& chunks.len() == chunk_count(byte_length, chunk_size)
    &&& forall|i: int|
        0 <= i < chunks.len() ==> {
            &&& (#[trigger] chunks[i]).start_offset == i * chunk_size
            &&& chunks[i].end() == planned_end(i, byte_length, chunk_size)
        }
}

/// Whether some chunk holds the byte at `offset`.
pub open spec fn covered(chunks: Seq<ChunkDescriptor>, offset: int) -> bool {
    exists|i: int| 0 <= i < chunks.len() && #[trigger] chunks[i].covers(offset)
}

/// The chunks cut the offsets `0 .. byte_length` into pieces: no chunk reaches
/// outside, every offset lies in some chunk, and no offset lies in two.
pub open spec fn partitions(chunks: Seq<ChunkDescriptor>, byte_length: nat) -> bool {
    &&& forall|i: int, offset: int|
        0 <= i < chunks.len() && #[trigger] chunks[i].covers(offset) ==> 0 <= offset
            < byte_length
    &&& forall|offset: int| 0 <= offset < byte_length ==> #[trigger] covered(chunks, offset)
    &&& forall|i: int, j: int, offset: int|
        0 <= i < chunks.len() && 0 <= j < chunks.len() && #[trigger] chunks[i].covers(offset)
            && #[trigger] chunks[j].covers(offset) ==> i == j
}

/// The chunks lie one behind the other: the first starts at offset 0, each
/// further one where its predecessor ends, the last ends at `byte_length`, and
/// none is empty.
pub open spec fn contiguous(chunks: Seq<ChunkDescriptor>, byte_length: nat) -> bool {
    &&& forall|i: int| 0 <= i < chunks.len() ==> (#[trigger] chunks[i]).length > 0
    &&& chunks.len() > 0 ==> chunks[0].start_offset == 0
    &&& forall|i: int, j: int|
        #![trigger chunks[i], chunks[j]]
        0 <= i && j == i + 1 && j < chunks.len() ==> chunks[j].start_offset == chunks[i].end()
    &&& if chunks.len() == 0 {
        byte_length == 0
    } else {
        chunks.last().end() == byte_length
    }
}

proof fn lemma_mul_step(index: int, chunk_size: int)
    ensures
        (index + 1) * chunk_size == index * chunk_size + chunk_size,
{
    assert((index + 1) * chunk_size == index * chunk_size + chunk_size) by (nonlinear_arith);
}

proof fn lemma_mul_monotonic(i: int, j: int, chunk_size: int)
    requires
        i <= j,
        chunk_size >= 0,
    ensures
        i * chunk_size <= j * chunk_size,
{
    assert(i * chunk_size <= j * chunk_size) by (nonlinear_arith)
        requires
            i <= j,
            chunk_size >= 0,
    ;
}

/// The number of chunks is the one count `k` for which `k - 1` chunk sizes
/// fall short of the input and `k` chunk sizes reach its end.
pub proof fn lemma_chunk_count_unique(byte_length: nat, chunk_size: nat, k: int)
    requires
        chunk_size > 0,
        k >= 0,
        k * chunk_size >= byte_length,
        k == 0 || (k - 1) * chunk_size < byte_length,
    ensures
        chunk_count(byte_length, chunk_size) == k,
{
    let c = chunk_size as int;
    let x = byte_length + c - 1;
    if k == 0 {
        assert(0 * c == 0);
        assert(byte_length == 0);
        lemma_fundamental_div_mod_converse(x, c, 0, c - 1);
    } else {
        lemma_mul_step(k - 1, c);
        let r = x - k * c;
        assert(0 <= r < c);
        lemma_fundamental_div_mod_converse(x, c, k, r);
    }
}

/// A plan's chunks lie one behind the other, each holds between one byte and
/// a chunk size of bytes, and all but the last hold a whole chunk size.
pub proof fn lemma_plan_contiguous(
    chunks: Seq<ChunkDescriptor>,
    byte_length: nat,
    chunk_size: nat,
)
    requires
        chunk_size > 0,
        is_plan(chunks, byte_length, chunk_size),
    ensures
        contiguous(chunks, byte_length),
        forall|i: int| 0 <= i < chunks.len() ==> 0 < (#[trigger] chunks[i]).length <= chunk_size,
        forall|i: int| 0 <= i < chunks.len() - 1 ==> (#[trigger] chunks[i]).length == chunk_size,
{
    let c = chunk_size as int;
    let n = byte_length as int;
    let k = chunks.len() as int;
    // k is the rounded-up quotient: k * c reaches n, (k - 1) * c does not.
    let x = n + c - 1;
    vstd::arithmetic::div_mod::lemma_fundamental_div_mod(x, c);
    vstd::arithmetic::div_mod::lemma_mod_bound(x, c);
    assert(c * k == k * c) by (nonlinear_arith);
    assert(x == k * c + x % c);
    assert(k * c >= n);
    assert(k == 0 || (k - 1) * c < n) by {
        if k > 0 {
            lemma_mul_step(k - 1, c);
        }
    }
    assert forall|i: int| 0 <= i < k implies 0 < (#[trigger] chunks[i]).length <= chunk_size
        && (i < k - 1 ==> chunks[i].length == chunk_size) by {
        lemma_mul_step(i, c);
        lemma_mul_monotonic(i, k - 1, c);
        if i < k - 1 {
            lemma_mul_monotonic(i + 1, k - 1, c);
        }
    }
    assert forall|i: int, j: int|
        #![trigger chunks[i], chunks[j]]
        0 <= i && j == i + 1 && j < k implies chunks[j].start_offset == chunks[i].end() by {
        lemma_mul_step(i, c);
        lemma_mul_monotonic(j, k - 1, c);
    }
    if k > 0 {
        lemma_mul_step(k - 1, c);
        assert(chunks[k - 1].end() == planned_end(k - 1, byte_length, chunk_size));
    } else {
        assert(0 * c == 0);
    }
}

/// The chunks of a plan partition the input: together they cover the offsets
/// `0 .. byte_length`, each offset exactly once.
pub proof fn lemma_plan_partitions(
    chunks: Seq<ChunkDescriptor>,
    byte_length: nat,
    chunk_size: nat,
)
    requires
        chunk_size > 0,
        is_plan(chunks, byte_length, chunk_size),
    ensures
        partitions(chunks, byte_length),
{
    let c = chunk_size as int;
    let k = chunks.len() as int;
    lemma_plan_contiguous(chunks, byte_length, chunk_size);
    assert forall|i: int, offset: int|
        0 <= i < chunks.len() && #[trigger] chunks[i].covers(offset) implies 0 <= offset
        < byte_length by {
        lemma_mul_step(i, c);
    }
    assert forall|offset: int| 0 <= offset < byte_length implies #[trigger] covered(
        chunks,
        offset,
    ) by {
        let i = offset / c;
        vstd::arithmetic::div_mod::lemma_fundamental_div_mod(offset, c);
        vstd::arithmetic::div_mod::lemma_mod_bound(offset, c);
        assert(c * i == i * c) by (nonlinear_arith);
        assert(i * c <= offset < i * c + c);
        assert(0 <= i) by {
            if i < 0 {
                lemma_mul_monotonic(i, -1, c);
                assert((-1) * c == -c) by (nonlinear_arith);
            }
        }
        assert(i < k) by {
            if i >= k {
                lemma_mul_monotonic(k, i, c);
                if k > 0 {
                    lemma_mul_step(k - 1, c);
                    assert(chunks[k - 1].end() == byte_length);
                } else {
                    assert(byte_length == 0);
                }
            }
        }
        lemma_mul_step(i, c);
        assert(chunks[i].covers(offset));
    }
    assert forall|i: int, j: int, offset: int|
        0 <= i < chunks.len() && 0 <= j < chunks.len() && #[trigger] chunks[i].covers(offset)
            && #[trigger] chunks[j].covers(offset) implies i == j by {
        lemma_mul_step(i, c);
        lemma_mul_step(j, c);
        if i < j {
            lemma_mul_monotonic(i + 1, j, c);
        }
        if j < i {
            lemma_mul_monotonic(j + 1, i, c);
        }
    }
}

/// Cuts `byte_length` bytes into consecutive chunks of `chunk_size` bytes, the
/// last one shorter where the length is no multiple of the chunk size. An
/// empty input has no chunks. A chunk size of zero is refused.
pub fn plan(byte_length: u64, chunk_size: u64) -> (result: Result<Vec<ChunkDescriptor>, CountError>)
    ensures
        chunk_size == 0 <==> result is Err,
        result is Err ==> result == Err::<Vec<ChunkDescriptor>, CountError>(
            CountError::InvalidConfig,
        ),
        result matches Ok(chunks) ==> {
            &&& is_plan(chunks@, byte_length as nat, chunk_size as nat)
            &&& partitions(chunks@, byte_length as nat)
        },
{
    if chunk_size == 0 {
        return Err(CountError::InvalidConfig);
    }
    let mut chunks: Vec<ChunkDescriptor> = Vec::new();
    let mut offset: u64 = 0;
    proof {
        assert(0 * (chunk_size as int) == 0);
    }
    while offset < byte_length
        invariant
            chunk_size > 0,
            offset <= byte_length,
            offset == if chunks.len() * chunk_size <= byte_length {
                chunks.len() * chunk_size
            } else {
                byte_length as int
            },
            chunks.len() == 0 || (chunks.len() - 1) * chunk_size < byte_length,
            forall|i: int|
                0 <= i < chunks.len() ==> {
                    &&& (#[trigger] chunks[i]).start_offset == i * chunk_size
                    &&& chunks[i].end() == planned_end(i, byte_length as nat, chunk_size as nat)
                },
        decreases byte_length - offset,
    {
        let remaining: u64 = byte_length - offset;
        let length: u64 = if remaining < chunk_size {
            remaining
        } else {
            chunk_size
        };
        proof {
            lemma_mul_step(chunks.len() as int, chunk_size as int);
        }
        chunks.push(ChunkDescriptor { start_offset: offset, length });
        offset = offset + length;
    }
    proof {
        lemma_chunk_count_unique(byte_length as nat, chunk_size as nat, chunks.len() as int);
        lemma_plan_partitions(chunks@, byte_length as nat, chunk_size as nat);
    }
    Ok(chunks)
}

} // verus!
