use crate::error::CountError;
use crate::plan::{contiguous, is_plan, lemma_plan_contiguous, plan, ChunkDescriptor};
use crate::reduce::{all_counted, partial_value, partial_values, total};
use crate::scan::{count_bytes, lemma_occurrences_bounded, lemma_occurrences_concat, occurrences};
use rayon::iter::{IntoParallelRefIterator, ParallelIterator};
use vstd::prelude::*;
use vstd::slice::slice_subrange;

verus! {

/// The bytes of `data` that `chunk` covers.
pub open spec fn chunk_bytes(data: Seq<u8>, chunk: ChunkDescriptor) -> Seq<u8> {
    data.subrange(chunk.start_offset as int, chunk.end())
}

/// The partial count of every chunk: how often `delimiter` occurs in the
/// bytes that the chunk covers.
pub open spec fn partial_counts(
    data: Seq<u8>,
    chunks: Seq<ChunkDescriptor>,
    delimiter: u8,
) -> Seq<nat> {
    Seq::new(chunks.len(), |i: int| occurrences(chunk_bytes(data, chunks[i]), delimiter))
}

/// Every chunk lies within the first `byte_length` bytes.
pub open spec fn within(chunks: Seq<ChunkDescriptor>, byte_length: nat) -> bool {
    forall|i: int| 0 <= i < chunks.len() ==> (#[trigger] chunks[i]).end() <= byte_length
}

/// Where the first `k` chunks end.
spec fn boundary(chunks: Seq<ChunkDescriptor>, k: int) -> int {
    if k == 0 {
        0
    } else {
        chunks[k - 1].end()
    }
}

proof fn lemma_contiguous_prefix(
    data: Seq<u8>,
    chunks: Seq<ChunkDescriptor>,
    delimiter: u8,
    k: int,
)
    requires
        contiguous(chunks, data.len()),
        0 <= k <= chunks.len(),
    ensures
        0 <= boundary(chunks, k) <= data.len(),
        total(partial_counts(data, chunks, delimiter).take(k)) == occurrences(
            data.subrange(0, boundary(chunks, k)),
            delimiter,
        ),
    decreases k,
{
    let counts = partial_counts(data, chunks, delimiter);
    lemma_contiguous_ends(chunks, data.len(), k);
    if k == 0 {
        assert(counts.take(0) =~= Seq::<nat>::empty());
        assert(data.subrange(0, 0) =~= Seq::<u8>::empty());
    } else {
        lemma_contiguous_prefix(data, chunks, delimiter, k - 1);
        let start = boundary(chunks, k - 1);
        let end = boundary(chunks, k);
        assert(chunks[k - 1].start_offset == start) by {
            if k >= 2 {
                assert(chunks[k - 1].start_offset == chunks[k - 2].end());
            }
        }
        assert(counts.take(k).drop_last() =~= counts.take(k - 1));
        assert(counts.take(k).last() == occurrences(chunk_bytes(data, chunks[k - 1]), delimiter));
        assert(data.subrange(0, end) =~= data.subrange(0, start) + data.subrange(start, end));
        lemma_occurrences_concat(data.subrange(0, start), data.subrange(start, end), delimiter);
    }
}

/// Contiguous chunks end in rising order, none behind the end of the input.
proof fn lemma_contiguous_ends(chunks: Seq<ChunkDescriptor>, byte_length: nat, k: int)
    requires
        contiguous(chunks, byte_length),
        0 <= k <= chunks.len(),
    ensures
        0 <= boundary(chunks, k) <= byte_length,
    decreases chunks.len() - k,
{
    if k < chunks.len() {
        lemma_contiguous_ends(chunks, byte_length, k + 1);
        assert(chunks[k].start_offset == boundary(chunks, k)) by {
            if k >= 1 {
                assert(chunks[k].start_offset == chunks[k - 1].end());
            }
        }
    }
}

/// Chunks that lie one behind the other over the whole of `data` hold
/// together exactly the occurrences that `data` holds.
pub proof fn lemma_contiguous_counts_total(
    data: Seq<u8>,
    chunks: Seq<ChunkDescriptor>,
    delimiter: u8,
)
    requires
        contiguous(chunks, data.len()),
    ensures
        within(chunks, data.len()),
        total(partial_counts(data, chunks, delimiter)) == occurrences(data, delimiter),
{
    let counts = partial_counts(data, chunks, delimiter);
    let k = chunks.len() as int;
    lemma_contiguous_prefix(data, chunks, delimiter, k);
    assert(counts.take(k) =~= counts);
    assert(boundary(chunks, k) == data.len());
    assert(data.subrange(0, data.len() as int) =~= data);
    assert forall|i: int| 0 <= i < chunks.len() implies (#[trigger] chunks[i]).end()
        <= data.len() by {
        lemma_contiguous_ends(chunks, data.len(), i + 1);
    }
}

/// The sum of the partial counts over a plan is the count over the whole
/// input, whatever the chunk size.
pub proof fn lemma_chunked_count(
    data: Seq<u8>,
    chunks: Seq<ChunkDescriptor>,
    chunk_size: nat,
    delimiter: u8,
)
    requires
        chunk_size > 0,
        is_plan(chunks, data.len(), chunk_size),
    ensures
        within(chunks, data.len()),
        total(partial_counts(data, chunks, delimiter)) == occurrences(data, delimiter),
{
    lemma_plan_contiguous(chunks, data.len(), chunk_size);
    lemma_contiguous_counts_total(data, chunks, delimiter);
}

/// Partial results that hold, chunk by chunk of a plan, the count of the
/// chunk's own bytes add up to the count over the whole input: no chunk has
/// failed, and the sum is what one pass over the input would count.
pub proof fn lemma_partial_results_total(
    data: Seq<u8>,
    chunks: Seq<ChunkDescriptor>,
    chunk_size: nat,
    delimiter: u8,
    partials: Seq<Result<u64, CountError>>,
)
    requires
        chunk_size > 0,
        is_plan(chunks, data.len(), chunk_size),
        partials.len() == chunks.len(),
        forall|i: int|
            0 <= i < chunks.len() ==> (#[trigger] partials[i]) is Ok && partial_value(
                partials[i],
            ) == occurrences(chunk_bytes(data, chunks[i]), delimiter),
    ensures
        all_counted(partials),
        total(partial_values(partials)) == occurrences(data, delimiter),
        total(partial_values(partials)) <= data.len(),
{
    lemma_chunked_count(data, chunks, chunk_size, delimiter);
    lemma_occurrences_bounded(data, delimiter);
    assert(partial_values(partials) =~= partial_counts(data, chunks, delimiter));
}

/// Counts the occurrences of `delimiter` in the part of `data` that `chunk`
/// covers.
pub fn count_chunk(data: &[u8], chunk: &ChunkDescriptor, delimiter: u8) -> (count: u64)
    requires
        chunk.end() <= data@.len(),
    ensures
        count == occurrences(chunk_bytes(data@, *chunk), delimiter),
{
    proof {
        assert(data@.len() == data.len());
    }
    let start: usize = chunk.start_offset as usize;
    let end: usize = start + chunk.length as usize;
    count_bytes(slice_subrange(data, start, end), delimiter)
}

/// Counts every chunk with `count_chunk`, the chunks spread over rayon's
/// worker threads by `par_iter` and `map`, and adds the counts up with rayon's
/// `sum`. The contract claims of rayon that `map` hands each chunk of the
/// vector to the closure once and that `sum` returns the sum of what the
/// closure returned; what the closure returns is `count_chunk`'s own contract.
/// The `requires` keeps the sum inside `u64`, where `+` cannot overflow.
#[verifier::external_body]
fn sum_chunk_counts(data: &[u8], chunks: &Vec<ChunkDescriptor>, delimiter: u8) -> (sum: u64)
    requires
        within(chunks@, data@.len()),
        total(partial_counts(data@, chunks@, delimiter)) <= u64::MAX,
    ensures
        sum == total(partial_counts(data@, chunks@, delimiter)),
{
    chunks.par_iter().map(|chunk| count_chunk(data, chunk, delimiter)).sum()
}

/// Counts the occurrences of `delimiter` in `data` chunk by chunk: the data is
/// cut into chunks of `chunk_size` bytes, the chunks are counted in parallel,
/// and the partial counts are added up. The result is the count over the
/// whole of `data`, whatever the chunk size. A chunk size of zero is refused.
pub fn count_parallel(data: &[u8], chunk_size: u64, delimiter: u8) -> (result: Result<
    u64,
    CountError,
>)
    ensures
        chunk_size == 0 <==> result is Err,
        result is Err ==> result == Err::<u64, CountError>(CountError::InvalidConfig),
        result matches Ok(count) ==> count == occurrences(data@, delimiter),
{
    let byte_length: u64 = data.len() as u64;
    match plan(byte_length, chunk_size) {
        Err(error) => Err(error),
        Ok(chunks) => {
            proof {
                lemma_chunked_count(data@, chunks@, chunk_size as nat, delimiter);
                lemma_occurrences_bounded(data@, delimiter);
            }
            Ok(sum_chunk_counts(data, &chunks, delimiter))
        },
    }
}

} // verus!
