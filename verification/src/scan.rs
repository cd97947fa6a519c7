use vstd::prelude::*;

verus! {

/// How often `needle` occurs in `bytes`.
pub open spec fn occurrences(bytes: Seq<u8>, needle: u8) -> nat
    decreases bytes.len(),
{
    if bytes.len() == 0 {
        0
    } else {
        occurrences(bytes.drop_last(), needle) + if bytes.last() == needle {
            1nat
        } else {
            0nat
        }
    }
}

/// A sequence holds no more occurrences of a byte than it has bytes.
pub proof fn lemma_occurrences_bounded(bytes: Seq<u8>, needle: u8)
    ensures
        occurrences(bytes, needle) <= bytes.len(),
    decreases bytes.len(),
{
    if bytes.len() > 0 {
        lemma_occurrences_bounded(bytes.drop_last(), needle);
    }
}

/// Counting distributes over concatenation: where a sequence is cut does not
/// change how many occurrences its two parts hold together.
pub proof fn lemma_occurrences_concat(left: Seq<u8>, right: Seq<u8>, needle: u8)
    ensures
        occurrences(left + right, needle) == occurrences(left, needle) + occurrences(
            right,
            needle,
        ),
    decreases right.len(),
{
    if right.len() == 0 {
        assert(left + right =~= left);
    } else {
        assert((left + right).drop_last() =~= left + right.drop_last());
        lemma_occurrences_concat(left, right.drop_last(), needle);
    }
}

/// `bytecount::count` returns the number of positions of `haystack` that hold
/// `needle`. Every code path of the crate (the plain fold and the vectorised
/// ones) computes that same number.
pub assume_specification[ bytecount::count ](haystack: &[u8], needle: u8) -> (n: usize)
    ensures
        n == occurrences(haystack@, needle),
;

/// Counts the occurrences of `delimiter` in `bytes`.
pub fn count_bytes(bytes: &[u8], delimiter: u8) -> (count: u64)
    ensures
        count == occurrences(bytes@, delimiter),
{
    bytecount::count(bytes, delimiter) as u64
}

} // verus!
