use crate::error::CountError;
use vstd::prelude::*;

verus! {

/// The sum of a sequence of counts.
pub open spec fn total(counts: Seq<nat>) -> nat
    decreases counts.len(),
{
    if counts.len() == 0 {
        0
    } else {
        total(counts.drop_last()) + counts.last()
    }
}

/// The count that a partial result brings in: its value, or nothing where the
/// chunk failed.
pub open spec fn partial_value(partial: Result<u64, CountError>) -> nat {
    match partial {
        Ok(count) => count as nat,
        Err(_) => 0,
    }
}

/// The counts that the partial results bring in, in their order.
pub open spec fn partial_values(partials: Seq<Result<u64, CountError>>) -> Seq<nat> {
    Seq::new(partials.len(), |i: int| partial_value(partials[i]))
}

/// No chunk failed.
pub open spec fn all_counted(partials: Seq<Result<u64, CountError>>) -> bool {
    forall|i: int| 0 <= i < partials.len() ==> (#[trigger] partials[i]) is Ok
}

/// `index` is where the first failure stands.
pub open spec fn is_first_failure(partials: Seq<Result<u64, CountError>>, index: int) -> bool {
    &&& 0 <= index < partials.len()
    &&& partials[index] is Err
    &&& forall|j: int| 0 <= j < index ==> (#[trigger] partials[j]) is Ok
}

/// A sum grows with every count that is added: the sum over a front part is
/// no more than the sum over the whole.
pub proof fn lemma_total_front(counts: Seq<nat>, k: int)
    requires
        0 <= k <= counts.len(),
    ensures
        total(counts.take(k)) <= total(counts),
    decreases counts.len(),
{
    if k == counts.len() {
        assert(counts.take(k) =~= counts);
    } else {
        assert(counts.drop_last().take(k) =~= counts.take(k));
        lemma_total_front(counts.drop_last(), k);
    }
}

/// Adds up the partial counts of the chunks. One failed chunk fails the
/// whole: the result is then the first failure in the order of the chunks,
/// and no count. The sum of the counts must fit into `u64`.
pub fn total_count(partials: &Vec<Result<u64, CountError>>) -> (result: Result<u64, CountError>)
    requires
        all_counted(partials@) ==> total(partial_values(partials@)) <= u64::MAX,
    ensures
        result is Ok <==> all_counted(partials@),
        result matches Ok(sum) ==> sum == total(partial_values(partials@)),
        result matches Err(error) ==> exists|i: int|
            is_first_failure(partials@, i) && partials@[i] == Err::<u64, CountError>(error),
{
    let mut checked: usize = 0;
    while checked < partials.len()
        invariant
            checked <= partials.len(),
            forall|j: int| 0 <= j < checked ==> (#[trigger] partials@[j]) is Ok,
        decreases partials.len() - checked,
    {
        match partials[checked] {
            Err(error) => {
                assert(is_first_failure(partials@, checked as int));
                return Err(error);
            },
            Ok(_) => {},
        }
        checked = checked + 1;
    }
    let ghost values = partial_values(partials@);
    let mut sum: u64 = 0;
    let mut index: usize = 0;
    proof {
        assert(values.take(0) =~= Seq::<nat>::empty());
    }
    while index < partials.len()
        invariant
            index <= partials.len(),
            values == partial_values(partials@),
            all_counted(partials@),
            total(values) <= u64::MAX,
            sum == total(values.take(index as int)),
        decreases partials.len() - index,
    {
        proof {
            assert(values.take(index + 1).drop_last() =~= values.take(index as int));
            lemma_total_front(values, index + 1);
        }
        match partials[index] {
            Ok(count) => {
                sum = sum + count;
            },
            Err(_) => {},
        }
        index = index + 1;
    }
    proof {
        assert(values.take(index as int) =~= values);
    }
    Ok(sum)
}

} // verus!
