//! Locating pool outputs by value.
//!
//! After the external collaborator funds the pool or moves its output, the
//! caller must find the right output index among a transaction's outputs by
//! the value it expects there.  The searches are pinned exactly: the first
//! match, or every match in order.

use vstd::prelude::*;

verus! {

/// The first output index carrying exactly the expected value, if any.
pub fn find_output_by_value(values: &Vec<u64>, target: u64) -> (r: Option<usize>)
    ensures
        r matches Some(i) ==> (i as int) < values@.len() && values@[i as int] == target && (forall|
            j: int,
        | 0 <= j < i ==> values@[j] != target),
        r is None ==> forall|j: int| 0 <= j < values@.len() ==> values@[j] != target,
{
    let mut i: usize = 0;
    while i < values.len()
        invariant
            i <= values@.len(),
            forall|j: int| 0 <= j < i ==> values@[j] != target,
        decreases values@.len() - i,
    {
        if values[i] == target {
            return Some(i);
        }
        i += 1;
    }
    None
}

/// The output indices carrying exactly the expected value, from `lo` upward,
/// ascending.
pub open spec fn matching_from(values: Seq<i64>, target: i64, lo: nat) -> Seq<usize>
    decreases values.len() - lo,
{
    if lo >= values.len() {
        Seq::empty()
    } else if values[lo as int] == target {
        seq![lo as usize] + matching_from(values, target, (lo + 1) as nat)
    } else {
        matching_from(values, target, (lo + 1) as nat)
    }
}

pub open spec fn matching_outputs_spec(values: Seq<i64>, target: i64) -> Seq<usize> {
    matching_from(values, target, 0)
}

/// All output indices carrying exactly the expected value, in output order.
pub fn matching_outputs(values: &Vec<i64>, target: i64) -> (r: Vec<usize>)
    ensures
        r@ == matching_outputs_spec(values@, target),
{
    let mut r: Vec<usize> = Vec::new();
    let mut i: usize = 0;
    while i < values.len()
        invariant
            i <= values@.len(),
            matching_outputs_spec(values@, target) == r@ + matching_from(
                values@,
                target,
                i as nat,
            ),
        decreases values@.len() - i,
    {
        if values[i] == target {
            r.push(i);
            proof {
                assert(r@ + matching_from(values@, target, (i + 1) as nat) =~= r@.drop_last() + (
                seq![i] + matching_from(values@, target, (i + 1) as nat)));
            }
        }
        i += 1;
    }
    proof {
        assert(r@ + matching_from(values@, target, values@.len() as nat) =~= r@);
    }
    r
}

} // verus!
