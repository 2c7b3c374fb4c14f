//! The label grid a renderer consumes: for each of the 51 logical cells, the
//! one-based index of the placement covering it, or zero for a free cell.

use crate::board::bit_at;
use vstd::prelude::*;

verus! {

/// One-based index of the last pattern in `bs` that covers cell `i`, or zero
/// when no pattern covers it.
pub open spec fn label_at(bs: Seq<u64>, i: int) -> u8
    decreases bs.len(),
{
    if bs.len() == 0 {
        0
    } else if bit_at(i as u64) & bs.last() != 0 {
        bs.len() as u8
    } else {
        label_at(bs.drop_last(), i)
    }
}

/// Maps placement patterns onto the 51 logical cells: cell `i` is labeled
/// with the one-based index of the pattern covering it, later patterns
/// winning, and zero where no pattern covers it.
pub fn brick_labels(bricks: &Vec<u64>) -> (r: Vec<u8>)
    requires
        bricks@.len() <= 254,
    ensures
        r@.len() == 51,
        forall|i: int| 0 <= i < 51 ==> r@[i] == label_at(bricks@, i),
{
    let mut r: Vec<u8> = Vec::with_capacity(51);
    let mut i: usize = 0;
    while i < 51
        invariant
            i <= 51,
            r@.len() == i,
            forall|j: int| 0 <= j < i ==> r@[j] == 0,
        decreases 51 - i,
    {
        r.push(0);
        i = i + 1;
    }
    proof {
        assert(bricks@.take(0) =~= Seq::<u64>::empty());
    }
    let mut k: usize = 0;
    while k < bricks.len()
        invariant
            k <= bricks@.len(),
            bricks@.len() <= 254,
            r@.len() == 51,
            forall|j: int| 0 <= j < 51 ==> r@[j] == label_at(bricks@.take(k as int), j),
        decreases bricks@.len() - k,
    {
        let b = bricks[k];
        let mut i: usize = 0;
        while i < 51
            invariant
                i <= 51,
                r@.len() == 51,
                k < bricks@.len(),
                bricks@.len() <= 254,
                b == bricks@[k as int],
                forall|j: int| 0 <= j < i ==> r@[j] == label_at(bricks@.take(k as int + 1), j),
                forall|j: int| i <= j < 51 ==> r@[j] == label_at(bricks@.take(k as int), j),
            decreases 51 - i,
        {
            proof {
                assert(bricks@.take(k as int + 1).drop_last() =~= bricks@.take(k as int));
                assert(bricks@.take(k as int + 1).last() == b);
            }
            if (((1u64 << 63) >> (i as u64)) & b) > 0 {
                r[i] = (k as u8) + 1;
            }
            i = i + 1;
        }
        k = k + 1;
    }
    proof {
        assert(bricks@.take(bricks@.len() as int) =~= bricks@);
    }
    r
}

} // verus!
