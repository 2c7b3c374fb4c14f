//! The placement enumerator: for one board and one brick, every translation
//! of every orientation that does not collide with an occupied cell, in a
//! fixed nested order (orientations outward, offsets inward).

use crate::bits::{lemma_pairwise_push, lemma_union_push, union_of};
use crate::board::Board;
use crate::brick::Brick;
use vstd::prelude::*;

verus! {

/// The first `(orientation, offset)` pair at or after `(bi, idx)`, in the
/// nested enumeration order, whose shifted pattern avoids every occupied
/// cell; `None` when no further placement fits.
pub open spec fn first_fit(bb: u64, vars: Seq<u64>, bi: nat, idx: nat) -> Option<(nat, nat)>
    decreases vars.len() - bi, 43 - idx,
{
    if bi >= vars.len() {
        None
    } else if idx > 42 {
        first_fit(bb, vars, bi + 1, 0)
    } else if (vars[bi as int] >> (idx as u64)) & bb == 0 {
        Some((bi, idx))
    } else {
        first_fit(bb, vars, bi, idx + 1)
    }
}

/// A fit found at or after `(bi, idx)` lies at or after `(bi, idx)` and
/// inside the enumeration grid.
pub proof fn lemma_first_fit_pos(bb: u64, vars: Seq<u64>, bi: nat, idx: nat)
    ensures
        first_fit(bb, vars, bi, idx) is Some ==> {
            let (b, i) = first_fit(bb, vars, bi, idx)->0;
            &&& bi <= b < vars.len()
            &&& i <= 42
            &&& b == bi ==> idx <= i
        },
    decreases vars.len() - bi, 43 - idx,
{
    if bi >= vars.len() {
    } else if idx > 42 {
        lemma_first_fit_pos(bb, vars, bi + 1, 0);
    } else if (vars[bi as int] >> (idx as u64)) & bb == 0 {
    } else {
        lemma_first_fit_pos(bb, vars, bi, idx + 1);
    }
}

/// Every placement of the variant list on occupancy `bb` at or after
/// `(bi, idx)`, in enumeration order.
pub open spec fn placements_list(bb: u64, vars: Seq<u64>, bi: nat, idx: nat) -> Seq<u64>
    decreases vars.len() - bi, 43 - idx,
{
    if bi >= vars.len() {
        Seq::empty()
    } else if idx > 42 {
        placements_list(bb, vars, bi + 1, 0)
    } else if (vars[bi as int] >> (idx as u64)) & bb == 0 {
        seq![vars[bi as int] >> (idx as u64)] + placements_list(bb, vars, bi, idx + 1)
    } else {
        placements_list(bb, vars, bi, idx + 1)
    }
}

/// `first_fit` finds the head of `placements_list`, and the tail continues
/// just past it.
pub proof fn lemma_placements_list_head(bb: u64, vars: Seq<u64>, bi: nat, idx: nat)
    ensures
        match first_fit(bb, vars, bi, idx) {
            None => placements_list(bb, vars, bi, idx) == Seq::<u64>::empty(),
            Some(pos) => placements_list(bb, vars, bi, idx) == seq![
                vars[pos.0 as int] >> (pos.1 as u64),
            ] + placements_list(bb, vars, pos.0, pos.1 + 1),
        },
    decreases vars.len() - bi, 43 - idx,
{
    if bi >= vars.len() {
    } else if idx > 42 {
        lemma_placements_list_head(bb, vars, bi + 1, 0);
    } else if (vars[bi as int] >> (idx as u64)) & bb == 0 {
    } else {
        lemma_placements_list_head(bb, vars, bi, idx + 1);
    }
}

/// Lazily yields, for the fixed board it was built over, every placement of
/// the brick that avoids the occupied cells, each folded into a new board.
pub struct ValidPlacementIterator<'a> {
    /// Next shift offset to test within the current orientation.
    pub index: usize,
    /// Current orientation pattern.
    pub brick_index: usize,
    pub board: &'a Board,
    pub brick: &'a Brick,
}

impl<'a> ValidPlacementIterator<'a> {
    /// The enumerator position stays inside the search grid.
    pub open spec fn wf(&self) -> bool {
        &&& self.brick_index <= self.brick.patterns().len()
        &&& self.index <= 43
    }

    /// How many `(orientation, offset)` pairs are left to examine; strictly
    /// decreases on every yield.
    pub open spec fn remaining(&self) -> int {
        if self.brick_index >= self.brick.patterns().len() {
            0
        } else {
            (self.brick.patterns().len() - self.brick_index - 1) * 43 + 43 - self.index
        }
    }

    pub fn new(board: &'a Board, brick: &'a Brick) -> (it: ValidPlacementIterator<'a>)
        ensures
            it.board == board,
            it.brick == brick,
            it.brick_index == 0,
            it.index == 0,
            it.wf(),
    {
        ValidPlacementIterator { index: 0, brick_index: 0, board, brick }
    }

    /// Advances to the next placement that fits, if any: the yielded board
    /// folds exactly the pattern `first_fit` points at into the occupancy
    /// mask and appends it to the placement history.
    pub fn next(&mut self) -> (r: Option<Board>)
        requires
            old(self).wf(),
            old(self).board.wf(),
        ensures
            final(self).board == old(self).board,
            final(self).brick == old(self).brick,
            final(self).wf(),
            ({
                let bb = old(self).board.bitboard;
                let vars = old(self).brick.patterns();
                let ff = first_fit(bb, vars, old(self).brick_index as nat, old(self).index as nat);
                match r {
                    None => {
                        &&& ff is None
                        &&& final(self).remaining() == 0
                    },
                    Some(nb) => {
                        &&& ff is Some
                        &&& {
                            let (b, i) = ff->0;
                            let p = vars[b as int] >> (i as u64);
                            &&& b < vars.len()
                            &&& i <= 42
                            &&& p & bb == 0
                            &&& nb.bitboard == bb | p
                            &&& nb.placed_bricks@ == old(self).board.placed_bricks@.push(p)
                            &&& nb.wf()
                            &&& final(self).brick_index == b
                            &&& final(self).index == i + 1
                            &&& final(self).remaining() < old(self).remaining()
                        }
                    },
                }
            }),
    {
        let ghost bb = self.board.bitboard;
        let ghost vars = self.brick.patterns();
        let ghost ff = first_fit(bb, vars, self.brick_index as nat, self.index as nat);
        let len = self.brick.brick_variants.len();
        while self.brick_index < len
            invariant
                self.board == old(self).board,
                self.brick == old(self).brick,
                bb == self.board.bitboard,
                vars == self.brick.patterns(),
                len == vars.len(),
                self.brick_index <= len,
                self.index <= 43,
                ff == first_fit(bb, vars, self.brick_index as nat, self.index as nat),
                ff == first_fit(bb, vars, old(self).brick_index as nat, old(self).index as nat),
                old(self).wf(),
                old(self).board.wf(),
            decreases (len - self.brick_index) * 44 + 43 - self.index,
        {
            let brick_variant = self.brick.brick_variants[self.brick_index].bit_pattern;
            assert(brick_variant == vars[self.brick_index as int]);
            let ghost bi_snap = self.brick_index;
            while self.index <= 42
                invariant
                    self.board == old(self).board,
                    self.brick == old(self).brick,
                    bb == self.board.bitboard,
                    vars == self.brick.patterns(),
                    len == vars.len(),
                    self.brick_index == bi_snap,
                    self.brick_index < len,
                    self.index <= 43,
                    brick_variant == vars[self.brick_index as int],
                    ff == first_fit(bb, vars, self.brick_index as nat, self.index as nat),
                    ff == first_fit(bb, vars, old(self).brick_index as nat, old(self).index as nat),
                    old(self).wf(),
                    old(self).board.wf(),
                decreases 43 - self.index,
            {
                let indexed_brick_pattern = brick_variant >> (self.index as u64);
                let ghost pos_b = self.brick_index as nat;
                let ghost pos_i = self.index as nat;
                self.index = self.index + 1;
                if (self.board.bitboard & indexed_brick_pattern) == 0 {
                    proof {
                        crate::bits::lemma_and_comm(bb, indexed_brick_pattern);
                        assert(ff == Some((pos_b, pos_i)));
                        lemma_first_fit_pos(
                            bb,
                            vars,
                            old(self).brick_index as nat,
                            old(self).index as nat,
                        );
                        let ob = old(self).brick_index as int;
                        let oi = old(self).index as int;
                        let lenn = len as int;
                        let fb = pos_b as int;
                        let fi = pos_i as int;
                        assert(ob <= fb < lenn && fi <= 42 && (fb == ob ==> oi <= fi));
                        if fb == ob {
                            assert((lenn - fb - 1) * 43 + 43 - (fi + 1) < (lenn - ob - 1) * 43 + 43
                                - oi);
                        } else {
                            assert(lenn - fb - 1 <= lenn - ob - 2);
                            assert((lenn - fb - 1) * 43 <= (lenn - ob - 2) * 43) by (nonlinear_arith)
                                requires
                                    lenn - fb - 1 <= lenn - ob - 2,
                            ;
                            assert((lenn - fb - 1) * 43 + 43 - (fi + 1) < (lenn - ob - 1) * 43 + 43
                                - oi);
                        }
                    }
                    let mut placed_bricks = clone_patterns(&self.board.placed_bricks);
                    placed_bricks.push(indexed_brick_pattern);
                    let nb = Board { bitboard: self.board.bitboard | indexed_brick_pattern, placed_bricks };
                    proof {
                        lemma_new_board_wf(self.board, indexed_brick_pattern, &nb);
                    }
                    return Some(nb);
                }
                proof {
                    crate::bits::lemma_and_comm(bb, indexed_brick_pattern);
                    assert(ff == first_fit(bb, vars, pos_b, pos_i + 1));
                }
            }
            self.index = 0;
            self.brick_index = self.brick_index + 1;
        }
        None
    }
}

impl Board {
    /// Enumerator over every placement of `brick` that fits this board.
    pub fn valid_placements<'a>(&'a self, brick: &'a Brick) -> (it: ValidPlacementIterator<'a>)
        ensures
            it.board == self,
            it.brick == brick,
            it.brick_index == 0,
            it.index == 0,
            it.wf(),
    {
        ValidPlacementIterator::new(self, brick)
    }
}

/// Copies a placement history so the extended board shares nothing with its
/// parent.
fn clone_patterns(v: &Vec<u64>) -> (r: Vec<u64>)
    ensures
        r@ == v@,
{
    let mut r: Vec<u64> = Vec::with_capacity(v.len());
    let mut k: usize = 0;
    while k < v.len()
        invariant
            k <= v.len(),
            r@ == v@.take(k as int),
        decreases v.len() - k,
    {
        r.push(v[k]);
        proof {
            assert(v@.take(k as int).push(v@[k as int]) =~= v@.take(k as int + 1));
        }
        k = k + 1;
    }
    proof {
        assert(v@.take(v@.len() as int) =~= v@);
    }
    r
}

/// Folding a non-colliding pattern into a well-formed board yields a
/// well-formed board whose guard-and-date cells are unchanged.
proof fn lemma_new_board_wf(b: &Board, p: u64, nb: &Board)
    requires
        b.wf(),
        b.bitboard & p == 0,
        nb.bitboard == b.bitboard | p,
        nb.placed_bricks@ == b.placed_bricks@.push(p),
    ensures
        nb.wf(),
        nb.base_mask() == b.base_mask(),
{
    let bb = b.bitboard;
    let u = union_of(b.placed_bricks@);
    lemma_union_push(b.placed_bricks@, p);
    assert forall|i: int| 0 <= i < b.placed_bricks@.len() implies b.placed_bricks@[i] & p == 0 by {
        lemma_member_of_union(b.placed_bricks@, i);
        let q = b.placed_bricks@[i];
        assert(q & p == 0) by (bit_vector)
            requires
                q & u == q,
                u & bb == u,
                bb & p == 0,
        ;
    }
    lemma_pairwise_push(b.placed_bricks@, p);
    assert((u | p) & (bb | p) == (u | p) && (bb | p) & crate::EMPTY_BITBOARD == crate::EMPTY_BITBOARD
        && (bb | p) & !(u | p) == bb & !u) by (bit_vector)
        requires
            u & bb == u,
            bb & p == 0,
            bb & crate::EMPTY_BITBOARD == crate::EMPTY_BITBOARD,
    ;
}

/// Every member of a pattern sequence lies inside the union of the sequence.
proof fn lemma_member_of_union(s: Seq<u64>, i: int)
    requires
        0 <= i < s.len(),
    ensures
        s[i] & union_of(s) == s[i],
    decreases s.len(),
{
    let u = union_of(s.drop_last());
    let l = s.last();
    if i == s.len() - 1 {
        assert(l & (u | l) == l) by (bit_vector);
    } else {
        lemma_member_of_union(s.drop_last(), i);
        let q = s[i];
        assert(q & u == q ==> q & (u | l) == q) by (bit_vector);
    }
}

} // verus!
