//! The search engine: an explicit-stack depth-first search that composes
//! placement enumeration across the brick catalog and lazily yields complete
//! tilings, one per call, with a counter of search states visited.

use crate::EMPTY_BITBOARD;
use crate::bits::{
    lemma_and_comm, lemma_disjoint_of_superset, lemma_or_assoc, lemma_pop_count_max,
    lemma_pop_count_or_disjoint, lemma_pop_count_shr, lemma_union_push, pairwise_disjoint,
    pop_count, union_of,
};
use crate::board::Board;
use crate::brick::{Brick, lemma_shift_ok_at, sizes_sum};
use crate::place::{first_fit, lemma_placements_list_head, placements_list};
use vstd::prelude::*;

verus! {

/// A complete tiling: one placement per brick beyond the starting history,
/// and the number of search states visited up to and including this solution.
pub struct SolvedBoard {
    pub placed_bricks: Vec<u64>,
    pub test_count: u32,
}

/// Bound, plus one, on the number of search states in the subtree of a frame
/// whose next brick is `idx`.
pub open spec fn weight(bricks: Seq<Brick>, idx: nat) -> nat
    decreases bricks.len() - idx,
{
    if idx >= bricks.len() {
        1
    } else {
        1 + (43 * bricks[idx as int].patterns().len() + 1) * weight(bricks, idx + 1)
    }
}

/// Total bound for all pending frames of a stack.
pub open spec fn stack_measure(stack: Seq<(Board, usize)>, bricks: Seq<Brick>) -> nat
    decreases stack.len(),
{
    if stack.len() == 0 {
        0
    } else {
        stack_measure(stack.drop_last(), bricks) + weight(bricks, stack.last().1 as nat)
    }
}

/// Pushing a frame adds its weight to the stack bound.
pub proof fn lemma_stack_measure_push(
    stack: Seq<(Board, usize)>,
    bricks: Seq<Brick>,
    fr: (Board, usize),
)
    ensures
        stack_measure(stack.push(fr), bricks) == stack_measure(stack, bricks) + weight(
            bricks,
            fr.1 as nat,
        ),
{
    assert(stack.push(fr).drop_last() =~= stack);
}

/// Spec-level image of one pending frame: occupancy mask, placement history
/// and index of the next catalog brick.
pub open spec fn frame_model(fr: (Board, usize)) -> (u64, Seq<u64>, nat) {
    (fr.0.bitboard, fr.0.placed_bricks@, fr.1 as nat)
}

/// Spec-level image of the whole stack.
pub open spec fn stack_model(s: Seq<(Board, usize)>) -> Seq<(u64, Seq<u64>, nat)> {
    s.map_values(|fr: (Board, usize)| frame_model(fr))
}

/// Spec-level image of the catalog: each brick as its pattern list.
pub open spec fn bricks_model(bs: Seq<Brick>) -> Seq<Seq<u64>> {
    bs.map_values(|b: Brick| b.patterns())
}

/// The exploration counter sticks at its ceiling instead of wrapping.
pub open spec fn sat_inc(c: u32) -> u32 {
    if c < u32::MAX {
        (c + 1) as u32
    } else {
        c
    }
}

/// The frames a popped frame spawns, one per placement of `vars` on `bb` at
/// or after `(bi, idx)`, in enumeration order.
pub open spec fn child_frames_from(
    bb: u64,
    placed: Seq<u64>,
    nexti: nat,
    vars: Seq<u64>,
    bi: nat,
    idx: nat,
) -> Seq<(u64, Seq<u64>, nat)> {
    placements_list(bb, vars, bi, idx).map_values(
        |p: u64| (bb | p, placed.push(p), nexti),
    )
}

/// What one pop of the stack does.
pub enum StepResult {
    /// The stack was empty: the search is over.
    Exhausted,
    /// The popped frame had no brick left: a solution is emitted.
    Emit(Seq<(u64, Seq<u64>, nat)>, u32, Seq<u64>),
    /// The popped frame spawned the placements of its next brick.
    Continue(Seq<(u64, Seq<u64>, nat)>, u32),
}

/// One step of the search, as a function of the abstract state.
pub open spec fn search_step(
    bricks: Seq<Seq<u64>>,
    stack: Seq<(u64, Seq<u64>, nat)>,
    count: u32,
) -> StepResult {
    if stack.len() == 0 {
        StepResult::Exhausted
    } else {
        let fr = stack.last();
        let rest = stack.drop_last();
        let c = sat_inc(count);
        if fr.2 >= bricks.len() {
            StepResult::Emit(rest, c, fr.1)
        } else {
            StepResult::Continue(
                rest + child_frames_from(fr.0, fr.1, fr.2 + 1, bricks[fr.2 as int], 0, 0),
                c,
            )
        }
    }
}

/// The state after `fuel` continuing steps; `None` if the search emits a
/// solution or runs out before then.
pub open spec fn search_advance(
    bricks: Seq<Seq<u64>>,
    stack: Seq<(u64, Seq<u64>, nat)>,
    count: u32,
    fuel: nat,
) -> Option<(Seq<(u64, Seq<u64>, nat)>, u32)>
    decreases fuel,
{
    if fuel == 0 {
        Some((stack, count))
    } else {
        match search_step(bricks, stack, count) {
            StepResult::Continue(st, c) => search_advance(bricks, st, c, (fuel - 1) as nat),
            _ => None,
        }
    }
}

/// The first outcome the search reaches within `fuel` steps: the remaining
/// stack, the counter, and the emitted solution, if any.
pub open spec fn search_run(
    bricks: Seq<Seq<u64>>,
    stack: Seq<(u64, Seq<u64>, nat)>,
    count: u32,
    fuel: nat,
) -> Option<(Seq<(u64, Seq<u64>, nat)>, u32, Option<Seq<u64>>)>
    decreases fuel,
{
    match search_step(bricks, stack, count) {
        StepResult::Exhausted => Some((stack, count, None)),
        StepResult::Emit(st, c, sol) => Some((st, c, Some(sol))),
        StepResult::Continue(st, c) => if fuel == 0 {
            None
        } else {
            search_run(bricks, st, c, (fuel - 1) as nat)
        },
    }
}

/// `sols` is exactly the sequence of solutions the search emits, in order,
/// from the given state until it is exhausted.
pub open spec fn emits(
    bricks: Seq<Seq<u64>>,
    stack: Seq<(u64, Seq<u64>, nat)>,
    count: u32,
    sols: Seq<Seq<u64>>,
) -> bool
    decreases sols.len(),
{
    if sols.len() == 0 {
        exists|n: nat| #[trigger] search_run(bricks, stack, count, n) matches Some((st, c, sol))
            && sol is None
    } else {
        exists|n: nat| #[trigger] search_run(bricks, stack, count, n) matches Some((st, c, sol))
            && sol == Some(sols.first()) && emits(bricks, st, c, sols.drop_first())
    }
}

/// Continuing steps compose one at a time.
proof fn lemma_advance_compose(
    bricks: Seq<Seq<u64>>,
    s0: Seq<(u64, Seq<u64>, nat)>,
    c0: u32,
    k: nat,
    s1: Seq<(u64, Seq<u64>, nat)>,
    c1: u32,
    s2: Seq<(u64, Seq<u64>, nat)>,
    c2: u32,
)
    requires
        search_advance(bricks, s0, c0, k) == Some((s1, c1)),
        search_step(bricks, s1, c1) == StepResult::Continue(s2, c2),
    ensures
        search_advance(bricks, s0, c0, k + 1) == Some((s2, c2)),
    decreases k,
{
    reveal_with_fuel(search_advance, 3);
    if k == 0 {
    } else {
        match search_step(bricks, s0, c0) {
            StepResult::Continue(st, c) => {
                lemma_advance_compose(bricks, st, c, (k - 1) as nat, s1, c1, s2, c2);
            },
            _ => {
                assert(false);
            },
        }
    }
}

/// An outcome reached after continuing steps is the outcome of the start.
proof fn lemma_advance_run(
    bricks: Seq<Seq<u64>>,
    s0: Seq<(u64, Seq<u64>, nat)>,
    c0: u32,
    k: nat,
    s1: Seq<(u64, Seq<u64>, nat)>,
    c1: u32,
)
    requires
        search_advance(bricks, s0, c0, k) == Some((s1, c1)),
    ensures
        search_run(bricks, s0, c0, k) == search_run(bricks, s1, c1, 0),
    decreases k,
{
    if k == 0 {
    } else {
        match search_step(bricks, s0, c0) {
            StepResult::Continue(st, c) => {
                lemma_advance_run(bricks, st, c, (k - 1) as nat, s1, c1);
            },
            _ => {
                assert(false);
            },
        }
    }
}

/// The search is deterministic: from one state, any two fuel values that
/// reach an outcome reach the same outcome. Since building a board for a
/// date is a function of the day and month alone, solving one date twice
/// yields the same solutions in the same order with the same counters.
pub proof fn lemma_search_run_deterministic(
    bricks: Seq<Seq<u64>>,
    stack: Seq<(u64, Seq<u64>, nat)>,
    count: u32,
    n1: nat,
    n2: nat,
)
    requires
        search_run(bricks, stack, count, n1) is Some,
        search_run(bricks, stack, count, n2) is Some,
    ensures
        search_run(bricks, stack, count, n1) == search_run(bricks, stack, count, n2),
    decreases n1,
{
    match search_step(bricks, stack, count) {
        StepResult::Continue(st, c) => {
            lemma_search_run_deterministic(bricks, st, c, (n1 - 1) as nat, (n2 - 1) as nat);
        },
        _ => {},
    }
}

/// The lazy producer of solutions: pending branches live on an explicit
/// stack, so a consumer may stop after any number of solutions and sibling
/// branches never observe each other's placements.
pub struct SolveIterator<'a> {
    pub stack: Vec<(Board, usize)>,
    pub test_count: u32,
    pub bricks: &'a [Brick],
    /// The occupancy mask and placement history of the board the search
    /// started from; every frame and every solution extends them.
    pub initial: Ghost<(u64, Seq<u64>)>,
}

impl<'a> SolveIterator<'a> {
    /// Occupancy mask of the board the search started from.
    pub open spec fn init_bitboard(&self) -> u64 {
        self.initial@.0
    }

    /// Placement history of the board the search started from.
    pub open spec fn init_placed(&self) -> Seq<u64> {
        self.initial@.1
    }

    /// A pending frame extends the initial board with one placement per
    /// consumed brick: the history grows by exactly `fr.1` patterns, all off
    /// the initial cells, and the occupied-cell count grows by exactly the
    /// sizes of the consumed bricks.
    pub open spec fn frame_inv(&self, fr: (Board, usize)) -> bool {
        let ip = self.init_placed();
        let nw = fr.0.placed_bricks@.skip(ip.len() as int);
        &&& fr.0.wf()
        &&& fr.1 <= self.bricks@.len()
        &&& fr.0.placed_bricks@.len() == ip.len() + fr.1
        &&& fr.0.placed_bricks@.take(ip.len() as int) == ip
        &&& fr.0.bitboard == self.init_bitboard() | union_of(nw)
        &&& pop_count(fr.0.bitboard) == pop_count(self.init_bitboard()) + sizes_sum(
            self.bricks@.take(fr.1 as int),
        )
        &&& forall|k: int|
            ip.len() <= k < fr.0.placed_bricks@.len() ==> #[trigger] fr.0.placed_bricks@[k]
                & self.init_bitboard() == 0
    }

    /// Every pending frame is sound and every brick of the catalog is sound.
    pub open spec fn wf(&self) -> bool {
        &&& forall|k: int| 0 <= k < self.stack@.len() ==> self.frame_inv(#[trigger] self.stack@[k])
        &&& forall|k: int| 0 <= k < self.bricks@.len() ==> (#[trigger] self.bricks@[k]).wf()
    }

    /// How much search work is pending; strictly decreases on every yield.
    pub open spec fn measure(&self) -> nat {
        stack_measure(self.stack@, self.bricks@)
    }

    /// What every yielded solution satisfies: one placement per brick beyond
    /// the initial history, the initial history kept as a prefix, no two
    /// patterns sharing a set bit, every new placement off the initial cells,
    /// and the new placements adding exactly the catalog's cell count on top
    /// of the initial mask.
    pub open spec fn solution_ok(&self, placed: Seq<u64>) -> bool {
        let ip = self.init_placed();
        let nw = placed.skip(ip.len() as int);
        &&& placed.len() == ip.len() + self.bricks@.len()
        &&& placed.take(ip.len() as int) == ip
        &&& pairwise_disjoint(placed)
        &&& forall|k: int|
            ip.len() <= k < placed.len() ==> #[trigger] placed[k] & self.init_bitboard() == 0
        &&& pop_count(self.init_bitboard() | union_of(nw)) == pop_count(self.init_bitboard())
            + sizes_sum(self.bricks@)
        &&& (self.init_bitboard() | union_of(nw)) & EMPTY_BITBOARD == EMPTY_BITBOARD
    }

    /// A fresh search over `bricks`, rooted at `board`.
    pub fn new(board: Board, bricks: &'a [Brick]) -> (it: SolveIterator<'a>)
        requires
            board.wf(),
            forall|k: int| 0 <= k < bricks@.len() ==> (#[trigger] bricks@[k]).wf(),
        ensures
            it.wf(),
            it.bricks == bricks,
            it.test_count == 0,
            it.init_bitboard() == board.bitboard,
            it.init_placed() == board.placed_bricks@,
            it.stack@.len() == 1,
            stack_model(it.stack@) == seq![(board.bitboard, board.placed_bricks@, 0nat)],
    {
        let ghost initial = (board.bitboard, board.placed_bricks@);
        let mut initial_stack: Vec<(Board, usize)> = Vec::with_capacity(256);
        initial_stack.push((board, 0));
        let it = SolveIterator { stack: initial_stack, test_count: 0, bricks, initial: Ghost(initial) };
        proof {
            let fr = it.stack@[0];
            let n = fr.0.placed_bricks@.len() as int;
            assert(fr.0.placed_bricks@.take(n) =~= fr.0.placed_bricks@);
            assert(fr.0.placed_bricks@.skip(n) =~= Seq::<u64>::empty());
            let bbv = fr.0.bitboard;
            assert(bbv | 0u64 == bbv) by (bit_vector);
            assert(it.bricks@.take(0) =~= Seq::<Brick>::empty());
            assert(it.frame_inv(fr));
            assert(stack_model(it.stack@) =~= seq![
                (fr.0.bitboard, fr.0.placed_bricks@, 0nat),
            ]);
        }
        it
    }

    /// Resumes the search where the previous call left off and yields the
    /// next complete tiling, or `None` once every branch is exhausted. The
    /// state counter never decreases, and each solution reports the counter
    /// at the moment it was found.
    pub fn next(&mut self) -> (r: Option<SolvedBoard>)
        requires
            old(self).wf(),
        ensures
            final(self).wf(),
            final(self).bricks == old(self).bricks,
            final(self).initial == old(self).initial,
            final(self).test_count >= old(self).test_count,
            final(self).measure() <= old(self).measure(),
            match r {
                None => final(self).stack@.len() == 0,
                Some(sb) => {
                    &&& sb.test_count == final(self).test_count
                    &&& final(self).measure() < old(self).measure()
                    &&& old(self).solution_ok(sb.placed_bricks@)
                },
            },
            exists|n: nat|
                search_run(
                    bricks_model(old(self).bricks@),
                    stack_model(old(self).stack@),
                    old(self).test_count,
                    n,
                ) == Some(
                    (
                        stack_model(final(self).stack@),
                        final(self).test_count,
                        match r {
                            None => Option::<Seq<u64>>::None,
                            Some(sb) => Some(sb.placed_bricks@),
                        },
                    ),
                ),
    {
        proof {
            assert(search_advance(
                bricks_model(self.bricks@),
                stack_model(self.stack@),
                self.test_count,
                0,
            ) == Some((stack_model(self.stack@), self.test_count)));
        }
        while self.stack.len() > 0
            invariant
                self.wf(),
                self.bricks == old(self).bricks,
                self.initial == old(self).initial,
                self.test_count >= old(self).test_count,
                self.measure() <= old(self).measure(),
                exists|k: nat|
                    search_advance(
                        bricks_model(old(self).bricks@),
                        stack_model(old(self).stack@),
                        old(self).test_count,
                        k,
                    ) == Some((stack_model(self.stack@), self.test_count)),
            decreases self.measure(),
        {
            let ghost m0 = self.measure();
            let ghost bm = bricks_model(old(self).bricks@);
            let ghost sm0 = stack_model(old(self).stack@);
            let ghost c0 = old(self).test_count;
            let ghost sm_top = stack_model(self.stack@);
            let ghost c_top = self.test_count;
            let ghost k0 = choose|k: nat|
                search_advance(bm, sm0, c0, k) == Some((sm_top, c_top));
            let popped = self.stack.pop();
            let (current_board, idx) = match popped {
                Some(fr) => fr,
                None => {
                    proof {
                        assert(false);
                    }
                    return None;
                },
            };
            proof {
                assert(self.frame_inv((current_board, idx)));
                assert(self.measure() + weight(self.bricks@, idx as nat) == m0);
                assert(sm_top.drop_last() =~= stack_model(self.stack@));
                assert(sm_top.last() == frame_model((current_board, idx)));
            }
            if self.test_count < u32::MAX {
                self.test_count = self.test_count + 1;
            }
            if idx == self.bricks.len() {
                proof {
                    assert(self.bricks@.take(idx as int) =~= self.bricks@);
                    assert(weight(self.bricks@, idx as nat) == 1);
                    assert(old(self).solution_ok(current_board.placed_bricks@));
                    assert(search_step(bm, sm_top, c_top) == StepResult::Emit(
                        stack_model(self.stack@),
                        self.test_count,
                        current_board.placed_bricks@,
                    ));
                    lemma_advance_run(bm, sm0, c0, k0, sm_top, c_top);
                    assert(search_run(bm, sm0, c0, k0) == Some(
                        (
                            stack_model(self.stack@),
                            self.test_count,
                            Some(current_board.placed_bricks@),
                        ),
                    ));
                }
                return Some(
                    SolvedBoard {
                        placed_bricks: current_board.placed_bricks,
                        test_count: self.test_count,
                    },
                );
            }
            let bricks_ref = self.bricks;
            let brick = &bricks_ref[idx];
            let ghost cb = current_board;
            let mut valid_placements = current_board.valid_placements(brick);
            let ghost wnext = weight(self.bricks@, idx as nat + 1);
            let ghost nvar = brick.patterns().len() as int;
            let ghost pats = brick.patterns();
            let ghost placed0 = cb.placed_bricks@;
            let ghost target = sm_top.drop_last() + child_frames_from(
                cb.bitboard,
                placed0,
                idx as nat + 1,
                pats,
                0,
                0,
            );
            proof {
                assert(brick.wf());
                assert(nvar >= 1);
                assert(weight(self.bricks@, idx as nat) == 1 + (43 * nvar + 1) * wnext);
                assert(valid_placements.remaining() == (nvar - 1) * 43 + 43);
                assert((nvar - 1) * 43 + 43 == 43 * nvar);
                assert((43 * nvar + 1) * wnext == 43 * nvar * wnext + wnext) by (nonlinear_arith);
                assert(43 * nvar * wnext == (43 * nvar) * wnext) by (nonlinear_arith);
                assert(self.measure() + valid_placements.remaining() * wnext <= m0 - 1);
                assert(bm[idx as int] == pats);
                assert(stack_model(self.stack@) + child_frames_from(
                    cb.bitboard,
                    placed0,
                    idx as nat + 1,
                    pats,
                    0,
                    0,
                ) == target);
            }
            loop
                invariant_except_break
                    valid_placements.wf(),
                    valid_placements.board.wf(),
                    valid_placements.board.bitboard == cb.bitboard,
                    valid_placements.board.placed_bricks@ == cb.placed_bricks@,
                    *valid_placements.brick == self.bricks@[idx as int],
                    idx < self.bricks@.len(),
                    idx < usize::MAX,
                    self.wf(),
                    self.bricks == old(self).bricks,
                    self.initial == old(self).initial,
                    self.test_count >= old(self).test_count,
                    self.frame_inv((cb, idx)),
                    wnext == weight(self.bricks@, idx as nat + 1),
                    self.measure() + valid_placements.remaining() * wnext <= m0 - 1,
                    m0 <= old(self).measure(),
                    bm == bricks_model(old(self).bricks@),
                    sm0 == stack_model(old(self).stack@),
                    c0 == old(self).test_count,
                    search_advance(bm, sm0, c0, k0) == Some((sm_top, c_top)),
                    sm_top.len() >= 1,
                    sm_top.last() == (cb.bitboard, cb.placed_bricks@, idx as nat),
                    bm[idx as int] == pats,
                    pats == (*valid_placements.brick).patterns(),
                    placed0 == cb.placed_bricks@,
                    self.test_count == sat_inc(c_top),
                    target == sm_top.drop_last() + child_frames_from(
                        cb.bitboard,
                        placed0,
                        idx as nat + 1,
                        pats,
                        0,
                        0,
                    ),
                    stack_model(self.stack@) + child_frames_from(
                        cb.bitboard,
                        placed0,
                        idx as nat + 1,
                        pats,
                        valid_placements.brick_index as nat,
                        valid_placements.index as nat,
                    ) == target,
                ensures
                    self.wf(),
                    self.bricks == old(self).bricks,
                    self.initial == old(self).initial,
                    self.test_count >= old(self).test_count,
                    self.measure() <= m0 - 1,
                    self.test_count == sat_inc(c_top),
                    stack_model(self.stack@) == target,
                decreases valid_placements.remaining(),
            {
                let ghost it_pre = valid_placements;
                let ghost rem_pre = valid_placements.remaining();
                let next_board = valid_placements.next();
                match next_board {
                    None => {
                        proof {
                            assert(rem_pre >= 0);
                            assert(rem_pre * wnext >= 0) by (nonlinear_arith)
                                requires
                                    rem_pre >= 0,
                                    wnext >= 0,
                            ;
                            lemma_placements_list_head(
                                cb.bitboard,
                                pats,
                                it_pre.brick_index as nat,
                                it_pre.index as nat,
                            );
                            assert(child_frames_from(
                                cb.bitboard,
                                placed0,
                                idx as nat + 1,
                                pats,
                                it_pre.brick_index as nat,
                                it_pre.index as nat,
                            ) =~= Seq::<(u64, Seq<u64>, nat)>::empty());
                            assert(stack_model(self.stack@) =~= target);
                        }
                        break ;
                    },
                    Some(nb) => {
                        proof {
                            lemma_push_frame_inv(self, &cb, idx, &it_pre, &nb);
                        }
                        let ghost pre_stack = self.stack@;
                        self.stack.push((nb, idx + 1));
                        proof {
                            lemma_stack_measure_push(pre_stack, self.bricks@, (nb, (idx + 1) as usize));
                            assert forall|k: int|
                                0 <= k < self.stack@.len() implies self.frame_inv(
                                #[trigger] self.stack@[k],
                            ) by {
                                if k < pre_stack.len() {
                                    assert(self.stack@[k] == pre_stack[k]);
                                } else {
                                    assert(self.stack@[k] == (nb, (idx + 1) as usize));
                                }
                            }
                            lemma_placements_list_head(
                                cb.bitboard,
                                pats,
                                it_pre.brick_index as nat,
                                it_pre.index as nat,
                            );
                            let ff = first_fit(
                                cb.bitboard,
                                pats,
                                it_pre.brick_index as nat,
                                it_pre.index as nat,
                            );
                            let pos = ff->0;
                            let p = pats[pos.0 as int] >> (pos.1 as u64);
                            assert(child_frames_from(
                                cb.bitboard,
                                placed0,
                                idx as nat + 1,
                                pats,
                                it_pre.brick_index as nat,
                                it_pre.index as nat,
                            ) =~= seq![(cb.bitboard | p, placed0.push(p), idx as nat + 1)]
                                + child_frames_from(
                                cb.bitboard,
                                placed0,
                                idx as nat + 1,
                                pats,
                                pos.0,
                                pos.1 + 1,
                            ));
                            assert(stack_model(self.stack@) =~= stack_model(pre_stack) + seq![
                                (cb.bitboard | p, placed0.push(p), idx as nat + 1),
                            ]);
                            assert(stack_model(self.stack@) + child_frames_from(
                                cb.bitboard,
                                placed0,
                                idx as nat + 1,
                                pats,
                                valid_placements.brick_index as nat,
                                valid_placements.index as nat,
                            ) =~= target);
                            let rem_post = valid_placements.remaining();
                            assert(rem_post <= rem_pre - 1);
                            assert(rem_post * wnext <= (rem_pre - 1) * wnext) by (nonlinear_arith)
                                requires
                                    rem_post <= rem_pre - 1,
                                    wnext >= 0,
                            ;
                            assert((rem_pre - 1) * wnext == rem_pre * wnext - wnext)
                                by (nonlinear_arith);
                        }
                    },
                }
            }
            proof {
                assert(search_step(bm, sm_top, c_top) == StepResult::Continue(
                    stack_model(self.stack@),
                    self.test_count,
                ));
                lemma_advance_compose(
                    bm,
                    sm0,
                    c0,
                    k0,
                    sm_top,
                    c_top,
                    stack_model(self.stack@),
                    self.test_count,
                );
            }
        }
        proof {
            let bmx = bricks_model(old(self).bricks@);
            let smx = stack_model(old(self).stack@);
            let k1 = choose|k: nat|
                search_advance(bmx, smx, old(self).test_count, k) == Some(
                    (stack_model(self.stack@), self.test_count),
                );
            assert(stack_model(self.stack@) =~= Seq::<(u64, Seq<u64>, nat)>::empty());
            lemma_advance_run(
                bmx,
                smx,
                old(self).test_count,
                k1,
                stack_model(self.stack@),
                self.test_count,
            );
            assert(search_run(bmx, smx, old(self).test_count, k1) == Some(
                (stack_model(self.stack@), self.test_count, Option::<Seq<u64>>::None),
            ));
        }
        None
    }
}

/// A board yielded by the placement enumerator is a sound frame for the next
/// brick: its one new pattern is brick-sized, off the initial cells, and the
/// occupancy accounting extends by exactly that brick.
proof fn lemma_push_frame_inv(
    it: &SolveIterator<'_>,
    cb: &Board,
    idx: usize,
    enum_pre: &crate::place::ValidPlacementIterator<'_>,
    nb: &Board,
)
    requires
        it.wf(),
        idx < it.bricks@.len(),
        idx + 1 <= usize::MAX,
        it.frame_inv((*cb, idx)),
        enum_pre.wf(),
        *enum_pre.brick == it.bricks@[idx as int],
        enum_pre.board.bitboard == cb.bitboard,
        enum_pre.board.placed_bricks@ == cb.placed_bricks@,
        first_fit(
            enum_pre.board.bitboard,
            enum_pre.brick.patterns(),
            enum_pre.brick_index as nat,
            enum_pre.index as nat,
        ) is Some,
        ({
            let ff = first_fit(
                enum_pre.board.bitboard,
                enum_pre.brick.patterns(),
                enum_pre.brick_index as nat,
                enum_pre.index as nat,
            );
            let (b, i) = ff->0;
            let p = enum_pre.brick.patterns()[b as int] >> (i as u64);
            &&& b < enum_pre.brick.patterns().len()
            &&& i <= 42
            &&& p & enum_pre.board.bitboard == 0
            &&& nb.bitboard == enum_pre.board.bitboard | p
            &&& nb.placed_bricks@ == enum_pre.board.placed_bricks@.push(p)
            &&& nb.wf()
        }),
    ensures
        it.frame_inv((*nb, (idx + 1) as usize)),
{
    let ip = it.init_placed();
    let n = ip.len() as int;
    let bb = cb.bitboard;
    let init = it.init_bitboard();
    let vars = enum_pre.brick.patterns();
    let ff = first_fit(bb, vars, enum_pre.brick_index as nat, enum_pre.index as nat);
    let (b, i) = ff->0;
    let v = vars[b as int];
    let p = v >> (i as u64);
    let u = union_of(cb.placed_bricks@.skip(n));

    // prefix and suffix of the extended history
    assert(nb.placed_bricks@.take(n) =~= cb.placed_bricks@.take(n));
    assert(nb.placed_bricks@.skip(n) =~= cb.placed_bricks@.skip(n).push(p));
    lemma_union_push(cb.placed_bricks@.skip(n), p);

    // occupancy equation
    lemma_or_assoc(init, u, p);
    assert(nb.bitboard == init | union_of(nb.placed_bricks@.skip(n)));

    // the new pattern is exactly brick-sized: it avoids the guards, so the
    // shift that produced it dropped no bit
    let brick = it.bricks@[idx as int];
    assert(brick.wf());
    assert(vars[b as int] == brick.brick_variants@[b as int].bit_pattern);
    assert(crate::brick::variant_ok(v));
    lemma_shift_ok_at(v, 43, i as u64);
    lemma_disjoint_of_superset(p, bb, EMPTY_BITBOARD);
    assert((p >> 0u64) == p) by (bit_vector);
    assert(((v >> (i as u64)) << (i as u64)) == v);
    lemma_pop_count_shr(v, i as u64);
    assert(pop_count(p) == brick.size());

    // occupied-cell accounting
    lemma_and_comm(p, bb);
    lemma_pop_count_or_disjoint(bb, p);
    assert(it.bricks@.take(idx + 1).drop_last() =~= it.bricks@.take(idx as int));
    assert(it.bricks@.take(idx + 1).last() == brick);
    assert(sizes_sum(it.bricks@.take(idx + 1)) == sizes_sum(it.bricks@.take(idx as int))
        + brick.size());

    // every new pattern avoids the initial cells
    lemma_or_assoc(init, u, p);
    assert(bb & init == init) by {
        assert((init | u) & init == init) by (bit_vector);
    }
    lemma_disjoint_of_superset(p, bb, init);
    assert forall|k: int|
        n <= k < nb.placed_bricks@.len() implies #[trigger] nb.placed_bricks@[k] & init == 0 by {
        if k < cb.placed_bricks@.len() {
            assert(cb.placed_bricks@[k] & init == 0);
        } else {
            assert(nb.placed_bricks@[k] == p);
        }
    }
}

/// Exact cover: a solution found for a date board tiles the whole grid. The
/// union of its placements, together with the date board's mask, covers all
/// 64 bit addresses, and no two placements share a set bit.
pub proof fn lemma_solution_exact_cover(it: &SolveIterator<'_>, placed: Seq<u64>)
    requires
        it.solution_ok(placed),
        it.init_placed().len() == 0,
        pop_count(it.init_bitboard()) == 23,
        sizes_sum(it.bricks@) == 41,
    ensures
        it.init_bitboard() | union_of(placed) == u64::MAX,
        pairwise_disjoint(placed),
        placed.len() == it.bricks@.len(),
{
    assert(placed.skip(0) =~= placed);
    lemma_pop_count_max(it.init_bitboard() | union_of(placed));
}

/// Searches for every complete tiling of `initial_board` with the catalog
/// `bricks`: the returned iterator yields each `SolvedBoard` on demand.
pub fn solve<'a>(initial_board: Board, bricks: &'a [Brick]) -> (it: SolveIterator<'a>)
    requires
        initial_board.wf(),
        forall|k: int| 0 <= k < bricks@.len() ==> (#[trigger] bricks@[k]).wf(),
    ensures
        it.wf(),
        it.bricks == bricks,
        it.test_count == 0,
        it.init_bitboard() == initial_board.bitboard,
        it.init_placed() == initial_board.placed_bricks@,
        it.stack@.len() == 1,
        stack_model(it.stack@) == seq![(initial_board.bitboard, initial_board.placed_bricks@, 0nat)],
{
    SolveIterator::new(initial_board, bricks)
}

} // verus!
