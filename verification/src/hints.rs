//! Hint ranking: counts, for every placement pattern appearing in any
//! complete solution, how many times it occurs across the whole solution set,
//! and ranks the patterns by descending occurrence count.

use crate::board::Board;
use crate::brick::Brick;
use crate::search::{SolveIterator, bricks_model, emits, stack_model};
use vstd::prelude::*;

verus! {

/// One ranked placement: a pattern and how many complete solutions use it.
#[derive(Debug, Clone, Copy)]
pub struct Hint {
    pub brick: u64,
    pub solutions: usize,
}

/// Total of all occurrence counts in a ranking.
pub open spec fn counts_sum(s: Seq<Hint>) -> int
    decreases s.len(),
{
    if s.len() == 0 {
        0
    } else {
        counts_sum(s.drop_last()) + s.last().solutions
    }
}

/// Number of occurrences of `p` in a pattern sequence.
pub open spec fn pat_count(s: Seq<u64>, p: u64) -> nat
    decreases s.len(),
{
    if s.len() == 0 {
        0
    } else {
        pat_count(s.drop_last(), p) + if s.last() == p {
            1nat
        } else {
            0nat
        }
    }
}

/// Occurrence counts never increase along the ranking.
pub open spec fn sorted_desc(s: Seq<Hint>) -> bool {
    forall|i: int, j: int| 0 <= i < j < s.len() ==> s[i].solutions >= s[j].solutions
}

/// No pattern appears twice in the ranking.
pub open spec fn distinct_bricks(s: Seq<Hint>) -> bool {
    forall|i: int, j: int| 0 <= i < j < s.len() ==> s[i].brick != s[j].brick
}

/// `hints` is the ranking of `patterns`: one entry per distinct pattern with
/// its exact occurrence count, every pattern ranked, counts totalling the
/// number of patterns, ordered by descending count.
pub open spec fn ranks(hints: Seq<Hint>, patterns: Seq<u64>) -> bool {
    &&& counts_sum(hints) == patterns.len()
    &&& sorted_desc(hints)
    &&& distinct_bricks(hints)
    &&& forall|i: int|
        0 <= i < hints.len() ==> (#[trigger] hints[i]).solutions == pat_count(
            patterns,
            hints[i].brick,
        ) && 1 <= hints[i].solutions
    &&& forall|j: int|
        0 <= j < patterns.len() ==> exists|i: int|
            0 <= i < hints.len() && (#[trigger] hints[i]).brick == #[trigger] patterns[j]
}

/// Replacing one entry moves the total by the difference of the two counts.
proof fn lemma_counts_sum_update(s: Seq<Hint>, j: int, h: Hint)
    requires
        0 <= j < s.len(),
    ensures
        counts_sum(s.update(j, h)) == counts_sum(s) + h.solutions - s[j].solutions,
    decreases s.len(),
{
    if j == s.len() - 1 {
        assert(s.update(j, h).drop_last() =~= s.drop_last());
    } else {
        assert(s.update(j, h).drop_last() =~= s.drop_last().update(j, h));
        lemma_counts_sum_update(s.drop_last(), j, h);
    }
}

/// Inserting an entry adds its count to the total.
proof fn lemma_counts_sum_insert(s: Seq<Hint>, j: int, h: Hint)
    requires
        0 <= j <= s.len(),
    ensures
        counts_sum(s.insert(j, h)) == counts_sum(s) + h.solutions,
    decreases s.len(),
{
    if j == s.len() {
        assert(s.insert(j, h) =~= s.push(h));
        assert(s.push(h).drop_last() =~= s);
    } else {
        assert(s.insert(j, h).drop_last() =~= s.drop_last().insert(j, h));
        assert(s.insert(j, h).last() == s.last());
        lemma_counts_sum_insert(s.drop_last(), j, h);
    }
}

/// Appending a pattern bumps exactly its own count.
proof fn lemma_pat_count_push(s: Seq<u64>, x: u64, p: u64)
    ensures
        pat_count(s.push(x), p) == pat_count(s, p) + if x == p {
            1nat
        } else {
            0nat
        },
{
    assert(s.push(x).drop_last() =~= s);
}

/// Index of the entry for pattern `p`, if one exists.
fn find_brick(table: &Vec<Hint>, p: u64) -> (r: Option<usize>)
    ensures
        match r {
            Some(j) => j < table@.len() && table@[j as int].brick == p,
            None => forall|i: int| 0 <= i < table@.len() ==> table@[i].brick != p,
        },
{
    let mut j: usize = 0;
    while j < table.len()
        invariant
            j <= table@.len(),
            forall|i: int| 0 <= i < j ==> table@[i].brick != p,
        decreases table@.len() - j,
    {
        if table[j].brick == p {
            return Some(j);
        }
        j = j + 1;
    }
    None
}

/// Tallies the patterns into one entry per distinct pattern, each carrying
/// its exact occurrence count; the counts total the number of patterns.
fn tally_patterns(patterns: &Vec<u64>) -> (table: Vec<Hint>)
    ensures
        counts_sum(table@) == patterns@.len(),
        distinct_bricks(table@),
        forall|i: int|
            0 <= i < table@.len() ==> (#[trigger] table@[i]).solutions == pat_count(
                patterns@,
                table@[i].brick,
            ) && 1 <= table@[i].solutions,
        forall|j: int|
            0 <= j < patterns@.len() ==> exists|i: int|
                0 <= i < table@.len() && (#[trigger] table@[i]).brick == #[trigger] patterns@[j],
{
    let mut table: Vec<Hint> = Vec::new();
    let mut k: usize = 0;
    proof {
        assert(patterns@.take(0) =~= Seq::<u64>::empty());
    }
    while k < patterns.len()
        invariant
            k <= patterns@.len(),
            counts_sum(table@) == k,
            distinct_bricks(table@),
            forall|i: int|
                0 <= i < table@.len() ==> (#[trigger] table@[i]).solutions == pat_count(
                    patterns@.take(k as int),
                    table@[i].brick,
                ) && 1 <= table@[i].solutions && table@[i].solutions <= k,
            forall|j: int|
                0 <= j < k ==> exists|i: int|
                    0 <= i < table@.len() && (#[trigger] table@[i]).brick == #[trigger] patterns@[j],
        decreases patterns@.len() - k,
    {
        let p = patterns[k];
        let ghost pre = table@;
        let ghost taken = patterns@.take(k as int);
        proof {
            assert(patterns@.take(k as int + 1) =~= taken.push(p));
        }
        match find_brick(&table, p) {
            Some(j) => {
                let c = table[j].solutions;
                table[j] = Hint { brick: p, solutions: c + 1 };
                proof {
                    lemma_counts_sum_update(pre, j as int, Hint { brick: p, solutions: (c + 1) as usize });
                    assert forall|i: int|
                        0 <= i < table@.len() implies (#[trigger] table@[i]).solutions == pat_count(
                        taken.push(p),
                        table@[i].brick,
                    ) && 1 <= table@[i].solutions && table@[i].solutions <= k + 1 by {
                        lemma_pat_count_push(taken, p, table@[i].brick);
                        if i != j {
                            assert(table@[i] == pre[i]);
                            assert(pre[i].brick != p);
                        }
                    }
                    assert forall|jj: int|
                        0 <= jj < k + 1 implies exists|i: int|
                        0 <= i < table@.len() && (#[trigger] table@[i]).brick == #[trigger] patterns@[jj] by {
                        if jj < k {
                            let i0 = choose|i0: int|
                                0 <= i0 < pre.len() && (#[trigger] pre[i0]).brick
                                    == patterns@[jj];
                            assert(table@[i0].brick == patterns@[jj]);
                        } else {
                            assert(table@[j as int].brick == patterns@[jj]);
                        }
                    }
                }
            },
            None => {
                table.push(Hint { brick: p, solutions: 1 });
                proof {
                    assert(table@.drop_last() =~= pre);
                    assert forall|i: int|
                        0 <= i < table@.len() implies (#[trigger] table@[i]).solutions == pat_count(
                        taken.push(p),
                        table@[i].brick,
                    ) && 1 <= table@[i].solutions && table@[i].solutions <= k + 1 by {
                        lemma_pat_count_push(taken, p, table@[i].brick);
                        if i < pre.len() {
                            assert(table@[i] == pre[i]);
                            assert(pre[i].brick != p);
                        } else {
                            assert(table@[i].brick == p);
                            assert(pat_count(taken, p) == 0) by {
                                lemma_pat_count_zero(taken, patterns@, k as int, pre, p);
                            }
                        }
                    }
                    assert forall|jj: int|
                        0 <= jj < k + 1 implies exists|i: int|
                        0 <= i < table@.len() && (#[trigger] table@[i]).brick == #[trigger] patterns@[jj] by {
                        if jj < k {
                            let i0 = choose|i0: int|
                                0 <= i0 < pre.len() && (#[trigger] pre[i0]).brick
                                    == patterns@[jj];
                            assert(table@[i0].brick == patterns@[jj]);
                        } else {
                            assert(table@[pre.len() as int].brick == patterns@[jj]);
                        }
                    }
                    assert(distinct_bricks(table@));
                }
            },
        }
        k = k + 1;
    }
    proof {
        assert(patterns@.take(patterns@.len() as int) =~= patterns@);
    }
    table
}

/// A pattern that no processed position carries and no table entry carries
/// occurs zero times in the processed prefix.
proof fn lemma_pat_count_zero(taken: Seq<u64>, patterns: Seq<u64>, k: int, table: Seq<Hint>, p: u64)
    requires
        0 <= k <= patterns.len(),
        taken == patterns.take(k),
        forall|i: int| 0 <= i < table.len() ==> table[i].brick != p,
        forall|j: int|
            0 <= j < k ==> exists|i: int|
                0 <= i < table.len() && (#[trigger] table[i]).brick == #[trigger] patterns[j],
    ensures
        pat_count(taken, p) == 0,
    decreases k,
{
    if k > 0 {
        assert(taken.last() == patterns[k - 1]);
        let pk = patterns[k - 1];
        let i0 = choose|i0: int| 0 <= i0 < table.len() && (#[trigger] table[i0]).brick == pk;
        assert(patterns[k - 1] != p);
        assert(taken.drop_last() =~= patterns.take(k - 1));
        lemma_pat_count_zero(patterns.take(k - 1), patterns, k - 1, table, p);
    }
}

/// Where `h` belongs in a ranking sorted by descending count.
fn insert_pos(out: &Vec<Hint>, h: Hint) -> (pos: usize)
    ensures
        pos <= out@.len(),
        forall|i: int| 0 <= i < pos ==> (#[trigger] out@[i]).solutions >= h.solutions,
        pos < out@.len() ==> out@[pos as int].solutions < h.solutions,
{
    let mut pos: usize = 0;
    while pos < out.len()
        invariant
            pos <= out@.len(),
            forall|i: int| 0 <= i < pos ==> (#[trigger] out@[i]).solutions >= h.solutions,
        decreases out@.len() - pos,
    {
        if out[pos].solutions < h.solutions {
            return pos;
        }
        pos = pos + 1;
    }
    pos
}

/// Occurrences of the exact entry `x` in a ranking.
pub open spec fn hint_count(s: Seq<Hint>, x: Hint) -> nat
    decreases s.len(),
{
    if s.len() == 0 {
        0
    } else {
        hint_count(s.drop_last(), x) + if s.last() == x {
            1nat
        } else {
            0nat
        }
    }
}

/// Appending an entry bumps exactly its own occurrence count.
proof fn lemma_hint_count_push(s: Seq<Hint>, h: Hint, x: Hint)
    ensures
        hint_count(s.push(h), x) == hint_count(s, x) + if h == x {
            1nat
        } else {
            0nat
        },
{
    assert(s.push(h).drop_last() =~= s);
}

/// Inserting an entry anywhere bumps exactly its own occurrence count.
proof fn lemma_hint_count_insert(s: Seq<Hint>, pos: int, h: Hint, x: Hint)
    requires
        0 <= pos <= s.len(),
    ensures
        hint_count(s.insert(pos, h), x) == hint_count(s, x) + if h == x {
            1nat
        } else {
            0nat
        },
    decreases s.len(),
{
    if pos == s.len() {
        assert(s.insert(pos, h) =~= s.push(h));
        lemma_hint_count_push(s, h, x);
    } else {
        assert(s.insert(pos, h).drop_last() =~= s.drop_last().insert(pos, h));
        assert(s.insert(pos, h).last() == s.last());
        lemma_hint_count_insert(s.drop_last(), pos, h, x);
    }
}

/// An indexed entry occurs at least once.
proof fn lemma_hint_count_index(s: Seq<Hint>, i: int)
    requires
        0 <= i < s.len(),
    ensures
        hint_count(s, s[i]) >= 1,
    decreases s.len(),
{
    if i < s.len() - 1 {
        lemma_hint_count_index(s.drop_last(), i);
    }
}

/// An entry that occurs sits at some index.
proof fn lemma_hint_count_member(s: Seq<Hint>, x: Hint)
    requires
        hint_count(s, x) >= 1,
    ensures
        exists|i: int| 0 <= i < s.len() && s[i] == x,
    decreases s.len(),
{
    if s.last() == x {
        assert(s[s.len() - 1] == x);
    } else {
        lemma_hint_count_member(s.drop_last(), x);
        let i = choose|i: int| 0 <= i < s.drop_last().len() && s.drop_last()[i] == x;
        assert(s[i] == x);
    }
}

/// Two positions holding the same entry make it occur at least twice.
proof fn lemma_hint_count_twice(s: Seq<Hint>, a: int, b: int)
    requires
        0 <= a < b < s.len(),
        s[a] == s[b],
    ensures
        hint_count(s, s[a]) >= 2,
    decreases s.len(),
{
    if b < s.len() - 1 {
        lemma_hint_count_twice(s.drop_last(), a, b);
    } else {
        lemma_hint_count_index(s.drop_last(), a);
    }
}

/// An entry occurring twice sits at two distinct indices.
proof fn lemma_hint_count_two_members(s: Seq<Hint>, x: Hint)
    requires
        hint_count(s, x) >= 2,
    ensures
        exists|a: int, b: int| 0 <= a < b < s.len() && s[a] == x && s[b] == x,
    decreases s.len(),
{
    if s.last() == x {
        if hint_count(s.drop_last(), x) >= 1 {
            lemma_hint_count_member(s.drop_last(), x);
            let a = choose|a: int| 0 <= a < s.drop_last().len() && s.drop_last()[a] == x;
            assert(s[a] == x && s[s.len() - 1] == x);
        } else {
            assert(false);
        }
    } else {
        lemma_hint_count_two_members(s.drop_last(), x);
        let (a, b) = choose|a: int, b: int|
            0 <= a < b < s.drop_last().len() && s.drop_last()[a] == x && s.drop_last()[b] == x;
        assert(s[a] == x && s[b] == x);
    }
}

/// Sorts a tally by descending occurrence count, keeping its entries with
/// their multiplicities, their distinctness and their total.
fn sort_hints(table: &Vec<Hint>) -> (out: Vec<Hint>)
    requires
        distinct_bricks(table@),
        forall|i: int| 0 <= i < table@.len() ==> 1 <= (#[trigger] table@[i]).solutions,
    ensures
        sorted_desc(out@),
        counts_sum(out@) == counts_sum(table@),
        distinct_bricks(out@),
        out@.len() == table@.len(),
        forall|x: Hint| #[trigger] hint_count(out@, x) == hint_count(table@, x),
        forall|i: int| 0 <= i < out@.len() ==> 1 <= (#[trigger] out@[i]).solutions,
{
    let mut out: Vec<Hint> = Vec::new();
    let mut k: usize = 0;
    proof {
        assert(table@.take(0) =~= Seq::<Hint>::empty());
    }
    while k < table.len()
        invariant
            k <= table@.len(),
            sorted_desc(out@),
            counts_sum(out@) == counts_sum(table@.take(k as int)),
            out@.len() == k,
            distinct_bricks(table@),
            forall|i: int| 0 <= i < table@.len() ==> 1 <= (#[trigger] table@[i]).solutions,
            forall|x: Hint| #[trigger] hint_count(out@, x) == hint_count(
                table@.take(k as int),
                x,
            ),
            forall|i: int| 0 <= i < out@.len() ==> 1 <= (#[trigger] out@[i]).solutions,
        decreases table@.len() - k,
    {
        let h = table[k];
        let pos = insert_pos(&out, h);
        let ghost pre = out@;
        out.insert(pos, h);
        proof {
            lemma_counts_sum_insert(pre, pos as int, h);
            assert(table@.take(k as int + 1).drop_last() =~= table@.take(k as int));
            assert(table@.take(k as int + 1).last() == table@[k as int]);
            assert forall|a: int, b: int| 0 <= a < b < out@.len() implies out@[a].solutions
                >= out@[b].solutions by {
                lemma_insert_index(pre, pos as int, h, a);
                lemma_insert_index(pre, pos as int, h, b);
            }
            assert forall|i: int| 0 <= i < out@.len() implies 1 <= (
            #[trigger] out@[i]).solutions by {
                lemma_insert_index(pre, pos as int, h, i);
            }
            assert forall|x: Hint| #[trigger] hint_count(out@, x) == hint_count(
                table@.take(k as int + 1),
                x,
            ) by {
                lemma_hint_count_insert(pre, pos as int, h, x);
                lemma_hint_count_push(table@.take(k as int), h, x);
                assert(table@.take(k as int + 1) =~= table@.take(k as int).push(h));
            }
        }
        k = k + 1;
    }
    proof {
        assert(table@.take(table@.len() as int) =~= table@);
        assert forall|a: int, b: int| 0 <= a < b < out@.len() implies out@[a].brick
            != out@[b].brick by {
            if out@[a].brick == out@[b].brick {
                lemma_hint_count_index(out@, a);
                lemma_hint_count_member(table@, out@[a]);
                lemma_hint_count_index(out@, b);
                lemma_hint_count_member(table@, out@[b]);
                let ja = choose|j: int| 0 <= j < table@.len() && table@[j] == out@[a];
                let jb = choose|j: int| 0 <= j < table@.len() && table@[j] == out@[b];
                if ja == jb {
                    lemma_hint_count_twice(out@, a, b);
                    lemma_hint_count_two_members(table@, out@[a]);
                }
            }
        }
    }
    out
}

/// How indexing reads through `Seq::insert`.
proof fn lemma_insert_index(s: Seq<Hint>, pos: int, h: Hint, i: int)
    requires
        0 <= pos <= s.len(),
        0 <= i < s.len() + 1,
    ensures
        i < pos ==> s.insert(pos, h)[i] == s[i],
        i == pos ==> s.insert(pos, h)[i] == h,
        i > pos ==> s.insert(pos, h)[i] == s[i - 1],
{
}

/// Builds the ranking for a flat sequence of placement patterns: one entry
/// per distinct pattern with its exact occurrence count, ordered by
/// descending count, the counts totalling the number of patterns.
pub fn rank_placements(patterns: &Vec<u64>) -> (hints: Vec<Hint>)
    ensures
        ranks(hints@, patterns@),
        counts_sum(hints@) == patterns@.len(),
        sorted_desc(hints@),
        distinct_bricks(hints@),
        forall|i: int|
            0 <= i < hints@.len() ==> (#[trigger] hints@[i]).solutions == pat_count(
                patterns@,
                hints@[i].brick,
            ) && 1 <= hints@[i].solutions,
        forall|j: int|
            0 <= j < patterns@.len() ==> exists|i: int|
                0 <= i < hints@.len() && (#[trigger] hints@[i]).brick == #[trigger] patterns@[j],
{
    let table = tally_patterns(patterns);
    let out = sort_hints(&table);
    proof {
        assert forall|i: int|
            0 <= i < out@.len() implies (#[trigger] out@[i]).solutions == pat_count(
            patterns@,
            out@[i].brick,
        ) && 1 <= out@[i].solutions by {
            lemma_hint_count_index(out@, i);
            lemma_hint_count_member(table@, out@[i]);
            let j = choose|j: int| 0 <= j < table@.len() && table@[j] == out@[i];
            assert(table@[j].solutions == pat_count(patterns@, table@[j].brick));
        }
        assert forall|j: int|
            0 <= j < patterns@.len() implies exists|i: int|
            0 <= i < out@.len() && (#[trigger] out@[i]).brick == #[trigger] patterns@[j] by {
            let i0 = choose|i0: int|
                0 <= i0 < table@.len() && (#[trigger] table@[i0]).brick == patterns@[j];
            lemma_hint_count_index(table@, i0);
            lemma_hint_count_member(out@, table@[i0]);
            let i1 = choose|i1: int| 0 <= i1 < out@.len() && out@[i1] == table@[i0];
            assert(out@[i1].brick == patterns@[j]);
        }
    }
    out
}

/// Runs the whole search for `board` and ranks every placement that appears
/// in any complete solution by how many times the solutions use it, most
/// frequent first: the result is the ranking of the flattened sequence of
/// solutions the search emits, and the counts total one catalog's worth of
/// placements per solution.
pub fn hints(board: Board, bricks: &[Brick]) -> (hints: Vec<Hint>)
    requires
        board.wf(),
        forall|k: int| 0 <= k < bricks@.len() ==> (#[trigger] bricks@[k]).wf(),
    ensures
        sorted_desc(hints@),
        distinct_bricks(hints@),
        forall|i: int| 0 <= i < hints@.len() ==> 1 <= (#[trigger] hints@[i]).solutions,
        exists|sols: Seq<Seq<u64>>|
            {
                &&& #[trigger] emits(
                    bricks_model(bricks@),
                    seq![(board.bitboard, board.placed_bricks@, 0nat)],
                    0u32,
                    sols,
                )
                &&& ranks(hints@, sols.flatten())
                &&& counts_sum(hints@) == sols.len() * (board.placed_bricks@.len()
                    + bricks@.len())
            },
{
    let ghost b0 = board;
    let ghost bm = bricks_model(bricks@);
    let ghost init_frame = (board.bitboard, board.placed_bricks@, 0nat);
    let ghost per_solution = board.placed_bricks@.len() + bricks@.len();
    let ghost sols: Seq<Seq<u64>> = Seq::empty();
    let mut flat: Vec<u64> = Vec::new();
    let mut solver = SolveIterator::new(board, bricks);
    proof {
        assert(stack_model(solver.stack@) == seq![init_frame]);
        assert(flat@ =~= sols.flatten());
    }
    loop
        invariant_except_break
            solver.wf(),
            solver.bricks == bricks,
            bm == bricks_model(bricks@),
            solver.init_placed().len() == b0.placed_bricks@.len(),
            per_solution == b0.placed_bricks@.len() + bricks@.len(),
            flat@ == sols.flatten(),
            flat@.len() == sols.len() * per_solution,
            forall|rest: Seq<Seq<u64>>|
                #[trigger] emits(bm, stack_model(solver.stack@), solver.test_count, rest)
                    ==> emits(bm, seq![init_frame], 0u32, sols + rest),
        ensures
            flat@ == sols.flatten(),
            flat@.len() == sols.len() * per_solution,
            emits(bm, seq![init_frame], 0u32, sols),
        decreases solver.measure(),
    {
        let ghost sm_pre = stack_model(solver.stack@);
        let ghost c_pre = solver.test_count;
        match solver.next() {
            None => {
                proof {
                    assert(emits(bm, sm_pre, c_pre, Seq::<Seq<u64>>::empty()));
                    assert(sols + Seq::<Seq<u64>>::empty() =~= sols);
                }
                break ;
            },
            Some(solution) => {
                proof {
                    assert forall|rest: Seq<Seq<u64>>|
                        #[trigger] emits(
                            bm,
                            stack_model(solver.stack@),
                            solver.test_count,
                            rest,
                        ) implies emits(
                        bm,
                        seq![init_frame],
                        0u32,
                        sols.push(solution.placed_bricks@) + rest,
                    ) by {
                        let one = seq![solution.placed_bricks@] + rest;
                        assert(one.first() == solution.placed_bricks@);
                        assert(one.drop_first() =~= rest);
                        assert(emits(bm, sm_pre, c_pre, one));
                        assert(sols + one =~= sols.push(solution.placed_bricks@) + rest);
                    }
                }
                let mut j: usize = 0;
                let ghost flat0 = flat@;
                let placed = solution.placed_bricks;
                while j < placed.len()
                    invariant
                        j <= placed@.len(),
                        flat@ == flat0 + placed@.take(j as int),
                    decreases placed@.len() - j,
                {
                    flat.push(placed[j]);
                    proof {
                        assert((flat0 + placed@.take(j as int)).push(placed@[j as int]) =~= flat0
                            + placed@.take(j as int + 1));
                    }
                    j = j + 1;
                }
                proof {
                    assert(placed@.take(placed@.len() as int) =~= placed@);
                    sols.lemma_flatten_push(placed@);
                    assert(flat@ == sols.push(placed@).flatten());
                    assert(placed@.len() == per_solution);
                    assert((sols.len() + 1) * per_solution == sols.len() * per_solution
                        + per_solution) by (nonlinear_arith);
                    sols = sols.push(placed@);
                }
            },
        }
    }
    let out = rank_placements(&flat);
    proof {
        assert(emits(
            bricks_model(bricks@),
            seq![(b0.bitboard, b0.placed_bricks@, 0nat)],
            0u32,
            sols,
        ));
        assert(ranks(out@, sols.flatten()));
        assert(counts_sum(out@) == sols.len() * (b0.placed_bricks@.len() + bricks@.len()));
    }
    out
}

} // verus!
