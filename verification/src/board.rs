//! The board: a 64-bit occupancy mask, addressed high bit first, together
//! with the ordered list of placement patterns that produced it.

use crate::EMPTY_BITBOARD;
use crate::bits::{pairwise_disjoint, pop_count, union_of};
use vstd::prelude::*;

verus! {

/// The single bit for cell address `i`, counted from the most significant bit.
pub open spec fn bit_at(i: u64) -> u64 {
    (1u64 << 63) >> i
}

/// Cell address that marks a month: months 1-6 sit on the first row,
/// months 7-12 on the second, each behind a guard column of two cells.
pub open spec fn month_index(month: int) -> int {
    if month <= 6 {
        month - 1
    } else {
        month + 1
    }
}

/// Cell address that marks a day: days run in rows of seven from address 16,
/// each row followed by one guard cell.
pub open spec fn day_index(day: int) -> int {
    day + 15 + (day - 1) / 7
}

/// The one failure of the whole solver: a date component outside its range.
#[derive(Debug, Clone, Copy, PartialEq, Eq, Structural)]
pub enum DateError {
    /// The month was outside 1-12; carries the offending value.
    InvalidMonth(u8),
    /// The day was outside 1-31; carries the offending value.
    InvalidDay(u8),
}

#[derive(Debug)]
pub struct Board {
    /// Occupancy mask: guards, the two date cells, and every placed brick.
    pub bitboard: u64,
    /// The placement patterns folded into `bitboard`, in placement order.
    pub placed_bricks: Vec<u64>,
}

impl Board {
    /// The cells that were occupied before any brick was placed: guards plus
    /// the two date markers.
    pub open spec fn base_mask(&self) -> u64 {
        self.bitboard & !union_of(self.placed_bricks@)
    }

    /// Structural invariant: the guard cells stay occupied, every placed
    /// pattern lies inside the occupancy mask, and no two placed patterns
    /// share a set bit.
    pub open spec fn wf(&self) -> bool {
        &&& self.bitboard & EMPTY_BITBOARD == EMPTY_BITBOARD
        &&& union_of(self.placed_bricks@) & self.bitboard == union_of(self.placed_bricks@)
        &&& pairwise_disjoint(self.placed_bricks@)
    }

    /// Whether cell address `i` is occupied.
    pub open spec fn occupied(&self, i: u64) -> bool {
        bit_at(i) & self.bitboard != 0
    }

    /// The board with no date applied: only the guard cells are occupied.
    pub fn new() -> (b: Board)
        ensures
            b.bitboard == EMPTY_BITBOARD,
            b.placed_bricks@ == Seq::<u64>::empty(),
            b.wf(),
    {
        let b = Board { bitboard: EMPTY_BITBOARD, placed_bricks: Vec::with_capacity(8) };
        proof {
            assert(union_of(b.placed_bricks@) == 0);
            assert(EMPTY_BITBOARD & EMPTY_BITBOARD == EMPTY_BITBOARD && 0u64 & EMPTY_BITBOARD
                == 0u64) by (bit_vector);
        }
        b
    }

    /// Builds the board for a date, or reports which component is out of
    /// range: the month cell and the day cell are marked occupied on top of
    /// the guard mask.
    pub fn for_date(day: u8, month: u8) -> (r: Result<Board, DateError>)
        ensures
            (1 <= month <= 12 && 1 <= day <= 31) <==> r is Ok,
            !(1 <= month <= 12) ==> r == Result::<Board, DateError>::Err(
                DateError::InvalidMonth(month),
            ),
            (1 <= month <= 12 && !(1 <= day <= 31)) ==> r == Result::<Board, DateError>::Err(
                DateError::InvalidDay(day),
            ),
            r is Ok ==> {
                &&& r->Ok_0.bitboard == EMPTY_BITBOARD | bit_at(month_index(month as int) as u64)
                    | bit_at(day_index(day as int) as u64)
                &&& r->Ok_0.placed_bricks@ == Seq::<u64>::empty()
                &&& r->Ok_0.wf()
                &&& r->Ok_0.base_mask() == r->Ok_0.bitboard
                &&& pop_count(r->Ok_0.bitboard) == 23
            },
    {
        let mut empty_board = Board::new();
        if 1 <= month && month <= 6 {
            empty_board.set_index(month - 1);
        } else if 7 <= month && month <= 12 {
            empty_board.set_index(month + 1);
        } else {
            return Err(DateError::InvalidMonth(month));
        }
        if 1 <= day && day <= 7 {
            empty_board.set_index(day + 15);
        } else if 8 <= day && day <= 14 {
            empty_board.set_index(day + 16);
        } else if 15 <= day && day <= 21 {
            empty_board.set_index(day + 17);
        } else if 22 <= day && day <= 28 {
            empty_board.set_index(day + 18);
        } else if 29 <= day && day <= 31 {
            empty_board.set_index(day + 19);
        } else {
            return Err(DateError::InvalidDay(day));
        }
        proof {
            if day <= 7 {
                assert((day - 1) as int / 7 == 0);
            } else if day <= 14 {
                assert((day - 1) as int / 7 == 1);
            } else if day <= 21 {
                assert((day - 1) as int / 7 == 2);
            } else if day <= 28 {
                assert((day - 1) as int / 7 == 3);
            } else {
                assert((day - 1) as int / 7 == 4);
            }
            assert(empty_board.bitboard == EMPTY_BITBOARD | bit_at(month_index(month as int) as u64)
                | bit_at(day_index(day as int) as u64));
            lemma_date_board(month as u64, day as u64, empty_board.bitboard);
            assert(union_of(empty_board.placed_bricks@) == 0);
            let bbv = empty_board.bitboard;
            assert(0u64 & bbv == 0u64 && bbv & !0u64 == bbv) by (bit_vector);
        }
        Ok(empty_board)
    }

    /// Marks one cell occupied; used while building the date board.
    pub fn set_index(&mut self, index: u8)
        requires
            index < 64,
        ensures
            final(self).bitboard == old(self).bitboard | bit_at(index as u64),
            final(self).placed_bricks@ == old(self).placed_bricks@,
            old(self).wf() ==> final(self).wf(),
    {
        proof {
            let bb = self.bitboard;
            let m = bit_at(index as u64);
            let u = union_of(self.placed_bricks@);
            assert((u & bb == u ==> u & (bb | m) == u) && (bb & EMPTY_BITBOARD == EMPTY_BITBOARD
                ==> (bb | m) & EMPTY_BITBOARD == EMPTY_BITBOARD)) by (bit_vector);
        }
        self.bitboard = self.bitboard | ((1u64 << 63) >> (index as u64));
    }

    /// Whether cell address `index` is free.
    pub fn is_free(&self, index: u8) -> (r: bool)
        requires
            index < 64,
        ensures
            r == !self.occupied(index as u64),
    {
        !self.is_occupied(index)
    }

    /// Whether cell address `index` is occupied.
    pub fn is_occupied(&self, index: u8) -> (r: bool)
        requires
            index < 64,
        ensures
            r == self.occupied(index as u64),
    {
        (((1u64 << 63) >> (index as u64)) & self.bitboard) > 0
    }
}

/// Building a board for one day and month twice yields the same board: the
/// occupancy mask is a function of the date alone, and the placement history
/// starts empty, so solving either board explores the same search tree.
pub proof fn lemma_for_date_unique(day: u8, month: u8, b1: Board, b2: Board)
    requires
        b1.bitboard == EMPTY_BITBOARD | bit_at(month_index(month as int) as u64) | bit_at(
            day_index(day as int) as u64,
        ),
        b2.bitboard == EMPTY_BITBOARD | bit_at(month_index(month as int) as u64) | bit_at(
            day_index(day as int) as u64,
        ),
        b1.placed_bricks@ == Seq::<u64>::empty(),
        b2.placed_bricks@ == Seq::<u64>::empty(),
    ensures
        b1.bitboard == b2.bitboard,
        b1.placed_bricks@ == b2.placed_bricks@,
{
}

/// The guard mask occupies 21 cells.
proof fn lemma_empty_pop()
    ensures
        pop_count(EMPTY_BITBOARD) == 21,
{
    reveal_with_fuel(pop_count, 64);
}

/// A date board keeps its guards and counts 23 occupied cells: the two date
/// markers land on distinct free cells of the guard mask.
proof fn lemma_date_board(month: u64, day: u64, bb: u64)
    requires
        1 <= month <= 12,
        1 <= day <= 31,
        bb == EMPTY_BITBOARD | bit_at(month_index(month as int) as u64) | bit_at(
            day_index(day as int) as u64,
        ),
    ensures
        bb & EMPTY_BITBOARD == EMPTY_BITBOARD,
        pop_count(bb) == 23,
{
    let mi = month_index(month as int) as u64;
    let di = day_index(day as int) as u64;
    assert(mi <= 5 || (8 <= mi <= 13));
    if day <= 7 {
        assert((day - 1) as int / 7 == 0);
    } else if day <= 14 {
        assert((day - 1) as int / 7 == 1);
    } else if day <= 21 {
        assert((day - 1) as int / 7 == 2);
    } else if day <= 28 {
        assert((day - 1) as int / 7 == 3);
    } else {
        assert((day - 1) as int / 7 == 4);
    }
    assert((16 <= di <= 22) || (24 <= di <= 30) || (32 <= di <= 38) || (40 <= di <= 46) || (48
        <= di <= 50));
    let mb = bit_at(mi);
    let db = bit_at(di);
    assert((EMPTY_BITBOARD | mb | db) & EMPTY_BITBOARD == EMPTY_BITBOARD && EMPTY_BITBOARD & mb
        == 0 && (EMPTY_BITBOARD | mb) & db == 0) by (bit_vector)
        requires
            mb == (1u64 << 63) >> mi,
            db == (1u64 << 63) >> di,
            mi <= 5 || (8 <= mi <= 13),
            (16 <= di <= 22) || (24 <= di <= 30) || (32 <= di <= 38) || (40 <= di <= 46) || (48
                <= di <= 50),
    ;
    lemma_empty_pop();
    crate::bits::lemma_pop_count_bit(mi);
    crate::bits::lemma_pop_count_bit(di);
    crate::bits::lemma_pop_count_or_disjoint(EMPTY_BITBOARD, mb);
    crate::bits::lemma_pop_count_or_disjoint(EMPTY_BITBOARD | mb, db);
}

} // verus!
