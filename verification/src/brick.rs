//! The brick catalog: eight pieces, each pre-expanded into every rotation
//! and reflection that yields a geometrically distinct footprint, hand-encoded
//! as 64-bit patterns anchored at the top-left of the grid.

use crate::EMPTY_BITBOARD;
use crate::bits::pop_count;
use vstd::prelude::*;

verus! {

/// One rotation or reflection of a brick, anchored at the top-left cell.
pub struct BrickVariant {
    pub bit_pattern: u64,
}

impl BrickVariant {
    pub fn new(bit_pattern: u64) -> (v: BrickVariant)
        ensures
            v.bit_pattern == bit_pattern,
    {
        BrickVariant { bit_pattern }
    }
}

/// Shifting the pattern by `s` either collides with a guard cell or keeps
/// every one of its set bits on the board.
pub open spec fn shift_ok(v: u64, s: u64) -> bool {
    ((v >> s) & EMPTY_BITBOARD) != 0 || ((v >> s) << s) == v
}

/// `shift_ok` holds at every offset below `n`.
pub open spec fn shifts_ok_upto(v: u64, n: u64) -> bool
    decreases n,
{
    n == 0 || (shift_ok(v, (n - 1) as u64) && shifts_ok_upto(v, (n - 1) as u64))
}

/// Every offset a placement can use either rejects the pattern against a
/// guard cell or keeps it intact on the board.
pub open spec fn variant_ok(v: u64) -> bool {
    shifts_ok_upto(v, 43)
}

/// Extracts `shift_ok` at one offset from the bounded check.
pub proof fn lemma_shift_ok_at(v: u64, n: u64, s: u64)
    requires
        shifts_ok_upto(v, n),
        s < n,
    ensures
        shift_ok(v, s),
    decreases n,
{
    if s + 1 < n {
        lemma_shift_ok_at(v, (n - 1) as u64, s);
    }
}

/// One physical puzzle piece: the set of all its distinct orientations.
pub struct Brick {
    pub brick_variants: Vec<BrickVariant>,
}

/// Total cell count of a catalog of bricks.
pub open spec fn sizes_sum(bricks: Seq<Brick>) -> nat
    decreases bricks.len(),
{
    if bricks.len() == 0 {
        0
    } else {
        sizes_sum(bricks.drop_last()) + bricks.last().size()
    }
}

/// Appending a brick adds its size to the total.
pub proof fn lemma_sizes_sum_push(s: Seq<Brick>, b: Brick)
    ensures
        sizes_sum(s.push(b)) == sizes_sum(s) + b.size(),
{
    assert(s.push(b).drop_last() =~= s);
}

/// The authored orientation data: for each of the eight bricks, the exact
/// list of its rotation and reflection patterns.
pub open spec fn catalog_patterns() -> Seq<Seq<u64>> {
    seq![
        seq![
            0b01100000_01000000_11000000_00000000_00000000_00000000_00000000_00000000u64,
            0b11000000_01000000_01100000_00000000_00000000_00000000_00000000_00000000u64,
            0b10000000_11100000_00100000_00000000_00000000_00000000_00000000_00000000u64,
            0b00100000_11100000_10000000_00000000_00000000_00000000_00000000_00000000u64,
        ],
        seq![
            0b00010000_11110000_00000000_00000000_00000000_00000000_00000000_00000000u64,
            0b10000000_11110000_00000000_00000000_00000000_00000000_00000000_00000000u64,
            0b11110000_00010000_00000000_00000000_00000000_00000000_00000000_00000000u64,
            0b11110000_10000000_00000000_00000000_00000000_00000000_00000000_00000000u64,
            0b10000000_10000000_10000000_11000000_00000000_00000000_00000000_00000000u64,
            0b01000000_01000000_01000000_11000000_00000000_00000000_00000000_00000000u64,
            0b11000000_10000000_10000000_10000000_00000000_00000000_00000000_00000000u64,
            0b11000000_01000000_01000000_01000000_00000000_00000000_00000000_00000000u64,
        ],
        seq![
            0b11100000_10000000_10000000_00000000_00000000_00000000_00000000_00000000u64,
            0b11100000_00100000_00100000_00000000_00000000_00000000_00000000_00000000u64,
            0b00100000_00100000_11100000_00000000_00000000_00000000_00000000_00000000u64,
            0b10000000_10000000_11100000_00000000_00000000_00000000_00000000_00000000u64,
        ],
        seq![
            0b11100000_11100000_00000000_00000000_00000000_00000000_00000000_00000000u64,
            0b11000000_11000000_11000000_00000000_00000000_00000000_00000000_00000000u64,
        ],
        seq![
            0b11100000_10100000_00000000_00000000_00000000_00000000_00000000_00000000u64,
            0b10100000_11100000_00000000_00000000_00000000_00000000_00000000_00000000u64,
            0b11000000_10000000_11000000_00000000_00000000_00000000_00000000_00000000u64,
            0b11000000_01000000_11000000_00000000_00000000_00000000_00000000_00000000u64,
        ],
        seq![
            0b11100000_11000000_00000000_00000000_00000000_00000000_00000000_00000000u64,
            0b11000000_11100000_00000000_00000000_00000000_00000000_00000000_00000000u64,
            0b11100000_01100000_00000000_00000000_00000000_00000000_00000000_00000000u64,
            0b01100000_11100000_00000000_00000000_00000000_00000000_00000000_00000000u64,
            0b11000000_11000000_10000000_00000000_00000000_00000000_00000000_00000000u64,
            0b11000000_11000000_01000000_00000000_00000000_00000000_00000000_00000000u64,
            0b10000000_11000000_11000000_00000000_00000000_00000000_00000000_00000000u64,
            0b01000000_11000000_11000000_00000000_00000000_00000000_00000000_00000000u64,
        ],
        seq![
            0b11110000_01000000_00000000_00000000_00000000_00000000_00000000_00000000u64,
            0b11110000_00100000_00000000_00000000_00000000_00000000_00000000_00000000u64,
            0b01000000_11110000_00000000_00000000_00000000_00000000_00000000_00000000u64,
            0b00100000_11110000_00000000_00000000_00000000_00000000_00000000_00000000u64,
            0b10000000_11000000_10000000_10000000_00000000_00000000_00000000_00000000u64,
            0b10000000_10000000_11000000_10000000_00000000_00000000_00000000_00000000u64,
            0b01000000_11000000_01000000_01000000_00000000_00000000_00000000_00000000u64,
            0b01000000_01000000_11000000_01000000_00000000_00000000_00000000_00000000u64,
        ],
        seq![
            0b11100000_00110000_00000000_00000000_00000000_00000000_00000000_00000000u64,
            0b01110000_11000000_00000000_00000000_00000000_00000000_00000000_00000000u64,
            0b11000000_01110000_00000000_00000000_00000000_00000000_00000000_00000000u64,
            0b00110000_11100000_00000000_00000000_00000000_00000000_00000000_00000000u64,
            0b10000000_10000000_11000000_01000000_00000000_00000000_00000000_00000000u64,
            0b01000000_11000000_10000000_10000000_00000000_00000000_00000000_00000000u64,
            0b10000000_11000000_01000000_01000000_00000000_00000000_00000000_00000000u64,
            0b01000000_01000000_11000000_10000000_00000000_00000000_00000000_00000000u64,
        ],
    ]
}

/// How many cells each brick of the catalog covers.
pub open spec fn catalog_sizes() -> Seq<nat> {
    seq![5nat, 5nat, 5nat, 6nat, 5nat, 5nat, 5nat, 5nat]
}
impl Brick {
    /// The orientation patterns, as a sequence of bare bit patterns.
    pub open spec fn patterns(&self) -> Seq<u64> {
        self.brick_variants@.map_values(|v: BrickVariant| v.bit_pattern)
    }

    /// Number of cells the piece covers, as counted in its first pattern.
    pub open spec fn size(&self) -> nat {
        pop_count(self.brick_variants@[0].bit_pattern)
    }

    /// Non-empty; the orientations are pairwise distinct footprints; every
    /// orientation covers the same number of cells; every shift of every
    /// orientation is rejected by a guard or stays intact.
    pub open spec fn wf(&self) -> bool {
        &&& self.brick_variants@.len() > 0
        &&& forall|i: int, j: int|
            0 <= i < j < self.brick_variants@.len() ==> self.brick_variants@[i].bit_pattern
                != self.brick_variants@[j].bit_pattern
        &&& forall|i: int|
            0 <= i < self.brick_variants@.len() ==> variant_ok(
                (#[trigger] self.brick_variants@[i]).bit_pattern,
            )
        &&& forall|i: int|
            0 <= i < self.brick_variants@.len() ==> pop_count(
                (#[trigger] self.brick_variants@[i]).bit_pattern,
            ) == self.size()
    }

    pub fn new(brick_variants: Vec<BrickVariant>) -> (b: Brick)
        ensures
            b.brick_variants@ == brick_variants@,
    {
        Brick { brick_variants }
    }

    /// The full catalog: eight bricks covering 41 cells in total.
    pub fn all_bricks() -> (bricks: Vec<Brick>)
        ensures
            bricks@.len() == 8,
            forall|k: int| 0 <= k < bricks@.len() ==> (#[trigger] bricks@[k]).wf(),
            forall|k: int|
                0 <= k < bricks@.len() ==> (#[trigger] bricks@[k]).patterns()
                    == catalog_patterns()[k],
            forall|k: int|
                0 <= k < bricks@.len() ==> (#[trigger] bricks@[k]).size() == catalog_sizes()[k],
            sizes_sum(bricks@) == 41,
    {
        let mut bricks: Vec<Brick> = Vec::with_capacity(8);
        let b0 = brick_0();
        proof { lemma_sizes_sum_push(bricks@, b0); }
        bricks.push(b0);
        let b1 = brick_1();
        proof { lemma_sizes_sum_push(bricks@, b1); }
        bricks.push(b1);
        let b2 = brick_2();
        proof { lemma_sizes_sum_push(bricks@, b2); }
        bricks.push(b2);
        let b3 = brick_3();
        proof { lemma_sizes_sum_push(bricks@, b3); }
        bricks.push(b3);
        let b4 = brick_4();
        proof { lemma_sizes_sum_push(bricks@, b4); }
        bricks.push(b4);
        let b5 = brick_5();
        proof { lemma_sizes_sum_push(bricks@, b5); }
        bricks.push(b5);
        let b6 = brick_6();
        proof { lemma_sizes_sum_push(bricks@, b6); }
        bricks.push(b6);
        let b7 = brick_7();
        proof { lemma_sizes_sum_push(bricks@, b7); }
        bricks.push(b7);
        proof {
            assert forall|k: int|
                0 <= k < bricks@.len() implies (#[trigger] bricks@[k]).wf() && bricks@[k].patterns()
                == catalog_patterns()[k] && bricks@[k].size() == catalog_sizes()[k] by {
                if k == 0 {
                    assert(bricks@[0] == b0);
                } else if k == 1 {
                    assert(bricks@[1] == b1);
                } else if k == 2 {
                    assert(bricks@[2] == b2);
                } else if k == 3 {
                    assert(bricks@[3] == b3);
                } else if k == 4 {
                    assert(bricks@[4] == b4);
                } else if k == 5 {
                    assert(bricks@[5] == b5);
                } else if k == 6 {
                    assert(bricks@[6] == b6);
                } else if k == 7 {
                    assert(bricks@[7] == b7);
                }
            }
        }
        bricks
    }
}

/// The patterns of brick 0 survive every offset or collide with a guard,
/// and each covers 5 cells.
proof fn brick_0_facts()
    ensures
        shifts_ok_upto(0b01100000_01000000_11000000_00000000_00000000_00000000_00000000_00000000u64, 43),
        pop_count(0b01100000_01000000_11000000_00000000_00000000_00000000_00000000_00000000u64) == 5,
        shifts_ok_upto(0b11000000_01000000_01100000_00000000_00000000_00000000_00000000_00000000u64, 43),
        pop_count(0b11000000_01000000_01100000_00000000_00000000_00000000_00000000_00000000u64) == 5,
        shifts_ok_upto(0b10000000_11100000_00100000_00000000_00000000_00000000_00000000_00000000u64, 43),
        pop_count(0b10000000_11100000_00100000_00000000_00000000_00000000_00000000_00000000u64) == 5,
        shifts_ok_upto(0b00100000_11100000_10000000_00000000_00000000_00000000_00000000_00000000u64, 43),
        pop_count(0b00100000_11100000_10000000_00000000_00000000_00000000_00000000_00000000u64) == 5,
{
    assert(shifts_ok_upto(0b01100000_01000000_11000000_00000000_00000000_00000000_00000000_00000000u64, 43) && pop_count(0b01100000_01000000_11000000_00000000_00000000_00000000_00000000_00000000u64) == 5 && shifts_ok_upto(0b11000000_01000000_01100000_00000000_00000000_00000000_00000000_00000000u64, 43) && pop_count(0b11000000_01000000_01100000_00000000_00000000_00000000_00000000_00000000u64) == 5 && shifts_ok_upto(0b10000000_11100000_00100000_00000000_00000000_00000000_00000000_00000000u64, 43) && pop_count(0b10000000_11100000_00100000_00000000_00000000_00000000_00000000_00000000u64) == 5 && shifts_ok_upto(0b00100000_11100000_10000000_00000000_00000000_00000000_00000000_00000000u64, 43) && pop_count(0b00100000_11100000_10000000_00000000_00000000_00000000_00000000_00000000u64) == 5) by (bit_vector);
}

/// Brick 0 of the catalog: 4 orientation patterns of 5 cells each.
fn brick_0() -> (b: Brick)
    ensures
        b.wf(),
        b.size() == 5,
        b.patterns() == catalog_patterns()[0],
{
    let mut v: Vec<BrickVariant> = Vec::with_capacity(4);
    v.push(BrickVariant::new(0b01100000_01000000_11000000_00000000_00000000_00000000_00000000_00000000u64));
    v.push(BrickVariant::new(0b11000000_01000000_01100000_00000000_00000000_00000000_00000000_00000000u64));
    v.push(BrickVariant::new(0b10000000_11100000_00100000_00000000_00000000_00000000_00000000_00000000u64));
    v.push(BrickVariant::new(0b00100000_11100000_10000000_00000000_00000000_00000000_00000000_00000000u64));
    let b = Brick::new(v);
    proof {
        brick_0_facts();
        let vs = b.brick_variants@;
        assert(vs.len() == 4);
        assert(vs[0].bit_pattern == 0b01100000_01000000_11000000_00000000_00000000_00000000_00000000_00000000u64);
        assert(vs[1].bit_pattern == 0b11000000_01000000_01100000_00000000_00000000_00000000_00000000_00000000u64);
        assert(vs[2].bit_pattern == 0b10000000_11100000_00100000_00000000_00000000_00000000_00000000_00000000u64);
        assert(vs[3].bit_pattern == 0b00100000_11100000_10000000_00000000_00000000_00000000_00000000_00000000u64);
        assert(b.patterns() =~= catalog_patterns()[0]);
        assert forall|i: int, j: int| 0 <= i < j < vs.len() implies vs[i].bit_pattern
            != vs[j].bit_pattern by {
        }
        assert forall|i: int| 0 <= i < vs.len() implies variant_ok(
            (#[trigger] vs[i]).bit_pattern,
        ) && pop_count(vs[i].bit_pattern) == 5 by {
            if i == 0 {
            } else if i == 1 {
            } else if i == 2 {
            } else if i == 3 {
            }
        }
    }
    b
}

/// The patterns of brick 1 survive every offset or collide with a guard,
/// and each covers 5 cells.
proof fn brick_1_facts()
    ensures
        shifts_ok_upto(0b00010000_11110000_00000000_00000000_00000000_00000000_00000000_00000000u64, 43),
        pop_count(0b00010000_11110000_00000000_00000000_00000000_00000000_00000000_00000000u64) == 5,
        shifts_ok_upto(0b10000000_11110000_00000000_00000000_00000000_00000000_00000000_00000000u64, 43),
        pop_count(0b10000000_11110000_00000000_00000000_00000000_00000000_00000000_00000000u64) == 5,
        shifts_ok_upto(0b11110000_00010000_00000000_00000000_00000000_00000000_00000000_00000000u64, 43),
        pop_count(0b11110000_00010000_00000000_00000000_00000000_00000000_00000000_00000000u64) == 5,
        shifts_ok_upto(0b11110000_10000000_00000000_00000000_00000000_00000000_00000000_00000000u64, 43),
        pop_count(0b11110000_10000000_00000000_00000000_00000000_00000000_00000000_00000000u64) == 5,
        shifts_ok_upto(0b10000000_10000000_10000000_11000000_00000000_00000000_00000000_00000000u64, 43),
        pop_count(0b10000000_10000000_10000000_11000000_00000000_00000000_00000000_00000000u64) == 5,
        shifts_ok_upto(0b01000000_01000000_01000000_11000000_00000000_00000000_00000000_00000000u64, 43),
        pop_count(0b01000000_01000000_01000000_11000000_00000000_00000000_00000000_00000000u64) == 5,
        shifts_ok_upto(0b11000000_10000000_10000000_10000000_00000000_00000000_00000000_00000000u64, 43),
        pop_count(0b11000000_10000000_10000000_10000000_00000000_00000000_00000000_00000000u64) == 5,
        shifts_ok_upto(0b11000000_01000000_01000000_01000000_00000000_00000000_00000000_00000000u64, 43),
        pop_count(0b11000000_01000000_01000000_01000000_00000000_00000000_00000000_00000000u64) == 5,
{
    assert(shifts_ok_upto(0b00010000_11110000_00000000_00000000_00000000_00000000_00000000_00000000u64, 43) && pop_count(0b00010000_11110000_00000000_00000000_00000000_00000000_00000000_00000000u64) == 5 && shifts_ok_upto(0b10000000_11110000_00000000_00000000_00000000_00000000_00000000_00000000u64, 43) && pop_count(0b10000000_11110000_00000000_00000000_00000000_00000000_00000000_00000000u64) == 5 && shifts_ok_upto(0b11110000_00010000_00000000_00000000_00000000_00000000_00000000_00000000u64, 43) && pop_count(0b11110000_00010000_00000000_00000000_00000000_00000000_00000000_00000000u64) == 5 && shifts_ok_upto(0b11110000_10000000_00000000_00000000_00000000_00000000_00000000_00000000u64, 43) && pop_count(0b11110000_10000000_00000000_00000000_00000000_00000000_00000000_00000000u64) == 5) by (bit_vector);
    assert(shifts_ok_upto(0b10000000_10000000_10000000_11000000_00000000_00000000_00000000_00000000u64, 43) && pop_count(0b10000000_10000000_10000000_11000000_00000000_00000000_00000000_00000000u64) == 5 && shifts_ok_upto(0b01000000_01000000_01000000_11000000_00000000_00000000_00000000_00000000u64, 43) && pop_count(0b01000000_01000000_01000000_11000000_00000000_00000000_00000000_00000000u64) == 5 && shifts_ok_upto(0b11000000_10000000_10000000_10000000_00000000_00000000_00000000_00000000u64, 43) && pop_count(0b11000000_10000000_10000000_10000000_00000000_00000000_00000000_00000000u64) == 5 && shifts_ok_upto(0b11000000_01000000_01000000_01000000_00000000_00000000_00000000_00000000u64, 43) && pop_count(0b11000000_01000000_01000000_01000000_00000000_00000000_00000000_00000000u64) == 5) by (bit_vector);
}

/// Brick 1 of the catalog: 8 orientation patterns of 5 cells each.
fn brick_1() -> (b: Brick)
    ensures
        b.wf(),
        b.size() == 5,
        b.patterns() == catalog_patterns()[1],
{
    let mut v: Vec<BrickVariant> = Vec::with_capacity(8);
    v.push(BrickVariant::new(0b00010000_11110000_00000000_00000000_00000000_00000000_00000000_00000000u64));
    v.push(BrickVariant::new(0b10000000_11110000_00000000_00000000_00000000_00000000_00000000_00000000u64));
    v.push(BrickVariant::new(0b11110000_00010000_00000000_00000000_00000000_00000000_00000000_00000000u64));
    v.push(BrickVariant::new(0b11110000_10000000_00000000_00000000_00000000_00000000_00000000_00000000u64));
    v.push(BrickVariant::new(0b10000000_10000000_10000000_11000000_00000000_00000000_00000000_00000000u64));
    v.push(BrickVariant::new(0b01000000_01000000_01000000_11000000_00000000_00000000_00000000_00000000u64));
    v.push(BrickVariant::new(0b11000000_10000000_10000000_10000000_00000000_00000000_00000000_00000000u64));
    v.push(BrickVariant::new(0b11000000_01000000_01000000_01000000_00000000_00000000_00000000_00000000u64));
    let b = Brick::new(v);
    proof {
        brick_1_facts();
        let vs = b.brick_variants@;
        assert(vs.len() == 8);
        assert(vs[0].bit_pattern == 0b00010000_11110000_00000000_00000000_00000000_00000000_00000000_00000000u64);
        assert(vs[1].bit_pattern == 0b10000000_11110000_00000000_00000000_00000000_00000000_00000000_00000000u64);
        assert(vs[2].bit_pattern == 0b11110000_00010000_00000000_00000000_00000000_00000000_00000000_00000000u64);
        assert(vs[3].bit_pattern == 0b11110000_10000000_00000000_00000000_00000000_00000000_00000000_00000000u64);
        assert(vs[4].bit_pattern == 0b10000000_10000000_10000000_11000000_00000000_00000000_00000000_00000000u64);
        assert(vs[5].bit_pattern == 0b01000000_01000000_01000000_11000000_00000000_00000000_00000000_00000000u64);
        assert(vs[6].bit_pattern == 0b11000000_10000000_10000000_10000000_00000000_00000000_00000000_00000000u64);
        assert(vs[7].bit_pattern == 0b11000000_01000000_01000000_01000000_00000000_00000000_00000000_00000000u64);
        assert(b.patterns() =~= catalog_patterns()[1]);
        assert forall|i: int, j: int| 0 <= i < j < vs.len() implies vs[i].bit_pattern
            != vs[j].bit_pattern by {
        }
        assert forall|i: int| 0 <= i < vs.len() implies variant_ok(
            (#[trigger] vs[i]).bit_pattern,
        ) && pop_count(vs[i].bit_pattern) == 5 by {
            if i == 0 {
            } else if i == 1 {
            } else if i == 2 {
            } else if i == 3 {
            } else if i == 4 {
            } else if i == 5 {
            } else if i == 6 {
            } else if i == 7 {
            }
        }
    }
    b
}

/// The patterns of brick 2 survive every offset or collide with a guard,
/// and each covers 5 cells.
proof fn brick_2_facts()
    ensures
        shifts_ok_upto(0b11100000_10000000_10000000_00000000_00000000_00000000_00000000_00000000u64, 43),
        pop_count(0b11100000_10000000_10000000_00000000_00000000_00000000_00000000_00000000u64) == 5,
        shifts_ok_upto(0b11100000_00100000_00100000_00000000_00000000_00000000_00000000_00000000u64, 43),
        pop_count(0b11100000_00100000_00100000_00000000_00000000_00000000_00000000_00000000u64) == 5,
        shifts_ok_upto(0b00100000_00100000_11100000_00000000_00000000_00000000_00000000_00000000u64, 43),
        pop_count(0b00100000_00100000_11100000_00000000_00000000_00000000_00000000_00000000u64) == 5,
        shifts_ok_upto(0b10000000_10000000_11100000_00000000_00000000_00000000_00000000_00000000u64, 43),
        pop_count(0b10000000_10000000_11100000_00000000_00000000_00000000_00000000_00000000u64) == 5,
{
    assert(shifts_ok_upto(0b11100000_10000000_10000000_00000000_00000000_00000000_00000000_00000000u64, 43) && pop_count(0b11100000_10000000_10000000_00000000_00000000_00000000_00000000_00000000u64) == 5 && shifts_ok_upto(0b11100000_00100000_00100000_00000000_00000000_00000000_00000000_00000000u64, 43) && pop_count(0b11100000_00100000_00100000_00000000_00000000_00000000_00000000_00000000u64) == 5 && shifts_ok_upto(0b00100000_00100000_11100000_00000000_00000000_00000000_00000000_00000000u64, 43) && pop_count(0b00100000_00100000_11100000_00000000_00000000_00000000_00000000_00000000u64) == 5 && shifts_ok_upto(0b10000000_10000000_11100000_00000000_00000000_00000000_00000000_00000000u64, 43) && pop_count(0b10000000_10000000_11100000_00000000_00000000_00000000_00000000_00000000u64) == 5) by (bit_vector);
}

/// Brick 2 of the catalog: 4 orientation patterns of 5 cells each.
fn brick_2() -> (b: Brick)
    ensures
        b.wf(),
        b.size() == 5,
        b.patterns() == catalog_patterns()[2],
{
    let mut v: Vec<BrickVariant> = Vec::with_capacity(4);
    v.push(BrickVariant::new(0b11100000_10000000_10000000_00000000_00000000_00000000_00000000_00000000u64));
    v.push(BrickVariant::new(0b11100000_00100000_00100000_00000000_00000000_00000000_00000000_00000000u64));
    v.push(BrickVariant::new(0b00100000_00100000_11100000_00000000_00000000_00000000_00000000_00000000u64));
    v.push(BrickVariant::new(0b10000000_10000000_11100000_00000000_00000000_00000000_00000000_00000000u64));
    let b = Brick::new(v);
    proof {
        brick_2_facts();
        let vs = b.brick_variants@;
        assert(vs.len() == 4);
        assert(vs[0].bit_pattern == 0b11100000_10000000_10000000_00000000_00000000_00000000_00000000_00000000u64);
        assert(vs[1].bit_pattern == 0b11100000_00100000_00100000_00000000_00000000_00000000_00000000_00000000u64);
        assert(vs[2].bit_pattern == 0b00100000_00100000_11100000_00000000_00000000_00000000_00000000_00000000u64);
        assert(vs[3].bit_pattern == 0b10000000_10000000_11100000_00000000_00000000_00000000_00000000_00000000u64);
        assert(b.patterns() =~= catalog_patterns()[2]);
        assert forall|i: int, j: int| 0 <= i < j < vs.len() implies vs[i].bit_pattern
            != vs[j].bit_pattern by {
        }
        assert forall|i: int| 0 <= i < vs.len() implies variant_ok(
            (#[trigger] vs[i]).bit_pattern,
        ) && pop_count(vs[i].bit_pattern) == 5 by {
            if i == 0 {
            } else if i == 1 {
            } else if i == 2 {
            } else if i == 3 {
            }
        }
    }
    b
}

/// The patterns of brick 3 survive every offset or collide with a guard,
/// and each covers 6 cells.
proof fn brick_3_facts()
    ensures
        shifts_ok_upto(0b11100000_11100000_00000000_00000000_00000000_00000000_00000000_00000000u64, 43),
        pop_count(0b11100000_11100000_00000000_00000000_00000000_00000000_00000000_00000000u64) == 6,
        shifts_ok_upto(0b11000000_11000000_11000000_00000000_00000000_00000000_00000000_00000000u64, 43),
        pop_count(0b11000000_11000000_11000000_00000000_00000000_00000000_00000000_00000000u64) == 6,
{
    assert(shifts_ok_upto(0b11100000_11100000_00000000_00000000_00000000_00000000_00000000_00000000u64, 43) && pop_count(0b11100000_11100000_00000000_00000000_00000000_00000000_00000000_00000000u64) == 6 && shifts_ok_upto(0b11000000_11000000_11000000_00000000_00000000_00000000_00000000_00000000u64, 43) && pop_count(0b11000000_11000000_11000000_00000000_00000000_00000000_00000000_00000000u64) == 6) by (bit_vector);
}

/// Brick 3 of the catalog: 2 orientation patterns of 6 cells each.
fn brick_3() -> (b: Brick)
    ensures
        b.wf(),
        b.size() == 6,
        b.patterns() == catalog_patterns()[3],
{
    let mut v: Vec<BrickVariant> = Vec::with_capacity(2);
    v.push(BrickVariant::new(0b11100000_11100000_00000000_00000000_00000000_00000000_00000000_00000000u64));
    v.push(BrickVariant::new(0b11000000_11000000_11000000_00000000_00000000_00000000_00000000_00000000u64));
    let b = Brick::new(v);
    proof {
        brick_3_facts();
        let vs = b.brick_variants@;
        assert(vs.len() == 2);
        assert(vs[0].bit_pattern == 0b11100000_11100000_00000000_00000000_00000000_00000000_00000000_00000000u64);
        assert(vs[1].bit_pattern == 0b11000000_11000000_11000000_00000000_00000000_00000000_00000000_00000000u64);
        assert(b.patterns() =~= catalog_patterns()[3]);
        assert forall|i: int, j: int| 0 <= i < j < vs.len() implies vs[i].bit_pattern
            != vs[j].bit_pattern by {
        }
        assert forall|i: int| 0 <= i < vs.len() implies variant_ok(
            (#[trigger] vs[i]).bit_pattern,
        ) && pop_count(vs[i].bit_pattern) == 6 by {
            if i == 0 {
            } else if i == 1 {
            }
        }
    }
    b
}

/// The patterns of brick 4 survive every offset or collide with a guard,
/// and each covers 5 cells.
proof fn brick_4_facts()
    ensures
        shifts_ok_upto(0b11100000_10100000_00000000_00000000_00000000_00000000_00000000_00000000u64, 43),
        pop_count(0b11100000_10100000_00000000_00000000_00000000_00000000_00000000_00000000u64) == 5,
        shifts_ok_upto(0b10100000_11100000_00000000_00000000_00000000_00000000_00000000_00000000u64, 43),
        pop_count(0b10100000_11100000_00000000_00000000_00000000_00000000_00000000_00000000u64) == 5,
        shifts_ok_upto(0b11000000_10000000_11000000_00000000_00000000_00000000_00000000_00000000u64, 43),
        pop_count(0b11000000_10000000_11000000_00000000_00000000_00000000_00000000_00000000u64) == 5,
        shifts_ok_upto(0b11000000_01000000_11000000_00000000_00000000_00000000_00000000_00000000u64, 43),
        pop_count(0b11000000_01000000_11000000_00000000_00000000_00000000_00000000_00000000u64) == 5,
{
    assert(shifts_ok_upto(0b11100000_10100000_00000000_00000000_00000000_00000000_00000000_00000000u64, 43) && pop_count(0b11100000_10100000_00000000_00000000_00000000_00000000_00000000_00000000u64) == 5 && shifts_ok_upto(0b10100000_11100000_00000000_00000000_00000000_00000000_00000000_00000000u64, 43) && pop_count(0b10100000_11100000_00000000_00000000_00000000_00000000_00000000_00000000u64) == 5 && shifts_ok_upto(0b11000000_10000000_11000000_00000000_00000000_00000000_00000000_00000000u64, 43) && pop_count(0b11000000_10000000_11000000_00000000_00000000_00000000_00000000_00000000u64) == 5 && shifts_ok_upto(0b11000000_01000000_11000000_00000000_00000000_00000000_00000000_00000000u64, 43) && pop_count(0b11000000_01000000_11000000_00000000_00000000_00000000_00000000_00000000u64) == 5) by (bit_vector);
}

/// Brick 4 of the catalog: 4 orientation patterns of 5 cells each.
fn brick_4() -> (b: Brick)
    ensures
        b.wf(),
        b.size() == 5,
        b.patterns() == catalog_patterns()[4],
{
    let mut v: Vec<BrickVariant> = Vec::with_capacity(4);
    v.push(BrickVariant::new(0b11100000_10100000_00000000_00000000_00000000_00000000_00000000_00000000u64));
    v.push(BrickVariant::new(0b10100000_11100000_00000000_00000000_00000000_00000000_00000000_00000000u64));
    v.push(BrickVariant::new(0b11000000_10000000_11000000_00000000_00000000_00000000_00000000_00000000u64));
    v.push(BrickVariant::new(0b11000000_01000000_11000000_00000000_00000000_00000000_00000000_00000000u64));
    let b = Brick::new(v);
    proof {
        brick_4_facts();
        let vs = b.brick_variants@;
        assert(vs.len() == 4);
        assert(vs[0].bit_pattern == 0b11100000_10100000_00000000_00000000_00000000_00000000_00000000_00000000u64);
        assert(vs[1].bit_pattern == 0b10100000_11100000_00000000_00000000_00000000_00000000_00000000_00000000u64);
        assert(vs[2].bit_pattern == 0b11000000_10000000_11000000_00000000_00000000_00000000_00000000_00000000u64);
        assert(vs[3].bit_pattern == 0b11000000_01000000_11000000_00000000_00000000_00000000_00000000_00000000u64);
        assert(b.patterns() =~= catalog_patterns()[4]);
        assert forall|i: int, j: int| 0 <= i < j < vs.len() implies vs[i].bit_pattern
            != vs[j].bit_pattern by {
        }
        assert forall|i: int| 0 <= i < vs.len() implies variant_ok(
            (#[trigger] vs[i]).bit_pattern,
        ) && pop_count(vs[i].bit_pattern) == 5 by {
            if i == 0 {
            } else if i == 1 {
            } else if i == 2 {
            } else if i == 3 {
            }
        }
    }
    b
}

/// The patterns of brick 5 survive every offset or collide with a guard,
/// and each covers 5 cells.
proof fn brick_5_facts()
    ensures
        shifts_ok_upto(0b11100000_11000000_00000000_00000000_00000000_00000000_00000000_00000000u64, 43),
        pop_count(0b11100000_11000000_00000000_00000000_00000000_00000000_00000000_00000000u64) == 5,
        shifts_ok_upto(0b11000000_11100000_00000000_00000000_00000000_00000000_00000000_00000000u64, 43),
        pop_count(0b11000000_11100000_00000000_00000000_00000000_00000000_00000000_00000000u64) == 5,
        shifts_ok_upto(0b11100000_01100000_00000000_00000000_00000000_00000000_00000000_00000000u64, 43),
        pop_count(0b11100000_01100000_00000000_00000000_00000000_00000000_00000000_00000000u64) == 5,
        shifts_ok_upto(0b01100000_11100000_00000000_00000000_00000000_00000000_00000000_00000000u64, 43),
        pop_count(0b01100000_11100000_00000000_00000000_00000000_00000000_00000000_00000000u64) == 5,
        shifts_ok_upto(0b11000000_11000000_10000000_00000000_00000000_00000000_00000000_00000000u64, 43),
        pop_count(0b11000000_11000000_10000000_00000000_00000000_00000000_00000000_00000000u64) == 5,
        shifts_ok_upto(0b11000000_11000000_01000000_00000000_00000000_00000000_00000000_00000000u64, 43),
        pop_count(0b11000000_11000000_01000000_00000000_00000000_00000000_00000000_00000000u64) == 5,
        shifts_ok_upto(0b10000000_11000000_11000000_00000000_00000000_00000000_00000000_00000000u64, 43),
        pop_count(0b10000000_11000000_11000000_00000000_00000000_00000000_00000000_00000000u64) == 5,
        shifts_ok_upto(0b01000000_11000000_11000000_00000000_00000000_00000000_00000000_00000000u64, 43),
        pop_count(0b01000000_11000000_11000000_00000000_00000000_00000000_00000000_00000000u64) == 5,
{
    assert(shifts_ok_upto(0b11100000_11000000_00000000_00000000_00000000_00000000_00000000_00000000u64, 43) && pop_count(0b11100000_11000000_00000000_00000000_00000000_00000000_00000000_00000000u64) == 5 && shifts_ok_upto(0b11000000_11100000_00000000_00000000_00000000_00000000_00000000_00000000u64, 43) && pop_count(0b11000000_11100000_00000000_00000000_00000000_00000000_00000000_00000000u64) == 5 && shifts_ok_upto(0b11100000_01100000_00000000_00000000_00000000_00000000_00000000_00000000u64, 43) && pop_count(0b11100000_01100000_00000000_00000000_00000000_00000000_00000000_00000000u64) == 5 && shifts_ok_upto(0b01100000_11100000_00000000_00000000_00000000_00000000_00000000_00000000u64, 43) && pop_count(0b01100000_11100000_00000000_00000000_00000000_00000000_00000000_00000000u64) == 5) by (bit_vector);
    assert(shifts_ok_upto(0b11000000_11000000_10000000_00000000_00000000_00000000_00000000_00000000u64, 43) && pop_count(0b11000000_11000000_10000000_00000000_00000000_00000000_00000000_00000000u64) == 5 && shifts_ok_upto(0b11000000_11000000_01000000_00000000_00000000_00000000_00000000_00000000u64, 43) && pop_count(0b11000000_11000000_01000000_00000000_00000000_00000000_00000000_00000000u64) == 5 && shifts_ok_upto(0b10000000_11000000_11000000_00000000_00000000_00000000_00000000_00000000u64, 43) && pop_count(0b10000000_11000000_11000000_00000000_00000000_00000000_00000000_00000000u64) == 5 && shifts_ok_upto(0b01000000_11000000_11000000_00000000_00000000_00000000_00000000_00000000u64, 43) && pop_count(0b01000000_11000000_11000000_00000000_00000000_00000000_00000000_00000000u64) == 5) by (bit_vector);
}

/// Brick 5 of the catalog: 8 orientation patterns of 5 cells each.
fn brick_5() -> (b: Brick)
    ensures
        b.wf(),
        b.size() == 5,
        b.patterns() == catalog_patterns()[5],
{
    let mut v: Vec<BrickVariant> = Vec::with_capacity(8);
    v.push(BrickVariant::new(0b11100000_11000000_00000000_00000000_00000000_00000000_00000000_00000000u64));
    v.push(BrickVariant::new(0b11000000_11100000_00000000_00000000_00000000_00000000_00000000_00000000u64));
    v.push(BrickVariant::new(0b11100000_01100000_00000000_00000000_00000000_00000000_00000000_00000000u64));
    v.push(BrickVariant::new(0b01100000_11100000_00000000_00000000_00000000_00000000_00000000_00000000u64));
    v.push(BrickVariant::new(0b11000000_11000000_10000000_00000000_00000000_00000000_00000000_00000000u64));
    v.push(BrickVariant::new(0b11000000_11000000_01000000_00000000_00000000_00000000_00000000_00000000u64));
    v.push(BrickVariant::new(0b10000000_11000000_11000000_00000000_00000000_00000000_00000000_00000000u64));
    v.push(BrickVariant::new(0b01000000_11000000_11000000_00000000_00000000_00000000_00000000_00000000u64));
    let b = Brick::new(v);
    proof {
        brick_5_facts();
        let vs = b.brick_variants@;
        assert(vs.len() == 8);
        assert(vs[0].bit_pattern == 0b11100000_11000000_00000000_00000000_00000000_00000000_00000000_00000000u64);
        assert(vs[1].bit_pattern == 0b11000000_11100000_00000000_00000000_00000000_00000000_00000000_00000000u64);
        assert(vs[2].bit_pattern == 0b11100000_01100000_00000000_00000000_00000000_00000000_00000000_00000000u64);
        assert(vs[3].bit_pattern == 0b01100000_11100000_00000000_00000000_00000000_00000000_00000000_00000000u64);
        assert(vs[4].bit_pattern == 0b11000000_11000000_10000000_00000000_00000000_00000000_00000000_00000000u64);
        assert(vs[5].bit_pattern == 0b11000000_11000000_01000000_00000000_00000000_00000000_00000000_00000000u64);
        assert(vs[6].bit_pattern == 0b10000000_11000000_11000000_00000000_00000000_00000000_00000000_00000000u64);
        assert(vs[7].bit_pattern == 0b01000000_11000000_11000000_00000000_00000000_00000000_00000000_00000000u64);
        assert(b.patterns() =~= catalog_patterns()[5]);
        assert forall|i: int, j: int| 0 <= i < j < vs.len() implies vs[i].bit_pattern
            != vs[j].bit_pattern by {
        }
        assert forall|i: int| 0 <= i < vs.len() implies variant_ok(
            (#[trigger] vs[i]).bit_pattern,
        ) && pop_count(vs[i].bit_pattern) == 5 by {
            if i == 0 {
            } else if i == 1 {
            } else if i == 2 {
            } else if i == 3 {
            } else if i == 4 {
            } else if i == 5 {
            } else if i == 6 {
            } else if i == 7 {
            }
        }
    }
    b
}

/// The patterns of brick 6 survive every offset or collide with a guard,
/// and each covers 5 cells.
proof fn brick_6_facts()
    ensures
        shifts_ok_upto(0b11110000_01000000_00000000_00000000_00000000_00000000_00000000_00000000u64, 43),
        pop_count(0b11110000_01000000_00000000_00000000_00000000_00000000_00000000_00000000u64) == 5,
        shifts_ok_upto(0b11110000_00100000_00000000_00000000_00000000_00000000_00000000_00000000u64, 43),
        pop_count(0b11110000_00100000_00000000_00000000_00000000_00000000_00000000_00000000u64) == 5,
        shifts_ok_upto(0b01000000_11110000_00000000_00000000_00000000_00000000_00000000_00000000u64, 43),
        pop_count(0b01000000_11110000_00000000_00000000_00000000_00000000_00000000_00000000u64) == 5,
        shifts_ok_upto(0b00100000_11110000_00000000_00000000_00000000_00000000_00000000_00000000u64, 43),
        pop_count(0b00100000_11110000_00000000_00000000_00000000_00000000_00000000_00000000u64) == 5,
        shifts_ok_upto(0b10000000_11000000_10000000_10000000_00000000_00000000_00000000_00000000u64, 43),
        pop_count(0b10000000_11000000_10000000_10000000_00000000_00000000_00000000_00000000u64) == 5,
        shifts_ok_upto(0b10000000_10000000_11000000_10000000_00000000_00000000_00000000_00000000u64, 43),
        pop_count(0b10000000_10000000_11000000_10000000_00000000_00000000_00000000_00000000u64) == 5,
        shifts_ok_upto(0b01000000_11000000_01000000_01000000_00000000_00000000_00000000_00000000u64, 43),
        pop_count(0b01000000_11000000_01000000_01000000_00000000_00000000_00000000_00000000u64) == 5,
        shifts_ok_upto(0b01000000_01000000_11000000_01000000_00000000_00000000_00000000_00000000u64, 43),
        pop_count(0b01000000_01000000_11000000_01000000_00000000_00000000_00000000_00000000u64) == 5,
{
    assert(shifts_ok_upto(0b11110000_01000000_00000000_00000000_00000000_00000000_00000000_00000000u64, 43) && pop_count(0b11110000_01000000_00000000_00000000_00000000_00000000_00000000_00000000u64) == 5 && shifts_ok_upto(0b11110000_00100000_00000000_00000000_00000000_00000000_00000000_00000000u64, 43) && pop_count(0b11110000_00100000_00000000_00000000_00000000_00000000_00000000_00000000u64) == 5 && shifts_ok_upto(0b01000000_11110000_00000000_00000000_00000000_00000000_00000000_00000000u64, 43) && pop_count(0b01000000_11110000_00000000_00000000_00000000_00000000_00000000_00000000u64) == 5 && shifts_ok_upto(0b00100000_11110000_00000000_00000000_00000000_00000000_00000000_00000000u64, 43) && pop_count(0b00100000_11110000_00000000_00000000_00000000_00000000_00000000_00000000u64) == 5) by (bit_vector);
    assert(shifts_ok_upto(0b10000000_11000000_10000000_10000000_00000000_00000000_00000000_00000000u64, 43) && pop_count(0b10000000_11000000_10000000_10000000_00000000_00000000_00000000_00000000u64) == 5 && shifts_ok_upto(0b10000000_10000000_11000000_10000000_00000000_00000000_00000000_00000000u64, 43) && pop_count(0b10000000_10000000_11000000_10000000_00000000_00000000_00000000_00000000u64) == 5 && shifts_ok_upto(0b01000000_11000000_01000000_01000000_00000000_00000000_00000000_00000000u64, 43) && pop_count(0b01000000_11000000_01000000_01000000_00000000_00000000_00000000_00000000u64) == 5 && shifts_ok_upto(0b01000000_01000000_11000000_01000000_00000000_00000000_00000000_00000000u64, 43) && pop_count(0b01000000_01000000_11000000_01000000_00000000_00000000_00000000_00000000u64) == 5) by (bit_vector);
}

/// Brick 6 of the catalog: 8 orientation patterns of 5 cells each.
fn brick_6() -> (b: Brick)
    ensures
        b.wf(),
        b.size() == 5,
        b.patterns() == catalog_patterns()[6],
{
    let mut v: Vec<BrickVariant> = Vec::with_capacity(8);
    v.push(BrickVariant::new(0b11110000_01000000_00000000_00000000_00000000_00000000_00000000_00000000u64));
    v.push(BrickVariant::new(0b11110000_00100000_00000000_00000000_00000000_00000000_00000000_00000000u64));
    v.push(BrickVariant::new(0b01000000_11110000_00000000_00000000_00000000_00000000_00000000_00000000u64));
    v.push(BrickVariant::new(0b00100000_11110000_00000000_00000000_00000000_00000000_00000000_00000000u64));
    v.push(BrickVariant::new(0b10000000_11000000_10000000_10000000_00000000_00000000_00000000_00000000u64));
    v.push(BrickVariant::new(0b10000000_10000000_11000000_10000000_00000000_00000000_00000000_00000000u64));
    v.push(BrickVariant::new(0b01000000_11000000_01000000_01000000_00000000_00000000_00000000_00000000u64));
    v.push(BrickVariant::new(0b01000000_01000000_11000000_01000000_00000000_00000000_00000000_00000000u64));
    let b = Brick::new(v);
    proof {
        brick_6_facts();
        let vs = b.brick_variants@;
        assert(vs.len() == 8);
        assert(vs[0].bit_pattern == 0b11110000_01000000_00000000_00000000_00000000_00000000_00000000_00000000u64);
        assert(vs[1].bit_pattern == 0b11110000_00100000_00000000_00000000_00000000_00000000_00000000_00000000u64);
        assert(vs[2].bit_pattern == 0b01000000_11110000_00000000_00000000_00000000_00000000_00000000_00000000u64);
        assert(vs[3].bit_pattern == 0b00100000_11110000_00000000_00000000_00000000_00000000_00000000_00000000u64);
        assert(vs[4].bit_pattern == 0b10000000_11000000_10000000_10000000_00000000_00000000_00000000_00000000u64);
        assert(vs[5].bit_pattern == 0b10000000_10000000_11000000_10000000_00000000_00000000_00000000_00000000u64);
        assert(vs[6].bit_pattern == 0b01000000_11000000_01000000_01000000_00000000_00000000_00000000_00000000u64);
        assert(vs[7].bit_pattern == 0b01000000_01000000_11000000_01000000_00000000_00000000_00000000_00000000u64);
        assert(b.patterns() =~= catalog_patterns()[6]);
        assert forall|i: int, j: int| 0 <= i < j < vs.len() implies vs[i].bit_pattern
            != vs[j].bit_pattern by {
        }
        assert forall|i: int| 0 <= i < vs.len() implies variant_ok(
            (#[trigger] vs[i]).bit_pattern,
        ) && pop_count(vs[i].bit_pattern) == 5 by {
            if i == 0 {
            } else if i == 1 {
            } else if i == 2 {
            } else if i == 3 {
            } else if i == 4 {
            } else if i == 5 {
            } else if i == 6 {
            } else if i == 7 {
            }
        }
    }
    b
}

/// The patterns of brick 7 survive every offset or collide with a guard,
/// and each covers 5 cells.
proof fn brick_7_facts()
    ensures
        shifts_ok_upto(0b11100000_00110000_00000000_00000000_00000000_00000000_00000000_00000000u64, 43),
        pop_count(0b11100000_00110000_00000000_00000000_00000000_00000000_00000000_00000000u64) == 5,
        shifts_ok_upto(0b01110000_11000000_00000000_00000000_00000000_00000000_00000000_00000000u64, 43),
        pop_count(0b01110000_11000000_00000000_00000000_00000000_00000000_00000000_00000000u64) == 5,
        shifts_ok_upto(0b11000000_01110000_00000000_00000000_00000000_00000000_00000000_00000000u64, 43),
        pop_count(0b11000000_01110000_00000000_00000000_00000000_00000000_00000000_00000000u64) == 5,
        shifts_ok_upto(0b00110000_11100000_00000000_00000000_00000000_00000000_00000000_00000000u64, 43),
        pop_count(0b00110000_11100000_00000000_00000000_00000000_00000000_00000000_00000000u64) == 5,
        shifts_ok_upto(0b10000000_10000000_11000000_01000000_00000000_00000000_00000000_00000000u64, 43),
        pop_count(0b10000000_10000000_11000000_01000000_00000000_00000000_00000000_00000000u64) == 5,
        shifts_ok_upto(0b01000000_11000000_10000000_10000000_00000000_00000000_00000000_00000000u64, 43),
        pop_count(0b01000000_11000000_10000000_10000000_00000000_00000000_00000000_00000000u64) == 5,
        shifts_ok_upto(0b10000000_11000000_01000000_01000000_00000000_00000000_00000000_00000000u64, 43),
        pop_count(0b10000000_11000000_01000000_01000000_00000000_00000000_00000000_00000000u64) == 5,
        shifts_ok_upto(0b01000000_01000000_11000000_10000000_00000000_00000000_00000000_00000000u64, 43),
        pop_count(0b01000000_01000000_11000000_10000000_00000000_00000000_00000000_00000000u64) == 5,
{
    assert(shifts_ok_upto(0b11100000_00110000_00000000_00000000_00000000_00000000_00000000_00000000u64, 43) && pop_count(0b11100000_00110000_00000000_00000000_00000000_00000000_00000000_00000000u64) == 5 && shifts_ok_upto(0b01110000_11000000_00000000_00000000_00000000_00000000_00000000_00000000u64, 43) && pop_count(0b01110000_11000000_00000000_00000000_00000000_00000000_00000000_00000000u64) == 5 && shifts_ok_upto(0b11000000_01110000_00000000_00000000_00000000_00000000_00000000_00000000u64, 43) && pop_count(0b11000000_01110000_00000000_00000000_00000000_00000000_00000000_00000000u64) == 5 && shifts_ok_upto(0b00110000_11100000_00000000_00000000_00000000_00000000_00000000_00000000u64, 43) && pop_count(0b00110000_11100000_00000000_00000000_00000000_00000000_00000000_00000000u64) == 5) by (bit_vector);
    assert(shifts_ok_upto(0b10000000_10000000_11000000_01000000_00000000_00000000_00000000_00000000u64, 43) && pop_count(0b10000000_10000000_11000000_01000000_00000000_00000000_00000000_00000000u64) == 5 && shifts_ok_upto(0b01000000_11000000_10000000_10000000_00000000_00000000_00000000_00000000u64, 43) && pop_count(0b01000000_11000000_10000000_10000000_00000000_00000000_00000000_00000000u64) == 5 && shifts_ok_upto(0b10000000_11000000_01000000_01000000_00000000_00000000_00000000_00000000u64, 43) && pop_count(0b10000000_11000000_01000000_01000000_00000000_00000000_00000000_00000000u64) == 5 && shifts_ok_upto(0b01000000_01000000_11000000_10000000_00000000_00000000_00000000_00000000u64, 43) && pop_count(0b01000000_01000000_11000000_10000000_00000000_00000000_00000000_00000000u64) == 5) by (bit_vector);
}

/// Brick 7 of the catalog: 8 orientation patterns of 5 cells each.
fn brick_7() -> (b: Brick)
    ensures
        b.wf(),
        b.size() == 5,
        b.patterns() == catalog_patterns()[7],
{
    let mut v: Vec<BrickVariant> = Vec::with_capacity(8);
    v.push(BrickVariant::new(0b11100000_00110000_00000000_00000000_00000000_00000000_00000000_00000000u64));
    v.push(BrickVariant::new(0b01110000_11000000_00000000_00000000_00000000_00000000_00000000_00000000u64));
    v.push(BrickVariant::new(0b11000000_01110000_00000000_00000000_00000000_00000000_00000000_00000000u64));
    v.push(BrickVariant::new(0b00110000_11100000_00000000_00000000_00000000_00000000_00000000_00000000u64));
    v.push(BrickVariant::new(0b10000000_10000000_11000000_01000000_00000000_00000000_00000000_00000000u64));
    v.push(BrickVariant::new(0b01000000_11000000_10000000_10000000_00000000_00000000_00000000_00000000u64));
    v.push(BrickVariant::new(0b10000000_11000000_01000000_01000000_00000000_00000000_00000000_00000000u64));
    v.push(BrickVariant::new(0b01000000_01000000_11000000_10000000_00000000_00000000_00000000_00000000u64));
    let b = Brick::new(v);
    proof {
        brick_7_facts();
        let vs = b.brick_variants@;
        assert(vs.len() == 8);
        assert(vs[0].bit_pattern == 0b11100000_00110000_00000000_00000000_00000000_00000000_00000000_00000000u64);
        assert(vs[1].bit_pattern == 0b01110000_11000000_00000000_00000000_00000000_00000000_00000000_00000000u64);
        assert(vs[2].bit_pattern == 0b11000000_01110000_00000000_00000000_00000000_00000000_00000000_00000000u64);
        assert(vs[3].bit_pattern == 0b00110000_11100000_00000000_00000000_00000000_00000000_00000000_00000000u64);
        assert(vs[4].bit_pattern == 0b10000000_10000000_11000000_01000000_00000000_00000000_00000000_00000000u64);
        assert(vs[5].bit_pattern == 0b01000000_11000000_10000000_10000000_00000000_00000000_00000000_00000000u64);
        assert(vs[6].bit_pattern == 0b10000000_11000000_01000000_01000000_00000000_00000000_00000000_00000000u64);
        assert(vs[7].bit_pattern == 0b01000000_01000000_11000000_10000000_00000000_00000000_00000000_00000000u64);
        assert(b.patterns() =~= catalog_patterns()[7]);
        assert forall|i: int, j: int| 0 <= i < j < vs.len() implies vs[i].bit_pattern
            != vs[j].bit_pattern by {
        }
        assert forall|i: int| 0 <= i < vs.len() implies variant_ok(
            (#[trigger] vs[i]).bit_pattern,
        ) && pop_count(vs[i].bit_pattern) == 5 by {
            if i == 0 {
            } else if i == 1 {
            } else if i == 2 {
            } else if i == 3 {
            } else if i == 4 {
            } else if i == 5 {
            } else if i == 6 {
            } else if i == 7 {
            }
        }
    }
    b
}

} // verus!
