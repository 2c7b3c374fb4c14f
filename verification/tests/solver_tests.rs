use solver::{Board, Brick, DateError, Hint, SolvedBoard, brick_labels, hints, rank_placements, solve};

fn collect_solutions(board: Board, bricks: &[Brick]) -> Vec<SolvedBoard> {
    let mut it = solve(board, bricks);
    let mut solutions = Vec::new();
    while let Some(s) = it.next() {
        solutions.push(s);
    }
    solutions
}

#[test]
fn initial_empty_board() {
    let empty_board = Board::new();
    let empty_free_indexes = [
        0, 1, 2, 3, 4, 5, 8, 9, 10, 11, 12, 13, 16, 17, 18, 19, 20, 21, 22, 24, 25, 26, 27, 28,
        29, 30, 32, 33, 34, 35, 36, 37, 38, 40, 41, 42, 43, 44, 45, 46, 48, 49, 50,
    ];
    let empty_occupied_indexes = [
        6, 7, 14, 15, 15, 23, 31, 47, 51, 52, 53, 54, 55, 56, 57, 58, 59, 60, 61, 62, 63,
    ];
    for idx in empty_free_indexes {
        assert!(empty_board.is_free(idx));
        assert!(!empty_board.is_occupied(idx));
    }
    for idx in empty_occupied_indexes {
        assert!(empty_board.is_occupied(idx));
        assert!(!empty_board.is_free(idx));
    }
    assert!(empty_board.is_free(0));
}

#[test]
fn place_all_brick_variants_on_empty_board() {
    let empty_board = Board::new();
    let mut placement_counter = 0;
    for brick in Brick::all_bricks() {
        let mut it = empty_board.valid_placements(&brick);
        while let Some(_) = it.next() {
            placement_counter += 1;
        }
    }
    assert_eq!(placement_counter, 961);
}

#[test]
fn solve_jan_1() {
    let board = Board::for_date(1, 1).unwrap(); // January 1st.
    let solutions = collect_solutions(board, &Brick::all_bricks());
    assert_eq!(solutions.len(), 64);
    assert!(
        solutions.last().unwrap().test_count <= 4_704_245,
        "Regression, used {} tests",
        solutions.last().unwrap().test_count
    );
}

#[test]
fn solve_dec_31() {
    let board = Board::for_date(31, 12).unwrap(); // December 31st.
    let solutions = collect_solutions(board, &Brick::all_bricks());
    assert_eq!(solutions.len(), 77);
    assert!(
        solutions.last().unwrap().test_count <= 4_790_901,
        "Regression, used {} tests",
        solutions.last().unwrap().test_count
    );
}

#[test]
fn solve_sep_22() {
    let board = Board::for_date(22, 9).unwrap();
    let solutions = collect_solutions(board, &Brick::all_bricks());
    assert_eq!(solutions.len(), 29);
    assert!(
        solutions.last().unwrap().test_count <= 1_983_044,
        "Regression, used {} tests",
        solutions.last().unwrap().test_count
    );
}

#[test]
fn hints_july_29() {
    let board = Board::for_date(29, 7).unwrap(); // July 29th.
    let hints = hints(board, &Brick::all_bricks());
    // There are 155 possible valid hint bricks
    assert_eq!(hints.len(), 155);
    // The "best" hint has 12 possible solutions
    assert_eq!(hints.first().unwrap().solutions, 12);
    // The "worst" hint has only one possible solution
    assert_eq!(hints.last().unwrap().solutions, 1);
}

#[test]
fn date_rejects_out_of_range_month() {
    assert_eq!(Board::for_date(1, 0).unwrap_err(), DateError::InvalidMonth(0));
    assert_eq!(Board::for_date(1, 13).unwrap_err(), DateError::InvalidMonth(13));
    // the month is checked before the day
    assert_eq!(Board::for_date(99, 13).unwrap_err(), DateError::InvalidMonth(13));
}

#[test]
fn date_rejects_out_of_range_day() {
    assert_eq!(Board::for_date(0, 1).unwrap_err(), DateError::InvalidDay(0));
    assert_eq!(Board::for_date(32, 12).unwrap_err(), DateError::InvalidDay(32));
}

#[test]
fn implausible_february_dates_are_constructible() {
    // only numeric ranges are validated, not calendar plausibility
    for day in [29u8, 30, 31] {
        let board = Board::for_date(day, 2).unwrap();
        assert!(board.is_occupied(1)); // month cell for February
    }
}

#[test]
fn date_board_marks_month_and_day_cells() {
    let board = Board::for_date(1, 1).unwrap();
    assert!(board.is_occupied(0)); // January
    assert!(board.is_occupied(16)); // day 1
    assert!(board.is_free(1));
    let board = Board::for_date(31, 12).unwrap();
    assert!(board.is_occupied(13)); // December
    assert!(board.is_occupied(50)); // day 31
}

#[test]
fn solutions_tile_the_whole_board() {
    // month 9 -> cell 10, day 22 -> cell 40
    let initial_mask = {
        let mut mask = 0u64;
        let occupied = [
            6u32, 7, 14, 15, 23, 31, 39, 47, 51, 52, 53, 54, 55, 56, 57, 58, 59, 60, 61, 62, 63,
            10, 40,
        ];
        for i in occupied {
            mask |= 1u64 << 63 >> i;
        }
        mask
    };
    let board = Board::for_date(22, 9).unwrap();
    let solutions = collect_solutions(board, &Brick::all_bricks());
    assert!(!solutions.is_empty());
    for solution in &solutions {
        assert_eq!(solution.placed_bricks.len(), 8);
        let mut union = 0u64;
        for (i, &p) in solution.placed_bricks.iter().enumerate() {
            assert_ne!(p, 0);
            for &q in &solution.placed_bricks[i + 1..] {
                assert_eq!(p & q, 0, "two placements overlap");
            }
            assert_eq!(p & initial_mask, 0, "a placement covers an initial cell");
            union |= p;
        }
        assert_eq!(union | initial_mask, u64::MAX, "the tiling left a gap");
    }
}

#[test]
fn exploration_count_is_non_decreasing() {
    let board = Board::for_date(1, 1).unwrap();
    let solutions = collect_solutions(board, &Brick::all_bricks());
    for pair in solutions.windows(2) {
        assert!(pair[0].test_count <= pair[1].test_count);
    }
}

#[test]
fn solving_the_same_date_twice_is_identical() {
    let bricks = Brick::all_bricks();
    let first = collect_solutions(Board::for_date(22, 9).unwrap(), &bricks);
    let second = collect_solutions(Board::for_date(22, 9).unwrap(), &bricks);
    assert_eq!(first.len(), second.len());
    for (a, b) in first.iter().zip(second.iter()) {
        assert_eq!(a.placed_bricks, b.placed_bricks);
        assert_eq!(a.test_count, b.test_count);
    }
}

#[test]
fn hint_counts_sum_to_bricks_times_solutions() {
    let bricks = Brick::all_bricks();
    let n_solutions = collect_solutions(Board::for_date(29, 7).unwrap(), &bricks).len();
    let all_hints = hints(Board::for_date(29, 7).unwrap(), &bricks);
    let total: usize = all_hints.iter().map(|h| h.solutions).sum();
    assert_eq!(total, 8 * n_solutions);
}

#[test]
fn hints_of_unsolvable_board_are_empty() {
    // a board with every cell occupied admits no placement at all
    let mut board = Board::for_date(1, 1).unwrap();
    for i in 0..64u8 {
        board.set_index(i);
    }
    let all_hints = hints(board, &Brick::all_bricks());
    assert!(all_hints.is_empty());
}

#[test]
fn rank_placements_counts_and_orders() {
    let patterns: Vec<u64> = vec![5, 9, 5, 7, 5, 9];
    let ranking: Vec<Hint> = rank_placements(&patterns);
    assert_eq!(ranking.len(), 3);
    assert_eq!(ranking[0].brick, 5);
    assert_eq!(ranking[0].solutions, 3);
    assert_eq!(ranking[1].brick, 9);
    assert_eq!(ranking[1].solutions, 2);
    assert_eq!(ranking[2].brick, 7);
    assert_eq!(ranking[2].solutions, 1);
}

#[test]
fn brick_labels_marks_cells_with_last_covering_brick() {
    let top_left = 1u64 << 63; // cell 0
    let second_cell = 1u64 << 62; // cell 1
    let labels = brick_labels(&vec![top_left, second_cell | top_left]);
    assert_eq!(labels.len(), 51);
    assert_eq!(labels[0], 2); // the later brick wins
    assert_eq!(labels[1], 2);
    for i in 2..51 {
        assert_eq!(labels[i], 0);
    }
}

#[test]
fn first_solution_can_be_taken_alone() {
    let bricks = Brick::all_bricks();
    let mut it = solve(Board::for_date(1, 1).unwrap(), &bricks);
    let first = it.next().expect("January 1st has solutions");
    assert_eq!(first.placed_bricks.len(), 8);
    // resuming continues the same run: the counter keeps growing
    let second = it.next().expect("January 1st has more than one solution");
    assert!(first.test_count <= second.test_count);
}

#[test]
fn catalog_shape_matches_the_authored_pieces() {
    let bricks = Brick::all_bricks();
    assert_eq!(bricks.len(), 8);
    let variant_counts: Vec<usize> = bricks.iter().map(|b| b.brick_variants.len()).collect();
    assert_eq!(variant_counts, vec![4, 8, 4, 2, 4, 8, 8, 8]);
    let sizes: Vec<u32> = bricks
        .iter()
        .map(|b| b.brick_variants[0].bit_pattern.count_ones())
        .collect();
    assert_eq!(sizes, vec![5, 5, 5, 6, 5, 5, 5, 5]);
    for brick in &bricks {
        for (i, v) in brick.brick_variants.iter().enumerate() {
            // every orientation is a distinct nonzero footprint of equal size
            assert_ne!(v.bit_pattern, 0);
            assert_eq!(v.bit_pattern.count_ones(), brick.brick_variants[0].bit_pattern.count_ones());
            for w in &brick.brick_variants[i + 1..] {
                assert_ne!(v.bit_pattern, w.bit_pattern);
            }
        }
    }
}
