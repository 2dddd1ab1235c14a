use bit_board::bitboard::BitBoard;
use bit_board::bitboarddyn::BitBoardDyn;

fn cells(bb: &BitBoardDyn) -> Vec<u8> {
    (0..bb.n_rows() * bb.n_cols())
        .map(|index| if bb.read_bit(index).unwrap() { 1 } else { 0 })
        .collect()
}

fn board(bits: &[u8], n_rows: usize, n_cols: usize) -> BitBoardDyn {
    let mut bb = BitBoardDyn::new(n_rows, n_cols);
    for index in 0..bits.len() {
        bb.write_bit(index, bits[index] == 1);
    }
    bb
}

#[test]
fn lib_can_construct() {
    let bb = BitBoardDyn::new(2, 2);
    println!("{:?}", bb);
}

#[test]
fn lib_new_is_empty() {
    let bb = BitBoardDyn::new(5, 7);
    assert_eq!(bb.n_rows(), 5);
    assert_eq!(bb.n_cols(), 7);
    assert_eq!(cells(&bb), vec![0; 35]);
    assert_eq!(bb.read_bit(35), None);
}

#[test]
fn lib_index_of() {
    let cases: [(usize, usize, usize); 4] = [(0, 0, 0), (0, 1, 1), (1, 0, 2), (1, 1, 3)];
    for (row, col, expected) in cases {
        let bb = BitBoardDyn::new(2, 2);
        assert_eq!(expected, bb.index_of(row, col))
    }
}

#[test]
fn lib_col_vec_index_of() {
    let cases: [(usize, usize, usize); 5] = [(0, 0, 0), (1, 0, 1), (2, 0, 2), (3, 0, 3), (4, 0, 4)];
    for (row, col, expected) in cases {
        let bb = BitBoardDyn::new(5, 1);
        assert_eq!(expected, bb.index_of(row, col))
    }
}

#[test]
fn lib_row_vec_index_of() {
    let cases: [(usize, usize, usize); 5] = [(0, 0, 0), (0, 1, 1), (0, 2, 2), (0, 3, 3), (0, 4, 4)];
    for (row, col, expected) in cases {
        let bb = BitBoardDyn::new(1, 5);
        assert_eq!(expected, bb.index_of(row, col))
    }
}

#[test]
fn lib_set_col() {
    for col in 0..5 {
        let mut bb = BitBoardDyn::new(5, 5);
        bb.set_col(col, true);
        for ridx in 0..bb.n_rows() {
            for cidx in 0..bb.n_cols() {
                if cidx == col {
                    assert!(bb.read_bit(bb.index_of(ridx, cidx)).unwrap())
                } else {
                    assert!(!bb.read_bit(bb.index_of(ridx, cidx)).unwrap())
                }
            }
        }
    }
}

#[test]
fn lib_set_row() {
    for row in 0..5 {
        let mut bb = BitBoardDyn::new(5, 5);
        bb.set_row(row, true);
        for ridx in 0..bb.n_rows() {
            for cidx in 0..bb.n_cols() {
                if ridx == row {
                    assert!(bb.read_bit(bb.index_of(ridx, cidx)).unwrap())
                } else {
                    assert!(!bb.read_bit(bb.index_of(ridx, cidx)).unwrap())
                }
            }
        }
    }
}

#[test]
fn lib_can_set_all_bits() {
    // Create the board
    let nr = 3;
    let nc = 3;
    let mut bb = BitBoardDyn::new(nr, nc);

    bb.set(0, 0, true);

    // Set each bit, and check that all bits are 1
    for ridx in 0..nr {
        for cidx in 0..nc {
            bb.set(ridx, cidx, true);
        }
    }
    assert!((0..nr * nc).all(|index| bb.read_bit(index) == Some(true)));

    // Unset each bit, and check that all bits are 0
    for ridx in 0..nr {
        for cidx in 0..nc {
            bb.set(ridx, cidx, false);
        }
    }
    assert!(!(0..nr * nc).any(|index| bb.read_bit(index) == Some(true)));
}

#[test]
fn lib_set_cardinal_neighbors_2x2() {
    let cases: [(usize, usize, [u8; 4]); 4] = [
        (0, 0, [0, 1, 1, 0]),
        (0, 1, [1, 0, 0, 1]),
        (1, 0, [1, 0, 0, 1]),
        (1, 1, [0, 1, 1, 0]),
    ];
    for (row, col, expect) in cases {
        let mut bb = BitBoardDyn::new(2, 2);
        bb.set_cardinal_neighbors(row, col, true);
        assert_eq!(board(&expect, 2, 2), bb);
    }
}

#[test]
fn lib_set_cardinal_neighbors_3x3() {
    let cases: [(usize, usize, [u8; 9]); 9] = [
        (0, 0, [0, 1, 0, 1, 0, 0, 0, 0, 0]),
        (0, 1, [1, 0, 1, 0, 1, 0, 0, 0, 0]),
        (0, 2, [0, 1, 0, 0, 0, 1, 0, 0, 0]),
        (1, 0, [1, 0, 0, 0, 1, 0, 1, 0, 0]),
        (1, 1, [0, 1, 0, 1, 0, 1, 0, 1, 0]),
        (1, 2, [0, 0, 1, 0, 1, 0, 0, 0, 1]),
        (2, 0, [0, 0, 0, 1, 0, 0, 0, 1, 0]),
        (2, 1, [0, 0, 0, 0, 1, 0, 1, 0, 1]),
        (2, 2, [0, 0, 0, 0, 0, 1, 0, 1, 0]),
    ];
    for (row, col, expect) in cases {
        let mut bb = BitBoardDyn::new(3, 3);
        bb.set_cardinal_neighbors(row, col, true);
        assert_eq!(board(&expect, 3, 3), bb);
        assert_eq!(cells(&bb), expect.to_vec());
    }
}

#[test]
fn lib_set_all_neighbors_2x2() {
    let cases: [(usize, usize, [u8; 4]); 4] = [
        (0, 0, [0, 1, 1, 1]),
        (0, 1, [1, 0, 1, 1]),
        (1, 0, [1, 1, 0, 1]),
        (1, 1, [1, 1, 1, 0]),
    ];
    for (row, col, expect) in cases {
        let mut bb = BitBoardDyn::new(2, 2);
        bb.set_all_neighbors(row, col, true);
        assert_eq!(board(&expect, 2, 2), bb);
    }
}

#[test]
fn lib_set_all_neighbors_3x3() {
    let cases: [(usize, usize, [u8; 9]); 9] = [
        (0, 0, [0, 1, 0, 1, 1, 0, 0, 0, 0]),
        (0, 1, [1, 0, 1, 1, 1, 1, 0, 0, 0]),
        (0, 2, [0, 1, 0, 0, 1, 1, 0, 0, 0]),
        (1, 0, [1, 1, 0, 0, 1, 0, 1, 1, 0]),
        (1, 1, [1, 1, 1, 1, 0, 1, 1, 1, 1]),
        (1, 2, [0, 1, 1, 0, 1, 0, 0, 1, 1]),
        (2, 0, [0, 0, 0, 1, 1, 0, 0, 1, 0]),
        (2, 1, [0, 0, 0, 1, 1, 1, 1, 0, 1]),
        (2, 2, [0, 0, 0, 0, 1, 1, 0, 1, 0]),
    ];
    for (row, col, expect) in cases {
        let mut bb = BitBoardDyn::new(3, 3);
        bb.set_all_neighbors(row, col, true);
        assert_eq!(board(&expect, 3, 3), bb);
        assert_eq!(cells(&bb), expect.to_vec());
    }
}

#[test]
fn lib_and_dimension_mismatch() {
    let cases: [(usize, usize, usize, usize); 3] = [(1, 1, 1, 2), (2, 1, 1, 2), (2, 1, 2, 7)];
    for (b1r, b1c, b2r, b2c) in cases {
        let bb1 = BitBoardDyn::new(b1r, b1c);
        let bb8 = BitBoardDyn::new(b2r, b2c);
        assert!(bb1.and(&bb8).is_err());
    }
}

#[test]
fn lib_or_dimension_mismatch() {
    let cases: [(usize, usize, usize, usize); 3] = [(1, 1, 1, 2), (2, 1, 1, 2), (2, 1, 2, 7)];
    for (b1r, b1c, b2r, b2c) in cases {
        let bb1 = BitBoardDyn::new(b1r, b1c);
        let bb8 = BitBoardDyn::new(b2r, b2c);
        assert!(bb1.or(&bb8).is_err());
    }
}

#[test]
fn lib_and_operations() {
    let cases: [([u8; 4], [u8; 4], [u8; 4]); 6] = [
        ([0, 0, 0, 0], [0, 0, 0, 0], [0, 0, 0, 0]), // empty AND empty
        ([1, 1, 1, 1], [1, 1, 1, 1], [1, 1, 1, 1]), // full AND full
        ([0, 0, 0, 0], [1, 1, 1, 1], [0, 0, 0, 0]), // empty AND full
        ([1, 1, 1, 1], [1, 0, 0, 1], [1, 0, 0, 1]), // full AND partial
        ([1, 0, 1, 0], [0, 1, 0, 1], [0, 0, 0, 0]), // alternating patterns
        ([1, 1, 0, 0], [1, 0, 1, 0], [1, 0, 0, 0]), // partial patterns
    ];
    for (board1, board2, expected) in cases {
        let bb1 = board(&board1, 2, 2);
        let bb2 = board(&board2, 2, 2);

        let result = bb1.and(&bb2).unwrap();
        assert_eq!(cells(&result), expected.to_vec());
        assert_eq!(result.n_rows(), 2);
        assert_eq!(result.n_cols(), 2);
    }
}

#[test]
fn lib_or_operations() {
    let cases: [([u8; 4], [u8; 4], [u8; 4]); 7] = [
        ([0, 0, 0, 0], [0, 0, 0, 0], [0, 0, 0, 0]), // empty OR empty
        ([1, 1, 1, 1], [1, 1, 1, 1], [1, 1, 1, 1]), // full OR full
        ([0, 0, 0, 0], [1, 1, 1, 1], [1, 1, 1, 1]), // empty OR full
        ([0, 0, 0, 0], [1, 0, 0, 1], [1, 0, 0, 1]), // empty OR partial
        ([1, 0, 1, 0], [0, 1, 0, 1], [1, 1, 1, 1]), // alternating patterns
        ([1, 1, 0, 0], [0, 0, 1, 1], [1, 1, 1, 1]), // complementary patterns
        ([1, 0, 0, 1], [0, 1, 1, 0], [1, 1, 1, 1]), // diagonal patterns
    ];
    for (board1, board2, expected) in cases {
        let bb1 = board(&board1, 2, 2);
        let bb2 = board(&board2, 2, 2);

        let result = bb1.or(&bb2).unwrap();
        assert_eq!(cells(&result), expected.to_vec());
        assert_eq!(result.n_rows(), 2);
        assert_eq!(result.n_cols(), 2);
    }
}

#[test]
fn lib_and_or_larger_boards() {
    let mut bb1 = BitBoardDyn::new(3, 3);
    bb1.set_row(0, true); // First row all true
    bb1.set(2, 2, true); // Bottom right corner

    let mut bb2 = BitBoardDyn::new(3, 3);
    bb2.set_col(0, true); // First column all true
    bb2.set(1, 1, true); // Center

    // Test AND operation
    let and_result = bb1.and(&bb2).unwrap();
    assert!(and_result.read_bit(0).unwrap()); // (0,0) - both have true
    assert!(!and_result.read_bit(1).unwrap()); // (0,1) - only bb1 has true
    assert!(!and_result.read_bit(2).unwrap()); // (0,2) - only bb1 has true
    assert!(!and_result.read_bit(3).unwrap()); // (1,0) - only bb2 has true
    assert!(!and_result.read_bit(4).unwrap()); // (1,1) - only bb2 has true
    assert!(!and_result.read_bit(6).unwrap()); // (2,0) - only bb2 has true

    // Test OR operation
    let or_result = bb1.or(&bb2).unwrap();
    assert!(or_result.read_bit(0).unwrap()); // (0,0) - both have true
    assert!(or_result.read_bit(1).unwrap()); // (0,1) - bb1 has true
    assert!(or_result.read_bit(2).unwrap()); // (0,2) - bb1 has true
    assert!(or_result.read_bit(3).unwrap()); // (1,0) - bb2 has true
    assert!(or_result.read_bit(4).unwrap()); // (1,1) - bb2 has true
    assert!(!or_result.read_bit(5).unwrap()); // (1,2) - neither has true
    assert!(or_result.read_bit(6).unwrap()); // (2,0) - bb2 has true
    assert!(!or_result.read_bit(7).unwrap()); // (2,1) - neither has true
    assert!(or_result.read_bit(8).unwrap()); // (2,2) - bb1 has true
}

#[test]
fn lib_and_or_preserve_original_boards() {
    let mut bb1 = BitBoardDyn::new(2, 2);
    bb1.set(0, 0, true);
    let bb1_original = bb1.clone();

    let mut bb2 = BitBoardDyn::new(2, 2);
    bb2.set(1, 1, true);
    let bb2_original = bb2.clone();

    // Perform operations
    let _and_result = bb1.and(&bb2).unwrap();
    let _or_result = bb1.or(&bb2).unwrap();

    // Original boards should be unchanged
    assert_eq!(bb1, bb1_original);
    assert_eq!(bb2, bb2_original);
}

#[test]
fn lib_clone_is_independent() {
    let mut bb = BitBoardDyn::new(2, 2);
    bb.set(1, 0, true);
    let copy = bb.clone();
    assert_eq!(copy, bb);
    bb.set(0, 0, true);
    assert!(bb.get(0, 0));
    assert!(!copy.get(0, 0));
    assert!(copy.get(1, 0));
    assert_ne!(copy, bb);
}

#[test]
fn lib_try_new_refuses_what_a_bit_vector_cannot_hold() {
    let most = usize::MAX / 8;
    assert!(BitBoardDyn::try_new(most + 1, 1).is_none());
    assert!(BitBoardDyn::try_new(1, most + 1).is_none());
    assert!(BitBoardDyn::try_new(usize::MAX, 2).is_none());
    assert!(BitBoardDyn::try_new(usize::MAX, usize::MAX).is_none());
    assert!(BitBoardDyn::try_new(usize::MAX, 0).is_some());
    assert!(BitBoardDyn::try_new(0, usize::MAX).is_some());
    assert!(BitBoardDyn::try_new(3, 4).is_some());
}

#[test]
fn lib_try_new_gives_the_empty_board() {
    let bb = BitBoardDyn::try_new(4, 5).unwrap();
    assert_eq!(bb, BitBoardDyn::new(4, 5));
    assert_eq!(cells(&bb), vec![0; 20]);
}

#[test]
fn lib_fill_sets_and_clears_every_cell() {
    let mut bb = BitBoardDyn::new(10, 10);
    bb.fill(true);
    assert_eq!(cells(&bb), vec![1; 100]);
    bb.set(3, 3, false);
    assert!(!bb.get(3, 3));
    bb.fill(false);
    assert_eq!(cells(&bb), vec![0; 100]);
}

#[test]
fn lib_and_or_across_several_words() {
    let mut bb1 = BitBoardDyn::new(10, 20);
    bb1.set_row(9, true);
    bb1.set(0, 0, true);
    let mut bb2 = BitBoardDyn::new(10, 20);
    bb2.set_col(19, true);
    bb2.set(0, 0, true);
    let both = bb1.and(&bb2).unwrap();
    let either = bb1.or(&bb2).unwrap();
    for row in 0..10 {
        for col in 0..20 {
            assert_eq!(both.get(row, col), (row == 9 && col == 19) || (row == 0 && col == 0));
            assert_eq!(either.get(row, col), row == 9 || col == 19 || (row == 0 && col == 0));
        }
    }
}
