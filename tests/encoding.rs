use sudoku2lp::{encode, geometry_for_len, EncodeError, Geometry, IlpModel, Relation};

fn blank(len: usize) -> String {
    "0".repeat(len)
}

fn terms(m: &IlpModel, k: usize) -> Vec<usize> {
    m.constraints[k].terms.iter().map(|t| t.0).collect()
}

#[test]
fn constraint_count_for_every_size() {
    for (len, size) in [(16usize, 4usize), (36, 6), (81, 9)] {
        let m = encode(&blank(len)).unwrap();
        assert_eq!(m.constraints.len(), 4 * size * size + 1);
        assert_eq!(m.num_vars, size * size * size);
        assert_eq!(m.objective, vec![(0usize, 1i64)]);
    }
}

#[test]
fn unsupported_lengths_are_rejected() {
    for len in [0usize, 1, 15, 17, 35, 37, 64, 80, 82, 100] {
        assert_eq!(encode(&blank(len)).unwrap_err(), EncodeError::InvalidPuzzleSize);
    }
    assert_eq!(encode("abc").unwrap_err(), EncodeError::InvalidPuzzleSize);
}

#[test]
fn geometry_per_length() {
    assert_eq!(
        geometry_for_len(81),
        Some(Geometry { size: 9, box_rows: 3, box_cols: 3 })
    );
    assert_eq!(
        geometry_for_len(36),
        Some(Geometry { size: 6, box_rows: 2, box_cols: 3 })
    );
    assert_eq!(
        geometry_for_len(16),
        Some(Geometry { size: 4, box_rows: 2, box_cols: 2 })
    );
    assert_eq!(geometry_for_len(25), None);
}

#[test]
fn variable_index_round_trips() {
    for len in [16usize, 36, 81] {
        let g = geometry_for_len(len).unwrap();
        let n = g.size;
        let mut seen = vec![false; n * n * n];
        for row in 0..n {
            for col in 0..n {
                for value in 0..n {
                    let idx = g.variable_index(row, col, value);
                    assert_eq!(idx, row * n * n + col * n + value);
                    assert_eq!(g.decode_variable(idx), (row, col, value));
                    assert!(!seen[idx]);
                    seen[idx] = true;
                }
            }
        }
        assert!(seen.iter().all(|s| *s));
    }
}

#[test]
fn blank_nine_by_nine() {
    let m = encode(&blank(81)).unwrap();
    assert_eq!(m.constraints.len(), 325);
    let clue = m.constraints.last().unwrap();
    assert_eq!(clue.relation, Relation::AtLeast);
    assert_eq!(clue.rhs, 0);
    assert!(clue.terms.is_empty());
}

#[test]
fn single_clue() {
    // A 3 in row 1, column 1 of a 4×4 board: variable 1·16 + 1·4 + 2.
    let mut p = blank(16).into_bytes();
    p[5] = b'3';
    let m = encode(std::str::from_utf8(&p).unwrap()).unwrap();
    let clue = m.constraints.last().unwrap();
    assert_eq!(clue.relation, Relation::AtLeast);
    assert_eq!(clue.rhs, 1);
    assert_eq!(clue.terms, vec![(22usize, 1i64)]);
}

#[test]
fn clue_terms_follow_the_cells() {
    let m = encode("1000020000300004").unwrap();
    let clue = &m.constraints[64];
    assert_eq!(clue.rhs, 4);
    assert_eq!(terms(&m, 64), vec![0, 21, 42, 63]);
    assert!(clue.terms.iter().all(|t| t.1 == 1));
}

#[test]
fn families_in_order() {
    let m = encode(&blank(16)).unwrap();
    for c in &m.constraints[..64] {
        assert_eq!(c.relation, Relation::Equal);
        assert_eq!(c.rhs, 1);
        assert_eq!(c.terms.len(), 4);
    }
    // cell (0, 1): every value
    assert_eq!(terms(&m, 1), vec![4, 5, 6, 7]);
    // row 0, value 0: every column
    assert_eq!(terms(&m, 16), vec![0, 4, 8, 12]);
    // row 1, value 2
    assert_eq!(terms(&m, 16 + 4 + 2), vec![18, 22, 26, 30]);
    // column 0, value 0: every row
    assert_eq!(terms(&m, 32), vec![0, 16, 32, 48]);
    // box 3, value 1: rows 2-3, columns 2-3
    assert_eq!(terms(&m, 48 + 12 + 1), vec![41, 45, 57, 61]);
}

#[test]
fn six_by_six_boxes() {
    let m = encode(&blank(36)).unwrap();
    // box 1, value 0: rows 0-1, columns 3-5
    assert_eq!(terms(&m, 108 + 6), vec![18, 24, 30, 54, 60, 66]);
    // box 2, value 0: rows 2-3, columns 0-2
    assert_eq!(terms(&m, 108 + 12), vec![72, 78, 84, 108, 114, 120]);
}

#[test]
fn irregular_box_origins() {
    let g = geometry_for_len(36).unwrap();
    assert_eq!((g.box_rows, g.box_cols), (2, 3));
    assert_eq!(g.box_origin(0), (0, 0));
    assert_eq!(g.box_origin(1), (0, 3));
    assert_eq!(g.box_origin(2), (2, 0));
    assert_eq!(g.box_origin(5), (4, 3));
    let g9 = geometry_for_len(81).unwrap();
    assert_eq!(g9.box_origin(5), (3, 6));
    let g4 = geometry_for_len(16).unwrap();
    assert_eq!(g4.box_origin(3), (2, 2));
}
