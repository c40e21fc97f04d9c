use sudoku2lp::{
    format_lp, is_well_formed_puzzle, normalize_puzzle, puzzle_to_lp, AppArgs, Constraint,
    EncodeError, IlpModel, Relation,
};

#[test]
fn exact_text_of_a_small_model() {
    let m = IlpModel {
        num_vars: 3,
        objective: vec![(0, 1)],
        constraints: vec![
            Constraint { terms: vec![(0, 1), (2, -5)], relation: Relation::Equal, rhs: 1 },
            Constraint { terms: vec![(11, 20)], relation: Relation::AtLeast, rhs: 0 },
            Constraint { terms: vec![], relation: Relation::AtLeast, rhs: -12 },
        ],
    };
    assert_eq!(
        format_lp(&m),
        "Minimize\n1 x0\nSubject To\n1 x0 + -5 x2 = 1\n20 x11 >= 0\n >= -12\nBinary\nx0 x1 x2\nEnd\n"
    );
}

#[test]
fn extreme_numbers() {
    let m = IlpModel {
        num_vars: 0,
        objective: vec![],
        constraints: vec![Constraint {
            terms: vec![(1234567, i64::MIN)],
            relation: Relation::Equal,
            rhs: i64::MAX,
        }],
    };
    assert_eq!(
        format_lp(&m),
        "Minimize\n\nSubject To\n-9223372036854775808 x1234567 = 9223372036854775807\nBinary\n\nEnd\n"
    );
}

#[test]
fn four_by_four_text() {
    let text = puzzle_to_lp("1000020000300004").unwrap();
    let lines: Vec<&str> = text.lines().collect();
    assert_eq!(lines[0], "Minimize");
    assert_eq!(lines[1], "1 x0");
    assert_eq!(lines[2], "Subject To");
    let binary = lines.iter().position(|l| *l == "Binary").unwrap();
    assert_eq!(binary - 3, 65);
    assert_eq!(lines[3], "1 x0 + 1 x1 + 1 x2 + 1 x3 = 1");
    assert_eq!(lines[3 + 64], "1 x0 + 1 x21 + 1 x42 + 1 x63 >= 4");
    let names: Vec<String> = (0..64).map(|i| format!("x{i}")).collect();
    assert_eq!(lines[binary + 1], names.join(" "));
    assert_eq!(lines[binary + 2], "End");
    assert_eq!(lines.len(), binary + 3);
    assert!(text.ends_with("End\n"));
}

#[test]
fn text_is_reproducible() {
    let p = "003020600900305001001806400008102900700000008006708200002609500800203009005010300";
    let a = puzzle_to_lp(p).unwrap();
    let b = puzzle_to_lp(p).unwrap();
    assert_eq!(a, b);
    assert!(a.contains("Binary\nx0 x1 "));
    assert!(a.contains(" x728\nEnd\n"));
}

#[test]
fn text_of_bad_size() {
    assert_eq!(puzzle_to_lp("12345").unwrap_err(), EncodeError::InvalidPuzzleSize);
}

#[test]
fn normalising() {
    assert_eq!(normalize_puzzle("1.2\n3x4 5"), "102345");
    assert_eq!(normalize_puzzle(""), "");
    assert_eq!(normalize_puzzle("..\r\n"), "00");
    assert_eq!(normalize_puzzle("é9٣"), "9");
}

#[test]
fn well_formed_puzzles() {
    assert!(is_well_formed_puzzle("1000020000300004"));
    assert!(is_well_formed_puzzle("4000000000000000"));
    assert!(!is_well_formed_puzzle("5000000000000000"));
    assert!(!is_well_formed_puzzle("x000000000000000"));
    assert!(is_well_formed_puzzle("anything"));
    let mut six = "0".repeat(35);
    six.push('6');
    assert!(is_well_formed_puzzle(&six));
    six.pop();
    six.push('7');
    assert!(!is_well_formed_puzzle(&six));
}

#[test]
fn output_base_prefers_out_file() {
    let a = AppArgs { in_file: "p.txt".to_string(), out_file: None, solve: false };
    assert_eq!(a.output_base(), "p.txt");
    let b = AppArgs {
        in_file: "p.txt".to_string(),
        out_file: Some("q.out".to_string()),
        solve: true,
    };
    assert_eq!(b.output_base(), "q.out");
}
