use therook::{
    compare_perfts, parse_perft_line, perft_entry, perft_line_entry, sort_perfts, text_before,
    Board, Computed, OracleError, PerftFinding,
};

#[test]
fn a_line_of_the_oracle_is_a_move_and_a_count() {
    assert_eq!(
        parse_perft_line("e2e4: 600"),
        Ok(Some(("e2e4".to_string(), 600)))
    );
    assert_eq!(
        parse_perft_line("a7a8q: 18446744073709551615"),
        Ok(Some(("a7a8q".to_string(), u64::MAX)))
    );
    assert_eq!(
        parse_perft_line("a7a8q: 18446744073709551616"),
        Err(OracleError::Count)
    );
    assert_eq!(parse_perft_line("Nodes searched: 8902"), Ok(None));
    assert_eq!(parse_perft_line(""), Ok(None));
    assert_eq!(parse_perft_line("info string e2e4: 12 done"), Ok(Some(("e2e4".to_string(), 12))));
}

#[test]
fn an_entry_wants_three_groups_and_a_count() {
    let groups = |list: &[&str]| Some(list.iter().map(|s| s.to_string()).collect::<Vec<_>>());
    assert_eq!(perft_entry(None), Ok(None));
    assert_eq!(
        perft_entry(groups(&["e2e4: 20", "e2e4", "20"])),
        Ok(Some(("e2e4".to_string(), 20)))
    );
    assert_eq!(
        perft_entry(groups(&["e2e4: 20", "e2e4"])),
        Err(OracleError::Groups)
    );
    assert_eq!(perft_entry(groups(&[])), Err(OracleError::Groups));
    assert_eq!(
        perft_entry(groups(&["e2e4: ", "e2e4", ""])),
        Err(OracleError::Count)
    );
    assert_eq!(
        perft_entry(groups(&["e2e4: x", "e2e4", "2x"])),
        Err(OracleError::Count)
    );
    assert_eq!(
        perft_entry(groups(&["e2e4: +2", "e2e4", "+2"])),
        Err(OracleError::Count)
    );
    assert_eq!(
        perft_entry(groups(&["x", "e2e4", "007"])),
        Ok(Some(("e2e4".to_string(), 7)))
    );
    assert_eq!(
        perft_entry(groups(&["x", "e2e4", "18446744073709551615", "more"])),
        Ok(Some(("e2e4".to_string(), u64::MAX)))
    );
    assert_eq!(
        perft_entry(groups(&["x", "e2e4", "18446744073709551616"])),
        Err(OracleError::Count)
    );
}

#[test]
fn a_count_in_other_digits_is_no_count() {
    // The pattern takes the digits of every script; a count is written
    // with the digits 0 to 9.
    assert_eq!(
        parse_perft_line("e2e4: \u{0663}\u{0664}"),
        Err(OracleError::Count)
    );
    assert_eq!(
        parse_perft_line("e2e4: 12\u{0663}"),
        Err(OracleError::Count)
    );
    assert_eq!(parse_perft_line("e2e4: x"), Ok(None));
    assert_eq!(parse_perft_line("e2e4:20"), Ok(None));
}

#[test]
fn equal_lists_give_no_finding() {
    let expected = vec![("a2a3".to_string(), 20), ("e2e4".to_string(), 20)];
    let actual = vec![("e2e4".to_string(), 20), ("a2a3".to_string(), 20)];
    assert_eq!(compare_perfts(&expected, &actual), vec![]);
}

#[test]
fn differences_are_found() {
    let expected = vec![
        ("a2a3".to_string(), 20),
        ("e2e4".to_string(), 20),
        ("g1f3".to_string(), 20),
    ];
    let actual = vec![
        ("e2e4".to_string(), 21),
        ("e1g1".to_string(), 3),
        ("a2a3".to_string(), 20),
    ];
    assert_eq!(
        compare_perfts(&expected, &actual),
        vec![
            PerftFinding::Mismatch(1, 0),
            PerftFinding::Missing(2),
            PerftFinding::Invalid(1),
        ]
    );
}

#[test]
fn counts_move_by_move() {
    let computed = Computed::new();
    let mut board = Board::initial(&computed);
    let before = board.to_fen();
    let counts = board.perft_divide(2);
    assert_eq!(board.to_fen(), before);
    assert_eq!(counts.len(), 20);
    assert!(counts.iter().all(|entry| entry.1 == 20));
    assert_eq!(counts[0].0, "b1a3");
    assert_eq!(counts[19].0, "h2h4");
    let expected: Vec<(String, u64)> = [
        "a2a3", "b2b3", "c2c3", "d2d3", "e2e3", "f2f3", "g2g3", "h2h3", "a2a4", "b2b4", "c2c4",
        "d2d4", "e2e4", "f2f4", "g2g4", "h2h4", "b1a3", "b1c3", "g1f3", "g1h3",
    ]
    .iter()
    .map(|name| (name.to_string(), 20))
    .collect();
    assert_eq!(compare_perfts(&expected, &counts), vec![]);

    let mut board =
        Board::from_fen("4k3/P7/8/8/8/8/8/4K3 w - - 0 1", &computed).unwrap();
    let at_once = board.perft_divide(0);
    assert_eq!(at_once, board.perft_divide(1));
    assert!(at_once.iter().all(|entry| entry.1 == 1));
    assert_eq!(board.try_perft_divide(0), Some(at_once));
    assert_eq!(board.try_perft_divide(3), Some(board.perft_divide(3)));
    assert_eq!(board.try_perft_divide(255), None);
    let names: Vec<String> = board.perft_divide(1).into_iter().map(|entry| entry.0).collect();
    assert_eq!(
        names,
        vec!["e1d1", "e1f1", "e1d2", "e1e2", "e1f2", "a7a8q", "a7a8r", "a7a8b", "a7a8n"]
    );
}

#[test]
fn texts_are_ordered_as_in_a_dictionary() {
    let before = text_before;
    assert!(before("a2a3", "a2a4"));
    assert!(!before("a2a4", "a2a3"));
    assert!(!before("a2a3", "a2a3"));
    assert!(before("a7a8", "a7a8q"));
    assert!(!before("a7a8q", "a7a8"));
    assert!(before("", "a"));
    assert!(!before("", ""));
    assert!(before("a7a8b", "a7a8n"));
    assert!(before("h7h8", "\u{e9}"));
}

#[test]
fn lists_are_sorted_by_move() {
    let list: Vec<(String, u64)> = [("e2e4", 3), ("a7a8q", 1), ("a2a3", 7), ("a7a8", 2), ("e2e4", 1)]
        .iter()
        .map(|(name, count)| (name.to_string(), *count))
        .collect();
    let sorted = sort_perfts(&list);
    let names: Vec<(&str, u64)> = sorted.iter().map(|e| (e.0.as_str(), e.1)).collect();
    assert_eq!(
        names,
        vec![("a2a3", 7), ("a7a8", 2), ("a7a8q", 1), ("e2e4", 3), ("e2e4", 1)]
    );
    let mut expected = list.clone();
    expected.sort_by(|a, b| a.0.cmp(&b.0));
    assert_eq!(sorted, expected);
    assert_eq!(sort_perfts(&Vec::new()), Vec::new());
}

#[test]
fn a_pattern_that_does_not_compile_is_at_fault() {
    let failed = regex::Regex::new("(").unwrap_err();
    assert_eq!(perft_line_entry(Err(failed)), Err(OracleError::Pattern));
    assert_eq!(perft_line_entry(Ok(None)), Ok(None));
    let groups = vec!["e2e4: 20".to_string(), "e2e4".to_string(), "20".to_string()];
    assert_eq!(
        perft_line_entry(Ok(Some(groups))),
        Ok(Some(("e2e4".to_string(), 20)))
    );
    let short = vec!["e2e4".to_string()];
    assert_eq!(
        perft_line_entry(Ok(Some(short))),
        Err(OracleError::Groups)
    );
    let unread = vec!["e2e4: x".to_string(), "e2e4".to_string(), "x".to_string()];
    assert_eq!(
        perft_line_entry(Ok(Some(unread))),
        Err(OracleError::Count)
    );
}

#[test]
fn the_pattern_for_the_lines_compiles() {
    for line in ["", "e2e4: 1", "a7a8q: 3", "Nodes searched: 20", "e2e4 20"] {
        assert_ne!(parse_perft_line(line), Err(OracleError::Pattern));
    }
}

#[test]
fn counting_stops_where_a_counter_is_full() {
    let computed = Computed::new();
    // Kings alone: every move raises the clock, Black's the number of
    // the move too.
    let mut board = Board::from_fen("4k3/8/8/8/8/8/8/4K3 w - - 253 9", &computed).unwrap();
    let before = board.to_fen();
    assert_eq!(board.try_perft_iter(1, 0), Some(1));
    assert_eq!(board.try_perft_iter(1, 1), Some(5));
    assert_eq!(board.try_perft_iter(1, 2), Some(25));
    assert_eq!(board.try_perft_iter(1, 2), Some(board.perft_iter(1, 2)));
    assert_eq!(board.try_perft_iter(1, 3), None);
    assert_eq!(board.try_perft_iter(1, 255), None);
    assert_eq!(board.try_perft_iter(2, 1), Some(1));
    assert!(board.try_perft_divide(2).is_some());
    assert_eq!(board.try_perft_divide(3), None);
    assert_eq!(board.to_fen(), before);

    let mut last = Board::from_fen("4k3/8/8/8/8/8/8/4K3 w - - 0 255", &computed).unwrap();
    assert_eq!(last.try_perft_iter(1, 1), Some(5));
    assert_eq!(last.try_perft_iter(1, 2), None);
    assert_eq!(last.to_fen(), "4k3/8/8/8/8/8/8/4K3 w - - 0 255");

    // A pawn move needs no room in the clock: here the king cannot move.
    let mut pawn = Board::from_fen("8/8/8/8/8/1k6/3n3P/K7 w - - 255 9", &computed).unwrap();
    assert_eq!(pawn.try_perft_iter(1, 1), Some(2));
    assert_eq!(pawn.try_perft_iter(1, 2), Some(pawn.perft_iter(1, 2)));
    let names: Vec<String> =
        pawn.try_perft_divide(1).unwrap().into_iter().map(|entry| entry.0).collect();
    assert_eq!(names, vec!["h2h3", "h2h4"]);
}
