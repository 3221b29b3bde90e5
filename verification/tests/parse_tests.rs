use libcube::moves::{ParseError, ParseFailure};
use libcube::{Cube, Move};

#[test]
fn count_expands_moves() {
    let moves = Move::parse_moves("3R", 3, true).unwrap();
    assert_eq!(moves, vec![Move::R, Move::R, Move::R]);
}

#[test]
fn count_reduces_modulo_four() {
    let moves = Move::parse_moves("4R", 3, true).unwrap();
    assert_eq!(moves, vec![]);
    let moves = Move::parse_moves("5F", 3, true).unwrap();
    assert_eq!(moves, vec![Move::F]);
    let moves = Move::parse_moves("0R", 3, true).unwrap();
    assert_eq!(moves, vec![]);
    let moves = Move::parse_moves("2U'", 3, true).unwrap();
    assert_eq!(moves, vec![Move::Up, Move::Up]);
}

#[test]
fn interior_layer_accepted_on_size_five() {
    // 1-based layer 2 is 0-based layer 1: interior on a size-5 cube.
    let moves = Move::parse_moves("M2", 5, true).unwrap();
    assert_eq!(moves, vec![Move::M(1)]);
    let moves = Move::parse_moves("M4", 5, true).unwrap();
    assert_eq!(moves, vec![Move::M(3)]);
}

#[test]
fn boundary_layer_rejected_on_size_five() {
    // 1-based layer 1 is the boundary column 0: reserved for face turns.
    let err = Move::parse_moves("M1", 5, true).unwrap_err();
    assert_eq!(err.reason, ParseError::InvalidLayer);
    let err = Move::parse_moves("M5", 5, true).unwrap_err();
    assert_eq!(err.reason, ParseError::InvalidLayer);
    let err = Move::parse_moves("E9", 5, true).unwrap_err();
    assert_eq!(err.reason, ParseError::InvalidLayer);
    let err = Move::parse_moves("S0", 5, true).unwrap_err();
    assert_eq!(err.reason, ParseError::InvalidLayer);
}

#[test]
fn missing_layer_defaults_on_size_three() {
    let moves = Move::parse_moves("M", 3, true).unwrap();
    assert_eq!(moves, vec![Move::M(1)]);
    let moves = Move::parse_moves("E'", 3, true).unwrap();
    assert_eq!(moves, vec![Move::Ep(1)]);
}

#[test]
fn missing_layer_rejected_on_larger_cube() {
    let err = Move::parse_moves("M", 5, true).unwrap_err();
    assert_eq!(err.reason, ParseError::MissingLayer);
}

#[test]
fn slice_rejected_on_too_small_cube() {
    let err = Move::parse_moves("M", 2, true).unwrap_err();
    assert_eq!(err.reason, ParseError::TooSmallForSlice);
    let err = Move::parse_moves("S'", 1, true).unwrap_err();
    assert_eq!(err.reason, ParseError::TooSmallForSlice);
}

#[test]
fn bad_token_rejected_in_strict_mode() {
    let err = Move::parse_moves("Q", 3, true).unwrap_err();
    assert_eq!(err.reason, ParseError::GrammarMismatch);
    let err = Move::parse_moves("R2x", 3, true).unwrap_err();
    assert_eq!(err.reason, ParseError::GrammarMismatch);
    let err = Move::parse_moves("7", 3, true).unwrap_err();
    assert_eq!(err.reason, ParseError::GrammarMismatch);
}

#[test]
fn failure_reports_token_position() {
    let err = Move::parse_moves("U Qx R", 3, true).unwrap_err();
    assert_eq!(
        err,
        ParseFailure {
            reason: ParseError::GrammarMismatch,
            start: 2,
            end: 4,
        }
    );
}

#[test]
fn lenient_mode_skips_bad_tokens() {
    let moves = Move::parse_moves("U Qx R M9", 3, false).unwrap();
    assert_eq!(moves, vec![Move::U, Move::R]);
}

#[test]
fn strict_mode_stops_at_first_bad_token() {
    let err = Move::parse_moves("U M9 Qx", 3, true).unwrap_err();
    assert_eq!(err.reason, ParseError::InvalidLayer);
    assert_eq!(err.start, 2);
    assert_eq!(err.end, 4);
}

#[test]
fn letters_are_case_insensitive() {
    let moves = Move::parse_moves("r u' m2", 5, true).unwrap();
    assert_eq!(moves, vec![Move::R, Move::Up, Move::M(1)]);
}

#[test]
fn turns_ignore_written_layers() {
    // In `x2` the trailing digits are a layer, not a count: rotations
    // carry no layer, so it is read and dropped.
    let moves = Move::parse_moves("U5 x2", 3, true).unwrap();
    assert_eq!(moves, vec![Move::U, Move::X]);
    let moves = Move::parse_moves("2x", 3, true).unwrap();
    assert_eq!(moves, vec![Move::X, Move::X]);
}

#[test]
fn empty_pattern_parses_to_nothing() {
    assert_eq!(Move::parse_moves("", 3, true).unwrap(), vec![]);
    assert_eq!(Move::parse_moves("   ", 3, true).unwrap(), vec![]);
}

#[test]
fn whitespace_separates_tokens() {
    let moves = Move::parse_moves("U\tR\nF'  2D", 3, true).unwrap();
    assert_eq!(moves, vec![Move::U, Move::R, Move::Fp, Move::D, Move::D]);
}

#[test]
fn count_action_layer_combine() {
    let moves = Move::parse_moves("2M'3", 5, true).unwrap();
    assert_eq!(moves, vec![Move::Mp(2), Move::Mp(2)]);
}

#[test]
fn huge_counts_and_layers_handled() {
    // The count only matters modulo 4; a gigantic layer is out of range.
    let moves = Move::parse_moves("123456789123456789123456789R", 3, true).unwrap();
    assert_eq!(moves, vec![Move::R]);
    let err = Move::parse_moves("M123456789123456789123456789", 5, true).unwrap_err();
    assert_eq!(err.reason, ParseError::InvalidLayer);
}

#[test]
fn non_ascii_tokens_are_grammar_mismatches() {
    let moves = Move::parse_moves("Ü R", 3, false).unwrap();
    assert_eq!(moves, vec![Move::R]);
    let err = Move::parse_moves("Ü R", 3, true).unwrap_err();
    assert_eq!(err.reason, ParseError::GrammarMismatch);
    assert_eq!(err.start, 0);
    assert_eq!(err.end, 2);
}

#[test]
fn mixed_pattern_with_counts_layers_and_primes() {
    let moves = Move::parse_moves("3R2 M' x", 3, true).unwrap();
    assert_eq!(
        moves,
        vec![Move::R, Move::R, Move::R, Move::Mp(1), Move::X]
    );
}

#[test]
fn error_messages_name_the_reason() {
    assert_eq!(
        ParseError::InvalidLayer.message(),
        "Slice layer must be between 2 and (cube size - 1)"
    );
    assert_eq!(
        ParseError::MissingLayer.message(),
        "Slice moves on cubes of size > 3 require a layer"
    );
    assert_eq!(
        ParseError::TooSmallForSlice.message(),
        "Cube is too small for a slice. Please use a side turn like U or R"
    );
    assert_eq!(
        ParseError::GrammarMismatch.message(),
        "Token does not match count?action layer?"
    );
}

#[test]
fn parsed_pattern_drives_cube_back_to_solved() {
    // End to end: a sequence and its exact reverse cancel.
    let mut cube = Cube::new(3);
    for m in Move::parse_moves("U R U' R'", 3, true).unwrap() {
        cube.do_move(&m);
    }
    assert!(!cube.check());
    for m in Move::parse_moves("R U R' U'", 3, true).unwrap() {
        cube.do_move(&m);
    }
    assert!(cube.check());
}

#[test]
fn all_action_letters_parse() {
    let moves = Move::parse_moves("U D R L F B X Y Z M E S", 3, true).unwrap();
    assert_eq!(
        moves,
        vec![
            Move::U,
            Move::D,
            Move::R,
            Move::L,
            Move::F,
            Move::B,
            Move::X,
            Move::Y,
            Move::Z,
            Move::M(1),
            Move::E(1),
            Move::S(1),
        ]
    );
    let moves = Move::parse_moves("U' D' R' L' F' B' X' Y' Z' M' E' S'", 3, true).unwrap();
    assert_eq!(
        moves,
        vec![
            Move::Up,
            Move::Dp,
            Move::Rp,
            Move::Lp,
            Move::Fp,
            Move::Bp,
            Move::Xp,
            Move::Yp,
            Move::Zp,
            Move::Mp(1),
            Move::Ep(1),
            Move::Sp(1),
        ]
    );
}
