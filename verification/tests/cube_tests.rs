use libcube::cube::Direction;
use libcube::{Color, Cube, Face, Move};

/// Snapshot of every tile, used to compare whole cube states.
fn snapshot(cube: &Cube) -> Vec<Vec<Vec<Color>>> {
    let faces = Face::as_vec();
    let mut all = Vec::new();
    for face in faces {
        let mut grid = Vec::new();
        for row in 0..cube.size() {
            grid.push(cube.get_row(face, row));
        }
        all.push(grid);
    }
    all
}

fn all_moves(size: usize) -> Vec<Move> {
    let inner = size / 2;
    vec![
        Move::U,
        Move::Up,
        Move::D,
        Move::Dp,
        Move::R,
        Move::Rp,
        Move::L,
        Move::Lp,
        Move::F,
        Move::Fp,
        Move::B,
        Move::Bp,
        Move::X,
        Move::Xp,
        Move::Y,
        Move::Yp,
        Move::Z,
        Move::Zp,
        Move::M(inner),
        Move::Mp(inner),
        Move::E(inner),
        Move::Ep(inner),
        Move::S(inner),
        Move::Sp(inner),
    ]
}

fn prime_of(m: Move) -> Move {
    match m {
        Move::U => Move::Up,
        Move::Up => Move::U,
        Move::D => Move::Dp,
        Move::Dp => Move::D,
        Move::R => Move::Rp,
        Move::Rp => Move::R,
        Move::L => Move::Lp,
        Move::Lp => Move::L,
        Move::F => Move::Fp,
        Move::Fp => Move::F,
        Move::B => Move::Bp,
        Move::Bp => Move::B,
        Move::X => Move::Xp,
        Move::Xp => Move::X,
        Move::Y => Move::Yp,
        Move::Yp => Move::Y,
        Move::Z => Move::Zp,
        Move::Zp => Move::Z,
        Move::M(l) => Move::Mp(l),
        Move::Mp(l) => Move::M(l),
        Move::E(l) => Move::Ep(l),
        Move::Ep(l) => Move::E(l),
        Move::S(l) => Move::Sp(l),
        Move::Sp(l) => Move::S(l),
    }
}

/// Mix the cube away from the solved state, deterministically.
fn scramble(cube: &mut Cube) {
    cube.do_move(&Move::R);
    cube.do_move(&Move::U);
    cube.do_move(&Move::Fp);
    cube.do_move(&Move::D);
    cube.do_move(&Move::L);
}

#[test]
fn new_cube_is_solved_for_all_small_sizes() {
    for size in 2..7 {
        let cube = Cube::new(size);
        assert!(cube.check(), "size {} cube should start solved", size);
    }
}

#[test]
fn new_cube_faces_show_home_colors() {
    let cube = Cube::new(3);
    assert_eq!(cube.get_row(Face::Front, 1), vec![Color::White; 3]);
    assert_eq!(cube.get_row(Face::Top, 0), vec![Color::Green; 3]);
    assert_eq!(cube.get_row(Face::Right, 2), vec![Color::Orange; 3]);
    assert_eq!(cube.get_row(Face::Left, 1), vec![Color::Red; 3]);
    assert_eq!(cube.get_row(Face::Bottom, 0), vec![Color::Blue; 3]);
    assert_eq!(cube.get_row(Face::Back, 2), vec![Color::Yellow; 3]);
}

#[test]
fn face_home_colors_are_fixed() {
    assert_eq!(Face::Front.color(), Color::White);
    assert_eq!(Face::Top.color(), Color::Green);
    assert_eq!(Face::Right.color(), Color::Orange);
    assert_eq!(Face::Left.color(), Color::Red);
    assert_eq!(Face::Bottom.color(), Color::Blue);
    assert_eq!(Face::Back.color(), Color::Yellow);
}

#[test]
fn as_vec_lists_all_six_faces() {
    let faces = Face::as_vec();
    assert_eq!(
        faces,
        vec![
            Face::Front,
            Face::Top,
            Face::Right,
            Face::Left,
            Face::Bottom,
            Face::Back
        ]
    );
}

#[test]
fn aboutface_four_times_restores_face() {
    for size in [2usize, 3, 4, 5] {
        let mut cube = Cube::new(size);
        scramble(&mut cube);
        let before = snapshot(&cube);
        for _ in 0..4 {
            cube.aboutface(Face::Front, Direction::Clock);
        }
        assert_eq!(snapshot(&cube), before, "size {}", size);
    }
}

#[test]
fn aboutface_clock_then_counter_restores_face() {
    let mut cube = Cube::new(4);
    scramble(&mut cube);
    let before = snapshot(&cube);
    cube.aboutface(Face::Top, Direction::Clock);
    cube.aboutface(Face::Top, Direction::Counter);
    assert_eq!(snapshot(&cube), before);
}

#[test]
fn aboutface_rotates_rows_to_columns() {
    // Paint a recognizable top row by turning: on a solved cube, U leaves
    // the top face green, so rotate a face with mixed tiles instead.
    let mut cube = Cube::new(3);
    cube.do_move(&Move::R);
    let col2_before: Vec<Color> = (0..3).map(|r| cube.get_row(Face::Front, r)[2]).collect();
    cube.aboutface(Face::Front, Direction::Clock);
    // New row 2 is the old column 2 read bottom-to-top.
    let row2_after = cube.get_row(Face::Front, 2);
    let expected: Vec<Color> = col2_before.into_iter().rev().collect();
    assert_eq!(row2_after, expected);
}

#[test]
fn every_move_then_its_prime_restores_cube() {
    for size in [2usize, 3, 5] {
        for m in all_moves(size) {
            let mut cube = Cube::new(size);
            scramble(&mut cube);
            let before = snapshot(&cube);
            cube.do_move(&m);
            cube.do_move(&prime_of(m));
            assert_eq!(snapshot(&cube), before, "size {} move {:?}", size, m);
            // And in the other order.
            cube.do_move(&prime_of(m));
            cube.do_move(&m);
            assert_eq!(snapshot(&cube), before, "size {} move {:?} reversed", size, m);
        }
    }
}

#[test]
fn r_then_r_prime_keeps_solved() {
    let mut cube = Cube::new(3);
    cube.do_move(&Move::R);
    assert!(!cube.check());
    cube.do_move(&Move::Rp);
    assert!(cube.check());
}

#[test]
fn every_rotation_four_times_restores_cube() {
    let rotations = [Move::X, Move::Xp, Move::Y, Move::Yp, Move::Z, Move::Zp];
    for size in [2usize, 3, 4] {
        for m in rotations {
            let mut cube = Cube::new(size);
            scramble(&mut cube);
            let before = snapshot(&cube);
            for _ in 0..4 {
                cube.do_move(&m);
            }
            assert_eq!(snapshot(&cube), before, "size {} rotation {:?}", size, m);
        }
    }
}

#[test]
fn turn_four_times_restores_cube() {
    let mut cube = Cube::new(3);
    scramble(&mut cube);
    let before = snapshot(&cube);
    for _ in 0..4 {
        cube.do_move(&Move::U);
    }
    assert_eq!(snapshot(&cube), before);
}

#[test]
fn u_turn_cycles_the_top_belt() {
    let mut cube = Cube::new(3);
    cube.do_move(&Move::U);
    // The top row of each side face comes from the face to its left as
    // seen from above: Front takes Right's, Right takes Back's, and so on.
    assert_eq!(cube.get_row(Face::Front, 0), vec![Color::Orange; 3]);
    assert_eq!(cube.get_row(Face::Right, 0), vec![Color::Yellow; 3]);
    assert_eq!(cube.get_row(Face::Back, 0), vec![Color::Red; 3]);
    assert_eq!(cube.get_row(Face::Left, 0), vec![Color::White; 3]);
    // Rows below the belt and the Top face itself do not move.
    assert_eq!(cube.get_row(Face::Front, 1), vec![Color::White; 3]);
    assert_eq!(cube.get_row(Face::Top, 1), vec![Color::Green; 3]);
    assert_eq!(cube.get_row(Face::Bottom, 1), vec![Color::Blue; 3]);
}

#[test]
fn m_slice_moves_middle_columns() {
    let mut cube = Cube::new(3);
    cube.do_move(&Move::M(1));
    // Front's middle column takes Top's, Bottom takes Front's, Back takes
    // Bottom's (reversed), Top takes Back's (reversed).
    for r in 0..3 {
        assert_eq!(cube.get_row(Face::Front, r)[1], Color::Green);
        assert_eq!(cube.get_row(Face::Bottom, r)[1], Color::White);
        assert_eq!(cube.get_row(Face::Back, r)[1], Color::Blue);
        assert_eq!(cube.get_row(Face::Top, r)[1], Color::Yellow);
        // Outer columns untouched.
        assert_eq!(cube.get_row(Face::Front, r)[0], Color::White);
        assert_eq!(cube.get_row(Face::Front, r)[2], Color::White);
    }
    // Side faces untouched.
    assert!(cube.get_row(Face::Right, 1) == vec![Color::Orange; 3]);
    assert!(cube.get_row(Face::Left, 1) == vec![Color::Red; 3]);
}

#[test]
fn x_rotation_reorients_whole_cube() {
    let mut cube = Cube::new(3);
    cube.do_move(&Move::X);
    // Every face is again one solid color: X only changes the frame.
    for r in 0..3 {
        assert_eq!(cube.get_row(Face::Front, r), vec![Color::Blue; 3]);
        assert_eq!(cube.get_row(Face::Top, r), vec![Color::White; 3]);
        assert_eq!(cube.get_row(Face::Back, r), vec![Color::Green; 3]);
        assert_eq!(cube.get_row(Face::Bottom, r), vec![Color::Yellow; 3]);
        assert_eq!(cube.get_row(Face::Right, r), vec![Color::Orange; 3]);
        assert_eq!(cube.get_row(Face::Left, r), vec![Color::Red; 3]);
    }
    assert!(!cube.check());
}

#[test]
fn sequence_and_exact_reverse_restore_solved() {
    // U R U' R' followed by its exact reverse R U R' U'.
    let mut cube = Cube::new(3);
    for m in [Move::U, Move::R, Move::Up, Move::Rp] {
        cube.do_move(&m);
    }
    assert!(!cube.check());
    for m in [Move::R, Move::U, Move::Rp, Move::Up] {
        cube.do_move(&m);
    }
    assert!(cube.check());
}

#[test]
fn moves_never_create_or_lose_tiles() {
    // Every transform is a permutation: after any sequence of moves each
    // color still covers exactly one face's worth of tiles.
    for size in [2usize, 3, 4] {
        let mut cube = Cube::new(size);
        scramble(&mut cube);
        cube.do_move(&Move::X);
        cube.do_move(&Move::M(size / 2));
        cube.do_move(&Move::Zp);
        let mut counts = [0usize; 6];
        for face in Face::as_vec() {
            for row in 0..size {
                for color in cube.get_row(face, row) {
                    let slot = match color {
                        Color::Green => 0,
                        Color::White => 1,
                        Color::Red => 2,
                        Color::Orange => 3,
                        Color::Yellow => 4,
                        Color::Blue => 5,
                    };
                    counts[slot] += 1;
                }
            }
        }
        assert_eq!(counts, [size * size; 6], "size {}", size);
    }
}

#[test]
fn color_letters() {
    assert_eq!(Color::Green.letter(), "G");
    assert_eq!(Color::White.letter(), "W");
    assert_eq!(Color::Red.letter(), "R");
    assert_eq!(Color::Orange.letter(), "O");
    assert_eq!(Color::Yellow.letter(), "Y");
    assert_eq!(Color::Blue.letter(), "B");
}

#[test]
fn move_text_notation() {
    assert_eq!(Move::U.text(), "U");
    assert_eq!(Move::Up.text(), "U'");
    assert_eq!(Move::Rp.text(), "R'");
    assert_eq!(Move::X.text(), "X");
    assert_eq!(Move::M(2).text(), "M");
    assert_eq!(Move::Sp(1).text(), "S'");
}

#[test]
fn rotation_classification() {
    assert!(Move::X.is_rotation());
    assert!(Move::Zp.is_rotation());
    assert!(!Move::U.is_rotation());
    assert!(!Move::M(1).is_rotation());
}
