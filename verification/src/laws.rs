use vstd::prelude::*;

use crate::face::Face;
use crate::grid::{
    col_of, lemma_col_of_set_col, lemma_flip_flip, lemma_rev_rev, lemma_rot_cw_ccw,
    lemma_rot_cw_cw, lemma_rot_cw_four, lemma_rot_cw_wf, lemma_set_col_self, lemma_set_col_set_col,
    lemma_set_col_wf, lemma_set_row_wf, rev,
};
use crate::moves::{applied, move_in_bounds, prime_of, spec_is_rotation, Move};
use crate::state::{
    face_of, face_turned, rotated_x, rotated_x_prime, rotated_y, rotated_y_prime, rotated_z,
    rotated_z_prime, sliced_e, sliced_e_prime, sliced_m, sliced_m_prime, sliced_s, sliced_s_prime,
    state_wf, with_face, CubeState,
};

verus! {

/// Every transform leaves the edge length alone and keeps all six faces
/// well-formed squares: a move permutes tiles, it never grows or shrinks
/// a grid.
pub proof fn lemma_applied_wf(s: CubeState, m: Move)
    requires
        state_wf(s),
        s.size >= 1,
        move_in_bounds(m, s.size),
    ensures
        state_wf(applied(s, m)),
        applied(s, m).size == s.size,
{
    let n = s.size;
    match m {
        Move::U | Move::Up | Move::D | Move::Dp | Move::R | Move::Rp | Move::L | Move::Lp
            | Move::F | Move::Fp | Move::B | Move::Bp => {
            lemma_rot_cw_wf(s.front, n);
            lemma_rot_cw_wf(s.top, n);
            lemma_rot_cw_wf(s.right, n);
            lemma_rot_cw_wf(s.left, n);
            lemma_rot_cw_wf(s.bottom, n);
            lemma_rot_cw_wf(s.back, n);
            lemma_sliced_wf_all(face_turned_state(s, m), slice_layer_of_turn(s, m));
        },
        Move::X | Move::Xp | Move::Y | Move::Yp | Move::Z | Move::Zp => {
            lemma_rot_cw_wf(s.front, n);
            lemma_rot_cw_wf(s.top, n);
            lemma_rot_cw_wf(s.right, n);
            lemma_rot_cw_wf(s.left, n);
            lemma_rot_cw_wf(s.bottom, n);
            lemma_rot_cw_wf(s.back, n);
        },
        Move::M(l) | Move::Mp(l) | Move::E(l) | Move::Ep(l) | Move::S(l) | Move::Sp(l) => {
            lemma_sliced_wf_all(s, l as int);
        },
    }
}

/// The face a turn rotates, already turned, for the wf proof above.
spec fn face_turned_state(s: CubeState, m: Move) -> CubeState {
    match m {
        Move::U => face_turned(s, Face::Top, true),
        Move::Up => face_turned(s, Face::Top, false),
        Move::D => face_turned(s, Face::Bottom, true),
        Move::Dp => face_turned(s, Face::Bottom, false),
        Move::R => face_turned(s, Face::Right, true),
        Move::Rp => face_turned(s, Face::Right, false),
        Move::L => face_turned(s, Face::Left, true),
        Move::Lp => face_turned(s, Face::Left, false),
        Move::F => face_turned(s, Face::Front, true),
        Move::Fp => face_turned(s, Face::Front, false),
        Move::B => face_turned(s, Face::Back, true),
        Move::Bp => face_turned(s, Face::Back, false),
        _ => s,
    }
}

/// The boundary layer a turn's slice runs at.
spec fn slice_layer_of_turn(s: CubeState, m: Move) -> int {
    match m {
        Move::U | Move::Up | Move::L | Move::Lp | Move::F | Move::Fp => 0,
        _ => s.size - 1,
    }
}

/// All six slice transforms preserve well-formedness at any in-range
/// layer.
proof fn lemma_sliced_wf_all(s: CubeState, l: int)
    requires
        state_wf(s),
        0 <= l < s.size,
    ensures
        state_wf(sliced_m(s, l)),
        state_wf(sliced_m_prime(s, l)),
        state_wf(sliced_e(s, l)),
        state_wf(sliced_e_prime(s, l)),
        state_wf(sliced_s(s, l)),
        state_wf(sliced_s_prime(s, l)),
{
    let n = s.size;
    lemma_set_col_wf(s.front, l, col_of(s.top, l, n), n);
    lemma_set_col_wf(s.front, l, col_of(s.bottom, l, n), n);
    lemma_set_col_wf(s.bottom, l, col_of(s.front, l, n), n);
    lemma_set_col_wf(s.bottom, l, rev(col_of(s.back, n - 1 - l, n)), n);
    lemma_set_col_wf(s.back, n - 1 - l, rev(col_of(s.bottom, l, n)), n);
    lemma_set_col_wf(s.back, n - 1 - l, rev(col_of(s.top, l, n)), n);
    lemma_set_col_wf(s.top, l, rev(col_of(s.back, n - 1 - l, n)), n);
    lemma_set_col_wf(s.top, l, col_of(s.front, l, n), n);
    lemma_set_row_wf(s.front, l, s.left[l], n);
    lemma_set_row_wf(s.front, l, s.right[l], n);
    lemma_set_row_wf(s.right, l, s.front[l], n);
    lemma_set_row_wf(s.right, l, s.back[l], n);
    lemma_set_row_wf(s.back, l, s.right[l], n);
    lemma_set_row_wf(s.back, l, s.left[l], n);
    lemma_set_row_wf(s.left, l, s.back[l], n);
    lemma_set_row_wf(s.left, l, s.front[l], n);
    lemma_set_row_wf(s.top, n - 1 - l, rev(col_of(s.left, n - 1 - l, n)), n);
    lemma_set_row_wf(s.top, n - 1 - l, col_of(s.right, l, n), n);
    lemma_set_col_wf(s.right, l, s.top[n - 1 - l], n);
    lemma_set_col_wf(s.right, l, rev(s.bottom[l]), n);
    lemma_set_row_wf(s.bottom, l, rev(col_of(s.right, l, n)), n);
    lemma_set_row_wf(s.bottom, l, col_of(s.left, n - 1 - l, n), n);
    lemma_set_col_wf(s.left, n - 1 - l, s.bottom[l], n);
    lemma_set_col_wf(s.left, n - 1 - l, rev(s.top[n - 1 - l]), n);
}

/// An M slice and its prime cancel, in either order.
proof fn lemma_sliced_m_inverse(s: CubeState, l: int)
    requires
        state_wf(s),
        0 <= l < s.size,
    ensures
        sliced_m_prime(sliced_m(s, l), l) == s,
        sliced_m(sliced_m_prime(s, l), l) == s,
{
    let n = s.size;
    let c2 = n - 1 - l;
    let t = sliced_m(s, l);
    lemma_col_of_set_col(s.bottom, l, col_of(s.front, l, n), n);
    lemma_col_of_set_col(s.back, c2, rev(col_of(s.bottom, l, n)), n);
    lemma_col_of_set_col(s.top, l, rev(col_of(s.back, c2, n)), n);
    lemma_col_of_set_col(s.front, l, col_of(s.top, l, n), n);
    lemma_rev_rev(col_of(s.bottom, l, n));
    lemma_rev_rev(col_of(s.back, c2, n));
    lemma_set_col_set_col(s.front, l, col_of(s.top, l, n), col_of(s.front, l, n), n);
    lemma_set_col_set_col(s.bottom, l, col_of(s.front, l, n), col_of(s.bottom, l, n), n);
    lemma_set_col_set_col(s.back, c2, rev(col_of(s.bottom, l, n)), col_of(s.back, c2, n), n);
    lemma_set_col_set_col(s.top, l, rev(col_of(s.back, c2, n)), col_of(s.top, l, n), n);
    lemma_set_col_self(s.front, l, n);
    lemma_set_col_self(s.bottom, l, n);
    lemma_set_col_self(s.back, c2, n);
    lemma_set_col_self(s.top, l, n);
    assert(sliced_m_prime(sliced_m(s, l), l) =~~= s);

    let u = sliced_m_prime(s, l);
    lemma_col_of_set_col(s.bottom, l, rev(col_of(s.back, c2, n)), n);
    lemma_col_of_set_col(s.back, c2, rev(col_of(s.top, l, n)), n);
    lemma_col_of_set_col(s.top, l, col_of(s.front, l, n), n);
    lemma_col_of_set_col(s.front, l, col_of(s.bottom, l, n), n);
    lemma_rev_rev(col_of(s.top, l, n));
    lemma_set_col_set_col(s.front, l, col_of(s.bottom, l, n), col_of(s.front, l, n), n);
    lemma_set_col_set_col(s.bottom, l, rev(col_of(s.back, c2, n)), col_of(s.bottom, l, n), n);
    lemma_set_col_set_col(s.back, c2, rev(col_of(s.top, l, n)), col_of(s.back, c2, n), n);
    lemma_set_col_set_col(s.top, l, col_of(s.front, l, n), col_of(s.top, l, n), n);
    assert(sliced_m(sliced_m_prime(s, l), l) =~~= s);
}

/// An E slice and its prime cancel, in either order.
proof fn lemma_sliced_e_inverse(s: CubeState, l: int)
    requires
        state_wf(s),
        0 <= l < s.size,
    ensures
        sliced_e_prime(sliced_e(s, l), l) == s,
        sliced_e(sliced_e_prime(s, l), l) == s,
{
    assert(sliced_e_prime(sliced_e(s, l), l) =~~= s);
    assert(sliced_e(sliced_e_prime(s, l), l) =~~= s);
}

/// An S slice and its prime cancel, in either order.
proof fn lemma_sliced_s_inverse(s: CubeState, l: int)
    requires
        state_wf(s),
        0 <= l < s.size,
    ensures
        sliced_s_prime(sliced_s(s, l), l) == s,
        sliced_s(sliced_s_prime(s, l), l) == s,
{
    let n = s.size;
    let c2 = n - 1 - l;
    lemma_col_of_set_col(s.right, l, s.top[c2], n);
    lemma_col_of_set_col(s.left, c2, s.bottom[l], n);
    lemma_col_of_set_col(s.right, l, rev(s.bottom[l]), n);
    lemma_col_of_set_col(s.left, c2, rev(s.top[c2]), n);
    lemma_rev_rev(col_of(s.left, c2, n));
    lemma_rev_rev(col_of(s.right, l, n));
    lemma_rev_rev(s.top[c2]);
    lemma_rev_rev(s.bottom[l]);
    lemma_set_col_set_col(s.right, l, s.top[c2], col_of(s.right, l, n), n);
    lemma_set_col_set_col(s.left, c2, s.bottom[l], col_of(s.left, c2, n), n);
    lemma_set_col_set_col(s.right, l, rev(s.bottom[l]), col_of(s.right, l, n), n);
    lemma_set_col_set_col(s.left, c2, rev(s.top[c2]), col_of(s.left, c2, n), n);
    lemma_set_col_self(s.right, l, n);
    lemma_set_col_self(s.left, c2, n);
    assert(sliced_s_prime(sliced_s(s, l), l) =~~= s);
    assert(sliced_s(sliced_s_prime(s, l), l) =~~= s);
}

/// Applying any move and then its primed counterpart — or the primed
/// move first and the plain one after — returns the cube to the exact
/// state it had before the pair.
pub proof fn lemma_move_inverse(s: CubeState, m: Move)
    requires
        state_wf(s),
        s.size >= 1,
        move_in_bounds(m, s.size),
    ensures
        applied(applied(s, m), prime_of(m)) == s,
        applied(applied(s, prime_of(m)), m) == s,
{
    let n = s.size;
    match m {
        Move::U | Move::Up => lemma_turn_inverse_u(s),
        Move::D | Move::Dp => lemma_turn_inverse_d(s),
        Move::R | Move::Rp => lemma_turn_inverse_r(s),
        Move::L | Move::Lp => lemma_turn_inverse_l(s),
        Move::F | Move::Fp => lemma_turn_inverse_f(s),
        Move::B | Move::Bp => lemma_turn_inverse_b(s),
        Move::X | Move::Xp => lemma_rotation_inverse_x(s),
        Move::Y | Move::Yp => lemma_rotation_inverse_y(s),
        Move::Z | Move::Zp => lemma_rotation_inverse_z(s),
        Move::M(l) | Move::Mp(l) => lemma_sliced_m_inverse(s, l as int),
        Move::E(l) | Move::Ep(l) => lemma_sliced_e_inverse(s, l as int),
        Move::S(l) | Move::Sp(l) => lemma_sliced_s_inverse(s, l as int),
    }
}

proof fn lemma_turn_inverse_u(s: CubeState)
    requires
        state_wf(s),
        s.size >= 1,
    ensures
        applied(applied(s, Move::U), Move::Up) == s,
        applied(applied(s, Move::Up), Move::U) == s,
{
    lemma_rot_cw_ccw(s.top, s.size);
    assert(applied(applied(s, Move::U), Move::Up) =~~= s);
    assert(applied(applied(s, Move::Up), Move::U) =~~= s);
}

proof fn lemma_turn_inverse_d(s: CubeState)
    requires
        state_wf(s),
        s.size >= 1,
    ensures
        applied(applied(s, Move::D), Move::Dp) == s,
        applied(applied(s, Move::Dp), Move::D) == s,
{
    lemma_rot_cw_ccw(s.bottom, s.size);
    assert(applied(applied(s, Move::D), Move::Dp) =~~= s);
    assert(applied(applied(s, Move::Dp), Move::D) =~~= s);
}

proof fn lemma_turn_inverse_r(s: CubeState)
    requires
        state_wf(s),
        s.size >= 1,
    ensures
        applied(applied(s, Move::R), Move::Rp) == s,
        applied(applied(s, Move::Rp), Move::R) == s,
{
    let n = s.size;
    let l = n - 1;
    lemma_rot_cw_ccw(s.right, n);
    let a = face_turned(s, Face::Right, true);
    lemma_sliced_m_inverse(a, l);
    assert(applied(applied(s, Move::R), Move::Rp) =~~= s);
    let b = face_turned(s, Face::Right, false);
    lemma_sliced_m_inverse(b, l);
    assert(applied(applied(s, Move::Rp), Move::R) =~~= s);
}

proof fn lemma_turn_inverse_l(s: CubeState)
    requires
        state_wf(s),
        s.size >= 1,
    ensures
        applied(applied(s, Move::L), Move::Lp) == s,
        applied(applied(s, Move::Lp), Move::L) == s,
{
    let n = s.size;
    lemma_rot_cw_ccw(s.left, n);
    lemma_sliced_m_inverse(face_turned(s, Face::Left, true), 0);
    assert(applied(applied(s, Move::L), Move::Lp) =~~= s);
    lemma_sliced_m_inverse(face_turned(s, Face::Left, false), 0);
    assert(applied(applied(s, Move::Lp), Move::L) =~~= s);
}

proof fn lemma_turn_inverse_f(s: CubeState)
    requires
        state_wf(s),
        s.size >= 1,
    ensures
        applied(applied(s, Move::F), Move::Fp) == s,
        applied(applied(s, Move::Fp), Move::F) == s,
{
    let n = s.size;
    lemma_rot_cw_ccw(s.front, n);
    lemma_sliced_s_inverse(face_turned(s, Face::Front, true), 0);
    assert(applied(applied(s, Move::F), Move::Fp) =~~= s);
    lemma_sliced_s_inverse(face_turned(s, Face::Front, false), 0);
    assert(applied(applied(s, Move::Fp), Move::F) =~~= s);
}

proof fn lemma_turn_inverse_b(s: CubeState)
    requires
        state_wf(s),
        s.size >= 1,
    ensures
        applied(applied(s, Move::B), Move::Bp) == s,
        applied(applied(s, Move::Bp), Move::B) == s,
{
    let n = s.size;
    let l = n - 1;
    lemma_rot_cw_ccw(s.back, n);
    lemma_sliced_s_inverse(face_turned(s, Face::Back, true), l);
    assert(applied(applied(s, Move::B), Move::Bp) =~~= s);
    lemma_sliced_s_inverse(face_turned(s, Face::Back, false), l);
    assert(applied(applied(s, Move::Bp), Move::B) =~~= s);
}

proof fn lemma_rotation_inverse_x(s: CubeState)
    requires
        state_wf(s),
    ensures
        applied(applied(s, Move::X), Move::Xp) == s,
        applied(applied(s, Move::Xp), Move::X) == s,
{
    let n = s.size;
    lemma_rot_cw_ccw(s.left, n);
    lemma_rot_cw_ccw(s.right, n);
    lemma_flip_flip(s.top, n);
    lemma_flip_flip(s.back, n);
    lemma_flip_flip(s.bottom, n);
    assert(applied(applied(s, Move::X), Move::Xp) =~~= s);
    assert(applied(applied(s, Move::Xp), Move::X) =~~= s);
}

proof fn lemma_rotation_inverse_y(s: CubeState)
    requires
        state_wf(s),
    ensures
        applied(applied(s, Move::Y), Move::Yp) == s,
        applied(applied(s, Move::Yp), Move::Y) == s,
{
    let n = s.size;
    lemma_rot_cw_ccw(s.top, n);
    lemma_rot_cw_ccw(s.bottom, n);
    assert(applied(applied(s, Move::Y), Move::Yp) =~~= s);
    assert(applied(applied(s, Move::Yp), Move::Y) =~~= s);
}

proof fn lemma_rotation_inverse_z(s: CubeState)
    requires
        state_wf(s),
    ensures
        applied(applied(s, Move::Z), Move::Zp) == s,
        applied(applied(s, Move::Zp), Move::Z) == s,
{
    let n = s.size;
    lemma_rot_cw_ccw(s.front, n);
    lemma_rot_cw_ccw(s.back, n);
    lemma_rot_cw_ccw(s.top, n);
    lemma_rot_cw_ccw(s.right, n);
    lemma_rot_cw_ccw(s.bottom, n);
    lemma_rot_cw_ccw(s.left, n);
    assert(applied(applied(s, Move::Z), Move::Zp) =~~= s);
    assert(applied(applied(s, Move::Zp), Move::Z) =~~= s);
}

/// Rotating one face clockwise four times in a row returns it — and the
/// whole cube — to the exact state it had before.
pub proof fn lemma_face_turn_four(s: CubeState, f: Face)
    requires
        state_wf(s),
    ensures
        face_turned(face_turned(face_turned(face_turned(s, f, true), f, true), f, true), f, true)
            == s,
        face_turned(
            face_turned(face_turned(face_turned(s, f, false), f, false), f, false),
            f,
            false,
        ) == s,
{
    lemma_rot_cw_four(face_of(s, f), s.size);
    assert(face_turned(
        face_turned(face_turned(face_turned(s, f, true), f, true), f, true),
        f,
        true,
    ) =~~= s);
    assert(face_turned(
        face_turned(face_turned(face_turned(s, f, false), f, false), f, false),
        f,
        false,
    ) =~~= s);
}

/// Any whole-cube rotation applied four times in a row returns every
/// tile to its original place.
pub proof fn lemma_rotation_four(s: CubeState, m: Move)
    requires
        state_wf(s),
        spec_is_rotation(m),
    ensures
        applied(applied(applied(applied(s, m), m), m), m) == s,
{
    let n = s.size;
    lemma_rot_cw_four(s.front, n);
    lemma_rot_cw_four(s.top, n);
    lemma_rot_cw_four(s.right, n);
    lemma_rot_cw_four(s.left, n);
    lemma_rot_cw_four(s.bottom, n);
    lemma_rot_cw_four(s.back, n);
    lemma_rot_cw_cw(s.front, n);
    lemma_rot_cw_cw(s.top, n);
    lemma_rot_cw_cw(s.right, n);
    lemma_rot_cw_cw(s.left, n);
    lemma_rot_cw_cw(s.bottom, n);
    lemma_rot_cw_cw(s.back, n);
    lemma_flip_flip(s.front, n);
    lemma_flip_flip(s.top, n);
    lemma_flip_flip(s.right, n);
    lemma_flip_flip(s.left, n);
    lemma_flip_flip(s.bottom, n);
    lemma_flip_flip(s.back, n);
    match m {
        Move::X | Move::Xp | Move::Y | Move::Yp | Move::Z | Move::Zp => {
            assert(applied(applied(applied(applied(s, m), m), m), m) =~~= s);
        },
        _ => {},
    }
}

} // verus!
