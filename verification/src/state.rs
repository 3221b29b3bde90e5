use vstd::prelude::*;

use crate::color::Color;
use crate::face::{home_color, Face};
use crate::grid::{
    col_of, flip, grid_solid, grid_wf, rev, rot_ccw, rot_cw, set_col, set_row, solid, Grid,
};

verus! {

/// Mathematical model of the whole cube: the edge length and one grid per
/// face. Every transform below is a permutation of the existing tiles —
/// tiles move between faces and strips but are never created, lost or
/// recolored.
#[verifier::ext_equal]
pub struct CubeState {
    pub size: nat,
    pub front: Grid,
    pub top: Grid,
    pub right: Grid,
    pub left: Grid,
    pub bottom: Grid,
    pub back: Grid,
}

/// The grid of one face of the state.
pub open spec fn face_of(s: CubeState, f: Face) -> Grid {
    match f {
        Face::Front => s.front,
        Face::Top => s.top,
        Face::Right => s.right,
        Face::Left => s.left,
        Face::Bottom => s.bottom,
        Face::Back => s.back,
    }
}

/// The state with the grid of one face replaced.
pub open spec fn with_face(s: CubeState, f: Face, g: Grid) -> CubeState {
    match f {
        Face::Front => CubeState { front: g, ..s },
        Face::Top => CubeState { top: g, ..s },
        Face::Right => CubeState { right: g, ..s },
        Face::Left => CubeState { left: g, ..s },
        Face::Bottom => CubeState { bottom: g, ..s },
        Face::Back => CubeState { back: g, ..s },
    }
}

/// All six faces are well-formed size×size grids.
pub open spec fn state_wf(s: CubeState) -> bool {
    &&& grid_wf(s.front, s.size)
    &&& grid_wf(s.top, s.size)
    &&& grid_wf(s.right, s.size)
    &&& grid_wf(s.left, s.size)
    &&& grid_wf(s.bottom, s.size)
    &&& grid_wf(s.back, s.size)
}

/// Every tile of every face shows that face's home color.
pub open spec fn is_solved(s: CubeState) -> bool {
    &&& grid_solid(s.front, home_color(Face::Front), s.size)
    &&& grid_solid(s.top, home_color(Face::Top), s.size)
    &&& grid_solid(s.right, home_color(Face::Right), s.size)
    &&& grid_solid(s.left, home_color(Face::Left), s.size)
    &&& grid_solid(s.bottom, home_color(Face::Bottom), s.size)
    &&& grid_solid(s.back, home_color(Face::Back), s.size)
}

/// The freshly built cube of edge length n: each face entirely its home
/// color.
pub open spec fn solved_state(n: nat) -> CubeState {
    CubeState {
        size: n,
        front: solid(home_color(Face::Front), n),
        top: solid(home_color(Face::Top), n),
        right: solid(home_color(Face::Right), n),
        left: solid(home_color(Face::Left), n),
        bottom: solid(home_color(Face::Bottom), n),
        back: solid(home_color(Face::Back), n),
    }
}

/// One face rotated 90° about its own normal; no other face moves.
pub open spec fn face_turned(s: CubeState, f: Face, clockwise: bool) -> CubeState {
    if clockwise {
        with_face(s, f, rot_cw(face_of(s, f), s.size))
    } else {
        with_face(s, f, rot_ccw(face_of(s, f), s.size))
    }
}

/// M-family slice at column `c`: the column strip cycles
/// Front → Bottom → Back → Top → Front, with the strips through Back
/// reversed to keep their orientation in the cube's fixed frame.
pub open spec fn sliced_m(s: CubeState, c: int) -> CubeState {
    let n = s.size;
    CubeState {
        front: set_col(s.front, c, col_of(s.top, c, n), n),
        bottom: set_col(s.bottom, c, col_of(s.front, c, n), n),
        back: set_col(s.back, n - 1 - c, rev(col_of(s.bottom, c, n)), n),
        top: set_col(s.top, c, rev(col_of(s.back, n - 1 - c, n)), n),
        ..s
    }
}

/// Exact inverse of the M slice at the same column.
pub open spec fn sliced_m_prime(s: CubeState, c: int) -> CubeState {
    let n = s.size;
    CubeState {
        front: set_col(s.front, c, col_of(s.bottom, c, n), n),
        bottom: set_col(s.bottom, c, rev(col_of(s.back, n - 1 - c, n)), n),
        back: set_col(s.back, n - 1 - c, rev(col_of(s.top, c, n)), n),
        top: set_col(s.top, c, col_of(s.front, c, n), n),
        ..s
    }
}

/// E-family slice at row `r`: the row strip cycles
/// Front → Right → Back → Left → Front.
pub open spec fn sliced_e(s: CubeState, r: int) -> CubeState {
    CubeState {
        front: set_row(s.front, r, s.left[r]),
        right: set_row(s.right, r, s.front[r]),
        back: set_row(s.back, r, s.right[r]),
        left: set_row(s.left, r, s.back[r]),
        ..s
    }
}

/// Exact inverse of the E slice at the same row.
pub open spec fn sliced_e_prime(s: CubeState, r: int) -> CubeState {
    CubeState {
        front: set_row(s.front, r, s.right[r]),
        right: set_row(s.right, r, s.back[r]),
        back: set_row(s.back, r, s.left[r]),
        left: set_row(s.left, r, s.front[r]),
        ..s
    }
}

/// S-family slice at layer `l`: the strip cycles
/// Top → Right → Bottom → Left → Top, with the strips leaving Right and
/// Left reversed to keep their orientation.
pub open spec fn sliced_s(s: CubeState, l: int) -> CubeState {
    let n = s.size;
    CubeState {
        top: set_row(s.top, n - 1 - l, rev(col_of(s.left, n - 1 - l, n))),
        right: set_col(s.right, l, s.top[n - 1 - l], n),
        bottom: set_row(s.bottom, l, rev(col_of(s.right, l, n))),
        left: set_col(s.left, n - 1 - l, s.bottom[l], n),
        ..s
    }
}

/// Exact inverse of the S slice at the same layer.
pub open spec fn sliced_s_prime(s: CubeState, l: int) -> CubeState {
    let n = s.size;
    CubeState {
        top: set_row(s.top, n - 1 - l, col_of(s.right, l, n)),
        right: set_col(s.right, l, rev(s.bottom[l]), n),
        bottom: set_row(s.bottom, l, col_of(s.left, n - 1 - l, n)),
        left: set_col(s.left, n - 1 - l, rev(s.top[n - 1 - l]), n),
        ..s
    }
}

/// Whole-cube rotation about the Left–Right axis (as the R turn turns):
/// the side faces each turn in place, and the four faces of the M belt
/// cycle, the two that pass Back arriving mirrored.
pub open spec fn rotated_x(s: CubeState) -> CubeState {
    let n = s.size;
    CubeState {
        left: rot_ccw(s.left, n),
        right: rot_cw(s.right, n),
        front: s.bottom,
        bottom: flip(s.back, n),
        back: flip(s.top, n),
        top: s.front,
        size: n,
    }
}

/// Exact inverse of the X rotation.
pub open spec fn rotated_x_prime(s: CubeState) -> CubeState {
    let n = s.size;
    CubeState {
        left: rot_cw(s.left, n),
        right: rot_ccw(s.right, n),
        front: s.top,
        top: flip(s.back, n),
        back: flip(s.bottom, n),
        bottom: s.front,
        size: n,
    }
}

/// Whole-cube rotation about the Top–Bottom axis (as the U turn turns):
/// the side faces of the E belt cycle without mirroring.
pub open spec fn rotated_y(s: CubeState) -> CubeState {
    let n = s.size;
    CubeState {
        top: rot_cw(s.top, n),
        bottom: rot_ccw(s.bottom, n),
        front: s.right,
        right: s.back,
        back: s.left,
        left: s.front,
        size: n,
    }
}

/// Exact inverse of the Y rotation.
pub open spec fn rotated_y_prime(s: CubeState) -> CubeState {
    let n = s.size;
    CubeState {
        top: rot_ccw(s.top, n),
        bottom: rot_cw(s.bottom, n),
        front: s.left,
        left: s.back,
        back: s.right,
        right: s.front,
        size: n,
    }
}

/// Whole-cube rotation about the Front–Back axis (as the F turn turns):
/// each face of the S belt arrives turned a quarter clockwise.
pub open spec fn rotated_z(s: CubeState) -> CubeState {
    let n = s.size;
    CubeState {
        front: rot_cw(s.front, n),
        back: rot_ccw(s.back, n),
        top: rot_cw(s.left, n),
        right: rot_cw(s.top, n),
        bottom: rot_cw(s.right, n),
        left: rot_cw(s.bottom, n),
        size: n,
    }
}

/// Exact inverse of the Z rotation.
pub open spec fn rotated_z_prime(s: CubeState) -> CubeState {
    let n = s.size;
    CubeState {
        front: rot_ccw(s.front, n),
        back: rot_cw(s.back, n),
        top: rot_ccw(s.right, n),
        right: rot_ccw(s.bottom, n),
        bottom: rot_ccw(s.left, n),
        left: rot_ccw(s.top, n),
        size: n,
    }
}

/// U turn: the Top face turns clockwise and carries its boundary belt,
/// the top row of the four side faces.
pub open spec fn turned_u(s: CubeState) -> CubeState {
    sliced_e_prime(face_turned(s, Face::Top, true), 0)
}

pub open spec fn turned_u_prime(s: CubeState) -> CubeState {
    sliced_e(face_turned(s, Face::Top, false), 0)
}

/// D turn: the Bottom face turns clockwise and carries the bottom row of
/// the four side faces.
pub open spec fn turned_d(s: CubeState) -> CubeState {
    sliced_e(face_turned(s, Face::Bottom, true), s.size - 1)
}

pub open spec fn turned_d_prime(s: CubeState) -> CubeState {
    sliced_e_prime(face_turned(s, Face::Bottom, false), s.size - 1)
}

/// R turn: the Right face turns clockwise and carries the boundary column
/// of the M belt.
pub open spec fn turned_r(s: CubeState) -> CubeState {
    sliced_m_prime(face_turned(s, Face::Right, true), s.size - 1)
}

pub open spec fn turned_r_prime(s: CubeState) -> CubeState {
    sliced_m(face_turned(s, Face::Right, false), s.size - 1)
}

/// L turn: the Left face turns clockwise and carries column 0 of the M
/// belt.
pub open spec fn turned_l(s: CubeState) -> CubeState {
    sliced_m(face_turned(s, Face::Left, true), 0)
}

pub open spec fn turned_l_prime(s: CubeState) -> CubeState {
    sliced_m_prime(face_turned(s, Face::Left, false), 0)
}

/// F turn: the Front face turns clockwise and carries layer 0 of the S
/// belt.
pub open spec fn turned_f(s: CubeState) -> CubeState {
    sliced_s(face_turned(s, Face::Front, true), 0)
}

pub open spec fn turned_f_prime(s: CubeState) -> CubeState {
    sliced_s_prime(face_turned(s, Face::Front, false), 0)
}

/// B turn: the Back face turns clockwise and carries the far layer of the
/// S belt.
pub open spec fn turned_b(s: CubeState) -> CubeState {
    sliced_s_prime(face_turned(s, Face::Back, true), s.size - 1)
}

pub open spec fn turned_b_prime(s: CubeState) -> CubeState {
    sliced_s(face_turned(s, Face::Back, false), s.size - 1)
}

} // verus!
