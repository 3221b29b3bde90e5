use vstd::pervasive::VecAdditionalExecFns;
use vstd::prelude::*;

use crate::color::Color;
use crate::face::Face;
use crate::grid::{
    col_of, grid_solid, grid_wf, rev, rot_ccw, rot_cw, set_col, set_row, solid, Grid,
};
use crate::moves::{applied, move_in_bounds, Move};
use crate::state::{face_of, is_solved, solved_state, state_wf, with_face, CubeState};
use crate::state::face_turned;

verus! {

/// Which way a face rotates, seen while looking straight at that face.
pub enum Direction {
    Clock,
    Counter,
}

/// The tiles of one face as stored: a vector of rows.
pub open spec fn rows_view(v: Seq<Vec<Color>>) -> Grid {
    v.map_values(|row: Vec<Color>| row@)
}

/// The cube itself: an edge length and six faces of size×size tiles,
/// mutated exclusively through the transform primitives below.
pub struct Cube {
    size: usize,
    front: Vec<Vec<Color>>,
    top: Vec<Vec<Color>>,
    right: Vec<Vec<Color>>,
    left: Vec<Vec<Color>>,
    bottom: Vec<Vec<Color>>,
    back: Vec<Vec<Color>>,
}

impl View for Cube {
    type V = CubeState;

    closed spec fn view(&self) -> CubeState {
        CubeState {
            size: self.size as nat,
            front: rows_view(self.front@),
            top: rows_view(self.top@),
            right: rows_view(self.right@),
            left: rows_view(self.left@),
            bottom: rows_view(self.bottom@),
            back: rows_view(self.back@),
        }
    }
}

/// Build one solid face: n rows of n tiles of one color.
fn solid_face(c: Color, n: usize) -> (g: Vec<Vec<Color>>)
    ensures
        rows_view(g@) == solid(c, n as nat),
{
    let mut g: Vec<Vec<Color>> = Vec::new();
    let mut r: usize = 0;
    while r < n
        invariant
            r <= n,
            g@.len() == r,
            forall|i: int| 0 <= i < r ==> (#[trigger] g@[i])@ == Seq::new(n as nat, |j: int| c),
        decreases n - r,
    {
        let mut row: Vec<Color> = Vec::new();
        let mut j: usize = 0;
        while j < n
            invariant
                j <= n,
                row@.len() == j,
                forall|k: int| 0 <= k < j ==> #[trigger] row@[k] == c,
            decreases n - j,
        {
            row.push(c);
            j += 1;
        }
        proof {
            assert(row@ =~= Seq::new(n as nat, |k: int| c));
        }
        g.push(row);
        r += 1;
    }
    proof {
        assert(rows_view(g@) =~~= solid(c, n as nat));
    }
    g
}

impl Cube {
    /// Every face is a well-formed size×size grid and the cube has at
    /// least one layer.
    pub closed spec fn wf(self) -> bool {
        self@.size == self.size && self@.size >= 1 && state_wf(self@)
    }

    /// A new cube starts solved: every face filled entirely with its home
    /// color.
    pub fn new(size: usize) -> (c: Cube)
        requires
            size >= 1,
        ensures
            c.wf(),
            c@ == solved_state(size as nat),
            is_solved(c@),
    {
        let c = Cube {
            size,
            front: solid_face(Color::White, size),
            top: solid_face(Color::Green, size),
            right: solid_face(Color::Orange, size),
            left: solid_face(Color::Red, size),
            bottom: solid_face(Color::Blue, size),
            back: solid_face(Color::Yellow, size),
        };
        proof {
            assert(c@ =~~= solved_state(size as nat));
        }
        c
    }

    /// The cube's edge length.
    pub fn size(&self) -> (n: usize)
        ensures
            n == self@.size,
    {
        self.size
    }

    spec fn face_rows(&self, face: Face) -> Seq<Vec<Color>> {
        match face {
            Face::Front => self.front@,
            Face::Top => self.top@,
            Face::Right => self.right@,
            Face::Left => self.left@,
            Face::Bottom => self.bottom@,
            Face::Back => self.back@,
        }
    }

    fn face_ref(&self, face: Face) -> (g: &Vec<Vec<Color>>)
        ensures
            g@ == self.face_rows(face),
            rows_view(g@) == face_of(self@, face),
    {
        match face {
            Face::Front => &self.front,
            Face::Top => &self.top,
            Face::Right => &self.right,
            Face::Left => &self.left,
            Face::Bottom => &self.bottom,
            Face::Back => &self.back,
        }
    }

    /// A copy of row `row` of one face, left to right.
    pub fn get_row(&self, face: Face, row: usize) -> (r: Vec<Color>)
        requires
            self.wf(),
            row < self@.size,
        ensures
            r@ == face_of(self@, face)[row as int],
            r@.len() == self@.size,
    {
        let g = self.face_ref(face);
        let n = self.size;
        let mut r: Vec<Color> = Vec::new();
        let mut j: usize = 0;
        while j < n
            invariant
                j <= n,
                n == self@.size,
                row < n,
                g@ == self.face_rows(face),
                rows_view(g@) == face_of(self@, face),
                grid_wf(face_of(self@, face), n as nat),
                r@.len() == j,
                forall|k: int| 0 <= k < j ==> #[trigger] r@[k] == face_of(self@, face)[row as int][k],
            decreases n - j,
    {
            assert(g@[row as int]@ == face_of(self@, face)[row as int]);
            r.push(g[row][j]);
            j += 1;
        }
        proof {
            assert(r@ =~= face_of(self@, face)[row as int]);
        }
        r
    }

    /// A copy of column `col` of one face, top to bottom.
    pub fn get_col(&self, face: Face, col: usize) -> (r: Vec<Color>)
        requires
            self.wf(),
            col < self@.size,
        ensures
            r@ == col_of(face_of(self@, face), col as int, self@.size),
            r@.len() == self@.size,
    {
        let g = self.face_ref(face);
        let n = self.size;
        let mut r: Vec<Color> = Vec::new();
        let mut i: usize = 0;
        while i < n
            invariant
                i <= n,
                n == self@.size,
                col < n,
                g@ == self.face_rows(face),
                rows_view(g@) == face_of(self@, face),
                grid_wf(face_of(self@, face), n as nat),
                r@.len() == i,
                forall|k: int| 0 <= k < i ==> #[trigger] r@[k] == face_of(self@, face)[k][col as int],
            decreases n - i,
        {
            assert(g@[i as int]@ == face_of(self@, face)[i as int]);
            r.push(g[i][col]);
            i += 1;
        }
        proof {
            assert(r@ =~= col_of(face_of(self@, face), col as int, self@.size));
        }
        r
    }

    fn set_face(&mut self, face: Face, g: Vec<Vec<Color>>)
        requires
            old(self).wf(),
            grid_wf(rows_view(g@), old(self)@.size),
        ensures
            final(self).wf(),
            final(self)@ == with_face(old(self)@, face, rows_view(g@)),
    {
        match face {
            Face::Front => {
                self.front = g;
                proof {
                    assert(self@ =~~= with_face(old(self)@, face, rows_view(g@)));
                }
            },
            Face::Top => {
                self.top = g;
                proof {
                    assert(self@ =~~= with_face(old(self)@, face, rows_view(g@)));
                }
            },
            Face::Right => {
                self.right = g;
                proof {
                    assert(self@ =~~= with_face(old(self)@, face, rows_view(g@)));
                }
            },
            Face::Left => {
                self.left = g;
                proof {
                    assert(self@ =~~= with_face(old(self)@, face, rows_view(g@)));
                }
            },
            Face::Bottom => {
                self.bottom = g;
                proof {
                    assert(self@ =~~= with_face(old(self)@, face, rows_view(g@)));
                }
            },
            Face::Back => {
                self.back = g;
                proof {
                    assert(self@ =~~= with_face(old(self)@, face, rows_view(g@)));
                }
            },
        }
    }

    /// Overwrite row `row` of one face; no other tile moves.
    pub fn set_row(&mut self, face: Face, row: usize, v: Vec<Color>)
        requires
            old(self).wf(),
            row < old(self)@.size,
            v@.len() == old(self)@.size,
        ensures
            final(self).wf(),
            final(self)@ == with_face(
                old(self)@,
                face,
                set_row(face_of(old(self)@, face), row as int, v@),
            ),
    {
        proof {
            crate::grid::lemma_set_row_wf(
                face_of(old(self)@, face),
                row as int,
                v@,
                old(self)@.size,
            );
        }
        match face {
            Face::Front => {
                self.front.set(row, v);
                proof {
                    assert(rows_view(self.front@) =~~= set_row(
                        face_of(old(self)@, face),
                        row as int,
                        v@,
                    ));
                    assert(self@ =~~= with_face(
                        old(self)@,
                        face,
                        set_row(face_of(old(self)@, face), row as int, v@),
                    ));
                }
            },
            Face::Top => {
                self.top.set(row, v);
                proof {
                    assert(rows_view(self.top@) =~~= set_row(
                        face_of(old(self)@, face),
                        row as int,
                        v@,
                    ));
                    assert(self@ =~~= with_face(
                        old(self)@,
                        face,
                        set_row(face_of(old(self)@, face), row as int, v@),
                    ));
                }
            },
            Face::Right => {
                self.right.set(row, v);
                proof {
                    assert(rows_view(self.right@) =~~= set_row(
                        face_of(old(self)@, face),
                        row as int,
                        v@,
                    ));
                    assert(self@ =~~= with_face(
                        old(self)@,
                        face,
                        set_row(face_of(old(self)@, face), row as int, v@),
                    ));
                }
            },
            Face::Left => {
                self.left.set(row, v);
                proof {
                    assert(rows_view(self.left@) =~~= set_row(
                        face_of(old(self)@, face),
                        row as int,
                        v@,
                    ));
                    assert(self@ =~~= with_face(
                        old(self)@,
                        face,
                        set_row(face_of(old(self)@, face), row as int, v@),
                    ));
                }
            },
            Face::Bottom => {
                self.bottom.set(row, v);
                proof {
                    assert(rows_view(self.bottom@) =~~= set_row(
                        face_of(old(self)@, face),
                        row as int,
                        v@,
                    ));
                    assert(self@ =~~= with_face(
                        old(self)@,
                        face,
                        set_row(face_of(old(self)@, face), row as int, v@),
                    ));
                }
            },
            Face::Back => {
                self.back.set(row, v);
                proof {
                    assert(rows_view(self.back@) =~~= set_row(
                        face_of(old(self)@, face),
                        row as int,
                        v@,
                    ));
                    assert(self@ =~~= with_face(
                        old(self)@,
                        face,
                        set_row(face_of(old(self)@, face), row as int, v@),
                    ));
                }
            },
        }
    }

    /// Overwrite column `col` of one face; no other tile moves.
    pub fn set_col(&mut self, face: Face, col: usize, v: Vec<Color>)
        requires
            old(self).wf(),
            col < old(self)@.size,
            v@.len() == old(self)@.size,
        ensures
            final(self).wf(),
            final(self)@ == with_face(
                old(self)@,
                face,
                set_col(face_of(old(self)@, face), col as int, v@, old(self)@.size),
            ),
    {
        let n = self.size;
        let g = self.face_ref(face);
        let mut updated: Vec<Vec<Color>> = Vec::new();
        let mut r: usize = 0;
        while r < n
            invariant
                r <= n,
                n == self@.size,
                col < n,
                v@.len() == n,
                g@ == self.face_rows(face),
                rows_view(g@) == face_of(self@, face),
                grid_wf(face_of(self@, face), n as nat),
                updated@.len() == r,
                forall|i: int| 0 <= i < r ==> (#[trigger] updated@[i])@ == face_of(
                    self@,
                    face,
                )[i].update(col as int, v@[i]),
            decreases n - r,
        {
            assert(g@[r as int]@ == face_of(self@, face)[r as int]);
            let mut row: Vec<Color> = Vec::new();
            let mut j: usize = 0;
            while j < n
                invariant
                    j <= n,
                    r < n,
                    col < n,
                    v@.len() == n,
                    g@ == self.face_rows(face),
                    rows_view(g@) == face_of(self@, face),
                    grid_wf(face_of(self@, face), n as nat),
                    n == self@.size,
                    row@.len() == j,
                    forall|k: int| 0 <= k < j ==> #[trigger] row@[k] == (if k == col {
                        v@[r as int]
                    } else {
                        face_of(self@, face)[r as int][k]
                    }),
                decreases n - j,
            {
                assert(g@[r as int]@ == face_of(self@, face)[r as int]);
                if j == col {
                    row.push(v[r]);
                } else {
                    row.push(g[r][j]);
                }
                j += 1;
            }
            proof {
                assert(row@ =~= face_of(self@, face)[r as int].update(col as int, v@[r as int]));
            }
            updated.push(row);
            r += 1;
        }
        proof {
            assert(rows_view(updated@) =~~= set_col(
                face_of(self@, face),
                col as int,
                v@,
                n as nat,
            ));
            crate::grid::lemma_set_col_wf(face_of(self@, face), col as int, v@, n as nat);
        }
        self.set_face(face, updated);
    }

    /// Rotate one face 90° in place, as seen looking straight at it; no
    /// adjacent face is touched.
    pub fn aboutface(&mut self, face: Face, direction: Direction)
        requires
            old(self).wf(),
        ensures
            final(self).wf(),
            final(self)@ == match direction {
                Direction::Clock => face_turned(old(self)@, face, true),
                Direction::Counter => face_turned(old(self)@, face, false),
            },
    {
        let n = self.size;
        let turned = match direction {
            Direction::Clock => rotated_face_cw(self.face_ref(face), n),
            Direction::Counter => rotated_face_ccw(self.face_ref(face), n),
        };
        proof {
            crate::grid::lemma_rot_cw_wf(face_of(old(self)@, face), n as nat);
        }
        self.set_face(face, turned);
    }

    /// M-family slice: the column strip at `layer` cycles
    /// Front → Bottom → Back → Top → Front, the strips through Back
    /// travelling reversed.
    pub fn slice_m(&mut self, layer: usize)
        requires
            old(self).wf(),
            layer < old(self)@.size,
        ensures
            final(self).wf(),
            final(self)@ == crate::state::sliced_m(old(self)@, layer as int),
    {
        let n = self.size;
        let old_front = self.get_col(Face::Front, layer);
        let old_bottom = self.get_col(Face::Bottom, layer);
        let old_back = self.get_col(Face::Back, n - layer - 1);
        let old_top = self.get_col(Face::Top, layer);
        let old_back = reversed(&old_back);
        let old_bottom = reversed(&old_bottom);

        self.set_col(Face::Front, layer, old_top);
        self.set_col(Face::Bottom, layer, old_front);
        self.set_col(Face::Back, n - layer - 1, old_bottom);
        self.set_col(Face::Top, layer, old_back);
        proof {
            assert(self@ =~~= crate::state::sliced_m(old(self)@, layer as int));
        }
    }

    /// Exact inverse of `slice_m` at the same layer.
    pub fn slice_m_prime(&mut self, layer: usize)
        requires
            old(self).wf(),
            layer < old(self)@.size,
        ensures
            final(self).wf(),
            final(self)@ == crate::state::sliced_m_prime(old(self)@, layer as int),
    {
        let n = self.size;
        let old_front = self.get_col(Face::Front, layer);
        let old_bottom = self.get_col(Face::Bottom, layer);
        let old_back = self.get_col(Face::Back, n - layer - 1);
        let old_top = self.get_col(Face::Top, layer);
        let old_back = reversed(&old_back);
        let old_top = reversed(&old_top);

        self.set_col(Face::Front, layer, old_bottom);
        self.set_col(Face::Bottom, layer, old_back);
        self.set_col(Face::Back, n - layer - 1, old_top);
        self.set_col(Face::Top, layer, old_front);
        proof {
            assert(self@ =~~= crate::state::sliced_m_prime(old(self)@, layer as int));
        }
    }

    /// E-family slice: the row strip at `layer` cycles
    /// Front → Right → Back → Left → Front.
    pub fn slice_e(&mut self, layer: usize)
        requires
            old(self).wf(),
            layer < old(self)@.size,
        ensures
            final(self).wf(),
            final(self)@ == crate::state::sliced_e(old(self)@, layer as int),
    {
        let old_front = self.get_row(Face::Front, layer);
        let old_right = self.get_row(Face::Right, layer);
        let old_back = self.get_row(Face::Back, layer);
        let old_left = self.get_row(Face::Left, layer);

        self.set_row(Face::Front, layer, old_left);
        self.set_row(Face::Right, layer, old_front);
        self.set_row(Face::Back, layer, old_right);
        self.set_row(Face::Left, layer, old_back);
        proof {
            assert(self@ =~~= crate::state::sliced_e(old(self)@, layer as int));
        }
    }

    /// Exact inverse of `slice_e` at the same layer.
    pub fn slice_e_prime(&mut self, layer: usize)
        requires
            old(self).wf(),
            layer < old(self)@.size,
        ensures
            final(self).wf(),
            final(self)@ == crate::state::sliced_e_prime(old(self)@, layer as int),
    {
        let old_front = self.get_row(Face::Front, layer);
        let old_right = self.get_row(Face::Right, layer);
        let old_back = self.get_row(Face::Back, layer);
        let old_left = self.get_row(Face::Left, layer);

        self.set_row(Face::Front, layer, old_right);
        self.set_row(Face::Right, layer, old_back);
        self.set_row(Face::Back, layer, old_left);
        self.set_row(Face::Left, layer, old_front);
        proof {
            assert(self@ =~~= crate::state::sliced_e_prime(old(self)@, layer as int));
        }
    }

    /// S-family slice: the strip at `layer` cycles
    /// Top → Right → Bottom → Left → Top, the strips leaving Right and
    /// Left travelling reversed.
    pub fn slice_s(&mut self, layer: usize)
        requires
            old(self).wf(),
            layer < old(self)@.size,
        ensures
            final(self).wf(),
            final(self)@ == crate::state::sliced_s(old(self)@, layer as int),
    {
        let n = self.size;
        let old_top = self.get_row(Face::Top, n - layer - 1);
        let old_right = self.get_col(Face::Right, layer);
        let old_bottom = self.get_row(Face::Bottom, layer);
        let old_left = self.get_col(Face::Left, n - layer - 1);
        let old_left = reversed(&old_left);
        let old_right = reversed(&old_right);

        self.set_row(Face::Top, n - layer - 1, old_left);
        self.set_col(Face::Right, layer, old_top);
        self.set_row(Face::Bottom, layer, old_right);
        self.set_col(Face::Left, n - layer - 1, old_bottom);
        proof {
            assert(self@ =~~= crate::state::sliced_s(old(self)@, layer as int));
        }
    }

    /// Exact inverse of `slice_s` at the same layer.
    pub fn slice_s_prime(&mut self, layer: usize)
        requires
            old(self).wf(),
            layer < old(self)@.size,
        ensures
            final(self).wf(),
            final(self)@ == crate::state::sliced_s_prime(old(self)@, layer as int),
    {
        let n = self.size;
        let old_top = self.get_row(Face::Top, n - layer - 1);
        let old_right = self.get_col(Face::Right, layer);
        let old_bottom = self.get_row(Face::Bottom, layer);
        let old_left = self.get_col(Face::Left, n - layer - 1);
        let old_top = reversed(&old_top);
        let old_bottom = reversed(&old_bottom);

        self.set_row(Face::Top, n - layer - 1, old_right);
        self.set_col(Face::Right, layer, old_bottom);
        self.set_row(Face::Bottom, layer, old_left);
        self.set_col(Face::Left, n - layer - 1, old_top);
        proof {
            assert(self@ =~~= crate::state::sliced_s_prime(old(self)@, layer as int));
        }
    }

    /// U: quarter turn of the Top face, carrying its boundary belt.
    pub fn turn_u(&mut self)
        requires
            old(self).wf(),
        ensures
            final(self).wf(),
            final(self)@ == crate::state::turned_u(old(self)@),
    {
        self.aboutface(Face::Top, Direction::Clock);
        self.slice_e_prime(0);
    }

    /// Exact inverse of the U turn.
    pub fn turn_u_prime(&mut self)
        requires
            old(self).wf(),
        ensures
            final(self).wf(),
            final(self)@ == crate::state::turned_u_prime(old(self)@),
    {
        self.aboutface(Face::Top, Direction::Counter);
        self.slice_e(0);
    }

    /// D: quarter turn of the Bottom face, carrying its boundary belt.
    pub fn turn_d(&mut self)
        requires
            old(self).wf(),
        ensures
            final(self).wf(),
            final(self)@ == crate::state::turned_d(old(self)@),
    {
        self.aboutface(Face::Bottom, Direction::Clock);
        let n = self.size;
        self.slice_e(n - 1);
    }

    /// Exact inverse of the D turn.
    pub fn turn_d_prime(&mut self)
        requires
            old(self).wf(),
        ensures
            final(self).wf(),
            final(self)@ == crate::state::turned_d_prime(old(self)@),
    {
        self.aboutface(Face::Bottom, Direction::Counter);
        let n = self.size;
        self.slice_e_prime(n - 1);
    }

    /// R: quarter turn of the Right face, carrying its boundary belt.
    pub fn turn_r(&mut self)
        requires
            old(self).wf(),
        ensures
            final(self).wf(),
            final(self)@ == crate::state::turned_r(old(self)@),
    {
        self.aboutface(Face::Right, Direction::Clock);
        let n = self.size;
        self.slice_m_prime(n - 1);
    }

    /// Exact inverse of the R turn.
    pub fn turn_r_prime(&mut self)
        requires
            old(self).wf(),
        ensures
            final(self).wf(),
            final(self)@ == crate::state::turned_r_prime(old(self)@),
    {
        self.aboutface(Face::Right, Direction::Counter);
        let n = self.size;
        self.slice_m(n - 1);
    }

    /// L: quarter turn of the Left face, carrying its boundary belt.
    pub fn turn_l(&mut self)
        requires
            old(self).wf(),
        ensures
            final(self).wf(),
            final(self)@ == crate::state::turned_l(old(self)@),
    {
        self.aboutface(Face::Left, Direction::Clock);
        self.slice_m(0);
    }

    /// Exact inverse of the L turn.
    pub fn turn_l_prime(&mut self)
        requires
            old(self).wf(),
        ensures
            final(self).wf(),
            final(self)@ == crate::state::turned_l_prime(old(self)@),
    {
        self.aboutface(Face::Left, Direction::Counter);
        self.slice_m_prime(0);
    }

    /// F: quarter turn of the Front face, carrying its boundary belt.
    pub fn turn_f(&mut self)
        requires
            old(self).wf(),
        ensures
            final(self).wf(),
            final(self)@ == crate::state::turned_f(old(self)@),
    {
        self.aboutface(Face::Front, Direction::Clock);
        self.slice_s(0);
    }

    /// Exact inverse of the F turn.
    pub fn turn_f_prime(&mut self)
        requires
            old(self).wf(),
        ensures
            final(self).wf(),
            final(self)@ == crate::state::turned_f_prime(old(self)@),
    {
        self.aboutface(Face::Front, Direction::Counter);
        self.slice_s_prime(0);
    }

    /// B: quarter turn of the Back face, carrying its boundary belt.
    pub fn turn_b(&mut self)
        requires
            old(self).wf(),
        ensures
            final(self).wf(),
            final(self)@ == crate::state::turned_b(old(self)@),
    {
        self.aboutface(Face::Back, Direction::Clock);
        let n = self.size;
        self.slice_s_prime(n - 1);
    }

    /// Exact inverse of the B turn.
    pub fn turn_b_prime(&mut self)
        requires
            old(self).wf(),
        ensures
            final(self).wf(),
            final(self)@ == crate::state::turned_b_prime(old(self)@),
    {
        self.aboutface(Face::Back, Direction::Counter);
        let n = self.size;
        self.slice_s(n - 1);
    }

    /// X: reorient the whole cube as an R turn would carry it — every
    /// M-belt column slice plus both side faces turning in place.
    pub fn rotate_x(&mut self)
        requires
            old(self).wf(),
        ensures
            final(self).wf(),
            final(self)@ == crate::state::rotated_x(old(self)@),
    {
        self.aboutface(Face::Left, Direction::Counter);
        self.aboutface(Face::Right, Direction::Clock);
        let ghost st0 = self@;
        let n = self.size;
        let mut layer: usize = 0;
        while layer < n
            invariant
                layer <= n,
                self.wf(),
                self@.size == n,
                st0.size == n,
                state_wf(st0),
                self@.left == st0.left,
                self@.right == st0.right,
                forall|r: int, j: int| 0 <= r < n && 0 <= j < n ==> #[trigger] self@.front[r][j]
                    == (if j < layer { st0.bottom[r][j] } else { st0.front[r][j] }),
                forall|r: int, j: int| 0 <= r < n && 0 <= j < n ==> #[trigger] self@.bottom[r][j]
                    == (if j < layer { st0.back[n - 1 - r][n - 1 - j] } else { st0.bottom[r][j] }),
                forall|r: int, j: int| 0 <= r < n && 0 <= j < n ==> #[trigger] self@.back[r][j]
                    == (if j >= n - layer { st0.top[n - 1 - r][n - 1 - j] } else { st0.back[r][j] }),
                forall|r: int, j: int| 0 <= r < n && 0 <= j < n ==> #[trigger] self@.top[r][j]
                    == (if j < layer { st0.front[r][j] } else { st0.top[r][j] }),
            decreases n - layer,
        {
            let ghost prev = self@;
            self.slice_m_prime(layer);
            proof {
                let c = layer as int;
                assert forall|r: int, j: int| 0 <= r < n && 0 <= j < n implies #[trigger] self@
                    .front[r][j] == (if j < c + 1 {
                    st0.bottom[r][j]
                } else {
                    st0.front[r][j]
                }) by {
                    assert(self@.front[r] == prev.front[r].update(
                        c,
                        col_of(prev.bottom, c, n as nat)[r],
                    ));
                }
                assert forall|r: int, j: int| 0 <= r < n && 0 <= j < n implies #[trigger] self@
                    .bottom[r][j] == (if j < c + 1 {
                    st0.back[n - 1 - r][n - 1 - j]
                } else {
                    st0.bottom[r][j]
                }) by {
                    assert(self@.bottom[r] == prev.bottom[r].update(
                        c,
                        rev(col_of(prev.back, n - 1 - c, n as nat))[r],
                    ));
                }
                assert forall|r: int, j: int| 0 <= r < n && 0 <= j < n implies #[trigger] self@
                    .back[r][j] == (if j >= n - (c + 1) {
                    st0.top[n - 1 - r][n - 1 - j]
                } else {
                    st0.back[r][j]
                }) by {
                    assert(self@.back[r] == prev.back[r].update(
                        n - 1 - c,
                        rev(col_of(prev.top, c, n as nat))[r],
                    ));
                }
                assert forall|r: int, j: int| 0 <= r < n && 0 <= j < n implies #[trigger] self@
                    .top[r][j] == (if j < c + 1 {
                    st0.front[r][j]
                } else {
                    st0.top[r][j]
                }) by {
                    assert(self@.top[r] == prev.top[r].update(c, col_of(prev.front, c, n as nat)[r]));
                }
            }
            layer += 1;
        }
        proof {
            assert(self@.front =~~= st0.bottom);
            assert(self@.bottom =~~= crate::grid::flip(st0.back, n as nat));
            assert(self@.back =~~= crate::grid::flip(st0.top, n as nat));
            assert(self@.top =~~= st0.front);
            assert(self@ =~~= crate::state::rotated_x(old(self)@));
        }
    }

    /// Exact inverse of the X rotation.
    pub fn rotate_x_prime(&mut self)
        requires
            old(self).wf(),
        ensures
            final(self).wf(),
            final(self)@ == crate::state::rotated_x_prime(old(self)@),
    {
        self.aboutface(Face::Left, Direction::Clock);
        self.aboutface(Face::Right, Direction::Counter);
        let ghost st0 = self@;
        let n = self.size;
        let mut layer: usize = 0;
        while layer < n
            invariant
                layer <= n,
                self.wf(),
                self@.size == n,
                st0.size == n,
                state_wf(st0),
                self@.left == st0.left,
                self@.right == st0.right,
                forall|r: int, j: int| 0 <= r < n && 0 <= j < n ==> #[trigger] self@.front[r][j]
                    == (if j < layer { st0.top[r][j] } else { st0.front[r][j] }),
                forall|r: int, j: int| 0 <= r < n && 0 <= j < n ==> #[trigger] self@.bottom[r][j]
                    == (if j < layer { st0.front[r][j] } else { st0.bottom[r][j] }),
                forall|r: int, j: int| 0 <= r < n && 0 <= j < n ==> #[trigger] self@.back[r][j]
                    == (if j >= n - layer { st0.bottom[n - 1 - r][n - 1 - j] } else { st0.back[r][j] }),
                forall|r: int, j: int| 0 <= r < n && 0 <= j < n ==> #[trigger] self@.top[r][j]
                    == (if j < layer { st0.back[n - 1 - r][n - 1 - j] } else { st0.top[r][j] }),
            decreases n - layer,
        {
            let ghost prev = self@;
            self.slice_m(layer);
            proof {
                let c = layer as int;
                assert forall|r: int, j: int| 0 <= r < n && 0 <= j < n implies #[trigger] self@
                    .front[r][j] == (if j < c + 1 {
                    st0.top[r][j]
                } else {
                    st0.front[r][j]
                }) by {
                    assert(self@.front[r] == prev.front[r].update(
                        c,
                        col_of(prev.top, c, n as nat)[r],
                    ));
                }
                assert forall|r: int, j: int| 0 <= r < n && 0 <= j < n implies #[trigger] self@
                    .bottom[r][j] == (if j < c + 1 {
                    st0.front[r][j]
                } else {
                    st0.bottom[r][j]
                }) by {
                    assert(self@.bottom[r] == prev.bottom[r].update(
                        c,
                        col_of(prev.front, c, n as nat)[r],
                    ));
                }
                assert forall|r: int, j: int| 0 <= r < n && 0 <= j < n implies #[trigger] self@
                    .back[r][j] == (if j >= n - (c + 1) {
                    st0.bottom[n - 1 - r][n - 1 - j]
                } else {
                    st0.back[r][j]
                }) by {
                    assert(self@.back[r] == prev.back[r].update(
                        n - 1 - c,
                        rev(col_of(prev.bottom, c, n as nat))[r],
                    ));
                }
                assert forall|r: int, j: int| 0 <= r < n && 0 <= j < n implies #[trigger] self@
                    .top[r][j] == (if j < c + 1 {
                    st0.back[n - 1 - r][n - 1 - j]
                } else {
                    st0.top[r][j]
                }) by {
                    assert(self@.top[r] == prev.top[r].update(
                        c,
                        rev(col_of(prev.back, n - 1 - c, n as nat))[r],
                    ));
                }
            }
            layer += 1;
        }
        proof {
            assert(self@.front =~~= st0.top);
            assert(self@.bottom =~~= st0.front);
            assert(self@.back =~~= crate::grid::flip(st0.bottom, n as nat));
            assert(self@.top =~~= crate::grid::flip(st0.back, n as nat));
            assert(self@ =~~= crate::state::rotated_x_prime(old(self)@));
        }
    }

    /// Y: reorient the whole cube as a U turn would carry it.
    pub fn rotate_y(&mut self)
        requires
            old(self).wf(),
        ensures
            final(self).wf(),
            final(self)@ == crate::state::rotated_y(old(self)@),
    {
        self.aboutface(Face::Top, Direction::Clock);
        self.aboutface(Face::Bottom, Direction::Counter);
        let ghost st0 = self@;
        let n = self.size;
        let mut layer: usize = 0;
        while layer < n
            invariant
                layer <= n,
                self.wf(),
                self@.size == n,
                st0.size == n,
                state_wf(st0),
                self@.top == st0.top,
                self@.bottom == st0.bottom,
                forall|r: int| 0 <= r < n ==> #[trigger] self@.front[r] == (if r < layer {
                    st0.right[r]
                } else {
                    st0.front[r]
                }),
                forall|r: int| 0 <= r < n ==> #[trigger] self@.right[r] == (if r < layer {
                    st0.back[r]
                } else {
                    st0.right[r]
                }),
                forall|r: int| 0 <= r < n ==> #[trigger] self@.back[r] == (if r < layer {
                    st0.left[r]
                } else {
                    st0.back[r]
                }),
                forall|r: int| 0 <= r < n ==> #[trigger] self@.left[r] == (if r < layer {
                    st0.front[r]
                } else {
                    st0.left[r]
                }),
            decreases n - layer,
        {
            self.slice_e_prime(layer);
            layer += 1;
        }
        proof {
            assert(self@.front =~~= st0.right);
            assert(self@.right =~~= st0.back);
            assert(self@.back =~~= st0.left);
            assert(self@.left =~~= st0.front);
            assert(self@ =~~= crate::state::rotated_y(old(self)@));
        }
    }

    /// Exact inverse of the Y rotation.
    pub fn rotate_y_prime(&mut self)
        requires
            old(self).wf(),
        ensures
            final(self).wf(),
            final(self)@ == crate::state::rotated_y_prime(old(self)@),
    {
        self.aboutface(Face::Top, Direction::Counter);
        self.aboutface(Face::Bottom, Direction::Clock);
        let ghost st0 = self@;
        let n = self.size;
        let mut layer: usize = 0;
        while layer < n
            invariant
                layer <= n,
                self.wf(),
                self@.size == n,
                st0.size == n,
                state_wf(st0),
                self@.top == st0.top,
                self@.bottom == st0.bottom,
                forall|r: int| 0 <= r < n ==> #[trigger] self@.front[r] == (if r < layer {
                    st0.left[r]
                } else {
                    st0.front[r]
                }),
                forall|r: int| 0 <= r < n ==> #[trigger] self@.right[r] == (if r < layer {
                    st0.front[r]
                } else {
                    st0.right[r]
                }),
                forall|r: int| 0 <= r < n ==> #[trigger] self@.back[r] == (if r < layer {
                    st0.right[r]
                } else {
                    st0.back[r]
                }),
                forall|r: int| 0 <= r < n ==> #[trigger] self@.left[r] == (if r < layer {
                    st0.back[r]
                } else {
                    st0.left[r]
                }),
            decreases n - layer,
        {
            self.slice_e(layer);
            layer += 1;
        }
        proof {
            assert(self@.front =~~= st0.left);
            assert(self@.right =~~= st0.front);
            assert(self@.back =~~= st0.right);
            assert(self@.left =~~= st0.back);
            assert(self@ =~~= crate::state::rotated_y_prime(old(self)@));
        }
    }

    /// Z: reorient the whole cube as an F turn would carry it.
    pub fn rotate_z(&mut self)
        requires
            old(self).wf(),
        ensures
            final(self).wf(),
            final(self)@ == crate::state::rotated_z(old(self)@),
    {
        self.aboutface(Face::Front, Direction::Clock);
        self.aboutface(Face::Back, Direction::Counter);
        let ghost st0 = self@;
        let n = self.size;
        let mut layer: usize = 0;
        while layer < n
            invariant
                layer <= n,
                self.wf(),
                self@.size == n,
                st0.size == n,
                state_wf(st0),
                self@.front == st0.front,
                self@.back == st0.back,
                forall|r: int, j: int| 0 <= r < n && 0 <= j < n ==> #[trigger] self@.top[r][j]
                    == (if r >= n - layer { st0.left[n - 1 - j][r] } else { st0.top[r][j] }),
                forall|r: int, j: int| 0 <= r < n && 0 <= j < n ==> #[trigger] self@.right[r][j]
                    == (if j < layer { st0.top[n - 1 - j][r] } else { st0.right[r][j] }),
                forall|r: int, j: int| 0 <= r < n && 0 <= j < n ==> #[trigger] self@.bottom[r][j]
                    == (if r < layer { st0.right[n - 1 - j][r] } else { st0.bottom[r][j] }),
                forall|r: int, j: int| 0 <= r < n && 0 <= j < n ==> #[trigger] self@.left[r][j]
                    == (if j >= n - layer { st0.bottom[n - 1 - j][r] } else { st0.left[r][j] }),
            decreases n - layer,
        {
            let ghost prev = self@;
            self.slice_s(layer);
            proof {
                let c = layer as int;
                assert forall|r: int, j: int| 0 <= r < n && 0 <= j < n implies #[trigger] self@
                    .top[r][j] == (if r >= n - (c + 1) {
                    st0.left[n - 1 - j][r]
                } else {
                    st0.top[r][j]
                }) by {
                    assert(self@.top == prev.top.update(
                        n - 1 - c,
                        rev(col_of(prev.left, n - 1 - c, n as nat)),
                    ));
                }
                assert forall|r: int, j: int| 0 <= r < n && 0 <= j < n implies #[trigger] self@
                    .right[r][j] == (if j < c + 1 {
                    st0.top[n - 1 - j][r]
                } else {
                    st0.right[r][j]
                }) by {
                    assert(self@.right[r] == prev.right[r].update(c, prev.top[n - 1 - c][r]));
                }
                assert forall|r: int, j: int| 0 <= r < n && 0 <= j < n implies #[trigger] self@
                    .bottom[r][j] == (if r < c + 1 {
                    st0.right[n - 1 - j][r]
                } else {
                    st0.bottom[r][j]
                }) by {
                    assert(self@.bottom == prev.bottom.update(
                        c,
                        rev(col_of(prev.right, c, n as nat)),
                    ));
                }
                assert forall|r: int, j: int| 0 <= r < n && 0 <= j < n implies #[trigger] self@
                    .left[r][j] == (if j >= n - (c + 1) {
                    st0.bottom[n - 1 - j][r]
                } else {
                    st0.left[r][j]
                }) by {
                    assert(self@.left[r] == prev.left[r].update(n - 1 - c, prev.bottom[c][r]));
                }
            }
            layer += 1;
        }
        proof {
            assert(self@.top =~~= rot_cw(st0.left, n as nat));
            assert(self@.right =~~= rot_cw(st0.top, n as nat));
            assert(self@.bottom =~~= rot_cw(st0.right, n as nat));
            assert(self@.left =~~= rot_cw(st0.bottom, n as nat));
            assert(self@ =~~= crate::state::rotated_z(old(self)@));
        }
    }

    /// Exact inverse of the Z rotation.
    pub fn rotate_z_prime(&mut self)
        requires
            old(self).wf(),
        ensures
            final(self).wf(),
            final(self)@ == crate::state::rotated_z_prime(old(self)@),
    {
        self.aboutface(Face::Front, Direction::Counter);
        self.aboutface(Face::Back, Direction::Clock);
        let ghost st0 = self@;
        let n = self.size;
        let mut layer: usize = 0;
        while layer < n
            invariant
                layer <= n,
                self.wf(),
                self@.size == n,
                st0.size == n,
                state_wf(st0),
                self@.front == st0.front,
                self@.back == st0.back,
                forall|r: int, j: int| 0 <= r < n && 0 <= j < n ==> #[trigger] self@.top[r][j]
                    == (if r >= n - layer { st0.right[j][n - 1 - r] } else { st0.top[r][j] }),
                forall|r: int, j: int| 0 <= r < n && 0 <= j < n ==> #[trigger] self@.right[r][j]
                    == (if j < layer { st0.bottom[j][n - 1 - r] } else { st0.right[r][j] }),
                forall|r: int, j: int| 0 <= r < n && 0 <= j < n ==> #[trigger] self@.bottom[r][j]
                    == (if r < layer { st0.left[j][n - 1 - r] } else { st0.bottom[r][j] }),
                forall|r: int, j: int| 0 <= r < n && 0 <= j < n ==> #[trigger] self@.left[r][j]
                    == (if j >= n - layer { st0.top[j][n - 1 - r] } else { st0.left[r][j] }),
            decreases n - layer,
        {
            let ghost prev = self@;
            self.slice_s_prime(layer);
            proof {
                let c = layer as int;
                assert forall|r: int, j: int| 0 <= r < n && 0 <= j < n implies #[trigger] self@
                    .top[r][j] == (if r >= n - (c + 1) {
                    st0.right[j][n - 1 - r]
                } else {
                    st0.top[r][j]
                }) by {
                    assert(self@.top == prev.top.update(
                        n - 1 - c,
                        col_of(prev.right, c, n as nat),
                    ));
                }
                assert forall|r: int, j: int| 0 <= r < n && 0 <= j < n implies #[trigger] self@
                    .right[r][j] == (if j < c + 1 {
                    st0.bottom[j][n - 1 - r]
                } else {
                    st0.right[r][j]
                }) by {
                    assert(self@.right[r] == prev.right[r].update(c, rev(prev.bottom[c])[r]));
                }
                assert forall|r: int, j: int| 0 <= r < n && 0 <= j < n implies #[trigger] self@
                    .bottom[r][j] == (if r < c + 1 {
                    st0.left[j][n - 1 - r]
                } else {
                    st0.bottom[r][j]
                }) by {
                    assert(self@.bottom == prev.bottom.update(
                        c,
                        col_of(prev.left, n - 1 - c, n as nat),
                    ));
                }
                assert forall|r: int, j: int| 0 <= r < n && 0 <= j < n implies #[trigger] self@
                    .left[r][j] == (if j >= n - (c + 1) {
                    st0.top[j][n - 1 - r]
                } else {
                    st0.left[r][j]
                }) by {
                    assert(self@.left[r] == prev.left[r].update(
                        n - 1 - c,
                        rev(prev.top[n - 1 - c])[r],
                    ));
                }
            }
            layer += 1;
        }
        proof {
            assert(self@.top =~~= rot_ccw(st0.right, n as nat));
            assert(self@.right =~~= rot_ccw(st0.bottom, n as nat));
            assert(self@.bottom =~~= rot_ccw(st0.left, n as nat));
            assert(self@.left =~~= rot_ccw(st0.top, n as nat));
            assert(self@ =~~= crate::state::rotated_z_prime(old(self)@));
        }
    }

    /// True exactly when every tile of one face shows color `c`.
    fn face_solid(&self, face: Face, c: Color) -> (r: bool)
        requires
            self.wf(),
        ensures
            r == grid_solid(face_of(self@, face), c, self@.size),
    {
        let g = self.face_ref(face);
        let n = self.size;
        let mut i: usize = 0;
        while i < n
            invariant
                i <= n,
                n == self@.size,
                g@ == self.face_rows(face),
                rows_view(g@) == face_of(self@, face),
                grid_wf(face_of(self@, face), n as nat),
                forall|r: int, k: int| 0 <= r < i && 0 <= k < n ==> #[trigger] face_of(
                    self@,
                    face,
                )[r][k] == c,
            decreases n - i,
        {
            let mut j: usize = 0;
            while j < n
                invariant
                    j <= n,
                    i < n,
                    n == self@.size,
                    g@ == self.face_rows(face),
                    rows_view(g@) == face_of(self@, face),
                    grid_wf(face_of(self@, face), n as nat),
                    forall|k: int| 0 <= k < j ==> #[trigger] face_of(self@, face)[i as int][k] == c,
                decreases n - j,
            {
                assert(g@[i as int]@ == face_of(self@, face)[i as int]);
                if g[i][j] != c {
                    return false;
                }
                j += 1;
            }
            i += 1;
        }
        true
    }

    /// Apply one move: the single mutating entry point that dispatches
    /// all 24 actions to the primitives above.
    pub fn do_move(&mut self, action: &Move)
        requires
            old(self).wf(),
            move_in_bounds(*action, old(self)@.size),
        ensures
            final(self).wf(),
            final(self)@ == applied(old(self)@, *action),
    {
        match *action {
            Move::U => self.turn_u(),
            Move::Up => self.turn_u_prime(),
            Move::D => self.turn_d(),
            Move::Dp => self.turn_d_prime(),
            Move::R => self.turn_r(),
            Move::Rp => self.turn_r_prime(),
            Move::L => self.turn_l(),
            Move::Lp => self.turn_l_prime(),
            Move::F => self.turn_f(),
            Move::Fp => self.turn_f_prime(),
            Move::B => self.turn_b(),
            Move::Bp => self.turn_b_prime(),
            Move::X => self.rotate_x(),
            Move::Xp => self.rotate_x_prime(),
            Move::Y => self.rotate_y(),
            Move::Yp => self.rotate_y_prime(),
            Move::Z => self.rotate_z(),
            Move::Zp => self.rotate_z_prime(),
            Move::M(layer) => self.slice_m(layer),
            Move::Mp(layer) => self.slice_m_prime(layer),
            Move::E(layer) => self.slice_e(layer),
            Move::Ep(layer) => self.slice_e_prime(layer),
            Move::S(layer) => self.slice_s(layer),
            Move::Sp(layer) => self.slice_s_prime(layer),
        }
    }

    /// True exactly when the cube is solved: every tile of every face
    /// shows that face's home color.
    pub fn check(&self) -> (r: bool)
        requires
            self.wf(),
        ensures
            r == is_solved(self@),
    {
        self.face_solid(Face::Front, Color::White) && self.face_solid(Face::Top, Color::Green)
            && self.face_solid(Face::Right, Color::Orange) && self.face_solid(
            Face::Left,
            Color::Red,
        ) && self.face_solid(Face::Bottom, Color::Blue) && self.face_solid(
            Face::Back,
            Color::Yellow,
        )
    }
}

/// A copy of the strip read back to front.
fn reversed(v: &Vec<Color>) -> (r: Vec<Color>)
    ensures
        r@ == rev(v@),
{
    let n = v.len();
    let mut r: Vec<Color> = Vec::new();
    let mut i: usize = 0;
    while i < n
        invariant
            i <= n,
            n == v@.len(),
            r@.len() == i,
            forall|k: int| 0 <= k < i ==> #[trigger] r@[k] == v@[n - 1 - k],
        decreases n - i,
    {
        r.push(v[n - 1 - i]);
        i += 1;
    }
    proof {
        assert(r@ =~= rev(v@));
    }
    r
}

/// New row `i` is the old column `i` read bottom to top.
fn rotated_face_cw(g: &Vec<Vec<Color>>, n: usize) -> (r: Vec<Vec<Color>>)
    requires
        grid_wf(rows_view(g@), n as nat),
    ensures
        rows_view(r@) == rot_cw(rows_view(g@), n as nat),
{
    let mut out: Vec<Vec<Color>> = Vec::new();
    let mut i: usize = 0;
    while i < n
        invariant
            i <= n,
            grid_wf(rows_view(g@), n as nat),
            out@.len() == i,
            forall|a: int| 0 <= a < i ==> (#[trigger] out@[a])@ == rot_cw(rows_view(g@), n as nat)[a],
        decreases n - i,
    {
        let mut row: Vec<Color> = Vec::new();
        let mut j: usize = 0;
        while j < n
            invariant
                j <= n,
                i < n,
                grid_wf(rows_view(g@), n as nat),
                row@.len() == j,
                forall|k: int| 0 <= k < j ==> #[trigger] row@[k] == rows_view(g@)[n - 1 - k][i as int],
            decreases n - j,
        {
            assert(g@[n - 1 - j]@ == rows_view(g@)[n - 1 - j as int]);
            row.push(g[n - 1 - j][i]);
            j += 1;
        }
        proof {
            assert(row@ =~= rot_cw(rows_view(g@), n as nat)[i as int]);
        }
        out.push(row);
        i += 1;
    }
    proof {
        assert(rows_view(out@) =~~= rot_cw(rows_view(g@), n as nat));
    }
    out
}

/// New row `i` (counting from the end) is the old column `i` (counting
/// from the end) read top to bottom.
fn rotated_face_ccw(g: &Vec<Vec<Color>>, n: usize) -> (r: Vec<Vec<Color>>)
    requires
        grid_wf(rows_view(g@), n as nat),
    ensures
        rows_view(r@) == rot_ccw(rows_view(g@), n as nat),
{
    let mut out: Vec<Vec<Color>> = Vec::new();
    let mut i: usize = 0;
    while i < n
        invariant
            i <= n,
            grid_wf(rows_view(g@), n as nat),
            out@.len() == i,
            forall|a: int| 0 <= a < i ==> (#[trigger] out@[a])@ == rot_ccw(rows_view(g@), n as nat)[a],
        decreases n - i,
    {
        let mut row: Vec<Color> = Vec::new();
        let mut j: usize = 0;
        while j < n
            invariant
                j <= n,
                i < n,
                grid_wf(rows_view(g@), n as nat),
                row@.len() == j,
                forall|k: int| 0 <= k < j ==> #[trigger] row@[k] == rows_view(g@)[k][n - 1 - i as int],
            decreases n - j,
        {
            assert(g@[j as int]@ == rows_view(g@)[j as int]);
            row.push(g[j][n - 1 - i]);
            j += 1;
        }
        proof {
            assert(row@ =~= rot_ccw(rows_view(g@), n as nat)[i as int]);
        }
        out.push(row);
        i += 1;
    }
    proof {
        assert(rows_view(out@) =~~= rot_ccw(rows_view(g@), n as nat));
    }
    out
}

} // verus!
