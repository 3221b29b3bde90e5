use vstd::prelude::*;

use crate::color::Color;

verus! {

/// Mathematical model of one face: an ordered grid of rows of tiles.
pub type Grid = Seq<Seq<Color>>;

/// The grid is a well-formed n×n square.
pub open spec fn grid_wf(g: Grid, n: nat) -> bool {
    g.len() == n && forall|r: int| 0 <= r < n ==> (#[trigger] g[r]).len() == n
}

/// Every tile of the grid shows color `c`.
pub open spec fn grid_solid(g: Grid, c: Color, n: nat) -> bool {
    forall|r: int, j: int| 0 <= r < n && 0 <= j < n ==> #[trigger] g[r][j] == c
}

/// The n×n grid with every tile showing color `c`.
pub open spec fn solid(c: Color, n: nat) -> Grid {
    Seq::new(n, |r: int| Seq::new(n, |j: int| c))
}

/// A strip (row or column) read back to front.
pub open spec fn rev(v: Seq<Color>) -> Seq<Color> {
    Seq::new(v.len(), |i: int| v[v.len() - 1 - i])
}

/// Column `c` of the grid, top to bottom.
pub open spec fn col_of(g: Grid, c: int, n: nat) -> Seq<Color> {
    Seq::new(n, |r: int| g[r][c])
}

/// The grid with column `c` overwritten by strip `v`.
pub open spec fn set_col(g: Grid, c: int, v: Seq<Color>, n: nat) -> Grid {
    Seq::new(n, |r: int| g[r].update(c, v[r]))
}

/// The grid with row `r` overwritten by strip `v`.
pub open spec fn set_row(g: Grid, r: int, v: Seq<Color>) -> Grid {
    g.update(r, v)
}

/// The grid rotated 90° clockwise: new row `i` is old column `i` read
/// bottom to top.
pub open spec fn rot_cw(g: Grid, n: nat) -> Grid {
    Seq::new(n, |i: int| Seq::new(n, |j: int| g[n - 1 - j][i]))
}

/// The grid rotated 90° counter-clockwise: new row `i` is old column
/// `n-1-i` read top to bottom.
pub open spec fn rot_ccw(g: Grid, n: nat) -> Grid {
    Seq::new(n, |i: int| Seq::new(n, |j: int| g[j][n - 1 - i]))
}

/// The grid rotated 180°: both axes mirrored.
pub open spec fn flip(g: Grid, n: nat) -> Grid {
    Seq::new(n, |i: int| Seq::new(n, |j: int| g[n - 1 - i][n - 1 - j]))
}

pub proof fn lemma_rev_rev(v: Seq<Color>)
    ensures
        rev(rev(v)) == v,
{
    assert(rev(rev(v)) =~= v);
}

pub proof fn lemma_rot_cw_wf(g: Grid, n: nat)
    ensures
        grid_wf(rot_cw(g, n), n),
        grid_wf(rot_ccw(g, n), n),
        grid_wf(flip(g, n), n),
{
}

/// A clockwise and a counter-clockwise quarter turn cancel, in either order.
pub proof fn lemma_rot_cw_ccw(g: Grid, n: nat)
    requires
        grid_wf(g, n),
    ensures
        rot_ccw(rot_cw(g, n), n) == g,
        rot_cw(rot_ccw(g, n), n) == g,
{
    assert(rot_ccw(rot_cw(g, n), n) =~~= g);
    assert(rot_cw(rot_ccw(g, n), n) =~~= g);
}

/// Two clockwise quarter turns make a half turn.
pub proof fn lemma_rot_cw_cw(g: Grid, n: nat)
    ensures
        rot_cw(rot_cw(g, n), n) == flip(g, n),
        rot_ccw(rot_ccw(g, n), n) == flip(g, n),
{
    assert(rot_cw(rot_cw(g, n), n) =~~= flip(g, n));
    assert(rot_ccw(rot_ccw(g, n), n) =~~= flip(g, n));
}

/// Two half turns cancel.
pub proof fn lemma_flip_flip(g: Grid, n: nat)
    requires
        grid_wf(g, n),
    ensures
        flip(flip(g, n), n) == g,
{
    assert(flip(flip(g, n), n) =~~= g);
}

/// Four clockwise quarter turns return the grid to its prior contents.
pub proof fn lemma_rot_cw_four(g: Grid, n: nat)
    requires
        grid_wf(g, n),
    ensures
        rot_cw(rot_cw(rot_cw(rot_cw(g, n), n), n), n) == g,
        rot_ccw(rot_ccw(rot_ccw(rot_ccw(g, n), n), n), n) == g,
{
    lemma_rot_cw_cw(g, n);
    lemma_rot_cw_cw(rot_cw(g, n), n);
    lemma_rot_cw_cw(rot_ccw(g, n), n);
    assert(rot_cw(rot_cw(rot_cw(rot_cw(g, n), n), n), n) =~~= g);
    assert(rot_ccw(rot_ccw(rot_ccw(rot_ccw(g, n), n), n), n) =~~= g);
}

/// Reading a column straight after writing it gives the written strip back.
pub proof fn lemma_col_of_set_col(g: Grid, c: int, v: Seq<Color>, n: nat)
    requires
        grid_wf(g, n),
        0 <= c < n,
        v.len() == n,
    ensures
        col_of(set_col(g, c, v, n), c, n) == v,
{
    assert(col_of(set_col(g, c, v, n), c, n) =~= v);
}

/// Writing the same column twice keeps only the second write.
pub proof fn lemma_set_col_set_col(g: Grid, c: int, v1: Seq<Color>, v2: Seq<Color>, n: nat)
    requires
        grid_wf(g, n),
        0 <= c < n,
        v1.len() == n,
        v2.len() == n,
    ensures
        set_col(set_col(g, c, v1, n), c, v2, n) == set_col(g, c, v2, n),
{
    assert(set_col(set_col(g, c, v1, n), c, v2, n) =~~= set_col(g, c, v2, n));
}

/// Writing a column back with its own contents changes nothing.
pub proof fn lemma_set_col_self(g: Grid, c: int, n: nat)
    requires
        grid_wf(g, n),
        0 <= c < n,
    ensures
        set_col(g, c, col_of(g, c, n), n) == g,
{
    assert(set_col(g, c, col_of(g, c, n), n) =~~= g);
}

pub proof fn lemma_set_col_wf(g: Grid, c: int, v: Seq<Color>, n: nat)
    requires
        grid_wf(g, n),
        0 <= c < n,
        v.len() == n,
    ensures
        grid_wf(set_col(g, c, v, n), n),
{
    assert forall|r: int| 0 <= r < n implies (#[trigger] set_col(g, c, v, n)[r]).len() == n by {
        assert(set_col(g, c, v, n)[r] == g[r].update(c, v[r]));
    }
}

pub proof fn lemma_set_row_wf(g: Grid, r: int, v: Seq<Color>, n: nat)
    requires
        grid_wf(g, n),
        0 <= r < n,
        v.len() == n,
    ensures
        grid_wf(set_row(g, r, v), n),
{
}

} // verus!
