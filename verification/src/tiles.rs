use vstd::multiset::Multiset;
use vstd::prelude::*;

use crate::color::Color;
use crate::grid::{col_of, flip, grid_wf, rev, rot_ccw, rot_cw, set_col, Grid};
use crate::moves::{applied, move_in_bounds, Move};
use crate::state::{face_turned, state_wf, CubeState};

verus! {

broadcast use vstd::seq_lib::group_to_multiset_ensures, vstd::multiset::group_multiset_axioms;

/// The multiset of all tiles on one face.
pub open spec fn grid_tiles(g: Grid) -> Multiset<Color>
    decreases g.len(),
{
    if g.len() == 0 {
        Multiset::empty()
    } else {
        g.first().to_multiset().add(grid_tiles(g.drop_first()))
    }
}

/// A strip read backwards holds the same tiles.
proof fn lemma_rev_multiset(v: Seq<Color>)
    ensures
        rev(v).to_multiset() == v.to_multiset(),
{
    assert(rev(v) =~= v.reverse());
    v.lemma_reverse_to_multiset();
    assert(rev(v).to_multiset() =~= v.to_multiset());
}

/// Overwriting one entry of a strip trades exactly the old tile for the
/// new one.
proof fn lemma_update_multiset(v: Seq<Color>, i: int, x: Color)
    requires
        0 <= i < v.len(),
    ensures
        v.update(i, x).to_multiset().insert(v[i]) == v.to_multiset().insert(x),
{
    let a = v.subrange(0, i);
    let b = v.subrange(i + 1, v.len() as int);
    assert(v =~= a + seq![v[i]] + b);
    assert(v.update(i, x) =~= a + seq![x] + b);
    vstd::seq_lib::lemma_multiset_commutative(a, seq![v[i]]);
    vstd::seq_lib::lemma_multiset_commutative(a + seq![v[i]], b);
    vstd::seq_lib::lemma_multiset_commutative(a, seq![x]);
    vstd::seq_lib::lemma_multiset_commutative(a + seq![x], b);
    assert(seq![v[i]] =~= Seq::<Color>::empty().push(v[i]));
    assert(seq![x] =~= Seq::<Color>::empty().push(x));
    assert(v.update(i, x).to_multiset().insert(v[i]) =~= v.to_multiset().insert(x));
}

/// Overwriting one row of a face trades the old row's tiles for the new
/// row's.
proof fn lemma_grid_tiles_update(g: Grid, r: int, v: Seq<Color>)
    requires
        0 <= r < g.len(),
    ensures
        grid_tiles(g.update(r, v)).add(g[r].to_multiset()) == grid_tiles(g).add(v.to_multiset()),
    decreases r,
{
    let gu = g.update(r, v);
    let t = grid_tiles(g.drop_first());
    assert(grid_tiles(gu) == gu.first().to_multiset().add(grid_tiles(gu.drop_first())));
    assert(grid_tiles(g) == g.first().to_multiset().add(t));
    if r == 0 {
        assert(gu.first() == v);
        assert(gu.drop_first() =~= g.drop_first());
        assert(grid_tiles(gu) == v.to_multiset().add(t));
        assert(v.to_multiset().add(t).add(g[0].to_multiset()) =~= g[0].to_multiset().add(t).add(
            v.to_multiset(),
        ));
    } else {
        let tu = grid_tiles(g.drop_first().update(r - 1, v));
        assert(gu.first() == g.first());
        assert(gu.drop_first() =~= g.drop_first().update(r - 1, v));
        assert(grid_tiles(gu) == g[0].to_multiset().add(tu));
        lemma_grid_tiles_update(g.drop_first(), r - 1, v);
        assert(g.drop_first()[r - 1] == g[r]);
        assert(tu.add(g[r].to_multiset()) == t.add(v.to_multiset()));
        assert(g[0].to_multiset().add(tu).add(g[r].to_multiset()) =~= g[0].to_multiset().add(
            tu.add(g[r].to_multiset()),
        ));
        assert(g[0].to_multiset().add(t.add(v.to_multiset())) =~= g[0].to_multiset().add(t).add(
            v.to_multiset(),
        ));
    }
}

/// Overwriting one column of a face trades the old column's tiles for
/// the written strip's. `h` is the number of rows; every row is at
/// least `c+1` wide.
proof fn lemma_set_col_tiles(g: Grid, c: int, v: Seq<Color>, h: nat)
    requires
        g.len() == h,
        v.len() == h,
        forall|r: int| 0 <= r < h ==> c < (#[trigger] g[r]).len(),
        0 <= c,
    ensures
        grid_tiles(set_col(g, c, v, h)).add(col_of(g, c, h).to_multiset()) == grid_tiles(g).add(
            v.to_multiset(),
        ),
    decreases h,
{
    if h == 0 {
        assert(col_of(g, c, h) =~= Seq::<Color>::empty());
        assert(set_col(g, c, v, h) =~= Seq::<Seq<Color>>::empty());
        assert(grid_tiles(set_col(g, c, v, h)).add(col_of(g, c, h).to_multiset()) =~= grid_tiles(
            g,
        ).add(v.to_multiset()));
    } else {
        let gd = g.drop_first();
        let vd = v.drop_first();
        let sc = set_col(g, c, v, h);
        let hd = (h - 1) as nat;

        assert(grid_tiles(sc) == sc.first().to_multiset().add(grid_tiles(sc.drop_first())));
        assert(grid_tiles(g) == g.first().to_multiset().add(grid_tiles(gd)));
        assert(sc.first() == g[0].update(c, v[0]));
        assert(sc.drop_first() =~= set_col(gd, c, vd, hd));

        // Peel the top entry off the written strip and the old column.
        assert(col_of(g, c, h) =~= seq![g[0][c]] + col_of(gd, c, hd));
        vstd::seq_lib::lemma_multiset_commutative(seq![g[0][c]], col_of(gd, c, hd));
        assert(seq![g[0][c]] =~= Seq::<Color>::empty().push(g[0][c]));
        assert(col_of(g, c, h).to_multiset() == col_of(gd, c, hd).to_multiset().insert(g[0][c]));
        assert(v =~= seq![v[0]] + vd);
        vstd::seq_lib::lemma_multiset_commutative(seq![v[0]], vd);
        assert(seq![v[0]] =~= Seq::<Color>::empty().push(v[0]));
        assert(v.to_multiset() == vd.to_multiset().insert(v[0]));

        lemma_update_multiset(g[0], c, v[0]);
        lemma_set_col_tiles(gd, c, vd, hd);

        let a0 = g[0].update(c, v[0]).to_multiset();
        let tsc = grid_tiles(set_col(gd, c, vd, hd));
        let tg = grid_tiles(gd);
        let s1 = col_of(gd, c, hd).to_multiset();
        assert(grid_tiles(sc) == a0.add(tsc));
        assert(a0.add(tsc).add(s1.insert(g[0][c])) =~= a0.insert(g[0][c]).add(tsc.add(s1)));
        assert(a0.insert(g[0][c]).add(tsc.add(s1)) == g[0].to_multiset().insert(v[0]).add(
            tg.add(vd.to_multiset()),
        ));
        assert(g[0].to_multiset().insert(v[0]).add(tg.add(vd.to_multiset())) =~= g[0].to_multiset()
            .add(tg).add(vd.to_multiset().insert(v[0])));
        assert(grid_tiles(sc).add(col_of(g, c, h).to_multiset()) == grid_tiles(g).add(
            v.to_multiset(),
        ));
    }
}

/// The tiles of columns `0` to `k-1`, each column `h` tall.
spec fn cols_tiles_upto(g: Grid, h: nat, k: int) -> Multiset<Color>
    decreases k,
{
    if k <= 0 {
        Multiset::empty()
    } else {
        col_of(g, k - 1, h).to_multiset().add(cols_tiles_upto(g, h, k - 1))
    }
}

/// The tiles of columns `i0` to `w-1`, each column `h` tall.
spec fn cols_tiles_from(g: Grid, h: nat, i0: int, w: int) -> Multiset<Color>
    decreases w - i0,
{
    if i0 < 0 || i0 >= w {
        Multiset::empty()
    } else {
        col_of(g, i0, h).to_multiset().add(cols_tiles_from(g, h, i0 + 1, w))
    }
}

/// Summing columns upward or downward gives the same tiles.
proof fn lemma_cols_from_upto(g: Grid, h: nat, i0: int, w: int)
    requires
        0 <= i0 <= w,
    ensures
        cols_tiles_from(g, h, i0, w).add(cols_tiles_upto(g, h, i0)) == cols_tiles_upto(g, h, w),
    decreases w - i0,
{
    if i0 == w {
        assert(cols_tiles_from(g, h, i0, w).add(cols_tiles_upto(g, h, i0)) =~= cols_tiles_upto(
            g,
            h,
            w,
        ));
    } else {
        lemma_cols_from_upto(g, h, i0 + 1, w);
        assert(cols_tiles_upto(g, h, i0 + 1) =~= col_of(g, i0, h).to_multiset().add(
            cols_tiles_upto(g, h, i0),
        ));
        assert(cols_tiles_from(g, h, i0, w).add(cols_tiles_upto(g, h, i0)) =~= cols_tiles_upto(
            g,
            h,
            w,
        ));
    }
}

/// The tiles of the first `k` entries of every row.
spec fn rows_tiles_upto(g: Grid, k: int) -> Multiset<Color>
    decreases g.len(),
{
    if g.len() == 0 {
        Multiset::empty()
    } else {
        g.first().subrange(0, k).to_multiset().add(rows_tiles_upto(g.drop_first(), k))
    }
}

proof fn lemma_rows_tiles_zero(g: Grid)
    ensures
        rows_tiles_upto(g, 0) == Multiset::<Color>::empty(),
    decreases g.len(),
{
    if g.len() == 0 {
    } else {
        lemma_rows_tiles_zero(g.drop_first());
        assert(g.first().subrange(0, 0) =~= Seq::<Color>::empty());
        assert(rows_tiles_upto(g, 0) =~= Multiset::<Color>::empty());
    }
}

/// Widening every row by one column adds exactly that column's tiles.
proof fn lemma_rows_tiles_step(g: Grid, h: nat, k: int)
    requires
        g.len() == h,
        0 < k,
        forall|r: int| 0 <= r < h ==> k <= (#[trigger] g[r]).len(),
    ensures
        rows_tiles_upto(g, k) == rows_tiles_upto(g, k - 1).add(col_of(g, k - 1, h).to_multiset()),
    decreases h,
{
    if h == 0 {
        assert(col_of(g, k - 1, h) =~= Seq::<Color>::empty());
        assert(rows_tiles_upto(g, k) =~= rows_tiles_upto(g, k - 1).add(col_of(
            g,
            k - 1,
            h,
        ).to_multiset()));
    } else {
        let gd = g.drop_first();
        lemma_rows_tiles_step(gd, (h - 1) as nat, k);
        assert(g.first().subrange(0, k) =~= g.first().subrange(0, k - 1).push(g.first()[k - 1]));
        assert(col_of(g, k - 1, h) =~= seq![g[0][k - 1]] + col_of(gd, k - 1, (h - 1) as nat));
        vstd::seq_lib::lemma_multiset_commutative(
            seq![g[0][k - 1]],
            col_of(gd, k - 1, (h - 1) as nat),
        );
        assert(seq![g[0][k - 1]] =~= Seq::<Color>::empty().push(g[0][k - 1]));
        assert(rows_tiles_upto(g, k) =~= rows_tiles_upto(g, k - 1).add(col_of(
            g,
            k - 1,
            h,
        ).to_multiset()));
    }
}

proof fn lemma_rows_tiles_full(g: Grid, w: nat)
    requires
        forall|r: int| 0 <= r < g.len() ==> (#[trigger] g[r]).len() == w,
    ensures
        rows_tiles_upto(g, w as int) == grid_tiles(g),
    decreases g.len(),
{
    if g.len() == 0 {
    } else {
        lemma_rows_tiles_full(g.drop_first(), w);
        assert(g.first().subrange(0, w as int) =~= g.first());
        assert(rows_tiles_upto(g, w as int) =~= grid_tiles(g));
    }
}

/// Counting a face's tiles row by row or column by column agrees: the
/// whole face holds the same tiles either way.
proof fn lemma_grid_tiles_by_cols(g: Grid, h: nat, w: nat, k: int)
    requires
        g.len() == h,
        forall|r: int| 0 <= r < h ==> (#[trigger] g[r]).len() == w,
        0 <= k <= w,
    ensures
        rows_tiles_upto(g, k) == cols_tiles_upto(g, h, k),
    decreases k,
{
    if k == 0 {
        lemma_rows_tiles_zero(g);
    } else {
        lemma_grid_tiles_by_cols(g, h, w, k - 1);
        lemma_rows_tiles_step(g, h, k);
        assert(rows_tiles_upto(g, k) =~= cols_tiles_upto(g, h, k));
    }
}

/// A quarter turn of one face keeps exactly its tiles: each new row is
/// one old column, so the row-count of the turned face is the
/// column-count of the old one.
proof fn lemma_rot_tiles(g: Grid, n: nat)
    requires
        grid_wf(g, n),
    ensures
        grid_tiles(rot_cw(g, n)) == grid_tiles(g),
        grid_tiles(rot_ccw(g, n)) == grid_tiles(g),
{
    lemma_rot_cw_from(g, n, 0);
    assert(rot_cw(g, n).subrange(0, n as int) =~= rot_cw(g, n));
    lemma_cols_from_upto(g, n, 0, n as int);
    lemma_grid_tiles_by_cols(g, n, n, n as int);
    lemma_rows_tiles_full(g, n);
    assert(grid_tiles(rot_cw(g, n)) =~= grid_tiles(g));

    // The counter-clockwise turn is the inverse of the clockwise one, so
    // its tiles follow from the clockwise case applied to its result.
    crate::grid::lemma_rot_cw_ccw(g, n);
    crate::grid::lemma_rot_cw_wf(g, n);
    lemma_rot_cw_from(rot_ccw(g, n), n, 0);
    assert(rot_cw(rot_ccw(g, n), n).subrange(0, n as int) =~= rot_cw(rot_ccw(g, n), n));
    lemma_cols_from_upto(rot_ccw(g, n), n, 0, n as int);
    lemma_grid_tiles_by_cols(rot_ccw(g, n), n, n, n as int);
    lemma_rows_tiles_full(rot_ccw(g, n), n);
    assert(grid_tiles(rot_cw(rot_ccw(g, n), n)) =~= grid_tiles(rot_ccw(g, n)));
}

/// Rows `i0..` of the turned face hold the tiles of columns `i0..` of
/// the old face.
proof fn lemma_rot_cw_from(g: Grid, n: nat, i0: int)
    requires
        grid_wf(g, n),
        0 <= i0 <= n,
    ensures
        grid_tiles(rot_cw(g, n).subrange(i0, n as int)) == cols_tiles_from(g, n, i0, n as int),
    decreases n - i0,
{
    let rc = rot_cw(g, n);
    if i0 == n {
        assert(rc.subrange(i0, n as int) =~= Seq::<Seq<Color>>::empty());
    } else {
        lemma_rot_cw_from(g, n, i0 + 1);
        assert(rc.subrange(i0, n as int).first() == rc[i0]);
        assert(rc[i0] =~= rev(col_of(g, i0, n)));
        lemma_rev_multiset(col_of(g, i0, n));
        assert(rc.subrange(i0, n as int).drop_first() =~= rc.subrange(i0 + 1, n as int));
        assert(grid_tiles(rc.subrange(i0, n as int)) =~= cols_tiles_from(g, n, i0, n as int));
    }
}

/// A half turn of one face keeps its tiles: it is two quarter turns.
proof fn lemma_flip_tiles(g: Grid, n: nat)
    requires
        grid_wf(g, n),
    ensures
        grid_tiles(flip(g, n)) == grid_tiles(g),
{
    crate::grid::lemma_rot_cw_cw(g, n);
    crate::grid::lemma_rot_cw_wf(g, n);
    lemma_rot_tiles(g, n);
    lemma_rot_tiles(rot_cw(g, n), n);
}

/// The multiset of all tiles on the whole cube, every face together.
pub open spec fn state_tiles(s: CubeState) -> Multiset<Color> {
    grid_tiles(s.front).add(grid_tiles(s.top)).add(grid_tiles(s.right)).add(
        grid_tiles(s.left),
    ).add(grid_tiles(s.bottom)).add(grid_tiles(s.back))
}

/// Rotating one face in place keeps the cube's tiles.
proof fn lemma_face_turned_tiles(s: CubeState, f: crate::face::Face, clockwise: bool)
    requires
        state_wf(s),
    ensures
        state_tiles(face_turned(s, f, clockwise)) == state_tiles(s),
{
    lemma_rot_tiles(s.front, s.size);
    lemma_rot_tiles(s.top, s.size);
    lemma_rot_tiles(s.right, s.size);
    lemma_rot_tiles(s.left, s.size);
    lemma_rot_tiles(s.bottom, s.size);
    lemma_rot_tiles(s.back, s.size);
    assert(state_tiles(face_turned(s, f, clockwise)) =~= state_tiles(s));
}

/// An M slice keeps the cube's tiles: the four column strips move
/// between faces but none appears or disappears.
proof fn lemma_sliced_m_tiles(s: CubeState, l: int)
    requires
        state_wf(s),
        0 <= l < s.size,
    ensures
        state_tiles(crate::state::sliced_m(s, l)) == state_tiles(s),
        state_tiles(crate::state::sliced_m_prime(s, l)) == state_tiles(s),
{
    let n = s.size;
    let c2 = n - 1 - l;
    lemma_rev_multiset(col_of(s.bottom, l, n));
    lemma_rev_multiset(col_of(s.back, c2, n));
    lemma_rev_multiset(col_of(s.top, l, n));
    lemma_set_col_tiles(s.front, l, col_of(s.top, l, n), n);
    lemma_set_col_tiles(s.bottom, l, col_of(s.front, l, n), n);
    lemma_set_col_tiles(s.back, c2, rev(col_of(s.bottom, l, n)), n);
    lemma_set_col_tiles(s.top, l, rev(col_of(s.back, c2, n)), n);
    lemma_set_col_tiles(s.front, l, col_of(s.bottom, l, n), n);
    lemma_set_col_tiles(s.bottom, l, rev(col_of(s.back, c2, n)), n);
    lemma_set_col_tiles(s.back, c2, rev(col_of(s.top, l, n)), n);
    lemma_set_col_tiles(s.top, l, col_of(s.front, l, n), n);
    let t1 = crate::state::sliced_m(s, l);
    assert forall|x: Color| state_tiles(t1).count(x) == state_tiles(s).count(x) by {
        assert(grid_tiles(t1.front).add(col_of(s.front, l, n).to_multiset()).count(x)
            == grid_tiles(s.front).add(col_of(s.top, l, n).to_multiset()).count(x));
        assert(grid_tiles(t1.bottom).add(col_of(s.bottom, l, n).to_multiset()).count(x)
            == grid_tiles(s.bottom).add(col_of(s.front, l, n).to_multiset()).count(x));
        assert(grid_tiles(t1.back).add(col_of(s.back, c2, n).to_multiset()).count(x)
            == grid_tiles(s.back).add(rev(col_of(s.bottom, l, n)).to_multiset()).count(x));
        assert(grid_tiles(t1.top).add(col_of(s.top, l, n).to_multiset()).count(x)
            == grid_tiles(s.top).add(rev(col_of(s.back, c2, n)).to_multiset()).count(x));
    }
    assert(state_tiles(t1) =~= state_tiles(s));
    let t2 = crate::state::sliced_m_prime(s, l);
    assert forall|x: Color| state_tiles(t2).count(x) == state_tiles(s).count(x) by {
        assert(grid_tiles(t2.front).add(col_of(s.front, l, n).to_multiset()).count(x)
            == grid_tiles(s.front).add(col_of(s.bottom, l, n).to_multiset()).count(x));
        assert(grid_tiles(t2.bottom).add(col_of(s.bottom, l, n).to_multiset()).count(x)
            == grid_tiles(s.bottom).add(rev(col_of(s.back, c2, n)).to_multiset()).count(x));
        assert(grid_tiles(t2.back).add(col_of(s.back, c2, n).to_multiset()).count(x)
            == grid_tiles(s.back).add(rev(col_of(s.top, l, n)).to_multiset()).count(x));
        assert(grid_tiles(t2.top).add(col_of(s.top, l, n).to_multiset()).count(x)
            == grid_tiles(s.top).add(col_of(s.front, l, n).to_multiset()).count(x));
    }
    assert(state_tiles(t2) =~= state_tiles(s));
}

/// An E slice keeps the cube's tiles.
proof fn lemma_sliced_e_tiles(s: CubeState, l: int)
    requires
        state_wf(s),
        0 <= l < s.size,
    ensures
        state_tiles(crate::state::sliced_e(s, l)) == state_tiles(s),
        state_tiles(crate::state::sliced_e_prime(s, l)) == state_tiles(s),
{
    lemma_grid_tiles_update(s.front, l, s.left[l]);
    lemma_grid_tiles_update(s.right, l, s.front[l]);
    lemma_grid_tiles_update(s.back, l, s.right[l]);
    lemma_grid_tiles_update(s.left, l, s.back[l]);
    lemma_grid_tiles_update(s.front, l, s.right[l]);
    lemma_grid_tiles_update(s.right, l, s.back[l]);
    lemma_grid_tiles_update(s.back, l, s.left[l]);
    lemma_grid_tiles_update(s.left, l, s.front[l]);
    let t1 = crate::state::sliced_e(s, l);
    assert forall|x: Color| state_tiles(t1).count(x) == state_tiles(s).count(x) by {
        assert(grid_tiles(t1.front).add(s.front[l].to_multiset()).count(x) == grid_tiles(
            s.front,
        ).add(s.left[l].to_multiset()).count(x));
        assert(grid_tiles(t1.right).add(s.right[l].to_multiset()).count(x) == grid_tiles(
            s.right,
        ).add(s.front[l].to_multiset()).count(x));
        assert(grid_tiles(t1.back).add(s.back[l].to_multiset()).count(x) == grid_tiles(
            s.back,
        ).add(s.right[l].to_multiset()).count(x));
        assert(grid_tiles(t1.left).add(s.left[l].to_multiset()).count(x) == grid_tiles(
            s.left,
        ).add(s.back[l].to_multiset()).count(x));
    }
    assert(state_tiles(t1) =~= state_tiles(s));
    let t2 = crate::state::sliced_e_prime(s, l);
    assert forall|x: Color| state_tiles(t2).count(x) == state_tiles(s).count(x) by {
        assert(grid_tiles(t2.front).add(s.front[l].to_multiset()).count(x) == grid_tiles(
            s.front,
        ).add(s.right[l].to_multiset()).count(x));
        assert(grid_tiles(t2.right).add(s.right[l].to_multiset()).count(x) == grid_tiles(
            s.right,
        ).add(s.back[l].to_multiset()).count(x));
        assert(grid_tiles(t2.back).add(s.back[l].to_multiset()).count(x) == grid_tiles(
            s.back,
        ).add(s.left[l].to_multiset()).count(x));
        assert(grid_tiles(t2.left).add(s.left[l].to_multiset()).count(x) == grid_tiles(
            s.left,
        ).add(s.front[l].to_multiset()).count(x));
    }
    assert(state_tiles(t2) =~= state_tiles(s));
}

/// An S slice keeps the cube's tiles.
proof fn lemma_sliced_s_tiles(s: CubeState, l: int)
    requires
        state_wf(s),
        0 <= l < s.size,
    ensures
        state_tiles(crate::state::sliced_s(s, l)) == state_tiles(s),
        state_tiles(crate::state::sliced_s_prime(s, l)) == state_tiles(s),
{
    let n = s.size;
    let c2 = n - 1 - l;
    lemma_rev_multiset(col_of(s.left, c2, n));
    lemma_rev_multiset(col_of(s.right, l, n));
    lemma_rev_multiset(s.bottom[l]);
    lemma_rev_multiset(s.top[c2]);
    lemma_grid_tiles_update(s.top, c2, rev(col_of(s.left, c2, n)));
    lemma_set_col_tiles(s.right, l, s.top[c2], n);
    lemma_grid_tiles_update(s.bottom, l, rev(col_of(s.right, l, n)));
    lemma_set_col_tiles(s.left, c2, s.bottom[l], n);
    lemma_grid_tiles_update(s.top, c2, col_of(s.right, l, n));
    lemma_set_col_tiles(s.right, l, rev(s.bottom[l]), n);
    lemma_grid_tiles_update(s.bottom, l, col_of(s.left, c2, n));
    lemma_set_col_tiles(s.left, c2, rev(s.top[c2]), n);
    let t1 = crate::state::sliced_s(s, l);
    assert forall|x: Color| state_tiles(t1).count(x) == state_tiles(s).count(x) by {
        assert(grid_tiles(t1.top).add(s.top[c2].to_multiset()).count(x) == grid_tiles(s.top).add(
            rev(col_of(s.left, c2, n)).to_multiset(),
        ).count(x));
        assert(grid_tiles(t1.right).add(col_of(s.right, l, n).to_multiset()).count(x)
            == grid_tiles(s.right).add(s.top[c2].to_multiset()).count(x));
        assert(grid_tiles(t1.bottom).add(s.bottom[l].to_multiset()).count(x) == grid_tiles(
            s.bottom,
        ).add(rev(col_of(s.right, l, n)).to_multiset()).count(x));
        assert(grid_tiles(t1.left).add(col_of(s.left, c2, n).to_multiset()).count(x) == grid_tiles(
            s.left,
        ).add(s.bottom[l].to_multiset()).count(x));
    }
    assert(state_tiles(t1) =~= state_tiles(s));
    let t2 = crate::state::sliced_s_prime(s, l);
    assert forall|x: Color| state_tiles(t2).count(x) == state_tiles(s).count(x) by {
        assert(grid_tiles(t2.top).add(s.top[c2].to_multiset()).count(x) == grid_tiles(s.top).add(
            col_of(s.right, l, n).to_multiset(),
        ).count(x));
        assert(grid_tiles(t2.right).add(col_of(s.right, l, n).to_multiset()).count(x)
            == grid_tiles(s.right).add(rev(s.bottom[l]).to_multiset()).count(x));
        assert(grid_tiles(t2.bottom).add(s.bottom[l].to_multiset()).count(x) == grid_tiles(
            s.bottom,
        ).add(col_of(s.left, c2, n).to_multiset()).count(x));
        assert(grid_tiles(t2.left).add(col_of(s.left, c2, n).to_multiset()).count(x) == grid_tiles(
            s.left,
        ).add(rev(s.top[c2]).to_multiset()).count(x));
    }
    assert(state_tiles(t2) =~= state_tiles(s));
}

/// Every move keeps the multiset of the cube's tiles exactly: each of
/// the 24 actions only moves the existing tiles between faces and
/// strips — none is ever duplicated, lost or recolored.
pub proof fn lemma_applied_preserves_tiles(s: CubeState, m: Move)
    requires
        state_wf(s),
        s.size >= 1,
        move_in_bounds(m, s.size),
    ensures
        state_tiles(applied(s, m)) == state_tiles(s),
{
    let n = s.size;
    match m {
        Move::U => {
            lemma_face_turned_tiles(s, crate::face::Face::Top, true);
            lemma_face_turned_wf(s, crate::face::Face::Top, true);
            lemma_sliced_e_tiles(face_turned(s, crate::face::Face::Top, true), 0);
        },
        Move::Up => {
            lemma_face_turned_tiles(s, crate::face::Face::Top, false);
            lemma_face_turned_wf(s, crate::face::Face::Top, false);
            lemma_sliced_e_tiles(face_turned(s, crate::face::Face::Top, false), 0);
        },
        Move::D => {
            lemma_face_turned_tiles(s, crate::face::Face::Bottom, true);
            lemma_face_turned_wf(s, crate::face::Face::Bottom, true);
            lemma_sliced_e_tiles(face_turned(s, crate::face::Face::Bottom, true), n - 1);
        },
        Move::Dp => {
            lemma_face_turned_tiles(s, crate::face::Face::Bottom, false);
            lemma_face_turned_wf(s, crate::face::Face::Bottom, false);
            lemma_sliced_e_tiles(face_turned(s, crate::face::Face::Bottom, false), n - 1);
        },
        Move::R => {
            lemma_face_turned_tiles(s, crate::face::Face::Right, true);
            lemma_face_turned_wf(s, crate::face::Face::Right, true);
            lemma_sliced_m_tiles(face_turned(s, crate::face::Face::Right, true), n - 1);
        },
        Move::Rp => {
            lemma_face_turned_tiles(s, crate::face::Face::Right, false);
            lemma_face_turned_wf(s, crate::face::Face::Right, false);
            lemma_sliced_m_tiles(face_turned(s, crate::face::Face::Right, false), n - 1);
        },
        Move::L => {
            lemma_face_turned_tiles(s, crate::face::Face::Left, true);
            lemma_face_turned_wf(s, crate::face::Face::Left, true);
            lemma_sliced_m_tiles(face_turned(s, crate::face::Face::Left, true), 0);
        },
        Move::Lp => {
            lemma_face_turned_tiles(s, crate::face::Face::Left, false);
            lemma_face_turned_wf(s, crate::face::Face::Left, false);
            lemma_sliced_m_tiles(face_turned(s, crate::face::Face::Left, false), 0);
        },
        Move::F => {
            lemma_face_turned_tiles(s, crate::face::Face::Front, true);
            lemma_face_turned_wf(s, crate::face::Face::Front, true);
            lemma_sliced_s_tiles(face_turned(s, crate::face::Face::Front, true), 0);
        },
        Move::Fp => {
            lemma_face_turned_tiles(s, crate::face::Face::Front, false);
            lemma_face_turned_wf(s, crate::face::Face::Front, false);
            lemma_sliced_s_tiles(face_turned(s, crate::face::Face::Front, false), 0);
        },
        Move::B => {
            lemma_face_turned_tiles(s, crate::face::Face::Back, true);
            lemma_face_turned_wf(s, crate::face::Face::Back, true);
            lemma_sliced_s_tiles(face_turned(s, crate::face::Face::Back, true), n - 1);
        },
        Move::Bp => {
            lemma_face_turned_tiles(s, crate::face::Face::Back, false);
            lemma_face_turned_wf(s, crate::face::Face::Back, false);
            lemma_sliced_s_tiles(face_turned(s, crate::face::Face::Back, false), n - 1);
        },
        Move::X | Move::Xp | Move::Y | Move::Yp | Move::Z | Move::Zp => {
            lemma_rot_tiles(s.front, n);
            lemma_rot_tiles(s.top, n);
            lemma_rot_tiles(s.right, n);
            lemma_rot_tiles(s.left, n);
            lemma_rot_tiles(s.bottom, n);
            lemma_rot_tiles(s.back, n);
            lemma_flip_tiles(s.front, n);
            lemma_flip_tiles(s.top, n);
            lemma_flip_tiles(s.right, n);
            lemma_flip_tiles(s.left, n);
            lemma_flip_tiles(s.bottom, n);
            lemma_flip_tiles(s.back, n);
            assert(state_tiles(applied(s, m)) =~= state_tiles(s));
        },
        Move::M(l) | Move::Mp(l) => {
            lemma_sliced_m_tiles(s, l as int);
        },
        Move::E(l) | Move::Ep(l) => {
            lemma_sliced_e_tiles(s, l as int);
        },
        Move::S(l) | Move::Sp(l) => {
            lemma_sliced_s_tiles(s, l as int);
        },
    }
}

/// Rotating one face in place keeps every face a well-formed square.
proof fn lemma_face_turned_wf(s: CubeState, f: crate::face::Face, clockwise: bool)
    requires
        state_wf(s),
    ensures
        state_wf(face_turned(s, f, clockwise)),
{
    crate::grid::lemma_rot_cw_wf(s.front, s.size);
    crate::grid::lemma_rot_cw_wf(s.top, s.size);
    crate::grid::lemma_rot_cw_wf(s.right, s.size);
    crate::grid::lemma_rot_cw_wf(s.left, s.size);
    crate::grid::lemma_rot_cw_wf(s.bottom, s.size);
    crate::grid::lemma_rot_cw_wf(s.back, s.size);
}

} // verus!
