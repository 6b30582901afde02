use vstd::prelude::*;

verus! {

/// The room map as a grid of z indices: `map_view(m)[x][y]` is the cell in
/// column `x` and row `y`.
pub open spec fn map_view(m: Seq<Vec<i32>>) -> Seq<Seq<i32>> {
    Seq::new(m.len(), |x: int| m[x]@)
}

/// Cell `(x, y)` exists in the grid and holds `z`.
pub open spec fn cell_is(g: Seq<Seq<i32>>, z: i32, x: int, y: int) -> bool {
    0 <= x < g.len() && 0 <= y < g[x].len() && g[x][y] == z
}

/// Some cell of the grid holds `z`.
pub open spec fn room_present(g: Seq<Seq<i32>>, z: i32) -> bool {
    exists|x: int, y: int| cell_is(g, z, x, y)
}

/// `(l, r, t, b)` is the bounding box of the cells holding `z`: the least and
/// greatest column, the least and greatest row among them.
pub open spec fn is_room_box(g: Seq<Seq<i32>>, z: i32, l: int, r: int, t: int, b: int) -> bool {
    &&& exists|y: int| cell_is(g, z, l, y)
    &&& exists|y: int| cell_is(g, z, r, y)
    &&& exists|x: int| cell_is(g, z, x, t)
    &&& exists|x: int| cell_is(g, z, x, b)
    &&& forall|x: int, y: int| #[trigger] cell_is(g, z, x, y) ==> l <= x <= r && t <= y <= b
}

/// What the bounds search reports: the bounding box of the cells holding `z`,
/// except that nothing is reported when there is no such cell, or when the
/// box's greatest column or greatest row is 0.
pub open spec fn room_bounds(g: Seq<Seq<i32>>, z: i32) -> Option<(usize, usize, usize, usize)> {
    if room_present(g, z) && (exists|x: int, y: int| cell_is(g, z, x, y) && x > 0) && (exists|
        x: int,
        y: int,
    | cell_is(g, z, x, y) && y > 0) {
        Some(
            choose|q: (usize, usize, usize, usize)|
                is_room_box(g, z, q.0 as int, q.1 as int, q.2 as int, q.3 as int),
        )
    } else {
        None
    }
}

/// The bounding box of a z index is unique.
pub proof fn lemma_room_box_unique(
    g: Seq<Seq<i32>>,
    z: i32,
    a: (int, int, int, int),
    b: (int, int, int, int),
)
    requires
        is_room_box(g, z, a.0, a.1, a.2, a.3),
        is_room_box(g, z, b.0, b.1, b.2, b.3),
    ensures
        a == b,
{
    let ya = choose|y: int| cell_is(g, z, a.0, y);
    let yb = choose|y: int| cell_is(g, z, b.0, y);
    assert(cell_is(g, z, a.0, ya));
    assert(cell_is(g, z, b.0, yb));
    let ya1 = choose|y: int| cell_is(g, z, a.1, y);
    let yb1 = choose|y: int| cell_is(g, z, b.1, y);
    assert(cell_is(g, z, a.1, ya1));
    assert(cell_is(g, z, b.1, yb1));
    let xa2 = choose|x: int| cell_is(g, z, x, a.2);
    let xb2 = choose|x: int| cell_is(g, z, x, b.2);
    assert(cell_is(g, z, xa2, a.2));
    assert(cell_is(g, z, xb2, b.2));
    let xa3 = choose|x: int| cell_is(g, z, x, a.3);
    let xb3 = choose|x: int| cell_is(g, z, x, b.3);
    assert(cell_is(g, z, xa3, a.3));
    assert(cell_is(g, z, xb3, b.3));
}

/// The grid after every cell of the rectangle of columns `x0 .. x0 + w` and
/// rows `y0 .. y0 + h` is set to `z`.
pub open spec fn fill_rect(g: Seq<Seq<i32>>, x0: int, y0: int, w: int, h: int, z: i32) -> Seq<Seq<i32>> {
    Seq::new(
        g.len(),
        |x: int|
            Seq::new(
                g[x].len(),
                |y: int| if x0 <= x < x0 + w && y0 <= y < y0 + h { z } else { g[x][y] },
            ),
    )
}

/// Every cell of the rectangle of columns `x0 .. x0 + w` and rows
/// `y0 .. y0 + h` exists in the grid.
pub open spec fn rect_fits(g: Seq<Seq<i32>>, x0: int, y0: int, w: int, h: int) -> bool {
    w == 0 || h == 0 || (x0 + w <= g.len() && forall|x: int| x0 <= x < x0 + w ==> y0 + h <= #[trigger] g[x].len())
}

/// Filling a rectangle writes `z` into every cell of it, border and
/// interior alike, and leaves every other cell and the grid's shape as they
/// were.
pub proof fn lemma_fill_rect_cells(g: Seq<Seq<i32>>, x0: int, y0: int, w: int, h: int, z: i32)
    ensures
        fill_rect(g, x0, y0, w, h, z).len() == g.len(),
        forall|x: int| 0 <= x < g.len() ==> (#[trigger] fill_rect(g, x0, y0, w, h, z)[x]).len() == g[x].len(),
        forall|x: int, y: int|
            0 <= x < g.len() && 0 <= y < g[x].len() && x0 <= x < x0 + w && y0 <= y < y0 + h
                ==> #[trigger] fill_rect(g, x0, y0, w, h, z)[x][y] == z,
        forall|x: int, y: int|
            0 <= x < g.len() && 0 <= y < g[x].len() && !(x0 <= x < x0 + w && y0 <= y < y0 + h)
                ==> #[trigger] fill_rect(g, x0, y0, w, h, z)[x][y] == g[x][y],
{
}

/// Sets every cell of the rectangle of columns `x0 .. x0 + w` and rows
/// `y0 .. y0 + h` of `room_map` to `z`.
pub(crate) fn fill_rect_in(room_map: &mut Vec<Vec<i32>>, z: i32, x0: usize, y0: usize, w: usize, h: usize)
    requires
        rect_fits(map_view(old(room_map)@), x0 as int, y0 as int, w as int, h as int),
    ensures
        map_view(final(room_map)@) == fill_rect(map_view(old(room_map)@), x0 as int, y0 as int, w as int, h as int, z),
{
    let ghost g0 = map_view(room_map@);
    if w == 0 || h == 0 {
        assert(map_view(room_map@) =~~= fill_rect(g0, x0 as int, y0 as int, w as int, h as int, z));
        return;
    }
    proof {
        // lengths of vectors fit in usize
        assert(room_map.len() == room_map@.len());
        assert(room_map@[x0 as int].len() == room_map@[x0 as int]@.len());
        assert(y0 + h <= g0[x0 as int].len());
    }
    let x_end = x0 + w;
    let y_end = y0 + h;
    let mut x = x0;
    while x < x_end
        invariant
            x0 <= x <= x_end,
            x_end == x0 + w,
            y_end == y0 + h,
            w > 0,
            h > 0,
            rect_fits(g0, x0 as int, y0 as int, w as int, h as int),
            room_map@.len() == g0.len(),
            forall|i: int| 0 <= i < g0.len() ==> (#[trigger] room_map@[i])@.len() == g0[i].len(),
            forall|i: int, j: int| 0 <= i < g0.len() && 0 <= j < g0[i].len() ==>
                (#[trigger] room_map@[i]@[j]) == if x0 <= i < x && y0 <= j < y_end { z } else { g0[i][j] },
        decreases x_end - x,
    {
        assert(y_end <= g0[x as int].len());
        let mut y = y0;
        while y < y_end
            invariant
                x0 <= x < x_end,
                y0 <= y <= y_end,
                x_end == x0 + w,
                y_end == y0 + h,
                y_end <= g0[x as int].len(),
                x_end <= g0.len(),
                room_map@.len() == g0.len(),
                forall|i: int| 0 <= i < g0.len() ==> (#[trigger] room_map@[i])@.len() == g0[i].len(),
                forall|i: int, j: int| 0 <= i < g0.len() && 0 <= j < g0[i].len() ==>
                    (#[trigger] room_map@[i]@[j]) == if (x0 <= i < x && y0 <= j < y_end) || (i == x && y0 <= j < y) { z } else { g0[i][j] },
            decreases y_end - y,
        {
            room_map[x][y] = z;
            y = y + 1;
        }
        x = x + 1;
    }
    assert(map_view(room_map@) =~~= fill_rect(g0, x0 as int, y0 as int, w as int, h as int, z));
}

/// Every column and row index of the grid fits in a `usize`, as it does for a
/// grid made of vectors.
pub open spec fn grid_fits_usize(g: Seq<Seq<i32>>) -> bool {
    &&& g.len() <= usize::MAX
    &&& forall|x: int| 0 <= x < g.len() ==> #[trigger] g[x].len() <= usize::MAX
}

/// `m` is the least point of `0 .. n` where `p` holds.
pub open spec fn is_least(p: spec_fn(int) -> bool, n: int, m: int) -> bool {
    0 <= m < n && p(m) && forall|i: int| 0 <= i < n && #[trigger] p(i) ==> m <= i
}

/// `m` is the greatest point of `0 .. n` where `p` holds.
pub open spec fn is_greatest(p: spec_fn(int) -> bool, n: int, m: int) -> bool {
    0 <= m < n && p(m) && forall|i: int| 0 <= i < n && #[trigger] p(i) ==> i <= m
}

/// A predicate that holds somewhere in `0 .. n` holds at a least and at a
/// greatest point there.
proof fn lemma_least_and_greatest(p: spec_fn(int) -> bool, n: int, w: int)
    requires
        0 <= w < n,
        p(w),
    ensures
        exists|m: int| is_least(p, n, m),
        exists|m: int| is_greatest(p, n, m),
    decreases n,
{
    let k = n - 1;
    if w < n - 1 {
        lemma_least_and_greatest(p, n - 1, w);
        let lo = choose|m: int| is_least(p, k, m);
        assert(is_least(p, n, lo));
        if p(n - 1) {
            assert(is_greatest(p, n, n - 1));
        } else {
            let hi = choose|m: int| is_greatest(p, k, m);
            assert(is_greatest(p, n, hi));
        }
    } else {
        assert(is_greatest(p, n, n - 1));
        if exists|i: int| 0 <= i < n - 1 && #[trigger] p(i) {
            let i = choose|i: int| 0 <= i < n - 1 && #[trigger] p(i);
            lemma_least_and_greatest(p, n - 1, i);
            let lo = choose|m: int| is_least(p, k, m);
            assert(is_least(p, n, lo));
        } else {
            assert(is_least(p, n, n - 1));
        }
    }
}

/// Whenever some cell holds `z`, the cells holding `z` have a bounding box.
pub proof fn lemma_room_box_exists(g: Seq<Seq<i32>>, z: i32)
    requires
        grid_fits_usize(g),
        room_present(g, z),
    ensures
        exists|q: (usize, usize, usize, usize)| is_room_box(g, z, q.0 as int, q.1 as int, q.2 as int, q.3 as int),
{
    let n = usize::MAX as int + 1;
    let pc = |x: int| exists|y: int| cell_is(g, z, x, y);
    let pr = |y: int| exists|x: int| cell_is(g, z, x, y);
    let (x0, y0) = choose|x: int, y: int| cell_is(g, z, x, y);
    assert(pc(x0) && 0 <= x0 < n);
    assert(pr(y0) && 0 <= y0 < n);
    lemma_least_and_greatest(pc, n, x0);
    lemma_least_and_greatest(pr, n, y0);
    let l = choose|m: int| is_least(pc, n, m);
    let r = choose|m: int| is_greatest(pc, n, m);
    let t = choose|m: int| is_least(pr, n, m);
    let b = choose|m: int| is_greatest(pr, n, m);
    assert forall|x: int, y: int| #[trigger] cell_is(g, z, x, y) implies l <= x <= r && t <= y <= b by {
        assert(pc(x));
        assert(pr(y));
    }
    let q = (l as usize, r as usize, t as usize, b as usize);
    assert(is_room_box(g, z, q.0 as int, q.1 as int, q.2 as int, q.3 as int));
}

/// The bounds reported for `z` depend only on which cells hold `z`.
pub proof fn lemma_room_bounds_same_cells(g1: Seq<Seq<i32>>, g2: Seq<Seq<i32>>, z: i32)
    requires
        grid_fits_usize(g1),
        forall|x: int, y: int| cell_is(g1, z, x, y) == cell_is(g2, z, x, y),
    ensures
        room_bounds(g1, z) == room_bounds(g2, z),
{
    assert(room_present(g1, z) == room_present(g2, z)) by {
        if room_present(g1, z) {
            let (x, y) = choose|x: int, y: int| cell_is(g1, z, x, y);
            assert(cell_is(g2, z, x, y));
        }
        if room_present(g2, z) {
            let (x, y) = choose|x: int, y: int| cell_is(g2, z, x, y);
            assert(cell_is(g1, z, x, y));
        }
    }
    let ex1 = exists|x: int, y: int| cell_is(g1, z, x, y) && x > 0;
    let ex2 = exists|x: int, y: int| cell_is(g2, z, x, y) && x > 0;
    assert(ex1 == ex2) by {
        if ex1 {
            let (x, y) = choose|x: int, y: int| cell_is(g1, z, x, y) && x > 0;
            assert(cell_is(g2, z, x, y) && x > 0);
        }
        if ex2 {
            let (x, y) = choose|x: int, y: int| cell_is(g2, z, x, y) && x > 0;
            assert(cell_is(g1, z, x, y) && x > 0);
        }
    }
    let ey1 = exists|x: int, y: int| cell_is(g1, z, x, y) && y > 0;
    let ey2 = exists|x: int, y: int| cell_is(g2, z, x, y) && y > 0;
    assert(ey1 == ey2) by {
        if ey1 {
            let (x, y) = choose|x: int, y: int| cell_is(g1, z, x, y) && y > 0;
            assert(cell_is(g2, z, x, y) && y > 0);
        }
        if ey2 {
            let (x, y) = choose|x: int, y: int| cell_is(g2, z, x, y) && y > 0;
            assert(cell_is(g1, z, x, y) && y > 0);
        }
    }
    assert forall|l: int, r: int, t: int, b: int| is_room_box(g1, z, l, r, t, b) == is_room_box(g2, z, l, r, t, b) by {
        if is_room_box(g1, z, l, r, t, b) {
            let y0 = choose|y: int| cell_is(g1, z, l, y);
            assert(cell_is(g2, z, l, y0));
            let y1 = choose|y: int| cell_is(g1, z, r, y);
            assert(cell_is(g2, z, r, y1));
            let x2 = choose|x: int| cell_is(g1, z, x, t);
            assert(cell_is(g2, z, x2, t));
            let x3 = choose|x: int| cell_is(g1, z, x, b);
            assert(cell_is(g2, z, x3, b));
        }
        if is_room_box(g2, z, l, r, t, b) {
            let y0 = choose|y: int| cell_is(g2, z, l, y);
            assert(cell_is(g1, z, l, y0));
            let y1 = choose|y: int| cell_is(g2, z, r, y);
            assert(cell_is(g1, z, r, y1));
            let x2 = choose|x: int| cell_is(g2, z, x, t);
            assert(cell_is(g1, z, x2, t));
            let x3 = choose|x: int| cell_is(g2, z, x, b);
            assert(cell_is(g1, z, x3, b));
        }
    }
    if room_bounds(g1, z) is Some {
        lemma_room_box_exists(g1, z);
        let c1 = choose|q: (usize, usize, usize, usize)|
            is_room_box(g1, z, q.0 as int, q.1 as int, q.2 as int, q.3 as int);
        assert(is_room_box(g2, z, c1.0 as int, c1.1 as int, c1.2 as int, c1.3 as int));
        let c2 = choose|q: (usize, usize, usize, usize)|
            is_room_box(g2, z, q.0 as int, q.1 as int, q.2 as int, q.3 as int);
        assert(is_room_box(g2, z, c2.0 as int, c2.1 as int, c2.2 as int, c2.3 as int));
        lemma_room_box_unique(
            g2,
            z,
            (c1.0 as int, c1.1 as int, c1.2 as int, c1.3 as int),
            (c2.0 as int, c2.1 as int, c2.2 as int, c2.3 as int),
        );
        assert(room_bounds(g1, z) == Some(c1));
        assert(room_bounds(g2, z) == Some(c2));
    }
}

/// A room placed on a map where its z index did not occur yet is reported
/// with exactly the bounds of the rectangle it was placed on (when its last
/// column and last row are not 0).
pub proof fn lemma_bounds_of_placed_room(g: Seq<Seq<i32>>, z: i32, x0: usize, y0: usize, w: usize, h: usize)
    requires
        !room_present(g, z),
        w >= 1,
        h >= 1,
        x0 + w <= usize::MAX,
        y0 + h <= usize::MAX,
        x0 + w - 1 > 0,
        y0 + h - 1 > 0,
        rect_fits(g, x0 as int, y0 as int, w as int, h as int),
    ensures
        room_bounds(fill_rect(g, x0 as int, y0 as int, w as int, h as int, z), z) == Some(
            (x0, (x0 + w - 1) as usize, y0, (y0 + h - 1) as usize),
        ),
{
    let g2 = fill_rect(g, x0 as int, y0 as int, w as int, h as int, z);
    let r = (x0 + w - 1) as usize;
    let b = (y0 + h - 1) as usize;
    assert forall|x: int, y: int| cell_is(g2, z, x, y) <==> (x0 <= x <= r && y0 <= y <= b) by {
        if cell_is(g2, z, x, y) {
            if !(x0 <= x <= r && y0 <= y <= b) {
                assert(cell_is(g, z, x, y));
            }
        }
        if x0 <= x <= r && y0 <= y <= b {
            assert(y0 + h <= g[x].len());
        }
    }
    assert(cell_is(g2, z, x0 as int, y0 as int));
    assert(cell_is(g2, z, r as int, b as int));
    assert(cell_is(g2, z, x0 as int, b as int));
    assert(cell_is(g2, z, r as int, y0 as int));
    let q = (x0, r, y0, b);
    assert(is_room_box(g2, z, q.0 as int, q.1 as int, q.2 as int, q.3 as int));
    let c = choose|q: (usize, usize, usize, usize)|
        is_room_box(g2, z, q.0 as int, q.1 as int, q.2 as int, q.3 as int);
    lemma_room_box_unique(
        g2,
        z,
        (q.0 as int, q.1 as int, q.2 as int, q.3 as int),
        (c.0 as int, c.1 as int, c.2 as int, c.3 as int),
    );
}

/// Scans the map for the cells holding `z_index` and returns their bounding
/// box `(left_x, right_x, top_y, bottom_y)`.
pub(crate) fn find_bounds_in(room_map: &Vec<Vec<i32>>, z_index: i32) -> (res: Option<(usize, usize, usize, usize)>)
    ensures
        res == room_bounds(map_view(room_map@), z_index),
        res matches Some(b) ==> is_room_box(map_view(room_map@), z_index, b.0 as int, b.1 as int, b.2 as int, b.3 as int),
{
    let ghost g = map_view(room_map@);
    let mut left_x: usize = usize::MAX;
    let mut right_x: usize = 0;
    let mut top_y: usize = usize::MAX;
    let mut bottom_y: usize = 0;
    // witnesses of the current extremes
    let ghost mut wl: int = 0;
    let ghost mut wr: int = 0;
    let ghost mut wt: int = 0;
    let ghost mut wb: int = 0;
    let ghost mut found: bool = false;

    let n = room_map.len();
    let mut x: usize = 0;
    while x < n
        invariant
            n == room_map@.len(),
            g == map_view(room_map@),
            0 <= x <= n,
            found <==> exists|i: int, j: int| 0 <= i < x && #[trigger] cell_is(g, z_index, i, j),
            !found ==> left_x == usize::MAX && top_y == usize::MAX && right_x == 0 && bottom_y == 0,
            found ==> cell_is(g, z_index, left_x as int, wl) && cell_is(g, z_index, right_x as int, wr)
                && cell_is(g, z_index, wt, top_y as int) && cell_is(g, z_index, wb, bottom_y as int)
                && wt < x && wb < x,
            forall|i: int, j: int| 0 <= i < x && #[trigger] cell_is(g, z_index, i, j) ==>
                left_x <= i <= right_x && top_y <= j <= bottom_y,
        decreases n - x,
    {
        let row = &room_map[x];
        let m = row.len();
        let mut y: usize = 0;
        while y < m
            invariant
                n == room_map@.len(),
                g == map_view(room_map@),
                0 <= x < n,
                row@ == room_map@[x as int]@,
                m == row@.len(),
                0 <= y <= m,
                found <==> exists|i: int, j: int|
                    (0 <= i < x || (i == x && 0 <= j < y)) && #[trigger] cell_is(g, z_index, i, j),
                !found ==> left_x == usize::MAX && top_y == usize::MAX && right_x == 0 && bottom_y == 0,
                found ==> cell_is(g, z_index, left_x as int, wl) && cell_is(g, z_index, right_x as int, wr)
                    && cell_is(g, z_index, wt, top_y as int) && cell_is(g, z_index, wb, bottom_y as int)
                    && wt <= x && wb <= x,
                forall|i: int, j: int|
                    (0 <= i < x || (i == x && 0 <= j < y)) && #[trigger] cell_is(g, z_index, i, j) ==>
                        left_x <= i <= right_x && top_y <= j <= bottom_y,
            decreases m - y,
        {
            if row[y] == z_index {
                assert(cell_is(g, z_index, x as int, y as int));
                if left_x == usize::MAX {
                    left_x = x;
                    right_x = x;
                    top_y = y;
                    bottom_y = y;
                    proof {
                        wl = y as int;
                        wr = y as int;
                        wt = x as int;
                        wb = x as int;
                        found = true;
                    }
                } else {
                    if x < left_x {
                        left_x = x;
                        proof { wl = y as int; }
                    }
                    if x > right_x {
                        right_x = x;
                        proof { wr = y as int; }
                    }
                    if y < top_y {
                        top_y = y;
                        proof { wt = x as int; }
                    }
                    if y > bottom_y {
                        bottom_y = y;
                        proof { wb = x as int; }
                    }
                }
            }
            y = y + 1;
        }
        x = x + 1;
    }
    proof {
        if found {
            assert(is_room_box(g, z_index, left_x as int, right_x as int, top_y as int, bottom_y as int));
        }
    }
    if left_x != usize::MAX && right_x > 0 && top_y != usize::MAX && bottom_y > 0 {
        proof {
            assert(found);
            assert(cell_is(g, z_index, left_x as int, wl));
            assert(cell_is(g, z_index, right_x as int, wr) && right_x > 0);
            assert(cell_is(g, z_index, wb, bottom_y as int) && bottom_y > 0);
            assert(room_present(g, z_index));
            let q = (left_x, right_x, top_y, bottom_y);
            assert(is_room_box(g, z_index, q.0 as int, q.1 as int, q.2 as int, q.3 as int));
            let c = choose|q: (usize, usize, usize, usize)|
                is_room_box(g, z_index, q.0 as int, q.1 as int, q.2 as int, q.3 as int);
            assert(is_room_box(g, z_index, c.0 as int, c.1 as int, c.2 as int, c.3 as int));
            lemma_room_box_unique(
                g,
                z_index,
                (q.0 as int, q.1 as int, q.2 as int, q.3 as int),
                (c.0 as int, c.1 as int, c.2 as int, c.3 as int),
            );
            assert(q == c);
        }
        Some((left_x, right_x, top_y, bottom_y))
    } else {
        proof {
            if found {
                assert(left_x < usize::MAX);
                let row_t = room_map@[wt];
                assert(row_t.len() == row_t@.len());
                assert(top_y < usize::MAX);
                assert(right_x == 0 || bottom_y == 0);
                if right_x == 0 {
                    assert forall|i: int, j: int| cell_is(g, z_index, i, j) implies i <= 0 by {
                        assert(0 <= i < n);
                    }
                } else {
                    assert forall|i: int, j: int| cell_is(g, z_index, i, j) implies j <= 0 by {
                        assert(0 <= i < n);
                    }
                }
            } else {
                assert forall|i: int, j: int| !cell_is(g, z_index, i, j) by {
                    if cell_is(g, z_index, i, j) {
                        assert(0 <= i < n);
                    }
                }
            }
        }
        None
    }
}

} // verus!
