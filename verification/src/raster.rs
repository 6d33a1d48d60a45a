use vstd::prelude::*;

verus! {

/// The horizontal distance of a segment.
pub open spec fn span(a: int, b: int) -> int {
    if a <= b {
        b - a
    } else {
        a - b
    }
}

/// The direction of a step from `a` toward `b`.
pub open spec fn dir(a: int, b: int) -> int {
    if a < b {
        1
    } else {
        -1
    }
}

/// One step of Bresenham's algorithm on `(x, y, err)`: `dx >= 0` is the horizontal
/// distance, `dy <= 0` the negated vertical one, `sx` and `sy` the step directions.
pub open spec fn bres_step(s: (int, int, int), dx: int, dy: int, sx: int, sy: int) -> (
    int,
    int,
    int,
) {
    let (x, y, err) = s;
    let e2: int = 2 * err;
    let (err1, nx) = if e2 >= dy {
        (err + dy, x + sx)
    } else {
        (err, x)
    };
    let (err2, ny) = if e2 <= dx {
        (err1 + dx, y + sy)
    } else {
        (err1, y)
    };
    (nx, ny, err2)
}

/// The points visited from state `s` until `(x1, y1)` is reached, or `fuel` steps are made.
pub open spec fn bres_walk(
    s: (int, int, int),
    x1: int,
    y1: int,
    dx: int,
    dy: int,
    sx: int,
    sy: int,
    fuel: nat,
) -> Seq<(int, int)>
    decreases fuel,
{
    if (s.0 == x1 && s.1 == y1) || fuel == 0 {
        seq![(s.0, s.1)]
    } else {
        seq![(s.0, s.1)] + bres_walk(bres_step(s, dx, dy, sx, sy), x1, y1, dx, dy, sx, sy, (fuel
            - 1) as nat)
    }
}

/// The points of the segment from `(x0, y0)` to `(x1, y1)` in the order Bresenham's
/// algorithm visits them (it reaches the end within `|dx| + |dy|` steps).
pub open spec fn line_points(x0: int, y0: int, x1: int, y1: int) -> Seq<(int, int)> {
    let dx: int = span(x0, x1);
    let dy: int = -span(y0, y1);
    bres_walk((x0, y0, dx + dy), x1, y1, dx, dy, dir(x0, x1), dir(y0, y1), (dx - dy) as nat)
}

pub open spec fn in_image(p: (int, int), width: int, height: int) -> bool {
    0 <= p.0 < width && 0 <= p.1 < height
}

/// The points of `ps` that lie in a `width` x `height` image, in order, as pixel coordinates.
pub open spec fn visible(ps: Seq<(int, int)>, width: int, height: int) -> Seq<(u32, u32)>
    decreases ps.len(),
{
    if ps.len() == 0 {
        seq![]
    } else {
        let rest = visible(ps.drop_first(), width, height);
        if in_image(ps[0], width, height) {
            seq![(ps[0].0 as u32, ps[0].1 as u32)] + rest
        } else {
            rest
        }
    }
}

/// The state of the walk after `a` horizontal and `b` vertical moves.
pub open spec fn walk_state_ok(
    s: (int, int, int),
    x0: int,
    y0: int,
    x1: int,
    y1: int,
    a: int,
    b: int,
) -> bool {
    let dx: int = span(x0, x1);
    let ddy: int = span(y0, y1);
    &&& 0 <= a <= dx
    &&& 0 <= b <= ddy
    &&& s.0 == x0 + dir(x0, x1) * a
    &&& s.1 == y0 + dir(y0, y1) * b
    &&& s.2 == dx * (1 + b) - ddy * (1 + a)
    &&& -3 * ddy <= 2 * s.2 <= 3 * dx
}

proof fn lemma_dir_mul(d: int, a: int)
    requires
        d == 1 || d == -1,
    ensures
        d * (a + 1) == d * a + d,
        d * a == if d == 1 {
            a
        } else {
            -a
        },
{
    assert(d * (a + 1) == d * a + d) by (nonlinear_arith)
        requires
            d == 1 || d == -1,
    ;
    assert(d * a == if d == 1 {
        a
    } else {
        -a
    }) by (nonlinear_arith)
        requires
            d == 1 || d == -1,
    ;
}

/// One step keeps the walk inside the box of the segment, moves at least one coordinate
/// one unit toward the end, and keeps the error term in range.
proof fn lemma_step(s: (int, int, int), x0: int, y0: int, x1: int, y1: int, a: int, b: int)
    requires
        walk_state_ok(s, x0, y0, x1, y1, a, b),
        !(s.0 == x1 && s.1 == y1),
    ensures
        ({
            let n = bres_step(s, span(x0, x1), -span(y0, y1), dir(x0, x1), dir(y0, y1));
            let xs: int = if 2 * s.2 >= -span(y0, y1) {
                1
            } else {
                0
            };
            let ys: int = if 2 * s.2 <= span(x0, x1) {
                1
            } else {
                0
            };
            &&& xs + ys >= 1
            &&& walk_state_ok(n, x0, y0, x1, y1, a + xs, b + ys)
        }),
{
    let dx: int = span(x0, x1);
    let ddy: int = span(y0, y1);
    let sx: int = dir(x0, x1);
    let sy: int = dir(y0, y1);
    let err: int = s.2;
    lemma_dir_mul(sx, a);
    lemma_dir_mul(sy, b);
    // at the end exactly when both counts are exhausted
    assert(s.0 == x1 <==> a == dx);
    assert(s.1 == y1 <==> b == ddy);
    let xs: int = if 2 * err >= -ddy {
        1
    } else {
        0
    };
    let ys: int = if 2 * err <= dx {
        1
    } else {
        0
    };
    // no overshoot horizontally
    if a == dx {
        assert(b < ddy);
        assert(dx * (1 + b) <= dx * ddy) by (nonlinear_arith)
            requires
                b + 1 <= ddy,
                dx >= 0,
        ;
        assert(ddy * (1 + a) == ddy + ddy * dx) by (nonlinear_arith)
            requires
                a == dx,
        ;
        assert(dx * ddy == ddy * dx) by (nonlinear_arith);
        assert(xs == 0);
    }
    // no overshoot vertically
    if b == ddy {
        assert(a < dx);
        assert(ddy * (1 + a) <= ddy * dx) by (nonlinear_arith)
            requires
                a + 1 <= dx,
                ddy >= 0,
        ;
        assert(dx * (1 + b) == dx + dx * ddy) by (nonlinear_arith)
            requires
                b == ddy,
        ;
        assert(dx * ddy == ddy * dx) by (nonlinear_arith);
        assert(ys == 0);
    }
    assert(dx * (1 + (b + ys)) == dx * (1 + b) + dx * ys) by (nonlinear_arith);
    assert(ddy * (1 + (a + xs)) == ddy * (1 + a) + ddy * xs) by (nonlinear_arith);
    assert(dx * ys == if ys == 1 {
        dx
    } else {
        0
    }) by (nonlinear_arith)
        requires
            ys == 0 || ys == 1,
    ;
    assert(ddy * xs == if xs == 1 {
        ddy
    } else {
        0
    }) by (nonlinear_arith)
        requires
            xs == 0 || xs == 1,
    ;
    lemma_dir_mul(sx, a);
    lemma_dir_mul(sy, b);
}


pub open spec fn neighbours(p: (int, int), q: (int, int)) -> bool {
    -1 <= q.0 - p.0 <= 1 && -1 <= q.1 - p.1 <= 1
}

pub open spec fn in_box(p: (int, int), x0: int, y0: int, x1: int, y1: int) -> bool {
    &&& (x0 <= p.0 <= x1 || x1 <= p.0 <= x0)
    &&& (y0 <= p.1 <= y1 || y1 <= p.1 <= y0)
}

proof fn lemma_walk(
    s: (int, int, int),
    x0: int,
    y0: int,
    x1: int,
    y1: int,
    a: int,
    b: int,
    fuel: nat,
)
    requires
        walk_state_ok(s, x0, y0, x1, y1, a, b),
        fuel >= (span(x0, x1) - a) + (span(y0, y1) - b),
    ensures
        ({
            let w = bres_walk(
                s,
                x1,
                y1,
                span(x0, x1),
                -span(y0, y1),
                dir(x0, x1),
                dir(y0, y1),
                fuel,
            );
            &&& w.len() >= 1
            &&& w[0] == (s.0, s.1)
            &&& w.last() == (x1, y1)
            &&& forall|k: int| 0 <= k < w.len() ==> in_box(#[trigger] w[k], x0, y0, x1, y1)
            &&& forall|k: int| 0 <= k < w.len() - 1 ==> neighbours(#[trigger] w[k], w[k + 1])
        }),
    decreases fuel,
{
    let dx: int = span(x0, x1);
    let ddy: int = span(y0, y1);
    let sx: int = dir(x0, x1);
    let sy: int = dir(y0, y1);
    lemma_dir_mul(sx, a);
    lemma_dir_mul(sy, b);
    let w = bres_walk(s, x1, y1, dx, -ddy, sx, sy, fuel);
    if s.0 == x1 && s.1 == y1 {
    } else {
        assert(!(a == dx && b == ddy));
        assert(fuel > 0);
        lemma_step(s, x0, y0, x1, y1, a, b);
        let n = bres_step(s, dx, -ddy, sx, sy);
        let xs: int = if 2 * s.2 >= -ddy {
            1
        } else {
            0
        };
        let ys: int = if 2 * s.2 <= dx {
            1
        } else {
            0
        };
        lemma_walk(n, x0, y0, x1, y1, a + xs, b + ys, (fuel - 1) as nat);
        let rest = bres_walk(n, x1, y1, dx, -ddy, sx, sy, (fuel - 1) as nat);
        assert(w == seq![(s.0, s.1)] + rest);
        lemma_dir_mul(sx, a + xs);
        lemma_dir_mul(sy, b + ys);
        assert forall|k: int| 0 <= k < w.len() implies in_box(#[trigger] w[k], x0, y0, x1, y1) by {
            if k > 0 {
                assert(w[k] == rest[k - 1]);
            }
        }
        assert forall|k: int| 0 <= k < w.len() - 1 implies neighbours(#[trigger] w[k], w[k + 1]) by {
            if k > 0 {
                assert(w[k] == rest[k - 1]);
                assert(w[k + 1] == rest[k]);
            } else {
                assert(w[1] == rest[0]);
            }
        }
    }
}

/// Bresenham's line starts at its first end and finishes at its second.
pub proof fn law_line_endpoints(x0: int, y0: int, x1: int, y1: int)
    ensures
        line_points(x0, y0, x1, y1).len() >= 1,
        line_points(x0, y0, x1, y1)[0] == (x0, y0),
        line_points(x0, y0, x1, y1).last() == (x1, y1),
{
    lemma_walk_start(x0, y0, x1, y1);
}

/// Every point of Bresenham's line lies in the box spanned by its ends, and each point
/// touches the next (they differ by at most one in each coordinate).
pub proof fn law_line_is_connected_in_box(x0: int, y0: int, x1: int, y1: int)
    ensures
        forall|k: int|
            0 <= k < line_points(x0, y0, x1, y1).len() ==> in_box(
                #[trigger] line_points(x0, y0, x1, y1)[k],
                x0,
                y0,
                x1,
                y1,
            ),
        forall|k: int|
            0 <= k < line_points(x0, y0, x1, y1).len() - 1 ==> neighbours(
                #[trigger] line_points(x0, y0, x1, y1)[k],
                line_points(x0, y0, x1, y1)[k + 1],
            ),
{
    lemma_walk_start(x0, y0, x1, y1);
}

proof fn lemma_walk_start(x0: int, y0: int, x1: int, y1: int)
    ensures
        ({
            let w = line_points(x0, y0, x1, y1);
            &&& w.len() >= 1
            &&& w[0] == (x0, y0)
            &&& w.last() == (x1, y1)
            &&& forall|k: int| 0 <= k < w.len() ==> in_box(#[trigger] w[k], x0, y0, x1, y1)
            &&& forall|k: int| 0 <= k < w.len() - 1 ==> neighbours(#[trigger] w[k], w[k + 1])
        }),
{
    let dx: int = span(x0, x1);
    let ddy: int = span(y0, y1);
    let s = (x0, y0, dx - ddy);
    lemma_dir_mul(dir(x0, x1), 0);
    lemma_dir_mul(dir(y0, y1), 0);
    assert(dx * (1 + 0) == dx) by (nonlinear_arith);
    assert(ddy * (1 + 0) == ddy) by (nonlinear_arith);
    assert(walk_state_ok(s, x0, y0, x1, y1, 0, 0));
    lemma_walk(s, x0, y0, x1, y1, 0, 0, (dx + ddy) as nat);
}


/// How far the point `p` is from the ideal segment from `(x0, y0)` to `(x1, y1)` along
/// the segment's minor axis, in pixels: at most one half. With `a` and `b` the point's
/// distances from the start, and `dx` and `dy` the segment's, the ideal minor coordinate
/// at `a` is `a * dy / dx` (or at `b`, `b * dx / dy`).
pub open spec fn near_ideal(p: (int, int), x0: int, y0: int, x1: int, y1: int) -> bool {
    let dx: int = span(x0, x1);
    let dy: int = span(y0, y1);
    let a: int = span(x0, p.0);
    let b: int = span(y0, p.1);
    if dx >= dy {
        -dx <= 2 * (b * dx - a * dy) <= dx
    } else {
        -dy <= 2 * (a * dy - b * dx) <= dy
    }
}

/// The error term of a walk state keeps the walk within half a pixel of the ideal line.
spec fn err_near(err: int, dx: int, ddy: int) -> bool {
    if dx >= ddy {
        -dx <= 2 * (err - dx + ddy) <= dx
    } else {
        -ddy <= -2 * (err - dx + ddy) <= ddy
    }
}

proof fn lemma_walk_near(
    s: (int, int, int),
    x0: int,
    y0: int,
    x1: int,
    y1: int,
    a: int,
    b: int,
    fuel: nat,
)
    requires
        walk_state_ok(s, x0, y0, x1, y1, a, b),
        err_near(s.2, span(x0, x1), span(y0, y1)),
    ensures
        ({
            let w = bres_walk(
                s,
                x1,
                y1,
                span(x0, x1),
                -span(y0, y1),
                dir(x0, x1),
                dir(y0, y1),
                fuel,
            );
            forall|k: int| 0 <= k < w.len() ==> near_ideal(#[trigger] w[k], x0, y0, x1, y1)
        }),
    decreases fuel,
{
    let dx: int = span(x0, x1);
    let ddy: int = span(y0, y1);
    let sx: int = dir(x0, x1);
    let sy: int = dir(y0, y1);
    lemma_dir_mul(sx, a);
    lemma_dir_mul(sy, b);
    assert(span(x0, s.0) == a);
    assert(span(y0, s.1) == b);
    assert(dx * (1 + b) - ddy * (1 + a) == dx - ddy + (b * dx - a * ddy)) by (nonlinear_arith);
    assert(near_ideal((s.0, s.1), x0, y0, x1, y1));
    let w = bres_walk(s, x1, y1, dx, -ddy, sx, sy, fuel);
    if !(s.0 == x1 && s.1 == y1) && fuel > 0 {
        lemma_step(s, x0, y0, x1, y1, a, b);
        let n = bres_step(s, dx, -ddy, sx, sy);
        let xs: int = if 2 * s.2 >= -ddy {
            1
        } else {
            0
        };
        let ys: int = if 2 * s.2 <= dx {
            1
        } else {
            0
        };
        assert(err_near(n.2, dx, ddy));
        lemma_walk_near(n, x0, y0, x1, y1, a + xs, b + ys, (fuel - 1) as nat);
        let rest = bres_walk(n, x1, y1, dx, -ddy, sx, sy, (fuel - 1) as nat);
        assert(w == seq![(s.0, s.1)] + rest);
        assert forall|k: int| 0 <= k < w.len() implies near_ideal(#[trigger] w[k], x0, y0, x1, y1) by {
            if k > 0 {
                assert(w[k] == rest[k - 1]);
            }
        }
    }
}

/// Every point of Bresenham's line lies within half a pixel of the ideal segment, measured
/// along the segment's minor axis.
pub proof fn law_line_near_ideal(x0: int, y0: int, x1: int, y1: int)
    ensures
        forall|k: int|
            0 <= k < line_points(x0, y0, x1, y1).len() ==> near_ideal(
                #[trigger] line_points(x0, y0, x1, y1)[k],
                x0,
                y0,
                x1,
                y1,
            ),
{
    let dx: int = span(x0, x1);
    let ddy: int = span(y0, y1);
    let s = (x0, y0, dx - ddy);
    lemma_dir_mul(dir(x0, x1), 0);
    lemma_dir_mul(dir(y0, y1), 0);
    assert(dx * (1 + 0) == dx) by (nonlinear_arith);
    assert(ddy * (1 + 0) == ddy) by (nonlinear_arith);
    assert(walk_state_ok(s, x0, y0, x1, y1, 0, 0));
    lemma_walk_near(s, x0, y0, x1, y1, 0, 0, (dx + ddy) as nat);
}

proof fn lemma_kept_pixel_source(ps: Seq<(int, int)>, width: int, height: int, k: int) -> (i: int)
    requires
        0 <= k < visible(ps, width, height).len(),
    ensures
        0 <= i < ps.len(),
        0 <= ps[i].0 < width,
        0 <= ps[i].1 < height,
        visible(ps, width, height)[k] == (ps[i].0 as u32, ps[i].1 as u32),
    decreases ps.len(),
{
    let rest = ps.drop_first();
    let vr = visible(rest, width, height);
    let p0 = ps[0];
    if in_image(p0, width, height) {
        assert(visible(ps, width, height) == seq![(p0.0 as u32, p0.1 as u32)] + vr);
        if k == 0 {
            0
        } else {
            let j = lemma_kept_pixel_source(rest, width, height, k - 1);
            assert(rest[j] == ps[j + 1]);
            j + 1
        }
    } else {
        assert(visible(ps, width, height) == vr);
        let j = lemma_kept_pixel_source(rest, width, height, k);
        assert(rest[j] == ps[j + 1]);
        j + 1
    }
}

proof fn lemma_visible_len(ps: Seq<(int, int)>, width: int, height: int)
    ensures
        visible(ps, width, height).len() <= ps.len(),
    decreases ps.len(),
{
    if ps.len() > 0 {
        lemma_visible_len(ps.drop_first(), width, height);
    }
}

/// Every pixel kept by clipping to a `width` x `height` image lies in the image and is a
/// point of `ps`; no more pixels are kept than there are points.
pub proof fn law_clip_keeps_only_inside_points(ps: Seq<(int, int)>, width: int, height: int)
    requires
        width <= u32::MAX + 1,
        height <= u32::MAX + 1,
    ensures
        forall|k: int|
            0 <= k < visible(ps, width, height).len() ==> (#[trigger] visible(ps, width, height)[k]).0
                < width && visible(ps, width, height)[k].1 < height && ps.contains(
                (visible(ps, width, height)[k].0 as int, visible(ps, width, height)[k].1 as int),
            ),
        visible(ps, width, height).len() <= ps.len(),
{
    lemma_visible_len(ps, width, height);
    assert forall|k: int| 0 <= k < visible(ps, width, height).len() implies (#[trigger] visible(
        ps,
        width,
        height,
    )[k]).0 < width && visible(ps, width, height)[k].1 < height && ps.contains(
        (visible(ps, width, height)[k].0 as int, visible(ps, width, height)[k].1 as int),
    ) by {
        let i = lemma_kept_pixel_source(ps, width, height, k);
        let q = ps[i];
        assert((q.0 as u32) as int == q.0);
        assert((q.1 as u32) as int == q.1);
        assert(ps[i] == (visible(ps, width, height)[k].0 as int, visible(ps, width, height)[k].1 as int));
    }
}

/// Every point of `ps` with `0 <= x < width` and `0 <= y < height` is kept by clipping to
/// a `width` x `height` image.
pub proof fn law_clip_keeps_all_inside_points(ps: Seq<(int, int)>, width: int, height: int)
    ensures
        forall|i: int|
            0 <= i < ps.len() && 0 <= (#[trigger] ps[i]).0 < width && 0 <= ps[i].1 < height
                ==> exists|k: int|
                0 <= k < visible(ps, width, height).len() && visible(ps, width, height)[k] == (
                    ps[i].0 as u32,
                    ps[i].1 as u32,
                ),
    decreases ps.len(),
{
    if ps.len() > 0 {
        let rest = ps.drop_first();
        law_clip_keeps_all_inside_points(rest, width, height);
        let v = visible(ps, width, height);
        let vr = visible(rest, width, height);
        let p0 = ps[0];
        if in_image(p0, width, height) {
            assert(v == seq![(p0.0 as u32, p0.1 as u32)] + vr);
            assert forall|i: int|
                0 <= i < ps.len() && 0 <= (#[trigger] ps[i]).0 < width && 0 <= ps[i].1 < height
                    implies exists|k: int|
                0 <= k < v.len() && v[k] == (ps[i].0 as u32, ps[i].1 as u32) by {
                if i == 0 {
                    assert(v[0] == (ps[0].0 as u32, ps[0].1 as u32));
                } else {
                    assert(rest[i - 1] == ps[i]);
                    let k = choose|k: int|
                        0 <= k < vr.len() && vr[k] == (rest[i - 1].0 as u32, rest[i - 1].1 as u32);
                    assert(v[k + 1] == vr[k]);
                }
            }
        } else {
            assert(v == vr);
            assert forall|i: int|
                0 <= i < ps.len() && 0 <= (#[trigger] ps[i]).0 < width && 0 <= ps[i].1 < height
                    implies exists|k: int|
                0 <= k < v.len() && v[k] == (ps[i].0 as u32, ps[i].1 as u32) by {
                assert(i != 0);
                assert(rest[i - 1] == ps[i]);
            }
        }
    }
}

proof fn lemma_visible_prepend(p: (int, int), rest: Seq<(int, int)>, width: int, height: int)
    ensures
        visible(seq![p] + rest, width, height) == if in_image(p, width, height) {
            seq![(p.0 as u32, p.1 as u32)] + visible(rest, width, height)
        } else {
            visible(rest, width, height)
        },
{
    assert((seq![p] + rest).drop_first() =~= rest);
    assert((seq![p] + rest)[0] == p);
}

/// The pixels of a `width` x `height` image that Bresenham's line from `(x0, y0)` to
/// `(x1, y1)` covers, in drawing order. The distances and the error term are held in
/// `i64`, wide enough for any two ends.
pub fn line_pixels(x0: i32, y0: i32, x1: i32, y1: i32, width: i32, height: i32) -> (r: Vec<
    (u32, u32),
>)
    ensures
        r@ == visible(line_points(x0 as int, y0 as int, x1 as int, y1 as int), width as int, height as int),
{
    let dx: i64 = if x0 <= x1 {
        x1 as i64 - x0 as i64
    } else {
        x0 as i64 - x1 as i64
    };
    let dy: i64 = if y0 <= y1 {
        y0 as i64 - y1 as i64
    } else {
        y1 as i64 - y0 as i64
    };
    let sx: i32 = if x0 < x1 {
        1
    } else {
        -1
    };
    let sy: i32 = if y0 < y1 {
        1
    } else {
        -1
    };
    let mut err: i64 = dx + dy;
    let mut x: i32 = x0;
    let mut y: i32 = y0;
    let mut pixels: Vec<(u32, u32)> = Vec::new();
    let ghost gx0 = x0 as int;
    let ghost gy0 = y0 as int;
    let ghost gx1 = x1 as int;
    let ghost gy1 = y1 as int;
    let ghost mut a: int = 0;
    let ghost mut b: int = 0;
    let ghost mut fuel: nat = (dx - dy) as nat;
    proof {
        lemma_dir_mul(dir(gx0, gx1), 0);
        lemma_dir_mul(dir(gy0, gy1), 0);
        assert(dx * (1 + 0) == dx) by (nonlinear_arith);
        assert((-dy) * (1 + 0) == -dy) by (nonlinear_arith);
        assert(pixels@ + visible(line_points(gx0, gy0, gx1, gy1), width as int, height as int)
            =~= visible(line_points(gx0, gy0, gx1, gy1), width as int, height as int));
    }
    loop
        invariant_except_break
            walk_state_ok((x as int, y as int, err as int), gx0, gy0, gx1, gy1, a, b),
            fuel >= (span(gx0, gx1) - a) + (span(gy0, gy1) - b),
            visible(line_points(gx0, gy0, gx1, gy1), width as int, height as int) == pixels@
                + visible(
                bres_walk(
                    (x as int, y as int, err as int),
                    gx1,
                    gy1,
                    span(gx0, gx1),
                    -span(gy0, gy1),
                    dir(gx0, gx1),
                    dir(gy0, gy1),
                    fuel,
                ),
                width as int,
                height as int,
            ),
            gx0 == x0 as int,
            gy0 == y0 as int,
            gx1 == x1 as int,
            gy1 == y1 as int,
            dx == span(gx0, gx1),
            dy == -span(gy0, gy1),
            sx == dir(gx0, gx1),
            sy == dir(gy0, gy1),
        ensures
            pixels@ == visible(line_points(gx0, gy0, gx1, gy1), width as int, height as int),
        decreases (span(gx0, gx1) - a) + (span(gy0, gy1) - b),
    {
        let ghost st = (x as int, y as int, err as int);
        let ghost w = bres_walk(
            st,
            gx1,
            gy1,
            span(gx0, gx1),
            -span(gy0, gy1),
            dir(gx0, gx1),
            dir(gy0, gy1),
            fuel,
        );
        let ghost before = pixels@;
        let inside = x >= 0 && x < width && y >= 0 && y < height;
        if inside {
            pixels.push((x as u32, y as u32));
        }
        if x == x1 && y == y1 {
            proof {
                assert(w == seq![(st.0, st.1)]);
                lemma_visible_prepend((x as int, y as int), seq![], width as int, height as int);
                assert(visible(Seq::<(int, int)>::empty(), width as int, height as int) =~= seq![]);
                assert(pixels@ =~= before + visible(w, width as int, height as int));
            }
            break;
        }
        proof {
            lemma_step(st, gx0, gy0, gx1, gy1, a, b);
            let xs: int = if 2 * st.2 >= -span(gy0, gy1) {
                1
            } else {
                0
            };
            let ys: int = if 2 * st.2 <= span(gx0, gx1) {
                1
            } else {
                0
            };
            lemma_dir_mul(dir(gx0, gx1), a + xs);
            lemma_dir_mul(dir(gy0, gy1), b + ys);
            lemma_dir_mul(dir(gx0, gx1), a);
            lemma_dir_mul(dir(gy0, gy1), b);
        }
        let ghost xs: int = if 2 * err >= dy {
            1
        } else {
            0
        };
        let ghost ys: int = if 2 * err <= dx {
            1
        } else {
            0
        };
        let e2: i64 = 2 * err;
        if e2 >= dy {
            err += dy;
            x += sx;
        }
        if e2 <= dx {
            err += dx;
            y += sy;
        }
        proof {
            let rest = bres_walk(
                (x as int, y as int, err as int),
                gx1,
                gy1,
                span(gx0, gx1),
                -span(gy0, gy1),
                dir(gx0, gx1),
                dir(gy0, gy1),
                (fuel - 1) as nat,
            );
            assert((x as int, y as int, err as int) == bres_step(
                st,
                span(gx0, gx1),
                -span(gy0, gy1),
                dir(gx0, gx1),
                dir(gy0, gy1),
            ));
            assert(w == seq![(st.0, st.1)] + rest);
            lemma_visible_prepend((st.0, st.1), rest, width as int, height as int);
            let f = if in_image((st.0, st.1), width as int, height as int) {
                seq![(st.0 as u32, st.1 as u32)]
            } else {
                Seq::<(u32, u32)>::empty()
            };
            assert(pixels@ =~= before + f);
            assert(before + (f + visible(rest, width as int, height as int)) =~= (before + f)
                + visible(rest, width as int, height as int));
            a = a + xs;
            b = b + ys;
            fuel = (fuel - 1) as nat;
        }
    }
    pixels
}

} // verus!
