use vstd::prelude::*;
use rand::Rng;
use crate::geometry::{COORD_LIMIT, Point, RATIO_LIMIT, Ratio, UNIT};

verus! {

/// Grid points along each axis of the jittered grid.
pub const GRID_SIDE: i64 = 100;

/// Points in the jittered grid: `GRID_SIDE * GRID_SIDE`.
pub const GRID_POINTS: usize = 10000;

/// Largest magnitude of a jitter offset that `jittered_grid` accepts.
pub const OFFSET_LIMIT: i64 = 2_000_000_000_000_000_000;

/// Why sites could not be generated.
#[derive(Clone, Copy, Debug, PartialEq, Eq, Structural)]
pub enum SiteError {
    /// The bounding square's side is zero or negative.
    InvalidBoxSize,
    /// A partition count is zero or negative.
    InvalidPartition,
}

#[verifier::external_type_specification]
#[verifier::external_body]
pub struct ExStdRng(rand::rngs::StdRng);

/// Relies on rand's `Rng::gen_range` over an inclusive range of `i64`: a value
/// drawn from `lo..=hi`. It panics on an empty range, which `requires` leaves out.
#[verifier::external_body]
fn draw_between(rng: &mut rand::rngs::StdRng, lo: i64, hi: i64) -> (r: i64)
    requires
        lo <= hi,
    ensures
        lo <= r <= hi,
{
    rng.gen_range(lo..=hi)
}

/// Distance between neighbouring grid points along one axis: the side divided
/// by the partition count, plus one drawing unit.
pub open spec fn grid_step(box_size: int, count: int) -> int {
    box_size / count + UNIT
}

/// The largest jitter along an axis: `step * |variance|`, rounded down.
pub open spec fn spread(step: int, variance: Ratio) -> int {
    step * (if variance.num < 0 { -variance.num } else { variance.num as int }) / (variance.den as int)
}

/// Unperturbed x coordinate of the `k`-th grid point; the grid runs row by
/// row, with indices from one to `GRID_SIDE` on each axis.
pub open spec fn grid_x(k: int, step: int) -> int {
    (k % GRID_SIDE as int + 1) * step
}

/// Unperturbed y coordinate of the `k`-th grid point.
pub open spec fn grid_y(k: int, step: int) -> int {
    (k / GRID_SIDE as int + 1) * step
}

/// The grid points for the given steps, the `k`-th moved by `offsets[k]`.
pub open spec fn jittered_sites(steps: (i64, i64), offsets: Seq<(i64, i64)>) -> Seq<Point> {
    Seq::new(
        GRID_POINTS as nat,
        |k: int|
            Point {
                x: (grid_x(k, steps.0 as int) + offsets[k].0) as i64,
                y: (grid_y(k, steps.1 as int) + offsets[k].1) as i64,
            },
    )
}

/// The grid index of column `i` and row `j`, both counted from one, names the
/// grid point `(i * step_x, j * step_y)`.
pub proof fn lemma_grid_index(i: int, j: int, step_x: int, step_y: int)
    requires
        1 <= i <= GRID_SIDE,
        1 <= j <= GRID_SIDE,
    ensures
        grid_x((j - 1) * GRID_SIDE + (i - 1), step_x) == i * step_x,
        grid_y((j - 1) * GRID_SIDE + (i - 1), step_y) == j * step_y,
{
    vstd::arithmetic::div_mod::lemma_fundamental_div_mod_converse(
        (j - 1) * GRID_SIDE + (i - 1),
        GRID_SIDE as int,
        j - 1,
        i - 1,
    );
}

/// The per-axis grid steps for a square of side `box_size` divided
/// `partition.0` by `partition.1` times.
pub fn grid_steps(box_size: i64, partition: (i64, i64)) -> (r: Result<(i64, i64), SiteError>)
    requires
        box_size <= COORD_LIMIT,
    ensures
        r == Err::<(i64, i64), SiteError>(SiteError::InvalidBoxSize) <==> box_size <= 0,
        r == Err::<(i64, i64), SiteError>(SiteError::InvalidPartition) <==> box_size > 0 && (
        partition.0 <= 0 || partition.1 <= 0),
        r matches Ok(s) ==> s.0 == grid_step(box_size as int, partition.0 as int) && s.1
            == grid_step(box_size as int, partition.1 as int) && 0 < s.0 <= COORD_LIMIT + UNIT
            && 0 < s.1 <= COORD_LIMIT + UNIT,
{
    if box_size <= 0 {
        return Err(SiteError::InvalidBoxSize);
    }
    if partition.0 <= 0 || partition.1 <= 0 {
        return Err(SiteError::InvalidPartition);
    }
    let b = box_size as u64;
    let sx = b / (partition.0 as u64);
    let sy = b / (partition.1 as u64);
    proof {
        vstd::arithmetic::div_mod::lemma_div_is_ordered_by_denominator(b as int, 1, partition.0 as int);
        vstd::arithmetic::div_mod::lemma_div_is_ordered_by_denominator(b as int, 1, partition.1 as int);
    }
    Ok((sx as i64 + UNIT, sy as i64 + UNIT))
}

/// Places the `GRID_POINTS` grid points for the given steps, the `k`-th moved
/// by `offsets[k]`.
pub fn jittered_grid(steps: (i64, i64), offsets: &Vec<(i64, i64)>) -> (r: Vec<Point>)
    requires
        0 < steps.0 <= COORD_LIMIT + UNIT,
        0 < steps.1 <= COORD_LIMIT + UNIT,
        offsets.len() == GRID_POINTS,
        forall|k: int|
            0 <= k < offsets.len() ==> -OFFSET_LIMIT <= (#[trigger] offsets[k]).0 <= OFFSET_LIMIT
                && -OFFSET_LIMIT <= offsets[k].1 <= OFFSET_LIMIT,
    ensures
        r.len() == GRID_POINTS,
        forall|k: int|
            0 <= k < r.len() ==> (#[trigger] r[k]).x == grid_x(k, steps.0 as int) + offsets[k].0
                && r[k].y == grid_y(k, steps.1 as int) + offsets[k].1,
        r@ == jittered_sites(steps, offsets@),
{
    let mut r: Vec<Point> = Vec::new();
    let mut j: i64 = 1;
    while j <= GRID_SIDE
        invariant
            1 <= j <= GRID_SIDE + 1,
            r.len() == (j - 1) * GRID_SIDE,
            0 < steps.0 <= COORD_LIMIT + UNIT,
            0 < steps.1 <= COORD_LIMIT + UNIT,
            offsets.len() == GRID_POINTS,
            forall|k: int|
                0 <= k < offsets.len() ==> -OFFSET_LIMIT <= (#[trigger] offsets[k]).0
                    <= OFFSET_LIMIT && -OFFSET_LIMIT <= offsets[k].1 <= OFFSET_LIMIT,
            forall|k: int|
                0 <= k < r.len() ==> (#[trigger] r[k]).x == grid_x(k, steps.0 as int)
                    + offsets[k].0 && r[k].y == grid_y(k, steps.1 as int) + offsets[k].1,
        decreases GRID_SIDE + 1 - j,
    {
        let mut i: i64 = 1;
        while i <= GRID_SIDE
            invariant
                1 <= j <= GRID_SIDE,
                1 <= i <= GRID_SIDE + 1,
                r.len() == (j - 1) * GRID_SIDE + i - 1,
                0 < steps.0 <= COORD_LIMIT + UNIT,
                0 < steps.1 <= COORD_LIMIT + UNIT,
                offsets.len() == GRID_POINTS,
                forall|k: int|
                    0 <= k < offsets.len() ==> -OFFSET_LIMIT <= (#[trigger] offsets[k]).0
                        <= OFFSET_LIMIT && -OFFSET_LIMIT <= offsets[k].1 <= OFFSET_LIMIT,
                forall|k: int|
                    0 <= k < r.len() ==> (#[trigger] r[k]).x == grid_x(k, steps.0 as int)
                        + offsets[k].0 && r[k].y == grid_y(k, steps.1 as int) + offsets[k].1,
            decreases GRID_SIDE + 1 - i,
        {
            let k = r.len();
            let off = offsets[k];
            proof {
                let kk = k as int;
                assert(kk == (j - 1) * 100 + (i - 1));
                vstd::arithmetic::div_mod::lemma_fundamental_div_mod_converse(
                    kk,
                    100,
                    j - 1,
                    i - 1,
                );
                assert(i * steps.0 <= 100 * (COORD_LIMIT + UNIT)) by (nonlinear_arith)
                    requires
                        1 <= i <= 100,
                        0 < steps.0 <= COORD_LIMIT + UNIT,
                ;
                assert(j * steps.1 <= 100 * (COORD_LIMIT + UNIT)) by (nonlinear_arith)
                    requires
                        1 <= j <= 100,
                        0 < steps.1 <= COORD_LIMIT + UNIT,
                ;
                assert(0 < i * steps.0) by (nonlinear_arith)
                    requires
                        1 <= i,
                        0 < steps.0,
                ;
                assert(0 < j * steps.1) by (nonlinear_arith)
                    requires
                        1 <= j,
                        0 < steps.1,
                ;
            }
            r.push(Point { x: i * steps.0 + off.0, y: j * steps.1 + off.1 });
            i = i + 1;
        }
        j = j + 1;
    }
    assert(r@ =~= jittered_sites(steps, offsets@));
    r
}

/// `spread(step, variance)`, computed.
fn jitter_spread(step: i64, variance: Ratio) -> (r: i64)
    requires
        0 < step <= COORD_LIMIT + UNIT,
        variance.wf(),
    ensures
        r == spread(step as int, variance),
        0 <= r <= OFFSET_LIMIT,
{
    let m: i64 = if variance.num < 0 {
        -variance.num
    } else {
        variance.num
    };
    assert(0 <= step * m <= (COORD_LIMIT + UNIT) * RATIO_LIMIT) by (nonlinear_arith)
        requires
            0 < step <= COORD_LIMIT + UNIT,
            0 <= m <= RATIO_LIMIT,
    ;
    let t = (step * m) as u64;
    let r = t / (variance.den as u64);
    proof {
        vstd::arithmetic::div_mod::lemma_div_is_ordered_by_denominator(
            t as int,
            1,
            variance.den as int,
        );
    }
    r as i64
}

/// Draws one jitter offset per grid point, each coordinate uniformly from
/// `-spread ..= spread` of its axis.
fn draw_offsets(steps: (i64, i64), variance: Ratio, rng: &mut rand::rngs::StdRng) -> (r: Vec<
    (i64, i64),
>)
    requires
        0 < steps.0 <= COORD_LIMIT + UNIT,
        0 < steps.1 <= COORD_LIMIT + UNIT,
        variance.wf(),
    ensures
        r.len() == GRID_POINTS,
        spread(steps.0 as int, variance) <= OFFSET_LIMIT,
        spread(steps.1 as int, variance) <= OFFSET_LIMIT,
        forall|k: int|
            0 <= k < r.len() ==> -spread(steps.0 as int, variance) <= (#[trigger] r[k]).0
                <= spread(steps.0 as int, variance) && -spread(steps.1 as int, variance)
                <= r[k].1 <= spread(steps.1 as int, variance),
{
    let mx = jitter_spread(steps.0, variance);
    let my = jitter_spread(steps.1, variance);
    let mut r: Vec<(i64, i64)> = Vec::new();
    while r.len() < GRID_POINTS
        invariant
            r.len() <= GRID_POINTS,
            mx == spread(steps.0 as int, variance),
            my == spread(steps.1 as int, variance),
            0 <= mx <= OFFSET_LIMIT,
            0 <= my <= OFFSET_LIMIT,
            forall|k: int|
                0 <= k < r.len() ==> -mx <= (#[trigger] r[k]).0 <= mx && -my <= r[k].1 <= my,
        decreases GRID_POINTS - r.len(),
    {
        let dx = draw_between(rng, -mx, mx);
        let dy = draw_between(rng, -my, my);
        r.push((dx, dy));
    }
    r
}

/// Jittered-grid sites: `GRID_POINTS` points, the grid point `(i * step_x,
/// j * step_y)` for `i` and `j` from one to `GRID_SIDE`, row by row, each
/// moved on each axis by a random amount of at most `variance` times that
/// axis's step. The steps divide `box_size` by the partition counts and add one
/// drawing unit. With a variance of zero every site is its grid point.
pub fn generate_sites_with_random(
    box_size: i64,
    partition: (i64, i64),
    variance: Ratio,
    rng: &mut rand::rngs::StdRng,
) -> (r: Result<Vec<Point>, SiteError>)
    requires
        box_size <= COORD_LIMIT,
        variance.wf(),
    ensures
        r matches Err(SiteError::InvalidBoxSize) <==> box_size <= 0,
        r matches Err(SiteError::InvalidPartition) <==> box_size > 0 && (partition.0 <= 0
            || partition.1 <= 0),
        r matches Ok(v) ==> v.len() == GRID_POINTS,
        r matches Ok(v) ==> forall|k: int|
            0 <= k < v.len() ==> {
                let sx = grid_step(box_size as int, partition.0 as int);
                let sy = grid_step(box_size as int, partition.1 as int);
                &&& -spread(sx, variance) <= (#[trigger] v[k]).x - grid_x(k, sx) <= spread(
                    sx,
                    variance,
                )
                &&& -spread(sy, variance) <= v[k].y - grid_y(k, sy) <= spread(sy, variance)
            },
        r matches Ok(v) ==> variance.num == 0 ==> forall|k: int|
            0 <= k < v.len() ==> (#[trigger] v[k]).x == grid_x(
                k,
                grid_step(box_size as int, partition.0 as int),
            ) && v[k].y == grid_y(k, grid_step(box_size as int, partition.1 as int)),
        r matches Ok(v) ==> variance.num == 0 ==> forall|i: int, j: int|
            1 <= i <= GRID_SIDE && 1 <= j <= GRID_SIDE ==> (#[trigger] v[(j - 1) * GRID_SIDE + (i
                - 1)]).x == i * grid_step(box_size as int, partition.0 as int) && v[(j - 1)
                * GRID_SIDE + (i - 1)].y == j * grid_step(box_size as int, partition.1 as int),
{
    let steps = match grid_steps(box_size, partition) {
        Ok(s) => s,
        Err(e) => {
            return Err(e);
        },
    };
    let offsets = draw_offsets(steps, variance, rng);
    proof {
        if variance.num == 0 {
            assert(steps.0 * 0 == 0) by (nonlinear_arith);
            assert(steps.1 * 0 == 0) by (nonlinear_arith);
            vstd::arithmetic::div_mod::lemma_div_of0(variance.den as int);
            assert(spread(steps.0 as int, variance) == 0);
            assert(spread(steps.1 as int, variance) == 0);
        }
    }
    let sites = jittered_grid(steps, &offsets);
    proof {
        if variance.num == 0 {
            assert forall|i: int, j: int| 1 <= i <= GRID_SIDE && 1 <= j <= GRID_SIDE implies (#[trigger] sites[(j - 1) * GRID_SIDE + (i - 1)]).x == i * steps.0
                && sites[(j - 1) * GRID_SIDE + (i - 1)].y == j * steps.1 by {
                lemma_grid_index(i, j, steps.0 as int, steps.1 as int);
            }
        }
    }
    Ok(sites)
}

/// First lattice coordinate, in drawing units: a tenth of the side, rounded up.
pub open spec fn lattice_low(box_size: int) -> int {
    (box_size + 10 * UNIT as int - 1) / (10 * UNIT as int)
}

/// Last lattice coordinate, in drawing units: nine tenths of the side, rounded down.
pub open spec fn lattice_high(box_size: int) -> int {
    9 * box_size / (10 * UNIT as int)
}

/// The lattice points at whole drawing units from `lo` to `hi` on both axes,
/// row by row (y outer, x inner).
pub open spec fn lattice(lo: int, hi: int) -> Seq<Point> {
    let w = hi - lo + 1;
    Seq::new(
        (w * w) as nat,
        |k: int| Point { x: ((lo + k % w) * UNIT) as i64, y: ((lo + k / w) * UNIT) as i64 },
    )
}

/// The integer lattice inset by a tenth of the side from each edge of the
/// square `[0, box_size]^2`, where the noise strategy looks for sites.
pub fn noise_lattice(box_size: i64) -> (r: Result<Vec<Point>, SiteError>)
    requires
        box_size <= COORD_LIMIT,
    ensures
        r matches Err(e) <==> box_size <= 0,
        r matches Err(e) ==> e == SiteError::InvalidBoxSize,
        r matches Ok(v) ==> v@ == lattice(
            lattice_low(box_size as int),
            lattice_high(box_size as int),
        ),
{
    if box_size <= 0 {
        return Err(SiteError::InvalidBoxSize);
    }
    let b = box_size as u64;
    let lo = (b + 9999) / 10000;
    let hi = (9 * b) / 10000;
    proof {
        vstd::arithmetic::div_mod::lemma_div_is_ordered(9 * b, 9 * COORD_LIMIT, 10000);
        vstd::arithmetic::div_mod::lemma_fundamental_div_mod((b + 9999) as int, 10000);
        vstd::arithmetic::div_mod::lemma_mod_bound((b + 9999) as int, 10000);
        vstd::arithmetic::div_mod::lemma_fundamental_div_mod((9 * b) as int, 10000);
        vstd::arithmetic::div_mod::lemma_mod_bound((9 * b) as int, 10000);
        assert(lo <= hi + 1) by (nonlinear_arith)
            requires
                b >= 1,
                b + 9999 == 10000 * lo + (b + 9999) % 10000,
                0 <= (b + 9999) % 10000 < 10000,
                9 * b == 10000 * hi + (9 * b) % 10000,
                0 <= (9 * b) % 10000 < 10000,
        ;
    }
    let w = hi + 1 - lo;
    assert(w * w <= 1_000_000_000 * 1_000_000_000) by (nonlinear_arith)
        requires
            0 <= w <= 1_000_000_000,
    ;
    let n = w * w;
    let ghost target = lattice(lo as int, hi as int);
    let mut r: Vec<Point> = Vec::new();
    let mut k: u64 = 0;
    while k < n
        invariant
            k <= n,
            n == w * w,
            0 <= w <= 1_000_000_000,
            w == hi - lo + 1,
            hi <= 900_000_000,
            r.len() == k,
            target == lattice(lo as int, hi as int),
            forall|q: int| 0 <= q < k ==> #[trigger] r[q] == target[q],
        decreases n - k,
    {
        let col = k % w;
        let row = k / w;
        proof {
            vstd::arithmetic::div_mod::lemma_fundamental_div_mod(k as int, w as int);
            vstd::arithmetic::div_mod::lemma_mod_bound(k as int, w as int);
            assert(row < w) by (nonlinear_arith)
                requires
                    k == w * row + col,
                    0 <= col,
                    k < w * w,
                    w >= 1,
                    row >= 0,
            ;
        }
        r.push(Point { x: ((lo + col) * 1000) as i64, y: ((lo + row) * 1000) as i64 });
        k = k + 1;
    }
    assert(r@ =~= target);
    Ok(r)
}

/// A noise value is kept when its magnitude is strictly above the threshold.
pub open spec fn exceeds(value: int, threshold: int) -> bool {
    value > threshold || value < -threshold
}

/// The lattice points whose noise value exceeds the threshold, in order.
pub open spec fn selected(lattice: Seq<Point>, noise: Seq<i64>, threshold: int) -> Seq<Point>
    decreases lattice.len(),
{
    if lattice.len() == 0 {
        Seq::empty()
    } else {
        let rest = selected(lattice.drop_last(), noise, threshold);
        if exceeds(noise[lattice.len() - 1] as int, threshold) {
            rest.push(lattice.last())
        } else {
            rest
        }
    }
}

/// Keeps the points of `lattice` whose noise value, at the same index of
/// `noise`, exceeds `threshold` in magnitude; the order is kept.
pub fn select_sites(lattice: &Vec<Point>, noise: &Vec<i64>, threshold: i64) -> (r: Vec<Point>)
    requires
        noise.len() == lattice.len(),
    ensures
        r@ == selected(lattice@, noise@, threshold as int),
{
    let mut r: Vec<Point> = Vec::new();
    let mut i: usize = 0;
    while i < lattice.len()
        invariant
            i <= lattice.len(),
            noise.len() == lattice.len(),
            r@ == selected(lattice@.subrange(0, i as int), noise@, threshold as int),
        decreases lattice.len() - i,
    {
        proof {
            assert(lattice@.subrange(0, i + 1).drop_last() =~= lattice@.subrange(0, i as int));
        }
        let v = noise[i] as i128;
        if v > threshold as i128 || v < -(threshold as i128) {
            r.push(lattice[i]);
        }
        i = i + 1;
    }
    assert(lattice@.subrange(0, lattice.len() as int) =~= lattice@);
    r
}

/// `p` is a lattice point whose noise value exceeds the threshold in magnitude.
pub open spec fn kept_point(lattice: Seq<Point>, noise: Seq<i64>, threshold: int, p: Point) -> bool {
    exists|i: int| 0 <= i < lattice.len() && lattice[i] == p && exceeds(noise[i] as int, threshold)
}

/// Every selected site is a lattice point whose noise value exceeds the
/// threshold in magnitude.
pub proof fn lemma_selected_exceed(lattice: Seq<Point>, noise: Seq<i64>, threshold: int)
    requires
        noise.len() == lattice.len(),
    ensures
        forall|k: int|
            0 <= k < selected(lattice, noise, threshold).len() ==> kept_point(
                lattice,
                noise,
                threshold,
                #[trigger] selected(lattice, noise, threshold)[k],
            ),
{
    lemma_selected_prefix_exceed(lattice, noise, threshold);
}

proof fn lemma_selected_prefix_exceed(lattice: Seq<Point>, noise: Seq<i64>, threshold: int)
    requires
        noise.len() >= lattice.len(),
    ensures
        forall|k: int|
            0 <= k < selected(lattice, noise, threshold).len() ==> kept_point(
                lattice,
                noise,
                threshold,
                #[trigger] selected(lattice, noise, threshold)[k],
            ),
    decreases lattice.len(),
{
    if lattice.len() > 0 {
        let pre = lattice.drop_last();
        lemma_selected_prefix_exceed(pre, noise, threshold);
        let sel = selected(lattice, noise, threshold);
        let rest = selected(pre, noise, threshold);
        assert forall|k: int| 0 <= k < sel.len() implies kept_point(
            lattice,
            noise,
            threshold,
            #[trigger] sel[k],
        ) by {
            if k < rest.len() {
                assert(sel[k] == rest[k]);
                assert(kept_point(pre, noise, threshold, rest[k]));
                let i = choose|i: int|
                    0 <= i < pre.len() && pre[i] == rest[k] && exceeds(noise[i] as int, threshold);
                assert(lattice[i] == pre[i]);
            } else {
                assert(sel =~= rest.push(lattice.last()));
                assert(lattice[lattice.len() - 1] == sel[k]);
            }
        }
    }
}

/// Raising the threshold never adds sites.
pub proof fn lemma_selected_monotone(
    lattice: Seq<Point>,
    noise: Seq<i64>,
    low: int,
    high: int,
)
    requires
        noise.len() == lattice.len(),
        low <= high,
    ensures
        selected(lattice, noise, high).len() <= selected(lattice, noise, low).len(),
{
    lemma_selected_monotone_prefix(lattice, noise, low, high);
}

proof fn lemma_selected_monotone_prefix(
    lattice: Seq<Point>,
    noise: Seq<i64>,
    low: int,
    high: int,
)
    requires
        noise.len() >= lattice.len(),
        low <= high,
    ensures
        selected(lattice, noise, high).len() <= selected(lattice, noise, low).len(),
    decreases lattice.len(),
{
    if lattice.len() > 0 {
        lemma_selected_monotone_prefix(lattice.drop_last(), noise, low, high);
    }
}

} // verus!
