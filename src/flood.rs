use vstd::prelude::*;
use vstd::arithmetic::power2::pow2;
use crate::attributes::WIDTH_UNITS_PER_PIXEL;
use crate::seed::{lemma_pixel_coords, lemma_pixel_index_bounds, pixel_index, Grid, Seed, SeedBuffer, Texel};

verus! {

/// Squared Euclidean distance from pixel `(x, y)` to seed `s`.
pub open spec fn dist2(x: int, y: int, s: Seed) -> int {
    (x - s.x) * (x - s.x) + (y - s.y) * (y - s.y)
}

/// `c` clamped into `0 .. limit`.
pub open spec fn clamp_coord(c: int, limit: int) -> int {
    if c < 0 {
        0
    } else if c >= limit {
        limit - 1
    } else {
        c
    }
}

/// Position of candidate `j` (0 through 8) in the 3x3 pattern, in the order in
/// which candidates are examined: the pixel itself first, then its eight
/// neighbours row by row.
pub open spec fn pattern_cell(j: int) -> int {
    if j == 0 {
        4
    } else if j <= 4 {
        j - 1
    } else {
        j
    }
}

pub open spec fn offset_x(j: int) -> int {
    pattern_cell(j) % 3 - 1
}

pub open spec fn offset_y(j: int) -> int {
    pattern_cell(j) / 3 - 1
}

/// Candidate `j` for pixel `(x, y)` in a round with step `s`.
pub open spec fn candidate(g: Grid, x: int, y: int, s: int, j: int) -> Texel {
    g.at(
        clamp_coord(x + offset_x(j) * s, g.width as int),
        clamp_coord(y + offset_y(j) * s, g.height as int),
    )
}

/// Whether pixel `(x, y)` lies within `width` (in width units) of seed `s`.
pub open spec fn within_width(x: int, y: int, s: Seed, width: u32) -> bool {
    dist2(x, y, s) * (WIDTH_UNITS_PER_PIXEL * WIDTH_UNITS_PER_PIXEL) <= width * width
}

/// Whether texel `t` holds a seed within its owner's width of pixel `(x, y)`:
/// the pixel lies in the owner's outline band.
pub open spec fn in_band(t: Texel, x: int, y: int) -> bool {
    match t.seed {
        None => false,
        Some(s) => within_width(x, y, s, t.owner.width),
    }
}

/// Whether the priority decides between seeded texels `a` and `b` at pixel
/// `(x, y)`: their priorities differ and the higher one lies in its owner's
/// band there.
pub open spec fn priority_decides(a: Texel, b: Texel, x: int, y: int) -> bool {
    (a.owner.priority > b.owner.priority && in_band(a, x, y)) || (b.owner.priority
        > a.owner.priority && in_band(b, x, y))
}

/// Whether texel `a` is a better choice than `b` for pixel `(x, y)`. A seed
/// beats no seed. Where the priorities differ and the higher one's band
/// covers the pixel, the higher priority wins; otherwise the nearer seed
/// wins, and of equally near ones the higher priority.
pub open spec fn beats(a: Texel, b: Texel, x: int, y: int) -> bool {
    match a.seed {
        None => false,
        Some(sa) => match b.seed {
            None => true,
            Some(sb) => if priority_decides(a, b, x, y) {
                a.owner.priority > b.owner.priority
            } else {
                dist2(x, y, sa) < dist2(x, y, sb) || (dist2(x, y, sa) == dist2(x, y, sb)
                    && a.owner.priority > b.owner.priority)
            },
        },
    }
}

/// The choice among the first `n` candidates: each candidate in turn replaces
/// the choice so far when it beats it.
pub open spec fn pick(g: Grid, x: int, y: int, s: int, n: nat) -> Texel
    decreases n,
{
    if n <= 1 {
        candidate(g, x, y, s, 0)
    } else {
        let prev = pick(g, x, y, s, (n - 1) as nat);
        let c = candidate(g, x, y, s, n - 1);
        if beats(c, prev, x, y) {
            c
        } else {
            prev
        }
    }
}

/// What one round with step `s` writes at pixel `(x, y)`.
pub open spec fn nearest(g: Grid, x: int, y: int, s: int) -> Texel {
    pick(g, x, y, s, 9)
}

/// The grid after one round with step `s`.
pub open spec fn flood_round_spec(g: Grid, s: int) -> Grid {
    Grid {
        width: g.width,
        height: g.height,
        texels: Seq::new(
            g.texels.len(),
            |i: int| nearest(g, i % (g.width as int), i / (g.width as int), s),
        ),
    }
}

/// The step of round `r` (counted from 0) out of `passes`: `2^(passes-1-r)`.
pub open spec fn step_of(passes: nat, r: nat) -> nat {
    pow2((passes - 1 - r) as nat)
}

/// The grid after the first `done` rounds of a flood of `passes` rounds.
pub open spec fn flood_spec(g: Grid, passes: nat, done: nat) -> Grid
    decreases done,
{
    if done == 0 {
        g
    } else {
        flood_round_spec(
            flood_spec(g, passes, (done - 1) as nat),
            step_of(passes, (done - 1) as nat) as int,
        )
    }
}

/// The smallest `k` with `2^k >= n`.
pub open spec fn ceil_log2(n: nat) -> nat
    decreases n,
{
    if n <= 1 {
        0
    } else {
        1 + ceil_log2(((n + 1) / 2) as nat)
    }
}

/// Twice a width, in whole pixels, rounded up.
pub open spec fn double_width_pixels(width: u32) -> nat {
    ((2 * width + WIDTH_UNITS_PER_PIXEL - 1) / (WIDTH_UNITS_PER_PIXEL as int)) as nat
}

/// Number of flood rounds for an outline width: none for a zero width, else
/// enough that the first step, `2^(passes-1)`, exceeds half the width.
pub open spec fn flood_passes_spec(width: u32) -> nat {
    if width == 0 {
        0
    } else {
        ceil_log2(double_width_pixels(width) / 2 + 1) + 1
    }
}

pub proof fn lemma_ceil_log2_covers(n: nat)
    ensures
        pow2(ceil_log2(n)) >= n,
        n >= 2 ==> pow2((ceil_log2(n) - 1) as nat) < n,
    decreases n,
{
    vstd::arithmetic::power2::lemma2_to64();
    if n >= 2 {
        let m = ((n + 1) / 2) as nat;
        let c = ceil_log2(m);
        assert(ceil_log2(n) == 1 + c);
        lemma_ceil_log2_covers(m);
        vstd::arithmetic::power2::lemma_pow2_unfold(c + 1);
        assert(pow2(c + 1) == 2 * pow2(c));
        if m >= 2 {
            vstd::arithmetic::power2::lemma_pow2_unfold(c);
            assert(pow2(c) == 2 * pow2((c - 1) as nat));
        }
        assert((c + 1 - 1) as nat == c);
    }
}

pub proof fn lemma_ceil_log2_at_most(n: nat, k: nat)
    requires
        n <= pow2(k),
    ensures
        ceil_log2(n) <= k,
    decreases n,
{
    vstd::arithmetic::power2::lemma2_to64();
    if n >= 2 {
        if k == 0 {
            assert(pow2(0) == 1);
        } else {
            vstd::arithmetic::power2::lemma_pow2_unfold(k);
            lemma_ceil_log2_at_most(((n + 1) / 2) as nat, (k - 1) as nat);
        }
    }
}

/// `ceil_log2(n)`, computed.
fn ceil_log2_exec(n: u32) -> (k: u32)
    ensures
        k == ceil_log2(n as nat),
        k <= 32,
{
    let mut m: u32 = n;
    let mut k: u32 = 0;
    proof {
        vstd::arithmetic::power2::lemma2_to64();
        lemma_ceil_log2_at_most(n as nat, 32);
    }
    while m > 1
        invariant
            ceil_log2(n as nat) == k + ceil_log2(m as nat),
            ceil_log2(n as nat) <= 32,
        decreases m,
    {
        m = m / 2 + m % 2;
        k = k + 1;
    }
    k
}

/// Number of flood rounds needed for outlines up to `width` wide.
pub fn flood_passes(width: u32) -> (passes: u32)
    ensures
        passes == flood_passes_spec(width),
        passes <= 26,
        passes > 0 ==> 2 * pow2((passes - 1) as nat) * WIDTH_UNITS_PER_PIXEL > width,
{
    if width == 0 {
        return 0;
    }
    let units = WIDTH_UNITS_PER_PIXEL as u64;
    let double_px: u32 = ((2 * (width as u64) + units - 1) / units) as u32;
    let n: u32 = double_px / 2 + 1;
    let k = ceil_log2_exec(n);
    proof {
        vstd::arithmetic::power2::lemma2_to64();
        lemma_ceil_log2_covers(n as nat);
        lemma_ceil_log2_at_most(n as nat, 25);
    }
    k + 1
}

/// Clamped positions lie inside the grid.
proof fn lemma_candidate_in_grid(g: Grid, x: int, y: int, s: int, j: int)
    requires
        g.wf(),
        0 <= x < g.width,
        0 <= y < g.height,
    ensures
        g.texels.contains(candidate(g, x, y, s, j)),
{
    let cx = clamp_coord(x + offset_x(j) * s, g.width as int);
    let cy = clamp_coord(y + offset_y(j) * s, g.height as int);
    lemma_pixel_index_bounds(g.width as int, g.height as int, cx, cy);
    assert(g.texels[pixel_index(g.width as int, cx, cy)] == candidate(g, x, y, s, j));
}

proof fn lemma_pick_is_candidate(g: Grid, x: int, y: int, s: int, n: nat)
    requires
        1 <= n,
    ensures
        exists|j: int| 0 <= j < n && pick(g, x, y, s, n) == candidate(g, x, y, s, j),
    decreases n,
{
    if n > 1 {
        lemma_pick_is_candidate(g, x, y, s, (n - 1) as nat);
    } else {
        assert(pick(g, x, y, s, n) == candidate(g, x, y, s, 0));
    }
}

/// What a round writes at a pixel is one of its nine candidates.
pub proof fn lemma_nearest_is_candidate(g: Grid, x: int, y: int, s: int)
    ensures
        exists|j: int| 0 <= j < 9 && nearest(g, x, y, s) == candidate(g, x, y, s, j),
{
    lemma_pick_is_candidate(g, x, y, s, 9);
}

proof fn lemma_pick_seeded(g: Grid, x: int, y: int, s: int, n: nat, j: int)
    requires
        0 <= j < n,
        candidate(g, x, y, s, j).seed is Some,
    ensures
        pick(g, x, y, s, n).seed is Some,
    decreases n,
{
    if n > 1 && j < n - 1 {
        lemma_pick_seeded(g, x, y, s, (n - 1) as nat, j);
    }
}

/// A round keeps a seed wherever one of its candidates holds one.
pub proof fn lemma_nearest_seeded(g: Grid, x: int, y: int, s: int, j: int)
    requires
        0 <= j < 9,
        candidate(g, x, y, s, j).seed is Some,
    ensures
        nearest(g, x, y, s).seed is Some,
{
    lemma_pick_seeded(g, x, y, s, 9, j);
}

/// Squared distance from pixel `(x, y)` to the seed that `t` holds.
pub open spec fn held_dist2(t: Texel, x: int, y: int) -> int {
    dist2(x, y, t.seed.unwrap())
}

proof fn lemma_pick_equal_priority(g: Grid, x: int, y: int, s: int, n: nat, p: i32)
    requires
        1 <= n <= 9,
        forall|j: int|
            0 <= j < 9 && (#[trigger] candidate(g, x, y, s, j)).seed is Some ==> candidate(
                g,
                x,
                y,
                s,
                j,
            ).owner.priority == p,
    ensures
        forall|j: int|
            0 <= j < n && (#[trigger] candidate(g, x, y, s, j)).seed is Some ==> pick(
                g,
                x,
                y,
                s,
                n,
            ).seed is Some && held_dist2(pick(g, x, y, s, n), x, y) <= held_dist2(
                candidate(g, x, y, s, j),
                x,
                y,
            ),
    decreases n,
{
    if n > 1 {
        lemma_pick_equal_priority(g, x, y, s, (n - 1) as nat, p);
        lemma_pick_is_candidate(g, x, y, s, (n - 1) as nat);
    }
}

/// Where all seeded candidates of a round share one priority, the round keeps
/// a nearest of their seeds, whatever the owners' widths: among outlines of
/// equal priority the flood is the plain nearest-seed flood.
pub proof fn lemma_nearest_equal_priority(g: Grid, x: int, y: int, s: int, p: i32)
    requires
        forall|j: int|
            0 <= j < 9 && (#[trigger] candidate(g, x, y, s, j)).seed is Some ==> candidate(
                g,
                x,
                y,
                s,
                j,
            ).owner.priority == p,
    ensures
        forall|j: int|
            0 <= j < 9 && (#[trigger] candidate(g, x, y, s, j)).seed is Some ==> nearest(
                g,
                x,
                y,
                s,
            ).seed is Some && held_dist2(nearest(g, x, y, s), x, y) <= held_dist2(
                candidate(g, x, y, s, j),
                x,
                y,
            ),
{
    lemma_pick_equal_priority(g, x, y, s, 9, p);
}

/// Every seeded candidate other than `t` has a lower priority than `t`.
pub open spec fn top_candidate(g: Grid, x: int, y: int, s: int, t: Texel) -> bool {
    forall|i: int|
        0 <= i < 9 && (#[trigger] candidate(g, x, y, s, i)).seed is Some && candidate(g, x, y, s, i)
            != t ==> candidate(g, x, y, s, i).owner.priority < t.owner.priority
}

proof fn lemma_pick_top(g: Grid, x: int, y: int, s: int, n: nat, j: int, t: Texel)
    requires
        0 <= j < n <= 9,
        candidate(g, x, y, s, j) == t,
        in_band(t, x, y),
        top_candidate(g, x, y, s, t),
    ensures
        pick(g, x, y, s, n) == t,
    decreases n,
{
    if n > 1 {
        let prev = pick(g, x, y, s, (n - 1) as nat);
        if j < n - 1 {
            lemma_pick_top(g, x, y, s, (n - 1) as nat, j, t);
        } else {
            lemma_pick_is_candidate(g, x, y, s, (n - 1) as nat);
        }
    }
}

/// Where a candidate lies in its own owner's band and has a higher priority
/// than every other seeded candidate, the round keeps it, however much nearer
/// the other seeds are: of overlapping outline bands, the higher priority
/// shows.
pub proof fn lemma_nearest_top_priority(g: Grid, x: int, y: int, s: int, j: int)
    requires
        0 <= j < 9,
        in_band(candidate(g, x, y, s, j), x, y),
        top_candidate(g, x, y, s, candidate(g, x, y, s, j)),
    ensures
        nearest(g, x, y, s) == candidate(g, x, y, s, j),
{
    lemma_pick_top(g, x, y, s, 9, j, candidate(g, x, y, s, j));
}

/// Every texel that a flood writes was already in the grid it started from:
/// seeds and their attributes are carried, never made up.
pub proof fn lemma_flood_texels_from_start(g: Grid, passes: nat, done: nat)
    requires
        g.wf(),
    ensures
        flood_spec(g, passes, done).wf(),
        flood_spec(g, passes, done).width == g.width,
        flood_spec(g, passes, done).height == g.height,
        forall|i: int|
            0 <= i < flood_spec(g, passes, done).texels.len() ==> g.texels.contains(
                #[trigger] flood_spec(g, passes, done).texels[i],
            ),
    decreases done,
{
    if done > 0 {
        let prev = flood_spec(g, passes, (done - 1) as nat);
        let st = step_of(passes, (done - 1) as nat) as int;
        lemma_flood_texels_from_start(g, passes, (done - 1) as nat);
        let next = flood_spec(g, passes, done);
        assert(next == flood_round_spec(prev, st));
        assert forall|i: int| 0 <= i < next.texels.len() implies g.texels.contains(
            #[trigger] next.texels[i],
        ) by {
            let w = prev.width as int;
            let x = i % w;
            let y = i / w;
            assert(w > 0 && 0 <= x < w && 0 <= y < prev.height) by (nonlinear_arith)
                requires
                    0 <= i < prev.texels.len(),
                    prev.texels.len() == w * prev.height,
                    x == i % w,
                    y == i / w,
            ;
            lemma_nearest_is_candidate(prev, x, y, st);
            let j = choose|j: int| 0 <= j < 9 && nearest(prev, x, y, st) == candidate(prev, x, y, st, j);
            lemma_candidate_in_grid(prev, x, y, st, j);
            let k = choose|k: int| 0 <= k < prev.texels.len() && prev.texels[k] == next.texels[i];
            assert(g.texels.contains(prev.texels[k]));
        }
    }
}

/// The texel at point `(kx, ky)` of the lattice of spacing `q` around
/// `(sx, sy)`.
pub open spec fn lattice_texel(g: Grid, sx: int, sy: int, q: int, kx: int, ky: int) -> Texel {
    g.at(sx + kx * q, sy + ky * q)
}

/// Every point of the lattice of spacing `q` around `(sx, sy)` that lies in
/// the grid, less than `n` steps away along each axis and at squared distance
/// at most `r2` from `(sx, sy)`, holds `t`.
pub open spec fn disc_reached(g: Grid, sx: int, sy: int, t: Texel, n: int, q: int, r2: int) -> bool {
    forall|kx: int, ky: int|
        -n < kx < n && -n < ky < n && 0 <= sx + kx * q < g.width && 0 <= sy + ky * q < g.height
            && dist2(sx + kx * q, sy + ky * q, Seed { x: sx as u32, y: sy as u32 }) <= r2
            ==> #[trigger] lattice_texel(g, sx, sy, q, kx, ky) == t
}

/// Every seeded texel of `g` is `t`.
pub open spec fn only_seed(g: Grid, t: Texel) -> bool {
    forall|i: int| 0 <= i < g.texels.len() && (#[trigger] g.texels[i]).seed is Some ==> g.texels[i] == t
}

/// `t` is the only seeded texel of `g` whose priority is not below its own.
pub open spec fn top_priority(g: Grid, t: Texel) -> bool {
    forall|i: int|
        0 <= i < g.texels.len() && (#[trigger] g.texels[i]).seed is Some && g.texels[i] != t
            ==> g.texels[i].owner.priority < t.owner.priority
}

/// `t`, seeded at `(sx, sy)`, wins every round at the pixels within squared
/// distance `r2` of it that it is offered to: it is the only seed, or it has
/// the top priority and its band covers that disc.
pub open spec fn prevails(g: Grid, t: Texel, sx: int, sy: int, r2: int) -> bool {
    ||| only_seed(g, t)
    ||| {
        &&& top_priority(g, t)
        &&& t.seed == Some(Seed { x: sx as u32, y: sy as u32 })
        &&& r2 * (WIDTH_UNITS_PER_PIXEL * WIDTH_UNITS_PER_PIXEL) <= t.owner.width * t.owner.width
    }
}

proof fn lemma_offset_index(dx: int, dy: int) -> (j: int)
    requires
        -1 <= dx <= 1,
        -1 <= dy <= 1,
    ensures
        0 <= j < 9,
        offset_x(j) == dx,
        offset_y(j) == dy,
{
    let cell = (dy + 1) * 3 + (dx + 1);
    let j = if cell == 4 {
        0
    } else if cell < 4 {
        cell + 1
    } else {
        cell
    };
    assert(pattern_cell(j) == cell);
    j
}

/// The lattice point one round nearer to `(sx, sy)`: point `(kx2, ky2)` of
/// spacing `s` is candidate `j` of point `(kx, ky)` of spacing `2 s`, which
/// lies in the grid, within `n` steps, and no farther from `(sx, sy)`.
proof fn lemma_lattice_predecessor(
    w: int,
    h: int,
    sx: int,
    sy: int,
    s: int,
    n: int,
    kx2: int,
    ky2: int,
) -> (r: (int, int, int))
    requires
        0 <= sx < w,
        0 <= sy < h,
        s >= 1,
        -2 * n < kx2 < 2 * n,
        -2 * n < ky2 < 2 * n,
        0 <= sx + kx2 * s < w,
        0 <= sy + ky2 * s < h,
    ensures
        -n < r.0 < n,
        -n < r.1 < n,
        0 <= r.2 < 9,
        clamp_coord(sx + kx2 * s + offset_x(r.2) * s, w) == sx + r.0 * (2 * s),
        clamp_coord(sy + ky2 * s + offset_y(r.2) * s, h) == sy + r.1 * (2 * s),
        0 <= sx + r.0 * (2 * s) < w,
        0 <= sy + r.1 * (2 * s) < h,
        (r.0 * (2 * s)) * (r.0 * (2 * s)) + (r.1 * (2 * s)) * (r.1 * (2 * s)) <= (kx2 * s) * (kx2
            * s) + (ky2 * s) * (ky2 * s),
{
    let x = sx + kx2 * s;
    let y = sy + ky2 * s;
    let kx = if kx2 >= 0 { kx2 / 2 } else { -((-kx2) / 2) };
    let ky = if ky2 >= 0 { ky2 / 2 } else { -((-ky2) / 2) };
    let ex = kx2 - 2 * kx;
    let ey = ky2 - 2 * ky;
    assert(-1 <= ex <= 1 && -1 <= ey <= 1);
    let cx = sx + kx * (2 * s);
    let cy = sy + ky * (2 * s);
    assert(cx == x + (-ex) * s && cy == y + (-ey) * s) by (nonlinear_arith)
        requires
            x == sx + kx2 * s,
            y == sy + ky2 * s,
            cx == sx + kx * (2 * s),
            cy == sy + ky * (2 * s),
            ex == kx2 - 2 * kx,
            ey == ky2 - 2 * ky,
    ;
    assert(0 <= cx < w && 0 <= cy < h && (kx * (2 * s)) * (kx * (2 * s)) + (ky * (2 * s)) * (ky
        * (2 * s)) <= (kx2 * s) * (kx2 * s) + (ky2 * s) * (ky2 * s)) by (nonlinear_arith)
        requires
            0 <= sx < w,
            0 <= sy < h,
            0 <= x < w,
            0 <= y < h,
            x == sx + kx2 * s,
            y == sy + ky2 * s,
            cx == sx + kx * (2 * s),
            cy == sy + ky * (2 * s),
            s >= 1,
            kx2 >= 0 ==> 0 <= 2 * kx <= kx2,
            kx2 < 0 ==> kx2 <= 2 * kx <= 0,
            ky2 >= 0 ==> 0 <= 2 * ky <= ky2,
            ky2 < 0 ==> ky2 <= 2 * ky <= 0,
    ;
    let j = lemma_offset_index(-ex, -ey);
    (kx, ky, j)
}

/// One round with step `s` doubles the reach, within the disc, of a texel
/// that prevails there, while halving the lattice spacing.
proof fn lemma_round_extends_disc(g: Grid, sx: int, sy: int, t: Texel, n: int, s: int, r2: int)
    requires
        g.wf(),
        0 <= sx < g.width,
        0 <= sy < g.height,
        s >= 1,
        n >= 1,
        t.seed is Some,
        prevails(g, t, sx, sy, r2),
        disc_reached(g, sx, sy, t, n, 2 * s, r2),
    ensures
        disc_reached(flood_round_spec(g, s), sx, sy, t, 2 * n, s, r2),
{
    let r = flood_round_spec(g, s);
    let seed = Seed { x: sx as u32, y: sy as u32 };
    assert forall|kx2: int, ky2: int|
        -2 * n < kx2 < 2 * n && -2 * n < ky2 < 2 * n && 0 <= sx + kx2 * s < r.width && 0 <= sy
            + ky2 * s < r.height && dist2(sx + kx2 * s, sy + ky2 * s, seed) <= r2 implies #[trigger] lattice_texel(
        r,
        sx,
        sy,
        s,
        kx2,
        ky2,
    ) == t by {
        let x = sx + kx2 * s;
        let y = sy + ky2 * s;
        let (kx, ky, j) = lemma_lattice_predecessor(
            g.width as int,
            g.height as int,
            sx,
            sy,
            s,
            n,
            kx2,
            ky2,
        );
        assert(dist2(sx + kx * (2 * s), sy + ky * (2 * s), seed) <= dist2(x, y, seed));
        assert(candidate(g, x, y, s, j) == lattice_texel(g, sx, sy, 2 * s, kx, ky));
        assert(candidate(g, x, y, s, j) == t);
        lemma_nearest_is_candidate(g, x, y, s);
        let best = nearest(g, x, y, s);
        let jb = choose|jb: int| 0 <= jb < 9 && best == candidate(g, x, y, s, jb);
        lemma_candidate_in_grid(g, x, y, s, jb);
        if only_seed(g, t) {
            lemma_nearest_seeded(g, x, y, s, j);
            let k = choose|k: int| 0 <= k < g.texels.len() && g.texels[k] == best;
            assert(g.texels[k] == best);
        } else {
            assert(dist2(x, y, seed) * (256 * 256) <= t.owner.width * t.owner.width) by (nonlinear_arith)
                requires
                    dist2(x, y, seed) <= r2,
                    r2 * (256 * 256) <= t.owner.width * t.owner.width,
            ;
            assert(in_band(t, x, y));
            assert forall|i: int|
                0 <= i < 9 && (#[trigger] candidate(g, x, y, s, i)).seed is Some && candidate(
                    g,
                    x,
                    y,
                    s,
                    i,
                ) != t implies candidate(g, x, y, s, i).owner.priority < t.owner.priority by {
                lemma_candidate_in_grid(g, x, y, s, i);
                let k = choose|k: int|
                    0 <= k < g.texels.len() && g.texels[k] == candidate(g, x, y, s, i);
                assert(g.texels[k] == candidate(g, x, y, s, i));
            }
            lemma_nearest_top_priority(g, x, y, s, j);
        }
        lemma_pixel_coords(g.width as int, g.height as int, x, y);
        assert(r.at(x, y) == nearest(g, x, y, s));
    }
}

proof fn lemma_flood_disc(g: Grid, sx: int, sy: int, passes: nat, d: nat, r2: int)
    requires
        g.wf(),
        0 <= sx < g.width,
        0 <= sy < g.height,
        g.at(sx, sy).seed is Some,
        prevails(g, g.at(sx, sy), sx, sy, r2),
        d <= passes,
    ensures
        disc_reached(
            flood_spec(g, passes, d),
            sx,
            sy,
            g.at(sx, sy),
            pow2(d) as int,
            pow2((passes - d) as nat) as int,
            r2,
        ),
    decreases d,
{
    let t = g.at(sx, sy);
    let seed = Seed { x: sx as u32, y: sy as u32 };
    vstd::arithmetic::power2::lemma2_to64();
    if d == 0 {
        let q = pow2(passes) as int;
        assert forall|kx: int, ky: int|
            -1 < kx < 1 && -1 < ky < 1 && 0 <= sx + kx * q < g.width && 0 <= sy + ky * q < g.height
                && dist2(sx + kx * q, sy + ky * q, seed) <= r2 implies #[trigger] lattice_texel(
            g,
            sx,
            sy,
            q,
            kx,
            ky,
        ) == t by {
            assert(kx == 0 && ky == 0);
        }
    } else {
        let prev = flood_spec(g, passes, (d - 1) as nat);
        lemma_flood_disc(g, sx, sy, passes, (d - 1) as nat, r2);
        lemma_flood_texels_from_start(g, passes, (d - 1) as nat);
        if only_seed(g, t) {
            assert forall|i: int| 0 <= i < prev.texels.len() && (#[trigger] prev.texels[i]).seed is Some
                implies prev.texels[i] == t by {
                let k = choose|k: int| 0 <= k < g.texels.len() && g.texels[k] == prev.texels[i];
                assert(g.texels[k] == prev.texels[i]);
            }
        } else {
            assert forall|i: int|
                0 <= i < prev.texels.len() && (#[trigger] prev.texels[i]).seed is Some
                    && prev.texels[i] != t implies prev.texels[i].owner.priority < t.owner.priority by {
                let k = choose|k: int| 0 <= k < g.texels.len() && g.texels[k] == prev.texels[i];
                assert(g.texels[k] == prev.texels[i]);
            }
        }
        let s = pow2((passes - d) as nat);
        vstd::arithmetic::power2::lemma_pow2_unfold((passes - d + 1) as nat);
        vstd::arithmetic::power2::lemma_pow2_unfold(d);
        vstd::arithmetic::power2::lemma_pow2_pos((passes - d) as nat);
        vstd::arithmetic::power2::lemma_pow2_pos((d - 1) as nat);
        assert((passes - (d - 1)) as nat == (passes - d + 1) as nat);
        assert(step_of(passes, (d - 1) as nat) == s);
        lemma_round_extends_disc(prev, sx, sy, t, pow2((d - 1) as nat) as int, s as int, r2);
    }
}

/// A texel that prevails over the disc around `(sx, sy)` through pixel
/// `(x, y)` reaches that pixel in `passes` rounds when the pixel is less than
/// `2^passes` away along each axis.
proof fn lemma_flood_reaches(g: Grid, sx: int, sy: int, passes: nat, x: int, y: int)
    requires
        g.wf(),
        0 <= sx < g.width,
        0 <= sy < g.height,
        g.at(sx, sy).seed is Some,
        prevails(g, g.at(sx, sy), sx, sy, dist2(x, y, Seed { x: sx as u32, y: sy as u32 })),
        0 <= x < g.width,
        0 <= y < g.height,
        -pow2(passes) < x - sx < pow2(passes),
        -pow2(passes) < y - sy < pow2(passes),
    ensures
        flood_spec(g, passes, passes).at(x, y) == g.at(sx, sy),
{
    let r2 = dist2(x, y, Seed { x: sx as u32, y: sy as u32 });
    lemma_flood_disc(g, sx, sy, passes, passes, r2);
    lemma_flood_texels_from_start(g, passes, passes);
    vstd::arithmetic::power2::lemma2_to64();
    let kx = x - sx;
    let ky = y - sy;
    assert((passes - passes) as nat == 0);
    assert(sx + kx * 1 == x && sy + ky * 1 == y);
    assert(lattice_texel(flood_spec(g, passes, passes), sx, sy, 1, kx, ky) == g.at(sx, sy));
}

/// A lone seed, flooded for `ceil_log2(radius) + 1` rounds, reaches every
/// pixel within `radius` of it: each such pixel ends up holding exactly the
/// seed's texel (its coordinate, attributes and depth).
pub proof fn lemma_single_seed_flood_exact(g: Grid, sx: int, sy: int, radius: nat, x: int, y: int)
    requires
        g.wf(),
        0 <= sx < g.width,
        0 <= sy < g.height,
        g.at(sx, sy).seed is Some,
        only_seed(g, g.at(sx, sy)),
        0 <= x < g.width,
        0 <= y < g.height,
        (x - sx) * (x - sx) + (y - sy) * (y - sy) <= radius * radius,
    ensures
        flood_spec(g, ceil_log2(radius) + 1, ceil_log2(radius) + 1).at(x, y) == g.at(sx, sy),
{
    let passes = ceil_log2(radius) + 1;
    lemma_ceil_log2_covers(radius);
    vstd::arithmetic::power2::lemma_pow2_unfold(passes);
    vstd::arithmetic::power2::lemma2_to64();
    let n = pow2(passes) as int;
    assert(n >= 2 * radius && n >= 2);
    let kx = x - sx;
    let ky = y - sy;
    assert(-n < kx < n && -n < ky < n) by (nonlinear_arith)
        requires
            kx * kx + ky * ky <= radius * radius,
            n >= 2 * radius,
            n >= 2,
            radius >= 0,
    ;
    lemma_flood_reaches(g, sx, sy, passes, x, y);
}

proof fn lemma_within_width_axis(k: int, d2: int, width: u32)
    requires
        k * k <= d2,
        d2 * (WIDTH_UNITS_PER_PIXEL * WIDTH_UNITS_PER_PIXEL) <= width * width,
    ensures
        2 * k < double_width_pixels(width) / 2 * 2 + 2,
        -2 * k < double_width_pixels(width) / 2 * 2 + 2,
{
    let a = if k >= 0 { k } else { -k };
    assert(a * a == k * k) by (nonlinear_arith)
        requires
            a == k || a == -k,
    ;
    assert((256 * a) * (256 * a) <= width * width) by (nonlinear_arith)
        requires
            a * a <= d2,
            d2 * (256 * 256) <= width * width,
    ;
    assert(256 * a <= width) by (nonlinear_arith)
        requires
            (256 * a) * (256 * a) <= width * width,
            a >= 0,
            width >= 0,
    ;
}

/// The rounds that `flood_passes` picks for `width` reach along each axis
/// beyond every pixel within that width.
proof fn lemma_width_reach(width: u32, kx: int, ky: int)
    requires
        (kx * kx + ky * ky) * (WIDTH_UNITS_PER_PIXEL * WIDTH_UNITS_PER_PIXEL) <= width * width,
    ensures
        -pow2(flood_passes_spec(width)) < kx < pow2(flood_passes_spec(width)),
        -pow2(flood_passes_spec(width)) < ky < pow2(flood_passes_spec(width)),
{
    let passes = flood_passes_spec(width);
    let d2 = kx * kx + ky * ky;
    assert(kx * kx <= d2 && ky * ky <= d2) by (nonlinear_arith)
        requires
            d2 == kx * kx + ky * ky,
    ;
    lemma_within_width_axis(kx, d2, width);
    lemma_within_width_axis(ky, d2, width);
    vstd::arithmetic::power2::lemma2_to64();
    if width == 0 {
        assert(double_width_pixels(width) == 0);
    } else {
        let m = double_width_pixels(width) / 2 + 1;
        lemma_ceil_log2_covers(m);
        vstd::arithmetic::power2::lemma_pow2_unfold(passes);
    }
}

/// With the number of rounds that `flood_passes` picks for `width`, a lone
/// seed reaches every pixel within that width of it: the schedule covers the
/// requested width.
pub proof fn lemma_single_seed_covers_width(g: Grid, sx: int, sy: int, width: u32, x: int, y: int)
    requires
        g.wf(),
        0 <= sx < g.width,
        0 <= sy < g.height,
        g.at(sx, sy).seed is Some,
        only_seed(g, g.at(sx, sy)),
        0 <= x < g.width,
        0 <= y < g.height,
        dist2(x, y, Seed { x: sx as u32, y: sy as u32 }) * (WIDTH_UNITS_PER_PIXEL
            * WIDTH_UNITS_PER_PIXEL) <= width * width,
    ensures
        flood_spec(g, flood_passes_spec(width), flood_passes_spec(width)).at(x, y) == g.at(sx, sy),
{
    lemma_width_reach(width, x - sx, y - sy);
    lemma_flood_reaches(g, sx, sy, flood_passes_spec(width), x, y);
}

/// A seed pixel whose priority is above that of every other seed reaches,
/// with the rounds that `flood_passes` picks for any width not below its
/// owner's, every pixel in its owner's band: there its texel wins over every
/// other outline, however much nearer their seeds are.
pub proof fn lemma_top_priority_seed_wins(g: Grid, sx: int, sy: int, width: u32, x: int, y: int)
    requires
        g.wf(),
        0 <= sx < g.width,
        0 <= sy < g.height,
        g.at(sx, sy).seed == Some(Seed { x: sx as u32, y: sy as u32 }),
        top_priority(g, g.at(sx, sy)),
        g.at(sx, sy).owner.width <= width,
        0 <= x < g.width,
        0 <= y < g.height,
        in_band(g.at(sx, sy), x, y),
    ensures
        flood_spec(g, flood_passes_spec(width), flood_passes_spec(width)).at(x, y) == g.at(sx, sy),
{
    let t = g.at(sx, sy);
    let d2 = dist2(x, y, Seed { x: sx as u32, y: sy as u32 });
    let kx = x - sx;
    let ky = y - sy;
    assert(d2 == kx * kx + ky * ky);
    assert(d2 * (256 * 256) <= width * width) by (nonlinear_arith)
        requires
            d2 * (256 * 256) <= t.owner.width * t.owner.width,
            0 <= t.owner.width <= width,
    ;
    lemma_width_reach(width, kx, ky);
    lemma_flood_reaches(g, sx, sy, flood_passes_spec(width), x, y);
}

/// The offset of candidate `j` along x and y.
fn offset(j: usize) -> (r: (i64, i64))
    requires
        j < 9,
    ensures
        r.0 == offset_x(j as int),
        r.1 == offset_y(j as int),
{
    let cell: i64 = if j == 0 {
        4
    } else if j <= 4 {
        j as i64 - 1
    } else {
        j as i64
    };
    (cell % 3 - 1, cell / 3 - 1)
}

/// `clamp_coord(c + dir * step, limit)`, computed.
fn shifted(c: u32, dir: i64, step: u32, limit: u32) -> (r: u32)
    requires
        -1 <= dir <= 1,
        c < limit,
    ensures
        r == clamp_coord(c + dir * step, limit as int),
{
    let d: i64 = if dir < 0 {
        -(step as i64)
    } else if dir > 0 {
        step as i64
    } else {
        0
    };
    assert(d == dir * step) by (nonlinear_arith)
        requires
            -1 <= dir <= 1,
            dir < 0 ==> d == -step,
            dir > 0 ==> d == step,
            dir == 0 ==> d == 0,
    ;
    let v: i64 = c as i64 + d;
    if v < 0 {
        0
    } else if v >= limit as i64 {
        limit - 1
    } else {
        v as u32
    }
}

/// Squared distance along one axis.
fn axis_dist2(a: u32, b: u32) -> (r: u128)
    ensures
        r == (a - b) * (a - b),
        r < 0x1_0000_0000_0000_0000,
{
    let d: u64 = if a >= b {
        (a - b) as u64
    } else {
        (b - a) as u64
    };
    assert((d as int) * (d as int) == (a - b) * (a - b)) by (nonlinear_arith)
        requires
            d == a - b || d == b - a,
    ;
    assert((d as int) * (d as int) < 0x1_0000_0000_0000_0000) by (nonlinear_arith)
        requires
            d < 0x1_0000_0000,
    ;
    (d as u128) * (d as u128)
}

/// `dist2(x, y, s)`, computed.
pub fn seed_dist2(x: u32, y: u32, s: Seed) -> (r: u128)
    ensures
        r == dist2(x as int, y as int, s),
        r < 0x2_0000_0000_0000_0000,
{
    axis_dist2(x, s.x) + axis_dist2(y, s.y)
}

/// `within_width(x, y, s, width)`, computed.
pub fn seed_within_width(x: u32, y: u32, s: Seed, width: u32) -> (r: bool)
    ensures
        r == within_width(x as int, y as int, s, width),
{
    let d = seed_dist2(x, y, s);
    let w = width as u128;
    let units = WIDTH_UNITS_PER_PIXEL as u128;
    proof {
        assert(w * w < 0x1_0000_0000_0000_0000) by (nonlinear_arith)
            requires
                w < 0x1_0000_0000,
        ;
        assert(d * (units * units) < 0x2_0000_0000_0000_0000 * 65536) by (nonlinear_arith)
            requires
                d < 0x2_0000_0000_0000_0000,
                units == 256,
        ;
    }
    d * (units * units) <= w * w
}

/// `in_band(*t, x, y)`, computed.
fn in_band_exec(t: &Texel, x: u32, y: u32) -> (r: bool)
    ensures
        r == in_band(*t, x as int, y as int),
{
    match t.seed {
        None => false,
        Some(s) => seed_within_width(x, y, s, t.owner.width),
    }
}

/// `beats(*a, *b, x, y)`, computed.
fn beats_exec(a: &Texel, b: &Texel, x: u32, y: u32) -> (r: bool)
    ensures
        r == beats(*a, *b, x as int, y as int),
{
    match a.seed {
        None => false,
        Some(sa) => match b.seed {
            None => true,
            Some(sb) => {
                let da = seed_dist2(x, y, sa);
                let db = seed_dist2(x, y, sb);
                let pa = a.owner.priority;
                let pb = b.owner.priority;
                let decides = (pa > pb && in_band_exec(a, x, y)) || (pb > pa && in_band_exec(b, x, y));
                if decides {
                    pa > pb
                } else {
                    da < db || (da == db && pa > pb)
                }
            },
        },
    }
}

/// The texel that a round with step `step` writes at pixel `(x, y)`.
pub fn nearest_seed(src: &SeedBuffer, x: u32, y: u32, step: u32) -> (t: Texel)
    requires
        src.wf(),
        x < src.width,
        y < src.height,
    ensures
        t == nearest(src@, x as int, y as int, step as int),
{
    let (dx, dy) = offset(0);
    let mut best = src.texel(
        shifted(x, dx, step, src.width),
        shifted(y, dy, step, src.height),
    );
    let mut j: usize = 1;
    while j < 9
        invariant
            src.wf(),
            x < src.width,
            y < src.height,
            1 <= j <= 9,
            best == pick(src@, x as int, y as int, step as int, j as nat),
        decreases 9 - j,
    {
        let (dx, dy) = offset(j);
        let c = src.texel(shifted(x, dx, step, src.width), shifted(y, dy, step, src.height));
        if beats_exec(&c, &best, x, y) {
            best = c;
        }
        j += 1;
    }
    best
}

/// One flood round: every pixel of `dst` receives the best (see `beats`) of
/// the nine candidates that `src` holds around it at distance `step`.
pub fn flood_round(src: &SeedBuffer, dst: &mut SeedBuffer, step: u32)
    requires
        src.wf(),
        old(dst).wf(),
        old(dst).width == src.width,
        old(dst).height == src.height,
    ensures
        final(dst).wf(),
        final(dst)@ == flood_round_spec(src@, step as int),
{
    let n = dst.texels.len();
    let w = src.width;
    let mut i: usize = 0;
    while i < n
        invariant
            src.wf(),
            dst.wf(),
            dst.width == src.width,
            dst.height == src.height,
            w == src.width,
            n == dst.texels@.len(),
            i <= n,
            forall|k: int|
                0 <= k < i ==> #[trigger] dst.texels@[k] == nearest(
                    src@,
                    k % (w as int),
                    k / (w as int),
                    step as int,
                ),
        decreases n - i,
    {
        proof {
            assert(w > 0) by (nonlinear_arith)
                requires
                    i < n,
                    n == w * src.height,
            ;
        }
        let xi: usize = i % (w as usize);
        let yi: usize = i / (w as usize);
        proof {
            assert(yi < src.height) by (nonlinear_arith)
                requires
                    i < n,
                    n == w * src.height,
                    yi == (i as int) / (w as int),
                    w > 0,
            ;
        }
        let x = xi as u32;
        let y = yi as u32;
        let t = nearest_seed(src, x, y, step);
        dst.texels.set(i, t);
        i += 1;
    }
    assert(dst@.texels =~= flood_round_spec(src@, step as int).texels);
}

/// The two equally sized buffers that flood rounds alternate between: each
/// round reads `input` and writes `output`, and the two are swapped before
/// the next round.
#[derive(Debug)]
pub struct FloodTextures {
    pub input: SeedBuffer,
    pub output: SeedBuffer,
}

impl FloodTextures {
    pub open spec fn wf(&self) -> bool {
        &&& self.input.wf()
        &&& self.output.wf()
        &&& self.input.width == self.output.width
        &&& self.input.height == self.output.height
    }

    pub open spec fn width(&self) -> u32 {
        self.output.width
    }

    pub open spec fn height(&self) -> u32 {
        self.output.height
    }

    /// Two cleared buffers of the given size.
    pub fn new(width: u32, height: u32) -> (t: FloodTextures)
        requires
            width * height <= usize::MAX,
        ensures
            t.wf(),
            t.input@ == Grid::cleared(width, height),
            t.output@ == Grid::cleared(width, height),
    {
        FloodTextures {
            input: SeedBuffer::cleared(width, height),
            output: SeedBuffer::cleared(width, height),
        }
    }

    /// The size of both buffers.
    pub fn size(&self) -> (r: (u32, u32))
        ensures
            r == (self.output.width, self.output.height),
    {
        (self.output.width, self.output.height)
    }

    /// Swaps the roles of the two buffers.
    pub fn flip(&mut self)
        ensures
            final(self).input == old(self).output,
            final(self).output == old(self).input,
    {
        core::mem::swap(&mut self.input, &mut self.output);
    }
}

/// Runs `passes` flood rounds with steps `2^(passes-1), ..., 2, 1`, starting
/// from the seeds in `textures.output` and leaving the result there. With no
/// rounds the buffers are left as they are.
pub fn jump_flood(textures: &mut FloodTextures, passes: u32)
    requires
        old(textures).wf(),
        passes <= 32,
    ensures
        final(textures).wf(),
        final(textures).width() == old(textures).width(),
        final(textures).height() == old(textures).height(),
        final(textures).output@ == flood_spec(old(textures).output@, passes as nat, passes as nat),
{
    if passes == 0 {
        return;
    }
    let ghost start = textures.output@;
    let mut step: u32 = 1;
    let mut e: u32 = 0;
    proof {
        vstd::arithmetic::power2::lemma2_to64();
    }
    while e + 1 < passes
        invariant
            e + 1 <= passes <= 32,
            step == pow2(e as nat),
        decreases passes - e,
    {
        proof {
            vstd::arithmetic::power2::lemma_pow2_unfold((e + 1) as nat);
            vstd::arithmetic::power2::lemma_pow2_strictly_increases((e + 1) as nat, 32);
            vstd::arithmetic::power2::lemma2_to64();
        }
        step = step * 2;
        e = e + 1;
    }
    let mut r: u32 = 0;
    while r < passes
        invariant
            textures.wf(),
            textures.width() == start.width,
            textures.height() == start.height,
            r <= passes <= 32,
            r < passes ==> step == step_of(passes as nat, r as nat),
            textures.output@ == flood_spec(start, passes as nat, r as nat),
        decreases passes - r,
    {
        textures.flip();
        flood_round(&textures.input, &mut textures.output, step);
        proof {
            if r + 1 < passes {
                vstd::arithmetic::power2::lemma_pow2_unfold((passes - 1 - r) as nat);
            }
        }
        step = step / 2;
        r = r + 1;
    }
}

} // verus!
