//! The mathematical model of a Life grid: its shape, toroidal neighbourhood
//! and the standard birth/survival rule.
use vstd::prelude::*;
use vstd::arithmetic::div_mod::{lemma_small_mod, lemma_mod_add_multiples_vanish, lemma_mod_self_0};

verus! {

/// A grid of `w` columns of `h` cells each, indexed `g[x][y]`, with both
/// dimensions positive.
pub open spec fn is_grid(g: Seq<Seq<bool>>, w: int, h: int) -> bool {
    &&& w > 0
    &&& h > 0
    &&& g.len() == w
    &&& forall|x: int| 0 <= x < w ==> (#[trigger] g[x]).len() == h
}

/// A coordinate reduced modulo the grid's extent along its axis.
pub open spec fn wrap(i: int, n: int) -> int {
    i % n
}

/// One for a live cell, zero for a dead one.
pub open spec fn alive_count(g: Seq<Seq<bool>>, x: int, y: int) -> int {
    if g[x][y] { 1 } else { 0 }
}

/// The number of live cells among the eight toroidal neighbours of `(x, y)`.
pub open spec fn live_neighbors(g: Seq<Seq<bool>>, w: int, h: int, x: int, y: int) -> int {
    let xl = wrap(x - 1, w);
    let xr = wrap(x + 1, w);
    let yu = wrap(y - 1, h);
    let yd = wrap(y + 1, h);
    alive_count(g, xl, yu) + alive_count(g, x, yu) + alive_count(g, xr, yu)
        + alive_count(g, xl, y) + alive_count(g, xr, y)
        + alive_count(g, xl, yd) + alive_count(g, x, yd) + alive_count(g, xr, yd)
}

/// The standard Life rule: born on exactly three live neighbours, survives on
/// two or three, dead otherwise.
pub open spec fn life_rule(alive: bool, n: int) -> bool {
    n == 3 || (alive && n == 2)
}

/// The generation that follows `g`, every cell computed from `g` alone.
pub open spec fn next_gen(g: Seq<Seq<bool>>, w: int, h: int) -> Seq<Seq<bool>> {
    Seq::new(
        w as nat,
        |x: int| Seq::new(h as nat, |y: int| life_rule(g[x][y], live_neighbors(g, w, h, x, y))),
    )
}

/// The grid after `n` generations.
pub open spec fn generations(g: Seq<Seq<bool>>, w: int, h: int, n: nat) -> Seq<Seq<bool>>
    decreases n,
{
    if n == 0 {
        g
    } else {
        next_gen(generations(g, w, h, (n - 1) as nat), w, h)
    }
}

/// The neighbour count of an interior or edge cell, written with the wrapped
/// coordinates spelt out as the cells either side of it.
pub proof fn lemma_live_neighbors_unfold(g: Seq<Seq<bool>>, w: int, h: int, x: int, y: int)
    requires
        0 <= x < w,
        0 <= y < h,
    ensures
        ({
            let xl = if x == 0 { w - 1 } else { x - 1 };
            let xr = if x + 1 == w { 0 } else { x + 1 };
            let yu = if y == 0 { h - 1 } else { y - 1 };
            let yd = if y + 1 == h { 0 } else { y + 1 };
            live_neighbors(g, w, h, x, y) == alive_count(g, xl, yu) + alive_count(g, x, yu)
                + alive_count(g, xr, yu) + alive_count(g, xl, y) + alive_count(g, xr, y)
                + alive_count(g, xl, yd) + alive_count(g, x, yd) + alive_count(g, xr, yd)
        }),
{
    lemma_wrap_step(x, w);
    lemma_wrap_step(y, h);
}

/// Wrapping a coordinate one step either way stays on the grid and needs no
/// division: it is a comparison with the edges.
pub proof fn lemma_wrap_step(i: int, n: int)
    requires
        0 <= i < n,
    ensures
        wrap(i, n) == i,
        wrap(i - 1, n) == if i == 0 { n - 1 } else { i - 1 },
        wrap(i + 1, n) == if i + 1 == n { 0 } else { i + 1 },
{
    lemma_small_mod(i as nat, n as nat);
    if i == 0 {
        lemma_mod_add_multiples_vanish(-1, n);
        lemma_small_mod((n - 1) as nat, n as nat);
    } else {
        lemma_small_mod((i - 1) as nat, n as nat);
    }
    if i + 1 == n {
        lemma_mod_self_0(n);
    } else {
        lemma_small_mod((i + 1) as nat, n as nat);
    }
}

/// The next generation of a grid has the grid's extent.
pub proof fn lemma_next_gen_is_grid(g: Seq<Seq<bool>>, w: int, h: int)
    requires
        is_grid(g, w, h),
    ensures
        is_grid(next_gen(g, w, h), w, h),
{
    assert forall|x: int| 0 <= x < w implies (#[trigger] next_gen(g, w, h)[x]).len() == h by {}
}

/// However many generations pass, the grid keeps its `w` by `h` extent.
pub proof fn lemma_generations_keep_extent(g: Seq<Seq<bool>>, w: int, h: int, n: nat)
    requires
        is_grid(g, w, h),
    ensures
        is_grid(generations(g, w, h, n), w, h),
    decreases n,
{
    if n > 0 {
        lemma_generations_keep_extent(g, w, h, (n - 1) as nat);
        lemma_next_gen_is_grid(generations(g, w, h, (n - 1) as nat), w, h);
    }
}

/// A live cell stays alive exactly when it has two or three live neighbours,
/// and dies with none, one, or four or more; a dead cell comes alive exactly
/// when it has three.
pub proof fn lemma_survival_and_birth(g: Seq<Seq<bool>>, w: int, h: int, x: int, y: int)
    requires
        is_grid(g, w, h),
        0 <= x < w,
        0 <= y < h,
    ensures
        ({
            let n = live_neighbors(g, w, h, x, y);
            &&& g[x][y] ==> (next_gen(g, w, h)[x][y] <==> (n == 2 || n == 3))
            &&& g[x][y] && (n <= 1 || n >= 4) ==> !next_gen(g, w, h)[x][y]
            &&& !g[x][y] ==> (next_gen(g, w, h)[x][y] <==> n == 3)
        }),
{
}

/// The eight neighbours of the corner `(0, 0)` wrap across both edges: on a
/// grid of at least three cells each way they are the far column `w - 1`,
/// the far row `h - 1`, and the far corner `(w - 1, h - 1)` among them.
pub proof fn lemma_corner_neighbors(g: Seq<Seq<bool>>, w: int, h: int)
    requires
        is_grid(g, w, h),
        w >= 3,
        h >= 3,
    ensures
        live_neighbors(g, w, h, 0, 0) == alive_count(g, w - 1, h - 1) + alive_count(g, 0, h - 1)
            + alive_count(g, 1, h - 1) + alive_count(g, w - 1, 0) + alive_count(g, 1, 0)
            + alive_count(g, w - 1, 1) + alive_count(g, 0, 1) + alive_count(g, 1, 1),
{
    lemma_live_neighbors_unfold(g, w, h, 0, 0);
}

/// Whether `(x, y)` is one of the four cells of the 2x2 block whose corner
/// nearest the origin is `(bx, by)`, the block wrapping across an edge where
/// it meets one.
pub open spec fn in_block(w: int, h: int, bx: int, by: int, x: int, y: int) -> bool {
    (x == bx || x == wrap(bx + 1, w)) && (y == by || y == wrap(by + 1, h))
}

/// A 2x2 block of live cells on an otherwise dead grid of at least four
/// cells each way is a still life wherever it stands, across the wrap seam
/// too: the next generation equals it.
pub proof fn lemma_block_still_life(g: Seq<Seq<bool>>, w: int, h: int, bx: int, by: int)
    requires
        is_grid(g, w, h),
        w >= 4,
        h >= 4,
        0 <= bx < w,
        0 <= by < h,
        forall|x: int, y: int| 0 <= x < w && 0 <= y < h ==> #[trigger] g[x][y] == in_block(w, h, bx, by, x, y),
    ensures
        next_gen(g, w, h) == g,
{
    lemma_wrap_step(bx, w);
    lemma_wrap_step(by, h);
    let n = next_gen(g, w, h);
    assert forall|x: int| 0 <= x < w implies #[trigger] n[x] == g[x] by {
        assert forall|y: int| 0 <= y < h implies #[trigger] n[x][y] == g[x][y] by {
            lemma_live_neighbors_unfold(g, w, h, x, y);
            let xl = if x == 0 { w - 1 } else { x - 1 };
            let xr = if x + 1 == w { 0 } else { x + 1 };
            let yu = if y == 0 { h - 1 } else { y - 1 };
            let yd = if y + 1 == h { 0 } else { y + 1 };
            assert(g[xl][yu] == in_block(w, h, bx, by, xl, yu));
            assert(g[x][yu] == in_block(w, h, bx, by, x, yu));
            assert(g[xr][yu] == in_block(w, h, bx, by, xr, yu));
            assert(g[xl][y] == in_block(w, h, bx, by, xl, y));
            assert(g[xr][y] == in_block(w, h, bx, by, xr, y));
            assert(g[xl][yd] == in_block(w, h, bx, by, xl, yd));
            assert(g[x][yd] == in_block(w, h, bx, by, x, yd));
            assert(g[xr][yd] == in_block(w, h, bx, by, xr, yd));
            assert(g[x][y] == in_block(w, h, bx, by, x, y));
        }
        assert(n[x] =~= g[x]);
    }
    assert(n =~= g);
}

} // verus!
