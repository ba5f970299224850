//! The double-buffered generation engine.
use vstd::prelude::*;
use crate::rule::{is_grid, live_neighbors, next_gen, lemma_live_neighbors_unfold};

verus! {

/// A grid stored column by column: `map[x][y]` is the cell at `(x, y)`.
pub type CellMap = Vec<Vec<bool>>;

/// The cells of a `CellMap` as a sequence of columns.
pub open spec fn map_view(m: CellMap) -> Seq<Seq<bool>> {
    m@.map_values(|c: Vec<bool>| c@)
}

/// A Life grid with two buffers of equal extent: `current` is the state that
/// callers observe, `next` is scratch space for computing the following
/// generation.
pub struct Cells {
    current: CellMap,
    next: CellMap,
    width: u32,
    height: u32,
}

/// Relies on rand::random::<bool>: a fair coin flip from the thread-local
/// generator. Nothing is promised of the value drawn.
#[verifier::external_body]
fn coin_flip() -> (r: bool) {
    rand::random::<bool>()
}

/// A `width` by `height` map with every cell dead.
fn blank_map(width: u32, height: u32) -> (m: CellMap)
    ensures
        map_view(m) == Seq::new(width as nat, |x: int| Seq::new(height as nat, |y: int| false)),
{
    let mut m: CellMap = Vec::with_capacity(width as usize);
    let mut x: u32 = 0;
    while x < width
        invariant
            x <= width,
            map_view(m) == Seq::new(x as nat, |i: int| Seq::new(height as nat, |y: int| false)),
        decreases width - x,
    {
        let mut column: Vec<bool> = Vec::with_capacity(height as usize);
        let mut y: u32 = 0;
        while y < height
            invariant
                y <= height,
                column@ == Seq::new(y as nat, |j: int| false),
            decreases height - y,
        {
            column.push(false);
            y = y + 1;
            assert(column@ =~= Seq::new(y as nat, |j: int| false));
        }
        let ghost before = map_view(m);
        m.push(column);
        x = x + 1;
        assert(map_view(m) =~= before.push(column@));
        assert(map_view(m) =~= Seq::new(x as nat, |i: int| Seq::new(height as nat, |y: int| false)));
    }
    m
}

/// The grid that `w * h` coin flips make when laid out column by column:
/// cell `(x, y)` is draw number `x * h + y`.
pub open spec fn grid_of_draws(w: int, h: int, d: Seq<bool>) -> Seq<Seq<bool>> {
    Seq::new(w as nat, |x: int| Seq::new(h as nat, |y: int| d[x * h + y]))
}

/// Draws laid out column by column form a grid of the given extent.
proof fn lemma_draws_form_grid(w: int, h: int, d: Seq<bool>)
    requires
        w > 0,
        h > 0,
    ensures
        is_grid(grid_of_draws(w, h, d), w, h),
{
    assert forall|x: int| 0 <= x < w implies (#[trigger] grid_of_draws(w, h, d)[x]).len() == h by {}
}

/// Lays out `width * height` coin flips as a map, column by column: cell
/// `(x, y)` takes draw number `x * height + y`.
pub fn map_from_draws(width: u32, height: u32, draws: &Vec<bool>) -> (m: CellMap)
    requires
        draws@.len() == width as int * height as int,
    ensures
        map_view(m) == grid_of_draws(width as int, height as int, draws@),
{
    let ghost w = width as int;
    let ghost h = height as int;
    let mut m: CellMap = Vec::with_capacity(width as usize);
    let n = draws.len();
    let mut i: usize = 0;
    let mut x: u32 = 0;
    while x < width
        invariant
            x <= width,
            n == draws@.len(),
            draws@.len() == w * h,
            i == x as int * h,
            w == width as int,
            h == height as int,
            map_view(m) == Seq::new(x as nat, |a: int| Seq::new(height as nat, |b: int| draws@[a * h + b])),
        decreases width - x,
    {
        let mut column: Vec<bool> = Vec::with_capacity(height as usize);
        let mut y: u32 = 0;
        while y < height
            invariant
                x < width,
                y <= height,
                n == draws@.len(),
                draws@.len() == w * h,
                w == width as int,
                h == height as int,
                i == x as int * h + y,
                column@ == Seq::new(y as nat, |b: int| draws@[x as int * h + b]),
            decreases height - y,
        {
            assert(x as int * h + y < w * h) by (nonlinear_arith)
                requires
                    x < w,
                    y < h,
            ;
            column.push(draws[i]);
            i = i + 1;
            y = y + 1;
            assert(column@ =~= Seq::new(y as nat, |b: int| draws@[x as int * h + b]));
        }
        let ghost before = map_view(m);
        m.push(column);
        assert(i == (x + 1) as int * h) by (nonlinear_arith)
            requires
                i == x as int * h + h,
        ;
        x = x + 1;
        assert(map_view(m) =~= before.push(column@));
        assert(map_view(m) =~= Seq::new(x as nat, |a: int| Seq::new(height as nat, |b: int| draws@[a * h + b])));
    }
    m
}

/// One for a live cell, zero for a dead one.
fn cell_count(column: &Vec<bool>, y: usize) -> (n: u8)
    requires
        y < column@.len(),
    ensures
        n == if column@[y as int] { 1u8 } else { 0u8 },
{
    if column[y] { 1 } else { 0 }
}

impl Cells {
    /// The current generation, column by column.
    pub closed spec fn grid(&self) -> Seq<Seq<bool>> {
        map_view(self.current)
    }

    /// The scratch buffer.
    pub closed spec fn scratch(&self) -> Seq<Seq<bool>> {
        map_view(self.next)
    }

    /// The number of columns.
    pub closed spec fn width_spec(&self) -> int {
        self.width as int
    }

    /// The number of cells in each column.
    pub closed spec fn height_spec(&self) -> int {
        self.height as int
    }

    /// Both buffers are grids of the engine's extent.
    pub closed spec fn wf(&self) -> bool {
        &&& is_grid(self.grid(), self.width as int, self.height as int)
        &&& is_grid(self.scratch(), self.width as int, self.height as int)
    }

    /// Counts the live toroidal neighbours of `(x, y)` in the current buffer.
    #[verifier::spinoff_prover]
    #[verifier::rlimit(40)]
    fn alive_neighbors(&self, x: u32, y: u32) -> (n: u8)
        requires
            self.wf(),
            x < self.width,
            y < self.height,
        ensures
            n as int == live_neighbors(self.grid(), self.width as int, self.height as int, x as int, y as int),
    {
        let w = self.width;
        let h = self.height;
        proof {
            lemma_live_neighbors_unfold(self.grid(), w as int, h as int, x as int, y as int);
        }
        let x0: usize = if x == 0 { (w - 1) as usize } else { (x - 1) as usize };
        let x1: usize = x as usize;
        let x2: usize = if x + 1 == w { 0 } else { (x + 1) as usize };
        let y0: usize = if y == 0 { (h - 1) as usize } else { (y - 1) as usize };
        let y1: usize = y as usize;
        let y2: usize = if y + 1 == h { 0 } else { (y + 1) as usize };
        let ghost g = self.grid();
        assert(g[x0 as int] == self.current@[x0 as int]@ && g[x0 as int].len() == h);
        assert(g[x1 as int] == self.current@[x1 as int]@ && g[x1 as int].len() == h);
        assert(g[x2 as int] == self.current@[x2 as int]@ && g[x2 as int].len() == h);
        let c0 = &self.current[x0];
        let c1 = &self.current[x1];
        let c2 = &self.current[x2];
        let n: u8 = cell_count(c0, y0) + cell_count(c1, y0) + cell_count(c2, y0)
            + cell_count(c0, y1) + cell_count(c2, y1)
            + cell_count(c0, y2) + cell_count(c1, y2) + cell_count(c2, y2);
        n
    }

    /// Writes the generation that follows `current` into `next`, reading
    /// `current` only.
    fn step(&mut self)
        requires
            old(self).wf(),
        ensures
            final(self).wf(),
            final(self).current == old(self).current,
            final(self).width == old(self).width,
            final(self).height == old(self).height,
            final(self).scratch() == next_gen(old(self).grid(), old(self).width as int, old(self).height as int),
    {
        let w = self.width;
        let h = self.height;
        let ghost g = self.grid();
        let ghost target = next_gen(g, w as int, h as int);
        let mut x: u32 = 0;
        while x < w
            invariant
                self.wf(),
                self.current == old(self).current,
                self.width == w,
                self.height == h,
                g == self.grid(),
                target == next_gen(g, w as int, h as int),
                x <= w,
                forall|i: int| 0 <= i < x ==> #[trigger] self.scratch()[i] == target[i],
            decreases w - x,
        {
            let mut y: u32 = 0;
            while y < h
                invariant
                    self.wf(),
                    self.current == old(self).current,
                    self.width == w,
                    self.height == h,
                    g == self.grid(),
                    target == next_gen(g, w as int, h as int),
                    x < w,
                    y <= h,
                    forall|i: int| 0 <= i < x ==> #[trigger] self.scratch()[i] == target[i],
                    forall|j: int| 0 <= j < y ==> #[trigger] self.scratch()[x as int][j] == target[x as int][j],
                decreases h - y,
            {
                let n = self.alive_neighbors(x, y);
                let alive = self.current[x as usize][y as usize];
                let v = n == 3 || (alive && n == 2);
                assert(self.scratch()[x as int] == self.next@[x as int]@);
                let ghost before = self.scratch();
                self.next[x as usize].set(y as usize, v);
                assert(self.scratch() =~= before.update(x as int, before[x as int].update(y as int, v)));
                y = y + 1;
            }
            assert(self.scratch()[x as int] =~= target[x as int]);
            x = x + 1;
        }
        assert(self.scratch() =~= target);
    }

    /// A `width` by `height` map whose every cell is an independent fair coin
    /// flip: `width * height` draws laid out column by column.
    fn generate_random(width: u32, height: u32) -> (m: CellMap)
        ensures
            exists|d: Seq<bool>| d.len() == width as int * height as int
                && map_view(m) == #[trigger] grid_of_draws(width as int, height as int, d),
    {
        let mut draws: Vec<bool> = Vec::new();
        let mut x: u32 = 0;
        while x < width
            invariant
                x <= width,
                draws@.len() == x as int * height as int,
            decreases width - x,
        {
            let mut y: u32 = 0;
            while y < height
                invariant
                    x < width,
                    y <= height,
                    draws@.len() == x as int * height as int + y,
                decreases height - y,
            {
                draws.push(coin_flip());
                y = y + 1;
            }
            assert(draws@.len() == (x + 1) as int * height as int) by (nonlinear_arith)
                requires
                    draws@.len() == x as int * height as int + height as int,
            ;
            x = x + 1;
        }
        let m = map_from_draws(width, height, &draws);
        assert(map_view(m) == grid_of_draws(width as int, height as int, draws@));
        m
    }

    /// A grid of `width` columns of `height` cells, each alive or dead by an
    /// independent fair coin flip; the scratch buffer starts all dead. Both
    /// dimensions must be positive.
    pub fn new(width: u32, height: u32) -> (r: Cells)
        requires
            width > 0,
            height > 0,
        ensures
            r.wf(),
            is_grid(r.grid(), width as int, height as int),
            exists|d: Seq<bool>| d.len() == width as int * height as int
                && r.grid() == #[trigger] grid_of_draws(width as int, height as int, d),
            r.width_spec() == width,
            r.height_spec() == height,
            r.scratch() == Seq::new(width as nat, |x: int| Seq::new(height as nat, |y: int| false)),
    {
        let current = Self::generate_random(width, height);
        let next = blank_map(width, height);
        let r = Cells { current, next, width, height };
        proof {
            let d = choose|d: Seq<bool>| d.len() == width as int * height as int
                && map_view(current) == #[trigger] grid_of_draws(width as int, height as int, d);
            lemma_draws_form_grid(width as int, height as int, d);
        }
        r
    }

    /// A grid whose current generation is laid out from `draws`, column by
    /// column, with an all-dead scratch buffer: the seeding of `new` with the
    /// coin flips given instead of drawn.
    pub fn from_draws(width: u32, height: u32, draws: &Vec<bool>) -> (r: Cells)
        requires
            width > 0,
            height > 0,
            draws@.len() == width as int * height as int,
        ensures
            r.wf(),
            r.grid() == grid_of_draws(width as int, height as int, draws@),
            r.width_spec() == width,
            r.height_spec() == height,
            r.scratch() == Seq::new(width as nat, |x: int| Seq::new(height as nat, |y: int| false)),
    {
        let current = map_from_draws(width, height, draws);
        let next = blank_map(width, height);
        proof {
            lemma_draws_form_grid(width as int, height as int, draws@);
        }
        Cells { current, next, width, height }
    }

    /// A grid whose current generation is `cells`, indexed `[x][y]`, with an
    /// all-dead scratch buffer. `None` unless `cells` is a non-empty rectangle
    /// of non-empty columns whose extent fits in `u32`.
    pub fn from_cells(cells: CellMap) -> (r: Option<Cells>)
        ensures
            r is Some <==> (cells@.len() <= u32::MAX && cells@.len() > 0
                && cells@[0]@.len() <= u32::MAX
                && is_grid(map_view(cells), cells@.len() as int, cells@[0]@.len() as int)),
            r matches Some(c) ==> {
                &&& c.wf()
                &&& c.grid() == map_view(cells)
                &&& c.width_spec() == cells@.len()
                &&& c.height_spec() == cells@[0]@.len()
                &&& c.scratch() == Seq::new(cells@.len(), |x: int| Seq::new(cells@[0]@.len(), |y: int| false))
            },
    {
        if cells.len() == 0 || cells.len() > u32::MAX as usize {
            return None;
        }
        let h = cells[0].len();
        if h == 0 || h > u32::MAX as usize {
            return None;
        }
        let mut x: usize = 0;
        while x < cells.len()
            invariant
                x <= cells@.len(),
                h == cells@[0]@.len(),
                forall|i: int| 0 <= i < x ==> (#[trigger] map_view(cells)[i]).len() == h,
            decreases cells@.len() - x,
        {
            if cells[x].len() != h {
                assert(map_view(cells)[x as int].len() != h);
                return None;
            }
            x = x + 1;
        }
        let width = cells.len() as u32;
        let height = h as u32;
        let next = blank_map(width, height);
        Some(Cells { current: cells, next, width, height })
    }

    /// Exchanges the roles of the two buffers, in constant time.
    fn swap(&mut self)
        ensures
            final(self).current == old(self).next,
            final(self).next == old(self).current,
            final(self).width == old(self).width,
            final(self).height == old(self).height,
    {
        std::mem::swap(&mut self.current, &mut self.next);
    }

    /// Advances the grid by exactly one generation. The new generation is
    /// computed from the current one alone, whatever the scratch buffer held;
    /// the previous generation becomes the scratch buffer.
    pub fn update(&mut self)
        requires
            old(self).wf(),
        ensures
            final(self).wf(),
            final(self).width_spec() == old(self).width_spec(),
            final(self).height_spec() == old(self).height_spec(),
            final(self).grid() == next_gen(old(self).grid(), old(self).width_spec(), old(self).height_spec()),
            final(self).scratch() == old(self).grid(),
    {
        self.step();
        self.swap();
    }

    /// A read-only view of the current generation, indexed `[x][y]`.
    pub fn borrow_cells(&self) -> (r: &CellMap)
        ensures
            map_view(*r) == self.grid(),
    {
        &self.current
    }

    /// The number of columns.
    pub fn width(&self) -> (r: u32)
        ensures
            r == self.width_spec(),
    {
        self.width
    }

    /// The number of cells in each column.
    pub fn height(&self) -> (r: u32)
        ensures
            r == self.height_spec(),
    {
        self.height
    }
}

/// A well-formed engine's current grid and scratch buffer both have its
/// extent: `width` columns of `height` cells.
pub proof fn lemma_wf_extent(c: Cells)
    requires
        c.wf(),
    ensures
        is_grid(c.grid(), c.width_spec(), c.height_spec()),
        is_grid(c.scratch(), c.width_spec(), c.height_spec()),
{
}

/// The generation that `update` produces depends on the current grid and the
/// extent alone: two engines that agree on those advance to the same grid,
/// however their scratch buffers differ.
pub proof fn lemma_update_deterministic(a: Cells, b: Cells)
    requires
        a.wf(),
        b.wf(),
        a.grid() == b.grid(),
        a.width_spec() == b.width_spec(),
        a.height_spec() == b.height_spec(),
    ensures
        next_gen(a.grid(), a.width_spec(), a.height_spec())
            == next_gen(b.grid(), b.width_spec(), b.height_spec()),
{
}

} // verus!
