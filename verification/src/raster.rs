//! Regions of a pixel grid picked by colour: the flood fill of the bucket and
//! the magic wand, the selection of every pixel of a colour, and the
//! operations on such a region (its bounding box, filling it, lifting it out
//! of a layer).
use vstd::prelude::*;
use crate::color::Color;
use crate::grid::{lemma_cell_in_grid, lemma_cell_split, lemma_cell_unique};
use crate::layer::{color_in_bytes, Layer, LayerView};
use crate::grid::lemma_grid_size;

verus! {

/// How far apart two channel values are.
pub open spec fn channel_gap(a: u8, b: u8) -> int {
    if a >= b { a - b } else { b - a }
}

/// Every channel of `c` lies within `tol` of the same channel of `target`.
pub open spec fn within(c: Color, target: Color, tol: int) -> bool {
    &&& channel_gap(c.r, target.r) <= tol
    &&& channel_gap(c.g, target.g) <= tol
    &&& channel_gap(c.b, target.b) <= tol
    &&& channel_gap(c.a, target.a) <= tol
}

/// Two cells side by side or one right above the other.
pub open spec fn adjacent(p: (int, int), q: (int, int)) -> bool {
    ||| p.1 == q.1 && (p.0 + 1 == q.0 || q.0 + 1 == p.0)
    ||| p.0 == q.0 && (p.1 + 1 == q.1 || q.1 + 1 == p.1)
}

/// The flag of cell `p` of a `w`-wide grid, row by row.
pub open spec fn marked(mask: Seq<bool>, w: int, p: (int, int)) -> bool {
    mask[p.1 * w + p.0]
}

/// A `w` × `h` grid of RGBA pixels (four bytes each, row by row) and a test
/// on colours: a pixel passes when it lies within `tol` of `target`.
pub struct ColorTest {
    pub rgba: Seq<u8>,
    pub w: int,
    pub h: int,
    pub target: Color,
    pub tol: int,
}

/// Step `i` of a walk goes to a neighbouring cell.
pub open spec fn step_ok(path: Seq<(int, int)>, i: int) -> bool {
    adjacent(path[i], path[i + 1])
}

impl ColorTest {
    pub open spec fn on_grid(self, p: (int, int)) -> bool {
        0 <= p.0 < self.w && 0 <= p.1 < self.h
    }

    /// The colour of cell `p`.
    pub open spec fn pixel(self, p: (int, int)) -> Color {
        color_in_bytes(self.rgba, p.1 * self.w + p.0)
    }

    /// Cell `p` lies on the grid and its colour passes the test.
    pub open spec fn passes(self, p: (int, int)) -> bool {
        self.on_grid(p) && within(self.pixel(p), self.target, self.tol)
    }

    /// A walk from cell to neighbouring cell through cells that pass.
    pub open spec fn is_walk(self, path: Seq<(int, int)>) -> bool {
        &&& path.len() > 0
        &&& forall|i: int| 0 <= i < path.len() ==> self.passes(#[trigger] path[i])
        &&& forall|i: int| 0 <= i < path.len() - 1 ==> #[trigger] step_ok(path, i)
    }

    /// Cell `p` is reached from `seed` by a walk: it belongs to the region
    /// that a flood from `seed` fills.
    pub open spec fn reaches(self, seed: (int, int), p: (int, int)) -> bool {
        exists|path: Seq<(int, int)>| #[trigger] self.is_walk(path) && path[0] == seed && path.last() == p
    }

    /// The grid of `self` with the test for the colour of `seed`.
    pub open spec fn from_seed(rgba: Seq<u8>, w: int, h: int, seed: (int, int), tol: int) -> ColorTest {
        let g = ColorTest { rgba, w, h, target: Color { r: 0, g: 0, b: 0, a: 0 }, tol };
        ColorTest { target: g.pixel(seed), ..g }
    }
}

/// The number of set flags.
pub open spec fn count_marked(s: Seq<bool>) -> nat
    decreases s.len(),
{
    if s.len() == 0 {
        0
    } else {
        count_marked(s.drop_last()) + if s.last() { 1nat } else { 0nat }
    }
}

proof fn lemma_count_bound(s: Seq<bool>)
    ensures
        count_marked(s) <= s.len(),
    decreases s.len(),
{
    if s.len() > 0 {
        lemma_count_bound(s.drop_last());
    }
}

proof fn lemma_count_set(s: Seq<bool>, i: int)
    requires
        0 <= i < s.len(),
        !s[i],
    ensures
        count_marked(s.update(i, true)) == count_marked(s) + 1,
    decreases s.len(),
{
    let t = s.update(i, true);
    if i == s.len() - 1 {
        assert(t.drop_last() =~= s.drop_last());
    } else {
        lemma_count_set(s.drop_last(), i);
        assert(t.drop_last() =~= s.drop_last().update(i, true));
    }
}

/// Whatever holds every cell that passes next to one of its own cells, and
/// the first cell of a walk, holds every cell of the walk.
proof fn lemma_closed_holds_walk(g: ColorTest, mask: Seq<bool>, path: Seq<(int, int)>, k: int)
    requires
        g.is_walk(path),
        marked(mask, g.w, path[0]),
        forall|p: (int, int), q: (int, int)|
            g.on_grid(p) && #[trigger] marked(mask, g.w, p) && adjacent(p, q) && g.passes(q) ==> #[trigger] marked(
                mask,
                g.w,
                q,
            ),
        0 <= k < path.len(),
    ensures
        marked(mask, g.w, path[k]),
    decreases k,
{
    if k > 0 {
        lemma_closed_holds_walk(g, mask, path, k - 1);
        assert(step_ok(path, k - 1));
        assert(g.passes(path[k - 1]));
        assert(g.passes(path[k]));
    }
}

/// A walk to a cell, one step longer.
proof fn lemma_walk_extends(g: ColorTest, seed: (int, int), p: (int, int), q: (int, int))
    requires
        g.reaches(seed, p),
        adjacent(p, q),
        g.passes(q),
    ensures
        g.reaches(seed, q),
{
    let path = choose|path: Seq<(int, int)>| #[trigger] g.is_walk(path) && path[0] == seed && path.last() == p;
    let longer = path.push(q);
    assert forall|i: int| 0 <= i < longer.len() implies g.passes(#[trigger] longer[i]) by {
        if i < path.len() {
            assert(longer[i] == path[i]);
        }
    }
    assert forall|i: int| 0 <= i < longer.len() - 1 implies #[trigger] step_ok(longer, i) by {
        if i < path.len() - 1 {
            assert(step_ok(path, i));
        }
    }
    assert(g.is_walk(longer));
}

/// The colour of pixel `q` of an RGBA buffer.
fn read_pixel(rgba: &[u8], q: usize) -> (c: Color)
    requires
        4 * q + 4 <= rgba@.len(),
    ensures
        c == color_in_bytes(rgba@, q as int),
{
    let len = rgba.len();
    let i = 4 * q;
    Color { r: rgba[i], g: rgba[i + 1], b: rgba[i + 2], a: rgba[i + 3] }
}

fn channel_within(a: u8, b: u8, tol: i32) -> (ok: bool)
    ensures
        ok == (channel_gap(a, b) <= tol),
{
    let d: i32 = if a >= b { (a - b) as i32 } else { (b - a) as i32 };
    d <= tol
}

/// Whether every channel of `c` lies within `tol` of `target`.
pub fn is_within(c: Color, target: Color, tol: i32) -> (ok: bool)
    ensures
        ok == within(c, target, tol as int),
{
    channel_within(c.r, target.r, tol) && channel_within(c.g, target.g, tol) && channel_within(
        c.b,
        target.b,
        tol,
    ) && channel_within(c.a, target.a, tol)
}

/// The cells left to look at hold nothing off the grid, and each is the
/// seed or a neighbour of a marked cell.
spec fn stack_ok(g: ColorTest, mask: Seq<bool>, seed: (int, int), stack: Seq<(usize, usize)>) -> bool {
    forall|k: int|
        #![trigger stack[k]]
        0 <= k < stack.len() ==> {
            let e = (stack[k].0 as int, stack[k].1 as int);
            &&& g.on_grid(e)
            &&& (e == seed || next_to_marked(g, mask, e))
        }
}

/// One of the four neighbours of `e` lies on the grid and is marked.
spec fn next_to_marked(g: ColorTest, mask: Seq<bool>, e: (int, int)) -> bool {
    ||| g.on_grid((e.0 + 1, e.1)) && marked(mask, g.w, (e.0 + 1, e.1))
    ||| g.on_grid((e.0 - 1, e.1)) && marked(mask, g.w, (e.0 - 1, e.1))
    ||| g.on_grid((e.0, e.1 + 1)) && marked(mask, g.w, (e.0, e.1 + 1))
    ||| g.on_grid((e.0, e.1 - 1)) && marked(mask, g.w, (e.0, e.1 - 1))
}

/// Every cell that passes next to a marked cell is marked or waits on the stack.
spec fn frontier_ok(g: ColorTest, mask: Seq<bool>, stack: Seq<(usize, usize)>) -> bool {
    forall|p: (int, int), q: (int, int)|
        g.on_grid(p) && #[trigger] marked(mask, g.w, p) && adjacent(p, q) && g.passes(q) ==> #[trigger] marked(
            mask,
            g.w,
            q,
        ) || stack.contains((q.0 as usize, q.1 as usize))
}

/// Every marked cell is reached from the seed.
spec fn marks_reached(g: ColorTest, mask: Seq<bool>, seed: (int, int)) -> bool {
    forall|p: (int, int)| g.on_grid(p) && #[trigger] marked(mask, g.w, p) ==> g.reaches(seed, p)
}

/// The region that a flood from (`x0`, `y0`) fills on a `w` × `h` RGBA grid:
/// the cells reached from the seed by steps to a side neighbour, through
/// cells whose every channel lies within `tol` of the seed's colour. One
/// flag per cell, row by row. A negative `tol` lets no cell in.
pub fn flood_mask(rgba: &[u8], w: usize, h: usize, x0: usize, y0: usize, tol: i32) -> (mask: Vec<bool>)
    requires
        rgba@.len() == w * h * 4,
        x0 < w,
        y0 < h,
    ensures
        mask@.len() == w * h,
        forall|x: int, y: int|
            0 <= x < w && 0 <= y < h ==> mask@[y * w + x] == ColorTest::from_seed(
                rgba@,
                w as int,
                h as int,
                (x0 as int, y0 as int),
                tol as int,
            ).reaches((x0 as int, y0 as int), (x, y)),
{
    let ghost g = ColorTest::from_seed(rgba@, w as int, h as int, (x0 as int, y0 as int), tol as int);
    let ghost seed = (x0 as int, y0 as int);
    let len = rgba.len();
    proof {
        lemma_cell_in_grid(w as int, h as int, x0 as int, y0 as int);
        assert(w * h * 4 == 4 * (w * h)) by (nonlinear_arith);
        assert(w * h <= usize::MAX);
    }
    let n: usize = w * h;
    let target = read_pixel(rgba, y0 * w + x0);
    let mut mask: Vec<bool> = Vec::with_capacity(n);
    let mut i: usize = 0;
    while i < n
        invariant
            i <= n,
            mask@.len() == i,
            forall|j: int| 0 <= j < i ==> !mask@[j],
        decreases n - i,
    {
        mask.push(false);
        i = i + 1;
    }
    proof {
        assert(count_marked(mask@) == 0) by {
            lemma_count_zero(mask@);
        }
    }
    let mut marked_cells: usize = 0;
    let mut stack: Vec<(usize, usize)> = Vec::new();
    stack.push((x0, y0));
    proof {
        assert(stack@[0] == (x0, y0));
        assert(stack@.contains((x0, y0)));
        assert forall|p: (int, int)| g.on_grid(p) implies !marked(mask@, w as int, p) by {
            lemma_cell_in_grid(w as int, h as int, p.0, p.1);
        }
    }
    while stack.len() > 0
        invariant
            n == w * h,
            rgba@.len() == 4 * n,
            g == ColorTest::from_seed(rgba@, w as int, h as int, seed, tol as int),
            seed == (x0 as int, y0 as int),
            g.on_grid(seed),
            x0 < w,
            y0 < h,
            target == g.target,
            mask@.len() == n,
            marked_cells == count_marked(mask@),
            marked_cells <= n,
            stack_ok(g, mask@, seed, stack@),
            frontier_ok(g, mask@, stack@),
            marks_reached(g, mask@, seed),
            g.passes(seed) ==> marked(mask@, w as int, seed) || stack@.contains((x0, y0)),
        decreases n - marked_cells, stack.len(),
    {
        let ghost old_stack = stack@;
        let ghost old_mask = mask@;
        let top = stack.pop();
        let (x, y) = match top {
            Some(e) => e,
            None => (x0, y0),
        };
        proof {
            assert(old_stack =~= stack@.push((x, y)));
            assert(old_stack[old_stack.len() - 1] == (x, y));
            vstd::seq_lib::lemma_seq_contains_after_push(stack@, (x, y), (x, y));
        }
        let ghost c = (x as int, y as int);
        proof {
            assert(g.on_grid(c));
            lemma_cell_in_grid(w as int, h as int, x as int, y as int);
        }
        let q = y * w + x;
        if !mask[q] {
            let pc = read_pixel(rgba, q);
            if is_within(pc, target, tol) {
                proof {
                    assert(g.pixel(c) == pc);
                    assert(g.passes(c));
                    lemma_count_set(mask@, q as int);
                    lemma_count_bound(mask@.update(q as int, true));
                    if c != seed {
                        // `c` was pushed as a neighbour of a marked cell.
                        assert(next_to_marked(g, old_mask, c));
                        let p = if g.on_grid((c.0 + 1, c.1)) && marked(old_mask, g.w, (c.0 + 1, c.1)) {
                            (c.0 + 1, c.1)
                        } else if g.on_grid((c.0 - 1, c.1)) && marked(old_mask, g.w, (c.0 - 1, c.1)) {
                            (c.0 - 1, c.1)
                        } else if g.on_grid((c.0, c.1 + 1)) && marked(old_mask, g.w, (c.0, c.1 + 1)) {
                            (c.0, c.1 + 1)
                        } else {
                            (c.0, c.1 - 1)
                        };
                        assert(g.reaches(seed, p));
                        lemma_walk_extends(g, seed, p, c);
                    } else {
                        let path = seq![seed];
                        assert(path.last() == seed);
                        assert(g.is_walk(path));
                    }
                }
                mask.set(q, true);
                marked_cells = marked_cells + 1;
                if x + 1 < w {
                    stack.push((x + 1, y));
                }
                if x > 0 {
                    stack.push((x - 1, y));
                }
                if y + 1 < h {
                    stack.push((x, y + 1));
                }
                if y > 0 {
                    stack.push((x, y - 1));
                }
                proof {
                    lemma_marking_keeps(g, old_mask, mask@, old_stack, stack@, seed, x, y);
                }
            } else {
                proof {
                    assert(!g.passes(c));
                    lemma_discard_keeps(g, mask@, old_stack, stack@, seed, x, y);
                }
            }
        } else {
            proof {
                assert(marked(mask@, w as int, c));
                lemma_discard_keeps(g, mask@, old_stack, stack@, seed, x, y);
            }
        }
    }
    proof {
        assert forall|x: int, y: int| 0 <= x < w && 0 <= y < h implies mask@[y * w + x] == g.reaches(
            seed,
            (x, y),
        ) by {
            let p = (x, y);
            assert(mask@[y * w + x] == marked(mask@, w as int, p));
            if g.reaches(seed, p) {
                let path = choose|path: Seq<(int, int)>| #[trigger] g.is_walk(path) && path[0] == seed && path.last() == p;
                assert(g.passes(path[0]));
                assert forall|a: (int, int), b: (int, int)|
                    g.on_grid(a) && #[trigger] marked(mask@, g.w, a) && adjacent(a, b) && g.passes(
                        b,
                    ) implies #[trigger] marked(mask@, g.w, b) by {
                    assert(!stack@.contains((b.0 as usize, b.1 as usize)));
                }
                lemma_closed_holds_walk(g, mask@, path, path.len() - 1);
            }
        }
    }
    mask
}

proof fn lemma_count_zero(s: Seq<bool>)
    requires
        forall|j: int| 0 <= j < s.len() ==> !s[j],
    ensures
        count_marked(s) == 0,
    decreases s.len(),
{
    if s.len() > 0 {
        lemma_count_zero(s.drop_last());
    }
}

/// Cells of the grid with the same index are the same cell.
proof fn lemma_same_cell(g: ColorTest, p: (int, int), q: (int, int))
    requires
        g.on_grid(p),
        g.on_grid(q),
        p.1 * g.w + p.0 == q.1 * g.w + q.0,
    ensures
        p == q,
{
    lemma_cell_unique(g.w, p.0, p.1, q.0, q.1);
}

/// Dropping a cell that is marked already, or that fails the test, keeps the
/// invariants of the flood.
proof fn lemma_discard_keeps(
    g: ColorTest,
    mask: Seq<bool>,
    old_stack: Seq<(usize, usize)>,
    stack: Seq<(usize, usize)>,
    seed: (int, int),
    x: usize,
    y: usize,
)
    requires
        old_stack == stack.push((x, y)),
        g.on_grid((x as int, y as int)),
        marked(mask, g.w, (x as int, y as int)) || !g.passes((x as int, y as int)),
        stack_ok(g, mask, seed, old_stack),
        frontier_ok(g, mask, old_stack),
        g.passes(seed) ==> marked(mask, g.w, seed) || old_stack.contains((seed.0 as usize, seed.1 as usize)),
        g.on_grid(seed),
        g.w <= usize::MAX,
        g.h <= usize::MAX,
    ensures
        stack_ok(g, mask, seed, stack),
        frontier_ok(g, mask, stack),
        g.passes(seed) ==> marked(mask, g.w, seed) || stack.contains((seed.0 as usize, seed.1 as usize)),
{
    assert forall|k: int| #![trigger stack[k]] 0 <= k < stack.len() implies {
        let e = (stack[k].0 as int, stack[k].1 as int);
        &&& g.on_grid(e)
        &&& (e == seed || next_to_marked(g, mask, e))
    } by {
        assert(old_stack[k] == stack[k]);
    }
    assert forall|p: (int, int), q: (int, int)|
        g.on_grid(p) && #[trigger] marked(mask, g.w, p) && adjacent(p, q) && g.passes(q) implies #[trigger] marked(
            mask,
            g.w,
            q,
        ) || stack.contains((q.0 as usize, q.1 as usize)) by {
        vstd::seq_lib::lemma_seq_contains_after_push(stack, (x, y), (q.0 as usize, q.1 as usize));
        if (q.0 as usize, q.1 as usize) == (x, y) {
            assert(q == (x as int, y as int));
        }
    }
    vstd::seq_lib::lemma_seq_contains_after_push(stack, (x, y), (seed.0 as usize, seed.1 as usize));
}

/// Marking cell (x, y) and pushing its neighbours on the grid keeps the
/// invariants of the flood.
proof fn lemma_marking_keeps(
    g: ColorTest,
    old_mask: Seq<bool>,
    mask: Seq<bool>,
    old_stack: Seq<(usize, usize)>,
    stack: Seq<(usize, usize)>,
    seed: (int, int),
    x: usize,
    y: usize,
)
    requires
        g.on_grid((x as int, y as int)),
        g.passes((x as int, y as int)),
        g.reaches(seed, (x as int, y as int)),
        old_mask.len() == g.w * g.h,
        mask == old_mask.update(y * g.w + x, true),
        stack_ok(g, old_mask, seed, old_stack),
        frontier_ok(g, old_mask, old_stack),
        marks_reached(g, old_mask, seed),
        g.passes(seed) ==> marked(old_mask, g.w, seed) || old_stack.contains(
            (seed.0 as usize, seed.1 as usize),
        ),
        g.on_grid(seed),
        g.w <= usize::MAX,
        g.h <= usize::MAX,
        ({
            let base = old_stack.drop_last();
            let s1 = if x + 1 < g.w { base.push(((x + 1) as usize, y)) } else { base };
            let s2 = if x > 0 { s1.push(((x - 1) as usize, y)) } else { s1 };
            let s3 = if y + 1 < g.h { s2.push((x, (y + 1) as usize)) } else { s2 };
            let s4 = if y > 0 { s3.push((x, (y - 1) as usize)) } else { s3 };
            stack == s4
        }),
        old_stack.len() > 0,
        old_stack.last() == (x, y),
    ensures
        stack_ok(g, mask, seed, stack),
        frontier_ok(g, mask, stack),
        marks_reached(g, mask, seed),
        g.passes(seed) ==> marked(mask, g.w, seed) || stack.contains((seed.0 as usize, seed.1 as usize)),
{
    let c = (x as int, y as int);
    let base = old_stack.drop_last();
    let s1 = if x + 1 < g.w { base.push(((x + 1) as usize, y)) } else { base };
    let s2 = if x > 0 { s1.push(((x - 1) as usize, y)) } else { s1 };
    let s3 = if y + 1 < g.h { s2.push((x, (y + 1) as usize)) } else { s2 };
    let s4 = if y > 0 { s3.push((x, (y - 1) as usize)) } else { s3 };
    lemma_cell_in_grid(g.w, g.h, x as int, y as int);
    assert(old_stack =~= base.push((x, y)));
    // Marks only grow.
    assert forall|p: (int, int)| g.on_grid(p) && marked(old_mask, g.w, p) implies marked(mask, g.w, p) by {
        lemma_cell_in_grid(g.w, g.h, p.0, p.1);
    }
    assert(marked(mask, g.w, c));
    // Whatever `base` holds, the new stack holds.
    assert forall|v: (usize, usize)| base.contains(v) implies stack.contains(v) by {
        vstd::seq_lib::lemma_seq_contains_after_push(base, ((x + 1) as usize, y), v);
        vstd::seq_lib::lemma_seq_contains_after_push(s1, ((x - 1) as usize, y), v);
        vstd::seq_lib::lemma_seq_contains_after_push(s2, (x, (y + 1) as usize), v);
        vstd::seq_lib::lemma_seq_contains_after_push(s3, (x, (y - 1) as usize), v);
    }
    vstd::seq_lib::lemma_seq_contains_after_push(base, ((x + 1) as usize, y), ((x + 1) as usize, y));
    vstd::seq_lib::lemma_seq_contains_after_push(s1, ((x - 1) as usize, y), ((x - 1) as usize, y));
    vstd::seq_lib::lemma_seq_contains_after_push(s2, (x, (y + 1) as usize), (x, (y + 1) as usize));
    vstd::seq_lib::lemma_seq_contains_after_push(s3, (x, (y - 1) as usize), (x, (y - 1) as usize));
    // Every neighbour of `c` on the grid is on the new stack.
    assert forall|q: (int, int)| g.on_grid(q) && adjacent(c, q) implies stack.contains(
        (q.0 as usize, q.1 as usize),
    ) by {
        vstd::seq_lib::lemma_seq_contains_after_push(base, ((x + 1) as usize, y), (q.0 as usize, q.1 as usize));
        vstd::seq_lib::lemma_seq_contains_after_push(s1, ((x - 1) as usize, y), (q.0 as usize, q.1 as usize));
        vstd::seq_lib::lemma_seq_contains_after_push(s2, (x, (y + 1) as usize), (q.0 as usize, q.1 as usize));
        vstd::seq_lib::lemma_seq_contains_after_push(s3, (x, (y - 1) as usize), (q.0 as usize, q.1 as usize));
        assert(s1.contains(((x + 1) as usize, y)) || !(x + 1 < g.w));
        assert(s2.contains(((x - 1) as usize, y)) || !(x > 0));
        assert(s3.contains((x, (y + 1) as usize)) || !(y + 1 < g.h));
        assert(s4.contains((x, (y - 1) as usize)) || !(y > 0));
    }
    // The stack: old entries keep their provenance, new ones are neighbours of `c`.
    assert forall|k: int| #![trigger stack[k]] 0 <= k < stack.len() implies {
        let e = (stack[k].0 as int, stack[k].1 as int);
        &&& g.on_grid(e)
        &&& (e == seed || next_to_marked(g, mask, e))
    } by {
        let e = (stack[k].0 as int, stack[k].1 as int);
        if k < base.len() {
            assert(stack[k] == base[k]);
            assert(base[k] == old_stack[k]);
            let e_old = (old_stack[k].0 as int, old_stack[k].1 as int);
            assert(g.on_grid(e_old));
            if e != seed {
                assert(next_to_marked(g, old_mask, e));
                if g.on_grid((e.0 + 1, e.1)) {
                    lemma_cell_in_grid(g.w, g.h, e.0 + 1, e.1);
                }
                if g.on_grid((e.0 - 1, e.1)) {
                    lemma_cell_in_grid(g.w, g.h, e.0 - 1, e.1);
                }
                if g.on_grid((e.0, e.1 + 1)) {
                    lemma_cell_in_grid(g.w, g.h, e.0, e.1 + 1);
                }
                if g.on_grid((e.0, e.1 - 1)) {
                    lemma_cell_in_grid(g.w, g.h, e.0, e.1 - 1);
                }
            }
        } else {
            if y > 0 && k == s3.len() {
                assert(s4[k] == (x, (y - 1) as usize));
            } else {
                assert(s4[k] == s3[k]);
                if y + 1 < g.h && k == s2.len() {
                    assert(s3[k] == (x, (y + 1) as usize));
                } else {
                    assert(s3[k] == s2[k]);
                    if x > 0 && k == s1.len() {
                        assert(s2[k] == ((x - 1) as usize, y));
                    } else {
                        assert(s2[k] == s1[k]);
                        assert(s1[k] == ((x + 1) as usize, y));
                    }
                }
            }
            assert(adjacent(c, e));
            assert(g.on_grid(e));
            assert(next_to_marked(g, mask, e));
        }
    }
    // The frontier.
    assert forall|p: (int, int), q: (int, int)|
        g.on_grid(p) && #[trigger] marked(mask, g.w, p) && adjacent(p, q) && g.passes(q) implies #[trigger] marked(
            mask,
            g.w,
            q,
        ) || stack.contains((q.0 as usize, q.1 as usize)) by {
        lemma_cell_in_grid(g.w, g.h, p.0, p.1);
        lemma_cell_in_grid(g.w, g.h, q.0, q.1);
        if p == c {
            assert(stack.contains((q.0 as usize, q.1 as usize)));
        } else {
            if p.1 * g.w + p.0 == y * g.w + x {
                lemma_same_cell(g, p, c);
            }
            assert(marked(old_mask, g.w, p));
            if !marked(old_mask, g.w, q) {
                assert(old_stack.contains((q.0 as usize, q.1 as usize)));
                vstd::seq_lib::lemma_seq_contains_after_push(base, (x, y), (q.0 as usize, q.1 as usize));
                if (q.0 as usize, q.1 as usize) != (x, y) {
                    assert(base.contains((q.0 as usize, q.1 as usize)));
                } else {
                    assert(q == c);
                }
            }
        }
    }
    // Every mark is reached.
    assert forall|p: (int, int)| g.on_grid(p) && #[trigger] marked(mask, g.w, p) implies g.reaches(seed, p) by {
        lemma_cell_in_grid(g.w, g.h, p.0, p.1);
        if p.1 * g.w + p.0 == y * g.w + x {
            lemma_same_cell(g, p, c);
        } else {
            assert(marked(old_mask, g.w, p));
        }
    }
    // The seed.
    if g.passes(seed) && !marked(mask, g.w, seed) {
        assert(!marked(old_mask, g.w, seed));
        assert(old_stack.contains((seed.0 as usize, seed.1 as usize)));
        vstd::seq_lib::lemma_seq_contains_after_push(base, (x, y), (seed.0 as usize, seed.1 as usize));
        if (seed.0 as usize, seed.1 as usize) == (x, y) {
            assert(seed == c);
        } else {
            assert(base.contains((seed.0 as usize, seed.1 as usize)));
        }
    }
}

/// One flag per pixel of an RGBA buffer of `n` pixels: whether every channel
/// lies within `tol` of `target` (the wand when it is not contiguous).
pub fn color_mask(rgba: &[u8], n: usize, target: Color, tol: i32) -> (mask: Vec<bool>)
    requires
        rgba@.len() == 4 * n,
    ensures
        mask@.len() == n,
        forall|q: int| 0 <= q < n ==> mask@[q] == within(color_in_bytes(rgba@, q), target, tol as int),
{
    let mut mask: Vec<bool> = Vec::with_capacity(n);
    let mut q: usize = 0;
    while q < n
        invariant
            q <= n,
            rgba@.len() == 4 * n,
            mask@.len() == q,
            forall|j: int| 0 <= j < q ==> mask@[j] == within(color_in_bytes(rgba@, j), target, tol as int),
        decreases n - q,
    {
        let c = read_pixel(rgba, q);
        mask.push(is_within(c, target, tol));
        q = q + 1;
    }
    mask
}

/// `b` = (left, top, right, bottom) is the smallest box, edges included,
/// that holds every set flag of the `w` × `h` mask.
pub open spec fn is_bounding_box(mask: Seq<bool>, w: int, h: int, b: (int, int, int, int)) -> bool {
    &&& 0 <= b.0 <= b.2 < w
    &&& 0 <= b.1 <= b.3 < h
    &&& forall|x: int, y: int|
        0 <= x < w && 0 <= y < h && #[trigger] marked(mask, w, (x, y)) ==> b.0 <= x <= b.2 && b.1 <= y <= b.3
    &&& exists|y: int| 0 <= y < h && #[trigger] marked(mask, w, (b.0, y))
    &&& exists|y: int| 0 <= y < h && #[trigger] marked(mask, w, (b.2, y))
    &&& exists|x: int| 0 <= x < w && #[trigger] marked(mask, w, (x, b.1))
    &&& exists|x: int| 0 <= x < w && #[trigger] marked(mask, w, (x, b.3))
}

/// No flag of the `w` × `h` mask is set.
pub open spec fn mask_empty(mask: Seq<bool>, w: int, h: int) -> bool {
    forall|x: int, y: int| 0 <= x < w && 0 <= y < h ==> !#[trigger] marked(mask, w, (x, y))
}

/// Cell `p` comes before (x, y) in row order.
spec fn seen(p: (int, int), x: int, y: int) -> bool {
    p.1 < y || (p.1 == y && p.0 < x)
}

/// The smallest box (left, top, right, bottom, edges included) that holds
/// every set flag of a `w` × `h` mask; `None` when no flag is set.
pub fn mask_bounds(mask: &Vec<bool>, w: usize, h: usize) -> (b: Option<(usize, usize, usize, usize)>)
    requires
        mask@.len() == w * h,
    ensures
        b is None <==> mask_empty(mask@, w as int, h as int),
        b matches Some(bb) ==> is_bounding_box(
            mask@,
            w as int,
            h as int,
            (bb.0 as int, bb.1 as int, bb.2 as int, bb.3 as int),
        ),
{
    let mut found = false;
    let mut minx: usize = 0;
    let mut miny: usize = 0;
    let mut maxx: usize = 0;
    let mut maxy: usize = 0;
    let ghost mut wl: (int, int) = (0, 0);
    let ghost mut wr: (int, int) = (0, 0);
    let ghost mut wt: (int, int) = (0, 0);
    let ghost mut wb: (int, int) = (0, 0);
    let ghost m = mask@;
    let ghost wi = w as int;
    let n = mask.len();
    let mut y: usize = 0;
    while y < h
        invariant
            n == w * h,
            y <= h,
            m == mask@,
            wi == w,
            mask@.len() == w * h,
            !found ==> forall|p: (int, int)|
                0 <= p.0 < w && 0 <= p.1 < h && seen(p, 0, y as int) ==> !#[trigger] marked(m, wi, p),
            found ==> maxy <= y,
            found ==> {
                &&& minx <= maxx < w
                &&& miny <= maxy < h
                &&& forall|p: (int, int)|
                    0 <= p.0 < w && 0 <= p.1 < h && seen(p, 0, y as int) && #[trigger] marked(m, wi, p) ==> minx
                        <= p.0 <= maxx && miny <= p.1 <= maxy
                &&& 0 <= wl.1 < h && wl.0 == minx && marked(m, wi, wl)
                &&& 0 <= wr.1 < h && wr.0 == maxx && marked(m, wi, wr)
                &&& 0 <= wt.0 < w && wt.1 == miny && marked(m, wi, wt)
                &&& 0 <= wb.0 < w && wb.1 == maxy && marked(m, wi, wb)
            },
        decreases h - y,
    {
        let mut x: usize = 0;
        while x < w
            invariant
                n == w * h,
                x <= w,
                y < h,
                m == mask@,
                wi == w,
                mask@.len() == w * h,
                !found ==> forall|p: (int, int)|
                    0 <= p.0 < w && 0 <= p.1 < h && seen(p, x as int, y as int) ==> !#[trigger] marked(m, wi, p),
                found ==> maxy <= y,
                found ==> {
                    &&& minx <= maxx < w
                    &&& miny <= maxy < h
                    &&& forall|p: (int, int)|
                        0 <= p.0 < w && 0 <= p.1 < h && seen(p, x as int, y as int) && #[trigger] marked(m, wi, p)
                            ==> minx <= p.0 <= maxx && miny <= p.1 <= maxy
                    &&& 0 <= wl.1 < h && wl.0 == minx && marked(m, wi, wl)
                    &&& 0 <= wr.1 < h && wr.0 == maxx && marked(m, wi, wr)
                    &&& 0 <= wt.0 < w && wt.1 == miny && marked(m, wi, wt)
                    &&& 0 <= wb.0 < w && wb.1 == maxy && marked(m, wi, wb)
                },
            decreases w - x,
        {
            proof {
                lemma_cell_in_grid(w as int, h as int, x as int, y as int);
            }
            if mask[y * w + x] {
                let ghost c = (x as int, y as int);
                assert(marked(m, wi, c));
                if !found {
                    found = true;
                    minx = x;
                    maxx = x;
                    miny = y;
                    maxy = y;
                    proof {
                        wl = c;
                        wr = c;
                        wt = c;
                        wb = c;
                    }
                } else {
                    if x < minx {
                        minx = x;
                        proof {
                            wl = c;
                        }
                    }
                    if x > maxx {
                        maxx = x;
                        proof {
                            wr = c;
                        }
                    }
                    if y > maxy {
                        maxy = y;
                        proof {
                            wb = c;
                        }
                    }
                }
            }
            x = x + 1;
        }
        y = y + 1;
    }
    if found {
        proof {
            assert(marked(m, wi, (wl.0, wl.1)));
            assert(marked(m, wi, (wr.0, wr.1)));
            assert(marked(m, wi, (wt.0, wt.1)));
            assert(marked(m, wi, (wb.0, wb.1)));
        }
        Some((minx, miny, maxx, maxy))
    } else {
        None
    }
}

/// The layer with every pixel whose flag is set painted `color`.
pub open spec fn filled(v: LayerView, mask: Seq<bool>, color: Color) -> LayerView {
    LayerView { pixels: Seq::new(v.pixels.len(), |q: int| if mask[q] { color } else { v.pixels[q] }), ..v }
}

/// Paints `color` on every pixel of the layer whose flag is set (row by row).
pub fn fill_region(layer: &mut Layer, mask: &Vec<bool>, color: Color)
    requires
        old(layer).wf(),
        mask@.len() == old(layer)@.width * old(layer)@.height,
    ensures
        final(layer).wf(),
        final(layer)@ == filled(old(layer)@, mask@, color),
        final(layer).width == old(layer).width,
        final(layer).height == old(layer).height,
{
    let ghost v = layer@;
    let len = layer.pixels.len();
    proof {
        lemma_grid_size(layer.width as int, layer.height as int);
    }
    let n: usize = (layer.width as usize) * (layer.height as usize);
    let mut q: usize = 0;
    proof {
        assert(layer@.pixels =~= Seq::new(
            n as nat,
            |j: int| if j < q && mask@[j] { color } else { v.pixels[j] },
        ));
    }
    while q < n
        invariant
            q <= n,
            n == v.width * v.height,
            n == v.pixels.len(),
            mask@.len() == n,
            layer.wf(),
            layer.width == v.width,
            layer.height == v.height,
            layer@ == (LayerView {
                pixels: Seq::new(n as nat, |j: int| if j < q && mask@[j] { color } else { v.pixels[j] }),
                ..v
            }),
        decreases n - q,
    {
        if mask[q] {
            layer.set_cell(q, color);
        }
        q = q + 1;
        proof {
            assert(layer@.pixels =~= Seq::new(
                n as nat,
                |j: int| if j < q && mask@[j] { color } else { v.pixels[j] },
            ));
        }
    }
    proof {
        assert(layer@.pixels =~= filled(v, mask@, color).pixels);
    }
}

/// Cell (x, y) lies in the box at (`bx`, `by`) of `bw` × `bh` cells.
pub open spec fn in_box(x: int, y: int, bx: int, by: int, bw: int, bh: int) -> bool {
    bx <= x < bx + bw && by <= y < by + bh
}

/// Lifts out of the layer the pixels of the box at (`bx`, `by`) of
/// `bw` × `bh` cells whose flag is set: they are returned (four bytes each,
/// row by row, transparent where the flag is clear) and become transparent on
/// the layer.
pub fn lift_region(layer: &mut Layer, mask: &Vec<bool>, bx: usize, by: usize, bw: usize, bh: usize) -> (out: Vec<
    u8,
>)
    requires
        old(layer).wf(),
        mask@.len() == old(layer)@.width * old(layer)@.height,
        bx + bw <= old(layer)@.width,
        by + bh <= old(layer)@.height,
    ensures
        final(layer).wf(),
        final(layer)@.same_meta(old(layer)@),
        final(layer).width == old(layer).width,
        final(layer).height == old(layer).height,
        forall|x: int, y: int|
            #![trigger final(layer)@.at(x, y)]
            old(layer)@.in_bounds(x, y) ==> final(layer)@.at(x, y) == if in_box(
                x,
                y,
                bx as int,
                by as int,
                bw as int,
                bh as int,
            ) && marked(mask@, old(layer)@.width as int, (x, y)) {
                Color { r: 0, g: 0, b: 0, a: 0 }
            } else {
                old(layer)@.at(x, y)
            },
        out@.len() == bw * bh * 4,
        forall|xx: int, yy: int|
            0 <= xx < bw && 0 <= yy < bh ==> #[trigger] color_in_bytes(out@, yy * bw + xx) == if marked(
                mask@,
                old(layer)@.width as int,
                (bx + xx, by + yy),
            ) {
                old(layer)@.at(bx + xx, by + yy)
            } else {
                Color { r: 0, g: 0, b: 0, a: 0 }
            },
{
    let ghost v = layer@;
    let len = layer.pixels.len();
    let w = layer.width as usize;
    let h = layer.height as usize;
    proof {
        lemma_grid_size(w as int, h as int);
        lemma_grid_size(bw as int, bh as int);
        assert(bw * bh <= w * h) by (nonlinear_arith)
            requires
                bw <= w,
                bh <= h,
        ;
    }
    let total: usize = bw * bh * 4;
    let mut out: Vec<u8> = Vec::with_capacity(total);
    let mut i: usize = 0;
    while i < total
        invariant
            i <= total,
            out@.len() == i,
            forall|j: int| 0 <= j < i ==> out@[j] == 0,
        decreases total - i,
    {
        out.push(0);
        i = i + 1;
    }
    let clear = Color { r: 0, g: 0, b: 0, a: 0 };
    proof {
        assert forall|a: int, b: int| 0 <= a < bw && 0 <= b < bh implies #[trigger] color_in_bytes(
            out@,
            b * bw + a,
        ) == clear by {
            lemma_cell_in_grid(bw as int, bh as int, a, b);
        }
    }
    let mut yy: usize = 0;
    while yy < bh
        invariant
            w * h <= usize::MAX,
            yy <= bh,
            w == v.width,
            h == v.height,
            bx + bw <= w,
            by + bh <= h,
            total == bw * bh * 4,
            bw * bh * 4 == 4 * (bw * bh),
            mask@.len() == w * h,
            clear == (Color { r: 0, g: 0, b: 0, a: 0 }),
            layer.wf(),
            layer@.same_meta(v),
            layer@.width == v.width,
            layer@.height == v.height,
            layer.width == v.width,
            layer.height == v.height,
            out@.len() == total,
            forall|x: int, y: int|
                #![trigger layer@.at(x, y)]
                v.in_bounds(x, y) ==> layer@.at(x, y) == if in_box(x, y, bx as int, by as int, bw as int, bh as int)
                    && seen((x - bx, y - by), 0, yy as int) && marked(mask@, w as int, (x, y)) {
                    clear
                } else {
                    v.at(x, y)
                },
            forall|a: int, b: int|
                0 <= a < bw && 0 <= b < bh ==> #[trigger] color_in_bytes(out@, b * bw + a) == if seen(
                    (a, b),
                    0,
                    yy as int,
                ) && marked(mask@, w as int, (bx + a, by + b)) {
                    v.at(bx + a, by + b)
                } else {
                    clear
                },
        decreases bh - yy,
    {
        let mut xx: usize = 0;
        while xx < bw
            invariant
                w * h <= usize::MAX,
                xx <= bw,
                yy < bh,
                w == v.width,
                h == v.height,
                bx + bw <= w,
                by + bh <= h,
                total == bw * bh * 4,
                bw * bh * 4 == 4 * (bw * bh),
                mask@.len() == w * h,
                clear == (Color { r: 0, g: 0, b: 0, a: 0 }),
                layer.wf(),
                layer@.same_meta(v),
                layer@.width == v.width,
                layer@.height == v.height,
                layer.width == v.width,
                layer.height == v.height,
                out@.len() == total,
                forall|x: int, y: int|
                    #![trigger layer@.at(x, y)]
                    v.in_bounds(x, y) ==> layer@.at(x, y) == if in_box(
                        x,
                        y,
                        bx as int,
                        by as int,
                        bw as int,
                        bh as int,
                    ) && seen((x - bx, y - by), xx as int, yy as int) && marked(mask@, w as int, (x, y)) {
                        clear
                    } else {
                        v.at(x, y)
                    },
                forall|a: int, b: int|
                    0 <= a < bw && 0 <= b < bh ==> #[trigger] color_in_bytes(out@, b * bw + a) == if seen(
                        (a, b),
                        xx as int,
                        yy as int,
                    ) && marked(mask@, w as int, (bx + a, by + b)) {
                        v.at(bx + a, by + b)
                    } else {
                        clear
                    },
            decreases bw - xx,
        {
            let gx = bx + xx;
            let gy = by + yy;
            proof {
                lemma_cell_in_grid(w as int, h as int, gx as int, gy as int);
                lemma_cell_in_grid(bw as int, bh as int, xx as int, yy as int);
            }
            let q = gy * w + gx;
            if mask[q] {
                let ghost before = layer@;
                let ghost out_before = out@;
                assert(layer@.at(gx as int, gy as int) == v.at(gx as int, gy as int));
                let c = layer.cell(q);
                assert(c == v.at(gx as int, gy as int));
                let o = (yy * bw + xx) * 4;
                out.set(o, c.r);
                out.set(o + 1, c.g);
                out.set(o + 2, c.b);
                out.set(o + 3, c.a);
                layer.set_cell(q, clear);
                proof {
                    assert forall|x: int, y: int| #![trigger layer@.at(x, y)] v.in_bounds(x, y) implies layer@.at(x, y)
                        == if in_box(x, y, bx as int, by as int, bw as int, bh as int) && seen(
                        (x - bx, y - by),
                        xx + 1,
                        yy as int,
                    ) && marked(mask@, w as int, (x, y)) {
                        clear
                    } else {
                        v.at(x, y)
                    } by {
                        lemma_cell_in_grid(w as int, h as int, x, y);
                        if y * w + x == q {
                            lemma_cell_unique(w as int, x, y, gx as int, gy as int);
                        } else {
                            assert(layer@.at(x, y) == before.at(x, y));
                            if x == gx && y == gy {
                                assert(false);
                            }
                        }
                    }
                    assert forall|a: int, b: int| 0 <= a < bw && 0 <= b < bh implies #[trigger] color_in_bytes(
                        out@,
                        b * bw + a,
                    ) == if seen((a, b), xx + 1, yy as int) && marked(mask@, w as int, (bx + a, by + b)) {
                        v.at(bx + a, by + b)
                    } else {
                        clear
                    } by {
                        lemma_cell_in_grid(bw as int, bh as int, a, b);
                        if b * bw + a == yy * bw + xx {
                            lemma_cell_unique(bw as int, a, b, xx as int, yy as int);
                        } else {
                            assert(color_in_bytes(out@, b * bw + a) == color_in_bytes(out_before, b * bw + a));
                            if a == xx && b == yy {
                                assert(false);
                            }
                        }
                    }
                }
            } else {
                proof {
                    assert(!marked(mask@, w as int, (gx as int, gy as int)));
                    assert forall|a: int, b: int| 0 <= a < bw && 0 <= b < bh implies #[trigger] color_in_bytes(
                        out@,
                        b * bw + a,
                    ) == if seen((a, b), xx + 1, yy as int) && marked(mask@, w as int, (bx + a, by + b)) {
                        v.at(bx + a, by + b)
                    } else {
                        clear
                    } by {
                        if a == xx && b == yy {
                            assert(bx + a == gx && by + b == gy);
                        }
                    }
                    assert forall|x: int, y: int| #![trigger layer@.at(x, y)] v.in_bounds(x, y) implies layer@.at(x, y)
                        == if in_box(x, y, bx as int, by as int, bw as int, bh as int) && seen(
                        (x - bx, y - by),
                        xx + 1,
                        yy as int,
                    ) && marked(mask@, w as int, (x, y)) {
                        clear
                    } else {
                        v.at(x, y)
                    } by {
                        if x == gx && y == gy {
                            assert(!marked(mask@, w as int, (x, y)));
                        }
                    }
                }
            }
            xx = xx + 1;
        }
        yy = yy + 1;
    }
    out
}

/// The test on the colours of a layer's pixels against the colour of cell
/// `seed`, with tolerance `tol`.
pub open spec fn layer_test(v: LayerView, seed: (int, int), tol: int) -> ColorTest {
    ColorTest {
        rgba: Seq::new(4 * v.pixels.len(), |i: int| channel_of(v.pixels[i / 4], i % 4)),
        w: v.width as int,
        h: v.height as int,
        target: v.at(seed.0, seed.1),
        tol,
    }
}

/// Channel `k` (0 red, 1 green, 2 blue, 3 alpha) of a colour.
pub open spec fn channel_of(c: Color, k: int) -> u8 {
    if k == 0 {
        c.r
    } else if k == 1 {
        c.g
    } else if k == 2 {
        c.b
    } else {
        c.a
    }
}

/// Whether the bucket at `seed` with tolerance `tol` paints cell `p`: the
/// flood from `seed` over the reference picture reaches it.
pub open spec fn bucket_reaches(reference: Seq<u8>, w: int, h: int, seed: (int, int), tol: int, p: (int, int)) -> bool {
    ColorTest::from_seed(reference, w, h, seed, tol).reaches(seed, p)
}

/// The bucket: paints `color` on the layer over the region that a flood from
/// (`x0`, `y0`) fills on `reference`, the picture the bucket sees (as large
/// as the layer, four bytes per pixel), with tolerance `tol`. A point off
/// the layer changes nothing and gives `false`.
pub fn bucket_fill(layer: &mut Layer, reference: &[u8], x0: i32, y0: i32, tol: i32, color: Color) -> (done: bool)
    requires
        old(layer).wf(),
        reference@.len() == old(layer)@.width * old(layer)@.height * 4,
    ensures
        done == old(layer)@.in_bounds(x0 as int, y0 as int),
        !done ==> *final(layer) == *old(layer),
        final(layer).wf(),
        final(layer)@.same_meta(old(layer)@),
        final(layer)@.width == old(layer)@.width,
        final(layer)@.height == old(layer)@.height,
        done ==> forall|x: int, y: int|
            #![trigger final(layer)@.at(x, y)]
            old(layer)@.in_bounds(x, y) ==> final(layer)@.at(x, y) == if bucket_reaches(
                reference@,
                old(layer)@.width as int,
                old(layer)@.height as int,
                (x0 as int, y0 as int),
                tol as int,
                (x, y),
            ) {
                color
            } else {
                old(layer)@.at(x, y)
            },
{
    if x0 < 0 || y0 < 0 || (x0 as u32) >= layer.width || (y0 as u32) >= layer.height {
        return false;
    }
    let ghost v = layer@;
    let w = layer.width as usize;
    let h = layer.height as usize;
    let mask = flood_mask(reference, w, h, x0 as usize, y0 as usize, tol);
    fill_region(layer, &mask, color);
    proof {
        assert forall|x: int, y: int| #![trigger layer@.at(x, y)] v.in_bounds(x, y) implies layer@.at(x, y)
            == if bucket_reaches(reference@, w as int, h as int, (x0 as int, y0 as int), tol as int, (x, y)) {
            color
        } else {
            v.at(x, y)
        } by {
            lemma_cell_in_grid(w as int, h as int, x, y);
        }
    }
    true
}

/// Pixels lifted out of a layer: the box they came from (`x`, `y`, `w` ×
/// `h` on the layer) and its pixels, four bytes each, row by row,
/// transparent where nothing was lifted.
pub struct Lifted {
    pub x: u32,
    pub y: u32,
    pub w: u32,
    pub h: u32,
    pub pixels: Vec<u8>,
}

/// Whether the magic wand at `seed` takes cell `p` of the layer: with
/// `contiguous`, the cells a flood from `seed` reaches; otherwise every cell
/// of the layer within `tol` of the seed's colour.
pub open spec fn wand_takes(v: LayerView, seed: (int, int), tol: int, contiguous: bool, p: (int, int)) -> bool {
    if contiguous {
        layer_test(v, seed, tol).reaches(seed, p)
    } else {
        layer_test(v, seed, tol).passes(p)
    }
}

/// The cells the wand takes, one flag per cell, row by row.
pub open spec fn wand_mask(v: LayerView, seed: (int, int), tol: int, contiguous: bool) -> Seq<bool> {
    Seq::new(
        v.width * v.height,
        |q: int| wand_takes(v, seed, tol, contiguous, (q % (v.width as int), q / (v.width as int))),
    )
}

/// The four bytes of each pixel of a layer, row by row.
fn layer_bytes(layer: &Layer) -> (b: &[u8])
    requires
        layer.wf(),
    ensures
        b@ == Seq::new(4 * layer@.pixels.len(), |i: int| channel_of(layer@.pixels[i / 4], i % 4)),
        b@.len() == layer@.width * layer@.height * 4,
{
    proof {
        lemma_grid_size(layer.width as int, layer.height as int);
        let t = Seq::new(4 * layer@.pixels.len(), |i: int| channel_of(layer@.pixels[i / 4], i % 4));
        assert forall|i: int| 0 <= i < t.len() implies t[i] == layer.bytes()[i] by {
            let q = i / 4;
            assert(0 <= q < layer@.pixels.len());
            assert(i == 4 * q + i % 4);
            assert(layer@.pixels[q] == color_in_bytes(layer.bytes(), q));
        }
        assert(t =~= layer.bytes());
    }
    layer.pixels()
}

/// The magic wand: takes the cells of the layer that match the colour of
/// (`x0`, `y0`) within `tol` (only those a flood from it reaches, with
/// `contiguous`), lifts them out of the layer (they become transparent) and
/// returns them in their bounding box. A point off the layer, or nothing
/// taken, changes nothing and gives `None`.
pub fn magic_wand(layer: &mut Layer, x0: i32, y0: i32, tol: i32, contiguous: bool) -> (r: Option<Lifted>)
    requires
        old(layer).wf(),
    ensures
        final(layer).wf(),
        final(layer)@.same_meta(old(layer)@),
        final(layer)@.width == old(layer)@.width,
        final(layer)@.height == old(layer)@.height,
        r is None <==> !old(layer)@.in_bounds(x0 as int, y0 as int) || mask_empty(
            wand_mask(old(layer)@, (x0 as int, y0 as int), tol as int, contiguous),
            old(layer)@.width as int,
            old(layer)@.height as int,
        ),
        r is None ==> *final(layer) == *old(layer),
        r matches Some(l) ==> {
            &&& l.w > 0 && l.h > 0
            &&& is_bounding_box(
                wand_mask(old(layer)@, (x0 as int, y0 as int), tol as int, contiguous),
                old(layer)@.width as int,
                old(layer)@.height as int,
                (l.x as int, l.y as int, l.x + l.w - 1, l.y + l.h - 1),
            )
            &&& l.pixels@.len() == l.w * l.h * 4
            &&& forall|xx: int, yy: int|
                0 <= xx < l.w && 0 <= yy < l.h ==> #[trigger] color_in_bytes(l.pixels@, yy * l.w + xx) == if wand_takes(
                    old(layer)@,
                    (x0 as int, y0 as int),
                    tol as int,
                    contiguous,
                    (l.x + xx, l.y + yy),
                ) {
                    old(layer)@.at(l.x + xx, l.y + yy)
                } else {
                    Color { r: 0, g: 0, b: 0, a: 0 }
                }
            &&& forall|x: int, y: int|
                #![trigger final(layer)@.at(x, y)]
                old(layer)@.in_bounds(x, y) ==> final(layer)@.at(x, y) == if wand_takes(
                    old(layer)@,
                    (x0 as int, y0 as int),
                    tol as int,
                    contiguous,
                    (x, y),
                ) {
                    Color { r: 0, g: 0, b: 0, a: 0 }
                } else {
                    old(layer)@.at(x, y)
                }
        },
{
    let ghost v = layer@;
    if x0 < 0 || y0 < 0 || (x0 as u32) >= layer.width || (y0 as u32) >= layer.height {
        return None;
    }
    let w = layer.width as usize;
    let h = layer.height as usize;
    let ghost seed = (x0 as int, y0 as int);
    let ghost region = wand_mask(v, seed, tol as int, contiguous);
    proof {
        lemma_grid_size(w as int, h as int);
        lemma_cell_in_grid(w as int, h as int, x0 as int, y0 as int);
    }
    let bytes = layer_bytes(layer);
    let blen = bytes.len();
    assert(w * h <= usize::MAX);
    let ghost g = layer_test(v, seed, tol as int);
    proof {
        assert(g.rgba == bytes@);
        assert(v.pixels[y0 * w + x0] == color_in_bytes(bytes@, y0 * w + x0)) by {
            let q = y0 * w + x0;
            assert(bytes@[4 * q] == v.pixels[q].r);
            assert(bytes@[4 * q + 1] == v.pixels[q].g);
            assert(bytes@[4 * q + 2] == v.pixels[q].b);
            assert(bytes@[4 * q + 3] == v.pixels[q].a);
        }
        assert(g == ColorTest::from_seed(bytes@, w as int, h as int, seed, tol as int));
    }
    let mask = if contiguous {
        flood_mask(bytes, w, h, x0 as usize, y0 as usize, tol)
    } else {
        let target = layer.cell((y0 as usize) * w + (x0 as usize));
        color_mask(bytes, w * h, target, tol)
    };
    proof {
        assert forall|x: int, y: int| 0 <= x < w && 0 <= y < h implies #[trigger] marked(mask@, w as int, (x, y))
            == wand_takes(v, seed, tol as int, contiguous, (x, y)) by {
            lemma_cell_in_grid(w as int, h as int, x, y);
        }
        assert forall|q: int| 0 <= q < w * h implies mask@[q] == region[q] by {
            lemma_cell_split(w as int, h as int, q);
            assert(marked(mask@, w as int, (q % (w as int), q / (w as int))) == mask@[q]);
        }
        assert(mask@ =~= region);
    }
    match mask_bounds(&mask, w, h) {
        None => None,
        Some((minx, miny, maxx, maxy)) => {
            let bw = maxx - minx + 1;
            let bh = maxy - miny + 1;
            let pixels = lift_region(layer, &mask, minx, miny, bw, bh);
            proof {
                assert forall|x: int, y: int| #![trigger layer@.at(x, y)] v.in_bounds(x, y) implies layer@.at(x, y)
                    == if wand_takes(v, seed, tol as int, contiguous, (x, y)) {
                    Color { r: 0, g: 0, b: 0, a: 0 }
                } else {
                    v.at(x, y)
                } by {
                    assert(marked(mask@, w as int, (x, y)) == wand_takes(v, seed, tol as int, contiguous, (x, y)));
                }
                assert forall|xx: int, yy: int| 0 <= xx < bw && 0 <= yy < bh implies #[trigger] color_in_bytes(
                    pixels@,
                    yy * bw + xx,
                ) == if wand_takes(v, seed, tol as int, contiguous, (minx + xx, miny + yy)) {
                    v.at(minx + xx, miny + yy)
                } else {
                    Color { r: 0, g: 0, b: 0, a: 0 }
                } by {
                    assert(marked(mask@, w as int, (minx + xx, miny + yy)) == wand_takes(
                        v,
                        seed,
                        tol as int,
                        contiguous,
                        (minx + xx, miny + yy),
                    ));
                }
            }
            Some(Lifted { x: minx as u32, y: miny as u32, w: bw as u32, h: bh as u32, pixels })
        },
    }
}

/// A size read as a signed 32-bit number (sizes from 2^31 up wrap round to
/// negative numbers).
pub open spec fn as_signed(n: u32) -> int {
    if n <= 0x7fff_ffff { n as int } else { n - 0x1_0000_0000 }
}

/// The rectangle (left, top, right, bottom; right and bottom excluded) that
/// a drag from `s` to `e` marks on a layer of `width` × `height`: the
/// corners sorted and cut to the layer.
pub open spec fn drag_rect(s: (i32, i32), e: (i32, i32), width: u32, height: u32) -> (int, int, int, int) {
    let lo_x: int = if s.0 <= e.0 { s.0 as int } else { e.0 as int };
    let lo_y: int = if s.1 <= e.1 { s.1 as int } else { e.1 as int };
    let hi_x: int = if s.0 >= e.0 { s.0 as int } else { e.0 as int };
    let hi_y: int = if s.1 >= e.1 { s.1 as int } else { e.1 as int };
    let wx = as_signed(width);
    let hy = as_signed(height);
    (
        if lo_x >= 0 { lo_x } else { 0 },
        if lo_y >= 0 { lo_y } else { 0 },
        if hi_x <= wx { hi_x } else { wx },
        if hi_y <= hy { hi_y } else { hy },
    )
}

fn signed_size(n: u32) -> (r: i64)
    ensures
        r == as_signed(n),
{
    if n <= 0x7fff_ffff {
        n as i64
    } else {
        n as i64 - 0x1_0000_0000
    }
}

fn drag_box(s: (i32, i32), e: (i32, i32), width: u32, height: u32) -> (b: (i64, i64, i64, i64))
    ensures
        b.0 == drag_rect(s, e, width, height).0,
        b.1 == drag_rect(s, e, width, height).1,
        b.2 == drag_rect(s, e, width, height).2,
        b.3 == drag_rect(s, e, width, height).3,
{
    let lo_x = if s.0 <= e.0 { s.0 } else { e.0 };
    let lo_y = if s.1 <= e.1 { s.1 } else { e.1 };
    let hi_x = if s.0 >= e.0 { s.0 } else { e.0 };
    let hi_y = if s.1 >= e.1 { s.1 } else { e.1 };
    let wx = signed_size(width);
    let hy = signed_size(height);
    (
        if lo_x >= 0 { lo_x as i64 } else { 0 },
        if lo_y >= 0 { lo_y as i64 } else { 0 },
        if (hi_x as i64) <= wx { hi_x as i64 } else { wx },
        if (hi_y as i64) <= hy { hi_y as i64 } else { hy },
    )
}

/// The rectangle selection: lifts out of the layer every pixel of the
/// rectangle dragged from `s` to `e` (cut to the layer); they become
/// transparent and are returned with their box. A rectangle less than a
/// pixel wide or high changes nothing and gives `None`.
pub fn lift_rect(layer: &mut Layer, s: (i32, i32), e: (i32, i32)) -> (r: Option<Lifted>)
    requires
        old(layer).wf(),
    ensures
        final(layer).wf(),
        final(layer)@.same_meta(old(layer)@),
        final(layer)@.width == old(layer)@.width,
        final(layer)@.height == old(layer)@.height,
        ({
            let b = drag_rect(s, e, old(layer).width, old(layer).height);
            &&& r is None <==> b.2 - b.0 < 1 || b.3 - b.1 < 1
            &&& r is None ==> *final(layer) == *old(layer)
            &&& r matches Some(l) ==> {
                &&& l.x == b.0 && l.y == b.1 && l.w == b.2 - b.0 && l.h == b.3 - b.1
                &&& l.pixels@.len() == l.w * l.h * 4
                &&& forall|xx: int, yy: int|
                    0 <= xx < l.w && 0 <= yy < l.h ==> #[trigger] color_in_bytes(l.pixels@, yy * l.w + xx)
                        == old(layer)@.at(l.x + xx, l.y + yy)
                &&& forall|x: int, y: int|
                    #![trigger final(layer)@.at(x, y)]
                    old(layer)@.in_bounds(x, y) ==> final(layer)@.at(x, y) == if in_box(
                        x,
                        y,
                        b.0,
                        b.1,
                        b.2 - b.0,
                        b.3 - b.1,
                    ) {
                        Color { r: 0, g: 0, b: 0, a: 0 }
                    } else {
                        old(layer)@.at(x, y)
                    }
            }
        }),
{
    let ghost v = layer@;
    let (x0, y0, x1, y1) = drag_box(s, e, layer.width, layer.height);
    if x1 - x0 < 1 || y1 - y0 < 1 {
        return None;
    }
    let w = layer.width as usize;
    let h = layer.height as usize;
    let len = layer.pixels.len();
    proof {
        lemma_grid_size(w as int, h as int);
    }
    let n = w * h;
    let mut all: Vec<bool> = Vec::with_capacity(n);
    let mut i: usize = 0;
    while i < n
        invariant
            i <= n,
            all@.len() == i,
            forall|j: int| 0 <= j < i ==> all@[j],
        decreases n - i,
    {
        all.push(true);
        i = i + 1;
    }
    let bw = (x1 - x0) as usize;
    let bh = (y1 - y0) as usize;
    let pixels = lift_region(layer, &all, x0 as usize, y0 as usize, bw, bh);
    proof {
        assert forall|x: int, y: int| #![trigger layer@.at(x, y)] v.in_bounds(x, y) implies layer@.at(x, y)
            == if in_box(x, y, x0 as int, y0 as int, bw as int, bh as int) {
            Color { r: 0, g: 0, b: 0, a: 0 }
        } else {
            v.at(x, y)
        } by {
            lemma_cell_in_grid(w as int, h as int, x, y);
        }
        assert forall|xx: int, yy: int| 0 <= xx < bw && 0 <= yy < bh implies #[trigger] color_in_bytes(
            pixels@,
            yy * bw + xx,
        ) == v.at(x0 + xx, y0 + yy) by {
            lemma_cell_in_grid(w as int, h as int, x0 + xx, y0 + yy);
        }
    }
    Some(Lifted { x: x0 as u32, y: y0 as u32, w: bw as u32, h: bh as u32, pixels })
}

/// Whether a brush centred on (x, y) covers cell (px, py): its offsets from
/// the centre lie between `lo` and `hi` on both axes and, for a `round`
/// brush, within the disc of radius `r`.
pub open spec fn brush_covers(x: int, y: int, lo: int, hi: int, round: bool, r: int, px: int, py: int) -> bool {
    &&& lo <= px - x <= hi
    &&& lo <= py - y <= hi
    &&& (!round || (px - x) * (px - x) + (py - y) * (py - y) <= r * r)
}

/// Paints `color` on every pixel of the layer that the brush of
/// [`brush_covers`] covers; pixels off the layer are left out.
fn paint_brush(layer: &mut Layer, x: i32, y: i32, lo: i64, hi: i64, round: bool, r: i32, color: Color)
    requires
        old(layer).wf(),
        lo <= 0 <= hi,
        i32::MIN <= x + lo,
        x + hi <= i32::MAX,
        i32::MIN <= y + lo,
        y + hi <= i32::MAX,
        round ==> -r <= lo && hi <= r && 2 * (r * r) <= i32::MAX,
    ensures
        final(layer).wf(),
        final(layer)@.same_meta(old(layer)@),
        final(layer)@.width == old(layer)@.width,
        final(layer)@.height == old(layer)@.height,
        forall|px: int, py: int|
            #![trigger final(layer)@.at(px, py)]
            old(layer)@.in_bounds(px, py) ==> final(layer)@.at(px, py) == if brush_covers(
                x as int,
                y as int,
                lo as int,
                hi as int,
                round,
                r as int,
                px,
                py,
            ) {
                color
            } else {
                old(layer)@.at(px, py)
            },
{
    let ghost v = layer@;
    assert(0 <= (r as i64) * (r as i64) <= 0x4000_0000_0000_0000) by (nonlinear_arith)
        requires
            -0x8000_0000 <= r <= 0x7fff_ffff,
    ;
    let rr: i64 = (r as i64) * (r as i64);
    let mut dy: i64 = lo;
    while dy <= hi
        invariant
            lo <= dy <= hi + 1,
            lo <= 0 <= hi,
            rr == r * r,
            round ==> -r <= lo && hi <= r && 2 * (r * r) <= i32::MAX,
            i32::MIN <= x + lo,
            x + hi <= i32::MAX,
            i32::MIN <= y + lo,
            y + hi <= i32::MAX,
            layer.wf(),
            layer@.same_meta(v),
            layer@.width == v.width,
            layer@.height == v.height,
            forall|px: int, py: int|
                #![trigger layer@.at(px, py)]
                v.in_bounds(px, py) ==> layer@.at(px, py) == if brush_covers(
                    x as int,
                    y as int,
                    lo as int,
                    hi as int,
                    round,
                    r as int,
                    px,
                    py,
                ) && py - y < dy {
                    color
                } else {
                    v.at(px, py)
                },
        decreases hi + 1 - dy,
    {
        let mut dx: i64 = lo;
        while dx <= hi
            invariant
                lo <= dy <= hi,
                lo <= dx <= hi + 1,
                lo <= 0 <= hi,
                rr == r * r,
                round ==> -r <= lo && hi <= r && 2 * (r * r) <= i32::MAX,
                i32::MIN <= x + lo,
                x + hi <= i32::MAX,
                i32::MIN <= y + lo,
                y + hi <= i32::MAX,
                layer.wf(),
                layer@.same_meta(v),
                layer@.width == v.width,
                layer@.height == v.height,
                forall|px: int, py: int|
                    #![trigger layer@.at(px, py)]
                    v.in_bounds(px, py) ==> layer@.at(px, py) == if brush_covers(
                        x as int,
                        y as int,
                        lo as int,
                        hi as int,
                        round,
                        r as int,
                        px,
                        py,
                    ) && (py - y < dy || (py - y == dy && px - x < dx)) {
                        color
                    } else {
                        v.at(px, py)
                    },
            decreases hi + 1 - dx,
        {
            let inside = if !round {
                true
            } else {
                assert(0 <= dx * dx <= r * r) by (nonlinear_arith)
                    requires
                        -r <= dx <= r,
                ;
                assert(0 <= dy * dy <= r * r) by (nonlinear_arith)
                    requires
                        -r <= dy <= r,
                ;
                dx * dx + dy * dy <= rr
            };
            let px = x as i64 + dx;
            let py = y as i64 + dy;
            let ghost before = layer@;
            if inside && px >= 0 && py >= 0 {
                layer.set_pixel(px as u32, py as u32, color);
                proof {
                    assert forall|a: int, b: int| #![trigger layer@.at(a, b)] v.in_bounds(a, b) implies layer@.at(a, b)
                        == if brush_covers(x as int, y as int, lo as int, hi as int, round, r as int, a, b) && (b
                        - y < dy || (b - y == dy && a - x < dx + 1)) {
                        color
                    } else {
                        v.at(a, b)
                    } by {
                        lemma_cell_in_grid(v.width as int, v.height as int, a, b);
                        if a == px && b == py {
                            lemma_cell_in_grid(v.width as int, v.height as int, px as int, py as int);
                        } else {
                            if v.in_bounds(px as int, py as int) {
                                lemma_cell_in_grid(v.width as int, v.height as int, px as int, py as int);
                                if b * v.width + a == py * v.width + px {
                                    lemma_cell_unique(v.width as int, a, b, px as int, py as int);
                                }
                            }
                            assert(layer@.at(a, b) == before.at(a, b));
                        }
                    }
                }
            } else {
                proof {
                    assert forall|a: int, b: int| #![trigger layer@.at(a, b)] v.in_bounds(a, b) implies layer@.at(a, b)
                        == if brush_covers(x as int, y as int, lo as int, hi as int, round, r as int, a, b) && (b
                        - y < dy || (b - y == dy && a - x < dx + 1)) {
                        color
                    } else {
                        v.at(a, b)
                    } by {
                        if a == px && b == py {
                            assert(!brush_covers(x as int, y as int, lo as int, hi as int, round, r as int, a, b));
                        }
                    }
                }
            }
            dx = dx + 1;
        }
        dy = dy + 1;
    }
}

/// The offsets, from the centre, of the first and last row (and column) that
/// the hard brush of size `r` may cover: in pixel-art mode a square of side
/// max(r, 1), its extra row and column (for an even side) on the bottom
/// right; otherwise the square round the disc of radius `r` (a single pixel
/// for r ≤ 1).
pub open spec fn hard_extent(r: int, pixel: bool) -> (int, int) {
    if pixel {
        let s = if r >= 1 { r } else { 1 };
        (-(s / 2), s - 1 - s / 2)
    } else if r <= 1 {
        (0, 0)
    } else {
        (-r, r)
    }
}

/// Whether the hard brush of size `r` stamped at (x, y) covers cell (px, py):
/// in pixel-art mode the whole square of [`hard_extent`]; otherwise the one
/// pixel (x, y) for r ≤ 1, or the disc of radius `r`.
pub open spec fn hard_covers(x: int, y: int, r: int, pixel: bool, px: int, py: int) -> bool {
    let e = hard_extent(r, pixel);
    brush_covers(x, y, e.0, e.1, !pixel && r > 1, r, px, py)
}

/// The hard brush: paints `color` (replacing, no blending) on every pixel
/// of the layer that the brush of size `r` at (x, y) covers
/// ([`hard_covers`]); pixels off the layer are left out.
pub fn stamp_hard(layer: &mut Layer, x: i32, y: i32, r: i32, color: Color, pixel: bool)
    requires
        old(layer).wf(),
        i32::MIN <= x + hard_extent(r as int, pixel).0,
        x + hard_extent(r as int, pixel).1 <= i32::MAX,
        i32::MIN <= y + hard_extent(r as int, pixel).0,
        y + hard_extent(r as int, pixel).1 <= i32::MAX,
        !pixel && r > 1 ==> 2 * (r * r) <= i32::MAX,
    ensures
        final(layer).wf(),
        final(layer)@.same_meta(old(layer)@),
        final(layer)@.width == old(layer)@.width,
        final(layer)@.height == old(layer)@.height,
        forall|px: int, py: int|
            #![trigger final(layer)@.at(px, py)]
            old(layer)@.in_bounds(px, py) ==> final(layer)@.at(px, py) == if hard_covers(
                x as int,
                y as int,
                r as int,
                pixel,
                px,
                py,
            ) {
                color
            } else {
                old(layer)@.at(px, py)
            },
{
    let (lo, hi): (i64, i64) = if pixel {
        let s: i64 = if r >= 1 { r as i64 } else { 1 };
        (-(s / 2), s - 1 - s / 2)
    } else if r <= 1 {
        (0, 0)
    } else {
        (-(r as i64), r as i64)
    };
    paint_brush(layer, x, y, lo, hi, !pixel && r > 1, r, color);
}

/// Whether the pixel-art brush of side `r` stamped at (x, y) covers cell
/// (px, py): the `r` × `r` square that starts (r − 1) / 2 cells up and left
/// of (x, y); nothing for r ≤ 0.
pub open spec fn square_covers(x: int, y: int, r: int, px: int, py: int) -> bool {
    r >= 1 && brush_covers(x, y, -((r - 1) / 2), r - 1 - (r - 1) / 2, false, 0, px, py)
}

/// The pixel-art brush: paints `color` on every pixel of the layer in the
/// square of side `r` ([`square_covers`]); pixels off the layer are left out.
pub fn stamp_square(layer: &mut Layer, x: i32, y: i32, r: i32, color: Color)
    requires
        old(layer).wf(),
        r >= 1 ==> i32::MIN <= x - (r - 1) / 2 && x + (r - 1 - (r - 1) / 2) <= i32::MAX,
        r >= 1 ==> i32::MIN <= y - (r - 1) / 2 && y + (r - 1 - (r - 1) / 2) <= i32::MAX,
    ensures
        final(layer).wf(),
        final(layer)@.same_meta(old(layer)@),
        final(layer)@.width == old(layer)@.width,
        final(layer)@.height == old(layer)@.height,
        forall|px: int, py: int|
            #![trigger final(layer)@.at(px, py)]
            old(layer)@.in_bounds(px, py) ==> final(layer)@.at(px, py) == if square_covers(
                x as int,
                y as int,
                r as int,
                px,
                py,
            ) {
                color
            } else {
                old(layer)@.at(px, py)
            },
{
    if r < 1 {
        return;
    }
    let half: i64 = ((r as i64) - 1) / 2;
    paint_brush(layer, x, y, -half, (r as i64) - 1 - half, false, 0, color);
}

/// A flood never takes a cell whose colour is out of tolerance, nor a cell
/// off the grid: every cell it reaches passes the test.
pub proof fn law_flood_takes_only_matching(g: ColorTest, seed: (int, int), p: (int, int))
    requires
        g.reaches(seed, p),
    ensures
        g.passes(p),
{
    let path = choose|path: Seq<(int, int)>| #[trigger] g.is_walk(path) && path[0] == seed && path.last() == p;
    assert(g.passes(path[path.len() - 1]));
}

/// The clicked cell itself is always part of the flood when the tolerance is
/// not negative.
pub proof fn law_flood_takes_seed(rgba: Seq<u8>, w: int, h: int, seed: (int, int), tol: int)
    requires
        0 <= seed.0 < w,
        0 <= seed.1 < h,
        tol >= 0,
    ensures
        ColorTest::from_seed(rgba, w, h, seed, tol).reaches(seed, seed),
{
    let g = ColorTest::from_seed(rgba, w, h, seed, tol);
    let path = seq![seed];
    assert(g.passes(path[0]));
    assert(g.is_walk(path));
    assert(path.last() == seed);
}

/// The contiguous magic wand takes a subset of what the global one takes.
pub proof fn law_contiguous_wand_within_global(v: LayerView, seed: (int, int), tol: int, p: (int, int))
    requires
        wand_takes(v, seed, tol, true, p),
    ensures
        wand_takes(v, seed, tol, false, p),
{
    law_flood_takes_only_matching(layer_test(v, seed, tol), seed, p);
}

/// Whether the square brush of side `size` (at least 1) stamped at (x, y)
/// covers cell (px, py): the side-long square that starts (side − 1) / 2
/// cells up and left of (x, y).
pub open spec fn editor_covers(x: int, y: int, size: int, px: int, py: int) -> bool {
    let s = if size >= 1 { size } else { 1 };
    let half = (s - 1) / 2;
    x - half <= px < x - half + s && y - half <= py < y - half + s
}

/// Whether byte `j` of a `w` × `h` RGBA buffer belongs to a pixel that the
/// editor's brush at (x, y) paints: a pixel of the grid, covered, and held
/// whole by the buffer.
pub open spec fn editor_paints_byte(len: int, w: int, h: int, x: int, y: int, size: int, j: int) -> bool {
    let q = j / 4;
    &&& 0 <= j
    &&& w > 0
    &&& q < w * h
    &&& 4 * q + 4 <= len
    &&& editor_covers(x, y, size, q % w, q / w)
}

/// The piece editor's brush: paints `color` (for the eraser, transparent) on
/// the pixels of a `w` × `h` RGBA buffer under the square brush of side
/// `size` at (x, y) ([`editor_covers`]); pixels off the grid, or not held
/// whole by the buffer, are left out.
pub fn paint_editor(buf: &mut Vec<u8>, w: i32, h: i32, x: i32, y: i32, size: i32, color: Color)
    requires
        ({
            let s: int = if size >= 1 { size as int } else { 1 };
            &&& i32::MIN <= x - (s - 1) / 2
            &&& x - (s - 1) / 2 + s <= i32::MAX
            &&& i32::MIN <= y - (s - 1) / 2
            &&& y - (s - 1) / 2 + s <= i32::MAX
            &&& (w > 0 && h > 0 ==> (w * h - 1) * 4 <= i32::MAX)
        }),
    ensures
        final(buf)@.len() == old(buf)@.len(),
        forall|j: int|
            0 <= j < old(buf)@.len() ==> #[trigger] final(buf)@[j] == if editor_paints_byte(
                old(buf)@.len() as int,
                w as int,
                h as int,
                x as int,
                y as int,
                size as int,
                j,
            ) {
                crate::raster::channel_of(color, j % 4)
            } else {
                old(buf)@[j]
            },
{
    if w <= 0 || h <= 0 {
        proof {
            assert forall|j: int| 0 <= j < buf@.len() implies !editor_paints_byte(
                buf@.len() as int,
                w as int,
                h as int,
                x as int,
                y as int,
                size as int,
                j,
            ) by {
                if w > 0 {
                    assert(w * h <= 0) by (nonlinear_arith)
                        requires
                            w > 0,
                            h <= 0,
                    ;
                }
            }
        }
        return;
    }
    let ghost old_buf = buf@;
    let len = buf.len();
    let s: i32 = if size >= 1 { size } else { 1 };
    let half: i32 = (s - 1) / 2;
    let mut dy: i32 = 0;
    while dy < s
        invariant
            0 <= dy <= s,
            s >= 1,
            s == (if size >= 1 { size as int } else { 1 }),
            half == (s - 1) / 2,
            0 <= half < s,
            i32::MIN <= x - half,
            x - half + s <= i32::MAX,
            i32::MIN <= y - half,
            y - half + s <= i32::MAX,
            w > 0,
            h > 0,
            (w * h - 1) * 4 <= i32::MAX,
            len == old_buf.len(),
            buf@.len() == len,
            forall|j: int|
                0 <= j < len ==> #[trigger] buf@[j] == if editor_paints_byte(
                    len as int,
                    w as int,
                    h as int,
                    x as int,
                    y as int,
                    size as int,
                    j,
                ) && (j / 4) / (w as int) < y - half + dy {
                    channel_of(color, j % 4)
                } else {
                    old_buf[j]
                },
        decreases s - dy,
    {
        let mut dx: i32 = 0;
        while dx < s
            invariant
                0 <= dy < s,
                0 <= dx <= s,
                s >= 1,
                s == (if size >= 1 { size as int } else { 1 }),
                half == (s - 1) / 2,
                0 <= half < s,
                i32::MIN <= x - half,
                x - half + s <= i32::MAX,
                i32::MIN <= y - half,
                y - half + s <= i32::MAX,
                w > 0,
                h > 0,
                (w * h - 1) * 4 <= i32::MAX,
                len == old_buf.len(),
                buf@.len() == len,
                forall|j: int|
                    0 <= j < len ==> #[trigger] buf@[j] == if editor_paints_byte(
                        len as int,
                        w as int,
                        h as int,
                        x as int,
                        y as int,
                        size as int,
                        j,
                    ) && ((j / 4) / (w as int) < y - half + dy || ((j / 4) / (w as int) == y - half + dy && (j
                        / 4) % (w as int) < x - half + dx)) {
                        channel_of(color, j % 4)
                    } else {
                        old_buf[j]
                    },
            decreases s - dx,
        {
            let px = x - half + dx;
            let py = y - half + dy;
            let ghost before = buf@;
            if px >= 0 && py >= 0 && px < w && py < h {
                proof {
                    lemma_cell_in_grid(w as int, h as int, px as int, py as int);
                    assert((py * w + px) * 4 <= (w * h - 1) * 4) by (nonlinear_arith)
                        requires
                            py * w + px + 1 <= w * h,
                    ;
                }
                let idx = ((py * w + px) * 4) as usize;
                if idx + 4 <= len {
                    buf.set(idx, color.r);
                    buf.set(idx + 1, color.g);
                    buf.set(idx + 2, color.b);
                    buf.set(idx + 3, color.a);
                }
            }
            proof {
                assert forall|j: int| 0 <= j < len implies #[trigger] buf@[j] == if editor_paints_byte(
                    len as int,
                    w as int,
                    h as int,
                    x as int,
                    y as int,
                    size as int,
                    j,
                ) && ((j / 4) / (w as int) < y - half + dy || ((j / 4) / (w as int) == y - half + dy && (j / 4) % (
                w as int) < x - half + dx + 1)) {
                    channel_of(color, j % 4)
                } else {
                    old_buf[j]
                } by {
                    lemma_editor_byte(len as int, w as int, h as int, j, px as int, py as int);
                    let q = j / 4;
                    let on_grid = 0 <= px < w && 0 <= py < h;
                    if on_grid {
                        lemma_cell_in_grid(w as int, h as int, px as int, py as int);
                        crate::grid::lemma_cell_coords(w as int, px as int, py as int);
                    }
                    if on_grid && q == py * w + px && (py * w + px) * 4 + 4 <= len {
                        assert(j - (py * w + px) * 4 == j % 4);
                        assert(buf@[j] == channel_of(color, j % 4));
                    } else {
                        if on_grid && (py * w + px) * 4 + 4 <= len {
                            assert(j < (py * w + px) * 4 || j >= (py * w + px) * 4 + 4);
                        }
                        assert(buf@[j] == before[j]);
                    }
                }
            }
            dx = dx + 1;
        }
        proof {
            assert forall|j: int| 0 <= j < len implies #[trigger] buf@[j] == if editor_paints_byte(
                len as int,
                w as int,
                h as int,
                x as int,
                y as int,
                size as int,
                j,
            ) && (j / 4) / (w as int) < y - half + dy + 1 {
                channel_of(color, j % 4)
            } else {
                old_buf[j]
            } by {
                if editor_paints_byte(len as int, w as int, h as int, x as int, y as int, size as int, j) {
                    vstd::arithmetic::div_mod::lemma_mod_pos_bound(j / 4, w as int);
                }
            }
        }
        dy = dy + 1;
    }
    proof {
        assert forall|j: int| 0 <= j < len implies #[trigger] buf@[j] == if editor_paints_byte(
            len as int,
            w as int,
            h as int,
            x as int,
            y as int,
            size as int,
            j,
        ) {
            channel_of(color, j % 4)
        } else {
            old_buf[j]
        } by {}
    }
}

/// Where byte `j` of a `w` × `h` RGBA buffer lies: pixel `j / 4`, channel
/// `j % 4`; the pixel is (q % w, q / w), and pixel (px, py) of the grid holds
/// bytes 4(py·w + px) to 4(py·w + px) + 3.
proof fn lemma_editor_byte(len: int, w: int, h: int, j: int, px: int, py: int)
    requires
        w > 0,
        0 <= j < len,
    ensures
        j == 4 * (j / 4) + j % 4,
        0 <= j % 4 < 4,
        0 <= j / 4,
        (j / 4) == w * ((j / 4) / w) + (j / 4) % w,
        0 <= (j / 4) % w < w,
        0 <= (j / 4) / w,
        0 <= px < w && 0 <= py ==> ((j / 4 == py * w + px) <==> ((j / 4) % w == px && (j / 4) / w == py)),
        0 <= h && j / 4 < w * h ==> (j / 4) / w < h,
{
    vstd::arithmetic::div_mod::lemma_fundamental_div_mod(j, 4);
    vstd::arithmetic::div_mod::lemma_fundamental_div_mod(j / 4, w);
    vstd::arithmetic::div_mod::lemma_mod_pos_bound(j / 4, w);
    vstd::arithmetic::div_mod::lemma_div_pos_is_pos(j / 4, w);
    if 0 <= h && j / 4 < w * h {
        lemma_cell_split(w, h, j / 4);
    }
    if 0 <= px < w && 0 <= py {
        crate::grid::lemma_cell_coords(w, px, py);
        if (j / 4) % w == px && (j / 4) / w == py {
            assert(j / 4 == py * w + px) by (nonlinear_arith)
                requires
                    (j / 4) == w * ((j / 4) / w) + (j / 4) % w,
                    (j / 4) % w == px,
                    (j / 4) / w == py,
            ;
        }
    }
}

/// Every channel, alpha included, of a colour within `tol` of another lies
/// at most `tol` away from the same channel of it, and such colours are
/// exactly those within `tol`.
pub proof fn law_within_every_channel(c: Color, t: Color, tol: int)
    ensures
        within(c, t, tol) <==> {
            &&& -tol <= c.r - t.r <= tol
            &&& -tol <= c.g - t.g <= tol
            &&& -tol <= c.b - t.b <= tol
            &&& -tol <= c.a - t.a <= tol
        },
{
}

/// The bucket paints only pixels whose every channel, alpha included, lies
/// within `tol` of the clicked pixel's: a flood seeded on a transparent
/// pixel with tolerance 0 never crosses an opaque line.
pub proof fn law_bucket_respects_every_channel(
    reference: Seq<u8>,
    w: int,
    h: int,
    seed: (int, int),
    tol: int,
    p: (int, int),
)
    requires
        bucket_reaches(reference, w, h, seed, tol, p),
    ensures
        0 <= p.0 < w && 0 <= p.1 < h,
        ({
            let i = 4 * (p.1 * w + p.0);
            let j = 4 * (seed.1 * w + seed.0);
            &&& -tol <= reference[i] - reference[j] <= tol
            &&& -tol <= reference[i + 1] - reference[j + 1] <= tol
            &&& -tol <= reference[i + 2] - reference[j + 2] <= tol
            &&& -tol <= reference[i + 3] - reference[j + 3] <= tol
        }),
{
    let g = ColorTest::from_seed(reference, w, h, seed, tol);
    law_flood_takes_only_matching(g, seed, p);
    law_within_every_channel(g.pixel(p), g.target, tol);
}

/// The bucket spreads to each side neighbour of a pixel it paints — right,
/// left, below and above — when that neighbour lies on the grid and all of
/// its channels lie within `tol` of the clicked pixel's.
pub proof fn law_bucket_spreads_to_sides(
    reference: Seq<u8>,
    w: int,
    h: int,
    seed: (int, int),
    tol: int,
    p: (int, int),
    q: (int, int),
)
    requires
        bucket_reaches(reference, w, h, seed, tol, p),
        q == (p.0 + 1, p.1) || q == (p.0 - 1, p.1) || q == (p.0, p.1 + 1) || q == (p.0, p.1 - 1),
        0 <= q.0 < w && 0 <= q.1 < h,
        ({
            let i = 4 * (q.1 * w + q.0);
            let j = 4 * (seed.1 * w + seed.0);
            &&& -tol <= reference[i] - reference[j] <= tol
            &&& -tol <= reference[i + 1] - reference[j + 1] <= tol
            &&& -tol <= reference[i + 2] - reference[j + 2] <= tol
            &&& -tol <= reference[i + 3] - reference[j + 3] <= tol
        }),
    ensures
        bucket_reaches(reference, w, h, seed, tol, q),
{
    let g = ColorTest::from_seed(reference, w, h, seed, tol);
    law_within_every_channel(g.pixel(q), g.target, tol);
    assert(g.passes(q));
    let path = choose|path: Seq<(int, int)>| #[trigger] g.is_walk(path) && path[0] == seed && path.last() == p;
    let longer = path.push(q);
    assert forall|k: int| 0 <= k < longer.len() implies g.passes(#[trigger] longer[k]) by {
        if k < path.len() {
            assert(longer[k] == path[k]);
        }
    }
    assert forall|k: int| 0 <= k < longer.len() - 1 implies #[trigger] step_ok(longer, k) by {
        if k < path.len() - 1 {
            assert(step_ok(path, k));
        }
    }
    assert(g.is_walk(longer));
    assert(longer[0] == seed && longer.last() == q);
}

} // verus!
