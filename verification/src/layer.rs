//! A layer: a buffer of RGBA pixels the size of the document.
use vstd::prelude::*;
use vstd::string::*;
use crate::color::Color;
use crate::grid::{lemma_cell_coords, lemma_cell_in_grid, lemma_cell_split, lemma_cell_unique, lemma_grid_size};

verus! {

/// What a layer is: its attributes and its pixels, row by row, as colours.
pub struct LayerView {
    pub name: Seq<char>,
    pub visible: bool,
    pub locked: bool,
    /// The bits of the layer's opacity, an `f32` between 0 and 1.
    pub opacity: u32,
    pub width: nat,
    pub height: nat,
    /// `width * height` colours, row by row.
    pub pixels: Seq<Color>,
}

impl LayerView {
    /// The colour of the pixel at column `x`, row `y`.
    pub open spec fn at(self, x: int, y: int) -> Color {
        self.pixels[y * self.width + x]
    }

    pub open spec fn in_bounds(self, x: int, y: int) -> bool {
        0 <= x < self.width && 0 <= y < self.height
    }

    /// Every pixel is fully transparent black.
    pub open spec fn is_clear(self) -> bool {
        forall|i: int| 0 <= i < self.pixels.len() ==> self.pixels[i] == (Color { r: 0, g: 0, b: 0, a: 0 })
    }

    /// Same attributes, dimensions and pixels.
    pub open spec fn same_meta(self, other: LayerView) -> bool {
        &&& self.name == other.name
        &&& self.visible == other.visible
        &&& self.locked == other.locked
        &&& self.opacity == other.opacity
    }
}

/// A rearrangement of a layer's pixels: a mirror or a quarter turn.
#[derive(Clone, Copy)]
pub enum Turn {
    /// Mirror left to right.
    FlipH,
    /// Mirror top to bottom.
    FlipV,
    /// Half turn.
    Half,
    /// Quarter turn clockwise (width and height trade places).
    Cw,
    /// Quarter turn counter-clockwise (width and height trade places).
    Ccw,
}

impl Turn {
    /// The turn trades width and height.
    pub open spec fn swaps(self) -> bool {
        self is Cw || self is Ccw
    }
}

/// The column of the old `w` × `h` layer that lands at (x, y) after `t`.
pub open spec fn source_x(t: Turn, w: int, h: int, x: int, y: int) -> int {
    match t {
        Turn::FlipH => w - 1 - x,
        Turn::FlipV => x,
        Turn::Half => w - 1 - x,
        Turn::Cw => y,
        Turn::Ccw => w - 1 - y,
    }
}

/// The row of the old `w` × `h` layer that lands at (x, y) after `t`.
pub open spec fn source_y(t: Turn, w: int, h: int, x: int, y: int) -> int {
    match t {
        Turn::FlipH => y,
        Turn::FlipV => h - 1 - y,
        Turn::Half => h - 1 - y,
        Turn::Cw => h - 1 - x,
        Turn::Ccw => x,
    }
}

impl LayerView {
    /// A transparent, visible, unlocked, fully opaque layer of the given size.
    pub open spec fn blank(name: Seq<char>, width: nat, height: nat) -> LayerView {
        LayerView {
            name,
            visible: true,
            locked: false,
            opacity: full_opacity(),
            width,
            height,
            pixels: Seq::new(width * height, |q: int| Color { r: 0, g: 0, b: 0, a: 0 }),
        }
    }

    /// The layer on a canvas of `w` × `h`: the drawing stays anchored at the
    /// top left, what falls outside is cut off, new room is transparent.
    pub open spec fn resized(self, w: nat, h: nat) -> LayerView {
        LayerView {
            width: w,
            height: h,
            pixels: Seq::new(
                w * h,
                |q: int|
                    if q % (w as int) < self.width && q / (w as int) < self.height {
                        self.at(q % (w as int), q / (w as int))
                    } else {
                        Color { r: 0, g: 0, b: 0, a: 0 }
                    },
            ),
            ..self
        }
    }

    /// One colour per pixel.
    pub open spec fn wf(self) -> bool {
        self.pixels.len() == self.width * self.height
    }

    /// Width after turn `t`.
    pub open spec fn turned_width(self, t: Turn) -> nat {
        if t.swaps() { self.height } else { self.width }
    }

    /// Height after turn `t`.
    pub open spec fn turned_height(self, t: Turn) -> nat {
        if t.swaps() { self.width } else { self.height }
    }

    /// The layer after turn `t`: each pixel (x, y) of the result is the pixel
    /// of this layer at (`source_x`, `source_y`).
    pub open spec fn turned(self, t: Turn) -> LayerView {
        let nw = self.turned_width(t);
        let nh = self.turned_height(t);
        LayerView {
            width: nw,
            height: nh,
            pixels: Seq::new(
                nw * nh,
                |q: int|
                    self.at(
                        source_x(t, self.width as int, self.height as int, q % (nw as int), q / (nw as int)),
                        source_y(t, self.width as int, self.height as int, q % (nw as int), q / (nw as int)),
                    ),
            ),
            ..self
        }
    }
}

/// The colour stored in the four bytes of pixel `q`.
pub open spec fn color_in_bytes(b: Seq<u8>, q: int) -> Color {
    Color { r: b[4 * q], g: b[4 * q + 1], b: b[4 * q + 2], a: b[4 * q + 3] }
}

/// A layer: RGBA pixels, row by row, `width * height * 4` bytes.
pub struct Layer {
    pub name: String,
    pub visible: bool,
    /// A locked layer takes no drawing.
    pub locked: bool,
    /// Bits of the `f32` opacity (0.0–1.0) that multiplies alpha on composition.
    pub opacity: u32,
    pub width: u32,
    pub height: u32,
    pub pixels: Vec<u8>,
}

impl View for Layer {
    type V = LayerView;

    open spec fn view(&self) -> LayerView {
        LayerView {
            name: self.name@,
            visible: self.visible,
            locked: self.locked,
            opacity: self.opacity,
            width: self.width as nat,
            height: self.height as nat,
            pixels: Seq::new(
                (self.width * self.height) as nat,
                |q: int| color_in_bytes(self.pixels@, q),
            ),
        }
    }
}

impl Clone for Layer {
    /// A copy with the same attributes and the same bytes.
    fn clone(&self) -> (res: Self)
        ensures
            res@ == self@,
            res.bytes() == self.bytes(),
            res.width == self.width,
            res.height == self.height,
    {
        let pixels = self.pixels.clone();
        proof {
            assert(pixels@ =~= self.pixels@);
        }
        Layer {
            name: self.name.clone(),
            visible: self.visible,
            locked: self.locked,
            opacity: self.opacity,
            width: self.width,
            height: self.height,
            pixels,
        }
    }
}

/// The bits of `1.0f32`, the opacity of a new layer.
pub open spec fn full_opacity() -> u32 {
    0x3f80_0000
}

impl Layer {
    /// The byte buffer holds exactly four bytes per pixel.
    pub open spec fn wf(&self) -> bool {
        self.pixels@.len() == self.width * self.height * 4
    }

    /// The raw bytes of the pixels, row by row.
    pub open spec fn bytes(&self) -> Seq<u8> {
        self.pixels@
    }

    /// A transparent layer of the given size.
    pub fn new(name: &str, width: u32, height: u32) -> (l: Self)
        requires
            width * height * 4 <= usize::MAX,
        ensures
            l.wf(),
            l@ == LayerView::blank(name@, width as nat, height as nat),
            l@.is_clear(),
            l.bytes().len() == width * height * 4,
            forall|i: int| 0 <= i < l.bytes().len() ==> l.bytes()[i] == 0,
    {
        proof {
            lemma_grid_size(width as int, height as int);
        }
        let n: usize = (width as usize) * (height as usize) * 4;
        let mut pixels: Vec<u8> = Vec::with_capacity(n);
        let mut i: usize = 0;
        while i < n
            invariant
                i <= n,
                pixels@.len() == i,
                forall|j: int| 0 <= j < i ==> pixels@[j] == 0,
            decreases n - i,
        {
            pixels.push(0);
            i = i + 1;
        }
        let l = Layer {
            name: String::from_str(name),
            visible: true,
            locked: false,
            opacity: 0x3f80_0000,
            width,
            height,
            pixels,
        };
        assert(l@.pixels =~= LayerView::blank(name@, width as nat, height as nat).pixels);
        l
    }

    pub fn width(&self) -> (w: u32)
        ensures
            w == self@.width,
    {
        self.width
    }

    pub fn height(&self) -> (h: u32)
        ensures
            h == self@.height,
    {
        self.height
    }

    /// The raw RGBA bytes, row by row.
    pub fn pixels(&self) -> (p: &[u8])
        ensures
            p@ == self.bytes(),
    {
        self.pixels.as_slice()
    }

    /// The bits of the layer's `f32` opacity.
    pub fn opacity(&self) -> (o: u32)
        ensures
            o == self@.opacity,
    {
        self.opacity
    }

    /// Index of the R byte of pixel (x, y), when it lies inside the layer.
    fn index(&self, x: u32, y: u32) -> (r: Option<usize>)
        requires
            self.wf(),
        ensures
            r is Some <==> self@.in_bounds(x as int, y as int),
            r matches Some(i) ==> i == 4 * (y * self.width + x) && i + 4 <= self.pixels@.len(),
    {
        let n = self.pixels.len();
        if x < self.width && y < self.height {
            proof {
                lemma_cell_in_grid(self.width as int, self.height as int, x as int, y as int);
                lemma_grid_size(self.width as int, self.height as int);
                assert(n == 4 * (self.width * self.height));
            }
            Some(((y as usize) * (self.width as usize) + (x as usize)) * 4)
        } else {
            None
        }
    }

    /// Paints one pixel (replaces it, no blending); a pixel outside the
    /// layer is ignored.
    pub fn set_pixel(&mut self, x: u32, y: u32, color: Color)
        requires
            old(self).wf(),
        ensures
            final(self).wf(),
            final(self)@.same_meta(old(self)@),
            final(self)@.width == old(self)@.width,
            final(self)@.height == old(self)@.height,
            old(self)@.in_bounds(x as int, y as int) ==> final(self)@.pixels == old(self)@.pixels.update(
                y * old(self)@.width + x,
                color,
            ),
            !old(self)@.in_bounds(x as int, y as int) ==> final(self)@ == old(self)@,
    {
        if let Some(i) = self.index(x, y) {
            proof {
                lemma_cell_in_grid(self.width as int, self.height as int, x as int, y as int);
            }
            self.pixels.set(i, color.r);
            self.pixels.set(i + 1, color.g);
            self.pixels.set(i + 2, color.b);
            self.pixels.set(i + 3, color.a);
            proof {
                let q = y * self.width + x;
                assert(self@.pixels =~= old(self)@.pixels.update(q, color));
            }
        }
    }

    /// Paints pixel number `q` (row by row).
    pub(crate) fn set_cell(&mut self, q: usize, color: Color)
        requires
            old(self).wf(),
            q < old(self)@.width * old(self)@.height,
        ensures
            final(self).wf(),
            final(self)@ == (LayerView { pixels: old(self)@.pixels.update(q as int, color), ..old(self)@ }),
            final(self).width == old(self).width,
            final(self).height == old(self).height,
    {
        proof {
            lemma_grid_size(self.width as int, self.height as int);
        }
        let n = self.pixels.len();
        let i = 4 * q;
        self.pixels.set(i, color.r);
        self.pixels.set(i + 1, color.g);
        self.pixels.set(i + 2, color.b);
        self.pixels.set(i + 3, color.a);
        proof {
            assert(self@.pixels =~= old(self)@.pixels.update(q as int, color));
        }
    }

    /// The colour of pixel number `q` (row by row).
    pub(crate) fn cell(&self, q: usize) -> (c: Color)
        requires
            self.wf(),
            q < self@.width * self@.height,
        ensures
            c == self@.pixels[q as int],
    {
        proof {
            lemma_grid_size(self.width as int, self.height as int);
        }
        let n = self.pixels.len();
        let i = 4 * q;
        Color { r: self.pixels[i], g: self.pixels[i + 1], b: self.pixels[i + 2], a: self.pixels[i + 3] }
    }

    /// The colour of a pixel, when it lies inside the layer.
    pub fn get_pixel(&self, x: u32, y: u32) -> (c: Option<Color>)
        requires
            self.wf(),
        ensures
            c == (if self@.in_bounds(x as int, y as int) {
                Some(self@.at(x as int, y as int))
            } else {
                None
            }),
    {
        let i = self.index(x, y)?;
        proof {
            lemma_cell_in_grid(self.width as int, self.height as int, x as int, y as int);
        }
        Some(Color::rgba(self.pixels[i], self.pixels[i + 1], self.pixels[i + 2], self.pixels[i + 3]))
    }
    /// The pixels after turn `t`, four bytes per pixel.
    fn turned_bytes(&self, t: Turn) -> (np: Vec<u8>)
        requires
            self.wf(),
        ensures
            np@.len() == 4 * (self@.turned_width(t) * self@.turned_height(t)),
            forall|q: int|
                0 <= q < self@.turned_width(t) * self@.turned_height(t) ==> #[trigger] color_in_bytes(np@, q)
                    == self@.turned(t).pixels[q],
    {
        let w = self.width as usize;
        let h = self.height as usize;
        let n = self.pixels.len();
        proof {
            lemma_grid_size(w as int, h as int);
        }
        let nw: usize = match t {
            Turn::Cw | Turn::Ccw => h,
            _ => w,
        };
        let nh: usize = match t {
            Turn::Cw | Turn::Ccw => w,
            _ => h,
        };
        proof {
            lemma_grid_size(nw as int, nh as int);
        }
        let total: usize = nw * nh;
        let mut np: Vec<u8> = Vec::with_capacity(n);
        let mut q: usize = 0;
        let mut nx: usize = 0;
        let mut ny: usize = 0;
        while q < total
            invariant
                self.wf(),
                w == self.width,
                h == self.height,
                n == self.pixels@.len(),
                n == 4 * (w * h),
                nw == self@.turned_width(t),
                nh == self@.turned_height(t),
                total == nw * nh,
                total == w * h,
                q <= total,
                q == ny * nw + nx,
                nx < nw || nw == 0,
                np@.len() == 4 * q,
                forall|j: int| 0 <= j < q ==> #[trigger] color_in_bytes(np@, j) == self@.turned(t).pixels[j],
            decreases total - q,
        {
            proof {
                assert(nw > 0 && ny < nh) by (nonlinear_arith)
                    requires
                        q == ny * nw + nx,
                        q < nw * nh,
                        nx < nw || nw == 0,
                        0 <= nx,
                        0 <= ny,
                ;
            }
            let sx: usize = match t {
                Turn::FlipH => w - 1 - nx,
                Turn::FlipV => nx,
                Turn::Half => w - 1 - nx,
                Turn::Cw => ny,
                Turn::Ccw => w - 1 - ny,
            };
            let sy: usize = match t {
                Turn::FlipH => ny,
                Turn::FlipV => h - 1 - ny,
                Turn::Half => h - 1 - ny,
                Turn::Cw => h - 1 - nx,
                Turn::Ccw => nx,
            };
            proof {
                lemma_cell_in_grid(w as int, h as int, sx as int, sy as int);
                lemma_cell_coords(nw as int, nx as int, ny as int);
                assert(sx == source_x(t, w as int, h as int, nx as int, ny as int));
                assert(sy == source_y(t, w as int, h as int, nx as int, ny as int));
            }
            let s = (sy * w + sx) * 4;
            let ghost before = np@;
            np.push(self.pixels[s]);
            np.push(self.pixels[s + 1]);
            np.push(self.pixels[s + 2]);
            np.push(self.pixels[s + 3]);
            proof {
                assert forall|j: int| 0 <= j < q + 1 implies #[trigger] color_in_bytes(np@, j)
                    == self@.turned(t).pixels[j] by {
                    if j < q {
                        assert(color_in_bytes(np@, j) == color_in_bytes(before, j));
                    } else {
                        assert(j == q);
                        assert(self@.turned(t).pixels[j] == self@.at(sx as int, sy as int));
                    }
                }
            }
            q = q + 1;
            nx = nx + 1;
            if nx == nw {
                proof {
                    assert((ny + 1) * nw == ny * nw + nw) by (nonlinear_arith);
                }
                nx = 0;
                ny = ny + 1;
            }
        }
        np
    }

    /// Puts the layer on a canvas of `w` × `h` pixels, keeping the drawing
    /// anchored at the top left (no scaling): what falls outside is cut off,
    /// new room is transparent.
    pub fn resize(&mut self, w: u32, h: u32)
        requires
            old(self).wf(),
            w * h * 4 <= usize::MAX,
        ensures
            final(self).wf(),
            final(self)@ == old(self)@.resized(w as nat, h as nat),
    {
        let ow = self.width as usize;
        let oh = self.height as usize;
        let nw = w as usize;
        let nh = h as usize;
        proof {
            lemma_grid_size(ow as int, oh as int);
            lemma_grid_size(nw as int, nh as int);
        }
        let total: usize = nw * nh;
        let n = self.pixels.len();
        let mut np: Vec<u8> = Vec::with_capacity(total * 4);
        let mut q: usize = 0;
        let mut x: usize = 0;
        let mut y: usize = 0;
        let ghost v = self@;
        while q < total
            invariant
                self.wf(),
                self@ == v,
                ow == self.width,
                oh == self.height,
                self.pixels@.len() == 4 * (ow * oh),
                n == self.pixels@.len(),
                nw == w,
                nh == h,
                total == nw * nh,
                q <= total,
                q == y * nw + x,
                x < nw || nw == 0,
                np@.len() == 4 * q,
                forall|j: int| 0 <= j < q ==> #[trigger] color_in_bytes(np@, j) == v.resized(w as nat, h as nat).pixels[j],
            decreases total - q,
        {
            proof {
                assert(nw > 0 && y < nh) by (nonlinear_arith)
                    requires
                        q == y * nw + x,
                        q < nw * nh,
                        x < nw || nw == 0,
                        0 <= x,
                        0 <= y,
                ;
                lemma_cell_coords(nw as int, x as int, y as int);
            }
            let ghost before = np@;
            if x < ow && y < oh {
                proof {
                    lemma_cell_in_grid(ow as int, oh as int, x as int, y as int);
                }
                let s = (y * ow + x) * 4;
                np.push(self.pixels[s]);
                np.push(self.pixels[s + 1]);
                np.push(self.pixels[s + 2]);
                np.push(self.pixels[s + 3]);
            } else {
                np.push(0);
                np.push(0);
                np.push(0);
                np.push(0);
            }
            proof {
                assert forall|j: int| 0 <= j < q + 1 implies #[trigger] color_in_bytes(np@, j)
                    == v.resized(w as nat, h as nat).pixels[j] by {
                    if j < q {
                        assert(color_in_bytes(np@, j) == color_in_bytes(before, j));
                    }
                }
            }
            q = q + 1;
            x = x + 1;
            if x == nw {
                proof {
                    assert((y + 1) * nw == y * nw + nw) by (nonlinear_arith);
                }
                x = 0;
                y = y + 1;
            }
        }
        self.pixels = np;
        self.width = w;
        self.height = h;
        proof {
            lemma_grid_size(w as int, h as int);
            assert(self@.pixels =~= v.resized(w as nat, h as nat).pixels);
        }
    }

    /// Replaces the pixels by those of turn `t`.
    fn apply_turn(&mut self, t: Turn)
        requires
            old(self).wf(),
        ensures
            final(self).wf(),
            final(self)@ == old(self)@.turned(t),
    {
        let np = self.turned_bytes(t);
        let ghost v = old(self)@;
        match t {
            Turn::Cw | Turn::Ccw => {
                let w = self.width;
                self.width = self.height;
                self.height = w;
            },
            _ => {},
        }
        self.pixels = np;
        proof {
            lemma_grid_size(self.width as int, self.height as int);
            assert(self@.pixels =~= v.turned(t).pixels);
        }
    }

    /// Mirrors the content left to right (same size).
    pub fn flip_h(&mut self)
        requires
            old(self).wf(),
        ensures
            final(self).wf(),
            final(self)@ == old(self)@.turned(Turn::FlipH),
    {
        self.apply_turn(Turn::FlipH);
    }

    /// Mirrors the content top to bottom (same size).
    pub fn flip_v(&mut self)
        requires
            old(self).wf(),
        ensures
            final(self).wf(),
            final(self)@ == old(self)@.turned(Turn::FlipV),
    {
        self.apply_turn(Turn::FlipV);
    }

    /// Turns the content half a turn (same size).
    pub fn rotate_180(&mut self)
        requires
            old(self).wf(),
        ensures
            final(self).wf(),
            final(self)@ == old(self)@.turned(Turn::Half),
    {
        self.apply_turn(Turn::Half);
    }

    /// Turns the content a quarter turn clockwise (width and height trade places).
    pub fn rotate_90_cw(&mut self)
        requires
            old(self).wf(),
        ensures
            final(self).wf(),
            final(self)@ == old(self)@.turned(Turn::Cw),
    {
        self.apply_turn(Turn::Cw);
    }

    /// Turns the content a quarter turn counter-clockwise (width and height
    /// trade places).
    pub fn rotate_90_ccw(&mut self)
        requires
            old(self).wf(),
        ensures
            final(self).wf(),
            final(self)@ == old(self)@.turned(Turn::Ccw),
    {
        self.apply_turn(Turn::Ccw);
    }
}

/// A layer brought from another document to the size `w` × `h`: a copy when
/// the size is the same; otherwise the same attributes and the drawing
/// anchored at the top left, cut off or padded with transparent pixels.
pub fn fit_layer(src: &Layer, w: u32, h: u32) -> (l: Layer)
    requires
        src.wf(),
        w * h * 4 <= usize::MAX,
    ensures
        l.wf(),
        src.width == w && src.height == h ==> l@ == src@,
        !(src.width == w && src.height == h) ==> l@ == src@.resized(w as nat, h as nat),
{
    let mut l = src.clone();
    if !(src.width == w && src.height == h) {
        l.resize(w, h);
    }
    l
}

/// The pixel at (x, y) after turn `t` is the pixel at (`source_x`, `source_y`)
/// before it; the result has one colour per pixel.
pub proof fn lemma_turned_at(v: LayerView, t: Turn, x: int, y: int)
    requires
        v.wf(),
        0 <= x < v.turned_width(t),
        0 <= y < v.turned_height(t),
    ensures
        v.turned(t).wf(),
        v.turned(t).at(x, y) == v.at(
            source_x(t, v.width as int, v.height as int, x, y),
            source_y(t, v.width as int, v.height as int, x, y),
        ),
{
    let nw = v.turned_width(t) as int;
    let nh = v.turned_height(t) as int;
    lemma_cell_in_grid(nw, nh, x, y);
    lemma_cell_coords(nw, x, y);
    lemma_grid_size(nw, nh);
}

/// Equal sizes and equal pixels at every coordinate make equal layers.
proof fn lemma_layer_ext(a: LayerView, b: LayerView)
    requires
        a.wf(),
        b.wf(),
        a.width == b.width,
        a.height == b.height,
        a.same_meta(b),
        forall|x: int, y: int| 0 <= x < a.width && 0 <= y < a.height ==> #[trigger] a.at(x, y) == b.at(x, y),
    ensures
        a == b,
{
    assert forall|q: int| 0 <= q < a.pixels.len() implies a.pixels[q] == b.pixels[q] by {
        assert(a.width > 0) by (nonlinear_arith)
            requires
                0 <= q < a.width * a.height,
        ;
        lemma_cell_split(a.width as int, a.height as int, q);
        let x = q % (a.width as int);
        let y = q / (a.width as int);
        assert(a.at(x, y) == b.at(x, y));
    }
    assert(a.pixels =~= b.pixels);
}

/// Turning twice by `t1` and then `t2`, the pixel at (x, y) comes from the
/// one that `t2` and then `t1` send there.
proof fn lemma_turned_twice_at(v: LayerView, t1: Turn, t2: Turn, x: int, y: int)
    requires
        v.wf(),
        0 <= x < v.turned(t1).turned_width(t2),
        0 <= y < v.turned(t1).turned_height(t2),
    ensures
        v.turned(t1).turned(t2).wf(),
        v.turned(t1).turned(t2).at(x, y) == ({
            let u = v.turned(t1);
            let x1 = source_x(t2, u.width as int, u.height as int, x, y);
            let y1 = source_y(t2, u.width as int, u.height as int, x, y);
            v.at(source_x(t1, v.width as int, v.height as int, x1, y1), source_y(t1, v.width as int, v.height as int, x1, y1))
        }),
{
    let u = v.turned(t1);
    lemma_grid_size(v.width as int, v.height as int);
    lemma_grid_size(u.width as int, u.height as int);
    assert(u.wf());
    lemma_turned_at(u, t2, x, y);
    let x1 = source_x(t2, u.width as int, u.height as int, x, y);
    let y1 = source_y(t2, u.width as int, u.height as int, x, y);
    lemma_turned_at(v, t1, x1, y1);
}

/// Mirroring left to right twice gives the layer back.
pub proof fn law_flip_h_twice(v: LayerView)
    requires
        v.wf(),
    ensures
        v.turned(Turn::FlipH).turned(Turn::FlipH) == v,
{
    let r = v.turned(Turn::FlipH).turned(Turn::FlipH);
    assert forall|x: int, y: int| 0 <= x < r.width && 0 <= y < r.height implies #[trigger] r.at(x, y) == v.at(x, y) by {
        lemma_turned_twice_at(v, Turn::FlipH, Turn::FlipH, x, y);
    }
    lemma_layer_ext(r, v);
}

/// Mirroring top to bottom twice gives the layer back.
pub proof fn law_flip_v_twice(v: LayerView)
    requires
        v.wf(),
    ensures
        v.turned(Turn::FlipV).turned(Turn::FlipV) == v,
{
    let r = v.turned(Turn::FlipV).turned(Turn::FlipV);
    assert forall|x: int, y: int| 0 <= x < r.width && 0 <= y < r.height implies #[trigger] r.at(x, y) == v.at(x, y) by {
        lemma_turned_twice_at(v, Turn::FlipV, Turn::FlipV, x, y);
    }
    lemma_layer_ext(r, v);
}

/// Two half turns give the layer back.
pub proof fn law_half_turn_twice(v: LayerView)
    requires
        v.wf(),
    ensures
        v.turned(Turn::Half).turned(Turn::Half) == v,
{
    let r = v.turned(Turn::Half).turned(Turn::Half);
    assert forall|x: int, y: int| 0 <= x < r.width && 0 <= y < r.height implies #[trigger] r.at(x, y) == v.at(x, y) by {
        lemma_turned_twice_at(v, Turn::Half, Turn::Half, x, y);
    }
    lemma_layer_ext(r, v);
}

/// A quarter turn clockwise undone by one counter-clockwise gives the layer back.
pub proof fn law_cw_then_ccw(v: LayerView)
    requires
        v.wf(),
    ensures
        v.turned(Turn::Cw).turned(Turn::Ccw) == v,
{
    let r = v.turned(Turn::Cw).turned(Turn::Ccw);
    assert forall|x: int, y: int| 0 <= x < r.width && 0 <= y < r.height implies #[trigger] r.at(x, y) == v.at(x, y) by {
        lemma_turned_twice_at(v, Turn::Cw, Turn::Ccw, x, y);
    }
    lemma_layer_ext(r, v);
}

/// A quarter turn counter-clockwise undone by one clockwise gives the layer back.
pub proof fn law_ccw_then_cw(v: LayerView)
    requires
        v.wf(),
    ensures
        v.turned(Turn::Ccw).turned(Turn::Cw) == v,
{
    let r = v.turned(Turn::Ccw).turned(Turn::Cw);
    assert forall|x: int, y: int| 0 <= x < r.width && 0 <= y < r.height implies #[trigger] r.at(x, y) == v.at(x, y) by {
        lemma_turned_twice_at(v, Turn::Ccw, Turn::Cw, x, y);
    }
    lemma_layer_ext(r, v);
}

/// Two clockwise quarter turns make a half turn.
pub proof fn law_two_quarter_turns(v: LayerView)
    requires
        v.wf(),
    ensures
        v.turned(Turn::Cw).turned(Turn::Cw) == v.turned(Turn::Half),
{
    let r = v.turned(Turn::Cw).turned(Turn::Cw);
    let h = v.turned(Turn::Half);
    assert forall|x: int, y: int| 0 <= x < r.width && 0 <= y < r.height implies #[trigger] r.at(x, y) == h.at(x, y) by {
        lemma_turned_twice_at(v, Turn::Cw, Turn::Cw, x, y);
        lemma_turned_at(v, Turn::Half, x, y);
    }
    lemma_grid_size(v.width as int, v.height as int);
    lemma_layer_ext(r, h);
}

/// A half turn is a mirror left to right followed by one top to bottom.
pub proof fn law_half_turn_is_both_mirrors(v: LayerView)
    requires
        v.wf(),
    ensures
        v.turned(Turn::FlipH).turned(Turn::FlipV) == v.turned(Turn::Half),
{
    let r = v.turned(Turn::FlipH).turned(Turn::FlipV);
    let h = v.turned(Turn::Half);
    assert forall|x: int, y: int| 0 <= x < r.width && 0 <= y < r.height implies #[trigger] r.at(x, y) == h.at(x, y) by {
        lemma_turned_twice_at(v, Turn::FlipH, Turn::FlipV, x, y);
        lemma_turned_at(v, Turn::Half, x, y);
    }
    lemma_grid_size(v.width as int, v.height as int);
    lemma_layer_ext(r, h);
}

/// What `get_pixel` reads after `set_pixel` at the same place is the colour
/// written; pixels elsewhere keep their colour.
pub proof fn law_read_after_write(v: LayerView, x: int, y: int, c: Color, x2: int, y2: int)
    requires
        v.wf(),
        v.in_bounds(x, y),
        v.in_bounds(x2, y2),
    ensures
        ({
            let w = LayerView { pixels: v.pixels.update(y * v.width + x, c), ..v };
            &&& w.at(x, y) == c
            &&& (x2 != x || y2 != y) ==> w.at(x2, y2) == v.at(x2, y2)
        }),
{
    lemma_cell_in_grid(v.width as int, v.height as int, x, y);
    lemma_cell_in_grid(v.width as int, v.height as int, x2, y2);
    if x2 != x || y2 != y {
        if y2 * v.width + x2 == y * v.width + x {
            lemma_cell_unique(v.width as int, x, y, x2, y2);
        }
    }
}

} // verus!
