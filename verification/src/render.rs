//! Composition of a document's layers into pixels: the image shown on the
//! canvas (layers laid over an opaque background, alpha "over"), the colour
//! the eyedropper sees at a point, and the resampling of such images
//! (nearest-neighbour enlargement and thumbnails).
use vstd::prelude::*;
use crate::color::Color;
use crate::document::Document;
use crate::frame::layer_views;
use crate::grid::{lemma_cell_in_grid, lemma_grid_size};
use crate::layer::{Layer, LayerView};

verus! {

/// An image in pixels: RGBA, not premultiplied, four bytes per pixel, row by row.
pub struct PixelImage {
    pub width: i32,
    pub height: i32,
    pub rgba: Vec<u8>,
}

/// Channel value `s` laid with weight `sa` (out of 255) over `d`.
pub open spec fn over(s: u8, d: u8, sa: u8) -> u8 {
    ((s * sa + d * (255 - sa)) / 255) as u8
}

proof fn lemma_over_bound(s: u8, d: u8, sa: u8)
    ensures
        0 <= (s * sa + d * (255 - sa)) / 255 <= 255,
        s * sa + d * (255 - sa) <= 255 * 255,
{
    assert(0 <= s * sa <= 255 * sa) by (nonlinear_arith)
        requires
            s <= 255,
            sa <= 255,
    ;
    assert(0 <= d * (255 - sa) <= 255 * (255 - sa)) by (nonlinear_arith)
        requires
            d <= 255,
            sa <= 255,
    ;
}

/// The red, green and blue of pixel `q` once the first `k` layers are laid
/// over `bg`, bottom first. A layer counts where it is visible and has a
/// pixel `q` (its bytes are read row by row, pixel after pixel); its alpha
/// there goes through its table (`tables[i][a]` is the weight of a pixel of
/// alpha `a`, the layer's opacity applied); a weight of 0 leaves the pixel.
pub open spec fn stacked(layers: Seq<Layer>, tables: Seq<Seq<u8>>, q: int, k: int, bg: (u8, u8, u8)) -> (
    u8,
    u8,
    u8,
)
    decreases k,
{
    if k <= 0 {
        bg
    } else {
        let below = stacked(layers, tables, q, k - 1, bg);
        let l = layers[k - 1];
        let b = l.bytes();
        if l.visible && 4 * q + 4 <= b.len() {
            let sa = tables[k - 1][b[4 * q + 3] as int];
            if sa == 0 {
                below
            } else {
                (over(b[4 * q], below.0, sa), over(b[4 * q + 1], below.1, sa), over(b[4 * q + 2], below.2, sa))
            }
        } else {
            below
        }
    }
}

/// The contents of the weight tables.
pub open spec fn table_views(t: Seq<Vec<u8>>) -> Seq<Seq<u8>> {
    t.map_values(|v: Vec<u8>| v@)
}

/// Byte `k` (0 to 3) of a pixel of the opaque background.
pub open spec fn background_byte(bg: Color, k: int) -> u8 {
    if k == 0 {
        bg.r
    } else if k == 1 {
        bg.g
    } else if k == 2 {
        bg.b
    } else {
        255
    }
}

fn blend_channel(s: u8, d: u8, sa: u8) -> (r: u8)
    ensures
        r == over(s, d, sa),
{
    proof {
        lemma_over_bound(s, d, sa);
    }
    ((s as u32 * sa as u32 + d as u32 * (255 - sa as u32)) / 255) as u8
}

/// Lays the layers over an opaque `background`, bottom first, into an image
/// of `width` × `height`. `tables[i]` gives, for each alpha, the weight of a
/// pixel of layer `i` (its opacity applied); hidden layers are skipped. A
/// layer's pixels are taken row by row, pixel after pixel, as far as the
/// image and the layer both reach.
pub fn render_layers(width: u32, height: u32, background: Color, layers: &[Layer], tables: &[Vec<u8>]) -> (img:
    PixelImage)
    requires
        width * height * 4 <= usize::MAX,
        tables@.len() == layers@.len(),
        forall|i: int| 0 <= i < tables@.len() ==> #[trigger] tables@[i]@.len() == 256,
    ensures
        img.width == width as i32,
        img.height == height as i32,
        img.rgba@.len() == width * height * 4,
        forall|q: int|
            0 <= q < width * height ==> {
                let c = #[trigger] stacked(
                    layers@,
                    table_views(tables@),
                    q,
                    layers@.len() as int,
                    (background.r, background.g, background.b),
                );
                &&& img.rgba@[4 * q] == c.0
                &&& img.rgba@[4 * q + 1] == c.1
                &&& img.rgba@[4 * q + 2] == c.2
                &&& img.rgba@[4 * q + 3] == 255
            },
{
    let ghost ts = table_views(tables@);
    let ghost bg = (background.r, background.g, background.b);
    proof {
        lemma_grid_size(width as int, height as int);
    }
    let n: usize = (width as usize) * (height as usize);
    let total: usize = n * 4;
    let mut rgba: Vec<u8> = Vec::with_capacity(total);
    let mut k: usize = 0;
    while k < total
        invariant
            k <= total,
            total == 4 * n,
            rgba@.len() == k,
            forall|j: int| 0 <= j < k ==> #[trigger] rgba@[j] == background_byte(background, j % 4),
        decreases total - k,
    {
        let b = if k % 4 == 0 {
            background.r
        } else if k % 4 == 1 {
            background.g
        } else if k % 4 == 2 {
            background.b
        } else {
            255
        };
        rgba.push(b);
        k = k + 1;
    }
    proof {
        assert forall|j: int| 0 <= j < n implies {
            let c = #[trigger] stacked(layers@, ts, j, 0, bg);
            &&& rgba@[4 * j] == c.0
            &&& rgba@[4 * j + 1] == c.1
            &&& rgba@[4 * j + 2] == c.2
            &&& rgba@[4 * j + 3] == 255
        } by {
            assert(rgba@[4 * j] == background_byte(background, (4 * j) % 4));
            assert(rgba@[4 * j + 1] == background_byte(background, (4 * j + 1) % 4));
            assert(rgba@[4 * j + 2] == background_byte(background, (4 * j + 2) % 4));
            assert(rgba@[4 * j + 3] == background_byte(background, (4 * j + 3) % 4));
        }
    }
    let mut i: usize = 0;
    while i < layers.len()
        invariant
            i <= layers@.len(),
            n == width * height,
            rgba@.len() == 4 * n,
            tables@.len() == layers@.len(),
            forall|k: int| 0 <= k < tables@.len() ==> #[trigger] tables@[k]@.len() == 256,
            ts == table_views(tables@),
            ts.len() == layers@.len(),
            bg == (background.r, background.g, background.b),
            forall|j: int|
                0 <= j < n ==> {
                    let c = #[trigger] stacked(layers@, ts, j, i as int, bg);
                    &&& rgba@[4 * j] == c.0
                    &&& rgba@[4 * j + 1] == c.1
                    &&& rgba@[4 * j + 2] == c.2
                    &&& rgba@[4 * j + 3] == 255
                },
        decreases layers@.len() - i,
    {
        let layer = &layers[i];
        let table = &tables[i];
        assert(table@.len() == 256);
        assert(ts[i as int] == table@);
        if layer.visible {
            let src = layer.pixels();
            let slen = src.len();
            let m: usize = if slen / 4 < n { slen / 4 } else { n };
            proof {
                assert forall|j: int| m <= j < n implies stacked(layers@, ts, j, i + 1, bg) == stacked(
                    layers@,
                    ts,
                    j,
                    i as int,
                    bg,
                ) by {
                    assert(4 * j + 4 > src@.len());
                }
            }
            let mut p: usize = 0;
            while p < m
                invariant
                    slen == src@.len(),
                    p <= m,
                    m <= n,
                    4 * m <= src@.len(),
                    src@ == layer.bytes(),
                    layer == layers@[i as int],
                    layer.visible,
                    table@.len() == 256,
                    ts.len() == layers@.len(),
                    ts[i as int] == table@,
                    i < layers@.len(),
                    n == width * height,
                    rgba@.len() == 4 * n,
                    bg == (background.r, background.g, background.b),
                    forall|j: int|
                        0 <= j < n ==> {
                            let c = if j < p {
                                stacked(layers@, ts, j, i + 1, bg)
                            } else {
                                stacked(layers@, ts, j, i as int, bg)
                            };
                            &&& #[trigger] rgba@[4 * j] == c.0
                            &&& rgba@[4 * j + 1] == c.1
                            &&& rgba@[4 * j + 2] == c.2
                            &&& rgba@[4 * j + 3] == 255
                        },
                    forall|j: int| m <= j < n ==> stacked(layers@, ts, j, i + 1, bg) == stacked(layers@, ts, j, i as int, bg),
                decreases m - p,
            {
                let ghost prev = rgba@;
                let a = src[4 * p + 3];
                let sa = table[a as usize];
                if sa != 0 {
                    let o = 4 * p;
                    let r = blend_channel(src[o], rgba[o], sa);
                    let g = blend_channel(src[o + 1], rgba[o + 1], sa);
                    let b = blend_channel(src[o + 2], rgba[o + 2], sa);
                    rgba.set(o, r);
                    rgba.set(o + 1, g);
                    rgba.set(o + 2, b);
                }
                p = p + 1;
                proof {
                    assert forall|j: int| 0 <= j < n implies {
                        let c = if j < p {
                            stacked(layers@, ts, j, i + 1, bg)
                        } else {
                            stacked(layers@, ts, j, i as int, bg)
                        };
                        &&& #[trigger] rgba@[4 * j] == c.0
                        &&& rgba@[4 * j + 1] == c.1
                        &&& rgba@[4 * j + 2] == c.2
                        &&& rgba@[4 * j + 3] == 255
                    } by {
                        if j == p - 1 {
                            assert(prev[4 * j] == stacked(layers@, ts, j, i as int, bg).0);
                            assert(prev[4 * j + 1] == stacked(layers@, ts, j, i as int, bg).1);
                            assert(prev[4 * j + 2] == stacked(layers@, ts, j, i as int, bg).2);
                            assert(prev[4 * j + 3] == 255);
                            assert(stacked(layers@, ts, j, i + 1, bg) == if sa == 0 {
                                stacked(layers@, ts, j, i as int, bg)
                            } else {
                                (
                                    over(src@[4 * j], stacked(layers@, ts, j, i as int, bg).0, sa),
                                    over(src@[4 * j + 1], stacked(layers@, ts, j, i as int, bg).1, sa),
                                    over(src@[4 * j + 2], stacked(layers@, ts, j, i as int, bg).2, sa),
                                )
                            });
                        } else {
                            assert(prev[4 * j] == rgba@[4 * j]);
                            assert(prev[4 * j + 1] == rgba@[4 * j + 1]);
                            assert(prev[4 * j + 2] == rgba@[4 * j + 2]);
                            assert(prev[4 * j + 3] == rgba@[4 * j + 3]);
                        }
                    }
                }
            }
            proof {
                assert forall|j: int| 0 <= j < n implies {
                    let c = #[trigger] stacked(layers@, ts, j, i + 1, bg);
                    &&& rgba@[4 * j] == c.0
                    &&& rgba@[4 * j + 1] == c.1
                    &&& rgba@[4 * j + 2] == c.2
                    &&& rgba@[4 * j + 3] == 255
                } by {
                    if j < m {
                        assert(rgba@[4 * j] == stacked(layers@, ts, j, i + 1, bg).0);
                    } else {
                        assert(rgba@[4 * j] == stacked(layers@, ts, j, i as int, bg).0);
                        assert(stacked(layers@, ts, j, i + 1, bg) == stacked(layers@, ts, j, i as int, bg));
                    }
                }
            }
        } else {
            proof {
                assert forall|j: int| 0 <= j < n implies {
                    let c = #[trigger] stacked(layers@, ts, j, i + 1, bg);
                    &&& rgba@[4 * j] == c.0
                    &&& rgba@[4 * j + 1] == c.1
                    &&& rgba@[4 * j + 2] == c.2
                    &&& rgba@[4 * j + 3] == 255
                } by {
                    assert(stacked(layers@, ts, j, i + 1, bg) == stacked(layers@, ts, j, i as int, bg));
                }
            }
        }
        i = i + 1;
    }
    PixelImage { width: #[verifier::truncate] (width as i32), height: #[verifier::truncate] (height as i32), rgba }
}

/// Lays the document's layers (the working copy of the current frame) over
/// its opaque background, at the document's size; `tables` as for
/// [`render_layers`].
pub fn render_document(doc: &Document, tables: &[Vec<u8>]) -> (img: PixelImage)
    requires
        doc.fits(),
        tables@.len() == doc.layers@.len(),
        forall|i: int| 0 <= i < tables@.len() ==> #[trigger] tables@[i]@.len() == 256,
    ensures
        img.width == doc.width as i32,
        img.height == doc.height as i32,
        img.rgba@.len() == doc.width * doc.height * 4,
        forall|q: int|
            0 <= q < doc.width * doc.height ==> {
                let c = #[trigger] stacked(
                    doc.layers@,
                    table_views(tables@),
                    q,
                    doc.layers@.len() as int,
                    (doc.background.r, doc.background.g, doc.background.b),
                );
                &&& img.rgba@[4 * q] == c.0
                &&& img.rgba@[4 * q + 1] == c.1
                &&& img.rgba@[4 * q + 2] == c.2
                &&& img.rgba@[4 * q + 3] == 255
            },
{
    render_layers(doc.width, doc.height, doc.background, doc.layers.as_slice(), tables)
}

/// The red, green and blue seen at (x, y) once the first `k` layers are laid
/// over `base`, bottom first: a layer counts where it is visible, has the
/// pixel and the pixel is not fully transparent, and weighs its own alpha.
pub open spec fn seen_at(layers: Seq<LayerView>, x: int, y: int, k: int, base: (u8, u8, u8)) -> (u8, u8, u8)
    decreases k,
{
    if k <= 0 {
        base
    } else {
        let below = seen_at(layers, x, y, k - 1, base);
        let l = layers[k - 1];
        if l.visible && l.in_bounds(x, y) && l.at(x, y).a != 0 {
            let c = l.at(x, y);
            (over(c.r, below.0, c.a), over(c.g, below.1, c.a), over(c.b, below.2, c.a))
        } else {
            below
        }
    }
}

/// The colour of the document at pixel (x, y), as the eyedropper sees it:
/// the visible layers laid over the background by their own alpha
/// (opacity aside), opaque; left of or above the canvas, the background.
pub fn color_at(doc: &Document, x: i32, y: i32) -> (c: Color)
    requires
        crate::frame::layers_wf(doc.layers@),
    ensures
        x < 0 || y < 0 ==> c == doc.background,
        x >= 0 && y >= 0 ==> ({
            let s = seen_at(
                layer_views(doc.layers@),
                x as int,
                y as int,
                doc.layers@.len() as int,
                (doc.background.r, doc.background.g, doc.background.b),
            );
            c == (Color { r: s.0, g: s.1, b: s.2, a: 255 })
        }),
{
    if x < 0 || y < 0 {
        return doc.background;
    }
    let xu = x as u32;
    let yu = y as u32;
    let ghost lv = layer_views(doc.layers@);
    let ghost base = (doc.background.r, doc.background.g, doc.background.b);
    let mut r = doc.background.r;
    let mut g = doc.background.g;
    let mut b = doc.background.b;
    let mut i: usize = 0;
    while i < doc.layers.len()
        invariant
            i <= doc.layers@.len(),
            crate::frame::layers_wf(doc.layers@),
            lv == layer_views(doc.layers@),
            (r, g, b) == seen_at(lv, x as int, y as int, i as int, base),
            xu == x,
            yu == y,
        decreases doc.layers@.len() - i,
    {
        let layer = &doc.layers[i];
        assert(lv[i as int] == layer@);
        assert(layer.wf());
        if layer.visible {
            match layer.get_pixel(xu, yu) {
                Some(px) => {
                    if px.a != 0 {
                        let nr = blend_channel(px.r, r, px.a);
                        let ng = blend_channel(px.g, g, px.a);
                        let nb = blend_channel(px.b, b, px.a);
                        r = nr;
                        g = ng;
                        b = nb;
                    }
                },
                None => {},
            }
        }
        i = i + 1;
    }
    Color { r, g, b, a: 255 }
}

/// The pixel that cell (x, y) of an image `scale` times larger than a
/// `w`-wide RGBA buffer shows: the buffer's pixel at (x / scale, y / scale),
/// or transparent where the buffer ends before it.
pub open spec fn enlarged_pixel(rgba: Seq<u8>, w: int, scale: int, x: int, y: int) -> Color {
    let q = (y / scale) * w + x / scale;
    if 4 * q + 4 <= rgba.len() {
        crate::layer::color_in_bytes(rgba, q)
    } else {
        Color { r: 0, g: 0, b: 0, a: 0 }
    }
}

/// A copy of a byte buffer.
pub fn copy_bytes(s: &[u8]) -> (r: Vec<u8>)
    ensures
        r@ == s@,
{
    let mut r: Vec<u8> = Vec::with_capacity(s.len());
    let mut i: usize = 0;
    while i < s.len()
        invariant
            i <= s@.len(),
            r@ == s@.subrange(0, i as int),
        decreases s@.len() - i,
    {
        r.push(s[i]);
        i = i + 1;
        proof {
            assert(r@ =~= s@.subrange(0, i as int));
        }
    }
    proof {
        assert(r@ =~= s@);
    }
    r
}

/// Enlarges a `w` × `h` RGBA buffer `scale` times, each pixel becoming a
/// `scale` × `scale` square (nearest neighbour). A scale of 0 or 1 returns a
/// copy at the same size.
pub fn upscale_nn(w: u32, h: u32, rgba: &[u8], scale: u32) -> (r: (u32, u32, Vec<u8>))
    requires
        scale > 1 ==> w * scale * (h * scale) * 4 <= u32::MAX,
        scale > 1 ==> h * scale <= u32::MAX,
        scale > 1 ==> w * scale <= u32::MAX,
    ensures
        scale <= 1 ==> r.0 == w && r.1 == h && r.2@ == rgba@,
        scale > 1 ==> {
            &&& r.0 == w * scale
            &&& r.1 == h * scale
            &&& r.2@.len() == r.0 * r.1 * 4
            &&& forall|x: int, y: int|
                0 <= x < r.0 && 0 <= y < r.1 ==> #[trigger] crate::layer::color_in_bytes(r.2@, y * r.0 + x)
                    == enlarged_pixel(rgba@, w as int, scale as int, x, y)
        },
{
    if scale <= 1 {
        return (w, h, copy_bytes(rgba));
    }
    let w2 = w * scale;
    let h2 = h * scale;
    proof {
        lemma_grid_size(w2 as int, h2 as int);
    }
    let total = w2 * h2 * 4;
    let total_us = total as usize;
    let mut out: Vec<u8> = Vec::with_capacity(total_us);
    let mut k: usize = 0;
    while k < total_us
        invariant
            k <= total_us,
            out@.len() == k,
            forall|j: int| 0 <= j < k ==> out@[j] == 0,
        decreases total_us - k,
    {
        out.push(0);
        k = k + 1;
    }
    let len = rgba.len();
    proof {
        assert forall|a: int, b: int| 0 <= a < w2 && 0 <= b < h2 implies #[trigger] crate::layer::color_in_bytes(
            out@,
            b * w2 + a,
        ) == (Color { r: 0, g: 0, b: 0, a: 0 }) by {
            lemma_cell_in_grid(w2 as int, h2 as int, a, b);
        }
    }
    let mut y: u32 = 0;
    while y < h2
        invariant
            y <= h2,
            scale > 1,
            w2 == w * scale,
            h2 == h * scale,
            total == w2 * h2 * 4,
            total_us == total,
            w2 * h2 * 4 == 4 * (w2 * h2),
            w2 * h2 * 4 <= u32::MAX,
            len == rgba@.len(),
            out@.len() == total,
            forall|a: int, b: int|
                0 <= a < w2 && 0 <= b < h2 ==> #[trigger] crate::layer::color_in_bytes(out@, b * w2 + a) == if b < y {
                    enlarged_pixel(rgba@, w as int, scale as int, a, b)
                } else {
                    Color { r: 0, g: 0, b: 0, a: 0 }
                },
        decreases h2 - y,
    {
        let sy = y / scale;
        proof {
            assert(sy < h) by (nonlinear_arith)
                requires
                    sy == y / scale,
                    y < h * scale,
                    scale > 1,
            ;
        }
        let mut x: u32 = 0;
        while x < w2
            invariant
                x <= w2,
                y < h2,
                sy == y / scale,
                sy < h,
                scale > 1,
                w2 == w * scale,
                h2 == h * scale,
                total == w2 * h2 * 4,
                total_us == total,
                w2 * h2 * 4 == 4 * (w2 * h2),
                w2 * h2 * 4 <= u32::MAX,
                len == rgba@.len(),
                out@.len() == total,
                forall|a: int, b: int|
                    0 <= a < w2 && 0 <= b < h2 ==> #[trigger] crate::layer::color_in_bytes(out@, b * w2 + a)
                        == if b < y || (b == y && a < x) {
                        enlarged_pixel(rgba@, w as int, scale as int, a, b)
                    } else {
                        Color { r: 0, g: 0, b: 0, a: 0 }
                    },
            decreases w2 - x,
        {
            let sx = x / scale;
            proof {
                assert(sx < w) by (nonlinear_arith)
                    requires
                        sx == x / scale,
                        x < w * scale,
                        scale > 1,
                ;
                lemma_cell_in_grid(w as int, h as int, sx as int, sy as int);
                lemma_cell_in_grid(w2 as int, h2 as int, x as int, y as int);
                assert(w * h <= w2 * h2) by (nonlinear_arith)
                    requires
                        w2 == w * scale,
                        h2 == h * scale,
                        scale > 1,
                ;
            }
            let sidx = ((sy * w + sx) * 4) as usize;
            let didx = ((y * w2 + x) * 4) as usize;
            let ghost prev = out@;
            if sidx + 4 <= len {
                out.set(didx, rgba[sidx]);
                out.set(didx + 1, rgba[sidx + 1]);
                out.set(didx + 2, rgba[sidx + 2]);
                out.set(didx + 3, rgba[sidx + 3]);
            }
            proof {
                assert forall|a: int, b: int| 0 <= a < w2 && 0 <= b < h2 implies #[trigger] crate::layer::color_in_bytes(
                    out@,
                    b * w2 + a,
                ) == if b < y || (b == y && a < x + 1) {
                    enlarged_pixel(rgba@, w as int, scale as int, a, b)
                } else {
                    Color { r: 0, g: 0, b: 0, a: 0 }
                } by {
                    lemma_cell_in_grid(w2 as int, h2 as int, a, b);
                    if a == x && b == y {
                    } else {
                        if b * w2 + a == y * w2 + x {
                            crate::grid::lemma_cell_unique(w2 as int, a, b, x as int, y as int);
                        }
                        assert(crate::layer::color_in_bytes(out@, b * w2 + a) == crate::layer::color_in_bytes(
                            prev,
                            b * w2 + a,
                        ));
                    }
                }
            }
            x = x + 1;
        }
        y = y + 1;
    }
    (w2, h2, out)
}

/// A thumbnail of `tw` × `th` pixels of an image, by nearest sampling:
/// thumbnail pixel (tx, ty) shows the image's pixel at
/// (tx · width / tw, ty · height / th), kept inside the image.
pub open spec fn thumb_source(full_w: int, full_h: int, tw: int, th: int, tx: int, ty: int) -> (int, int) {
    let sx = tx * full_w / tw;
    let sy = ty * full_h / th;
    (if sx <= full_w - 1 { sx } else { full_w - 1 }, if sy <= full_h - 1 { sy } else { full_h - 1 })
}

/// The pixels of a `tw` × `th` thumbnail of `full` (four bytes each, row by
/// row), sampled at [`thumb_source`].
pub fn thumbnail(full: &PixelImage, tw: usize, th: usize) -> (out: Vec<u8>)
    requires
        full.width >= 0,
        full.height >= 0,
        full.rgba@.len() == full.width * full.height * 4,
        tw > 0 && th > 0 ==> full.width > 0 && full.height > 0,
        tw * th * 4 <= usize::MAX,
        tw * full.width <= usize::MAX,
        th * full.height <= usize::MAX,
    ensures
        out@.len() == tw * th * 4,
        forall|tx: int, ty: int|
            0 <= tx < tw && 0 <= ty < th ==> {
                let s = thumb_source(full.width as int, full.height as int, tw as int, th as int, tx, ty);
                #[trigger] crate::layer::color_in_bytes(out@, ty * tw + tx) == crate::layer::color_in_bytes(
                    full.rgba@,
                    s.1 * full.width + s.0,
                )
            },
{
    let fw = full.width as usize;
    let fh = full.height as usize;
    proof {
        lemma_grid_size(tw as int, th as int);
        lemma_grid_size(fw as int, fh as int);
    }
    let flen = full.rgba.len();
    let total = tw * th * 4;
    let mut out: Vec<u8> = Vec::with_capacity(total);
    let mut ty: usize = 0;
    while ty < th
        invariant
            ty <= th,
            fw == full.width,
            fh == full.height,
            tw > 0 && th > 0 ==> fw > 0 && fh > 0,
            flen == full.rgba@.len(),
            flen == fw * fh * 4,
            fw * fh * 4 == 4 * (fw * fh),
            total == tw * th * 4,
            tw * th * 4 == 4 * (tw * th),
            tw * fw <= usize::MAX,
            th * fh <= usize::MAX,
            out@.len() == 4 * (ty * tw),
            forall|a: int, b: int|
                0 <= a < tw && 0 <= b < ty ==> {
                    let s = thumb_source(fw as int, fh as int, tw as int, th as int, a, b);
                    #[trigger] crate::layer::color_in_bytes(out@, b * tw + a) == crate::layer::color_in_bytes(
                        full.rgba@,
                        s.1 * fw + s.0,
                    )
                },
        decreases th - ty,
    {
        let mut tx: usize = 0;
        while tx < tw
            invariant
                tx <= tw,
                ty < th,
                fw == full.width,
                fh == full.height,
                tw > 0 && th > 0 ==> fw > 0 && fh > 0,
                flen == full.rgba@.len(),
                flen == fw * fh * 4,
                fw * fh * 4 == 4 * (fw * fh),
                total == tw * th * 4,
                tw * th * 4 == 4 * (tw * th),
                tw * fw <= usize::MAX,
                th * fh <= usize::MAX,
                out@.len() == 4 * (ty * tw + tx),
                forall|a: int, b: int|
                    0 <= a < tw && 0 <= b < th && (b < ty || (b == ty && a < tx)) ==> {
                        let s = thumb_source(fw as int, fh as int, tw as int, th as int, a, b);
                        #[trigger] crate::layer::color_in_bytes(out@, b * tw + a) == crate::layer::color_in_bytes(
                            full.rgba@,
                            s.1 * fw + s.0,
                        )
                    },
            decreases tw - tx,
        {
            proof {
                assert(tx * fw <= tw * fw) by (nonlinear_arith)
                    requires
                        tx < tw,
                ;
                assert(ty * fh <= th * fh) by (nonlinear_arith)
                    requires
                        ty < th,
                ;
                lemma_cell_in_grid(tw as int, th as int, tx as int, ty as int);
            }
            let sx0 = tx * fw / tw;
            let sy0 = ty * fh / th;
            let sx = if sx0 <= fw - 1 { sx0 } else { fw - 1 };
            let sy = if sy0 <= fh - 1 { sy0 } else { fh - 1 };
            proof {
                lemma_cell_in_grid(fw as int, fh as int, sx as int, sy as int);
            }
            let si = (sy * fw + sx) * 4;
            let ghost prev = out@;
            out.push(full.rgba[si]);
            out.push(full.rgba[si + 1]);
            out.push(full.rgba[si + 2]);
            out.push(full.rgba[si + 3]);
            proof {
                assert(4 * (ty * tw + tx) + 4 == 4 * (ty * tw + tx + 1));
                assert forall|a: int, b: int|
                    0 <= a < tw && 0 <= b < th && (b < ty || (b == ty && a < tx + 1)) implies {
                        let s = thumb_source(fw as int, fh as int, tw as int, th as int, a, b);
                        #[trigger] crate::layer::color_in_bytes(out@, b * tw + a) == crate::layer::color_in_bytes(
                            full.rgba@,
                            s.1 * fw + s.0,
                        )
                    } by {
                    lemma_cell_in_grid(tw as int, th as int, a, b);
                    if a == tx && b == ty {
                    } else {
                        assert(b * tw + a < ty * tw + tx) by (nonlinear_arith)
                            requires
                                0 <= a < tw,
                                0 <= b,
                                b < ty || (b == ty && a < tx),
                        ;
                        assert(crate::layer::color_in_bytes(out@, b * tw + a) == crate::layer::color_in_bytes(
                            prev,
                            b * tw + a,
                        ));
                    }
                }
            }
            tx = tx + 1;
        }
        proof {
            assert(4 * (ty * tw + tw) == 4 * ((ty + 1) * tw)) by (nonlinear_arith);
        }
        ty = ty + 1;
    }
    out
}

/// A layer laid on top that is hidden changes no pixel of the composition.
pub proof fn law_hidden_layer_invisible(
    layers: Seq<Layer>,
    tables: Seq<Seq<u8>>,
    top: Layer,
    table: Seq<u8>,
    q: int,
    bg: (u8, u8, u8),
)
    requires
        tables.len() == layers.len(),
        !top.visible,
    ensures
        stacked(layers.push(top), tables.push(table), q, layers.len() + 1 as int, bg) == stacked(
            layers,
            tables,
            q,
            layers.len() as int,
            bg,
        ),
{
    lemma_stacked_prefix(layers, tables, top, table, q, layers.len() as int, bg);
}

/// Laying a layer on top leaves the composition of the layers below as it was.
proof fn lemma_stacked_prefix(
    layers: Seq<Layer>,
    tables: Seq<Seq<u8>>,
    top: Layer,
    table: Seq<u8>,
    q: int,
    k: int,
    bg: (u8, u8, u8),
)
    requires
        0 <= k <= layers.len(),
        tables.len() == layers.len(),
    ensures
        stacked(layers.push(top), tables.push(table), q, k, bg) == stacked(layers, tables, q, k, bg),
    decreases k,
{
    if k > 0 {
        lemma_stacked_prefix(layers, tables, top, table, q, k - 1, bg);
        assert(layers.push(top)[k - 1] == layers[k - 1]);
        assert(tables.push(table)[k - 1] == tables[k - 1]);
    }
}

/// A visible layer on top whose pixel is opaque, at a weight of 255 for
/// alpha 255 (full opacity), shows its own colour there, whatever lies below.
pub proof fn law_opaque_top_covers(
    layers: Seq<Layer>,
    tables: Seq<Seq<u8>>,
    top: Layer,
    table: Seq<u8>,
    q: int,
    bg: (u8, u8, u8),
)
    requires
        tables.len() == layers.len(),
        top.visible,
        0 <= q,
        4 * q + 4 <= top.bytes().len(),
        top.bytes()[4 * q + 3] == 255,
        table.len() == 256,
        table[255] == 255,
    ensures
        stacked(layers.push(top), tables.push(table), q, layers.len() + 1 as int, bg) == (
            top.bytes()[4 * q],
            top.bytes()[4 * q + 1],
            top.bytes()[4 * q + 2],
        ),
{
    let ls = layers.push(top);
    let ts = tables.push(table);
    assert(ls[layers.len() as int] == top);
    assert(ts[layers.len() as int] == table);
    let below = stacked(ls, ts, q, layers.len() as int, bg);
    let b = top.bytes();
    assert(over(b[4 * q], below.0, 255) == b[4 * q]);
    assert(over(b[4 * q + 1], below.1, 255) == b[4 * q + 1]);
    assert(over(b[4 * q + 2], below.2, 255) == b[4 * q + 2]);
}

/// With no layer, the eyedropper sees the background, opaque.
pub proof fn law_no_layers_shows_background(x: int, y: int, bg: (u8, u8, u8))
    ensures
        seen_at(Seq::<LayerView>::empty(), x, y, 0, bg) == bg,
{
}

/// An upper bound on the side, in source pixels, of a block that the
/// `image` crate's `thumbnail(max, max)` averages into one pixel of a `w` ×
/// `h` image. The output's longer side is `max` and its shorter side at
/// least half of what the aspect ratio gives (at least 1), so a block spans
/// at most `2 * max(w, h) / max` source pixels, plus one for the ceiling of
/// its edges and a little for the `f32` rounding of their positions
/// (relative error under `2^-15`). With `max == 0` the output is one pixel
/// and the block is the whole image.
pub open spec fn thumbnail_block_side(w: u32, h: u32, max: u32) -> int {
    let m: int = if w >= h { w as int } else { h as int };
    if max == 0 {
        m
    } else {
        2 * m / (max as int) + m / 0x8000 + 4
    }
}

/// The channel sums of a block, with half its size added to round, fit the
/// `u32` that the `image` crate keeps them in: a block, at most
/// `thumbnail_block_side` on each side and within the image, holds at most
/// `u32::MAX / 256` pixels.
pub open spec fn thumbnail_sums_fit(w: u32, h: u32, max: u32) -> bool {
    let b = thumbnail_block_side(w, h, max);
    let bw: int = if (w as int) < b { w as int } else { b };
    let bh: int = if (h as int) < b { h as int } else { b };
    bw * bh * 256 <= u32::MAX
}

/// The RGBA image, its width and height, that the `image` crate's
/// `DynamicImage::thumbnail(max, max)` makes of the `w` × `h` RGBA image
/// `px`: scaled down to fit a `max` × `max` square, aspect ratio kept.
pub uninterp spec fn image_thumbnail(w: u32, h: u32, px: Seq<u8>, max: u32) -> (u32, u32, Seq<u8>);

/// Reduces an RGBA image with the `image` crate: `ImageBuffer::from_raw`
/// takes the bytes as a `w` × `h` RGBA image, `DynamicImage::thumbnail`
/// scales it to fit `max` × `max`, and `to_rgba8` with `into_raw` gives the
/// bytes back. Trusted, not proved: the contract claims, as the crate's
/// source shows, that `from_raw` refuses the bytes (`None` here) exactly when
/// they are fewer than `4 * w * h` or that count (reckoned as `4 * w`, then
/// times `h`) does not fit a `usize`, and
/// that otherwise the result is `image_thumbnail` of the arguments, at least
/// one pixel wide and high, four bytes per pixel. What the thumbnail holds
/// is left unsaid (a floating-point resampling). The crate sums the channel
/// values of a block of source pixels, with half the block's size added to
/// round, in a `u32`: `thumbnail_sums_fit` keeps those sums from
/// overflowing.
#[verifier::external_body]
fn rgba_thumbnail(w: u32, h: u32, px: &[u8], max: u32) -> (r: Option<(u32, u32, Vec<u8>)>)
    requires
        (max + 1) * (max + 1) * 4 <= usize::MAX,
        w * 4 <= usize::MAX && w * h * 4 <= usize::MAX && w * h * 4 <= px@.len() ==> thumbnail_sums_fit(w, h, max),
    ensures
        r is None <==> w * 4 > usize::MAX || w * h * 4 > usize::MAX || w * h * 4 > px@.len(),
        r matches Some(t) ==> {
            &&& (t.0, t.1, t.2@) == image_thumbnail(w, h, px@, max)
            &&& t.0 >= 1 && t.1 >= 1
            &&& t.2@.len() == t.0 * t.1 * 4
        },
{
    match image::RgbaImage::from_raw(w, h, px.to_vec()) {
        Some(img) => {
            let d = image::DynamicImage::ImageRgba8(img).thumbnail(max, max).to_rgba8();
            let (tw, th) = d.dimensions();
            Some((tw, th, d.into_raw()))
        },
        None => None,
    }
}

/// Reduces an image before it is traced: a `w` × `h` RGBA image scaled
/// down to fit `max` × `max` (see [`image_thumbnail`]); bytes too few for
/// the size (or a size too large to count) come back unchanged, with the
/// size. The blocks of an image that is read must be small enough for the
/// sums of their channels to fit the `u32` the `image` crate keeps them in
/// (`thumbnail_sums_fit`).
pub fn reduce_image(w: u32, h: u32, px: &[u8], max: u32) -> (r: (u32, u32, Vec<u8>))
    requires
        (max + 1) * (max + 1) * 4 <= usize::MAX,
        w * 4 <= usize::MAX && w * h * 4 <= usize::MAX && w * h * 4 <= px@.len() ==> thumbnail_sums_fit(w, h, max),
    ensures
        w * 4 <= usize::MAX && w * h * 4 <= usize::MAX && w * h * 4 <= px@.len() ==> (r.0, r.1, r.2@)
            == image_thumbnail(w, h, px@, max),
        !(w * 4 <= usize::MAX && w * h * 4 <= usize::MAX && w * h * 4 <= px@.len()) ==> r.0 == w && r.1 == h
            && r.2@ == px@,
{
    match rgba_thumbnail(w, h, px, max) {
        Some(t) => t,
        None => (w, h, copy_bytes(px)),
    }
}

/// The number of columns of a sprite sheet of `nf` frames asked for `cols`
/// columns: all in one row when `cols` is 0.
pub open spec fn sheet_columns(nf: int, cols: int) -> int {
    if cols == 0 { nf } else { cols }
}

/// The cell of a sheet of `fw` × `fh` cells in `ncols` columns that pixel
/// (x, y) lies in, counted row after row.
pub open spec fn cell_of(fw: int, fh: int, ncols: int, x: int, y: int) -> int {
    (y / fh) * ncols + x / fw
}

/// The pixel at (x, y) of a sprite sheet of `fw` × `fh` frames laid in
/// `ncols` columns, row after row: pixel (x mod fw, y mod fh) of the frame
/// of that cell, where that frame exists and holds the whole row; otherwise
/// transparent.
pub open spec fn sheet_pixel(frames: Seq<Seq<u8>>, fw: int, fh: int, ncols: int, x: int, y: int) -> Color {
    let i = cell_of(fw, fh, ncols, x, y);
    let row = y % fh;
    if i < frames.len() && (row * fw + fw) * 4 <= frames[i].len() {
        crate::layer::color_in_bytes(frames[i], row * fw + x % fw)
    } else {
        Color { r: 0, g: 0, b: 0, a: 0 }
    }
}

/// The contents of the frames' buffers.
pub open spec fn buffer_views(frames: Seq<Vec<u8>>) -> Seq<Seq<u8>> {
    frames.map_values(|b: Vec<u8>| b@)
}

/// Pixel (x, y) of the sheet as it stands once the cells before `i`, and
/// the rows before `y0` and the pixels before `x0` of row `y0` of cell `i`,
/// have been written.
pub open spec fn sheet_so_far(
    frames: Seq<Seq<u8>>,
    fw: int,
    fh: int,
    ncols: int,
    i: int,
    y0: int,
    x0: int,
    x: int,
    y: int,
) -> Color {
    let c = cell_of(fw, fh, ncols, x, y);
    if c < i || (c == i && (y % fh < y0 || (y % fh == y0 && x % fw < x0))) {
        sheet_pixel(frames, fw, fh, ncols, x, y)
    } else {
        Color { r: 0, g: 0, b: 0, a: 0 }
    }
}

/// Lays RGBA frames of `fw` × `fh` pixels out as a sprite sheet, `cols` per
/// row (all in one row for 0): its width, height and pixels ([`sheet_pixel`]).
/// With no frame, the sheet is one transparent frame.
pub fn sprite_sheet(frames: &Vec<Vec<u8>>, fw: u32, fh: u32, cols: u32) -> (r: (u32, u32, Vec<u8>))
    requires
        frames@.len() <= u32::MAX,
        ({
            let nf: int = if frames@.len() >= 1 { frames@.len() as int } else { 1 };
            let nc = sheet_columns(nf, cols as int);
            let rows = (nf + nc - 1) / nc;
            &&& nf + nc <= u32::MAX
            &&& fw * nc <= u32::MAX
            &&& fh * rows <= u32::MAX
            &&& fw * nc * (fh * rows) * 4 <= u32::MAX
        }),
    ensures
        ({
            let nf: int = if frames@.len() >= 1 { frames@.len() as int } else { 1 };
            let nc = sheet_columns(nf, cols as int);
            let rows = (nf + nc - 1) / nc;
            &&& r.0 == fw * nc
            &&& r.1 == fh * rows
            &&& r.2@.len() == r.0 * r.1 * 4
            &&& forall|x: int, y: int|
                0 <= x < r.0 && 0 <= y < r.1 ==> #[trigger] crate::layer::color_in_bytes(r.2@, y * r.0 + x)
                    == sheet_pixel(buffer_views(frames@), fw as int, fh as int, nc, x, y)
        }),
{
    let ghost fv = buffer_views(frames@);
    let nf: u32 = if frames.len() >= 1 { frames.len() as u32 } else { 1 };
    let ncols: u32 = if cols == 0 { nf } else { cols };
    assert(nf as int == (if frames@.len() >= 1 { frames@.len() as int } else { 1 }));
    assert(ncols as int == sheet_columns(nf as int, cols as int));
    let rows: u32 = (nf + ncols - 1) / ncols;
    let sw: u32 = fw * ncols;
    let sh: u32 = fh * rows;
    proof {
        lemma_grid_size(sw as int, sh as int);
        assert(rows >= 1) by (nonlinear_arith)
            requires
                ncols >= 1,
                nf >= 1,
                rows == (nf + ncols - 1) / (ncols as int),
        ;
        assert(nf <= ncols * rows) by (nonlinear_arith)
            requires
                ncols >= 1,
                rows == (nf + ncols - 1) / (ncols as int),
        {
            vstd::arithmetic::div_mod::lemma_fundamental_div_mod((nf + ncols - 1) as int, ncols as int);
        }
    }
    let total: u32 = sw * sh * 4;
    let total_us = total as usize;
    let mut sheet: Vec<u8> = Vec::with_capacity(total_us);
    let mut k: usize = 0;
    while k < total_us
        invariant
            k <= total_us,
            sheet@.len() == k,
            forall|j: int| 0 <= j < k ==> sheet@[j] == 0,
        decreases total_us - k,
    {
        sheet.push(0);
        k = k + 1;
    }
    proof {
        assert forall|x: int, y: int| 0 <= x < sw && 0 <= y < sh implies #[trigger] crate::layer::color_in_bytes(
            sheet@,
            y * sw + x,
        ) == sheet_so_far(fv, fw as int, fh as int, ncols as int, 0, 0, 0, x, y) by {
            lemma_cell_in_grid(sw as int, sh as int, x, y);
            lemma_sheet_cell_bounds(fw as int, fh as int, ncols as int, rows as int, x, y);
        }
    }
    let n = frames.len();
    let mut i: usize = 0;
    while i < n
        invariant
            n == frames@.len(),
            n <= nf,
            nf <= ncols * rows,
            rows >= 1,
            fv == buffer_views(frames@),
            i <= n,
            ncols >= 1,
            sw == fw * ncols,
            sh == fh * rows,
            total == sw * sh * 4,
            total_us == total,
            sw * sh * 4 == 4 * (sw * sh),
            sheet@.len() == total,
            forall|x: int, y: int|
                0 <= x < sw && 0 <= y < sh ==> #[trigger] crate::layer::color_in_bytes(sheet@, y * sw + x)
                    == sheet_so_far(fv, fw as int, fh as int, ncols as int, i as int, 0, 0, x, y),
        decreases n - i,
    {
        let up = &frames[i];
        assert(fv[i as int] == up@);
        let ulen = up.len();
        let cx: u32 = (i as u32) % ncols;
        let cy: u32 = (i as u32) / ncols;
        proof {
            vstd::arithmetic::div_mod::lemma_fundamental_div_mod(i as int, ncols as int);
            assert(cy < rows) by (nonlinear_arith)
                requires
                    i < ncols * rows,
                    i == ncols * cy + cx,
                    0 <= cx < ncols,
            ;
            assert(cx * fw + fw <= sw) by (nonlinear_arith)
                requires
                    cx < ncols,
                    sw == fw * ncols,
            ;
            assert(cy * fh + fh <= sh) by (nonlinear_arith)
                requires
                    cy < rows,
                    sh == fh * rows,
            ;
        }
        let ox: u32 = cx * fw;
        let oy: u32 = cy * fh;
        let mut y: u32 = 0;
        while y < fh
            invariant
                n == frames@.len(),
                fv == buffer_views(frames@),
                i < n,
                ncols >= 1,
                sw == fw * ncols,
                sh == fh * rows,
                total == sw * sh * 4,
                sw * sh * 4 == 4 * (sw * sh),
                sheet@.len() == total,
                fv[i as int] == up@,
                ulen == up@.len(),
                i == ncols * cy + cx,
                cx < ncols,
                rows >= 1,
                cy < rows,
                ox == cx * fw,
                oy == cy * fh,
                ox + fw <= sw,
                oy + fh <= sh,
                y <= fh,
                forall|x: int, yy: int|
                    0 <= x < sw && 0 <= yy < sh ==> #[trigger] crate::layer::color_in_bytes(sheet@, yy * sw + x)
                        == sheet_so_far(fv, fw as int, fh as int, ncols as int, i as int, y as int, 0, x, yy),
            decreases fh - y,
        {
            proof {
                assert((y * fw + fw) * 4 <= sw * sh * 4) by (nonlinear_arith)
                    requires
                        y < fh,
                        sw == fw * ncols,
                        sh == fh * rows,
                        ncols >= 1,
                        rows >= 1,
                ;
            }
            let row_ok: bool = (((y * fw + fw) * 4) as usize) <= ulen;
            let mut x: u32 = 0;
            while x < fw
                invariant
                    n == frames@.len(),
                    fv == buffer_views(frames@),
                    i < n,
                    ncols >= 1,
                    sw == fw * ncols,
                    sh == fh * rows,
                    total == sw * sh * 4,
                    sw * sh * 4 == 4 * (sw * sh),
                    sheet@.len() == total,
                    fv[i as int] == up@,
                    ulen == up@.len(),
                    i == ncols * cy + cx,
                    cx < ncols,
                    rows >= 1,
                    cy < rows,
                    ox == cx * fw,
                    oy == cy * fh,
                    ox + fw <= sw,
                    oy + fh <= sh,
                    y < fh,
                    x <= fw,
                    row_ok == ((y * fw + fw) * 4 <= up@.len()),
                    forall|xx: int, yy: int|
                        0 <= xx < sw && 0 <= yy < sh ==> #[trigger] crate::layer::color_in_bytes(sheet@, yy * sw + xx)
                            == sheet_so_far(fv, fw as int, fh as int, ncols as int, i as int, y as int, x as int, xx, yy),
                decreases fw - x,
            {
                let gx = ox + x;
                let gy = oy + y;
                proof {
                    lemma_cell_in_grid(sw as int, sh as int, gx as int, gy as int);
                    crate::grid::lemma_cell_coords(fw as int, x as int, cx as int);
                    crate::grid::lemma_cell_coords(fh as int, y as int, cy as int);
                    assert(cell_of(fw as int, fh as int, ncols as int, gx as int, gy as int) == i) by (nonlinear_arith)
                        requires
                            gx == cx * fw + x,
                            (cx * fw + x) / fw as int == cx,
                            gy == cy * fh + y,
                            (cy * fh + y) / fh as int == cy,
                            i == ncols * cy + cx,
                    ;
                }
                let ghost before = sheet@;
                let d = ((gy * sw + gx) * 4) as usize;
                if row_ok {
                    proof {
                        assert((y * fw + x) * 4 + 4 <= up@.len()) by (nonlinear_arith)
                            requires
                                (y * fw + fw) * 4 <= up@.len(),
                                x < fw,
                        ;
                    }
                    let sidx = ((y as usize) * (fw as usize) + (x as usize)) * 4;
                    sheet.set(d, up[sidx]);
                    sheet.set(d + 1, up[sidx + 1]);
                    sheet.set(d + 2, up[sidx + 2]);
                    sheet.set(d + 3, up[sidx + 3]);
                }
                proof {
                    assert forall|xx: int, yy: int| 0 <= xx < sw && 0 <= yy < sh implies #[trigger] crate::layer::color_in_bytes(
                        sheet@,
                        yy * sw + xx,
                    ) == sheet_so_far(fv, fw as int, fh as int, ncols as int, i as int, y as int, x + 1, xx, yy) by {
                        lemma_cell_in_grid(sw as int, sh as int, xx, yy);
                        lemma_sheet_cell_bounds(fw as int, fh as int, ncols as int, rows as int, xx, yy);
                        if xx == gx && yy == gy {
                            if row_ok {
                                assert(crate::layer::color_in_bytes(sheet@, yy * sw + xx) == crate::layer::color_in_bytes(
                                    up@,
                                    y * fw + x,
                                ));
                            } else {
                                assert(crate::layer::color_in_bytes(sheet@, yy * sw + xx) == crate::layer::color_in_bytes(
                                    before,
                                    yy * sw + xx,
                                ));
                            }
                        } else {
                            if yy * sw + xx == gy * sw + gx {
                                crate::grid::lemma_cell_unique(sw as int, xx, yy, gx as int, gy as int);
                            }
                            assert(crate::layer::color_in_bytes(sheet@, yy * sw + xx) == crate::layer::color_in_bytes(
                                before,
                                yy * sw + xx,
                            ));
                            if cell_of(fw as int, fh as int, ncols as int, xx, yy) == i && yy % (fh as int) == y && xx % (
                            fw as int) == x {
                                crate::grid::lemma_cell_unique(
                                    ncols as int,
                                    xx / (fw as int),
                                    yy / (fh as int),
                                    cx as int,
                                    cy as int,
                                );
                                lemma_same_cell_spot(fw as int, fh as int, ncols as int, xx, yy, gx as int, gy as int);
                            }
                        }
                    }
                }
                x = x + 1;
            }
            proof {
                assert forall|xx: int, yy: int| 0 <= xx < sw && 0 <= yy < sh implies #[trigger] crate::layer::color_in_bytes(
                    sheet@,
                    yy * sw + xx,
                ) == sheet_so_far(fv, fw as int, fh as int, ncols as int, i as int, y + 1, 0, xx, yy) by {
                    lemma_sheet_cell_bounds(fw as int, fh as int, ncols as int, rows as int, xx, yy);
                }
            }
            y = y + 1;
        }
        proof {
            assert forall|xx: int, yy: int| 0 <= xx < sw && 0 <= yy < sh implies #[trigger] crate::layer::color_in_bytes(
                sheet@,
                yy * sw + xx,
            ) == sheet_so_far(fv, fw as int, fh as int, ncols as int, i + 1, 0, 0, xx, yy) by {
                lemma_sheet_cell_bounds(fw as int, fh as int, ncols as int, rows as int, xx, yy);
            }
        }
        i = i + 1;
    }
    proof {
        assert forall|xx: int, yy: int| 0 <= xx < sw && 0 <= yy < sh implies #[trigger] crate::layer::color_in_bytes(
            sheet@,
            yy * sw + xx,
        ) == sheet_pixel(fv, fw as int, fh as int, ncols as int, xx, yy) by {
            lemma_sheet_cell_bounds(fw as int, fh as int, ncols as int, rows as int, xx, yy);
        }
    }
    (sw, sh, sheet)
}

/// A pixel of a sheet of `fw` × `fh` cells, `ncols` × `rows` of them: both
/// sizes are positive, and the pixel's cell and its place within the cell
/// lie in range.
proof fn lemma_sheet_cell_bounds(fw: int, fh: int, ncols: int, rows: int, x: int, y: int)
    requires
        0 <= x < fw * ncols,
        0 <= y < fh * rows,
        ncols >= 1,
        rows >= 1,
    ensures
        fw > 0,
        fh > 0,
        0 <= x / fw < ncols,
        0 <= y / fh < rows,
        0 <= x % fw < fw,
        0 <= y % fh < fh,
        0 <= cell_of(fw, fh, ncols, x, y) < ncols * rows,
{
    assert(fw > 0) by (nonlinear_arith)
        requires
            0 <= x < fw * ncols,
            ncols >= 1,
    ;
    assert(fh > 0) by (nonlinear_arith)
        requires
            0 <= y < fh * rows,
            rows >= 1,
    ;
    vstd::arithmetic::div_mod::lemma_fundamental_div_mod(x, fw);
    vstd::arithmetic::div_mod::lemma_fundamental_div_mod(y, fh);
    let qx = x / fw;
    let qy = y / fh;
    assert(0 <= qx < ncols) by (nonlinear_arith)
        requires
            x == fw * qx + x % fw,
            0 <= x % fw < fw,
            0 <= x < fw * ncols,
            fw > 0,
    ;
    assert(0 <= qy < rows) by (nonlinear_arith)
        requires
            y == fh * qy + y % fh,
            0 <= y % fh < fh,
            0 <= y < fh * rows,
            fh > 0,
    ;
    lemma_cell_in_grid(ncols, rows, qx, qy);
}

/// Two pixels in the same cell at the same place within it are the same.
proof fn lemma_same_cell_spot(fw: int, fh: int, ncols: int, x1: int, y1: int, x2: int, y2: int)
    requires
        fw > 0,
        fh > 0,
        ncols >= 1,
        0 <= x1,
        0 <= y1,
        0 <= x2,
        0 <= y2,
    ensures
        x1 / fw == x2 / fw && x1 % fw == x2 % fw ==> x1 == x2,
        y1 / fh == y2 / fh && y1 % fh == y2 % fh ==> y1 == y2,
{
    vstd::arithmetic::div_mod::lemma_fundamental_div_mod(x1, fw);
    vstd::arithmetic::div_mod::lemma_fundamental_div_mod(x2, fw);
    vstd::arithmetic::div_mod::lemma_fundamental_div_mod(y1, fh);
    vstd::arithmetic::div_mod::lemma_fundamental_div_mod(y2, fh);
}

/// The colour seen once `k` layers are laid depends only on those `k`.
proof fn lemma_seen_prefix(a: Seq<LayerView>, b: Seq<LayerView>, x: int, y: int, k: int, base: (u8, u8, u8))
    requires
        k <= a.len(),
        k <= b.len(),
        forall|j: int| 0 <= j < k ==> a[j] == b[j],
    ensures
        seen_at(a, x, y, k, base) == seen_at(b, x, y, k, base),
    decreases k,
{
    if k > 0 {
        lemma_seen_prefix(a, b, x, y, k - 1, base);
    }
}

/// Past a hidden layer `i`, the stack shows what it shows without it.
proof fn lemma_seen_without(layers: Seq<LayerView>, i: int, x: int, y: int, k: int, base: (u8, u8, u8))
    requires
        0 <= i < k <= layers.len(),
        !layers[i].visible,
    ensures
        seen_at(layers, x, y, k, base) == seen_at(layers.remove(i), x, y, k - 1, base),
    decreases k,
{
    let rest = layers.remove(i);
    if k == i + 1 {
        lemma_seen_prefix(layers, rest, x, y, i, base);
    } else {
        lemma_seen_without(layers, i, x, y, k - 1, base);
        assert(layers[k - 1] == rest[k - 2]);
    }
}

/// A hidden layer, wherever it lies in the stack, changes no colour the
/// eyedropper sees: the stack shows at every point what it shows without
/// that layer.
pub proof fn law_hidden_layer_unseen(layers: Seq<LayerView>, i: int, x: int, y: int, base: (u8, u8, u8))
    requires
        0 <= i < layers.len(),
        !layers[i].visible,
    ensures
        seen_at(layers, x, y, layers.len() as int, base) == seen_at(
            layers.remove(i),
            x,
            y,
            layers.len() - 1,
            base,
        ),
{
    lemma_seen_without(layers, i, x, y, layers.len() as int, base);
}

/// Laying a hidden layer on top of the stack leaves the colour seen at every
/// point unchanged.
pub proof fn law_hidden_top_unseen(layers: Seq<LayerView>, top: LayerView, x: int, y: int, base: (u8, u8, u8))
    requires
        !top.visible,
    ensures
        seen_at(layers.push(top), x, y, layers.len() + 1int, base) == seen_at(layers, x, y, layers.len() as int, base),
{
    let s = layers.push(top);
    law_hidden_layer_unseen(s, layers.len() as int, x, y, base);
    assert(s.remove(layers.len() as int) =~= layers);
}

/// A visible layer laid on top whose pixel at (x, y) is opaque is what the
/// eyedropper sees there, whatever lies below; where it has no pixel, or a
/// fully transparent one, the colour seen stays as it was.
pub proof fn law_eyedropper_sees_top(layers: Seq<LayerView>, top: LayerView, x: int, y: int, base: (u8, u8, u8))
    requires
        top.visible,
    ensures
        top.in_bounds(x, y) && top.at(x, y).a == 255 ==> seen_at(layers.push(top), x, y, layers.len() + 1int, base)
            == (top.at(x, y).r, top.at(x, y).g, top.at(x, y).b),
        !top.in_bounds(x, y) || top.at(x, y).a == 0 ==> seen_at(layers.push(top), x, y, layers.len() + 1int, base)
            == seen_at(layers, x, y, layers.len() as int, base),
{
    let s = layers.push(top);
    lemma_seen_prefix(s, layers, x, y, layers.len() as int, base);
    assert(s[layers.len() as int] == top);
    let c = top.at(x, y);
    let below = seen_at(layers, x, y, layers.len() as int, base);
    if top.in_bounds(x, y) && c.a == 255 {
        assert(over(c.r, below.0, 255) == c.r) by (nonlinear_arith)
            requires
                over(c.r, below.0, 255) == ((c.r * 255 + below.0 * (255 - 255)) / 255) as u8,
        ;
        assert(over(c.g, below.1, 255) == c.g) by (nonlinear_arith)
            requires
                over(c.g, below.1, 255) == ((c.g * 255 + below.1 * (255 - 255)) / 255) as u8,
        ;
        assert(over(c.b, below.2, 255) == c.b) by (nonlinear_arith)
            requires
                over(c.b, below.2, 255) == ((c.b * 255 + below.2 * (255 - 255)) / 255) as u8,
        ;
    }
}

} // verus!
