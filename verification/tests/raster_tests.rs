use sketchmotion::raster::{
    bucket_fill, color_mask, fill_region, flood_mask, lift_rect, magic_wand, mask_bounds, stamp_hard,
    paint_editor, stamp_square,
};
use sketchmotion::{Color, Layer};

const R: Color = Color { r: 255, g: 0, b: 0, a: 255 };
const B: Color = Color { r: 0, g: 0, b: 255, a: 255 };

/// A 5 × 5 layer with a blue wall on column 2 and a blue dot at (4, 4).
fn walled() -> Layer {
    let mut l = Layer::new("w", 5, 5);
    for y in 0..5 {
        l.set_pixel(2, y, B);
    }
    l.set_pixel(4, 4, B);
    l
}

fn at(mask: &[bool], w: usize, x: usize, y: usize) -> bool {
    mask[y * w + x]
}

#[test]
fn flood_stays_on_its_side_of_a_wall() {
    let l = walled();
    let m = flood_mask(l.pixels(), 5, 5, 0, 0, 0);
    assert_eq!(m.len(), 25);
    for y in 0..5 {
        assert!(at(&m, 5, 0, y) && at(&m, 5, 1, y));
        assert!(!at(&m, 5, 2, y) && !at(&m, 5, 3, y) && !at(&m, 5, 4, y));
    }
}

#[test]
fn flood_follows_four_neighbours_only() {
    // A diagonal of blue does not connect.
    let mut l = Layer::new("d", 3, 3);
    l.set_pixel(0, 0, B);
    l.set_pixel(1, 1, B);
    l.set_pixel(2, 2, B);
    let m = flood_mask(l.pixels(), 3, 3, 0, 0, 0);
    assert_eq!(m.iter().filter(|&&b| b).count(), 1);
    // From (1, 0) the diagonal cuts the grid: (1, 0), (2, 0) and (2, 1).
    let m = flood_mask(l.pixels(), 3, 3, 1, 0, 0);
    assert_eq!(m, vec![false, true, true, false, false, true, false, false, false]);
}

#[test]
fn flood_tolerance_is_per_channel_maximum() {
    let mut l = Layer::new("t", 3, 1);
    l.set_pixel(0, 0, Color::rgba(100, 100, 100, 255));
    l.set_pixel(1, 0, Color::rgba(110, 95, 100, 255));
    l.set_pixel(2, 0, Color::rgba(100, 100, 111, 255));
    let m = flood_mask(l.pixels(), 3, 1, 0, 0, 10);
    assert_eq!(m, vec![true, true, false]);
    let m = flood_mask(l.pixels(), 3, 1, 0, 0, 11);
    assert_eq!(m, vec![true, true, true]);
    // A negative tolerance takes nothing, not even the seed.
    let m = flood_mask(l.pixels(), 3, 1, 0, 0, -1);
    assert_eq!(m, vec![false, false, false]);
}

#[test]
fn color_mask_takes_every_match() {
    let l = walled();
    let m = color_mask(l.pixels(), 25, B, 0);
    assert_eq!(m.iter().filter(|&&b| b).count(), 6);
    assert!(m[4 * 5 + 4]);
}

#[test]
fn bounds_of_a_mask() {
    let mut m = vec![false; 20];
    assert_eq!(mask_bounds(&m, 5, 4), None);
    m[1 * 5 + 3] = true;
    m[3 * 5 + 1] = true;
    assert_eq!(mask_bounds(&m, 5, 4), Some((1, 1, 3, 3)));
}

#[test]
fn fill_region_paints_flagged_pixels() {
    let mut l = Layer::new("f", 2, 2);
    fill_region(&mut l, &vec![true, false, false, true], R);
    assert_eq!(l.get_pixel(0, 0), Some(R));
    assert_eq!(l.get_pixel(1, 0), Some(Color::transparent()));
    assert_eq!(l.get_pixel(1, 1), Some(R));
}

#[test]
fn bucket_fills_the_region_of_the_reference() {
    let mut l = walled();
    let reference = l.pixels().to_vec();
    assert!(bucket_fill(&mut l, &reference, 4, 0, 0, R));
    for y in 0..4 {
        assert_eq!(l.get_pixel(3, y), Some(R));
        assert_eq!(l.get_pixel(4, y), Some(R));
        assert_eq!(l.get_pixel(1, y), Some(Color::transparent()));
    }
    assert_eq!(l.get_pixel(4, 4), Some(B));
    assert_eq!(l.get_pixel(3, 4), Some(R));
}

#[test]
fn bucket_off_the_layer_does_nothing() {
    let mut l = walled();
    let reference = l.pixels().to_vec();
    assert!(!bucket_fill(&mut l, &reference, -1, 0, 0, R));
    assert!(!bucket_fill(&mut l, &reference, 0, 5, 0, R));
    assert_eq!(l.pixels(), walled().pixels());
}

#[test]
fn wand_contiguous_lifts_the_region() {
    let mut l = walled();
    let lifted = magic_wand(&mut l, 2, 0, 0, true).unwrap();
    assert_eq!((lifted.x, lifted.y, lifted.w, lifted.h), (2, 0, 1, 5));
    assert_eq!(lifted.pixels.len(), 5 * 4);
    assert_eq!(&lifted.pixels[0..4], &[0, 0, 255, 255]);
    for y in 0..5 {
        assert_eq!(l.get_pixel(2, y), Some(Color::transparent()));
    }
    // The separate dot stays.
    assert_eq!(l.get_pixel(4, 4), Some(B));
}

#[test]
fn wand_global_takes_every_match() {
    let mut l = walled();
    let lifted = magic_wand(&mut l, 2, 0, 0, false).unwrap();
    assert_eq!((lifted.x, lifted.y, lifted.w, lifted.h), (2, 0, 3, 5));
    // Cell (1, 0) of the box, i.e. (3, 0), was not taken: transparent.
    assert_eq!(&lifted.pixels[4..8], &[0, 0, 0, 0]);
    // Cell (2, 4) of the box, i.e. (4, 4), was taken.
    let i = (4 * 3 + 2) * 4;
    assert_eq!(&lifted.pixels[i..i + 4], &[0, 0, 255, 255]);
    assert_eq!(l.get_pixel(4, 4), Some(Color::transparent()));
}

#[test]
fn wand_off_the_layer_or_empty_gives_none() {
    let mut l = walled();
    assert!(magic_wand(&mut l, 9, 0, 0, true).is_none());
    assert!(magic_wand(&mut l, 0, 0, -1, true).is_none());
    assert_eq!(l.pixels(), walled().pixels());
}

#[test]
fn rect_selection_lifts_the_rectangle() {
    let mut l = walled();
    let lifted = lift_rect(&mut l, (3, 6), (1, 3)).unwrap();
    assert_eq!((lifted.x, lifted.y, lifted.w, lifted.h), (1, 3, 2, 2));
    // Row 0 of the box: (1, 3) transparent, (2, 3) blue.
    assert_eq!(&lifted.pixels[0..8], &[0, 0, 0, 0, 0, 0, 255, 255]);
    assert_eq!(l.get_pixel(2, 3), Some(Color::transparent()));
    assert_eq!(l.get_pixel(2, 2), Some(B));
}

#[test]
fn rect_selection_too_thin_gives_none() {
    let mut l = walled();
    assert!(lift_rect(&mut l, (2, 0), (2, 4)).is_none());
    assert!(lift_rect(&mut l, (-5, -5), (-1, -1)).is_none());
    assert_eq!(l.pixels(), walled().pixels());
}

#[test]
fn hard_brush_disc() {
    let mut l = Layer::new("b", 7, 7);
    stamp_hard(&mut l, 3, 3, 2, R, false);
    assert_eq!(l.get_pixel(3, 3), Some(R));
    assert_eq!(l.get_pixel(5, 3), Some(R));
    assert_eq!(l.get_pixel(4, 4), Some(R));
    assert_eq!(l.get_pixel(5, 5), Some(Color::transparent()));
    assert_eq!(l.get_pixel(3, 6), Some(Color::transparent()));
}

#[test]
fn hard_brush_small_and_pixel_square() {
    let mut l = Layer::new("b", 4, 4);
    stamp_hard(&mut l, 1, 1, 1, R, false);
    assert_eq!(l.pixels().chunks(4).filter(|p| p[3] != 0).count(), 1);
    let mut l = Layer::new("b", 4, 4);
    stamp_hard(&mut l, 1, 1, 2, R, true);
    // Side 2: from (1 - 1) to (1 + 0).
    assert_eq!(l.get_pixel(0, 0), Some(R));
    assert_eq!(l.get_pixel(1, 1), Some(R));
    assert_eq!(l.get_pixel(2, 2), Some(Color::transparent()));
    assert_eq!(l.pixels().chunks(4).filter(|p| p[3] != 0).count(), 4);
}

#[test]
fn hard_brush_clips_at_the_edges() {
    let mut l = Layer::new("b", 3, 3);
    stamp_hard(&mut l, 0, 0, 3, R, false);
    assert_eq!(l.get_pixel(0, 0), Some(R));
    assert_eq!(l.get_pixel(2, 2), Some(R));
    let mut l = Layer::new("b", 3, 3);
    stamp_hard(&mut l, -10, -10, 3, R, false);
    assert_eq!(l.pixels(), Layer::new("b", 3, 3).pixels());
}

#[test]
fn pixel_square_brush() {
    let mut l = Layer::new("s", 5, 5);
    stamp_square(&mut l, 2, 2, 3, R);
    // Side 3, (3 - 1) / 2 = 1 cell up and left.
    assert_eq!(l.get_pixel(1, 1), Some(R));
    assert_eq!(l.get_pixel(3, 3), Some(R));
    assert_eq!(l.get_pixel(4, 4), Some(Color::transparent()));
    assert_eq!(l.pixels().chunks(4).filter(|p| p[3] != 0).count(), 9);
    let mut l = Layer::new("s", 5, 5);
    stamp_square(&mut l, 2, 2, 2, R);
    // Side 2: (2 - 1) / 2 = 0, so (2, 2) to (3, 3).
    assert_eq!(l.get_pixel(2, 2), Some(R));
    assert_eq!(l.get_pixel(3, 3), Some(R));
    assert_eq!(l.get_pixel(1, 1), Some(Color::transparent()));
    let mut l = Layer::new("s", 5, 5);
    stamp_square(&mut l, 2, 2, 0, R);
    assert_eq!(l.pixels(), Layer::new("s", 5, 5).pixels());
}

#[test]
fn piece_editor_brush_paints_inside_the_buffer() {
    // 3 × 2 buffer, brush of side 2 at (1, 1): from (1, 1) to (2, 2) — row 2 is off the grid.
    let mut buf = vec![9u8; 3 * 2 * 4];
    paint_editor(&mut buf, 3, 2, 1, 1, 2, Color::rgba(1, 2, 3, 4));
    assert_eq!(&buf[0..12], &[9; 12]);
    assert_eq!(&buf[12..16], &[9, 9, 9, 9]);
    assert_eq!(&buf[16..24], &[1, 2, 3, 4, 1, 2, 3, 4]);
    // The eraser paints transparent; a short buffer keeps the pixels it cannot hold.
    let mut buf = vec![9u8; 6];
    paint_editor(&mut buf, 2, 1, 0, 0, 1, Color::transparent());
    assert_eq!(buf, vec![0, 0, 0, 0, 9, 9]);
    // No grid: nothing changes.
    let mut buf = vec![9u8; 4];
    paint_editor(&mut buf, 0, 1, 0, 0, 3, Color::black());
    assert_eq!(buf, vec![9; 4]);
}
