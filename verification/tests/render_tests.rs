use sketchmotion::history::History;
use sketchmotion::render::{
    color_at, reduce_image, render_document, render_layers, sprite_sheet, thumbnail, upscale_nn, PixelImage,
};
use sketchmotion::{Color, Document, Layer};

fn full_table() -> Vec<u8> {
    (0..=255u8).collect()
}

#[test]
fn render_lays_layers_over_the_background() {
    let mut bottom = Layer::new("a", 2, 1);
    bottom.set_pixel(0, 0, Color::rgba(200, 0, 0, 255));
    let mut top = Layer::new("b", 2, 1);
    top.set_pixel(0, 0, Color::rgba(0, 0, 100, 51)); // 20 % alpha
    let img = render_layers(2, 1, Color::rgb(10, 20, 30), &[bottom, top], &[full_table(), full_table()]);
    assert_eq!((img.width, img.height), (2, 1));
    // (0*51 + 200*204)/255 = 160, (0*51+0)/255 = 0, (100*51 + 0*204)/255 = 20
    assert_eq!(&img.rgba[0..4], &[160, 0, 20, 255]);
    // The second pixel shows the background, opaque.
    assert_eq!(&img.rgba[4..8], &[10, 20, 30, 255]);
}

#[test]
fn render_skips_hidden_layers_and_zero_weights() {
    let mut a = Layer::new("a", 1, 1);
    a.set_pixel(0, 0, Color::rgb(1, 2, 3));
    a.visible = false;
    let mut b = Layer::new("b", 1, 1);
    b.set_pixel(0, 0, Color::rgb(9, 9, 9));
    let img = render_layers(1, 1, Color::white(), &[a, b], &[full_table(), vec![0u8; 256]]);
    assert_eq!(img.rgba, vec![255, 255, 255, 255]);
}

#[test]
fn render_applies_the_opacity_table() {
    let mut a = Layer::new("a", 1, 1);
    a.set_pixel(0, 0, Color::rgb(255, 255, 255));
    // Half opacity: weight of alpha 255 is 128.
    let mut half = vec![0u8; 256];
    half[255] = 128;
    let img = render_layers(1, 1, Color::black(), &[a], &[half]);
    assert_eq!(img.rgba, vec![128, 128, 128, 255]);
}

#[test]
fn render_document_uses_its_size_and_background() {
    let mut doc = Document::new(3, 2, Color::rgb(1, 2, 3));
    doc.layer_mut(0).unwrap().set_pixel(2, 1, Color::rgb(7, 8, 9));
    let img = render_document(&doc, &[full_table()]);
    assert_eq!((img.width, img.height), (3, 2));
    assert_eq!(&img.rgba[0..4], &[1, 2, 3, 255]);
    assert_eq!(&img.rgba[20..24], &[7, 8, 9, 255]);
}

#[test]
fn color_at_blends_by_alpha_and_ignores_opacity() {
    let mut doc = Document::new(2, 2, Color::rgb(0, 0, 0));
    doc.layer_mut(0).unwrap().set_pixel(1, 1, Color::rgba(255, 100, 0, 255));
    doc.layer_mut(0).unwrap().opacity = 0; // bits of 0.0: not used here
    assert_eq!(color_at(&doc, 1, 1), Color::rgb(255, 100, 0));
    assert_eq!(color_at(&doc, 0, 0), Color::rgb(0, 0, 0));
    assert_eq!(color_at(&doc, 9, 9), Color::rgb(0, 0, 0));
    let bg = Color::rgba(1, 2, 3, 4);
    let doc2 = Document::new(2, 2, bg);
    assert_eq!(color_at(&doc2, -1, 0), bg);
    assert_eq!(color_at(&doc2, 0, 0), Color::rgb(1, 2, 3));
}

#[test]
fn upscale_repeats_each_pixel() {
    let rgba = vec![1, 2, 3, 4, 5, 6, 7, 8];
    let (w, h, out) = upscale_nn(2, 1, &rgba, 2);
    assert_eq!((w, h), (4, 2));
    assert_eq!(
        out,
        vec![
            1, 2, 3, 4, 1, 2, 3, 4, 5, 6, 7, 8, 5, 6, 7, 8, //
            1, 2, 3, 4, 1, 2, 3, 4, 5, 6, 7, 8, 5, 6, 7, 8,
        ]
    );
    let (w, h, same) = upscale_nn(2, 1, &rgba, 1);
    assert_eq!((w, h), (2, 1));
    assert_eq!(same, rgba);
    // A short buffer leaves the missing pixels transparent.
    let (_, _, short) = upscale_nn(2, 1, &rgba[0..4], 2);
    assert_eq!(&short[8..16], &[0; 8]);
}

#[test]
fn thumbnail_samples_nearest() {
    let mut rgba = Vec::new();
    for i in 0..16u8 {
        rgba.extend_from_slice(&[i, 0, 0, 255]);
    }
    let full = PixelImage { width: 4, height: 4, rgba };
    let t = thumbnail(&full, 2, 2);
    let reds: Vec<u8> = t.chunks(4).map(|p| p[0]).collect();
    assert_eq!(reds, vec![0, 2, 8, 10]);
    let big = thumbnail(&full, 8, 1);
    let reds: Vec<u8> = big.chunks(4).map(|p| p[0]).collect();
    assert_eq!(reds, vec![0, 0, 1, 1, 2, 2, 3, 3]);
}

#[test]
fn undo_and_redo_restore_states() {
    let mut doc = Document::new(2, 2, Color::white());
    let mut h = History::new();
    assert!(!h.undo(&mut doc));
    h.push(&doc);
    doc.layer_mut(0).unwrap().set_pixel(0, 0, Color::black());
    assert!(h.undo(&mut doc));
    assert_eq!(doc.layer(0).unwrap().get_pixel(0, 0), Some(Color::transparent()));
    assert!(h.redo(&mut doc));
    assert_eq!(doc.layer(0).unwrap().get_pixel(0, 0), Some(Color::black()));
    assert!(!h.redo(&mut doc));
    assert!(h.undo(&mut doc));
    // A new change drops what could be redone.
    h.push(&doc);
    assert!(!h.redo(&mut doc));
    assert_eq!(h.undo_stack.len(), 1);
}

#[test]
fn reduce_image_scales_down_with_the_image_crate() {
    let px: Vec<u8> = (0..64u8).collect();
    let (w, h, out) = reduce_image(4, 4, &px, 2);
    assert_eq!((w, h), (2, 2));
    assert_eq!(out.len(), 16);
    let (w, h, out) = reduce_image(8, 2, &vec![9u8; 64], 4);
    assert_eq!((w, h), (4, 1));
    assert_eq!(out, vec![9u8; 16]);
    // Too few bytes for the size: unchanged.
    let (w, h, out) = reduce_image(4, 4, &px[0..10], 2);
    assert_eq!((w, h), (4, 4));
    assert_eq!(out, px[0..10].to_vec());
}

#[test]
fn sprite_sheet_lays_frames_in_rows() {
    // Three 1 × 1 frames, two per row.
    let frames = vec![vec![1, 1, 1, 255], vec![2, 2, 2, 255], vec![3, 3, 3, 255]];
    let (w, h, sheet) = sprite_sheet(&frames, 1, 1, 2);
    assert_eq!((w, h), (2, 2));
    assert_eq!(sheet, vec![1, 1, 1, 255, 2, 2, 2, 255, 3, 3, 3, 255, 0, 0, 0, 0]);
    // All in one row.
    let (w, h, sheet) = sprite_sheet(&frames, 1, 1, 0);
    assert_eq!((w, h), (3, 1));
    assert_eq!(sheet.len(), 12);
    // A frame too short for a row leaves that row transparent.
    let frames = vec![vec![5; 8], vec![6; 4]];
    let (w, h, sheet) = sprite_sheet(&frames, 2, 1, 0);
    assert_eq!((w, h), (4, 1));
    assert_eq!(sheet, vec![5, 5, 5, 5, 5, 5, 5, 5, 0, 0, 0, 0, 0, 0, 0, 0]);
    // No frame: one transparent frame.
    let (w, h, sheet) = sprite_sheet(&Vec::new(), 2, 2, 0);
    assert_eq!((w, h), (2, 2));
    assert_eq!(sheet, vec![0; 16]);
}

#[test]
fn reduce_image_takes_a_large_photo() {
    // 4100 x 4100 opaque white: far more pixels than one u32 sum can hold,
    // but each averaged block is small.
    let (w, h) = (4100u32, 4100u32);
    let px = vec![255u8; (w * h * 4) as usize];
    let (tw, th, out) = reduce_image(w, h, &px, 64);
    assert_eq!((tw, th), (64, 64));
    assert_eq!(out.len(), 64 * 64 * 4);
    assert!(out.iter().all(|&b| b == 255));
}
