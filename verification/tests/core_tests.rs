use sketchmotion::layer::fit_layer;
use sketchmotion::{Color, Document, Layer};

#[test]
fn novo_documento_ja_tem_uma_camada() {
    let doc = Document::new(32, 24, Color::white());
    assert_eq!(doc.width, 32);
    assert_eq!(doc.height, 24);
    assert_eq!(doc.layers.len(), 1);
}

#[test]
fn adicionar_camada_incrementa_a_pilha() {
    let mut doc = Document::new(10, 10, Color::white());
    let idx = doc.add_layer("Camada 2");
    assert_eq!(idx, 1);
    assert_eq!(doc.layers.len(), 2);
}

#[test]
fn camada_nasce_transparente() {
    let layer = Layer::new("teste", 4, 4);
    assert_eq!(layer.pixels().len(), 4 * 4 * 4);
    assert!(layer.pixels().iter().all(|&b| b == 0));
    assert_eq!(layer.get_pixel(0, 0), Some(Color::transparent()));
}

#[test]
fn pintar_e_ler_um_pixel() {
    let mut layer = Layer::new("teste", 4, 4);
    let vermelho = Color::rgb(255, 0, 0);
    layer.set_pixel(1, 2, vermelho);
    assert_eq!(layer.get_pixel(1, 2), Some(vermelho));
    // The neighbour stays transparent.
    assert_eq!(layer.get_pixel(0, 0), Some(Color::transparent()));
}

#[test]
fn pixel_fora_dos_limites_e_ignorado() {
    let mut layer = Layer::new("teste", 4, 4);
    layer.set_pixel(100, 100, Color::white()); // must not panic
    assert_eq!(layer.get_pixel(100, 100), None);
}

fn numbered_layer(w: u32, h: u32) -> Layer {
    let mut l = Layer::new("n", w, h);
    for y in 0..h {
        for x in 0..w {
            l.set_pixel(x, y, Color::rgb(x as u8, y as u8, 7));
        }
    }
    l
}

#[test]
fn flips_mirror_and_undo_themselves() {
    let mut l = numbered_layer(3, 2);
    l.flip_h();
    assert_eq!(l.get_pixel(0, 0), Some(Color::rgb(2, 0, 7)));
    assert_eq!(l.get_pixel(2, 1), Some(Color::rgb(0, 1, 7)));
    l.flip_h();
    assert_eq!(l.pixels(), numbered_layer(3, 2).pixels());
    l.flip_v();
    assert_eq!(l.get_pixel(0, 0), Some(Color::rgb(0, 1, 7)));
    l.flip_v();
    assert_eq!(l.pixels(), numbered_layer(3, 2).pixels());
}

#[test]
fn quarter_turns_swap_size() {
    let mut l = numbered_layer(3, 2);
    l.rotate_90_cw();
    assert_eq!((l.width(), l.height()), (2, 3));
    // The bottom-left pixel goes to the top left.
    assert_eq!(l.get_pixel(0, 0), Some(Color::rgb(0, 1, 7)));
    assert_eq!(l.get_pixel(1, 0), Some(Color::rgb(0, 0, 7)));
    l.rotate_90_ccw();
    assert_eq!((l.width(), l.height()), (3, 2));
    assert_eq!(l.pixels(), numbered_layer(3, 2).pixels());
    l.rotate_180();
    assert_eq!(l.get_pixel(0, 0), Some(Color::rgb(2, 1, 7)));
    l.rotate_180();
    assert_eq!(l.pixels(), numbered_layer(3, 2).pixels());
}

#[test]
fn resize_keeps_top_left() {
    let mut l = numbered_layer(3, 3);
    l.resize(2, 4);
    assert_eq!((l.width(), l.height()), (2, 4));
    assert_eq!(l.get_pixel(1, 2), Some(Color::rgb(1, 2, 7)));
    assert_eq!(l.get_pixel(0, 3), Some(Color::transparent()));
    assert_eq!(l.get_pixel(2, 0), None);
}

#[test]
fn fit_layer_copies_or_crops() {
    let mut src = numbered_layer(3, 3);
    src.visible = false;
    src.locked = true;
    let same = fit_layer(&src, 3, 3);
    assert_eq!(same.pixels(), src.pixels());
    assert!(!same.visible);
    let cropped = fit_layer(&src, 2, 5);
    assert_eq!((cropped.width(), cropped.height()), (2, 5));
    assert_eq!(cropped.get_pixel(1, 1), Some(Color::rgb(1, 1, 7)));
    assert_eq!(cropped.get_pixel(1, 4), Some(Color::transparent()));
    assert!(!cropped.visible);
    assert!(cropped.locked);
    assert_eq!(cropped.name, "n");
    assert_eq!(cropped.opacity(), src.opacity());
}

#[test]
fn layer_clone_is_equal() {
    let l = numbered_layer(2, 2);
    let c = l.clone();
    assert_eq!(c.pixels(), l.pixels());
    assert_eq!(c.name, l.name);
}

#[test]
fn document_layers_and_frames() {
    let mut doc = Document::new(4, 4, Color::white());
    assert_eq!(doc.layers[0].name, "Camada 1");
    let at = doc.add_layer_above(0, "Topo");
    assert_eq!(at, 1);
    assert_eq!(doc.layers[1].name, "Topo");
    doc.swap_layers(0, 1);
    assert_eq!(doc.layers[0].name, "Topo");
    doc.remove_layer(0);
    assert_eq!(doc.layers.len(), 1);
    assert_eq!(doc.layers[0].name, "Camada 1");

    doc.layer_mut(0).unwrap().set_pixel(1, 1, Color::black());
    assert_eq!(doc.frame_count(), 1);
    let f = doc.add_frame();
    assert_eq!(f, 1);
    assert_eq!(doc.frame_count(), 2);
    // The new frame is blank.
    assert_eq!(doc.layer(0).unwrap().get_pixel(1, 1), Some(Color::transparent()));
    doc.go_to_frame(0);
    assert_eq!(doc.layer(0).unwrap().get_pixel(1, 1), Some(Color::black()));
    let d = doc.duplicate_frame();
    assert_eq!(d, 1);
    assert_eq!(doc.frame_count(), 3);
    assert_eq!(doc.layer(0).unwrap().get_pixel(1, 1), Some(Color::black()));
    doc.remove_frame(1);
    assert_eq!(doc.frame_count(), 2);
}

#[test]
fn document_tracks() {
    let mut doc = Document::new(4, 4, Color::white());
    assert_eq!(doc.track_count(), 1);
    let t = doc.add_track();
    assert_eq!(t, 1);
    assert_eq!(doc.track_count(), 2);
    assert_eq!(doc.tracks[1].name, "Timeline 2");
    doc.go_to_track(0);
    assert_eq!(doc.active_track, 0);
    doc.remove_track(1);
    assert_eq!(doc.track_count(), 1);
}

#[test]
fn document_turns_and_resize() {
    let mut doc = Document::new(3, 2, Color::white());
    doc.layer_mut(0).unwrap().set_pixel(0, 0, Color::black());
    doc.rotate_90_cw();
    assert_eq!((doc.width, doc.height), (2, 3));
    assert_eq!(doc.layer(0).unwrap().get_pixel(1, 0), Some(Color::black()));
    doc.rotate_90_ccw();
    assert_eq!((doc.width, doc.height), (3, 2));
    assert_eq!(doc.layer(0).unwrap().get_pixel(0, 0), Some(Color::black()));
    doc.flip_h();
    assert_eq!(doc.layer(0).unwrap().get_pixel(2, 0), Some(Color::black()));
    doc.resize_canvas(5, 5);
    assert_eq!((doc.width, doc.height), (5, 5));
    assert_eq!(doc.layer(0).unwrap().get_pixel(2, 0), Some(Color::black()));
}

#[test]
fn normalize_reloads_the_current_frame() {
    let mut doc = Document::new(4, 4, Color::white());
    doc.add_layer("Camada 2");
    // Not written back into the frame: the working copy is reloaded.
    doc.normalize();
    assert_eq!(doc.layers.len(), 1);
    doc.add_layer("Camada 2");
    doc.sync_to_frames();
    doc.normalize();
    assert_eq!(doc.layers.len(), 2);
    assert_eq!(doc.frame_count(), 1);
    assert_eq!(doc.track_count(), 1);
}
