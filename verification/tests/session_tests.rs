use sketchmotion::camera::Camera;
use sketchmotion::history::Session;
use sketchmotion::piece::PieceLibrary;
use sketchmotion::rig_panel::{rig_active_index, RigAction, RigPanel};
use sketchmotion::skeleton::BoneShape;
use sketchmotion::{Color, Document, PaletteLibrary};

fn bits(n: u32) -> u32 {
    (n as f32).to_bits()
}

#[test]
fn camera_new_frames_the_canvas_in_f32_bits() {
    for &n in &[
        0u32, 1, 2, 3, 7, 100, 640, 1920, 8_388_607, 8_388_608, 16_777_215, 16_777_216, 16_777_217,
        16_777_218, 16_777_219, 33_554_433, 33_554_434, 33_554_435, 33_554_438, 123_456_789, 2_147_483_647,
        2_147_483_648, 4_294_967_040, 4_294_967_167, 4_294_967_168, u32::MAX,
    ] {
        let c = Camera::new(n, 5);
        assert_eq!(c.base_w, bits(n), "base of {n}");
        assert_eq!(c.base_h, bits(5));
        assert_eq!(c.keyframes.len(), 1);
        let k = c.keyframes[0];
        assert_eq!(k.frame, 0);
        assert_eq!(k.w, bits(n));
        assert_eq!(k.x, (n as f32 / 2.0).to_bits(), "centre of {n}");
        assert_eq!(k.y, (5.0f32 / 2.0).to_bits());
        assert_eq!((k.rotation, k.anchor_x, k.anchor_y), (0, 0, 0));
    }
}

#[test]
fn new_document_has_a_full_camera() {
    let d = Document::new(640, 480, Color::white());
    assert_eq!(d.camera.keyframes.len(), 1);
    assert_eq!(f32::from_bits(d.camera.base_w), 640.0);
    assert_eq!(f32::from_bits(d.camera.base_h), 480.0);
    assert_eq!(f32::from_bits(d.camera.keyframes[0].x), 320.0);
    assert_eq!(f32::from_bits(d.camera.keyframes[0].y), 240.0);
}

#[test]
fn normalize_gives_the_camera_a_keyframe() {
    let mut d = Document::new(8, 6, Color::white());
    d.camera = Camera { base_w: 0, base_h: 0, keyframes: Vec::new() };
    d.normalize();
    assert_eq!(d.camera.keyframes.len(), 1);
    assert_eq!(f32::from_bits(d.camera.base_w), 8.0);
    assert_eq!(f32::from_bits(d.camera.keyframes[0].h), 6.0);
}

#[test]
fn ensure_repairs_a_base_that_is_not_positive() {
    let mut c = Camera::new(10, 10);
    c.base_w = (-3.0f32).to_bits();
    c.keyframes[0].x = 77;
    c.ensure(4, 2);
    assert_eq!(f32::from_bits(c.base_w), 4.0);
    assert_eq!(f32::from_bits(c.base_h), 2.0);
    assert_eq!(c.keyframes[0].x, 77);
    // A positive base stays; a NaN is not "at most zero" either.
    let mut c = Camera::new(10, 10);
    c.base_h = f32::NAN.to_bits();
    c.ensure(4, 2);
    assert_eq!(f32::from_bits(c.base_w), 10.0);
    // A negative zero is at most zero.
    let mut c = Camera::new(10, 10);
    c.base_h = (-0.0f32).to_bits();
    c.ensure(4, 2);
    assert_eq!(f32::from_bits(c.base_w), 4.0);
    let mut c = Camera::new(10, 10);
    c.reset(3, 9);
    assert_eq!(f32::from_bits(c.keyframes[0].x), 1.5);
}

#[test]
fn resize_canvas_moves_the_camera_base() {
    let mut d = Document::new(8, 6, Color::white());
    d.resize_canvas(20, 10);
    assert_eq!(f32::from_bits(d.camera.base_w), 20.0);
    assert_eq!(f32::from_bits(d.camera.base_h), 10.0);
    // The keyframes stay as they were.
    assert_eq!(f32::from_bits(d.camera.keyframes[0].w), 8.0);
}

#[test]
fn undo_clamps_the_active_layer_and_drops_selections() {
    let mut s: Session<u8> = Session::new(Document::new(4, 4, Color::white()));
    s.push_undo();
    assert!(s.modified);
    s.document.add_layer("B");
    s.document.add_layer("C");
    s.active_layer = 2;
    s.sel_set = vec![0, 1];
    s.selected_obj = Some(0);
    s.floating = Some(9);
    assert!(s.undo());
    assert_eq!(s.document.layers.len(), 1);
    assert_eq!(s.active_layer, 0);
    assert!(s.sel_set.is_empty());
    assert_eq!(s.selected_obj, None);
    assert_eq!(s.floating, None);
    s.active_layer = 0;
    s.floating = Some(3);
    assert!(s.redo());
    assert_eq!(s.document.layers.len(), 3);
    assert_eq!(s.active_layer, 0);
    assert_eq!(s.floating, None);
    // Nothing left to redo: nothing changes.
    s.floating = Some(4);
    assert!(!s.redo());
    assert_eq!(s.floating, Some(4));
}

#[test]
fn rig_panel_adds_removes_and_toggles_skeletons() {
    let mut s: Session<()> = Session::new(Document::new(4, 4, Color::white()));
    let mut p = RigPanel { active: 0, sel_bone: Some(3), show_bones: false };
    s.rig_action(&mut p, RigAction::AddSkeleton);
    s.rig_action(&mut p, RigAction::AddSkeleton);
    assert_eq!(s.document.skeletons.len(), 2);
    assert_eq!(s.document.skeletons[1].name, "Esqueleto 2");
    assert_eq!((p.active, p.sel_bone, p.show_bones), (1, None, true));
    assert_eq!(s.history.undo_stack.len(), 2);
    s.rig_action(&mut p, RigAction::ToggleVisible(0));
    assert!(!s.document.skeletons[0].visible);
    assert_eq!(s.history.undo_stack.len(), 2);
    s.rig_action(&mut p, RigAction::RemoveSkeleton(1));
    assert_eq!(s.document.skeletons.len(), 1);
    assert_eq!(p.active, 0);
    assert_eq!(rig_active_index(1, 5), Some(0));
    assert_eq!(rig_active_index(0, 5), None);
    let id = s.document.skeletons[0].add_bone(None, 1, 1, 0, 5, BoneShape::Limb);
    p.active = 7;
    p.sel_bone = Some(id);
    s.rig_action(&mut p, RigAction::RemoveBone);
    assert!(s.document.skeletons[0].bones.is_empty());
    assert_eq!(p.sel_bone, None);
    s.rig_action(&mut p, RigAction::RemoveSkeleton(0));
    assert!(s.document.skeletons.is_empty());
    assert_eq!(p.active, 0);
    // With no skeleton, pose edits do nothing and save nothing.
    let before = s.history.undo_stack.len();
    s.rig_action(&mut p, RigAction::ResetPose);
    assert_eq!(s.history.undo_stack.len(), before);
}

#[test]
fn removing_a_piece_moves_the_choice() {
    let mut lib = PieceLibrary::new();
    for n in ["a", "b", "c"] {
        lib.add(n, 1, 1, vec![0, 0, 0, 0]);
    }
    assert_eq!(lib.remove_chosen(0, Some(2), true), (Some(1), true));
    assert_eq!(lib.pieces.len(), 2);
    assert_eq!(lib.remove_chosen(1, Some(1), true), (None, false));
    assert_eq!(lib.remove_chosen(5, Some(0), true), (Some(0), true));
    assert_eq!(lib.pieces.len(), 1);
}

#[test]
fn removing_a_character_chooses_the_first() {
    let mut lib = PaletteLibrary::new();
    lib.add_character("A");
    lib.add_character("B");
    assert_eq!(lib.remove_chosen_character(1), Some(0));
    assert_eq!(lib.remove_chosen_character(4), Some(4));
    assert_eq!(lib.remove_chosen_character(0), None);
    assert!(lib.characters.is_empty());
}

use sketchmotion::camera::Interp;
use sketchmotion::dirvector::DirVector;
use sketchmotion::object_panels::{
    dirvec_panel_step, pivot_panel_step, DirVecEvent, DirVecPanel, PivotEvent, PivotPanel,
};
use sketchmotion::pivot::Pivot;

#[test]
fn pivot_panel_names_creates_renames_and_deletes() {
    let mut pivots: Vec<Pivot> = Vec::new();
    let mut p = PivotPanel { sel: Some(4), stage: 0, naming: false, name_buf: String::new() };
    let r = pivot_panel_step(&mut pivots, &mut p, PivotEvent::StartNew);
    assert_eq!(p.name_buf, "Pivô 1");
    assert!(p.naming && !r.modified);
    assert_eq!(p.sel, None); // a stale choice is dropped
    p.name_buf = "   ".to_string();
    let r = pivot_panel_step(&mut pivots, &mut p, PivotEvent::Confirm);
    assert!(r.modified && r.use_tool);
    assert_eq!(pivots[0].name, "Pivô 1");
    assert_eq!((p.sel, p.stage, p.naming), (Some(0), 1, false));
    p.name_buf = "  Braço \n".to_string();
    pivot_panel_step(&mut pivots, &mut p, PivotEvent::Confirm);
    assert_eq!(pivots[1].name, "Braço");
    pivots[1].has_axis = true;
    pivots[1].has_mov = true;
    let r = pivot_panel_step(&mut pivots, &mut p, PivotEvent::AddPoint);
    assert!(!pivots[1].has_axis && !pivots[1].has_mov && r.use_tool);
    pivot_panel_step(&mut pivots, &mut p, PivotEvent::Edit);
    assert_eq!((p.stage, p.naming, p.name_buf.as_str()), (3, true, "Braço"));
    p.name_buf = "Perna".to_string();
    let r = pivot_panel_step(&mut pivots, &mut p, PivotEvent::Confirm);
    assert_eq!(pivots.len(), 2);
    assert_eq!(pivots[1].name, "Perna");
    assert!(r.modified && !r.use_tool);
    assert_eq!(p.stage, 0);
    pivot_panel_step(&mut pivots, &mut p, PivotEvent::SetEnabled(0, false));
    assert!(!pivots[0].enabled);
    pivot_panel_step(&mut pivots, &mut p, PivotEvent::Select(0));
    let r = pivot_panel_step(&mut pivots, &mut p, PivotEvent::Delete);
    assert!(r.modified);
    assert_eq!(pivots.len(), 1);
    assert_eq!(pivots[0].name, "Perna");
    assert_eq!(p.sel, None);
}

#[test]
fn dirvec_panel_creates_links_applies_and_deletes() {
    let mut dvs: Vec<DirVector> = Vec::new();
    let mut p = DirVecPanel { sel: None, stage: 0, naming: false, name_buf: String::new() };
    dirvec_panel_step(&mut dvs, &mut p, DirVecEvent::StartNew);
    assert_eq!(p.name_buf, "Vetor 1");
    let r = dirvec_panel_step(&mut dvs, &mut p, DirVecEvent::Confirm);
    assert!(r.modified && r.use_tool);
    assert_eq!(dvs[0].name, "Vetor 1");
    assert_eq!((p.sel, p.stage), (Some(0), 1));
    dirvec_panel_step(&mut dvs, &mut p, DirVecEvent::SetInterp(Interp::EaseIn));
    assert_eq!(dvs[0].interp, Interp::EaseIn);
    assert_eq!(dirvec_panel_step(&mut dvs, &mut p, DirVecEvent::Apply).apply, None);
    dvs[0].has_start = true;
    dvs[0].has_end = true;
    assert_eq!(dirvec_panel_step(&mut dvs, &mut p, DirVecEvent::Apply).apply, Some(0));
    let r = dirvec_panel_step(&mut dvs, &mut p, DirVecEvent::Delete);
    assert!(r.modified && dvs.is_empty());
    assert_eq!((p.sel, p.stage), (None, 0));
    let r = dirvec_panel_step(&mut dvs, &mut p, DirVecEvent::Link);
    assert!(!r.use_tool);
}
