use sketchmotion::camera::{Camera, CameraKeyframe, Interp};
use sketchmotion::piece::PieceLibrary;
use sketchmotion::selection::{selected_objects, take_objects};
use sketchmotion::vector::VectorObject;
use sketchmotion::skeleton::{BoneShape, Skeleton};
use sketchmotion::tools::Tool;
use sketchmotion::{Color, PaletteLibrary};

fn kf(frame: usize, x: u32) -> CameraKeyframe {
    CameraKeyframe { frame, x, y: 0, w: 0, h: 0, rotation: 0, anchor_x: 0, anchor_y: 0, interp: Interp::Linear }
}

#[test]
fn selection_is_sorted_unique_and_in_range() {
    assert_eq!(selected_objects(&vec![5, 1, 3, 1, 9, 3], Some(0), 6), vec![1, 3, 5]);
    assert_eq!(selected_objects(&vec![], Some(2), 6), vec![2]);
    assert_eq!(selected_objects(&vec![], Some(7), 6), Vec::<usize>::new());
    assert_eq!(selected_objects(&vec![], None, 6), Vec::<usize>::new());
    assert_eq!(selected_objects(&vec![8, 9], Some(1), 6), Vec::<usize>::new());
}

#[test]
fn camera_keyframes_stay_ordered() {
    let mut c = Camera { base_w: 0, base_h: 0, keyframes: vec![kf(0, 1)] };
    c.set_keyframe(kf(10, 2));
    c.set_keyframe(kf(5, 3));
    let frames: Vec<usize> = c.keyframes.iter().map(|k| k.frame).collect();
    assert_eq!(frames, vec![0, 5, 10]);
    assert_eq!(c.keyframe_index(5), Some(1));
    c.set_keyframe(kf(5, 4));
    assert_eq!(c.keyframes.len(), 3);
    assert_eq!(c.keyframes[1].x, 4);
    c.remove_keyframe(5);
    assert_eq!(c.keyframe_index(5), None);
    c.remove_keyframe(0);
    c.remove_keyframe(10);
    // At least one keyframe stays.
    assert_eq!(c.keyframes.len(), 1);
    let copy = c.clone();
    assert_eq!(copy.keyframes.len(), 1);
}

#[test]
fn interp_labels() {
    assert_eq!(Interp::all().len(), 5);
    assert_eq!(Interp::Constant.label(), "Constante (hold)");
    assert_eq!(Interp::default(), Interp::Linear);
}

#[test]
fn skeleton_bones_and_descendants() {
    let mut s = Skeleton::new("Rig");
    let a = s.add_bone(None, 0, 0, 0, 0, BoneShape::Torso);
    let b = s.add_bone(Some(a), 0, 0, 0, 0, BoneShape::Limb);
    let c = s.add_bone(Some(b), 0, 0, 0, 0, BoneShape::Mao);
    assert_eq!((a, b, c), (1, 2, 3));
    assert_eq!(s.bone(b).unwrap().name, "Osso 2");
    assert!(s.is_descendant(c, a));
    assert!(s.is_descendant(c, b));
    assert!(!s.is_descendant(a, c));
    assert!(!s.is_descendant(c, c));
    assert!(!s.is_descendant(99, a));
    // Removing the middle bone hands its child to the grandparent.
    s.remove_bone(b);
    assert_eq!(s.bone(c).unwrap().parent, Some(a));
    assert!(s.bone(b).is_none());
    let copy = s.clone();
    assert_eq!(copy.bones.len(), 2);
}

#[test]
fn skeleton_pose_reset() {
    let mut s = Skeleton::new("Rig");
    let a = s.add_bone(None, 10, 20, 30, 40, BoneShape::Limb);
    let i = s.bone_index(a).unwrap();
    s.bones[i].x = 99;
    s.reset_pose();
    assert_eq!(s.bones[i].x, 10);
    s.bones[i].x = 77;
    s.set_rest();
    s.bones[i].x = 1;
    s.reset_pose();
    assert_eq!(s.bones[i].x, 77);
}

#[test]
fn tools_colors_and_labels() {
    let c = Color::rgb(9, 8, 7);
    assert_eq!(Tool::Eraser.effective_color(c), Color::transparent());
    assert_eq!(Tool::Pencil.effective_color(c), c);
    assert_eq!(Tool::Fill.label(), "Balde");
}

#[test]
fn piece_library_add_remove_clone() {
    let mut lib = PieceLibrary::new();
    let i = lib.add("Cabeça", 1, 1, vec![1, 2, 3, 4]);
    let j = lib.add("Braço", 1, 1, vec![5, 6, 7, 8]);
    assert_eq!((i, j), (0, 1));
    lib.remove(7);
    assert_eq!(lib.pieces.len(), 2);
    lib.remove(0);
    assert_eq!(lib.pieces[0].name, "Braço");
    let copy = lib.clone();
    assert_eq!(copy.pieces[0].rgba, vec![5, 6, 7, 8]);
}

#[test]
fn palette_library_clone() {
    let mut lib = PaletteLibrary::new();
    let p = lib.add_character("N1");
    let g = lib.characters[p].add_group("Pele");
    lib.characters[p].groups[g].add_color("base", Color::rgb(1, 2, 3));
    let copy = lib.clone();
    assert_eq!(copy.characters[0].groups[0].colors[0].label, "base");
    assert_eq!(copy.characters[0].groups[0].colors[0].color, Color::rgb(1, 2, 3));
}

#[test]
fn copy_and_cut_vector_objects() {
    let mut vs: Vec<VectorObject> = (0..5u8).map(|i| VectorObject::new(Color::rgb(i, 0, 0), 0)).collect();
    let copied = take_objects(&mut vs, &vec![1, 3], false);
    assert_eq!(copied.len(), 2);
    assert_eq!(copied[1].stroke, Color::rgb(3, 0, 0));
    assert_eq!(vs.len(), 5);
    let cut = take_objects(&mut vs, &vec![0, 3, 4], true);
    assert_eq!(cut.iter().map(|v| v.stroke.r).collect::<Vec<_>>(), vec![0, 3, 4]);
    assert_eq!(vs.iter().map(|v| v.stroke.r).collect::<Vec<_>>(), vec![1, 2]);
}

#[test]
fn bone_mut_changes_the_bone() {
    let mut s = Skeleton::new("Rig");
    let a = s.add_bone(None, 1, 2, 3, 4, BoneShape::Head);
    s.bone_mut(a).unwrap().length = 40;
    assert_eq!(s.bone(a).unwrap().length, 40);
    assert!(s.bone_mut(99).is_none());
}
