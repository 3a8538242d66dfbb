use sketchmotion::timeline::{apply_timeline_action, copy_frames, paste_frames, TimelineAction};
use sketchmotion::{Color, Document};

fn mark(doc: &mut Document, v: u8) {
    doc.layer_mut(0).unwrap().set_pixel(0, 0, Color::rgb(v, 0, 0));
}

fn red(doc: &Document) -> u8 {
    doc.layer(0).unwrap().get_pixel(0, 0).unwrap().r
}

#[test]
fn timeline_actions_step_through_frames() {
    let mut doc = Document::new(2, 2, Color::white());
    mark(&mut doc, 1);
    apply_timeline_action(&mut doc, TimelineAction::AddFrame(0));
    mark(&mut doc, 2);
    apply_timeline_action(&mut doc, TimelineAction::DuplicateFrame(0));
    assert_eq!(doc.frames.len(), 3);
    assert_eq!(doc.current, 2);
    assert_eq!(red(&doc), 2);
    apply_timeline_action(&mut doc, TimelineAction::Previous(0));
    apply_timeline_action(&mut doc, TimelineAction::Previous(0));
    assert_eq!(doc.current, 0);
    assert_eq!(red(&doc), 1);
    // Nothing before the first frame.
    apply_timeline_action(&mut doc, TimelineAction::Previous(0));
    assert_eq!(doc.current, 0);
    apply_timeline_action(&mut doc, TimelineAction::Next(0));
    assert_eq!(doc.current, 1);
    apply_timeline_action(&mut doc, TimelineAction::GoTo(0, 2));
    assert_eq!(doc.current, 2);
    apply_timeline_action(&mut doc, TimelineAction::Next(0));
    assert_eq!(doc.current, 2);
    apply_timeline_action(&mut doc, TimelineAction::MoveFrame(0, 0, 3));
    assert_eq!(doc.current, 2);
    assert_eq!(red(&doc), 1);
    apply_timeline_action(&mut doc, TimelineAction::RemoveFrame(0));
    assert_eq!(doc.frames.len(), 2);
}

#[test]
fn timeline_actions_on_tracks() {
    let mut doc = Document::new(2, 2, Color::white());
    apply_timeline_action(&mut doc, TimelineAction::AddTrack);
    assert_eq!(doc.tracks.len(), 2);
    assert_eq!(doc.active_track, 1);
    apply_timeline_action(&mut doc, TimelineAction::AddFrame(0));
    assert_eq!(doc.active_track, 0);
    assert_eq!(doc.frames.len(), 2);
    apply_timeline_action(&mut doc, TimelineAction::SelectTrack(1));
    assert_eq!(doc.frames.len(), 1);
    apply_timeline_action(&mut doc, TimelineAction::RemoveTrack(1));
    assert_eq!(doc.tracks.len(), 1);
    assert_eq!(doc.frames.len(), 2);
    // The last timeline stays.
    apply_timeline_action(&mut doc, TimelineAction::RemoveTrack(0));
    assert_eq!(doc.tracks.len(), 1);
}

#[test]
fn copy_selected_frames_and_paste_them() {
    let mut doc = Document::new(2, 2, Color::white());
    mark(&mut doc, 1);
    apply_timeline_action(&mut doc, TimelineAction::AddFrame(0));
    mark(&mut doc, 2);
    apply_timeline_action(&mut doc, TimelineAction::AddFrame(0));
    mark(&mut doc, 3);
    let clip = copy_frames(&mut doc, 0, &vec![2, 0, 2, 9]);
    assert_eq!(clip.len(), 2);
    assert_eq!(clip[0].layers[0].get_pixel(0, 0).unwrap().r, 1);
    assert_eq!(clip[1].layers[0].get_pixel(0, 0).unwrap().r, 3);
    apply_timeline_action(&mut doc, TimelineAction::AddTrack);
    paste_frames(&mut doc, 1, &clip);
    assert_eq!(doc.active_track, 1);
    assert_eq!(doc.frames.len(), 3);
    assert_eq!(doc.current, 2);
    assert_eq!(red(&doc), 3);
    apply_timeline_action(&mut doc, TimelineAction::GoTo(1, 1));
    assert_eq!(red(&doc), 1);
}

#[test]
fn copy_one_frame_of_another_timeline() {
    let mut doc = Document::new(2, 2, Color::white());
    mark(&mut doc, 7);
    doc.sync_to_frames();
    apply_timeline_action(&mut doc, TimelineAction::AddTrack);
    let clip = copy_frames(&mut doc, 0, &vec![]);
    assert_eq!(clip.len(), 1);
    assert_eq!(clip[0].layers[0].get_pixel(0, 0).unwrap().r, 7);
    // Empty clipboard: nothing happens.
    paste_frames(&mut doc, 0, &Vec::new());
    assert_eq!(doc.active_track, 1);
}
