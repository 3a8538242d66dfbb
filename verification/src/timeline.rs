//! The timeline panel's operations on a document: choosing, adding and
//! removing timelines, stepping through frames, adding, duplicating,
//! removing and moving frames, and copying and pasting frames between
//! timelines. Each acts on the timeline it was asked on, which becomes the
//! active one first.
use vstd::prelude::*;
use crate::document::{Document, DocumentView};
use crate::frame::{frame_views, frames_wf, Frame, FrameView};
use crate::selection::{selected_objects, strictly_increasing};
use crate::document::track_views;

verus! {

/// What the timeline panel asks of the document.
#[derive(Clone, Copy, Debug)]
pub enum TimelineAction {
    /// Add a timeline (it becomes the active one).
    AddTrack,
    /// Make timeline `t` the active one.
    SelectTrack(usize),
    /// Remove timeline `t`.
    RemoveTrack(usize),
    /// Go to frame `f` of timeline `t`.
    GoTo(usize, usize),
    /// The frame before the current one on timeline `t`.
    Previous(usize),
    /// The frame after the current one on timeline `t`.
    Next(usize),
    /// A blank frame after the current one on timeline `t`.
    AddFrame(usize),
    /// A copy of the current frame after it on timeline `t`.
    DuplicateFrame(usize),
    /// Remove the current frame of timeline `t`.
    RemoveFrame(usize),
    /// Move frame `from` to position `to` on timeline `t`.
    MoveFrame(usize, usize, usize),
}

/// The document after `a`.
pub open spec fn acted(v: DocumentView, a: TimelineAction) -> DocumentView {
    match a {
        TimelineAction::AddTrack => v.track_added(),
        TimelineAction::SelectTrack(t) => v.went_to_track(t),
        TimelineAction::RemoveTrack(t) => v.track_removed(t),
        TimelineAction::GoTo(t, f) => v.went_to_track(t).went_to_frame(f),
        TimelineAction::Previous(t) => {
            let w = v.went_to_track(t);
            if w.current > 0 {
                w.went_to_frame((w.current - 1) as usize)
            } else {
                w
            }
        },
        TimelineAction::Next(t) => {
            let w = v.went_to_track(t);
            if w.current + 1 < w.frames.len() {
                w.went_to_frame((w.current + 1) as usize)
            } else {
                w
            }
        },
        TimelineAction::AddFrame(t) => v.went_to_track(t).frame_added(),
        TimelineAction::DuplicateFrame(t) => v.went_to_track(t).frame_duplicated(),
        TimelineAction::RemoveFrame(t) => {
            let w = v.went_to_track(t);
            w.frame_removed(w.current)
        },
        TimelineAction::MoveFrame(t, from, to) => v.went_to_track(t).frame_moved(from, to),
    }
}

/// The action can be carried out on `v`: there is room for one more
/// timeline or frame, and the frame to duplicate exists.
pub open spec fn action_defined(v: DocumentView, a: TimelineAction) -> bool {
    match a {
        TimelineAction::AddTrack => v.tracks.len() < usize::MAX,
        TimelineAction::AddFrame(t) => v.went_to_track(t).current < usize::MAX,
        TimelineAction::DuplicateFrame(t) => {
            let w = v.went_to_track(t);
            w.frames.len() == 0 || w.current < w.frames.len()
        },
        _ => true,
    }
}

/// Carries out a request of the timeline panel.
pub fn apply_timeline_action(doc: &mut Document, a: TimelineAction)
    requires
        old(doc).fits(),
        action_defined(old(doc)@, a),
    ensures
        final(doc)@ == acted(old(doc)@, a),
        old(doc).wf() ==> final(doc).wf(),
        final(doc).width == old(doc).width,
        final(doc).height == old(doc).height,
{
    match a {
        TimelineAction::AddTrack => {
            doc.add_track();
        },
        TimelineAction::SelectTrack(t) => {
            doc.go_to_track(t);
        },
        TimelineAction::RemoveTrack(t) => {
            doc.remove_track(t);
        },
        TimelineAction::GoTo(t, f) => {
            doc.go_to_track(t);
            doc.go_to_frame(f);
        },
        TimelineAction::Previous(t) => {
            doc.go_to_track(t);
            if doc.current > 0 {
                let c = doc.current - 1;
                doc.go_to_frame(c);
            }
        },
        TimelineAction::Next(t) => {
            doc.go_to_track(t);
            let n = doc.frames.len();
            if n > 0 && doc.current < n - 1 {
                let c = doc.current + 1;
                doc.go_to_frame(c);
            }
        },
        TimelineAction::AddFrame(t) => {
            doc.go_to_track(t);
            doc.add_frame();
        },
        TimelineAction::DuplicateFrame(t) => {
            doc.go_to_track(t);
            doc.duplicate_frame();
        },
        TimelineAction::RemoveFrame(t) => {
            doc.go_to_track(t);
            let c = doc.current;
            doc.remove_frame(c);
        },
        TimelineAction::MoveFrame(t, from, to) => {
            doc.go_to_track(t);
            doc.move_frame(from, to);
        },
    }
}

/// Every timeline operation can be carried out on a normal document (one
/// more timeline aside, which needs room), and leaves it normal: there is a
/// current frame, it is the working copy, the active timeline exists and
/// the speed is at least one frame per second.
pub proof fn law_timeline_keeps_normal(v: DocumentView, a: TimelineAction)
    requires
        v.is_normal(),
        v.tracks.len() < usize::MAX,
        v.frames.len() < usize::MAX,
        forall|i: int| 0 <= i < v.tracks.len() ==> #[trigger] v.tracks[i].frames.len() < usize::MAX,
    ensures
        action_defined(v, a),
        acted(v, a).is_normal(),
{
    lemma_track_switch_normal(v);
    match a {
        TimelineAction::AddTrack => {
            let s = v.synced();
            assert(s.tracks.len() == v.tracks.len());
        },
        TimelineAction::RemoveTrack(t) => {
            if !(v.tracks.len() <= 1 || t >= v.tracks.len()) {
                let s = v.synced();
                assert(s.tracks.len() == v.tracks.len());
            }
        },
        _ => {},
    }
}

/// Making a timeline active keeps a document normal, and the frame
/// operations keep the result normal.
proof fn lemma_track_switch_normal(v: DocumentView)
    requires
        v.is_normal(),
        v.frames.len() < usize::MAX,
        forall|i: int| 0 <= i < v.tracks.len() ==> #[trigger] v.tracks[i].frames.len() < usize::MAX,
    ensures
        forall|t: usize| #[trigger] v.went_to_track(t).is_normal(),
        forall|t: usize| frame_ops_keep_normal(#[trigger] v.went_to_track(t)),
{
    assert forall|t: usize| #[trigger] v.went_to_track(t).is_normal() && v.went_to_track(t).frames.len()
        < usize::MAX by {
        if !(t >= v.tracks.len() || t == v.active_track) {
            let s = v.synced();
            assert(s.tracks.len() == v.tracks.len());
            assert(s.tracks[t as int] == v.tracks[t as int]);
        }
    }
    assert forall|t: usize| frame_ops_keep_normal(#[trigger] v.went_to_track(t)) by {
        let w = v.went_to_track(t);
        lemma_frame_ops_normal(w);
    }
}

/// The frame operations keep `w` normal, when it is.
spec fn frame_ops_keep_normal(w: DocumentView) -> bool {
    w.is_normal() && w.frames.len() < usize::MAX ==> {
        &&& w.current < usize::MAX
        &&& forall|f: usize| #[trigger] w.went_to_frame(f).is_normal()
        &&& w.frame_added().is_normal()
        &&& w.frame_duplicated().is_normal()
        &&& w.frame_removed(w.current).is_normal()
        &&& forall|from: usize, to: usize| #[trigger] w.frame_moved(from, to).is_normal()
    }
}

proof fn lemma_frame_ops_normal(w: DocumentView)
    ensures
        frame_ops_keep_normal(w),
{
    if w.is_normal() && w.frames.len() < usize::MAX {
        let s = w.synced();
        assert(s.frames.len() == w.frames.len());
        assert(s.tracks.len() == w.tracks.len());
        assert forall|f: usize| #[trigger] w.went_to_frame(f).is_normal() by {}
        assert forall|from: usize, to: usize| #[trigger] w.frame_moved(from, to).is_normal() by {
            if from < w.frames.len() {
                let f = s.frames[from as int];
                let r = s.frames.remove(from as int);
                let t0: int = if to <= r.len() + 1 { to as int } else { r.len() + 1int };
                let t1: int = if t0 > from { t0 - 1 } else { t0 };
                let t2: int = if t1 > r.len() { r.len() as int } else { t1 };
                let ms = r.insert(t2, f);
                assert(ms[t2] == f);
            }
        }
    }
}

/// The frame that copying on timeline `t` takes when no frames are
/// selected: the working copy on the active timeline; on another one, its
/// current frame (the last when the index is past the end), or the working
/// copy when it has none or does not exist.
pub open spec fn copied_frame(v: DocumentView, t: usize) -> FrameView {
    if t == v.active_track {
        v.working()
    } else if t < v.tracks.len() && v.tracks[t as int].frames.len() > 0 {
        let tr = v.tracks[t as int];
        let c: int = if tr.current < tr.frames.len() { tr.current as int } else { tr.frames.len() - 1 };
        tr.frames[c]
    } else {
        v.working()
    }
}

/// Copies frames for pasting. On the active timeline with frames selected
/// (`sel`), the working copy is saved and the selected frames that exist
/// are copied in order, each once; otherwise the one frame of
/// [`copied_frame`] is copied and the document is left as it was.
pub fn copy_frames(doc: &mut Document, t: usize, sel: &Vec<usize>) -> (clip: Vec<Frame>)
    ensures
        t == old(doc)@.active_track && sel@.len() > 0 ==> {
            &&& final(doc)@ == old(doc)@.synced()
            &&& exists|idxs: Seq<usize>|
                {
                    &&& strictly_increasing(idxs)
                    &&& forall|i: usize| #[trigger] idxs.contains(i) <==> sel@.contains(i) && i < final(doc)@.frames.len()
                    &&& frame_views(clip@) == idxs.map_values(|i: usize| final(doc)@.frames[i as int])
                }
        },
        !(t == old(doc)@.active_track && sel@.len() > 0) ==> {
            &&& *final(doc) == *old(doc)
            &&& frame_views(clip@) == seq![copied_frame(old(doc)@, t)]
        },
        old(doc).wf() ==> final(doc).wf() && frames_wf(clip@),
{
    if t == doc.active_track && sel.len() > 0 {
        doc.sync_to_frames();
        let idxs = selected_objects(sel, None, doc.frames.len());
        let mut clip: Vec<Frame> = Vec::new();
        let mut k: usize = 0;
        while k < idxs.len()
            invariant
                k <= idxs@.len(),
                strictly_increasing(idxs@),
                forall|i: usize| idxs@.contains(i) ==> i < doc.frames@.len(),
                frame_views(clip@) == idxs@.take(k as int).map_values(|i: usize| doc@.frames[i as int]),
                doc.wf() ==> frames_wf(clip@),
            decreases idxs@.len() - k,
        {
            let i = idxs[k];
            assert(idxs@.contains(i));
            let f = doc.frames[i].clone();
            let ghost prev = clip@;
            clip.push(f);
            proof {
                assert(frame_views(clip@) =~= frame_views(prev).push(f@));
                assert(idxs@.take(k + 1) =~= idxs@.take(k as int).push(i));
                if doc.wf() {
                    assert(doc.frames@[i as int].wf());
                }
            }
            k = k + 1;
            proof {
                assert(frame_views(clip@) =~= idxs@.take(k as int).map_values(|i: usize| doc@.frames[i as int]));
            }
        }
        proof {
            assert(idxs@.take(idxs@.len() as int) =~= idxs@);
            assert forall|i: usize| #[trigger] idxs@.contains(i) <==> sel@.contains(i) && i < doc@.frames.len() by {}
        }
        clip
    } else {
        let f = if t == doc.active_track {
            doc.current_frame_clone()
        } else if t < doc.tracks.len() && doc.tracks[t].frames.len() > 0 {
            let tr = &doc.tracks[t];
            proof {
                assert(track_views(doc.tracks@)[t as int] == tr@);
            }
            let n = tr.frames.len();
            let c = if tr.current < n { tr.current } else { n - 1 };
            let f = tr.frames[c].clone();
            proof {
                if doc.wf() {
                    assert(doc.tracks@[t as int].wf());
                    assert(tr.frames@[c as int].wf());
                }
            }
            f
        } else {
            doc.current_frame_clone()
        };
        let mut clip: Vec<Frame> = Vec::new();
        clip.push(f);
        proof {
            assert(frame_views(clip@) =~= seq![f@]);
        }
        clip
    }
}

/// The document after the frames `fs` are pasted one after the other,
/// each after the frame the previous one left current.
pub open spec fn pasted_all(v: DocumentView, fs: Seq<FrameView>) -> DocumentView
    decreases fs.len(),
{
    if fs.len() == 0 {
        v
    } else {
        pasted_all(v, fs.drop_last()).frame_pasted(fs.last())
    }
}

/// Pastes the frames of `clip`, in order, after the current frame of
/// timeline `t` (which becomes the active one); an empty clipboard changes
/// nothing.
pub fn paste_frames(doc: &mut Document, t: usize, clip: &Vec<Frame>)
    requires
        old(doc).fits(),
        old(doc)@.went_to_track(t).current < old(doc)@.went_to_track(t).frames.len(),
    ensures
        clip@.len() == 0 ==> *final(doc) == *old(doc),
        clip@.len() > 0 ==> final(doc)@ == pasted_all(old(doc)@.went_to_track(t), frame_views(clip@)),
        old(doc).wf() && frames_wf(clip@) ==> final(doc).wf(),
{
    if clip.len() == 0 {
        return;
    }
    doc.go_to_track(t);
    let ghost w = doc@;
    let ghost cv = frame_views(clip@);
    let ghost good = old(doc).wf() && frames_wf(clip@);
    let mut k: usize = 0;
    while k < clip.len()
        invariant
            k <= clip@.len(),
            cv == frame_views(clip@),
            doc@ == pasted_all(w, cv.take(k as int)),
            doc.current < doc.frames@.len(),
            good ==> doc.wf(),
            good ==> frames_wf(clip@),
        decreases clip@.len() - k,
    {
        let f = clip[k].clone();
        proof {
            if good {
                assert(clip@[k as int].wf());
            }
        }
        let n = doc.frames.len();
        assert(doc@.frames.len() == n);
        let ghost before = doc@;
        doc.paste_frame(f);
        proof {
            let sb = before.synced();
            assert(sb.frames.len() == n);
            assert(before.insert_point() <= n);
            assert(doc@.current == before.insert_point());
            assert(doc@.frames.len() == n + 1);
            assert(doc.frames@.len() == doc@.frames.len());
            assert(cv.take(k + 1).drop_last() =~= cv.take(k as int));
            assert(cv.take(k + 1).last() == f@);
        }
        k = k + 1;
    }
    proof {
        assert(cv.take(clip@.len() as int) =~= cv);
    }
}

} // verus!
