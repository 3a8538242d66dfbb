//! Document: size, background, the layers of the current frame and the
//! timelines of the animation. It is the single source of truth of the
//! model: every change to the drawing happens here; rendering and saving
//! only read it.
use vstd::prelude::*;
use vstd::string::*;
use crate::camera::{ensured, f32_bits, f32_bits_of, full_camera, Camera, CameraView};
use crate::color::Color;
use crate::frame::{
    clone_frames, clone_images, clone_layers, clone_vectors, frame_views, frames_wf, image_views,
    layer_views, layers_wf, vector_views, Frame, FrameView,
};
use crate::image_object::ImageObjectView;
use crate::layer::{Layer, LayerView, Turn};
use crate::pivot::Pivot;
use crate::skeleton::{skeleton_views, Skeleton, SkeletonView};
use crate::text::{decimal, numbered};
use crate::vector::VectorObjectView;

verus! {

/// What a timeline is: its frames, current frame, speed and visibility.
#[verifier::ext_equal]
pub struct TrackView {
    pub name: Seq<char>,
    pub frames: Seq<FrameView>,
    pub current: usize,
    pub fps: u32,
    pub visible: bool,
}

/// A timeline of the animation: its own list of frames, FPS and visibility.
/// A document can stack several.
pub struct Track {
    pub name: String,
    pub frames: Vec<Frame>,
    pub current: usize,
    pub fps: u32,
    pub visible: bool,
}

impl View for Track {
    type V = TrackView;

    open spec fn view(&self) -> TrackView {
        TrackView {
            name: self.name@,
            frames: frame_views(self.frames@),
            current: self.current,
            fps: self.fps,
            visible: self.visible,
        }
    }
}

impl Track {
    pub open spec fn wf(&self) -> bool {
        frames_wf(self.frames@)
    }
}

pub open spec fn track_views(s: Seq<Track>) -> Seq<TrackView> {
    s.map_values(|t: Track| t@)
}

pub open spec fn tracks_wf(s: Seq<Track>) -> bool {
    forall|i: int| 0 <= i < s.len() ==> #[trigger] s[i].wf()
}

impl Clone for Track {
    /// A copy with the same name, frames, current frame, speed and visibility.
    fn clone(&self) -> (res: Self)
        ensures
            res@ == self@,
            self.wf() ==> res.wf(),
    {
        Track {
            name: self.name.clone(),
            frames: clone_frames(&self.frames),
            current: self.current,
            fps: self.fps,
            visible: self.visible,
        }
    }
}

/// A copy of each timeline.
fn clone_tracks(v: &Vec<Track>) -> (r: Vec<Track>)
    ensures
        track_views(r@) == track_views(v@),
        tracks_wf(v@) ==> tracks_wf(r@),
{
    let r = v.clone();
    assert(track_views(r@) =~= track_views(v@));
    assert forall|i: int| 0 <= i < r@.len() && tracks_wf(v@) implies #[trigger] r@[i].wf() by {
        assert(cloned(v@[i], r@[i]));
        assert(v@[i].wf());
    }
    r
}

/// A copy of each skeleton.
fn clone_skeletons(v: &Vec<Skeleton>) -> (r: Vec<Skeleton>)
    ensures
        skeleton_views(r@) == skeleton_views(v@),
{
    let r = v.clone();
    assert forall|i: int| 0 <= i < r@.len() implies r@[i]@ == v@[i]@ by {
        assert(cloned(v@[i], r@[i]));
    }
    assert(skeleton_views(r@) =~= skeleton_views(v@));
    r
}

/// A copy of each pivot.
fn clone_pivots(v: &Vec<Pivot>) -> (r: Vec<Pivot>)
    ensures
        r@ == v@,
{
    let r = v.clone();
    assert forall|i: int| 0 <= i < r@.len() implies r@[i] == v@[i] by {
        assert(cloned(v@[i], r@[i]));
    }
    assert(r@ =~= v@);
    r
}

/// The speed of a timeline that does not state one: 12 frames per second.
pub fn default_fps() -> (f: u32)
    ensures
        f == 12,
{
    12
}

/// The default of a visibility switch: visible.
pub fn vis_true() -> (b: bool)
    ensures
        b,
{
    true
}

/// What a document is.
#[verifier::ext_equal]
pub struct DocumentView {
    pub width: u32,
    pub height: u32,
    pub background: Color,
    pub layers: Seq<LayerView>,
    pub vectors: Seq<VectorObjectView>,
    pub images: Seq<ImageObjectView>,
    pub frames: Seq<FrameView>,
    pub current: usize,
    pub fps: u32,
    pub skeletons: Seq<SkeletonView>,
    pub pixel_art: bool,
    pub tracks: Seq<TrackView>,
    pub active_track: usize,
    pub onion_between: bool,
    pub camera: CameraView,
    pub pivots: Seq<Pivot>,
}

/// The name of the layer of a new frame or document.
pub open spec fn first_layer_name() -> Seq<char> {
    "Camada 1"@
}

impl DocumentView {
    /// The working copy, as a frame.
    pub open spec fn working(self) -> FrameView {
        FrameView { layers: self.layers, vectors: self.vectors, images: self.images }
    }

    /// The document with frame `f` as working copy.
    pub open spec fn showing(self, f: FrameView) -> DocumentView {
        DocumentView { layers: f.layers, vectors: f.vectors, images: f.images, ..self }
    }

    /// The frames, current frame and speed copied back into the active
    /// timeline (when there is one).
    pub open spec fn mirrored(self) -> DocumentView {
        if self.active_track < self.tracks.len() {
            DocumentView {
                tracks: self.tracks.update(
                    self.active_track as int,
                    TrackView {
                        frames: self.frames,
                        current: self.current,
                        fps: self.fps,
                        ..self.tracks[self.active_track as int]
                    },
                ),
                ..self
            }
        } else {
            self
        }
    }

    /// The working copy written into the current frame (or as the only frame
    /// when there is none), then mirrored into the active timeline.
    pub open spec fn synced(self) -> DocumentView {
        let f = self.working();
        (if self.frames.len() == 0 {
            DocumentView { frames: seq![f], current: 0, ..self }
        } else if self.current < self.frames.len() {
            DocumentView { frames: self.frames.update(self.current as int, f), ..self }
        } else {
            self
        }).mirrored()
    }

    /// The frames, current frame and speed (at least 1) of the active
    /// timeline loaded, a blank frame standing in when it has none, the
    /// current frame brought within range, and that frame as working copy.
    pub open spec fn track_loaded(self) -> DocumentView {
        let t = self.tracks[self.active_track as int];
        let fps: u32 = if t.fps >= 1 { t.fps } else { 1 };
        let frames = if t.frames.len() == 0 {
            seq![FrameView::blank(first_layer_name(), self.width as nat, self.height as nat)]
        } else {
            t.frames
        };
        let current: usize = if t.frames.len() == 0 {
            0
        } else if t.current < t.frames.len() {
            t.current
        } else {
            (t.frames.len() - 1) as usize
        };
        DocumentView { frames, current, fps, ..self }.showing(frames[current as int])
    }

    /// A frame with no layer gets a blank one.
    pub open spec fn with_layer(self, f: FrameView) -> FrameView {
        if f.layers.len() == 0 {
            FrameView {
                layers: seq![LayerView::blank(first_layer_name(), self.width as nat, self.height as nat)],
                ..f
            }
        } else {
            f
        }
    }

    /// The state after loading: a document saved without frames gets its
    /// working copy as only frame; frames without layers get a blank one; the
    /// current frame is brought within range (else 0) and a speed of 0 becomes
    /// 12; the current frame becomes the working copy; a document without
    /// timelines gets one holding its frames; the active timeline is brought
    /// within range (else 0) and loaded; the camera is made usable for the
    /// canvas (`ensured`).
    pub open spec fn normalized(self) -> DocumentView {
        let s1 = if self.frames.len() == 0 {
            DocumentView { frames: seq![self.working()], layers: seq![], vectors: seq![], images: seq![], ..self }
        } else {
            self
        };
        let s2 = DocumentView { frames: s1.frames.map_values(|f: FrameView| self.with_layer(f)), ..s1 };
        let s3 = DocumentView {
            current: if s2.current >= s2.frames.len() { 0 } else { s2.current },
            fps: if s2.fps == 0 { 12 } else { s2.fps },
            ..s2
        };
        let s4 = s3.showing(s3.frames[s3.current as int]);
        let s5 = if s4.tracks.len() == 0 {
            DocumentView {
                tracks: seq![
                    TrackView {
                        name: "Timeline 1"@,
                        frames: s4.frames,
                        current: s4.current,
                        fps: s4.fps,
                        visible: true,
                    },
                ],
                active_track: 0,
                ..s4
            }
        } else {
            s4
        };
        let s6 = DocumentView {
            active_track: if s5.active_track >= s5.tracks.len() { 0 } else { s5.active_track },
            ..s5
        };
        let s7 = s6.track_loaded();
        DocumentView { camera: ensured(s7.camera, s7.width, s7.height), ..s7 }
    }

    /// A document ready for editing: it has frames and timelines, the current
    /// frame and the active timeline are in range, the speed is at least 1,
    /// the working copy is the current frame and the frames mirror the
    /// active timeline.
    pub open spec fn is_normal(self) -> bool {
        &&& self.frames.len() >= 1
        &&& self.current < self.frames.len()
        &&& self.active_track < self.tracks.len()
        &&& self.fps >= 1
        &&& self.working() == self.frames[self.current as int]
    }

    /// After `go_to_frame(i)`: the working copy saved, frame `i` current and
    /// loaded; an index out of range or the current one changes nothing.
    pub open spec fn went_to_frame(self, i: usize) -> DocumentView {
        if i >= self.frames.len() || i == self.current {
            self
        } else {
            let s = self.synced();
            (DocumentView { current: i, ..s }).showing(s.frames[i as int])
        }
    }

    /// After `go_to_track(i)`: the working copy saved, timeline `i` active and
    /// loaded; an index out of range or the active one changes nothing.
    pub open spec fn went_to_track(self, i: usize) -> DocumentView {
        if i >= self.tracks.len() || i == self.active_track {
            self
        } else {
            (DocumentView { active_track: i, ..self.synced() }).track_loaded()
        }
    }

    /// Where a new or pasted frame goes: right after the current one (at the
    /// end when the current index is past the end).
    pub open spec fn insert_point(self) -> int {
        let s = self.synced();
        if s.current + 1 <= s.frames.len() { s.current + 1 } else { s.frames.len() as int }
    }

    /// After `add_frame`: the working copy saved, a blank frame inserted after
    /// the current one and shown.
    pub open spec fn frame_added(self) -> DocumentView {
        let s = self.synced();
        let a = self.insert_point();
        let fs = s.frames.insert(a, FrameView::blank(first_layer_name(), s.width as nat, s.height as nat));
        (DocumentView { frames: fs, current: a as usize, ..s }).showing(fs[a])
    }

    /// After `duplicate_frame`: the working copy saved, a copy of the current
    /// frame inserted after it and shown.
    pub open spec fn frame_duplicated(self) -> DocumentView {
        let s = self.synced();
        let a: int = s.current + 1;
        let fs = s.frames.insert(a, s.frames[s.current as int]);
        (DocumentView { frames: fs, current: a as usize, ..s }).showing(fs[a])
    }

    /// After `paste_frame(f)`: the working copy saved, `f` inserted after the
    /// current frame, shown, and the active timeline updated.
    pub open spec fn frame_pasted(self, f: FrameView) -> DocumentView {
        let s = self.synced();
        let a = self.insert_point();
        let fs = s.frames.insert(a, f);
        (DocumentView { frames: fs, current: a as usize, ..s }).showing(fs[a]).mirrored()
    }

    /// After `move_frame(from, to)`: frame `from` taken out and put back at
    /// `to` (counted before it was taken out, kept in range), then shown; an
    /// index `from` out of range changes nothing.
    pub open spec fn frame_moved(self, from: usize, to: usize) -> DocumentView {
        if from >= self.frames.len() {
            self
        } else {
            let s = self.synced();
            let f = s.frames[from as int];
            let r = s.frames.remove(from as int);
            let t0: int = if to <= r.len() + 1 { to as int } else { r.len() + 1int };
            let t1: int = if t0 > from { t0 - 1 } else { t0 };
            let t2: int = if t1 > r.len() { r.len() as int } else { t1 };
            let fs = r.insert(t2, f);
            (DocumentView { frames: fs, current: t2 as usize, ..s }).showing(fs[t2]).mirrored()
        }
    }

    /// After `remove_frame(i)`: frame `i` removed and the frame now current
    /// shown; the last frame, or an index out of range, is kept.
    pub open spec fn frame_removed(self, i: usize) -> DocumentView {
        if self.frames.len() <= 1 || i >= self.frames.len() {
            self
        } else {
            let fs = self.frames.remove(i as int);
            let c: usize = if self.current >= fs.len() { (fs.len() - 1) as usize } else { self.current };
            (DocumentView { frames: fs, current: c, ..self }).showing(fs[c as int])
        }
    }

    /// After `add_track`: the working copy saved, a timeline "Timeline N"
    /// with one blank frame added at the end, made active and loaded.
    pub open spec fn track_added(self) -> DocumentView {
        let s = self.synced();
        let t = TrackView {
            name: "Timeline "@ + decimal((s.tracks.len() + 1) as nat),
            frames: seq![FrameView::blank(first_layer_name(), s.width as nat, s.height as nat)],
            current: 0,
            fps: s.fps,
            visible: true,
        };
        (DocumentView { tracks: s.tracks.push(t), active_track: s.tracks.len() as usize, ..s }).track_loaded()
    }

    /// After `remove_track(i)`: timeline `i` removed and the one now active
    /// loaded; the last timeline, or an index out of range, is kept.
    pub open spec fn track_removed(self, i: usize) -> DocumentView {
        if self.tracks.len() <= 1 || i >= self.tracks.len() {
            self
        } else {
            let s = self.synced();
            let ts = s.tracks.remove(i as int);
            let a: usize = if s.active_track >= ts.len() {
                (ts.len() - 1) as usize
            } else if i < s.active_track {
                (s.active_track - 1) as usize
            } else {
                s.active_track
            };
            (DocumentView { tracks: ts, active_track: a, ..s }).track_loaded()
        }
    }
}


/// The frame on a canvas of `w` × `h`: each layer resized, anchored at the
/// top left.
pub open spec fn frame_resized(f: FrameView, w: nat, h: nat) -> FrameView {
    FrameView { layers: f.layers.map_values(|l: LayerView| l.resized(w, h)), ..f }
}

/// The timeline on a canvas of `w` × `h`: each frame resized.
pub open spec fn track_resized(t: TrackView, w: nat, h: nat) -> TrackView {
    TrackView { frames: t.frames.map_values(|f: FrameView| frame_resized(f, w, h)), ..t }
}

/// Resizes every layer of a list to `w` × `h`.
fn resize_layers(v: &mut Vec<Layer>, w: u32, h: u32)
    requires
        layers_wf(old(v)@),
        w * h * 4 <= usize::MAX,
    ensures
        layers_wf(final(v)@),
        layer_views(final(v)@) == layer_views(old(v)@).map_values(|l: LayerView| l.resized(w as nat, h as nat)),
{
    let n = v.len();
    let mut i: usize = 0;
    while i < n
        invariant
            n == v@.len(),
            n == old(v)@.len(),
            i <= n,
            w * h * 4 <= usize::MAX,
            layers_wf(v@),
            forall|j: int| 0 <= j < i ==> #[trigger] v@[j]@ == old(v)@[j]@.resized(w as nat, h as nat),
            forall|j: int| i <= j < n ==> #[trigger] v@[j] == old(v)@[j],
        decreases n - i,
    {
        let ghost before = v@;
        assert(v@[i as int].wf());
        v[i].resize(w, h);
        proof {
            assert forall|j: int| 0 <= j < n && j != i implies v@[j] == before[j] by {}
            assert forall|j: int| 0 <= j < n implies #[trigger] v@[j].wf() by {
                if j != i {
                    assert(before[j].wf());
                }
            }
        }
        i = i + 1;
    }
    assert(layer_views(v@) =~= layer_views(old(v)@).map_values(|l: LayerView| l.resized(w as nat, h as nat)));
}

/// Resizes every layer of every frame of a list to `w` × `h`.
fn resize_frames(v: &mut Vec<Frame>, w: u32, h: u32)
    requires
        frames_wf(old(v)@),
        w * h * 4 <= usize::MAX,
    ensures
        frames_wf(final(v)@),
        frame_views(final(v)@) == frame_views(old(v)@).map_values(|f: FrameView| frame_resized(f, w as nat, h as nat)),
{
    let n = v.len();
    let mut i: usize = 0;
    while i < n
        invariant
            n == v@.len(),
            n == old(v)@.len(),
            i <= n,
            w * h * 4 <= usize::MAX,
            frames_wf(v@),
            forall|j: int| 0 <= j < i ==> #[trigger] v@[j]@ == frame_resized(old(v)@[j]@, w as nat, h as nat),
            forall|j: int| i <= j < n ==> #[trigger] v@[j] == old(v)@[j],
        decreases n - i,
    {
        let ghost before = v@;
        assert(v@[i as int].wf());
        resize_layers(&mut v[i].layers, w, h);
        proof {
            assert forall|j: int| 0 <= j < n && j != i implies v@[j] == before[j] by {}
            assert(v@[i as int]@ =~= frame_resized(before[i as int]@, w as nat, h as nat));
            assert forall|j: int| 0 <= j < n implies #[trigger] v@[j].wf() by {
                if j != i {
                    assert(before[j].wf());
                }
            }
        }
        i = i + 1;
    }
    assert(frame_views(v@) =~= frame_views(old(v)@).map_values(|f: FrameView| frame_resized(f, w as nat, h as nat)));
}

/// Resizes every layer of every frame of every timeline to `w` × `h`.
fn resize_tracks(v: &mut Vec<Track>, w: u32, h: u32)
    requires
        tracks_wf(old(v)@),
        w * h * 4 <= usize::MAX,
    ensures
        tracks_wf(final(v)@),
        final(v)@.len() == old(v)@.len(),
        track_views(final(v)@) == track_views(old(v)@).map_values(|t: TrackView| track_resized(t, w as nat, h as nat)),
{
    let n = v.len();
    let mut i: usize = 0;
    while i < n
        invariant
            n == v@.len(),
            n == old(v)@.len(),
            i <= n,
            w * h * 4 <= usize::MAX,
            tracks_wf(v@),
            forall|j: int| 0 <= j < i ==> #[trigger] v@[j]@ == track_resized(old(v)@[j]@, w as nat, h as nat),
            forall|j: int| i <= j < n ==> #[trigger] v@[j] == old(v)@[j],
        decreases n - i,
    {
        let ghost before = v@;
        assert(v@[i as int].wf());
        resize_frames(&mut v[i].frames, w, h);
        proof {
            assert forall|j: int| 0 <= j < n && j != i implies v@[j] == before[j] by {}
            assert(v@[i as int]@ =~= track_resized(before[i as int]@, w as nat, h as nat));
            assert forall|j: int| 0 <= j < n implies #[trigger] v@[j].wf() by {
                if j != i {
                    assert(before[j].wf());
                }
            }
        }
        i = i + 1;
    }
    assert(track_views(v@) =~= track_views(old(v)@).map_values(|t: TrackView| track_resized(t, w as nat, h as nat)));
}

/// The document: size, background, the working copy of the current frame
/// (layers bottom first, vector and image objects), the frames of the active
/// timeline, the timelines, the rig skeletons, the camera and the pivots.
pub struct Document {
    pub width: u32,
    pub height: u32,
    pub background: Color,
    /// Layers from the bottom (index 0) to the top.
    pub layers: Vec<Layer>,
    pub vectors: Vec<crate::vector::VectorObject>,
    pub images: Vec<crate::image_object::ImageObject>,
    /// Frames of the active timeline; `layers`/`vectors`/`images` are the
    /// working copy of frame `current`.
    pub frames: Vec<Frame>,
    pub current: usize,
    pub fps: u32,
    pub skeletons: Vec<Skeleton>,
    /// Pixel art mode (grid and crisp pixels).
    pub pixel_art: bool,
    /// The timelines; `frames`/`current`/`fps` mirror the active one.
    pub tracks: Vec<Track>,
    /// The active timeline (the only one that can be edited).
    pub active_track: usize,
    /// Onion skin between timelines.
    pub onion_between: bool,
    pub camera: Camera,
    pub pivots: Vec<Pivot>,
}

impl View for Document {
    type V = DocumentView;

    open spec fn view(&self) -> DocumentView {
        DocumentView {
            width: self.width,
            height: self.height,
            background: self.background,
            layers: layer_views(self.layers@),
            vectors: vector_views(self.vectors@),
            images: image_views(self.images@),
            frames: frame_views(self.frames@),
            current: self.current,
            fps: self.fps,
            skeletons: skeleton_views(self.skeletons@),
            pixel_art: self.pixel_art,
            tracks: track_views(self.tracks@),
            active_track: self.active_track,
            onion_between: self.onion_between,
            camera: self.camera@,
            pivots: self.pivots@,
        }
    }
}

impl Clone for Document {
    /// A copy of the whole document.
    fn clone(&self) -> (res: Self)
        ensures
            res@ == self@,
            self.wf() ==> res.wf(),
    {
        Document {
            width: self.width,
            height: self.height,
            background: self.background,
            layers: clone_layers(&self.layers),
            vectors: clone_vectors(&self.vectors),
            images: clone_images(&self.images),
            frames: clone_frames(&self.frames),
            current: self.current,
            fps: self.fps,
            skeletons: clone_skeletons(&self.skeletons),
            pixel_art: self.pixel_art,
            tracks: clone_tracks(&self.tracks),
            active_track: self.active_track,
            onion_between: self.onion_between,
            camera: self.camera.clone(),
            pivots: clone_pivots(&self.pivots),
        }
    }
}

impl Document {
    /// Every layer of the document (working copy, frames, timelines) holds
    /// four bytes per pixel.
    pub open spec fn wf(&self) -> bool {
        &&& layers_wf(self.layers@)
        &&& frames_wf(self.frames@)
        &&& tracks_wf(self.tracks@)
    }

    /// A layer of the document's size fits in memory.
    pub open spec fn fits(&self) -> bool {
        self.width * self.height * 4 <= usize::MAX
    }

    /// Copies frames, current frame and speed back into the active timeline.
    fn mirror_to_track(&mut self)
        ensures
            final(self)@ == old(self)@.mirrored(),
            old(self).wf() ==> final(self).wf(),
            final(self).tracks@.len() == old(self).tracks@.len(),
            final(self).active_track == old(self).active_track,
            final(self).width == old(self).width,
            final(self).height == old(self).height,
            final(self).fps == old(self).fps,
            final(self).frames@ == old(self).frames@,
            final(self).current == old(self).current,
            final(self).layers@ == old(self).layers@,
            final(self).vectors@ == old(self).vectors@,
            final(self).images@ == old(self).images@,
    {
        let at = self.active_track;
        if at < self.tracks.len() {
            let frames = clone_frames(&self.frames);
            self.tracks[at].frames = frames;
            self.tracks[at].current = self.current;
            self.tracks[at].fps = self.fps;
            proof {
                assert(track_views(self.tracks@) =~= old(self)@.mirrored().tracks);
                if old(self).wf() {
                    assert(tracks_wf(self.tracks@));
                }
            }
        }
    }

    /// Writes the working copy into the current frame (as the only frame when
    /// there is none) and mirrors into the active timeline.
    pub fn sync_to_frames(&mut self)
        ensures
            final(self)@ == old(self)@.synced(),
            old(self).wf() ==> final(self).wf(),
            final(self).tracks@.len() == old(self).tracks@.len(),
            final(self).active_track == old(self).active_track,
            final(self).width == old(self).width,
            final(self).height == old(self).height,
            final(self).fps == old(self).fps,
            final(self).frames@.len() == (if old(self).frames@.len() == 0 { 1 } else { old(self).frames@.len() }),
            final(self).current == (if old(self).frames@.len() == 0 { 0 } else { old(self).current }),
    {
        let f = Frame {
            layers: clone_layers(&self.layers),
            vectors: clone_vectors(&self.vectors),
            images: clone_images(&self.images),
        };
        if self.frames.len() == 0 {
            self.frames.push(f);
            self.current = 0;
            assert(frame_views(self.frames@) =~= seq![old(self)@.working()]);
        } else if self.current < self.frames.len() {
            self.frames.set(self.current, f);
            assert(frame_views(self.frames@) =~= old(self)@.frames.update(old(self).current as int, old(self)@.working()));
        }
        self.mirror_to_track();
    }

    /// Loads the active timeline into the frames, current frame and speed
    /// and its current frame into the working copy.
    fn load_active_track_mirror(&mut self)
        requires
            old(self).active_track < old(self).tracks@.len(),
            old(self).fits(),
        ensures
            final(self)@ == old(self)@.track_loaded(),
            old(self).wf() ==> final(self).wf(),
    {
        let at = self.active_track;
        let mut frames = clone_frames(&self.tracks[at].frames);
        proof {
            if old(self).wf() {
                assert(self.tracks@[at as int].wf());
            }
        }
        let t_fps = self.tracks[at].fps;
        let fps = if t_fps >= 1 { t_fps } else { 1 };
        let mut current = self.tracks[at].current;
        let ghost tv = old(self)@.tracks[at as int];
        if frames.len() == 0 {
            let ghost before = frames@;
            frames.push(Frame::blank("Camada 1", self.width, self.height));
            current = 0;
            assert(frames_wf(frames@)) by {
                assert forall|i: int| 0 <= i < frames@.len() implies #[trigger] frames@[i].wf() by {
                    if i < before.len() {
                        assert(frames@[i] == before[i]);
                    }
                }
            }
            assert(frame_views(frames@) =~= seq![FrameView::blank(first_layer_name(), self.width as nat, self.height as nat)]);
        }
        if current >= frames.len() {
            current = frames.len() - 1;
        }
        self.frames = frames;
        self.current = current;
        self.fps = fps;
        proof {
            if old(self).wf() {
                assert(self.frames@[current as int].wf());
            }
        }
        self.layers = clone_layers(&self.frames[current].layers);
        self.vectors = clone_vectors(&self.frames[current].vectors);
        self.images = clone_images(&self.frames[current].images);
        proof {
            assert(self@ =~= old(self)@.track_loaded());
        }
    }

    /// A new document with one transparent layer "Camada 1" in one frame, in
    /// one timeline "Timeline 1", at 12 frames per second, and a camera
    /// framing the whole canvas.
    pub fn new(width: u32, height: u32, background: Color) -> (d: Self)
        requires
            width * height * 4 <= usize::MAX,
        ensures
            d.wf(),
            d.fits(),
            d@.width == width,
            d@.height == height,
            d@.background == background,
            d@.layers == seq![LayerView::blank(first_layer_name(), width as nat, height as nat)],
            d@.vectors == Seq::<VectorObjectView>::empty(),
            d@.images == Seq::<ImageObjectView>::empty(),
            d@.frames == seq![FrameView::blank(first_layer_name(), width as nat, height as nat)],
            d@.current == 0,
            d@.fps == 12,
            d@.skeletons == Seq::<SkeletonView>::empty(),
            !d@.pixel_art,
            d@.tracks == seq![
                TrackView {
                    name: "Timeline 1"@,
                    frames: seq![FrameView::blank(first_layer_name(), width as nat, height as nat)],
                    current: 0,
                    fps: 12,
                    visible: true,
                },
            ],
            d@.active_track == 0,
            !d@.onion_between,
            d@.camera == full_camera(width, height),
            d@.pivots == Seq::<Pivot>::empty(),
            d@.is_normal(),
    {
        let mut doc = Document {
            width,
            height,
            background,
            layers: Vec::new(),
            vectors: Vec::new(),
            images: Vec::new(),
            frames: Vec::new(),
            current: 0,
            fps: 12,
            skeletons: Vec::new(),
            pixel_art: false,
            tracks: Vec::new(),
            active_track: 0,
            onion_between: false,
            camera: Camera::new(width, height),
            pivots: Vec::new(),
        };
        doc.add_layer("Camada 1");
        let f = Frame {
            layers: clone_layers(&doc.layers),
            vectors: clone_vectors(&doc.vectors),
            images: clone_images(&doc.images),
        };
        let mut frames: Vec<Frame> = Vec::new();
        frames.push(f);
        doc.frames = frames;
        let mut tracks: Vec<Track> = Vec::new();
        tracks.push(
            Track {
                name: String::from_str("Timeline 1"),
                frames: clone_frames(&doc.frames),
                current: 0,
                fps: doc.fps,
                visible: true,
            },
        );
        doc.tracks = tracks;
        doc.active_track = 0;
        proof {
            let b = FrameView::blank(first_layer_name(), width as nat, height as nat);
            assert(doc@.layers =~= seq![LayerView::blank(first_layer_name(), width as nat, height as nat)]);
            assert(doc@.vectors =~= Seq::<VectorObjectView>::empty());
            assert(doc@.images =~= Seq::<ImageObjectView>::empty());
            assert(doc@.frames =~= seq![b]);
            assert(doc@.skeletons =~= Seq::<SkeletonView>::empty());
            assert(doc@.pivots =~= Seq::<Pivot>::empty());
            assert(doc@.tracks[0].frames =~= seq![b]);
            assert(doc@.tracks =~= seq![
                TrackView { name: "Timeline 1"@, frames: seq![b], current: 0, fps: 12, visible: true },
            ]);
            assert(doc.tracks@[0].wf());
            assert(doc.frames@[0].wf());
            assert(doc@.working() == doc@.frames[0]);
        }
        doc
    }

    /// Adds a transparent layer on top of the working copy and returns its
    /// index.
    pub fn add_layer(&mut self, name: &str) -> (i: usize)
        requires
            old(self).fits(),
        ensures
            final(self)@ == (DocumentView {
                layers: old(self)@.layers.push(LayerView::blank(name@, old(self).width as nat, old(self).height as nat)),
                ..old(self)@
            }),
            i == old(self)@.layers.len(),
            old(self).wf() ==> final(self).wf(),
    {
        let ghost before = self.layers@;
        self.layers.push(Layer::new(name, self.width, self.height));
        proof {
            assert(layer_views(self.layers@) =~= old(self)@.layers.push(LayerView::blank(name@, old(self).width as nat, old(self).height as nat)));
            if old(self).wf() {
                assert forall|k: int| 0 <= k < self.layers@.len() implies #[trigger] self.layers@[k].wf() by {
                    if k < before.len() {
                        assert(self.layers@[k] == before[k]);
                    }
                }
            }
        }
        self.layers.len() - 1
    }

    /// Brings a loaded document into shape for editing (see
    /// `DocumentView::normalized`), its camera made usable for the canvas
    /// (`Camera::ensure`), so that it has at least one keyframe.
    pub fn normalize(&mut self)
        requires
            old(self).fits(),
        ensures
            final(self)@ == old(self)@.normalized(),
            final(self)@.is_normal(),
            final(self)@.camera.keyframes.len() >= 1,
            old(self).wf() ==> final(self).wf(),
    {
        let ghost v0 = self@;
        if self.frames.len() == 0 {
            let mut layers: Vec<Layer> = Vec::new();
            std::mem::swap(&mut layers, &mut self.layers);
            let mut vectors: Vec<crate::vector::VectorObject> = Vec::new();
            std::mem::swap(&mut vectors, &mut self.vectors);
            let mut images: Vec<crate::image_object::ImageObject> = Vec::new();
            std::mem::swap(&mut images, &mut self.images);
            let mut fs: Vec<Frame> = Vec::new();
            fs.push(Frame { layers, vectors, images });
            self.frames = fs;
            proof {
                assert(self@.frames =~= seq![v0.working()]);
                assert(self@.layers =~= seq![]);
                assert(self@.vectors =~= seq![]);
                assert(self@.images =~= seq![]);
                assert(self.frames@[0].wf() == layers_wf(old(self).layers@));
            }
        }
        let ghost v1 = self@;
        let ghost w1 = self.wf();
        assert(v1 == (if v0.frames.len() == 0 {
            DocumentView { frames: seq![v0.working()], layers: seq![], vectors: seq![], images: seq![], ..v0 }
        } else {
            v0
        }));
        assert(old(self).wf() ==> w1);
        let n = self.frames.len();
        let mut i: usize = 0;
        while i < n
            invariant
                n == self.frames@.len(),
                v1.frames.len() == n,
                v0 == old(self)@,
                i <= n,
                self.width == old(self).width,
                self.height == old(self).height,
                self.fits(),
                forall|j: int| 0 <= j < i ==> #[trigger] frame_views(self.frames@)[j] == v0.with_layer(v1.frames[j]),
                forall|j: int| i <= j < n ==> #[trigger] frame_views(self.frames@)[j] == v1.frames[j],
                self@ == (DocumentView { frames: self@.frames, ..v1 }),
                w1 ==> self.wf(),
            decreases n - i,
        {
            let ghost before = self.frames@;
            assert(frame_views(before)[i as int] == v1.frames[i as int]);
            if self.frames[i].layers.len() == 0 {
                let l = Layer::new("Camada 1", self.width, self.height);
                self.frames[i].layers.push(l);
                proof {
                    assert(self@.frames[i as int].layers =~= seq![LayerView::blank(first_layer_name(), self.width as nat, self.height as nat)]);
                    assert(self.frames@[i as int].wf());
                }
            }
            proof {
                assert(v1.frames.len() == n);
                assert forall|j: int| 0 <= j < n && j != i implies self.frames@[j] == before[j] by {}
                assert(frame_views(self.frames@)[i as int] == v0.with_layer(v1.frames[i as int]));
                assert forall|j: int| 0 <= j < i + 1 implies #[trigger] frame_views(self.frames@)[j] == v0.with_layer(v1.frames[j]) by {
                    if j < i {
                        assert(frame_views(before)[j] == v0.with_layer(v1.frames[j]));
                    }
                }
                assert forall|j: int| i + 1 <= j < n implies #[trigger] frame_views(self.frames@)[j] == v1.frames[j] by {
                    assert(frame_views(before)[j] == v1.frames[j]);
                }
                assert(self@ =~= (DocumentView { frames: self@.frames, ..v1 }));
                if w1 {
                    assert forall|j: int| 0 <= j < n implies #[trigger] self.frames@[j].wf() by {
                        if j != i {
                            assert(before[j].wf());
                        }
                    }
                }
            }
            i = i + 1;
        }
        proof {
            assert(self@.frames =~= v1.frames.map_values(|f: FrameView| v0.with_layer(f)));
        }
        if self.current >= n {
            self.current = 0;
        }
        if self.fps == 0 {
            self.fps = 12;
        }
        let c = self.current;
        proof {
            if w1 {
                assert(self.frames@[c as int].wf());
            }
        }
        self.layers = clone_layers(&self.frames[c].layers);
        self.vectors = clone_vectors(&self.frames[c].vectors);
        self.images = clone_images(&self.frames[c].images);
        if self.tracks.len() == 0 {
            let mut tracks: Vec<Track> = Vec::new();
            tracks.push(
                Track {
                    name: String::from_str("Timeline 1"),
                    frames: clone_frames(&self.frames),
                    current: self.current,
                    fps: self.fps,
                    visible: true,
                },
            );
            self.tracks = tracks;
            self.active_track = 0;
            proof {
                assert(track_views(self.tracks@) =~= seq![
                    TrackView {
                        name: "Timeline 1"@,
                        frames: self@.frames,
                        current: self.current,
                        fps: self.fps,
                        visible: true,
                    },
                ]);
            }
        }
        if self.active_track >= self.tracks.len() {
            self.active_track = 0;
        }
        self.load_active_track_mirror();
        let (w, h) = (self.width, self.height);
        self.camera.ensure(w, h);
        proof {
            crate::camera::lemma_ensured_has_keyframe(old(self)@.camera, w, h);
        }
    }

    /// The number of timelines (at least 1).
    pub fn track_count(&self) -> (n: usize)
        ensures
            n == (if self.tracks@.len() >= 1 { self.tracks@.len() } else { 1 }),
    {
        let n = self.tracks.len();
        if n >= 1 { n } else { 1 }
    }

    /// The number of frames of the active timeline (at least 1).
    pub fn frame_count(&self) -> (n: usize)
        ensures
            n == (if self.frames@.len() >= 1 { self.frames@.len() } else { 1 }),
    {
        let n = self.frames.len();
        if n >= 1 { n } else { 1 }
    }

    /// Makes timeline `i` the active (editable) one, saving the current one
    /// first; an index out of range or the active one changes nothing.
    pub fn go_to_track(&mut self, i: usize)
        requires
            old(self).fits(),
        ensures
            final(self)@ == old(self)@.went_to_track(i),
            old(self).wf() ==> final(self).wf(),
    {
        if i >= self.tracks.len() || i == self.active_track {
            return;
        }
        self.sync_to_frames();
        self.active_track = i;
        self.load_active_track_mirror();
    }

    /// Creates a timeline "Timeline N" (N = the number of timelines it
    /// makes) with one blank frame, at the current speed, and makes it active;
    /// returns its index.
    pub fn add_track(&mut self) -> (idx: usize)
        requires
            old(self).fits(),
            old(self).tracks@.len() < usize::MAX,
        ensures
            final(self)@ == old(self)@.track_added(),
            idx == old(self)@.tracks.len(),
            old(self).wf() ==> final(self).wf(),
    {
        self.sync_to_frames();
        let n = self.tracks.len() + 1;
        let mut frames: Vec<Frame> = Vec::new();
        frames.push(Frame::blank("Camada 1", self.width, self.height));
        let ghost before = self.tracks@;
        self.tracks.push(
            Track { name: numbered("Timeline ", n), frames, current: 0, fps: self.fps, visible: true },
        );
        let idx = self.tracks.len() - 1;
        self.active_track = idx;
        proof {
            let s = old(self)@.synced();
            assert(frame_views(self.tracks@[idx as int].frames@) =~= seq![FrameView::blank(first_layer_name(), s.width as nat, s.height as nat)]);
            assert(track_views(self.tracks@) =~= s.tracks.push(self.tracks@[idx as int]@));
            assert forall|k: int| 0 <= k < self.tracks@.len() && old(self).wf() implies #[trigger] self.tracks@[k].wf() by {
                if k < before.len() {
                    assert(self.tracks@[k] == before[k]);
                } else {
                    assert(self.tracks@[k].frames@[0].wf());
                }
            }
        }
        self.load_active_track_mirror();
        idx
    }

    /// Appends a ready-made timeline (e.g. imported from another file as a
    /// reference) without making it active; its speed is at least 1. Returns
    /// its index.
    pub fn push_track(&mut self, name: &str, frames: Vec<Frame>, fps: u32) -> (idx: usize)
        ensures
            final(self)@ == (DocumentView {
                tracks: old(self)@.tracks.push(
                    TrackView {
                        name: name@,
                        frames: frame_views(frames@),
                        current: 0,
                        fps: if fps >= 1 { fps } else { 1 },
                        visible: true,
                    },
                ),
                ..old(self)@
            }),
            idx == old(self)@.tracks.len(),
            old(self).wf() && frames_wf(frames@) ==> final(self).wf(),
    {
        let ghost fv = frame_views(frames@);
        let ghost fw = frames_wf(frames@);
        let ghost before = self.tracks@;
        let f = if fps >= 1 { fps } else { 1 };
        self.tracks.push(Track { name: String::from_str(name), frames, current: 0, fps: f, visible: true });
        proof {
            assert(track_views(self.tracks@) =~= old(self)@.tracks.push(self.tracks@.last()@));
            assert forall|k: int| 0 <= k < self.tracks@.len() && old(self).wf() && fw implies #[trigger] self.tracks@[k].wf() by {
                if k < before.len() {
                    assert(self.tracks@[k] == before[k]);
                }
            }
        }
        self.tracks.len() - 1
    }

    /// Removes timeline `i`, keeping at least one; the active timeline stays
    /// the same one where it can (else the last) and is loaded again.
    pub fn remove_track(&mut self, i: usize)
        requires
            old(self).fits(),
        ensures
            final(self)@ == old(self)@.track_removed(i),
            old(self).wf() ==> final(self).wf(),
    {
        if self.tracks.len() <= 1 || i >= self.tracks.len() {
            return;
        }
        self.sync_to_frames();
        let ghost before = self.tracks@;
        self.tracks.remove(i);
        if self.active_track >= self.tracks.len() {
            self.active_track = self.tracks.len() - 1;
        } else if i < self.active_track {
            self.active_track = self.active_track - 1;
        }
        proof {
            assert(track_views(self.tracks@) =~= track_views(before).remove(i as int));
            assert forall|k: int| 0 <= k < self.tracks@.len() && old(self).wf() implies #[trigger] self.tracks@[k].wf() by {
                if k < i {
                    assert(self.tracks@[k] == before[k]);
                } else {
                    assert(self.tracks@[k] == before[k + 1]);
                }
            }
        }
        self.load_active_track_mirror();
    }

    /// Makes frame `i` the current one, saving the working copy first; an
    /// index out of range or the current one changes nothing.
    pub fn go_to_frame(&mut self, i: usize)
        ensures
            final(self)@ == old(self)@.went_to_frame(i),
            old(self).wf() ==> final(self).wf(),
    {
        if i >= self.frames.len() || i == self.current {
            if i < self.frames.len() {
                self.current = i;
            }
            return;
        }
        self.sync_to_frames();
        self.current = i;
        self.show_frame(i);
    }

    /// Loads frame `i` into the working copy.
    fn show_frame(&mut self, i: usize)
        requires
            i < old(self).frames@.len(),
        ensures
            final(self)@ == old(self)@.showing(old(self)@.frames[i as int]),
            old(self).wf() ==> final(self).wf(),
    {
        proof {
            if old(self).wf() {
                assert(self.frames@[i as int].wf());
            }
        }
        self.layers = clone_layers(&self.frames[i].layers);
        self.vectors = clone_vectors(&self.frames[i].vectors);
        self.images = clone_images(&self.frames[i].images);
        assert(self@ =~= old(self)@.showing(old(self)@.frames[i as int]));
    }

    /// Inserts a blank frame after the current one and goes to it; returns
    /// its index.
    pub fn add_frame(&mut self) -> (at: usize)
        requires
            old(self).fits(),
            old(self).current < usize::MAX,
        ensures
            final(self)@ == old(self)@.frame_added(),
            at == old(self)@.insert_point(),
            old(self).wf() ==> final(self).wf(),
    {
        self.sync_to_frames();
        let n = self.frames.len();
        let at = if self.current + 1 <= n { self.current + 1 } else { n };
        let ghost before = self.frames@;
        self.frames.insert(at, Frame::blank("Camada 1", self.width, self.height));
        proof {
            self.lemma_inserted_frame(before, at as int);
        }
        self.current = at;
        self.show_frame(at);
        at
    }

    /// The frame views and well-formedness after inserting a frame.
    proof fn lemma_inserted_frame(&self, before: Seq<Frame>, at: int)
        requires
            0 <= at <= before.len(),
            self.frames@.len() == before.len() + 1,
            forall|k: int| 0 <= k < at ==> self.frames@[k] == before[k],
            forall|k: int| at < k < self.frames@.len() ==> self.frames@[k] == before[k - 1],
        ensures
            frame_views(self.frames@) == frame_views(before).insert(at, self.frames@[at]@),
            frames_wf(before) && self.frames@[at].wf() ==> frames_wf(self.frames@),
    {
        assert(frame_views(self.frames@) =~= frame_views(before).insert(at, self.frames@[at]@));
        if frames_wf(before) && self.frames@[at].wf() {
            assert forall|k: int| 0 <= k < self.frames@.len() implies #[trigger] self.frames@[k].wf() by {
                if k < at {
                    assert(before[k].wf());
                } else if k > at {
                    assert(before[k - 1].wf());
                }
            }
        }
    }

    /// Duplicates the current frame and goes to the copy; returns its index.
    pub fn duplicate_frame(&mut self) -> (at: usize)
        requires
            old(self).frames@.len() == 0 || old(self).current < old(self).frames@.len(),
        ensures
            final(self)@ == old(self)@.frame_duplicated(),
            at == old(self)@.synced().current + 1,
            old(self).wf() ==> final(self).wf(),
    {
        self.sync_to_frames();
        let c = self.current;
        let _n = self.frames.len();
        proof {
            if old(self).wf() {
                assert(self.frames@[c as int].wf());
            }
        }
        let copy = self.frames[c].clone();
        let at = c + 1;
        let ghost before = self.frames@;
        self.frames.insert(at, copy);
        proof {
            self.lemma_inserted_frame(before, at as int);
        }
        self.current = at;
        self.show_frame(at);
        at
    }

    /// A copy of the working copy as a frame (to copy and paste frames).
    pub fn current_frame_clone(&self) -> (f: Frame)
        ensures
            f@ == self@.working(),
            self.wf() ==> f.wf(),
    {
        Frame {
            layers: clone_layers(&self.layers),
            vectors: clone_vectors(&self.vectors),
            images: clone_images(&self.images),
        }
    }

    /// Inserts a (pasted) frame after the current one and goes to it;
    /// returns its index.
    pub fn paste_frame(&mut self, frame: Frame) -> (at: usize)
        requires
            old(self).current < usize::MAX,
        ensures
            final(self)@ == old(self)@.frame_pasted(frame@),
            at == old(self)@.insert_point(),
            old(self).wf() && frame.wf() ==> final(self).wf(),
    {
        let ghost fw = frame.wf();
        let ghost fv = frame@;
        self.sync_to_frames();
        let n = self.frames.len();
        let at = if self.current + 1 <= n { self.current + 1 } else { n };
        let ghost before = self.frames@;
        self.frames.insert(at, frame);
        proof {
            self.lemma_inserted_frame(before, at as int);
        }
        self.current = at;
        self.show_frame(at);
        self.mirror_to_track();
        at
    }

    /// Moves frame `from` to gap `to` (0..=len) of the active timeline and
    /// goes to it; `from` out of range changes nothing.
    pub fn move_frame(&mut self, from: usize, to: usize)
        ensures
            final(self)@ == old(self)@.frame_moved(from, to),
            old(self).wf() ==> final(self).wf(),
    {
        if from >= self.frames.len() {
            return;
        }
        self.sync_to_frames();
        let ghost before = self.frames@;
        let f = self.frames.remove(from);
        let ghost removed = self.frames@;
        proof {
            assert(frame_views(removed) =~= frame_views(before).remove(from as int));
            if old(self).wf() {
                assert(before[from as int].wf());
                assert forall|k: int| 0 <= k < removed.len() implies #[trigger] removed[k].wf() by {
                    if k < from {
                        assert(before[k].wf());
                    } else {
                        assert(before[k + 1].wf());
                    }
                }
            }
        }
        let n = self.frames.len();
        let mut t = if to <= n + 1 { to } else { n + 1 };
        if t > from {
            t = t - 1;
        }
        if t > n {
            t = n;
        }
        self.frames.insert(t, f);
        proof {
            self.lemma_inserted_frame(removed, t as int);
        }
        self.current = t;
        self.show_frame(t);
        self.mirror_to_track();
    }

    /// Removes frame `i`, keeping at least one (no saving of the working
    /// copy); the current frame stays in range and becomes the working copy.
    pub fn remove_frame(&mut self, i: usize)
        ensures
            final(self)@ == old(self)@.frame_removed(i),
            old(self).wf() ==> final(self).wf(),
    {
        if self.frames.len() <= 1 || i >= self.frames.len() {
            return;
        }
        let ghost before = self.frames@;
        self.frames.remove(i);
        proof {
            assert(frame_views(self.frames@) =~= frame_views(before).remove(i as int));
            if old(self).wf() {
                assert forall|k: int| 0 <= k < self.frames@.len() implies #[trigger] self.frames@[k].wf() by {
                    if k < i {
                        assert(before[k].wf());
                    } else {
                        assert(before[k + 1].wf());
                    }
                }
            }
        }
        if self.current >= self.frames.len() {
            self.current = self.frames.len() - 1;
        }
        let c = self.current;
        self.show_frame(c);
    }

    /// The layer of the working copy at `index`, if there is one.
    pub fn layer(&self, index: usize) -> (r: Option<&Layer>)
        ensures
            r == (if index < self.layers@.len() { Some(&self.layers@[index as int]) } else { None }),
    {
        if index < self.layers.len() {
            Some(&self.layers[index])
        } else {
            None
        }
    }

    /// The layer of the working copy at `index`, to change it, if there is one.
    pub fn layer_mut(&mut self, index: usize) -> (r: Option<&mut Layer>)
        ensures
            index < old(self).layers@.len() ==> (r matches Some(l) && *l == old(self).layers@[index as int]
                && final(self).layers@ == old(self).layers@.update(index as int, *final(l))),
            index >= old(self).layers@.len() ==> r is None && *final(self) == *old(self),
            *final(self) == (Document { layers: final(self).layers, ..*old(self) }),
    {
        if index < self.layers.len() {
            Some(&mut self.layers[index])
        } else {
            None
        }
    }

    /// Inserts a transparent layer just above the one at `index` (or on top)
    /// and returns its index.
    pub fn add_layer_above(&mut self, index: usize, name: &str) -> (at: usize)
        requires
            old(self).fits(),
            index < usize::MAX,
        ensures
            ({
                let a: int = if index + 1 <= old(self)@.layers.len() { index + 1 } else { old(self)@.layers.len() as int };
                &&& final(self)@ == (DocumentView {
                    layers: old(self)@.layers.insert(a, LayerView::blank(name@, old(self).width as nat, old(self).height as nat)),
                    ..old(self)@
                })
                &&& at == a
            }),
            old(self).wf() ==> final(self).wf(),
    {
        let n = self.layers.len();
        let at = if index + 1 <= n { index + 1 } else { n };
        let ghost before = self.layers@;
        self.layers.insert(at, Layer::new(name, self.width, self.height));
        proof {
            assert(layer_views(self.layers@) =~= layer_views(before).insert(at as int, self.layers@[at as int]@));
            if old(self).wf() {
                assert forall|k: int| 0 <= k < self.layers@.len() implies #[trigger] self.layers@[k].wf() by {
                    if k < at {
                        assert(before[k].wf());
                    } else if k > at {
                        assert(before[k - 1].wf());
                    }
                }
            }
        }
        at
    }

    /// Removes the layer at `index`, keeping at least one layer.
    pub fn remove_layer(&mut self, index: usize)
        ensures
            final(self)@ == (if old(self)@.layers.len() > 1 && index < old(self)@.layers.len() {
                DocumentView { layers: old(self)@.layers.remove(index as int), ..old(self)@ }
            } else {
                old(self)@
            }),
            old(self).wf() ==> final(self).wf(),
    {
        if self.layers.len() > 1 && index < self.layers.len() {
            let ghost before = self.layers@;
            self.layers.remove(index);
            proof {
                assert(layer_views(self.layers@) =~= layer_views(before).remove(index as int));
                if old(self).wf() {
                    assert forall|k: int| 0 <= k < self.layers@.len() implies #[trigger] self.layers@[k].wf() by {
                        if k < index {
                            assert(before[k].wf());
                        } else {
                            assert(before[k + 1].wf());
                        }
                    }
                }
            }
        }
    }

    /// Swaps two layers in the stack (reordering); indices out of range
    /// change nothing.
    pub fn swap_layers(&mut self, a: usize, b: usize)
        ensures
            final(self)@ == (if a < old(self)@.layers.len() && b < old(self)@.layers.len() {
                DocumentView {
                    layers: old(self)@.layers.update(a as int, old(self)@.layers[b as int]).update(
                        b as int,
                        old(self)@.layers[a as int],
                    ),
                    ..old(self)@
                }
            } else {
                old(self)@
            }),
            old(self).wf() ==> final(self).wf(),
    {
        if a < self.layers.len() && b < self.layers.len() && a != b {
            let ghost before = self.layers@;
            let mut tmp = Layer {
                name: String::new(),
                visible: false,
                locked: false,
                opacity: 0,
                width: 0,
                height: 0,
                pixels: Vec::new(),
            };
            self.layers.set_and_swap(a, &mut tmp);
            self.layers.set_and_swap(b, &mut tmp);
            self.layers.set_and_swap(a, &mut tmp);
            proof {
                assert(self.layers@ =~= before.update(a as int, before[b as int]).update(b as int, before[a as int]));
                assert(layer_views(self.layers@) =~= layer_views(before).update(a as int, layer_views(before)[b as int]).update(
                    b as int,
                    layer_views(before)[a as int],
                ));
                if old(self).wf() {
                    assert forall|k: int| 0 <= k < self.layers@.len() implies #[trigger] self.layers@[k].wf() by {
                        if k == a {
                            assert(before[b as int].wf());
                        } else if k == b {
                            assert(before[a as int].wf());
                        } else {
                            assert(before[k].wf());
                        }
                    }
                }
            }
        } else if a < self.layers.len() && b < self.layers.len() {
            proof {
                assert(old(self)@.layers.update(a as int, old(self)@.layers[b as int]).update(b as int, old(self)@.layers[a as int])
                    =~= old(self)@.layers);
                assert(self@ =~= old(self)@);
            }
        }
    }

    /// Applies turn `t` to every layer of the working copy.
    fn turn_layers(&mut self, t: Turn)
        requires
            layers_wf(old(self).layers@),
        ensures
            final(self)@ == (DocumentView {
                layers: old(self)@.layers.map_values(|l: LayerView| l.turned(t)),
                ..old(self)@
            }),
            layers_wf(final(self).layers@),
            final(self).frames@ == old(self).frames@,
            final(self).tracks@ == old(self).tracks@,
    {
        let n = self.layers.len();
        let mut i: usize = 0;
        while i < n
            invariant
                n == self.layers@.len(),
                n == old(self).layers@.len(),
                i <= n,
                layers_wf(self.layers@),
                forall|j: int| 0 <= j < i ==> #[trigger] self.layers@[j]@ == old(self).layers@[j]@.turned(t),
                forall|j: int| i <= j < n ==> #[trigger] self.layers@[j] == old(self).layers@[j],
                self@ == (DocumentView { layers: self@.layers, ..old(self)@ }),
                self.frames@ == old(self).frames@,
                self.tracks@ == old(self).tracks@,
            decreases n - i,
        {
            let ghost before = self.layers@;
            assert(self.layers@[i as int].wf());
            match t {
                Turn::FlipH => self.layers[i].flip_h(),
                Turn::FlipV => self.layers[i].flip_v(),
                Turn::Half => self.layers[i].rotate_180(),
                Turn::Cw => self.layers[i].rotate_90_cw(),
                Turn::Ccw => self.layers[i].rotate_90_ccw(),
            }
            proof {
                assert forall|j: int| 0 <= j < n && j != i implies self.layers@[j] == before[j] by {}
                assert forall|j: int| 0 <= j < n implies #[trigger] self.layers@[j].wf() by {
                    if j != i {
                        assert(before[j].wf());
                    }
                }
                assert(self@ =~= (DocumentView { layers: self@.layers, ..old(self)@ }));
            }
            i = i + 1;
        }
        assert(self@.layers =~= old(self)@.layers.map_values(|l: LayerView| l.turned(t)));
    }

    /// Mirrors every layer of the working copy left to right. (The vector
    /// objects, whose coordinates are floating point, are mirrored by the
    /// caller.)
    pub fn flip_h(&mut self)
        requires
            layers_wf(old(self).layers@),
        ensures
            final(self)@ == (DocumentView {
                layers: old(self)@.layers.map_values(|l: LayerView| l.turned(Turn::FlipH)),
                ..old(self)@
            }),
            old(self).wf() ==> final(self).wf(),
    {
        self.turn_layers(Turn::FlipH);
    }

    /// Mirrors every layer of the working copy top to bottom. (The vector
    /// objects are mirrored by the caller.)
    pub fn flip_v(&mut self)
        requires
            layers_wf(old(self).layers@),
        ensures
            final(self)@ == (DocumentView {
                layers: old(self)@.layers.map_values(|l: LayerView| l.turned(Turn::FlipV)),
                ..old(self)@
            }),
            old(self).wf() ==> final(self).wf(),
    {
        self.turn_layers(Turn::FlipV);
    }

    /// Turns every layer of the working copy half a turn. (The vector objects
    /// are turned by the caller.)
    pub fn rotate_180(&mut self)
        requires
            layers_wf(old(self).layers@),
        ensures
            final(self)@ == (DocumentView {
                layers: old(self)@.layers.map_values(|l: LayerView| l.turned(Turn::Half)),
                ..old(self)@
            }),
            old(self).wf() ==> final(self).wf(),
    {
        self.turn_layers(Turn::Half);
    }

    /// Turns every layer of the working copy a quarter turn clockwise; width
    /// and height trade places. (The vector objects are turned by the caller.)
    pub fn rotate_90_cw(&mut self)
        requires
            layers_wf(old(self).layers@),
        ensures
            final(self)@ == (DocumentView {
                layers: old(self)@.layers.map_values(|l: LayerView| l.turned(Turn::Cw)),
                width: old(self).height,
                height: old(self).width,
                ..old(self)@
            }),
            old(self).wf() ==> final(self).wf(),
    {
        self.turn_layers(Turn::Cw);
        let w = self.width;
        self.width = self.height;
        self.height = w;
    }

    /// Turns every layer of the working copy a quarter turn counter-clockwise;
    /// width and height trade places. (The vector objects are turned by the
    /// caller.)
    pub fn rotate_90_ccw(&mut self)
        requires
            layers_wf(old(self).layers@),
        ensures
            final(self)@ == (DocumentView {
                layers: old(self)@.layers.map_values(|l: LayerView| l.turned(Turn::Ccw)),
                width: old(self).height,
                height: old(self).width,
                ..old(self)@
            }),
            old(self).wf() ==> final(self).wf(),
    {
        self.turn_layers(Turn::Ccw);
        let w = self.width;
        self.width = self.height;
        self.height = w;
    }

    /// Resizes the canvas to `w` × `h` pixels, keeping the drawing anchored
    /// at the top left in every frame of every timeline (no scaling); a zero
    /// or unchanged size changes nothing. The camera's base size (for Reset
    /// and 100% zoom) follows the canvas.
    pub fn resize_canvas(&mut self, w: u32, h: u32)
        requires
            old(self).wf(),
            w * h * 4 <= usize::MAX,
            w != 0 && h != 0 && !(w == old(self).width && h == old(self).height) ==> old(self).active_track
                < old(self).tracks@.len(),
        ensures
            final(self)@ == (if w == 0 || h == 0 || (w == old(self).width && h == old(self).height) {
                old(self)@
            } else {
                let s = old(self)@.synced();
                let r = (DocumentView {
                    tracks: s.tracks.map_values(|t: TrackView| track_resized(t, w as nat, h as nat)),
                    width: w,
                    height: h,
                    ..s
                }).track_loaded();
                DocumentView {
                    camera: CameraView { base_w: f32_bits(w as nat), base_h: f32_bits(h as nat), ..r.camera },
                    ..r
                }
            }),
            final(self).wf(),
    {
        if w == 0 || h == 0 || (w == self.width && h == self.height) {
            return;
        }
        self.sync_to_frames();
        resize_tracks(&mut self.tracks, w, h);
        self.width = w;
        self.height = h;
        proof {
            let s = old(self)@.synced();
            assert(self@ =~= (DocumentView {
                tracks: s.tracks.map_values(|t: TrackView| track_resized(t, w as nat, h as nat)),
                width: w,
                height: h,
                ..s
            }));
        }
        self.load_active_track_mirror();
        self.camera.base_w = f32_bits_of(w);
        self.camera.base_h = f32_bits_of(h);
    }
}


/// Normalizing twice is normalizing once.
pub proof fn law_normalize_idempotent(v: DocumentView)
    ensures
        v.normalized().normalized() == v.normalized(),
{
    let n1 = v.normalized();
    let n2 = n1.normalized();
    assert(n1.tracks.len() >= 1);
    assert(n1.active_track < n1.tracks.len());
    assert(n2 =~= n1);
}

/// Going to another frame and back gives back the working copy as it was:
/// it was saved in its frame before leaving.
pub proof fn law_frame_round_trip(v: DocumentView, i: usize)
    requires
        v.is_normal(),
        i < v.frames.len(),
        i != v.current,
    ensures
        v.went_to_frame(i).went_to_frame(v.current).working() == v.working(),
        v.went_to_frame(i).went_to_frame(v.current).current == v.current,
{
    let v1 = v.went_to_frame(i);
    let s = v.synced();
    assert(s.frames.len() == v.frames.len());
    assert(s.frames[v.current as int] == v.working());
    assert(v1.frames == s.frames);
    assert(v1.current == i);
    let s2 = v1.synced();
    assert(s2.frames[v.current as int] == v.working());
}

/// Going to another timeline and back gives back the working copy and the
/// current frame as they were: they were saved in the timeline before
/// leaving.
pub proof fn law_track_round_trip(v: DocumentView, i: usize)
    requires
        v.is_normal(),
        i < v.tracks.len(),
        i != v.active_track,
    ensures
        v.went_to_track(i).went_to_track(v.active_track).working() == v.working(),
        v.went_to_track(i).went_to_track(v.active_track).current == v.current,
        v.went_to_track(i).went_to_track(v.active_track).frames == v.synced().frames,
{
    let s = v.synced();
    let v1 = v.went_to_track(i);
    assert(s.tracks[v.active_track as int].frames == s.frames);
    assert(s.tracks[v.active_track as int].current == v.current);
    assert(v1.tracks.len() == v.tracks.len());
    let s1 = v1.synced();
    assert(s1.tracks[v.active_track as int] == s.tracks[v.active_track as int]);
    let v2 = v1.went_to_track(v.active_track);
    assert(s.frames[v.current as int] == v.working());
}

/// Moving frame `from` to a gap `to` after it (gaps counted before the
/// move, `to` at most the number of frames) puts it in that gap: it ends at
/// index `to - 1` and becomes current, the frames between slide down one,
/// and the others keep their places, in order.
pub proof fn law_move_frame_forward(v: DocumentView, from: usize, to: usize)
    requires
        from < to <= v.frames.len(),
    ensures
        ({
            let s = v.synced();
            let r = v.frame_moved(from, to);
            &&& r.frames.len() == s.frames.len()
            &&& r.current == to - 1
            &&& r.frames[to - 1] == s.frames[from as int]
            &&& forall|j: int| 0 <= j < from ==> r.frames[j] == s.frames[j]
            &&& forall|j: int| from <= j < to - 1 ==> r.frames[j] == s.frames[j + 1]
            &&& forall|j: int| to <= j < s.frames.len() ==> r.frames[j] == s.frames[j]
            &&& r.layers == s.frames[from as int].layers
        }),
{
    let s = v.synced();
    assert(s.frames.len() == v.frames.len());
    let rm = s.frames.remove(from as int);
    let fs = rm.insert(to - 1, s.frames[from as int]);
    let r = v.frame_moved(from, to);
    assert(r.frames == fs);
    assert forall|j: int| from <= j < to - 1 implies r.frames[j] == s.frames[j + 1] by {
        assert(fs[j] == rm[j]);
    }
    assert forall|j: int| to <= j < s.frames.len() implies r.frames[j] == s.frames[j] by {
        assert(fs[j] == rm[j - 1]);
    }
}

/// Moving frame `from` to a gap `to` before it (or at it) puts it at index
/// `to` and makes it current; the frames from `to` up to it slide up one,
/// and the others keep their places.
pub proof fn law_move_frame_backward(v: DocumentView, from: usize, to: usize)
    requires
        to <= from < v.frames.len(),
    ensures
        ({
            let s = v.synced();
            let r = v.frame_moved(from, to);
            &&& r.frames.len() == s.frames.len()
            &&& r.current == to
            &&& r.frames[to as int] == s.frames[from as int]
            &&& forall|j: int| 0 <= j < to ==> r.frames[j] == s.frames[j]
            &&& forall|j: int| to < j <= from ==> r.frames[j] == s.frames[j - 1]
            &&& forall|j: int| from < j < s.frames.len() ==> r.frames[j] == s.frames[j]
            &&& r.layers == s.frames[from as int].layers
        }),
{
    let s = v.synced();
    assert(s.frames.len() == v.frames.len());
    let rm = s.frames.remove(from as int);
    let fs = rm.insert(to as int, s.frames[from as int]);
    let r = v.frame_moved(from, to);
    assert(r.frames == fs);
    assert forall|j: int| to < j <= from implies r.frames[j] == s.frames[j - 1] by {
        assert(fs[j] == rm[j - 1]);
    }
    assert forall|j: int| from < j < s.frames.len() implies r.frames[j] == s.frames[j] by {
        assert(fs[j] == rm[j - 1]);
    }
}

/// Removing a timeline other than the active one keeps the same timeline
/// active (its index shifts down when the removed one came before it), with
/// its saved frames loaded; the other timelines keep their order.
pub proof fn law_remove_other_track_keeps_active(v: DocumentView, i: usize)
    requires
        v.tracks.len() > 1,
        i < v.tracks.len(),
        v.active_track < v.tracks.len(),
        i != v.active_track,
    ensures
        ({
            let s = v.synced();
            let r = v.track_removed(i);
            &&& r.tracks == s.tracks.remove(i as int)
            &&& r.active_track == (if i < v.active_track { v.active_track - 1 } else { v.active_track as int })
            &&& r.tracks[r.active_track as int] == s.tracks[v.active_track as int]
            &&& s.tracks[v.active_track as int].frames.len() > 0 ==> r.frames == s.tracks[v.active_track as int].frames
        }),
{
    let s = v.synced();
    assert(s.tracks.len() == v.tracks.len());
    assert(s.active_track == v.active_track);
    let ts = s.tracks.remove(i as int);
    let r = v.track_removed(i);
    if i < v.active_track {
        assert(ts[v.active_track - 1] == s.tracks[v.active_track as int]);
    } else {
        assert(ts[v.active_track as int] == s.tracks[v.active_track as int]);
    }
}

/// Adding a frame saves the working copy into the current frame, puts a
/// blank frame of the canvas's size right after it, keeps every other frame
/// in order, and makes the new frame current and shown.
pub proof fn law_add_frame_after_current(v: DocumentView)
    requires
        v.current < v.frames.len(),
        v.frames.len() < usize::MAX,
    ensures
        ({
            let r = v.frame_added();
            let c = v.current as int;
            &&& r.frames.len() == v.frames.len() + 1
            &&& r.current == c + 1
            &&& r.frames[c] == v.working()
            &&& r.frames[c + 1] == FrameView::blank(first_layer_name(), v.width as nat, v.height as nat)
            &&& r.frames.remove(c + 1) == v.synced().frames
            &&& r.layers == r.frames[c + 1].layers
        }),
{
    let s = v.synced();
    let r = v.frame_added();
    assert(s.frames.len() == v.frames.len());
    assert(r.frames.remove(v.current + 1) =~= s.frames);
}

/// Duplicating a frame saves the working copy, puts a copy of it right
/// after the current frame, and makes the copy current.
pub proof fn law_duplicate_frame_copies_current(v: DocumentView)
    requires
        v.current < v.frames.len(),
        v.frames.len() < usize::MAX,
    ensures
        ({
            let r = v.frame_duplicated();
            let c = v.current as int;
            &&& r.frames.len() == v.frames.len() + 1
            &&& r.current == c + 1
            &&& r.frames[c] == v.working()
            &&& r.frames[c + 1] == v.working()
            &&& r.frames.remove(c + 1) == v.synced().frames
        }),
{
    let s = v.synced();
    let r = v.frame_duplicated();
    assert(s.frames.len() == v.frames.len());
    assert(r.frames.remove(v.current + 1) =~= s.frames);
}

/// Removing frame `i` (never the only one) takes it out, keeps the others in
/// order, and keeps the current index, brought back onto the last frame
/// when it falls off the end; the frame at that index is shown.
pub proof fn law_remove_frame_keeps_index(v: DocumentView, i: usize)
    requires
        v.frames.len() > 1,
        i < v.frames.len(),
        v.current < v.frames.len(),
    ensures
        ({
            let r = v.frame_removed(i);
            &&& r.frames == v.frames.remove(i as int)
            &&& r.current == (if v.current + 1 < v.frames.len() { v.current as int } else { v.frames.len() - 2 })
            &&& r.layers == r.frames[r.current as int].layers
        }),
{
}

/// Removing the active timeline (never the only one) makes the timeline that
/// takes its place active, or the last one when it was the last.
pub proof fn law_remove_active_track_takes_next(v: DocumentView)
    requires
        v.tracks.len() > 1,
        v.active_track < v.tracks.len(),
    ensures
        ({
            let s = v.synced();
            let r = v.track_removed(v.active_track);
            &&& r.tracks == s.tracks.remove(v.active_track as int)
            &&& r.active_track == (if v.active_track + 1 < v.tracks.len() {
                v.active_track as int
            } else {
                v.tracks.len() - 2
            })
        }),
{
    let s = v.synced();
    assert(s.tracks.len() == v.tracks.len());
}

} // verus!
