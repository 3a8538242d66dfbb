//! Frame: one picture of the animation, with its layers and objects.
use vstd::prelude::*;
use crate::layer::{Layer, LayerView};
use crate::vector::{VectorObject, VectorObjectView};
use crate::image_object::{ImageObject, ImageObjectView};

verus! {

/// What a sequence of layers is, layer by layer.
pub open spec fn layer_views(s: Seq<Layer>) -> Seq<LayerView> {
    s.map_values(|l: Layer| l@)
}

/// Every layer holds four bytes per pixel.
pub open spec fn layers_wf(s: Seq<Layer>) -> bool {
    forall|i: int| 0 <= i < s.len() ==> #[trigger] s[i].wf()
}

pub open spec fn vector_views(s: Seq<VectorObject>) -> Seq<VectorObjectView> {
    s.map_values(|v: VectorObject| v@)
}

pub open spec fn image_views(s: Seq<ImageObject>) -> Seq<ImageObjectView> {
    s.map_values(|o: ImageObject| o@)
}

/// A copy of each layer.
pub fn clone_layers(v: &Vec<Layer>) -> (r: Vec<Layer>)
    ensures
        layer_views(r@) == layer_views(v@),
        layers_wf(v@) ==> layers_wf(r@),
{
    let r = v.clone();
    assert(layer_views(r@) =~= layer_views(v@));
    assert forall|i: int| 0 <= i < r@.len() && layers_wf(v@) implies #[trigger] r@[i].wf() by {
        assert(cloned(v@[i], r@[i]));
        assert(v@[i].wf());
    }
    r
}

/// A copy of each vector object.
pub fn clone_vectors(v: &Vec<VectorObject>) -> (r: Vec<VectorObject>)
    ensures
        vector_views(r@) == vector_views(v@),
{
    let r = v.clone();
    assert(vector_views(r@) =~= vector_views(v@));
    r
}

/// A copy of each image object.
pub fn clone_images(v: &Vec<ImageObject>) -> (r: Vec<ImageObject>)
    ensures
        image_views(r@) == image_views(v@),
{
    let r = v.clone();
    assert(image_views(r@) =~= image_views(v@));
    r
}

/// What a frame is: its layers and its objects.
pub struct FrameView {
    pub layers: Seq<LayerView>,
    pub vectors: Seq<VectorObjectView>,
    pub images: Seq<ImageObjectView>,
}

impl FrameView {
    /// A frame with a single transparent layer and no objects.
    pub open spec fn blank(name: Seq<char>, width: nat, height: nat) -> FrameView {
        FrameView { layers: seq![LayerView::blank(name, width, height)], vectors: seq![], images: seq![] }
    }
}

/// A frame of the animation: its layers (bottom first) and its vector and
/// image objects.
pub struct Frame {
    pub layers: Vec<Layer>,
    pub vectors: Vec<VectorObject>,
    pub images: Vec<ImageObject>,
}

impl View for Frame {
    type V = FrameView;

    open spec fn view(&self) -> FrameView {
        FrameView {
            layers: layer_views(self.layers@),
            vectors: vector_views(self.vectors@),
            images: image_views(self.images@),
        }
    }
}

impl Frame {
    /// Every layer of the frame holds four bytes per pixel.
    pub open spec fn wf(&self) -> bool {
        layers_wf(self.layers@)
    }

    /// A blank frame with a single transparent layer.
    pub fn blank(name: &str, width: u32, height: u32) -> (f: Self)
        requires
            width * height * 4 <= usize::MAX,
        ensures
            f.wf(),
            f@ == FrameView::blank(name@, width as nat, height as nat),
    {
        let l = Layer::new(name, width, height);
        let mut layers: Vec<Layer> = Vec::new();
        layers.push(l);
        let f = Frame { layers, vectors: Vec::new(), images: Vec::new() };
        assert(f@.layers =~= seq![LayerView::blank(name@, width as nat, height as nat)]);
        assert(f@.vectors =~= seq![]);
        assert(f@.images =~= seq![]);
        f
    }
}

impl Clone for Frame {
    fn clone(&self) -> (res: Self)
        ensures
            res@ == self@,
            self.wf() ==> res.wf(),
    {
        Frame {
            layers: clone_layers(&self.layers),
            vectors: clone_vectors(&self.vectors),
            images: clone_images(&self.images),
        }
    }
}

pub open spec fn frame_views(s: Seq<Frame>) -> Seq<FrameView> {
    s.map_values(|f: Frame| f@)
}

/// Every frame is well formed.
pub open spec fn frames_wf(s: Seq<Frame>) -> bool {
    forall|i: int| 0 <= i < s.len() ==> #[trigger] s[i].wf()
}

/// A copy of each frame.
pub fn clone_frames(v: &Vec<Frame>) -> (r: Vec<Frame>)
    ensures
        frame_views(r@) == frame_views(v@),
        frames_wf(v@) ==> frames_wf(r@),
{
    let r = v.clone();
    assert(frame_views(r@) =~= frame_views(v@));
    assert forall|i: int| 0 <= i < r@.len() && frames_wf(v@) implies #[trigger] r@[i].wf() by {
        assert(cloned(v@[i], r@[i]));
        assert(v@[i].wf());
    }
    r
}

} // verus!
