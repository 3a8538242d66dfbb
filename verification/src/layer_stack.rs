//! The layer panel's operations on the working copy: showing and hiding,
//! locking, choosing the active layer, moving a layer up or down the stack,
//! adding a layer above the active one and removing the active one. Each
//! gives the index of the active layer afterwards, which follows the layer
//! it was on.
use vstd::prelude::*;
use crate::document::{Document, DocumentView};
use crate::layer::LayerView;
use crate::text::{decimal, numbered};

verus! {

/// What the layer panel asks of the document.
#[derive(Clone, Copy, Debug)]
pub enum LayerAction {
    /// Show or hide layer `i`.
    ToggleVisible(usize),
    /// Lock or unlock layer `i`.
    ToggleLocked(usize),
    /// Make layer `i` the active one.
    Select(usize),
    /// Move layer `i` one step up the stack (towards the top).
    MoveUp(usize),
    /// Move layer `i` one step down the stack.
    MoveDown(usize),
    /// Add a layer "Camada N" (N = the number of layers it makes) above the
    /// active one, and make it active.
    Add,
    /// Remove the active layer (never the only one); the active index is
    /// then brought within the stack.
    Remove,
}

/// The stack with layers `i` and `j` trading places.
pub open spec fn swapped(s: Seq<LayerView>, i: int, j: int) -> Seq<LayerView> {
    s.update(i, s[j]).update(j, s[i])
}

/// Where the active index goes when layers `i` and `j` trade places: it
/// follows its layer.
pub open spec fn follow_swap(active: usize, i: usize, j: usize) -> usize {
    if active == i {
        j
    } else if active == j {
        i
    } else {
        active
    }
}

/// The document and the active layer index after `a`.
pub open spec fn layer_acted(v: DocumentView, active: usize, a: LayerAction) -> (DocumentView, usize) {
    let n = v.layers.len();
    match a {
        LayerAction::ToggleVisible(i) => if i < n {
            (DocumentView { layers: v.layers.update(i as int, LayerView { visible: !v.layers[i as int].visible, ..v.layers[i as int] }), ..v }, active)
        } else {
            (v, active)
        },
        LayerAction::ToggleLocked(i) => if i < n {
            (DocumentView { layers: v.layers.update(i as int, LayerView { locked: !v.layers[i as int].locked, ..v.layers[i as int] }), ..v }, active)
        } else {
            (v, active)
        },
        LayerAction::Select(i) => (v, i),
        LayerAction::MoveUp(i) => if i + 1 < n {
            (DocumentView { layers: swapped(v.layers, i as int, i + 1), ..v }, follow_swap(active, i, (i + 1) as usize))
        } else {
            (v, active)
        },
        LayerAction::MoveDown(i) => if 0 < i < n {
            (DocumentView { layers: swapped(v.layers, i as int, i - 1), ..v }, follow_swap(active, i, (i - 1) as usize))
        } else {
            (v, active)
        },
        LayerAction::Add => {
            let at: int = if active + 1 <= n { active + 1 } else { n as int };
            let name = "Camada "@ + decimal(n + 1);
            (DocumentView { layers: v.layers.insert(at, LayerView::blank(name, v.width as nat, v.height as nat)), ..v }, at as usize)
        },
        LayerAction::Remove => if n > 1 {
            let rest = if active < n { v.layers.remove(active as int) } else { v.layers };
            (DocumentView { layers: rest, ..v }, if active >= rest.len() { (rest.len() - 1) as usize } else { active })
        } else {
            (v, active)
        },
    }
}

/// Carries out a request of the layer panel on the document whose active
/// layer is `active`; gives the active layer afterwards.
pub fn apply_layer_action(doc: &mut Document, active: usize, a: LayerAction) -> (r: usize)
    requires
        old(doc).fits(),
        active < usize::MAX,
        old(doc).layers@.len() < usize::MAX,
    ensures
        (final(doc)@, r) == layer_acted(old(doc)@, active, a),
        old(doc).wf() ==> final(doc).wf(),
{
    let n = doc.layers.len();
    match a {
        LayerAction::ToggleVisible(i) => {
            if i < n {
                let ghost v = doc@;
                let vis = doc.layers[i].visible;
                doc.layers[i].visible = !vis;
                proof {
                    assert(doc@.layers =~= v.layers.update(
                        i as int,
                        LayerView { visible: !v.layers[i as int].visible, ..v.layers[i as int] },
                    ));
                    if old(doc).wf() {
                        assert forall|k: int| 0 <= k < doc.layers@.len() implies #[trigger] doc.layers@[k].wf() by {
                            assert(old(doc).layers@[k].wf());
                        }
                    }
                }
            }
            active
        },
        LayerAction::ToggleLocked(i) => {
            if i < n {
                let ghost v = doc@;
                let lck = doc.layers[i].locked;
                doc.layers[i].locked = !lck;
                proof {
                    assert(doc@.layers =~= v.layers.update(
                        i as int,
                        LayerView { locked: !v.layers[i as int].locked, ..v.layers[i as int] },
                    ));
                    if old(doc).wf() {
                        assert forall|k: int| 0 <= k < doc.layers@.len() implies #[trigger] doc.layers@[k].wf() by {
                            assert(old(doc).layers@[k].wf());
                        }
                    }
                }
            }
            active
        },
        LayerAction::Select(i) => i,
        LayerAction::MoveUp(i) => {
            if i < n && i + 1 < n {
                doc.swap_layers(i, i + 1);
                if active == i {
                    i + 1
                } else if active == i + 1 {
                    i
                } else {
                    active
                }
            } else {
                active
            }
        },
        LayerAction::MoveDown(i) => {
            if i > 0 && i < n {
                doc.swap_layers(i, i - 1);
                if active == i {
                    i - 1
                } else if active == i - 1 {
                    i
                } else {
                    active
                }
            } else {
                active
            }
        },
        LayerAction::Add => {
            let name = numbered("Camada ", n + 1);
            proof {
                reveal_strlit("Camada ");
            }
            doc.add_layer_above(active, name.as_str())
        },
        LayerAction::Remove => {
            if n > 1 {
                doc.remove_layer(active);
                let m = doc.layers.len();
                assert(doc@.layers.len() == m);
                if active >= m {
                    m - 1
                } else {
                    active
                }
            } else {
                active
            }
        },
    }
}

/// Moving a layer up and then back down restores the stack and the active
/// layer.
pub proof fn law_move_up_then_down(v: DocumentView, active: usize, i: usize)
    requires
        i + 1 < v.layers.len(),
        v.layers.len() <= usize::MAX,
    ensures
        ({
            let (v1, a1) = layer_acted(v, active, LayerAction::MoveUp(i));
            layer_acted(v1, a1, LayerAction::MoveDown((i + 1) as usize))
        }) == (v, active),
{
    let (v1, a1) = layer_acted(v, active, LayerAction::MoveUp(i));
    assert(swapped(swapped(v.layers, i as int, i + 1), i + 1, i as int) =~= v.layers);
    assert(DocumentView { layers: swapped(v1.layers, i + 1, i as int), ..v1 } =~= v);
}

/// Showing or hiding layer `i` flips that layer's visibility and nothing
/// else: every other layer, the rest of the layer, the rest of the document
/// and the active layer stay as they were, whichever layer is active.
pub proof fn law_toggle_visible_flips_that_layer(v: DocumentView, active: usize, i: usize)
    requires
        i < v.layers.len(),
    ensures
        ({
            let (r, a) = layer_acted(v, active, LayerAction::ToggleVisible(i));
            &&& a == active
            &&& r.layers.len() == v.layers.len()
            &&& r.layers[i as int].visible == !v.layers[i as int].visible
            &&& r.layers[i as int].locked == v.layers[i as int].locked
            &&& r.layers[i as int].name == v.layers[i as int].name
            &&& r.layers[i as int].pixels == v.layers[i as int].pixels
            &&& r.layers[i as int].opacity == v.layers[i as int].opacity
            &&& r.layers[i as int].width == v.layers[i as int].width
            &&& r.layers[i as int].height == v.layers[i as int].height
            &&& forall|j: int| 0 <= j < v.layers.len() && j != i ==> r.layers[j] == v.layers[j]
            &&& r == (DocumentView { layers: r.layers, ..v })
        }),
{
}

/// Locking or unlocking layer `i` flips that layer's lock and nothing else,
/// whichever layer is active.
pub proof fn law_toggle_locked_flips_that_layer(v: DocumentView, active: usize, i: usize)
    requires
        i < v.layers.len(),
    ensures
        ({
            let (r, a) = layer_acted(v, active, LayerAction::ToggleLocked(i));
            &&& a == active
            &&& r.layers.len() == v.layers.len()
            &&& r.layers[i as int].locked == !v.layers[i as int].locked
            &&& r.layers[i as int].visible == v.layers[i as int].visible
            &&& r.layers[i as int].name == v.layers[i as int].name
            &&& r.layers[i as int].pixels == v.layers[i as int].pixels
            &&& r.layers[i as int].opacity == v.layers[i as int].opacity
            &&& forall|j: int| 0 <= j < v.layers.len() && j != i ==> r.layers[j] == v.layers[j]
            &&& r == (DocumentView { layers: r.layers, ..v })
        }),
{
}

/// Moving layer `i` up trades it with the layer above: the two change
/// places, every other layer stays, and the active index follows its layer.
pub proof fn law_move_up_trades_places(v: DocumentView, active: usize, i: usize)
    requires
        i + 1 < v.layers.len(),
        v.layers.len() <= usize::MAX,
    ensures
        ({
            let (r, a) = layer_acted(v, active, LayerAction::MoveUp(i));
            &&& r.layers.len() == v.layers.len()
            &&& r.layers[i as int] == v.layers[i + 1]
            &&& r.layers[i + 1] == v.layers[i as int]
            &&& forall|j: int| 0 <= j < v.layers.len() && j != i && j != i + 1 ==> r.layers[j] == v.layers[j]
            &&& r == (DocumentView { layers: r.layers, ..v })
            &&& a == (if active == i { i + 1 } else if active == i + 1 { i as int } else { active as int })
        }),
{
}

/// Moving layer `i` down trades it with the layer below, the active index
/// following its layer.
pub proof fn law_move_down_trades_places(v: DocumentView, active: usize, i: usize)
    requires
        0 < i < v.layers.len(),
    ensures
        ({
            let (r, a) = layer_acted(v, active, LayerAction::MoveDown(i));
            &&& r.layers.len() == v.layers.len()
            &&& r.layers[i as int] == v.layers[i - 1]
            &&& r.layers[i - 1] == v.layers[i as int]
            &&& forall|j: int| 0 <= j < v.layers.len() && j != i && j != i - 1 ==> r.layers[j] == v.layers[j]
            &&& r == (DocumentView { layers: r.layers, ..v })
            &&& a == (if active == i { i - 1 } else if active == i - 1 { i as int } else { active as int })
        }),
{
}

/// Adding a layer puts a transparent layer of the document's size, named
/// "Camada N" (N the new number of layers), right above the active one (on
/// top when the active index is past the stack), keeps the other layers in
/// order, and makes the new layer active.
pub proof fn law_add_layer_above_active(v: DocumentView, active: usize)
    requires
        v.layers.len() < usize::MAX,
        active < usize::MAX,
    ensures
        ({
            let (r, a) = layer_acted(v, active, LayerAction::Add);
            let at: int = if active < v.layers.len() { active + 1 } else { v.layers.len() as int };
            &&& a == at
            &&& r.layers.len() == v.layers.len() + 1
            &&& r.layers[at].name == "Camada "@ + decimal(v.layers.len() + 1)
            &&& r.layers[at].width == v.width && r.layers[at].height == v.height
            &&& r.layers[at].visible && !r.layers[at].locked
            &&& r.layers[at].is_clear()
            &&& r.layers.remove(at) == v.layers
            &&& r == (DocumentView { layers: r.layers, ..v })
        }),
{
    let (r, a) = layer_acted(v, active, LayerAction::Add);
    let at: int = if active < v.layers.len() { active + 1 } else { v.layers.len() as int };
    assert(r.layers.remove(at) =~= v.layers);
}

/// Removing takes out the active layer, keeps the others in order, and
/// leaves the layer now at that index active (the top one when the top was
/// removed); the only layer is never removed.
pub proof fn law_remove_takes_active(v: DocumentView, active: usize)
    requires
        v.layers.len() > 1,
        active < v.layers.len(),
    ensures
        ({
            let (r, a) = layer_acted(v, active, LayerAction::Remove);
            &&& r.layers == v.layers.remove(active as int)
            &&& a == (if active + 1 < v.layers.len() { active as int } else { v.layers.len() - 2 })
            &&& r == (DocumentView { layers: r.layers, ..v })
        }),
{
}

} // verus!
