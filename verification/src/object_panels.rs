//! The decisions of the pivot and direction-vector panels: naming and
//! creating, choosing, enabling, re-pointing and deleting, with the stage
//! of the canvas clicks that follow and whether the document changed.
use vstd::prelude::*;
use crate::camera::Interp;
use crate::dirvector::{unit, DirVector};
use crate::hex::{trim_end, trim_start};
use crate::pivot::{Pivot, PivotTarget};
use crate::text::{decimal, numbered, trimmed};

verus! {

/// A selection kept only while it points at an item of the `n` items.
pub open spec fn kept_selection(sel: Option<usize>, n: nat) -> Option<usize> {
    match sel {
        Some(i) => if i < n {
            sel
        } else {
            None
        },
        None => None,
    }
}

/// The name typed in `buf`, trimmed; when nothing but white space was
/// typed, `prefix` and the number `n + 1`.
pub open spec fn typed_name(buf: Seq<char>, prefix: Seq<char>, n: nat) -> Seq<char> {
    let t = trim_end(trim_start(buf));
    if t.len() == 0 {
        prefix + decimal(n + 1)
    } else {
        t
    }
}

fn typed_name_of(buf: &str, prefix: &str, n: usize) -> (s: String)
    requires
        n < usize::MAX,
    ensures
        s@ == typed_name(buf@, prefix@, n as nat),
{
    let t = trimmed(buf);
    if t.as_str().unicode_len() == 0 {
        numbered(prefix, n + 1)
    } else {
        t
    }
}

/// What a panel step asks of the rest of the editor: whether the document
/// changed, and whether the tool for the canvas clicks is to be taken up.
pub struct PanelOutcome {
    pub modified: bool,
    pub use_tool: bool,
}

// ---------- Pivots ----------

/// What the user did in the pivot panel.
pub enum PivotEvent {
    /// "Create new": starts naming, with a default name.
    StartNew,
    /// Stops naming.
    Cancel,
    /// Chooses the pivot at this index.
    Select(usize),
    /// Turns the pivot at this index on or off.
    SetEnabled(usize, bool),
    /// Confirms the name: renames the chosen pivot when editing (stage 3),
    /// otherwise makes a new pivot.
    Confirm,
    /// "Add point": the chosen pivot's axis and handle are to be set again.
    AddPoint,
    /// "Edit": starts renaming the chosen pivot.
    Edit,
    /// Deletes the chosen pivot.
    Delete,
}

/// The pivot panel's state: the chosen pivot, the stage of the canvas
/// clicks (0 none, 1 axis, 2 handle, 3 renaming), whether a name is being
/// typed, and the name typed.
pub struct PivotPanel {
    pub sel: Option<usize>,
    pub stage: u8,
    pub naming: bool,
    pub name_buf: String,
}

/// A new pivot named `name`: enabled, with no target and no points set.
pub open spec fn fresh_pivot(p: Pivot, name: Seq<char>) -> bool {
    &&& p.name@ == name
    &&& p.enabled
    &&& p.axis == (0u32, 0u32)
    &&& p.mov == (0u32, 0u32)
    &&& p.target == PivotTarget::Unset
    &&& !p.has_axis
    &&& !p.has_mov
}

/// `b` is `a` renamed to `name`.
pub open spec fn pivot_renamed(a: Pivot, b: Pivot, name: Seq<char>) -> bool {
    &&& b.name@ == name
    &&& b.enabled == a.enabled
    &&& b.axis == a.axis
    &&& b.mov == a.mov
    &&& b.target == a.target
    &&& b.has_axis == a.has_axis
    &&& b.has_mov == a.has_mov
}

/// `new` is `old` with item `k` replaced by one for which `f` holds.
pub open spec fn changed_at<T>(old: Seq<T>, new: Seq<T>, k: int, f: spec_fn(T, T) -> bool) -> bool {
    &&& new.len() == old.len()
    &&& f(old[k], new[k])
    &&& forall|j: int| 0 <= j < old.len() && j != k ==> new[j] == old[j]
}

/// Carries out one step of the pivot panel on the document's `pivots`.
/// The panel first drops a choice that points past the pivots, then:
/// - `StartNew` types the default name "Pivô N" (N = count + 1);
/// - `Cancel` stops typing and clears the name;
/// - `Select(i)` chooses pivot `i` and goes back to stage 0;
/// - `SetEnabled(i, on)` turns pivot `i` on or off;
/// - `Confirm` takes the typed name, trimmed ("Pivô N" if blank): in stage
///   3 it renames the chosen pivot and goes to stage 0; otherwise it adds a
///   new pivot, chooses it and goes to stage 1 with the pivot tool; either
///   way typing stops and the document is changed;
/// - `AddPoint` clears the chosen pivot's axis and handle and goes to stage
///   1 with the pivot tool;
/// - `Edit` types the chosen pivot's name and goes to stage 3;
/// - `Delete` removes the chosen pivot, chooses none, goes to stage 0 and
///   changes the document.
pub fn pivot_panel_step(pivots: &mut Vec<Pivot>, panel: &mut PivotPanel, ev: PivotEvent) -> (r: PanelOutcome)
    requires
        old(pivots)@.len() + 1 < usize::MAX,
    ensures
        ({
            let n = old(pivots)@.len();
            let o = old(pivots)@;
            let f = final(pivots)@;
            let sel = kept_selection(old(panel).sel, n);
            let name = typed_name(old(panel).name_buf@, "Pivô "@, n);
            match ev {
                PivotEvent::StartNew => {
                    &&& f == o
                    &&& final(panel).sel == sel
                    &&& final(panel).stage == old(panel).stage
                    &&& final(panel).naming
                    &&& final(panel).name_buf@ == "Pivô "@ + decimal(n + 1)
                    &&& !r.modified && !r.use_tool
                },
                PivotEvent::Cancel => {
                    &&& f == o
                    &&& final(panel).sel == sel
                    &&& final(panel).stage == old(panel).stage
                    &&& !final(panel).naming
                    &&& final(panel).name_buf@.len() == 0
                    &&& !r.modified && !r.use_tool
                },
                PivotEvent::Select(i) => {
                    &&& f == o
                    &&& final(panel).sel == kept_selection(Some(i), n)
                    &&& final(panel).stage == 0
                    &&& final(panel).naming == old(panel).naming
                    &&& final(panel).name_buf@ == old(panel).name_buf@
                    &&& !r.modified && !r.use_tool
                },
                PivotEvent::SetEnabled(i, on) => {
                    &&& (if i < n {
                        changed_at(o, f, i as int, |a: Pivot, b: Pivot| b == Pivot { enabled: on, ..a })
                    } else {
                        f == o
                    })
                    &&& final(panel).sel == sel
                    &&& final(panel).stage == old(panel).stage
                    &&& final(panel).naming == old(panel).naming
                    &&& final(panel).name_buf@ == old(panel).name_buf@
                    &&& !r.modified && !r.use_tool
                },
                PivotEvent::Confirm => {
                    &&& !final(panel).naming
                    &&& final(panel).name_buf@.len() == 0
                    &&& r.modified
                    &&& (if old(panel).stage == 3 {
                        &&& (match sel {
                            Some(k) => changed_at(o, f, k as int, |a: Pivot, b: Pivot| pivot_renamed(a, b, name)),
                            None => f == o,
                        })
                        &&& final(panel).sel == sel
                        &&& final(panel).stage == 0
                        &&& !r.use_tool
                    } else {
                        &&& f.len() == n + 1
                        &&& f.take(n as int) == o
                        &&& fresh_pivot(f[n as int], name)
                        &&& final(panel).sel == Some(n as usize)
                        &&& final(panel).stage == 1
                        &&& r.use_tool
                    })
                },
                PivotEvent::AddPoint => {
                    &&& final(panel).sel == sel
                    &&& final(panel).naming == old(panel).naming
                    &&& final(panel).name_buf@ == old(panel).name_buf@
                    &&& !r.modified
                    &&& (match sel {
                        Some(k) => {
                            &&& changed_at(o, f, k as int, |a: Pivot, b: Pivot| b == Pivot { has_axis: false, has_mov: false, ..a })
                            &&& final(panel).stage == 1
                            &&& r.use_tool
                        },
                        None => f == o && final(panel).stage == old(panel).stage && !r.use_tool,
                    })
                },
                PivotEvent::Edit => {
                    &&& f == o
                    &&& final(panel).sel == sel
                    &&& !r.modified && !r.use_tool
                    &&& (match sel {
                        Some(k) => {
                            &&& final(panel).naming
                            &&& final(panel).name_buf@ == o[k as int].name@
                            &&& final(panel).stage == 3
                        },
                        None => {
                            &&& final(panel).naming == old(panel).naming
                            &&& final(panel).name_buf@ == old(panel).name_buf@
                            &&& final(panel).stage == old(panel).stage
                        },
                    })
                },
                PivotEvent::Delete => {
                    &&& final(panel).naming == old(panel).naming
                    &&& final(panel).name_buf@ == old(panel).name_buf@
                    &&& !r.use_tool
                    &&& final(panel).sel is None
                    &&& (match sel {
                        Some(k) => {
                            &&& f == o.remove(k as int)
                            &&& final(panel).stage == 0
                            &&& r.modified
                        },
                        None => f == o && final(panel).stage == old(panel).stage && !r.modified,
                    })
                },
            }
        }),
{
    let n = pivots.len();
    match ev {
        PivotEvent::StartNew => {
            panel.naming = true;
            panel.name_buf = numbered("Pivô ", n + 1);
            panel.sel = keep_selection(panel.sel, n);
            PanelOutcome { modified: false, use_tool: false }
        },
        PivotEvent::Cancel => {
            panel.naming = false;
            panel.name_buf = String::new();
            panel.sel = keep_selection(panel.sel, n);
            PanelOutcome { modified: false, use_tool: false }
        },
        PivotEvent::Select(i) => {
            panel.sel = keep_selection(Some(i), n);
            panel.stage = 0;
            PanelOutcome { modified: false, use_tool: false }
        },
        PivotEvent::SetEnabled(i, on) => {
            if i < n {
                let mut p = pivots.remove(i);
                p.enabled = on;
                pivots.insert(i, p);
            }
            panel.sel = keep_selection(panel.sel, n);
            PanelOutcome { modified: false, use_tool: false }
        },
        PivotEvent::Confirm => {
            panel.sel = keep_selection(panel.sel, n);
            let name = typed_name_of(panel.name_buf.as_str(), "Pivô ", n);
            panel.naming = false;
            panel.name_buf = String::new();
            if panel.stage == 3 {
                if let Some(k) = panel.sel {
                    let mut p = pivots.remove(k);
                    p.name = name;
                    pivots.insert(k, p);
                }
                panel.stage = 0;
                PanelOutcome { modified: true, use_tool: false }
            } else {
                pivots.push(Pivot::new(name.as_str()));
                proof {
                    assert(pivots@.take(n as int) =~= old(pivots)@);
                }
                panel.sel = Some(n);
                panel.stage = 1;
                PanelOutcome { modified: true, use_tool: true }
            }
        },
        PivotEvent::AddPoint => {
            panel.sel = keep_selection(panel.sel, n);
            match panel.sel {
                Some(k) => {
                    let mut p = pivots.remove(k);
                    p.has_axis = false;
                    p.has_mov = false;
                    pivots.insert(k, p);
                    panel.stage = 1;
                    PanelOutcome { modified: false, use_tool: true }
                },
                None => PanelOutcome { modified: false, use_tool: false },
            }
        },
        PivotEvent::Edit => {
            panel.sel = keep_selection(panel.sel, n);
            if let Some(k) = panel.sel {
                panel.naming = true;
                panel.name_buf = pivots[k].name.clone();
                panel.stage = 3;
            }
            PanelOutcome { modified: false, use_tool: false }
        },
        PivotEvent::Delete => {
            panel.sel = keep_selection(panel.sel, n);
            match panel.sel {
                Some(k) => {
                    pivots.remove(k);
                    panel.sel = None;
                    panel.stage = 0;
                    PanelOutcome { modified: true, use_tool: false }
                },
                None => PanelOutcome { modified: false, use_tool: false },
            }
        },
    }
}

/// A choice kept only while it points at one of `n` items.
pub fn keep_selection(sel: Option<usize>, n: usize) -> (r: Option<usize>)
    ensures
        r == kept_selection(sel, n as nat),
{
    match sel {
        Some(i) => if i < n {
            sel
        } else {
            None
        },
        None => None,
    }
}

// ---------- Direction vectors ----------

/// What the user did in the direction-vector panel.
pub enum DirVecEvent {
    /// "Add new vector": starts naming, with a default name.
    StartNew,
    /// Stops naming.
    Cancel,
    /// Chooses the vector at this index.
    Select(usize),
    /// Turns the vector at this index on or off.
    SetEnabled(usize, bool),
    /// Sets the easing of the chosen vector.
    SetInterp(Interp),
    /// Confirms the name: makes a new vector.
    Confirm,
    /// "Select object": the chosen vector's object is to be clicked.
    Link,
    /// "Recompute": regenerates the chosen vector's frames.
    Apply,
    /// Deletes the chosen vector.
    Delete,
}

/// The direction-vector panel's state: the chosen vector, the stage of the
/// canvas clicks (0 none, 1 picking the object), whether a name is being
/// typed, and the name typed.
pub struct DirVecPanel {
    pub sel: Option<usize>,
    pub stage: u8,
    pub naming: bool,
    pub name_buf: String,
}

/// What a step of the direction-vector panel asks of the rest of the
/// editor: whether the document changed, whether the tool for the canvas
/// clicks is to be taken up, and which vector's frames are to be
/// regenerated, if any.
pub struct DirVecOutcome {
    pub modified: bool,
    pub use_tool: bool,
    pub apply: Option<usize>,
}

/// A new direction vector named `name`: no target, frames 0 to 0, linear,
/// enabled, no turn, unit scales, no pivot, no captured geometry, neither
/// end set.
pub open spec fn fresh_dirvector(d: DirVector, name: Seq<char>) -> bool {
    &&& d.name@ == name
    &&& d.target == PivotTarget::Unset
    &&& d.start_frame == 0
    &&& d.end_frame == 0
    &&& d.interp == Interp::Linear
    &&& d.enabled
    &&& d.start_centroid == (0u32, 0u32)
    &&& d.end_centroid == (0u32, 0u32)
    &&& d.start_angle == 0
    &&& d.end_angle == 0
    &&& d.scale_start == unit()
    &&& d.scale_end == unit()
    &&& !d.has_pivot
    &&& d.pivot_axis == (0u32, 0u32)
    &&& d.base_vectors@.len() == 0
    &&& d.base_image is None
    &&& d.base_image_index == 0
    &&& !d.has_start
    &&& !d.has_end
}

/// Carries out one step of the direction-vector panel on the list `dvs`.
/// The panel first drops a choice that points past the vectors, then:
/// - `StartNew` types the default name "Vetor N" (N = count + 1);
/// - `Cancel` stops typing and clears the name;
/// - `Select(i)` chooses vector `i`;
/// - `SetEnabled(i, on)` turns vector `i` on or off;
/// - `SetInterp(it)` sets the chosen vector's easing;
/// - `Confirm` adds a new vector with the typed name, trimmed ("Vetor N" if
///   blank), chooses it and goes to stage 1 with its tool; typing stops and
///   the document is changed;
/// - `Link` goes to stage 1 with the tool, when a vector is chosen;
/// - `Apply` asks to regenerate the chosen vector, when both its ends are set;
/// - `Delete` removes the chosen vector, chooses none, goes to stage 0 and
///   changes the document.
pub fn dirvec_panel_step(dvs: &mut Vec<DirVector>, panel: &mut DirVecPanel, ev: DirVecEvent) -> (r: DirVecOutcome)
    requires
        old(dvs)@.len() + 1 < usize::MAX,
    ensures
        ({
            let n = old(dvs)@.len();
            let o = old(dvs)@;
            let f = final(dvs)@;
            let sel = kept_selection(old(panel).sel, n);
            let name = typed_name(old(panel).name_buf@, "Vetor "@, n);
            match ev {
                DirVecEvent::StartNew => {
                    &&& f == o
                    &&& final(panel).sel == sel
                    &&& final(panel).stage == old(panel).stage
                    &&& final(panel).naming
                    &&& final(panel).name_buf@ == "Vetor "@ + decimal(n + 1)
                    &&& !r.modified && !r.use_tool && r.apply is None
                },
                DirVecEvent::Cancel => {
                    &&& f == o
                    &&& final(panel).sel == sel
                    &&& final(panel).stage == old(panel).stage
                    &&& !final(panel).naming
                    &&& final(panel).name_buf@.len() == 0
                    &&& !r.modified && !r.use_tool && r.apply is None
                },
                DirVecEvent::Select(i) => {
                    &&& f == o
                    &&& final(panel).sel == kept_selection(Some(i), n)
                    &&& final(panel).stage == old(panel).stage
                    &&& final(panel).naming == old(panel).naming
                    &&& final(panel).name_buf@ == old(panel).name_buf@
                    &&& !r.modified && !r.use_tool && r.apply is None
                },
                DirVecEvent::SetEnabled(i, on) => {
                    &&& (if i < n {
                        changed_at(o, f, i as int, |a: DirVector, b: DirVector| b == DirVector { enabled: on, ..a })
                    } else {
                        f == o
                    })
                    &&& final(panel).sel == sel
                    &&& final(panel).stage == old(panel).stage
                    &&& final(panel).naming == old(panel).naming
                    &&& final(panel).name_buf@ == old(panel).name_buf@
                    &&& !r.modified && !r.use_tool && r.apply is None
                },
                DirVecEvent::SetInterp(it) => {
                    &&& (match sel {
                        Some(k) => changed_at(o, f, k as int, |a: DirVector, b: DirVector| b == DirVector { interp: it, ..a }),
                        None => f == o,
                    })
                    &&& final(panel).sel == sel
                    &&& final(panel).stage == old(panel).stage
                    &&& final(panel).naming == old(panel).naming
                    &&& final(panel).name_buf@ == old(panel).name_buf@
                    &&& !r.modified && !r.use_tool && r.apply is None
                },
                DirVecEvent::Confirm => {
                    &&& f.len() == n + 1
                    &&& f.take(n as int) == o
                    &&& fresh_dirvector(f[n as int], name)
                    &&& final(panel).sel == Some(n as usize)
                    &&& final(panel).stage == 1
                    &&& !final(panel).naming
                    &&& final(panel).name_buf@.len() == 0
                    &&& r.modified && r.use_tool && r.apply is None
                },
                DirVecEvent::Link => {
                    &&& f == o
                    &&& final(panel).sel == sel
                    &&& final(panel).naming == old(panel).naming
                    &&& final(panel).name_buf@ == old(panel).name_buf@
                    &&& !r.modified && r.apply is None
                    &&& (if sel is Some {
                        final(panel).stage == 1 && r.use_tool
                    } else {
                        final(panel).stage == old(panel).stage && !r.use_tool
                    })
                },
                DirVecEvent::Apply => {
                    &&& f == o
                    &&& final(panel).sel == sel
                    &&& final(panel).stage == old(panel).stage
                    &&& final(panel).naming == old(panel).naming
                    &&& final(panel).name_buf@ == old(panel).name_buf@
                    &&& !r.modified && !r.use_tool
                    &&& r.apply == (match sel {
                        Some(k) => if o[k as int].has_start && o[k as int].has_end {
                            Some(k)
                        } else {
                            None
                        },
                        None => None,
                    })
                },
                DirVecEvent::Delete => {
                    &&& final(panel).naming == old(panel).naming
                    &&& final(panel).name_buf@ == old(panel).name_buf@
                    &&& !r.use_tool && r.apply is None
                    &&& final(panel).sel is None
                    &&& (match sel {
                        Some(k) => {
                            &&& f == o.remove(k as int)
                            &&& final(panel).stage == 0
                            &&& r.modified
                        },
                        None => f == o && final(panel).stage == old(panel).stage && !r.modified,
                    })
                },
            }
        }),
{
    let n = dvs.len();
    panel.sel = keep_selection(panel.sel, n);
    match ev {
        DirVecEvent::StartNew => {
            panel.naming = true;
            panel.name_buf = numbered("Vetor ", n + 1);
            DirVecOutcome { modified: false, use_tool: false, apply: None }
        },
        DirVecEvent::Cancel => {
            panel.naming = false;
            panel.name_buf = String::new();
            DirVecOutcome { modified: false, use_tool: false, apply: None }
        },
        DirVecEvent::Select(i) => {
            panel.sel = keep_selection(Some(i), n);
            DirVecOutcome { modified: false, use_tool: false, apply: None }
        },
        DirVecEvent::SetEnabled(i, on) => {
            if i < n {
                let mut d = dvs.remove(i);
                d.enabled = on;
                dvs.insert(i, d);
            }
            DirVecOutcome { modified: false, use_tool: false, apply: None }
        },
        DirVecEvent::SetInterp(it) => {
            if let Some(k) = panel.sel {
                let mut d = dvs.remove(k);
                d.interp = it;
                dvs.insert(k, d);
            }
            DirVecOutcome { modified: false, use_tool: false, apply: None }
        },
        DirVecEvent::Confirm => {
            let name = typed_name_of(panel.name_buf.as_str(), "Vetor ", n);
            dvs.push(DirVector::new(name.as_str()));
            proof {
                assert(dvs@.take(n as int) =~= old(dvs)@);
            }
            panel.sel = Some(n);
            panel.naming = false;
            panel.name_buf = String::new();
            panel.stage = 1;
            DirVecOutcome { modified: true, use_tool: true, apply: None }
        },
        DirVecEvent::Link => {
            if panel.sel.is_some() {
                panel.stage = 1;
                DirVecOutcome { modified: false, use_tool: true, apply: None }
            } else {
                DirVecOutcome { modified: false, use_tool: false, apply: None }
            }
        },
        DirVecEvent::Apply => {
            let apply = match panel.sel {
                Some(k) => if dvs[k].has_start && dvs[k].has_end {
                    Some(k)
                } else {
                    None
                },
                None => None,
            };
            DirVecOutcome { modified: false, use_tool: false, apply }
        },
        DirVecEvent::Delete => {
            match panel.sel {
                Some(k) => {
                    dvs.remove(k);
                    panel.sel = None;
                    panel.stage = 0;
                    DirVecOutcome { modified: true, use_tool: false, apply: None }
                },
                None => DirVecOutcome { modified: false, use_tool: false, apply: None },
            }
        },
    }
}

} // verus!
