//! The decisions of the rig panel: adding and removing skeletons, choosing
//! the active one, showing or hiding one, and the pose and bone edits on the
//! active one, each saved for undo first where it changes the drawing.
use vstd::prelude::*;
use crate::document::DocumentView;
use crate::history::Session;
use crate::skeleton::{parent_of, posed_at_rest, rest_from_pose, without_bone, Skeleton, SkeletonView};
use crate::text::{decimal, numbered};

verus! {

/// What the user asked of the rig panel.
pub enum RigAction {
    /// A new empty skeleton, named by its place in the list.
    AddSkeleton,
    /// Delete the skeleton at this index.
    RemoveSkeleton(usize),
    /// Make the skeleton at this index the active one.
    SetActive(usize),
    /// Show or hide the skeleton at this index.
    ToggleVisible(usize),
    /// Put the active skeleton back in its rest pose.
    ResetPose,
    /// Record the active skeleton's pose as its rest pose.
    SetRest,
    /// Delete the selected bone of the active skeleton.
    RemoveBone,
}

/// The rig panel's own state: the active skeleton (an index, brought within
/// range where used), the selected bone, and whether bones are shown.
pub struct RigPanel {
    pub active: usize,
    pub sel_bone: Option<u32>,
    pub show_bones: bool,
}

/// The active skeleton among `n`: the chosen index, at most the last one;
/// none when there is no skeleton.
pub open spec fn active_index(n: nat, active: usize) -> Option<usize> {
    if n == 0 {
        None
    } else if active <= n - 1 {
        Some(active)
    } else {
        Some((n - 1) as usize)
    }
}

/// The active skeleton among `n`, if any.
pub fn rig_active_index(n: usize, active: usize) -> (r: Option<usize>)
    ensures
        r == active_index(n as nat, active),
{
    if n == 0 {
        None
    } else if active <= n - 1 {
        Some(active)
    } else {
        Some(n - 1)
    }
}

/// The new skeleton number `n`: "Esqueleto n", visible, with no bone.
pub open spec fn skeleton_numbered(n: nat) -> SkeletonView {
    SkeletonView { name: "Esqueleto "@ + decimal(n), visible: true, bones: Seq::empty(), next_id: 1 }
}

/// Whether the action saves the document for undo first: adding or
/// removing a skeleton, resetting the pose of an active skeleton, removing
/// the selected bone of one.
pub open spec fn rig_saves(a: RigAction, n: nat, p: RigPanel) -> bool {
    match a {
        RigAction::AddSkeleton => true,
        RigAction::RemoveSkeleton(_) => true,
        RigAction::ResetPose => n > 0,
        RigAction::RemoveBone => n > 0 && p.sel_bone is Some,
        _ => false,
    }
}

/// The skeletons after the action.
pub open spec fn rig_skeletons(a: RigAction, s: Seq<SkeletonView>, p: RigPanel) -> Seq<SkeletonView> {
    let n = s.len();
    match a {
        RigAction::AddSkeleton => s.push(skeleton_numbered(n + 1)),
        RigAction::RemoveSkeleton(i) => if i < n {
            s.remove(i as int)
        } else {
            s
        },
        RigAction::SetActive(_) => s,
        RigAction::ToggleVisible(i) => if i < n {
            s.update(i as int, SkeletonView { visible: !s[i as int].visible, ..s[i as int] })
        } else {
            s
        },
        RigAction::ResetPose => match active_index(n, p.active) {
            Some(k) => s.update(k as int, SkeletonView { bones: posed_at_rest(s[k as int].bones), ..s[k as int] }),
            None => s,
        },
        RigAction::SetRest => match active_index(n, p.active) {
            Some(k) => s.update(k as int, SkeletonView { bones: rest_from_pose(s[k as int].bones), ..s[k as int] }),
            None => s,
        },
        RigAction::RemoveBone => match (active_index(n, p.active), p.sel_bone) {
            (Some(k), Some(id)) => s.update(
                k as int,
                SkeletonView { bones: without_bone(s[k as int].bones, id, parent_of(s[k as int].bones, id)), ..s[k as int] },
            ),
            _ => s,
        },
    }
}

/// The panel after the action, with `n` skeletons before it: a new skeleton
/// becomes active with bones shown; after a removal the active index is kept
/// within the skeletons left; choosing a skeleton, adding or removing one,
/// or removing a bone leaves no bone selected.
pub open spec fn rig_panel_after(a: RigAction, n: nat, p: RigPanel) -> RigPanel {
    match a {
        RigAction::AddSkeleton => RigPanel { active: n as usize, sel_bone: None, show_bones: true },
        RigAction::RemoveSkeleton(i) => {
            let m: nat = if i < n { (n - 1) as nat } else { n };
            RigPanel {
                active: if p.active >= m {
                    (if m == 0 { 0 } else { m - 1 }) as usize
                } else {
                    p.active
                },
                sel_bone: None,
                ..p
            }
        },
        RigAction::SetActive(i) => RigPanel { active: i, sel_bone: None, ..p },
        RigAction::RemoveBone => if n > 0 && p.sel_bone is Some {
            RigPanel { sel_bone: None, ..p }
        } else {
            p
        },
        _ => p,
    }
}

impl<F> Session<F> {
    /// Carries out a rig panel action: saves the document for undo first
    /// where `rig_saves`, changes its skeletons as `rig_skeletons` says and
    /// the panel as `rig_panel_after` says; nothing else changes.
    pub fn rig_action(&mut self, panel: &mut RigPanel, action: RigAction)
        requires
            old(self).wf(),
            old(self).document.skeletons@.len() + 1 < usize::MAX,
        ensures
            final(self).wf(),
            final(self).history@ == (if rig_saves(action, old(self).document@.skeletons.len(), *old(panel)) {
                old(self).history@.saved(old(self).document@)
            } else {
                old(self).history@
            }),
            final(self).modified == (rig_saves(action, old(self).document@.skeletons.len(), *old(panel))
                || old(self).modified),
            final(self).document@ == (DocumentView {
                skeletons: rig_skeletons(action, old(self).document@.skeletons, *old(panel)),
                ..old(self).document@
            }),
            *final(panel) == rig_panel_after(action, old(self).document@.skeletons.len(), *old(panel)),
            final(self).active_layer == old(self).active_layer,
            final(self).selected_obj == old(self).selected_obj,
            final(self).sel_set@ == old(self).sel_set@,
            final(self).floating == old(self).floating,
    {
        let n = self.document.skeletons.len();
        let ghost s0 = old(self).document@.skeletons;
        let ghost d0 = old(self).document@;
        match action {
            RigAction::AddSkeleton => {
                let name = numbered("Esqueleto ", n + 1);
                self.push_undo();
                let sk = Skeleton::new(name.as_str());
                self.document.skeletons.push(sk);
                panel.active = n;
                panel.sel_bone = None;
                panel.show_bones = true;
                proof {
                    assert(self.document@.skeletons =~= s0.push(skeleton_numbered((n + 1) as nat)));
                    assert(self.document@ =~= (DocumentView { skeletons: s0.push(skeleton_numbered((n + 1) as nat)), ..d0 }));
                }
            },
            RigAction::RemoveSkeleton(i) => {
                self.push_undo();
                if i < n {
                    self.document.skeletons.remove(i);
                    proof {
                        assert(self.document@.skeletons =~= s0.remove(i as int));
                    }
                }
                let m = self.document.skeletons.len();
                if panel.active >= m {
                    panel.active = if m == 0 { 0 } else { m - 1 };
                }
                panel.sel_bone = None;
                proof {
                    assert(self.document@ =~= (DocumentView {
                        skeletons: rig_skeletons(action, s0, *old(panel)),
                        ..d0
                    }));
                }
            },
            RigAction::SetActive(i) => {
                panel.active = i;
                panel.sel_bone = None;
            },
            RigAction::ToggleVisible(i) => {
                if i < n {
                    let mut sk = self.document.skeletons.remove(i);
                    sk.visible = !sk.visible;
                    self.document.skeletons.insert(i, sk);
                    proof {
                        assert(self.document@.skeletons =~= rig_skeletons(action, s0, *old(panel)));
                        assert(self.document@ =~= (DocumentView {
                            skeletons: rig_skeletons(action, s0, *old(panel)),
                            ..d0
                        }));
                    }
                }
            },
            RigAction::ResetPose => {
                if let Some(k) = rig_active_index(n, panel.active) {
                    self.push_undo();
                    let mut sk = self.document.skeletons.remove(k);
                    sk.reset_pose();
                    self.document.skeletons.insert(k, sk);
                    proof {
                        assert(self.document@.skeletons =~= rig_skeletons(action, s0, *old(panel)));
                        assert(self.document@ =~= (DocumentView {
                            skeletons: rig_skeletons(action, s0, *old(panel)),
                            ..d0
                        }));
                    }
                }
            },
            RigAction::SetRest => {
                if let Some(k) = rig_active_index(n, panel.active) {
                    let mut sk = self.document.skeletons.remove(k);
                    sk.set_rest();
                    self.document.skeletons.insert(k, sk);
                    proof {
                        assert(self.document@.skeletons =~= rig_skeletons(action, s0, *old(panel)));
                        assert(self.document@ =~= (DocumentView {
                            skeletons: rig_skeletons(action, s0, *old(panel)),
                            ..d0
                        }));
                    }
                }
            },
            RigAction::RemoveBone => {
                match (rig_active_index(n, panel.active), panel.sel_bone) {
                    (Some(k), Some(id)) => {
                        self.push_undo();
                        let mut sk = self.document.skeletons.remove(k);
                        sk.remove_bone(id);
                        self.document.skeletons.insert(k, sk);
                        panel.sel_bone = None;
                        proof {
                            assert(self.document@.skeletons =~= rig_skeletons(action, s0, *old(panel)));
                            assert(self.document@ =~= (DocumentView {
                                skeletons: rig_skeletons(action, s0, *old(panel)),
                                ..d0
                            }));
                        }
                    },
                    _ => {},
                }
            },
        }
    }
}

} // verus!
