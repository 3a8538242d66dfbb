//! 2D rigging: a skeleton is a tree of bones. Each bone is only a transform
//! (joint position, rotation and scale) relative to its parent; drawings are
//! attached to bones. The `f32` values of the transforms are held by their
//! bits; resolving world transforms is done where floating point is at hand.
use vstd::prelude::*;
use vstd::string::*;
use crate::text::{decimal, numbered};

verus! {

/// A bone pose (the rest pose, and later keyframes), by the bits of `f32`s.
#[derive(Clone, Copy, Debug, PartialEq, Eq, Structural)]
pub struct BonePose {
    pub x: u32,
    pub y: u32,
    pub angle: u32,
    pub scale: u32,
}

/// The drawn shape of a bone: a tapered limb (default) or a body part.
#[derive(Clone, Copy, Debug, PartialEq, Eq, Structural)]
pub enum BoneShape {
    /// Limb: a tapered rhombus (arm, leg, finger, tail).
    Limb,
    /// Torso: a pentagon with shoulders.
    Torso,
    /// Hip: a wider pentagon.
    Hip,
    /// Head: an ellipse.
    Head,
    /// Hand.
    Mao,
    /// Foot.
    Pe,
}

impl Default for BoneShape {
    fn default() -> (s: Self)
        ensures
            s == BoneShape::Limb,
    {
        BoneShape::Limb
    }
}

/// A bone: a LOCAL transform relative to its parent and a drawn length. The
/// `f32` values are held by their bits.
#[derive(Debug)]
pub struct Bone {
    pub id: u32,
    pub parent: Option<u32>,
    pub name: String,
    /// Joint position (origin), in the parent's local space.
    pub x: u32,
    pub y: u32,
    /// Local rotation (radians) and local scale.
    pub angle: u32,
    pub scale: u32,
    /// Length along the rotated local X axis.
    pub length: u32,
    pub shape: BoneShape,
    /// The piece's own image (index in a table of the app); `None` draws `shape`.
    pub img: Option<u16>,
    /// The rest pose, for "reset pose".
    pub rest: BonePose,
}

impl Clone for Bone {
    fn clone(&self) -> (res: Self)
        ensures
            res == *self,
    {
        Bone {
            id: self.id,
            parent: self.parent,
            name: self.name.clone(),
            x: self.x,
            y: self.y,
            angle: self.angle,
            scale: self.scale,
            length: self.length,
            shape: self.shape,
            img: self.img,
            rest: self.rest,
        }
    }
}

/// The default of a visibility switch: visible.
pub fn vis_true() -> (b: bool)
    ensures
        b,
{
    true
}

/// The first id a skeleton hands out.
pub fn one() -> (n: u32)
    ensures
        n == 1,
{
    1
}

/// The bits of `1.0f32`.
pub open spec fn unit_scale() -> u32 {
    0x3f80_0000
}

/// A skeleton: bones forming a tree through `parent`.
pub struct Skeleton {
    pub name: String,
    pub visible: bool,
    pub bones: Vec<Bone>,
    /// The id the next new bone gets.
    pub next_id: u32,
}

/// What a skeleton is: its name, visibility, bones and next id.
#[verifier::ext_equal]
pub struct SkeletonView {
    pub name: Seq<char>,
    pub visible: bool,
    pub bones: Seq<Bone>,
    pub next_id: u32,
}

impl View for Skeleton {
    type V = SkeletonView;

    open spec fn view(&self) -> SkeletonView {
        SkeletonView { name: self.name@, visible: self.visible, bones: self.bones@, next_id: self.next_id }
    }
}

/// The views of a sequence of skeletons.
pub open spec fn skeleton_views(s: Seq<Skeleton>) -> Seq<SkeletonView> {
    s.map_values(|k: Skeleton| k@)
}

impl Clone for Skeleton {
    /// A copy with the same name, visibility, bones and next id.
    fn clone(&self) -> (res: Self)
        ensures
            res@ == self@,
    {
        let mut bones: Vec<Bone> = Vec::with_capacity(self.bones.len());
        let mut i: usize = 0;
        while i < self.bones.len()
            invariant
                i <= self.bones@.len(),
                bones@ == self.bones@.subrange(0, i as int),
            decreases self.bones@.len() - i,
        {
            bones.push(self.bones[i].clone());
            i = i + 1;
            proof {
                assert(bones@ =~= self.bones@.subrange(0, i as int));
            }
        }
        proof {
            assert(bones@ =~= self.bones@);
        }
        Skeleton { name: self.name.clone(), visible: self.visible, bones, next_id: self.next_id }
    }
}

/// The first bone with id `id`, if any.
pub open spec fn find_bone(s: Seq<Bone>, id: u32) -> Option<int> {
    if exists|i: int| 0 <= i < s.len() && s[i].id == id {
        Some(choose|i: int| 0 <= i < s.len() && s[i].id == id && forall|j: int| 0 <= j < i ==> s[j].id != id)
    } else {
        None
    }
}

proof fn lemma_first_bone_exists(s: Seq<Bone>, id: u32, w: int)
    requires
        0 <= w < s.len(),
        s[w].id == id,
    ensures
        exists|i: int| 0 <= i < s.len() && s[i].id == id && forall|j: int| 0 <= j < i ==> s[j].id != id,
    decreases w,
{
    if exists|j: int| 0 <= j < w && s[j].id == id {
        let v = choose|j: int| 0 <= j < w && s[j].id == id;
        lemma_first_bone_exists(s, id, v);
    }
}

/// What `find_bone` finds: the first bone with the id, or none when no bone
/// has it.
pub proof fn lemma_find_bone(s: Seq<Bone>, id: u32)
    ensures
        find_bone(s, id) matches Some(i) ==> 0 <= i < s.len() && s[i].id == id && forall|j: int|
            0 <= j < i ==> s[j].id != id,
        find_bone(s, id) is None ==> forall|j: int| 0 <= j < s.len() ==> s[j].id != id,
{
    if exists|i: int| 0 <= i < s.len() && s[i].id == id {
        let w = choose|i: int| 0 <= i < s.len() && s[i].id == id;
        lemma_first_bone_exists(s, id, w);
    }
}

proof fn lemma_find_bone_is(s: Seq<Bone>, id: u32, i: int)
    requires
        0 <= i < s.len(),
        s[i].id == id,
        forall|j: int| 0 <= j < i ==> s[j].id != id,
    ensures
        find_bone(s, id) == Some(i),
{
    lemma_find_bone(s, id);
    let c = find_bone(s, id)->0;
    if c < i {
    } else if c > i {
    }
}

/// The bones left by `remove_bone(id)`: every bone but those with id `id`,
/// in order, with the children of the removed bone tied to its parent `p`.
pub open spec fn without_bone(s: Seq<Bone>, id: u32, p: Option<u32>) -> Seq<Bone>
    decreases s.len(),
{
    if s.len() == 0 {
        s
    } else {
        let r = without_bone(s.drop_last(), id, p);
        let b = s.last();
        if b.id == id {
            r
        } else if b.parent == Some(id) {
            r.push(Bone { parent: p, ..b })
        } else {
            r.push(b)
        }
    }
}

/// The bones in the rest pose: each bone's pose is its rest pose.
pub open spec fn posed_at_rest(s: Seq<Bone>) -> Seq<Bone> {
    Seq::new(
        s.len(),
        |i: int| Bone { x: s[i].rest.x, y: s[i].rest.y, angle: s[i].rest.angle, scale: s[i].rest.scale, ..s[i] },
    )
}

/// The bones with their current pose recorded as rest pose.
pub open spec fn rest_from_pose(s: Seq<Bone>) -> Seq<Bone> {
    Seq::new(
        s.len(),
        |i: int| Bone { rest: BonePose { x: s[i].x, y: s[i].y, angle: s[i].angle, scale: s[i].scale }, ..s[i] },
    )
}

/// The parent of bone `id`, when there is such a bone and it has one.
pub open spec fn parent_of(s: Seq<Bone>, id: u32) -> Option<u32> {
    match find_bone(s, id) {
        Some(i) => s[i].parent,
        None => None,
    }
}

/// Climbing from bone `node` to its parent, then to that one's parent and so
/// on, reaches `ancestor` within `k` steps.
pub open spec fn climbs_to(s: Seq<Bone>, node: u32, ancestor: u32, k: nat) -> bool
    decreases k,
{
    k > 0 && match parent_of(s, node) {
        Some(p) => p == ancestor || climbs_to(s, p, ancestor, (k - 1) as nat),
        None => false,
    }
}

/// The climb from `node` stops within `k` steps: at a bone without parent,
/// at an id no bone has, or at `ancestor`.
pub open spec fn climb_ends(s: Seq<Bone>, node: u32, ancestor: u32, k: nat) -> bool
    decreases k,
{
    match parent_of(s, node) {
        None => true,
        Some(p) => p == ancestor || (k > 0 && climb_ends(s, p, ancestor, (k - 1) as nat)),
    }
}

/// `ancestor` lies somewhere up the chain of parents of `node`.
pub open spec fn descends_from(s: Seq<Bone>, node: u32, ancestor: u32) -> bool {
    exists|k: nat| #[trigger] climbs_to(s, node, ancestor, k)
}

/// One step up: below a parent that is not `ancestor`, a bone descends from
/// `ancestor` exactly when its parent does.
proof fn lemma_descends_step(s: Seq<Bone>, node: u32, p: u32, ancestor: u32)
    requires
        parent_of(s, node) == Some(p),
        p != ancestor,
    ensures
        descends_from(s, node, ancestor) == descends_from(s, p, ancestor),
{
    if descends_from(s, node, ancestor) {
        let k = choose|k: nat| #[trigger] climbs_to(s, node, ancestor, k);
        assert(climbs_to(s, p, ancestor, (k - 1) as nat));
    }
    if descends_from(s, p, ancestor) {
        let k = choose|k: nat| #[trigger] climbs_to(s, p, ancestor, k);
        assert(climbs_to(s, node, ancestor, k + 1));
    }
}

impl Skeleton {
    /// An empty, visible skeleton; its first bone will get id 1.
    pub fn new(name: &str) -> (s: Self)
        ensures
            s.name@ == name@,
            s.visible,
            s.bones@ == Seq::<Bone>::empty(),
            s.next_id == 1,
    {
        Skeleton { name: String::from_str(name), visible: true, bones: Vec::new(), next_id: 1 }
    }

    /// The first bone with id `id`, if any.
    pub fn bone(&self, id: u32) -> (r: Option<&Bone>)
        ensures
            r == (match find_bone(self.bones@, id) {
                Some(i) => Some(&self.bones@[i]),
                None => None,
            }),
    {
        proof {
            lemma_find_bone(self.bones@, id);
        }
        let n = self.bones.len();
        let mut i: usize = 0;
        while i < n
            invariant
                n == self.bones@.len(),
                i <= n,
                forall|j: int| 0 <= j < i ==> self.bones@[j].id != id,
            decreases n - i,
        {
            if self.bones[i].id == id {
                proof {
                    lemma_find_bone_is(self.bones@, id, i as int);
                }
                return Some(&self.bones[i]);
            }
            i = i + 1;
        }
        None
    }

    /// Whether `ancestor` lies up the chain of parents of bone `node` (the
    /// bone itself does not count). The climb must end: a chain of parents
    /// that loops without passing `ancestor` would never stop.
    pub fn is_descendant(&self, node: u32, ancestor: u32) -> (r: bool)
        requires
            exists|k: nat| climb_ends(self.bones@, node, ancestor, k),
        ensures
            r == descends_from(self.bones@, node, ancestor),
    {
        let ghost k0 = choose|k: nat| climb_ends(self.bones@, node, ancestor, k);
        let ghost mut k: nat = k0;
        let mut cur = node;
        loop
            invariant
                climb_ends(self.bones@, cur, ancestor, k),
                descends_from(self.bones@, node, ancestor) == descends_from(self.bones@, cur, ancestor),
            decreases k,
        {
            proof {
                lemma_find_bone(self.bones@, cur);
            }
            match self.bone(cur) {
                Some(b) => match b.parent {
                    Some(pp) => {
                        if pp == ancestor {
                            proof {
                                assert(climbs_to(self.bones@, cur, ancestor, 1));
                            }
                            return true;
                        }
                        proof {
                            lemma_descends_step(self.bones@, cur, pp, ancestor);
                            k = (k - 1) as nat;
                        }
                        cur = pp;
                    },
                    None => {
                        proof {
                            assert forall|j: nat| !#[trigger] climbs_to(self.bones@, cur, ancestor, j) by {}
                        }
                        return false;
                    },
                },
                None => {
                    proof {
                        assert forall|j: nat| !#[trigger] climbs_to(self.bones@, cur, ancestor, j) by {}
                    }
                    return false;
                },
            }
        }
    }

    /// The first bone with id `id`, to change it, if any.
    pub fn bone_mut(&mut self, id: u32) -> (r: Option<&mut Bone>)
        ensures
            find_bone(old(self).bones@, id) matches Some(i) ==> (r matches Some(b) && *b == old(self).bones@[i]
                && final(self).bones@ == old(self).bones@.update(i, *final(b)) && final(self).name
                == old(self).name && final(self).visible == old(self).visible && final(self).next_id
                == old(self).next_id),
            find_bone(old(self).bones@, id) is None ==> r is None && *final(self) == *old(self),
    {
        proof {
            lemma_find_bone(self.bones@, id);
        }
        match self.bone_index(id) {
            Some(i) => Some(&mut self.bones[i]),
            None => None,
        }
    }

    /// Index of the first bone with id `id`, if any.
    pub fn bone_index(&self, id: u32) -> (r: Option<usize>)
        ensures
            r matches Some(i) ==> find_bone(self.bones@, id) == Some(i as int),
            r is None ==> find_bone(self.bones@, id) is None,
    {
        proof {
            lemma_find_bone(self.bones@, id);
        }
        let n = self.bones.len();
        let mut i: usize = 0;
        while i < n
            invariant
                n == self.bones@.len(),
                i <= n,
                forall|j: int| 0 <= j < i ==> self.bones@[j].id != id,
            decreases n - i,
        {
            if self.bones[i].id == id {
                proof {
                    lemma_find_bone_is(self.bones@, id, i as int);
                }
                return Some(i);
            }
            i = i + 1;
        }
        None
    }

    /// Creates a bone with the given local transform (bits of `f32`s), scale
    /// 1 and rest pose equal to that transform, named "Osso N" (N = the number
    /// of bones it makes); returns its new id.
    pub fn add_bone(&mut self, parent: Option<u32>, x: u32, y: u32, angle: u32, length: u32, shape: BoneShape) -> (id: u32)
        requires
            old(self).next_id < u32::MAX,
            old(self).bones@.len() < usize::MAX,
        ensures
            id == old(self).next_id,
            final(self).next_id == old(self).next_id + 1,
            final(self).name == old(self).name,
            final(self).visible == old(self).visible,
            final(self).bones@.len() == old(self).bones@.len() + 1,
            final(self).bones@.drop_last() == old(self).bones@,
            ({
                let b = final(self).bones@.last();
                &&& b.id == id
                &&& b.parent == parent
                &&& b.name@ == "Osso "@ + decimal((old(self).bones@.len() + 1) as nat)
                &&& b.x == x && b.y == y && b.angle == angle && b.scale == unit_scale()
                &&& b.length == length
                &&& b.shape == shape
                &&& b.img is None
                &&& b.rest == (BonePose { x, y, angle, scale: unit_scale() })
            }),
    {
        let id = self.next_id;
        self.next_id = self.next_id + 1;
        let n = self.bones.len() + 1;
        self.bones.push(
            Bone {
                id,
                parent,
                name: numbered("Osso ", n),
                x,
                y,
                angle,
                scale: 0x3f80_0000,
                length,
                shape,
                img: None,
                rest: BonePose { x, y, angle, scale: 0x3f80_0000 },
            },
        );
        assert(self.bones@.drop_last() =~= old(self).bones@);
        id
    }

    /// Removes the bones with id `id` and ties the children of the removed
    /// bone to its parent (no orphans are left behind).
    pub fn remove_bone(&mut self, id: u32)
        ensures
            final(self).name == old(self).name,
            final(self).visible == old(self).visible,
            final(self).next_id == old(self).next_id,
            final(self).bones@ == without_bone(
                old(self).bones@,
                id,
                match find_bone(old(self).bones@, id) {
                    Some(i) => old(self).bones@[i].parent,
                    None => None,
                },
            ),
    {
        let parent = match self.bone(id) {
            Some(b) => b.parent,
            None => None,
        };
        let ghost p = parent;
        proof {
            lemma_find_bone(self.bones@, id);
        }
        let n = self.bones.len();
        let mut kept: Vec<Bone> = Vec::new();
        let mut i: usize = 0;
        while i < n
            invariant
                n == self.bones@.len(),
                self.bones@ == old(self).bones@,
                parent == p,
                i <= n,
                kept@ == without_bone(self.bones@.take(i as int), id, p),
            decreases n - i,
        {
            let b = self.bones[i].clone();
            proof {
                assert(self.bones@.take(i + 1).drop_last() =~= self.bones@.take(i as int));
                assert(self.bones@.take(i + 1).last() == self.bones@[i as int]);
                assert(b == self.bones@[i as int]);
            }
            let is_child = match b.parent {
                Some(q) => q == id,
                None => false,
            };
            if b.id != id {
                if is_child {
                    let mut nb = b;
                    nb.parent = parent;
                    kept.push(nb);
                } else {
                    kept.push(b);
                }
            }
            i = i + 1;
        }
        proof {
            assert(self.bones@.take(n as int) =~= self.bones@);
        }
        self.bones = kept;
    }

    /// Puts every bone back in its rest pose.
    pub fn reset_pose(&mut self)
        ensures
            final(self).name == old(self).name,
            final(self).visible == old(self).visible,
            final(self).next_id == old(self).next_id,
            final(self).bones@ == posed_at_rest(old(self).bones@),
    {
        let n = self.bones.len();
        let mut i: usize = 0;
        while i < n
            invariant
                n == self.bones@.len(),
                i <= n,
                self.name == old(self).name,
                self.visible == old(self).visible,
                self.next_id == old(self).next_id,
                forall|j: int| 0 <= j < i ==> self.bones@[j] == posed_at_rest(old(self).bones@)[j],
                forall|j: int| i <= j < n ==> self.bones@[j] == old(self).bones@[j],
                old(self).bones@.len() == n,
            decreases n - i,
        {
            let r = self.bones[i].rest;
            self.bones[i].x = r.x;
            self.bones[i].y = r.y;
            self.bones[i].angle = r.angle;
            self.bones[i].scale = r.scale;
            i = i + 1;
        }
        assert(self.bones@ =~= posed_at_rest(old(self).bones@));
    }

    /// Records the current pose of every bone as its rest pose.
    pub fn set_rest(&mut self)
        ensures
            final(self).name == old(self).name,
            final(self).visible == old(self).visible,
            final(self).next_id == old(self).next_id,
            final(self).bones@ == rest_from_pose(old(self).bones@),
    {
        let n = self.bones.len();
        let mut i: usize = 0;
        while i < n
            invariant
                n == self.bones@.len(),
                i <= n,
                self.name == old(self).name,
                self.visible == old(self).visible,
                self.next_id == old(self).next_id,
                forall|j: int| 0 <= j < i ==> self.bones@[j] == rest_from_pose(old(self).bones@)[j],
                forall|j: int| i <= j < n ==> self.bones@[j] == old(self).bones@[j],
                old(self).bones@.len() == n,
            decreases n - i,
        {
            let pose = BonePose {
                x: self.bones[i].x,
                y: self.bones[i].y,
                angle: self.bones[i].angle,
                scale: self.bones[i].scale,
            };
            self.bones[i].rest = pose;
            i = i + 1;
        }
        assert(self.bones@ =~= rest_from_pose(old(self).bones@));
    }
}

/// Setting the rest pose and then resetting to it changes no bone.
pub proof fn law_reset_after_set_rest(s: Seq<Bone>)
    ensures
        posed_at_rest(rest_from_pose(s)) == rest_from_pose(s),
{
    assert(posed_at_rest(rest_from_pose(s)) =~= rest_from_pose(s));
}

/// After `remove_bone(id)` no bone has id `id` and no bone names it as its
/// parent (the removed bone's parent `p` being another bone or none).
pub proof fn law_removed_bone_is_gone(s: Seq<Bone>, id: u32, p: Option<u32>)
    requires
        p != Some(id),
    ensures
        forall|i: int| 0 <= i < without_bone(s, id, p).len() ==> #[trigger] without_bone(s, id, p)[i].id != id
            && without_bone(s, id, p)[i].parent != Some(id),
    decreases s.len(),
{
    if s.len() > 0 {
        law_removed_bone_is_gone(s.drop_last(), id, p);
        let r = without_bone(s.drop_last(), id, p);
        let w = without_bone(s, id, p);
        assert forall|i: int| 0 <= i < w.len() implies #[trigger] w[i].id != id && w[i].parent != Some(id) by {
            if i < r.len() {
                assert(w[i] == r[i]);
            }
        }
    }
}

/// Every parent link names a bone of the skeleton.
pub open spec fn links_resolved(s: Seq<Bone>) -> bool {
    forall|i: int|
        0 <= i < s.len() && s[i].parent is Some ==> exists|j: int| 0 <= j < s.len() && s[j].id == #[trigger] s[i].parent->0
}

/// Every bone with another id than `id` stays, by its id.
proof fn lemma_without_keeps_others(s: Seq<Bone>, id: u32, p: Option<u32>)
    ensures
        forall|j: int|
            0 <= j < s.len() && s[j].id != id ==> exists|k: int| 0 <= k < without_bone(s, id, p).len()
                && #[trigger] without_bone(s, id, p)[k].id == #[trigger] s[j].id,
    decreases s.len(),
{
    if s.len() > 0 {
        let t = s.drop_last();
        lemma_without_keeps_others(t, id, p);
        let r = without_bone(t, id, p);
        let w = without_bone(s, id, p);
        assert forall|j: int| 0 <= j < s.len() && s[j].id != id implies exists|k: int| 0 <= k < w.len() && #[trigger] w[k].id == #[trigger] s[j].id by {
            if j < t.len() {
                assert(s[j] == t[j]);
                let k = choose|k: int| 0 <= k < r.len() && #[trigger] r[k].id == t[j].id;
                assert(w[k] == r[k]);
            } else {
                assert(w[r.len() as int].id == s[j].id);
            }
        }
    }
}

/// Each bone left is a bone of `s` with another id than `id`: unchanged, or,
/// a child of `id`, tied to `p`.
proof fn lemma_without_comes_from(s: Seq<Bone>, id: u32, p: Option<u32>)
    ensures
        forall|k: int|
            0 <= k < without_bone(s, id, p).len() ==> exists|j: int|
                0 <= j < s.len() && s[j].id == #[trigger] without_bone(s, id, p)[k].id && s[j].id != id && (
                (s[j].parent != Some(id) && without_bone(s, id, p)[k].parent == s[j].parent) || (s[j].parent
                == Some(id) && without_bone(s, id, p)[k].parent == p)),
    decreases s.len(),
{
    if s.len() > 0 {
        let t = s.drop_last();
        lemma_without_comes_from(t, id, p);
        let r = without_bone(t, id, p);
        let w = without_bone(s, id, p);
        assert forall|k: int| 0 <= k < w.len() implies exists|j: int|
            0 <= j < s.len() && s[j].id == #[trigger] w[k].id && s[j].id != id && ((s[j].parent != Some(id)
                && w[k].parent == s[j].parent) || (s[j].parent == Some(id) && w[k].parent == p)) by {
            if k < r.len() {
                assert(w[k] == r[k]);
                let j = choose|j: int|
                    0 <= j < t.len() && t[j].id == #[trigger] r[k].id && t[j].id != id && ((t[j].parent != Some(id)
                        && r[k].parent == t[j].parent) || (t[j].parent == Some(id) && r[k].parent == p));
                assert(s[j] == t[j]);
            } else {
                assert(s[s.len() - 1].id == w[k].id);
            }
        }
    }
}

/// The links of bones that come from `s` as `without_bone` leaves them
/// resolve when those of `s` do and `p` names a bone other than `id`.
proof fn lemma_links_left(s: Seq<Bone>, w: Seq<Bone>, id: u32, p: Option<u32>)
    requires
        links_resolved(s),
        p is Some ==> exists|a: int| 0 <= a < s.len() && s[a].id == p->0,
        p == Some(id) ==> forall|j: int| 0 <= j < s.len() && s[j].id != id ==> #[trigger] s[j].parent != Some(id),
        forall|j: int|
            0 <= j < s.len() && s[j].id != id ==> exists|k: int| 0 <= k < w.len() && #[trigger] w[k].id == #[trigger] s[j].id,
        forall|k: int|
            0 <= k < w.len() ==> exists|j: int|
                0 <= j < s.len() && s[j].id == #[trigger] w[k].id && s[j].id != id && ((s[j].parent != Some(id)
                    && w[k].parent == s[j].parent) || (s[j].parent == Some(id) && w[k].parent == p)),
    ensures
        links_resolved(w),
{
    assert forall|k: int| 0 <= k < w.len() && w[k].parent is Some implies exists|m: int|
        0 <= m < w.len() && w[m].id == #[trigger] w[k].parent->0 by {
        let j = choose|j: int|
            0 <= j < s.len() && s[j].id == #[trigger] w[k].id && s[j].id != id && ((s[j].parent != Some(id)
                && w[k].parent == s[j].parent) || (s[j].parent == Some(id) && w[k].parent == p));
        if s[j].parent != Some(id) && w[k].parent == s[j].parent {
            let a = choose|a: int| 0 <= a < s.len() && s[a].id == #[trigger] s[j].parent->0;
            assert(s[a].id != id);
            let m = choose|m: int| 0 <= m < w.len() && #[trigger] w[m].id == #[trigger] s[a].id;
            assert(w[m].id == w[k].parent->0);
        } else {
            assert(s[j].parent == Some(id));
            assert(p != Some(id));
            let a = choose|a: int| 0 <= a < s.len() && s[a].id == p->0;
            assert(s[a].id != id);
            let m = choose|m: int| 0 <= m < w.len() && #[trigger] w[m].id == #[trigger] s[a].id;
            assert(w[m].id == w[k].parent->0);
        }
    }
}

/// The parent of bone `id`, when it has one, is a bone, if links resolve.
proof fn lemma_parent_named(s: Seq<Bone>, id: u32)
    requires
        links_resolved(s),
    ensures
        parent_of(s, id) is Some ==> exists|a: int| 0 <= a < s.len() && s[a].id == parent_of(s, id)->0,
{
    lemma_find_bone(s, id);
    if let Some(i) = find_bone(s, id) {
        if s[i].parent is Some {
            let q = s[i].parent->0;
            assert(exists|a: int| 0 <= a < s.len() && s[a].id == #[trigger] s[i].parent->0);
        }
    }
}

/// Removing a bone leaves no orphan: when every parent link named a bone,
/// every link left names a bone, unless the removed bone was its own parent
/// and another bone hung from it.
#[verifier::spinoff_prover]
#[verifier::rlimit(40)]
pub proof fn law_remove_bone_leaves_no_orphan(s: Seq<Bone>, id: u32)
    requires
        links_resolved(s),
        parent_of(s, id) == Some(id) ==> forall|j: int|
            0 <= j < s.len() && s[j].id != id ==> #[trigger] s[j].parent != Some(id),
    ensures
        links_resolved(without_bone(s, id, parent_of(s, id))),
{
    let p = parent_of(s, id);
    lemma_parent_named(s, id);
    lemma_without_keeps_others(s, id, p);
    lemma_without_comes_from(s, id, p);
    lemma_links_left(s, without_bone(s, id, p), id, p);
}

} // verus!
