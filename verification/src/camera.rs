//! The keyframed camera: an entity apart from the drawing timeline. It keeps
//! only keyframes of its framing (position, size, rotation and pivot); the
//! state between them is computed by interpolation. The camera frames the
//! final composition and never transforms the drawn objects.
use vstd::prelude::*;
use vstd::arithmetic::power2::{lemma2_to64, lemma_pow2_adds, lemma_pow2_pos, lemma_pow2_strictly_increases, lemma_pow2_unfold, pow2};

verus! {

/// How a segment is interpolated, from its keyframe to the next one.
#[derive(Clone, Copy, Debug, PartialEq, Eq, Structural)]
pub enum Interp {
    Linear,
    EaseIn,
    EaseOut,
    EaseInOut,
    /// Holds the value until the next keyframe (no transition).
    Constant,
}

impl Interp {
    /// What `label` shows for the curve.
    pub open spec fn label_spec(self) -> Seq<char> {
        match self {
            Interp::Linear => "Linear"@,
            Interp::EaseIn => "Ease In"@,
            Interp::EaseOut => "Ease Out"@,
            Interp::EaseInOut => "Ease In/Out"@,
            Interp::Constant => "Constante (hold)"@,
        }
    }

    /// The curve's name as shown to the user.
    pub fn label(self) -> (s: &'static str)
        ensures
            s@ == self.label_spec(),
    {
        match self {
            Interp::Linear => "Linear",
            Interp::EaseIn => "Ease In",
            Interp::EaseOut => "Ease Out",
            Interp::EaseInOut => "Ease In/Out",
            Interp::Constant => "Constante (hold)",
        }
    }

    /// Every curve, in the order the user is offered them.
    pub fn all() -> (a: [Interp; 5])
        ensures
            a@ == seq![Interp::Linear, Interp::EaseIn, Interp::EaseOut, Interp::EaseInOut, Interp::Constant],
    {
        [Interp::Linear, Interp::EaseIn, Interp::EaseOut, Interp::EaseInOut, Interp::Constant]
    }
}

impl Default for Interp {
    fn default() -> (i: Self)
        ensures
            i == Interp::Linear,
    {
        Interp::Linear
    }
}

/// The curve of a keyframe that does not name one: linear.
pub fn default_interp() -> (i: Interp)
    ensures
        i == Interp::Linear,
{
    Interp::Linear
}

/// A camera keyframe, tied to a frame of the timeline. The `f32` values of
/// the framing are held by their bits.
#[derive(Clone, Copy, Debug)]
pub struct CameraKeyframe {
    /// The frame (index in the timeline) this keyframe is tied to.
    pub frame: usize,
    /// Centre of the framing (document pixels).
    pub x: u32,
    pub y: u32,
    /// Size of the framing rectangle (document pixels).
    pub w: u32,
    pub h: u32,
    /// Rotation of the framing, in degrees.
    pub rotation: u32,
    /// Pivot as an offset from the centre (pixels).
    pub anchor_x: u32,
    pub anchor_y: u32,
    /// Interpolation from this keyframe to the next.
    pub interp: Interp,
}

/// The document's camera: base size (for Reset) and its keyframes, which are
/// kept in ascending order of `frame`. The `f32` base size is held by its bits.
#[derive(Debug)]
pub struct Camera {
    pub base_w: u32,
    pub base_h: u32,
    pub keyframes: Vec<CameraKeyframe>,
}

/// What a camera is: its base size (bits) and its keyframes.
#[verifier::ext_equal]
pub struct CameraView {
    pub base_w: u32,
    pub base_h: u32,
    pub keyframes: Seq<CameraKeyframe>,
}

impl View for Camera {
    type V = CameraView;

    open spec fn view(&self) -> CameraView {
        CameraView { base_w: self.base_w, base_h: self.base_h, keyframes: self.keyframes@ }
    }
}

impl Clone for Camera {
    /// A copy with the same base size and keyframes.
    fn clone(&self) -> (res: Self)
        ensures
            res@ == self@,
    {
        let mut keyframes: Vec<CameraKeyframe> = Vec::with_capacity(self.keyframes.len());
        let mut i: usize = 0;
        while i < self.keyframes.len()
            invariant
                i <= self.keyframes@.len(),
                keyframes@ == self.keyframes@.subrange(0, i as int),
            decreases self.keyframes@.len() - i,
        {
            keyframes.push(self.keyframes[i]);
            i = i + 1;
            proof {
                assert(keyframes@ =~= self.keyframes@.subrange(0, i as int));
            }
        }
        proof {
            assert(keyframes@ =~= self.keyframes@);
        }
        Camera { base_w: self.base_w, base_h: self.base_h, keyframes }
    }
}

/// The keyframes are in ascending order of frame.
pub open spec fn sorted_by_frame(s: Seq<CameraKeyframe>) -> bool {
    forall|i: int, j: int| 0 <= i < j < s.len() ==> s[i].frame <= s[j].frame
}

/// Where a keyframe of frame `f` goes in `s`: after every keyframe of the
/// tail end of `s` whose frame is not greater than `f`, scanning from the back.
pub open spec fn insertion_point(s: Seq<CameraKeyframe>, f: usize) -> int
    decreases s.len(),
{
    if s.len() == 0 {
        0
    } else if s.last().frame <= f {
        s.len() as int
    } else {
        insertion_point(s.drop_last(), f)
    }
}

/// The keyframes ordered by frame, keeping the order of equal frames (a
/// stable sort): each keyframe in turn goes in after those already placed
/// whose frame is not greater.
pub open spec fn sort_by_frame(s: Seq<CameraKeyframe>) -> Seq<CameraKeyframe>
    decreases s.len(),
{
    if s.len() == 0 {
        s
    } else {
        let r = sort_by_frame(s.drop_last());
        r.insert(insertion_point(r, s.last().frame), s.last())
    }
}

/// The first index of a keyframe at frame `f`, if any.
pub open spec fn first_at(s: Seq<CameraKeyframe>, f: usize) -> Option<int> {
    if exists|i: int| 0 <= i < s.len() && s[i].frame == f {
        Some(
            choose|i: int| 0 <= i < s.len() && s[i].frame == f && forall|j: int| 0 <= j < i ==> s[j].frame != f,
        )
    } else {
        None
    }
}

proof fn lemma_insertion_point_bounds(s: Seq<CameraKeyframe>, f: usize)
    ensures
        0 <= insertion_point(s, f) <= s.len(),
        forall|j: int| insertion_point(s, f) <= j < s.len() ==> s[j].frame > f,
    decreases s.len(),
{
    if s.len() > 0 && s.last().frame > f {
        let t = s.drop_last();
        lemma_insertion_point_bounds(t, f);
        assert forall|j: int| insertion_point(s, f) <= j < s.len() implies s[j].frame > f by {
            if j < t.len() {
                assert(s[j] == t[j]);
            }
        }
    }
}

/// In a sorted sequence, the insertion point of `f` follows every keyframe
/// whose frame is at most `f`.
proof fn lemma_insertion_point_sorted(s: Seq<CameraKeyframe>, f: usize)
    requires
        sorted_by_frame(s),
    ensures
        forall|j: int| 0 <= j < insertion_point(s, f) ==> s[j].frame <= f,
    decreases s.len(),
{
    lemma_insertion_point_bounds(s, f);
    if s.len() > 0 && s.last().frame > f {
        let t = s.drop_last();
        assert(sorted_by_frame(t)) by {
            assert forall|i: int, j: int| 0 <= i < j < t.len() implies t[i].frame <= t[j].frame by {
                assert(s[i] == t[i] && s[j] == t[j]);
            }
        }
        lemma_insertion_point_sorted(t, f);
        lemma_insertion_point_bounds(t, f);
        assert forall|j: int| 0 <= j < insertion_point(s, f) implies s[j].frame <= f by {
            assert(s[j] == t[j]);
        }
    } else if s.len() > 0 {
        assert forall|j: int| 0 <= j < insertion_point(s, f) implies s[j].frame <= f by {
            if j < s.len() - 1 {
                assert(s[j].frame <= s[s.len() - 1].frame);
            }
        }
    }
}

/// Sorting by frame gives keyframes in ascending order of frame, with the
/// same keyframes as before.
pub proof fn law_sort_by_frame_sorts(s: Seq<CameraKeyframe>)
    ensures
        sorted_by_frame(sort_by_frame(s)),
        sort_by_frame(s).to_multiset() == s.to_multiset(),
        sort_by_frame(s).len() == s.len(),
    decreases s.len(),
{
    broadcast use vstd::seq_lib::group_to_multiset_ensures;

    if s.len() > 0 {
        let t = s.drop_last();
        law_sort_by_frame_sorts(t);
        let r = sort_by_frame(t);
        let x = s.last();
        let p = insertion_point(r, x.frame);
        lemma_insertion_point_bounds(r, x.frame);
        lemma_insertion_point_sorted(r, x.frame);
        let u = r.insert(p, x);
        assert forall|i: int, j: int| 0 <= i < j < u.len() implies u[i].frame <= u[j].frame by {
            if j < p {
            } else if j == p {
            } else if i < p {
                assert(u[j] == r[j - 1]);
            } else if i == p {
                assert(u[j] == r[j - 1]);
            } else {
                assert(u[i] == r[i - 1] && u[j] == r[j - 1]);
            }
        }
        assert(s == t.push(x));
        assert(u.to_multiset() == r.to_multiset().insert(x)) by {
            vstd::seq_lib::lemma_multiset_commutative(r.take(p), r.skip(p));
            vstd::seq_lib::lemma_multiset_commutative(r.take(p).push(x), r.skip(p));
            assert(r =~= r.take(p) + r.skip(p));
            assert(u =~= r.take(p).push(x) + r.skip(p));
        }
    }
}

/// Sorting keyframes that are already in order changes nothing.
pub proof fn law_sort_by_frame_of_sorted(s: Seq<CameraKeyframe>)
    requires
        sorted_by_frame(s),
    ensures
        sort_by_frame(s) == s,
    decreases s.len(),
{
    if s.len() > 0 {
        let t = s.drop_last();
        assert(sorted_by_frame(t));
        law_sort_by_frame_of_sorted(t);
        assert(insertion_point(t, s.last().frame) == t.len()) by {
            if t.len() > 0 {
                assert(t.last().frame <= s.last().frame);
            }
        }
        assert(t.insert(t.len() as int, s.last()) =~= s);
    }
}

/// The position of the highest set bit of `n` (0 for 0 and 1).
pub open spec fn top_bit(n: nat) -> nat
    decreases n,
{
    if n <= 1 {
        0
    } else {
        1 + top_bit(n / 2)
    }
}

/// `q` rounded by the remainder `r` out of `d`: up when past the half, and
/// at the half to the even one of `q` and `q + 1`.
pub open spec fn round_even(q: nat, r: nat, d: nat) -> nat {
    if 2 * r > d || (2 * r == d && q % 2 == 1) {
        q + 1
    } else {
        q
    }
}

/// The bits of `n` as an `f32` (`n as f32`, the nearest `f32`, ties to
/// even): sign 0, exponent `127 + top_bit(n)`, and as mantissa the bits of
/// `n` below its top bit, rounded to 23 of them.
pub open spec fn f32_bits(n: nat) -> u32 {
    if n == 0 {
        0
    } else {
        let e = top_bit(n);
        if e <= 23 {
            ((127 + e) * 0x80_0000 + (n - pow2(e)) * pow2((23 - e) as nat)) as u32
        } else {
            let d = pow2((e - 23) as nat);
            ((127 + e) * 0x80_0000 + round_even(n / d, n % d, d) - 0x80_0000) as u32
        }
    }
}

/// The bits of `n as f32 / 2.0`: halving is exact and takes one from the
/// exponent of a positive value.
pub open spec fn f32_half_bits(n: nat) -> u32 {
    if n == 0 {
        0
    } else {
        (f32_bits(n) - 0x80_0000) as u32
    }
}

/// The `f32` of these bits is at most zero (`x <= 0.0`): a zero of either
/// sign, or a negative number (a NaN compares false).
pub open spec fn f32_not_positive(bits: u32) -> bool {
    let mag = bits % 0x8000_0000;
    mag == 0 || (bits >= 0x8000_0000 && mag <= 0x7F80_0000)
}

/// If `2^e <= n < 2^(e+1)`, the highest set bit of `n` is bit `e`.
proof fn lemma_top_bit(n: nat, e: nat)
    requires
        pow2(e) <= n < pow2(e + 1),
    ensures
        top_bit(n) == e,
    decreases e,
{
    lemma_pow2_unfold(e + 1);
    if e == 0 {
        lemma2_to64();
    } else {
        lemma_pow2_unfold(e);
        lemma_top_bit(n / 2, (e - 1) as nat);
    }
}

/// The bits of `n as f32`.
pub(crate) fn f32_bits_of(n: u32) -> (r: u32)
    ensures
        r == f32_bits(n as nat),
        n > 0 ==> 127 * 0x80_0000 <= r,
{
    if n == 0 {
        return 0;
    }
    let mut p: u64 = 1;
    let mut e: u64 = 0;
    proof {
        lemma2_to64();
    }
    while p * 2 <= n as u64
        invariant
            1 <= p <= n,
            n <= u32::MAX,
            p == pow2(e as nat),
            e < 32,
        decreases n - p,
    {
        proof {
            lemma_pow2_unfold((e + 1) as nat);
            lemma2_to64();
            if e + 1 >= 32 {
                if e + 1 > 32 {
                    lemma_pow2_strictly_increases(32, (e + 1) as nat);
                }
            }
        }
        p = p * 2;
        e = e + 1;
    }
    proof {
        lemma_pow2_unfold((e + 1) as nat);
        lemma_top_bit(n as nat, e as nat);
        lemma2_to64();
    }
    if e <= 23 {
        let ghost k: nat = (23 - e) as nat;
        proof {
            lemma_pow2_adds(k, e as nat);
            assert((23 - e) as nat + e as nat == 23);
            lemma_pow2_pos(k);
        }
        let m: u64 = 0x80_0000 / p;
        proof {
            let a = pow2(k);
            assert(0x80_0000 == a * p);
            assert(m == a) by (nonlinear_arith)
                requires
                    m == 0x80_0000u64 / p,
                    0x80_0000 == a * p,
                    p >= 1,
            ;
            assert((n - p) * m < 0x80_0000) by (nonlinear_arith)
                requires
                    n < 2 * p,
                    p <= n,
                    m * p == 0x80_0000,
            ;
        }
        ((127 + e) * 0x80_0000 + (n as u64 - p) * m) as u32
    } else {
        let ghost k: nat = (e - 23) as nat;
        proof {
            lemma_pow2_adds(k, 23);
            assert(k + 23 == e as nat);
            lemma_pow2_pos(k);
        }
        let d: u64 = p / 0x80_0000;
        proof {
            let a = pow2(k);
            assert(p == a * 0x80_0000);
            assert(d == a) by (nonlinear_arith)
                requires
                    d == p / 0x80_0000u64,
                    p == a * 0x80_0000,
            ;
        }
        let q: u64 = n as u64 / d;
        let r: u64 = n as u64 % d;
        proof {
            assert(0x80_0000 <= q < 0x100_0000) by (nonlinear_arith)
                requires
                    q == (n as u64) / d,
                    d >= 1,
                    d * 0x80_0000 == p,
                    p <= n < 2 * p,
            ;
        }
        let q2: u64 = if 2 * r > d || (2 * r == d && q % 2 == 1) {
            q + 1
        } else {
            q
        };
        ((127 + e) * 0x80_0000 + q2 - 0x80_0000) as u32
    }
}

/// A camera framing exactly a `w` × `h` canvas: base size `w` × `h`, and one
/// linear keyframe at frame 0 centred on the canvas, of the canvas's size,
/// with no rotation and the pivot at the centre (all as `f32` bits).
pub open spec fn full_camera(w: u32, h: u32) -> CameraView {
    CameraView {
        base_w: f32_bits(w as nat),
        base_h: f32_bits(h as nat),
        keyframes: seq![
            CameraKeyframe {
                frame: 0,
                x: f32_half_bits(w as nat),
                y: f32_half_bits(h as nat),
                w: f32_bits(w as nat),
                h: f32_bits(h as nat),
                rotation: 0,
                anchor_x: 0,
                anchor_y: 0,
                interp: Interp::Linear,
            },
        ],
    }
}

/// The camera made usable for a `w` × `h` canvas: with no keyframe it is
/// the full camera; otherwise a base size that is not positive becomes the
/// canvas's, and nothing else changes.
pub open spec fn ensured(c: CameraView, w: u32, h: u32) -> CameraView {
    if c.keyframes.len() == 0 {
        full_camera(w, h)
    } else if f32_not_positive(c.base_w) || f32_not_positive(c.base_h) {
        CameraView { base_w: f32_bits(w as nat), base_h: f32_bits(h as nat), ..c }
    } else {
        c
    }
}

/// Making a camera usable twice is making it usable once.
pub proof fn law_ensure_idempotent(c: CameraView, w: u32, h: u32)
    ensures
        ensured(ensured(c, w, h), w, h) == ensured(c, w, h),
{
}

/// A usable camera has a keyframe, and the full camera's keyframes are in
/// order of frame.
pub proof fn lemma_ensured_has_keyframe(c: CameraView, w: u32, h: u32)
    ensures
        ensured(c, w, h).keyframes.len() >= 1,
        sorted_by_frame(full_camera(w, h).keyframes),
        sorted_by_frame(c.keyframes) ==> sorted_by_frame(ensured(c, w, h).keyframes),
{
}

impl Camera {
    /// A camera framing exactly a `w` × `h` canvas (one keyframe at frame 0).
    pub fn new(w: u32, h: u32) -> (c: Self)
        ensures
            c@ == full_camera(w, h),
    {
        let bw = f32_bits_of(w);
        let bh = f32_bits_of(h);
        let x = if w == 0 { 0 } else { bw - 0x80_0000 };
        let y = if h == 0 { 0 } else { bh - 0x80_0000 };
        let kf = CameraKeyframe {
            frame: 0,
            x,
            y,
            w: bw,
            h: bh,
            rotation: 0,
            anchor_x: 0,
            anchor_y: 0,
            interp: Interp::Linear,
        };
        let c = Camera { base_w: bw, base_h: bh, keyframes: vec![kf] };
        assert(c@.keyframes =~= full_camera(w, h).keyframes);
        c
    }

    /// Makes the camera usable for a `w` × `h` canvas (for older projects):
    /// a base size that is not positive becomes the canvas's, and a camera
    /// with no keyframe becomes the full camera.
    pub fn ensure(&mut self, w: u32, h: u32)
        ensures
            final(self)@ == ensured(old(self)@, w, h),
    {
        let nonpos_w = self.base_w % 0x8000_0000 == 0 || (self.base_w >= 0x8000_0000 && self.base_w
            % 0x8000_0000 <= 0x7F80_0000);
        let nonpos_h = self.base_h % 0x8000_0000 == 0 || (self.base_h >= 0x8000_0000 && self.base_h
            % 0x8000_0000 <= 0x7F80_0000);
        if nonpos_w || nonpos_h {
            self.base_w = f32_bits_of(w);
            self.base_h = f32_bits_of(h);
        }
        if self.keyframes.len() == 0 {
            *self = Camera::new(w, h);
        }
    }

    /// Back to a camera framing the whole `w` × `h` canvas.
    pub fn reset(&mut self, w: u32, h: u32)
        ensures
            final(self)@ == full_camera(w, h),
    {
        *self = Camera::new(w, h);
    }

    /// Index of the keyframe exactly at `frame`, if there is one.
    pub fn keyframe_index(&self, frame: usize) -> (r: Option<usize>)
        ensures
            r matches Some(i) ==> first_at(self.keyframes@, frame) == Some(i as int),
            r is None ==> first_at(self.keyframes@, frame) is None,
            r matches Some(i) ==> i < self.keyframes@.len() && self.keyframes@[i as int].frame == frame,
    {
        proof {
            lemma_first_at(self.keyframes@, frame);
        }
        let n = self.keyframes.len();
        let mut i: usize = 0;
        while i < n
            invariant
                n == self.keyframes@.len(),
                i <= n,
                forall|j: int| 0 <= j < i ==> self.keyframes@[j].frame != frame,
            decreases n - i,
        {
            if self.keyframes[i].frame == frame {
                proof {
                    lemma_first_at_is(self.keyframes@, frame, i as int);
                }
                return Some(i);
            }
            i = i + 1;
        }
        None
    }

    /// Creates or updates the keyframe at `kf.frame`: an existing keyframe at
    /// that frame is replaced; otherwise `kf` is added and the keyframes are
    /// sorted by frame (a stable sort).
    pub fn set_keyframe(&mut self, kf: CameraKeyframe)
        ensures
            final(self).base_w == old(self).base_w,
            final(self).base_h == old(self).base_h,
            final(self).keyframes@ == (match first_at(old(self).keyframes@, kf.frame) {
                Some(i) => old(self).keyframes@.update(i, kf),
                None => sort_by_frame(old(self).keyframes@.push(kf)),
            }),
    {
        if let Some(i) = self.keyframe_index(kf.frame) {
            self.keyframes.set(i, kf);
        } else {
            self.keyframes.push(kf);
            self.sort_keyframes();
        }
    }

    /// Sorts the keyframes by frame, keeping the order of equal frames.
    fn sort_keyframes(&mut self)
        ensures
            final(self).base_w == old(self).base_w,
            final(self).base_h == old(self).base_h,
            final(self).keyframes@ == sort_by_frame(old(self).keyframes@),
    {
        let n = self.keyframes.len();
        let mut sorted: Vec<CameraKeyframe> = Vec::with_capacity(n);
        let mut i: usize = 0;
        while i < n
            invariant
                n == self.keyframes@.len(),
                self.keyframes@ == old(self).keyframes@,
                i <= n,
                sorted@ == sort_by_frame(self.keyframes@.take(i as int)),
            decreases n - i,
        {
            let x = self.keyframes[i];
            let ghost before = sorted@;
            let mut pos: usize = sorted.len();
            proof {
                assert(before.take(pos as int) =~= before);
            }
            while pos > 0 && sorted[pos - 1].frame > x.frame
                invariant
                    sorted@ == before,
                    pos <= before.len(),
                    insertion_point(before, x.frame) == insertion_point(before.take(pos as int), x.frame),
                decreases pos,
            {
                proof {
                    let t = before.take(pos as int);
                    assert(t.drop_last() =~= before.take(pos - 1));
                }
                pos = pos - 1;
            }
            proof {
                let t = before.take(pos as int);
                if pos > 0 {
                    assert(t.last().frame <= x.frame);
                }
                assert(self.keyframes@.take(i + 1).drop_last() =~= self.keyframes@.take(i as int));
            }
            sorted.insert(pos, x);
            i = i + 1;
        }
        proof {
            assert(self.keyframes@.take(n as int) =~= self.keyframes@);
        }
        self.keyframes = sorted;
    }

    /// Removes the keyframe at `frame`, if there is one, but always keeps at
    /// least one keyframe.
    pub fn remove_keyframe(&mut self, frame: usize)
        ensures
            final(self).base_w == old(self).base_w,
            final(self).base_h == old(self).base_h,
            final(self).keyframes@ == (if old(self).keyframes@.len() <= 1 {
                old(self).keyframes@
            } else {
                match first_at(old(self).keyframes@, frame) {
                    Some(i) => old(self).keyframes@.remove(i),
                    None => old(self).keyframes@,
                }
            }),
    {
        if self.keyframes.len() <= 1 {
            return;
        }
        if let Some(i) = self.keyframe_index(frame) {
            self.keyframes.remove(i);
        }
    }
}

/// What `first_at` finds: the first keyframe at `f`, or none when no keyframe
/// is at `f`.
pub proof fn lemma_first_at(s: Seq<CameraKeyframe>, f: usize)
    ensures
        first_at(s, f) matches Some(i) ==> 0 <= i < s.len() && s[i].frame == f && forall|j: int|
            0 <= j < i ==> s[j].frame != f,
        first_at(s, f) is None ==> forall|j: int| 0 <= j < s.len() ==> s[j].frame != f,
{
    if exists|i: int| 0 <= i < s.len() && s[i].frame == f {
        let w = choose|i: int| 0 <= i < s.len() && s[i].frame == f;
        lemma_first_index_exists(s, f, w);
    }
}

proof fn lemma_first_index_exists(s: Seq<CameraKeyframe>, f: usize, w: int)
    requires
        0 <= w < s.len(),
        s[w].frame == f,
    ensures
        exists|i: int| 0 <= i < s.len() && s[i].frame == f && forall|j: int| 0 <= j < i ==> s[j].frame != f,
    decreases w,
{
    if exists|j: int| 0 <= j < w && s[j].frame == f {
        let v = choose|j: int| 0 <= j < w && s[j].frame == f;
        lemma_first_index_exists(s, f, v);
    }
}

/// The first keyframe at `f` is the only index that `first_at` can name.
proof fn lemma_first_at_is(s: Seq<CameraKeyframe>, f: usize, i: int)
    requires
        0 <= i < s.len(),
        s[i].frame == f,
        forall|j: int| 0 <= j < i ==> s[j].frame != f,
    ensures
        first_at(s, f) == Some(i),
{
    lemma_first_at(s, f);
    let c = first_at(s, f)->0;
    if c < i {
    } else if c > i {
    }
}

/// Replacing the first keyframe at `kf.frame` keeps the order and finds `kf`.
proof fn lemma_set_existing(old_kfs: Seq<CameraKeyframe>, kf: CameraKeyframe, i: int)
    requires
        sorted_by_frame(old_kfs),
        first_at(old_kfs, kf.frame) == Some(i),
    ensures
        sorted_by_frame(old_kfs.update(i, kf)),
        first_at(old_kfs.update(i, kf), kf.frame) == Some(i),
{
    let f = kf.frame;
    lemma_first_at(old_kfs, f);
    let new_kfs = old_kfs.update(i, kf);
    assert forall|a: int, b: int| 0 <= a < b < new_kfs.len() implies new_kfs[a].frame <= new_kfs[b].frame by {
        assert(old_kfs[a].frame <= old_kfs[b].frame);
    }
    lemma_first_at_is(new_kfs, f, i);
}

/// Adding a keyframe at a frame that has none keeps the order and finds it.
#[verifier::spinoff_prover]
proof fn lemma_set_new(old_kfs: Seq<CameraKeyframe>, kf: CameraKeyframe)
    requires
        sorted_by_frame(old_kfs),
        first_at(old_kfs, kf.frame) is None,
    ensures
        sorted_by_frame(sort_by_frame(old_kfs.push(kf))),
        first_at(sort_by_frame(old_kfs.push(kf)), kf.frame) == Some(insertion_point(old_kfs, kf.frame)),
        sort_by_frame(old_kfs.push(kf))[insertion_point(old_kfs, kf.frame)] == kf,
        sort_by_frame(old_kfs.push(kf)) == old_kfs.insert(insertion_point(old_kfs, kf.frame), kf),
        0 <= insertion_point(old_kfs, kf.frame) <= old_kfs.len(),
{
    let f = kf.frame;
    lemma_first_at(old_kfs, f);
    let t = old_kfs.push(kf);
    law_sort_by_frame_sorts(t);
    law_sort_by_frame_of_sorted(old_kfs);
    assert(t.drop_last() =~= old_kfs);
    let new_kfs = sort_by_frame(t);
    let p = insertion_point(old_kfs, f);
    lemma_insertion_point_bounds(old_kfs, f);
    assert(new_kfs == old_kfs.insert(p, kf));
    assert forall|j: int| 0 <= j < p implies new_kfs[j].frame != f by {
        assert(new_kfs[j] == old_kfs[j]);
    }
    lemma_first_at_is(new_kfs, f, p);
}

/// After `set_keyframe(kf)` the keyframe found at `kf.frame` is `kf`, and
/// keyframes in ascending order of frame stay so.
pub proof fn law_set_keyframe_then_find(old_kfs: Seq<CameraKeyframe>, kf: CameraKeyframe, new_kfs: Seq<CameraKeyframe>)
    requires
        sorted_by_frame(old_kfs),
        new_kfs == (match first_at(old_kfs, kf.frame) {
            Some(i) => old_kfs.update(i, kf),
            None => sort_by_frame(old_kfs.push(kf)),
        }),
    ensures
        sorted_by_frame(new_kfs),
        first_at(new_kfs, kf.frame) matches Some(i) && new_kfs[i] == kf,
{
    match first_at(old_kfs, kf.frame) {
        Some(i) => {
            lemma_set_existing(old_kfs, kf, i);
            lemma_first_at(old_kfs, kf.frame);
        },
        None => {
            lemma_set_new(old_kfs, kf);
        },
    }
}

/// No two keyframes share a frame, and they are in ascending order of it.
pub open spec fn strictly_by_frame(s: Seq<CameraKeyframe>) -> bool {
    forall|i: int, j: int| 0 <= i < j < s.len() ==> s[i].frame < s[j].frame
}

/// Replacing the keyframe at index `i`, at `kf`'s frame, keeps the strict
/// order and the keyframes at other frames.
proof fn lemma_keeps_replacing(old_kfs: Seq<CameraKeyframe>, kf: CameraKeyframe, i: int)
    requires
        strictly_by_frame(old_kfs),
        0 <= i < old_kfs.len(),
        old_kfs[i].frame == kf.frame,
    ensures
        strictly_by_frame(old_kfs.update(i, kf)),
        forall|j: int| 0 <= j < old_kfs.len() && old_kfs[j].frame != kf.frame ==> old_kfs.update(i, kf).contains(#[trigger] old_kfs[j]),
        forall|j: int| 0 <= j < old_kfs.len() && old_kfs.update(i, kf)[j].frame != kf.frame ==> old_kfs.contains(#[trigger] old_kfs.update(i, kf)[j]),
{
    let new_kfs = old_kfs.update(i, kf);
    assert forall|a: int, b: int| 0 <= a < b < new_kfs.len() implies new_kfs[a].frame < new_kfs[b].frame by {
        assert(old_kfs[a].frame < old_kfs[b].frame);
    }
    assert forall|j: int| 0 <= j < old_kfs.len() && old_kfs[j].frame != kf.frame implies new_kfs.contains(#[trigger] old_kfs[j]) by {
        assert(new_kfs[j] == old_kfs[j]);
    }
    assert forall|j: int| 0 <= j < old_kfs.len() && new_kfs[j].frame != kf.frame implies old_kfs.contains(#[trigger] new_kfs[j]) by {
        assert(new_kfs[j] == old_kfs[j]);
    }
}

/// Inserting `kf` at `p`, after every keyframe of a lower frame and before
/// every one of a higher frame, none being at its frame, keeps the strict
/// order and the other keyframes.
proof fn lemma_keeps_inserting(old_kfs: Seq<CameraKeyframe>, kf: CameraKeyframe, p: int)
    requires
        strictly_by_frame(old_kfs),
        0 <= p <= old_kfs.len(),
        forall|j: int| 0 <= j < p ==> old_kfs[j].frame < kf.frame,
        forall|j: int| p <= j < old_kfs.len() ==> old_kfs[j].frame > kf.frame,
    ensures
        strictly_by_frame(old_kfs.insert(p, kf)),
        forall|j: int| 0 <= j < old_kfs.len() ==> old_kfs.insert(p, kf).contains(#[trigger] old_kfs[j]),
        forall|j: int| 0 <= j < old_kfs.len() + 1 && old_kfs.insert(p, kf)[j].frame != kf.frame ==> old_kfs.contains(#[trigger] old_kfs.insert(p, kf)[j]),
{
    let new_kfs = old_kfs.insert(p, kf);
    assert forall|a: int, b: int| 0 <= a < b < new_kfs.len() implies new_kfs[a].frame < new_kfs[b].frame by {
        if b < p {
            assert(new_kfs[a] == old_kfs[a] && new_kfs[b] == old_kfs[b]);
        } else if b == p {
            assert(new_kfs[a] == old_kfs[a]);
        } else if a < p {
            assert(new_kfs[a] == old_kfs[a] && new_kfs[b] == old_kfs[b - 1]);
        } else if a == p {
            assert(new_kfs[b] == old_kfs[b - 1]);
        } else {
            assert(new_kfs[a] == old_kfs[a - 1] && new_kfs[b] == old_kfs[b - 1]);
        }
    }
    assert forall|j: int| 0 <= j < old_kfs.len() implies new_kfs.contains(#[trigger] old_kfs[j]) by {
        if j < p {
            assert(new_kfs[j] == old_kfs[j]);
        } else {
            assert(new_kfs[j + 1] == old_kfs[j]);
        }
    }
    assert forall|j: int| 0 <= j < old_kfs.len() + 1 && new_kfs[j].frame != kf.frame implies old_kfs.contains(#[trigger] new_kfs[j]) by {
        if j < p {
            assert(new_kfs[j] == old_kfs[j]);
        } else if j > p {
            assert(new_kfs[j] == old_kfs[j - 1]);
        }
    }
}

/// On keyframes strictly in order of frame, `set_keyframe(kf)` keeps them
/// strictly in order, keeps every keyframe at another frame and brings in
/// none but `kf`, and adds one keyframe exactly when none was at `kf.frame`.
pub proof fn law_set_keyframe_keeps_others(old_kfs: Seq<CameraKeyframe>, kf: CameraKeyframe, new_kfs: Seq<CameraKeyframe>)
    requires
        strictly_by_frame(old_kfs),
        new_kfs == (match first_at(old_kfs, kf.frame) {
            Some(i) => old_kfs.update(i, kf),
            None => sort_by_frame(old_kfs.push(kf)),
        }),
    ensures
        strictly_by_frame(new_kfs),
        new_kfs.len() == old_kfs.len() + (if first_at(old_kfs, kf.frame) is Some { 0int } else { 1 }),
        forall|j: int| 0 <= j < old_kfs.len() && old_kfs[j].frame != kf.frame ==> new_kfs.contains(#[trigger] old_kfs[j]),
        forall|j: int| 0 <= j < new_kfs.len() && new_kfs[j].frame != kf.frame ==> old_kfs.contains(#[trigger] new_kfs[j]),
{
    let f = kf.frame;
    lemma_first_at(old_kfs, f);
    match first_at(old_kfs, f) {
        Some(i) => {
            lemma_keeps_replacing(old_kfs, kf, i);
        },
        None => {
            assert(sorted_by_frame(old_kfs));
            lemma_set_new(old_kfs, kf);
            let p = insertion_point(old_kfs, f);
            lemma_insertion_point_bounds(old_kfs, f);
            lemma_insertion_point_sorted(old_kfs, f);
            lemma_keeps_inserting(old_kfs, kf, p);
        },
    }
}

} // verus!
