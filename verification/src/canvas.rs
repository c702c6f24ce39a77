//! Canvases built from named, stacked layers, each of which may hold animation frames.

use vstd::prelude::*;
use crate::draw::{layer_ok, filled, fillrect, fillrect_with_alpha};
use crate::paint::channel;
use crate::error::{Error, error_text, push_str};
use crate::layer::{Layer, LayerView, AnimationControl, NextBlend, NextDispose, new_layer, fresh_layer, image_sized,
    blitted, blit_short};
use crate::pen::{Pen, PenView};

verus! {

/// A layer with animation frames: frame 0 is the layer itself, later frames come from an
/// animated image. `layer` is the scratch layer the frames are combined on.
pub struct AnimationLayer {
    pub x: i32,
    pub y: i32,
    layer: Layer,
    layers: Vec<Layer>,
    frame_no: usize,
    enable: bool,
}

/// What an animated layer holds.
pub struct AnimView {
    pub x: i32,
    pub y: i32,
    pub scratch: LayerView,
    pub frames: Seq<LayerView>,
    pub frame_no: int,
    pub enable: bool,
}

impl View for AnimationLayer {
    type V = AnimView;

    closed spec fn view(&self) -> AnimView {
        AnimView {
            x: self.x,
            y: self.y,
            scratch: self.layer@,
            frames: self.layers@.map_values(|l: Layer| l@),
            frame_no: self.frame_no as int,
            enable: self.enable,
        }
    }
}

/// The animated layer has a frame and shows one of its frames.
pub open spec fn anim_ok(a: AnimView) -> bool {
    a.frames.len() >= 1 && 0 <= a.frame_no < a.frames.len()
}

/// `l` with its enable flag set to `e`.
pub open spec fn with_enable(l: LayerView, e: bool) -> LayerView {
    LayerView { enable: e, ..l }
}

/// The frames after frame `n` is left: a frame to be replaced by the previous one is hidden;
/// one to be cleared to the background hides every frame before it.
pub open spec fn dispose_frames(f: Seq<LayerView>, n: int) -> Seq<LayerView> {
    match f[n].control {
        Some(c) => match c.dispose_option {
            Some(NextDispose::Previous) => f.update(n, with_enable(f[n], false)),
            Some(NextDispose::Background) => Seq::new(
                f.len(),
                |i: int| if i < n { with_enable(f[i], false) } else { f[i] },
            ),
            _ => f,
        },
        None => f,
    }
}

/// The frames back at the start: only frame 0 shown.
pub open spec fn reset_frames(f: Seq<LayerView>) -> Seq<LayerView> {
    Seq::new(f.len(), |i: int| with_enable(f[i], i == 0))
}

impl AnimationLayer {
    /// A layer named `label` of one transparent black `width` by `height` frame.
    pub fn new(label: String, width: u32, height: u32) -> (a: Self)
        ensures
            a@ == (AnimView {
                x: 0,
                y: 0,
                scratch: new_layer(label@, width, height),
                frames: seq![new_layer(label@, width, height)],
                frame_no: 0,
                enable: true,
            }),
    {
        let first = Layer::new(label.clone(), width, height);
        let layers = vec![first];
        let layer = Layer::new(label.clone(), width, height);
        let a = Self { x: 0, y: 0, layer, layers, frame_no: 0, enable: true };
        assert(a@.frames =~= seq![new_layer(label@, width, height)]);
        a
    }

    /// Sets the frame number as the engine always has: a number no greater than the frame count
    /// goes back to frame 0, a larger one is kept.
    pub fn set_frame_no(&mut self, no: usize) -> (r: usize)
        ensures
            r == (if old(self)@.frames.len() >= no { 0 } else { no }),
            final(self)@ == (AnimView { frame_no: r as int, ..old(self)@ }),
    {
        if self.layers.len() >= no {
            self.frame_no = 0;
        } else {
            self.frame_no = no;
        }
        self.frame_no
    }

    /// The frame shown.
    pub fn layer(&mut self) -> (l: &Layer)
        requires
            anim_ok(old(self)@),
        ensures
            l@ == old(self)@.frames[old(self)@.frame_no],
            final(self)@ == old(self)@,
    {
        &self.layers[self.frame_no]
    }

    /// The frame shown, to change.
    pub fn layer_mut(&mut self) -> (l: &mut Layer)
        requires
            anim_ok(old(self)@),
        ensures
            l@ == old(self)@.frames[old(self)@.frame_no],
            final(self)@ == (AnimView {
                frames: old(self)@.frames.update(old(self)@.frame_no, final(l)@),
                ..old(self)@
            }),
    {
        let n = self.frame_no;
        let r = &mut self.layers[n];
        proof {
            assert(old(self).layers@.update(n as int, *final(r)).map_values(|l: Layer| l@) =~= old(self)@.frames.update(
                n as int,
                final(r)@,
            ));
        }
        r
    }

    /// The first frame: the layer itself.
    pub(crate) fn base(&self) -> (l: &Layer)
        requires
            self@.frames.len() >= 1,
        ensures
            l@ == self@.frames[0],
    {
        &self.layers[0]
    }

    /// The first frame, to change.
    pub(crate) fn base_mut(&mut self) -> (l: &mut Layer)
        requires
            old(self)@.frames.len() >= 1,
        ensures
            l@ == old(self)@.frames[0],
            final(self)@ == (AnimView { frames: old(self)@.frames.update(0, final(l)@), ..old(self)@ }),
    {
        let r = &mut self.layers[0];
        proof {
            assert(old(self).layers@.update(0, *final(r)).map_values(|l: Layer| l@) =~= old(self)@.frames.update(
                0,
                final(r)@,
            ));
        }
        r
    }

    /// The frame shown, read only.
    pub(crate) fn shown(&self) -> (l: &Layer)
        requires
            anim_ok(self@),
        ensures
            l@ == self@.frames[self@.frame_no],
    {
        &self.layers[self.frame_no]
    }

    /// Frame `no`.
    pub(crate) fn frame_at(&self, no: usize) -> (l: &Layer)
        requires
            no < self@.frames.len(),
        ensures
            l@ == self@.frames[no as int],
    {
        &self.layers[no]
    }

    /// The number of frames.
    pub(crate) fn frame_count(&self) -> (n: usize)
        ensures
            n == self@.frames.len(),
    {
        self.layers.len()
    }

    /// The number of the frame shown.
    pub(crate) fn frame_number(&self) -> (n: usize)
        ensures
            n == self@.frame_no,
    {
        self.frame_no
    }

    /// How long the frame shown waits before the next: its control's time, 0 without one.
    pub fn wait(&mut self) -> (t: u64)
        requires
            anim_ok(old(self)@),
        ensures
            t == match old(self)@.frames[old(self)@.frame_no].control {
                Some(c) => c.await_time,
                None => 0,
            },
            final(self)@ == old(self)@,
    {
        if let Some(control) = self.layers[self.frame_no].control() {
            control.await_time
        } else {
            0
        }
    }

    /// Moves to the next frame: the frame left is disposed as its control says, and after the
    /// last frame the animation starts again from frame 0; the frame now shown is enabled.
    /// Returns its number.
    pub fn next(&mut self) -> (r: usize)
        requires
            anim_ok(old(self)@),
        ensures
            ({
                let a = old(self)@;
                let d = dispose_frames(a.frames, a.frame_no);
                &&& r == if a.frame_no + 1 < a.frames.len() { a.frame_no + 1 } else { 0 }
                &&& final(self)@ == AnimView {
                    frames: if a.frame_no + 1 < a.frames.len() {
                        d.update(a.frame_no + 1, with_enable(d[a.frame_no + 1], true))
                    } else {
                        reset_frames(d)
                    },
                    frame_no: r as int,
                    ..a
                }
            }),
    {
        let ghost a = self@;
        let n = self.frame_no;
        if let Some(control) = self.layers[n].control() {
            if let Some(dispose) = control.dispose_option {
                match dispose {
                    NextDispose::Previous => {
                        self.layers[n].set_disable();
                    },
                    NextDispose::Background => {
                        let mut i: usize = 0;
                        while i < n
                            invariant
                                i <= n,
                                n == a.frame_no,
                                anim_ok(a),
                                self.layers@.len() == a.frames.len(),
                                self.frame_no == n,
                                self.x == a.x && self.y == a.y && self.enable == a.enable,
                                self.layer@ == a.scratch,
                                forall|j: int|
                                    0 <= j < a.frames.len() ==> (#[trigger] self.layers@[j])@ == if j < i {
                                        with_enable(a.frames[j], false)
                                    } else {
                                        a.frames[j]
                                    },
                            decreases n - i,
                        {
                            self.layers[i].set_disable();
                            i = i + 1;
                        }
                    },
                    _ => {},
                }
            }
        }
        proof {
            assert(self@.frames =~= dispose_frames(a.frames, a.frame_no));
            assert(self.layers@.len() == self@.frames.len());
        }
        let len = self.layers.len();
        assert(self.frame_no == a.frame_no && a.frame_no < len);
        self.frame_no = self.frame_no + 1;
        if self.frame_no >= self.layers.len() {
            self.reset();
        }
        let m = self.frame_no;
        assert(self.layers@.len() == self@.frames.len());
        self.layers[m].set_enable();
        proof {
            let d = dispose_frames(a.frames, a.frame_no);
            if a.frame_no + 1 < a.frames.len() {
                assert(self@.frames =~= d.update(a.frame_no + 1, with_enable(d[a.frame_no + 1], true)));
            } else {
                assert(self@.frames =~= reset_frames(d));
            }
        }
        self.frame_no
    }

    /// Back to frame 0: every later frame hidden, frame 0 shown.
    pub fn reset(&mut self)
        requires
            old(self)@.frames.len() >= 1,
        ensures
            final(self)@ == (AnimView { frames: reset_frames(old(self)@.frames), frame_no: 0, ..old(self)@ }),
    {
        let ghost a = self@;
        let len = self.layers.len();
        let mut i: usize = 1;
        while i < len
            invariant
                1 <= i <= len,
                len == a.frames.len(),
                self.layers@.len() == len,
                self.x == a.x && self.y == a.y && self.enable == a.enable && self.frame_no == a.frame_no,
                self.layer@ == a.scratch,
                forall|j: int|
                    0 <= j < len ==> (#[trigger] self.layers@[j])@ == if 1 <= j < i {
                        with_enable(a.frames[j], false)
                    } else {
                        a.frames[j]
                    },
            decreases len - i,
        {
            self.layers[i].set_disable();
            i = i + 1;
        }
        self.frame_no = 0;
        self.layers[0].set_enable();
        assert(self@.frames =~= reset_frames(a.frames));
    }

    /// Drops every frame but the first and shows it.
    pub fn truncate(&mut self)
        ensures
            final(self)@ == (AnimView {
                frames: old(self)@.frames.subrange(0, if old(self)@.frames.len() >= 1 { 1 } else { 0 }),
                frame_no: 0,
                ..old(self)@
            }),
    {
        self.frame_no = 0;
        self.layers.truncate(1);
        proof {
            let k: int = if self.layers@.len() >= 1 { 1 } else { 0 };
            assert(self@.frames =~= old(self)@.frames.subrange(0, k));
        }
    }

    /// Adds a hidden `width` by `height` frame placed at `(start_x, start_y)` and makes it the
    /// current frame.
    pub fn add_frame(&mut self, label: String, width: u32, height: u32, start_x: i32, start_y: i32)
        ensures
            final(self)@ == (AnimView {
                frames: old(self)@.frames.push(LayerView {
                    x: start_x,
                    y: start_y,
                    enable: false,
                    ..new_layer(label@, width, height)
                }),
                frame_no: old(self)@.frames.len() as int,
                ..old(self)@
            }),
    {
        let mut layer = Layer::new(label, width, height);
        layer.set_pos(start_x, start_y);
        layer.set_disable();
        self.frame_no = self.layers.len();
        self.layers.push(layer);
        assert(self@.frames =~= old(self)@.frames.push(layer@));
    }

    /// The stacking level of the first frame.
    pub fn z_index(&self) -> (z: i32)
        requires
            self@.frames.len() >= 1,
        ensures
            z == self@.frames[0].z_index,
    {
        self.layers[0].level()
    }

    pub fn set_z_index(&mut self, z_index: i32)
        requires
            old(self)@.frames.len() >= 1,
        ensures
            final(self)@ == (AnimView {
                frames: old(self)@.frames.update(0, LayerView { z_index, ..old(self)@.frames[0] }),
                ..old(self)@
            }),
    {
        self.layers[0].set_z_index(z_index);
        assert(self@.frames =~= old(self)@.frames.update(0, LayerView { z_index, ..old(self)@.frames[0] }));
    }

    pub fn set_enable(&mut self)
        ensures
            final(self)@ == (AnimView { enable: true, ..old(self)@ }),
    {
        self.enable = true;
    }

    pub fn set_disable(&mut self)
        ensures
            final(self)@ == (AnimView { enable: false, ..old(self)@ }),
    {
        self.enable = false;
    }

    pub fn enable(&self) -> (e: bool)
        ensures
            e == self@.enable,
    {
        self.enable
    }
}

/// Named animated layers, and their names in stacking order.
pub struct PackedLayers {
    keys: Vec<String>,
    layers: Vec<AnimationLayer>,
    sorted: Vec<String>,
}

/// What a set of named layers holds: the names, the layer under each name, and the order
/// they are stacked in.
pub struct PackedView {
    pub keys: Seq<Seq<char>>,
    pub anims: Seq<AnimView>,
    pub sorted: Seq<Seq<char>>,
}

impl View for PackedLayers {
    type V = PackedView;

    closed spec fn view(&self) -> PackedView {
        PackedView {
            keys: self.keys@.map_values(|k: String| k@),
            anims: self.layers@.map_values(|a: AnimationLayer| a@),
            sorted: self.sorted@.map_values(|k: String| k@),
        }
    }
}

/// The stacking level of an animated layer: that of its first frame.
pub open spec fn level(a: AnimView) -> i32 {
    a.frames[0].z_index
}

/// `perm` lists each of `0..n` once.
pub open spec fn is_perm(perm: Seq<int>, n: int) -> bool {
    &&& perm.len() == n
    &&& forall|k: int| 0 <= k < n ==> 0 <= #[trigger] perm[k] < n
    &&& forall|a: int, b: int| 0 <= a < b < n ==> #[trigger] perm[a] != #[trigger] perm[b]
}

/// The order names every layer once, in the order `perm`.
pub open spec fn order_by(v: PackedView, perm: Seq<int>) -> bool {
    &&& is_perm(perm, v.keys.len() as int)
    &&& v.sorted.len() == v.keys.len()
    &&& forall|k: int| 0 <= k < v.sorted.len() ==> #[trigger] v.sorted[k] == v.keys[perm[k]]
}

/// The names are as many as the layers and none is used twice, every layer shows one of its
/// frames, and the order names every layer once.
pub open spec fn packed_ok(v: PackedView) -> bool {
    &&& v.keys.len() == v.anims.len()
    &&& forall|a: int, b: int| 0 <= a < b < v.keys.len() ==> #[trigger] v.keys[a] != #[trigger] v.keys[b]
    &&& forall|i: int| 0 <= i < v.anims.len() ==> anim_ok(#[trigger] v.anims[i])
    &&& exists|perm: Seq<int>| order_by(v, perm)
}

/// The order goes by stacking level, lowest first.
pub open spec fn in_level_order(v: PackedView) -> bool {
    exists|perm: Seq<int>|
        order_by(v, perm) && forall|a: int, b: int|
            0 <= a < b < v.keys.len() ==> level(v.anims[#[trigger] perm[a]]) <= level(v.anims[#[trigger] perm[b]])
}

/// A layer goes by the name `label`.
pub open spec fn has_layer(v: PackedView, label: Seq<char>) -> bool {
    exists|i: int| 0 <= i < v.keys.len() && v.keys[i] == label
}

/// The position of the layer named `label`.
pub open spec fn index_of(v: PackedView, label: Seq<char>) -> int {
    choose|i: int| 0 <= i < v.keys.len() && v.keys[i] == label
}

/// `a` with its first frame made transparent black.
pub open spec fn cleared_first(a: AnimView) -> AnimView {
    AnimView { frames: a.frames.update(0, filled(a.frames[0], 0, 0, 0, 0)), ..a }
}

/// The layer named `label`.
pub open spec fn anim_of(v: PackedView, label: Seq<char>) -> AnimView {
    v.anims[index_of(v, label)]
}

/// The layers with the one named `label` replaced by `a`.
pub open spec fn with_anim(v: PackedView, label: Seq<char>, a: AnimView) -> PackedView {
    PackedView { anims: v.anims.update(index_of(v, label), a), ..v }
}

proof fn lemma_index_of(v: PackedView, label: Seq<char>, i: int)
    requires
        packed_ok(v),
        0 <= i < v.keys.len(),
        v.keys[i] == label,
    ensures
        has_layer(v, label),
        index_of(v, label) == i,
{
    let j = index_of(v, label);
    if j < i {
        assert(v.keys[j] != v.keys[i]);
    } else if i < j {
        assert(v.keys[i] != v.keys[j]);
    }
}

/// Replacing the layer named `label` twice keeps only the second replacement.
proof fn lemma_with_anim_twice(v: PackedView, label: Seq<char>, a1: AnimView, a2: AnimView)
    requires
        packed_ok(v),
        has_layer(v, label),
    ensures
        index_of(with_anim(v, label, a1), label) == index_of(v, label),
        with_anim(with_anim(v, label, a1), label, a2) == with_anim(v, label, a2),
        anim_of(with_anim(v, label, a1), label) == a1,
{
    let i = index_of(v, label);
    let w = with_anim(v, label, a1);
    assert(w.keys == v.keys);
    assert(w.keys[i] == label);
    let j = index_of(w, label);
    if j != i {
        assert(w.keys[j] == label);
        if j < i {
            assert(v.keys[j] != v.keys[i]);
        } else {
            assert(v.keys[i] != v.keys[j]);
        }
    }
    assert(w.anims.update(i, a2) =~= v.anims.update(i, a2));
}

/// Changing one layer, keeping it showing one of its frames, keeps the set well formed.
proof fn lemma_packed_update(v: PackedView, i: int, a: AnimView)
    requires
        packed_ok(v),
        0 <= i < v.anims.len(),
        anim_ok(a),
    ensures
        packed_ok(PackedView { anims: v.anims.update(i, a), ..v }),
{
    let w = PackedView { anims: v.anims.update(i, a), ..v };
    let perm = choose|perm: Seq<int>| order_by(v, perm);
    assert(order_by(w, perm));
}

impl PackedLayers {
    pub fn new() -> (p: Self)
        ensures
            p@ == (PackedView { keys: seq![], anims: seq![], sorted: seq![] }),
            packed_ok(p@),
            in_level_order(p@),
    {
        let p = Self { keys: Vec::new(), layers: Vec::new(), sorted: Vec::new() };
        assert(p@.keys =~= seq![]);
        assert(p@.anims =~= seq![]);
        assert(p@.sorted =~= seq![]);
        assert(order_by(p@, seq![]));
        p
    }

    /// The position of the layer named `label`.
    fn find(&self, label: &String) -> (r: Option<usize>)
        requires
            packed_ok(self@),
        ensures
            r matches Some(i) ==> i < self@.keys.len() && self@.keys[i as int] == label@ && index_of(self@, label@)
                == i,
            r is Some <==> has_layer(self@, label@),
    {
        let mut i: usize = 0;
        while i < self.keys.len()
            invariant
                packed_ok(self@),
                i <= self@.keys.len(),
                self.keys@.len() == self@.keys.len(),
                forall|j: int| 0 <= j < i ==> self@.keys[j] != label@,
            decreases self@.keys.len() - i,
        {
            if self.keys[i] == *label {
                proof {
                    lemma_index_of(self@, label@, i as int);
                }
                return Some(i);
            }
            i = i + 1;
        }
        None
    }

    /// Puts the names in stacking order, lowest level first; layers of one level keep the order
    /// they are stored in.
    fn sort(&mut self)
        requires
            old(self)@.keys.len() == old(self)@.anims.len(),
            forall|a: int, b: int| 0 <= a < b < old(self)@.keys.len() ==> #[trigger] old(self)@.keys[a] != #[trigger] old(self)@.keys[b],
            forall|i: int| 0 <= i < old(self)@.anims.len() ==> anim_ok(#[trigger] old(self)@.anims[i]),
        ensures
            final(self)@.keys == old(self)@.keys,
            final(self)@.anims == old(self)@.anims,
            packed_ok(final(self)@),
            in_level_order(final(self)@),
    {
        let ghost v = self@;
        let n = self.layers.len();
        let mut order: Vec<usize> = Vec::new();
        assert forall|j: int| 0 <= j < n implies anim_ok((#[trigger] self.layers@[j])@) by {
            assert(v.anims[j] == self.layers@[j]@);
        }
        let mut i: usize = 0;
        while i < n
            invariant
                self@ == v,
                n == v.anims.len(),
                v.keys.len() == v.anims.len(),
                self.layers@.len() == n,
                forall|j: int| 0 <= j < v.anims.len() ==> anim_ok(#[trigger] v.anims[j]),
                forall|j: int| 0 <= j < n ==> anim_ok((#[trigger] self.layers@[j])@),
                forall|j: int| 0 <= j < n ==> (#[trigger] self.layers@[j])@ == v.anims[j],
                i <= n,
                order@.len() == i,
                forall|k: int| 0 <= k < i ==> #[trigger] order@[k] < i,
                forall|a: int, b: int| 0 <= a < b < i ==> #[trigger] order@[a] != #[trigger] order@[b],
                forall|a: int, b: int|
                    0 <= a < b < i ==> level(v.anims[#[trigger] order@[a] as int]) <= level(v.anims[#[trigger] order@[b] as int]),
            decreases n - i,
        {
            let z = self.layers[i].z_index();
            let mut p: usize = 0;
            while p < order.len() && self.layers[order[p]].z_index() <= z
                invariant
                    self@ == v,
                    n == v.anims.len(),
                    self.layers@.len() == n,
                    forall|j: int| 0 <= j < v.anims.len() ==> anim_ok(#[trigger] v.anims[j]),
                    forall|j: int| 0 <= j < n ==> anim_ok((#[trigger] self.layers@[j])@),
                    forall|j: int| 0 <= j < n ==> (#[trigger] self.layers@[j])@ == v.anims[j],
                    i < n,
                    z == level(v.anims[i as int]),
                    order@.len() == i,
                    forall|k: int| 0 <= k < i ==> #[trigger] order@[k] < i,
                    p <= order@.len(),
                    forall|k: int| 0 <= k < p ==> level(v.anims[#[trigger] order@[k] as int]) <= z,
                decreases order@.len() - p,
            {
                p = p + 1;
            }
            let ghost before = order@;
            proof {
                if p < before.len() {
                    assert forall|k: int| p <= k < before.len() implies level(v.anims[#[trigger] before[k] as int]) > z by {
                        if k > p {
                            assert(level(v.anims[before[p as int] as int]) <= level(v.anims[before[k] as int]));
                        }
                    }
                }
            }
            order.insert(p, i);
            proof {
                let after = order@;
                assert(after == before.insert(p as int, i));
                assert forall|k: int| 0 <= k < i + 1 implies #[trigger] after[k] < i + 1 by {
                    if k < p {
                        assert(after[k] == before[k]);
                    } else if k > p {
                        assert(after[k] == before[k - 1]);
                    }
                }
                assert forall|a: int, b: int| 0 <= a < b < i + 1 implies #[trigger] after[a] != #[trigger] after[b] by {
                    if a < p && b < p {
                        assert(after[a] == before[a] && after[b] == before[b]);
                    } else if a < p && b == p {
                        assert(after[a] == before[a]);
                    } else if a < p {
                        assert(after[a] == before[a] && after[b] == before[b - 1]);
                    } else if a == p {
                        assert(after[b] == before[b - 1]);
                    } else {
                        assert(after[a] == before[a - 1] && after[b] == before[b - 1]);
                    }
                }
                assert forall|a: int, b: int|
                    0 <= a < b < i + 1 implies level(v.anims[#[trigger] after[a] as int]) <= level(
                    v.anims[#[trigger] after[b] as int],
                ) by {
                    if a < p && b < p {
                        assert(after[a] == before[a] && after[b] == before[b]);
                    } else if a < p && b == p {
                        assert(after[a] == before[a]);
                    } else if a < p {
                        assert(after[a] == before[a] && after[b] == before[b - 1]);
                        assert(level(v.anims[before[a] as int]) <= level(v.anims[before[b - 1] as int]));
                    } else if a == p {
                        assert(after[b] == before[b - 1]);
                    } else {
                        assert(after[a] == before[a - 1] && after[b] == before[b - 1]);
                        assert(level(v.anims[before[a - 1] as int]) <= level(v.anims[before[b - 1] as int]));
                    }
                }
            }
            i = i + 1;
        }
        let mut sorted: Vec<String> = Vec::new();
        let mut k: usize = 0;
        while k < n
            invariant
                self@ == v,
                n == v.keys.len(),
                self.keys@.len() == n,
                order@.len() == n,
                forall|j: int| 0 <= j < n ==> #[trigger] order@[j] < n,
                k <= n,
                sorted@.len() == k,
                forall|j: int| 0 <= j < k ==> (#[trigger] sorted@[j])@ == v.keys[order@[j] as int],
            decreases n - k,
        {
            let o = order[k];
            sorted.push(self.keys[o].clone());
            k = k + 1;
        }
        self.sorted = sorted;
        proof {
            let perm = order@.map_values(|u: usize| u as int);
            assert(order_by(self@, perm));
            assert(forall|a: int, b: int|
                0 <= a < b < self@.keys.len() ==> level(self@.anims[#[trigger] perm[a]]) <= level(self@.anims[#[trigger] perm[b]]));
            assert(self@.keys == v.keys);
            assert(self@.anims == v.anims);
        }
    }

    /// The first frame of the layer named `label`, to change.
    pub fn get_mut(&mut self, label: String) -> (r: Option<&mut Layer>)
        requires
            packed_ok(old(self)@),
        ensures
            r is Some <==> has_layer(old(self)@, label@),
            r is None ==> final(self)@ == old(self)@,
            r matches Some(l) ==> ({
                let a = old(self)@.anims[index_of(old(self)@, label@)];
                &&& l@ == a.frames[0]
                &&& final(self)@ == with_anim(old(self)@, label@, AnimView { frames: a.frames.update(0, final(l)@), ..a })
            }),
    {
        match self.find(&label) {
            Some(i) => {
                let a = &mut self.layers[i];
                proof {
                    assert(old(self).layers@.update(i as int, *final(a)).map_values(|a: AnimationLayer| a@) =~= old(self)@.anims.update(
                        i as int,
                        final(a)@,
                    ));
                }
                let l = a.base_mut();
                Some(l)
            },
            None => None,
        }
    }

    /// Sets the stacking level of the layer named `label` and puts the names back in stacking
    /// order.
    pub fn set_z_index(&mut self, label: String, z_index: i32) -> (r: Result<(), Error>)
        requires
            packed_ok(old(self)@),
        ensures
            packed_ok(final(self)@),
            r is Ok <==> has_layer(old(self)@, label@),
            r matches Err(e) ==> e.message@ == "No exist Layer"@ && final(self)@ == old(self)@,
            r is Ok ==> ({
                let a = anim_of(old(self)@, label@);
                &&& final(self)@.keys == old(self)@.keys
                &&& final(self)@.anims == with_anim(old(self)@, label@, AnimView {
                    frames: a.frames.update(0, LayerView { z_index, ..a.frames[0] }),
                    ..a
                }).anims
                &&& in_level_order(final(self)@)
            }),
    {
        match self.find(&label) {
            Some(i) => {
                let ghost v = self@;
                let a = &mut self.layers[i];
                proof {
                    assert(old(self).layers@.update(i as int, *final(a)).map_values(|a: AnimationLayer| a@)
                        =~= old(self)@.anims.update(i as int, final(a)@));
                }
                a.set_z_index(z_index);
                proof {
                    let b = v.anims[i as int];
                    lemma_packed_update(v, i as int, AnimView { frames: b.frames.update(0, LayerView { z_index, ..b.frames[0] }), ..b });
                }
                self.sort();
                Ok(())
            },
            None => Err(error_text("No exist Layer")),
        }
    }

    /// Adds a transparent black `width` by `height` layer named `label` at `(x, y)`, stacked
    /// at the level of the number of layers there were; a name already in use is refused.
    pub fn add(&mut self, label: String, width: u32, height: u32, x: i32, y: i32) -> (r: Result<(), Error>)
        requires
            packed_ok(old(self)@),
        ensures
            packed_ok(final(self)@),
            r is Ok <==> !has_layer(old(self)@, label@),
            r matches Err(e) ==> e.message@ == "Exist Layer name"@ && final(self)@ == old(self)@,
            r is Ok ==> ({
                let first = new_layer(label@, width, height);
                &&& final(self)@.keys == old(self)@.keys.push(label@)
                &&& final(self)@.anims == old(self)@.anims.push(AnimView {
                    x,
                    y,
                    scratch: first,
                    frames: seq![LayerView { z_index: old(self)@.keys.len() as i32, ..first }],
                    frame_no: 0,
                    enable: true,
                })
                &&& in_level_order(final(self)@)
            }),
    {
        if self.find(&label).is_some() {
            return Err(error_text("Exist Layer name"));
        }
        let ghost v = self@;
        let mut layer = AnimationLayer::new(label.clone(), width, height);
        #[verifier::truncate]
        let level = self.layers.len() as i32;
        layer.set_z_index(level);
        layer.x = x;
        layer.y = y;
        let ghost fresh = layer@;
        self.keys.push(label.clone());
        self.layers.push(layer);
        self.sorted.push(label);
        proof {
            assert(self@.keys =~= v.keys.push(label@));
            assert(self@.anims =~= v.anims.push(fresh));
            assert forall|a: int, b: int| 0 <= a < b < self@.keys.len() implies #[trigger] self@.keys[a]
                != #[trigger] self@.keys[b] by {
                if b == v.keys.len() {
                    assert(self@.keys[a] == v.keys[a]);
                }
            }
            assert(fresh.frames =~= seq![LayerView { z_index: level, ..new_layer(label@, width, height) }]);
        }
        self.sort();
        Ok(())
    }

    /// Adds a hidden frame to the layer named `label`, placed at `(x, y)`, and shows it.
    pub fn add_frame(&mut self, label: String, width: u32, height: u32, x: i32, y: i32) -> (r: Result<(), Error>)
        requires
            packed_ok(old(self)@),
        ensures
            packed_ok(final(self)@),
            r is Ok <==> has_layer(old(self)@, label@),
            r matches Err(e) ==> e.message@ == "Layer is none"@ && final(self)@ == old(self)@,
            r is Ok ==> ({
                let a = anim_of(old(self)@, label@);
                final(self)@ == with_anim(old(self)@, label@, AnimView {
                    frames: a.frames.push(LayerView { x, y, enable: false, ..new_layer(label@, width, height) }),
                    frame_no: a.frames.len() as int,
                    ..a
                })
            }),
    {
        match self.find(&label) {
            Some(i) => {
                let ghost v = self@;
                let ghost name = label@;
                let a = &mut self.layers[i];
                proof {
                    assert(old(self).layers@.update(i as int, *final(a)).map_values(|a: AnimationLayer| a@)
                        =~= old(self)@.anims.update(i as int, final(a)@));
                }
                a.add_frame(label, width, height, x, y);
                proof {
                    let b = v.anims[i as int];
                    lemma_packed_update(v, i as int, AnimView {
                        frames: b.frames.push(LayerView { x, y, enable: false, ..new_layer(name, width, height) }),
                        frame_no: b.frames.len() as int,
                        ..b
                    });
                }
                Ok(())
            },
            None => Err(error_text("Layer is none")),
        }
    }

    /// The number of the last frame of the layer named `label`.
    pub fn frame_last_no(&mut self, label: String) -> (r: Option<usize>)
        requires
            packed_ok(old(self)@),
        ensures
            final(self)@ == old(self)@,
            r is Some <==> has_layer(old(self)@, label@),
            r matches Some(n) ==> n == anim_of(old(self)@, label@).frames.len() - 1,
    {
        match self.find(&label) {
            Some(i) => {
                let n = self.layers[i].frame_count();
                assert(self@.anims[i as int] == self.layers@[i as int]@);
                Some(n - 1)
            },
            None => None,
        }
    }

    /// The first frame of the layer named `label`.
    pub fn get(&self, label: String) -> (r: Option<&Layer>)
        requires
            packed_ok(self@),
        ensures
            r is Some <==> has_layer(self@, label@),
            r matches Some(l) ==> l@ == anim_of(self@, label@).frames[0],
    {
        match self.find(&label) {
            Some(i) => {
                assert(self@.anims[i as int] == self.layers@[i as int]@);
                Some(self.layers[i].base())
            },
            None => None,
        }
    }

    /// The frame shown of the layer named `label`.
    pub fn get_frame(&mut self, label: String) -> (r: Option<&Layer>)
        requires
            packed_ok(old(self)@),
        ensures
            final(self)@ == old(self)@,
            r is Some <==> has_layer(old(self)@, label@),
            r matches Some(l) ==> l@ == anim_of(old(self)@, label@).frames[anim_of(old(self)@, label@).frame_no],
    {
        match self.find(&label) {
            Some(i) => {
                assert(self@.anims[i as int] == self.layers@[i as int]@);
                Some(self.layers[i].shown())
            },
            None => None,
        }
    }

    /// The frame shown of the layer named `label`, to change.
    pub fn get_frame_mut(&mut self, label: String) -> (r: Option<&mut Layer>)
        requires
            packed_ok(old(self)@),
        ensures
            r is Some <==> has_layer(old(self)@, label@),
            r is None ==> final(self)@ == old(self)@,
            r matches Some(l) ==> ({
                let a = anim_of(old(self)@, label@);
                &&& l@ == a.frames[a.frame_no]
                &&& final(self)@ == with_anim(old(self)@, label@, AnimView {
                    frames: a.frames.update(a.frame_no, final(l)@),
                    ..a
                })
            }),
    {
        match self.find(&label) {
            Some(i) => {
                let a = &mut self.layers[i];
                proof {
                    assert(old(self).layers@.update(i as int, *final(a)).map_values(|a: AnimationLayer| a@)
                        =~= old(self)@.anims.update(i as int, final(a)@));
                }
                let l = a.layer_mut();
                Some(l)
            },
            None => None,
        }
    }

    /// The number of frames of the layer named `label`.
    pub fn frames_len(&self, label: String) -> (r: Option<usize>)
        requires
            packed_ok(self@),
        ensures
            r is Some <==> has_layer(self@, label@),
            r matches Some(n) ==> n == anim_of(self@, label@).frames.len(),
    {
        match self.find(&label) {
            Some(i) => {
                assert(self@.anims[i as int] == self.layers@[i as int]@);
                Some(self.layers[i].frame_count())
            },
            None => None,
        }
    }

    /// Frame `no` of the layer named `label`.
    pub fn frame_at(&self, label: String, no: usize) -> (r: Option<&Layer>)
        requires
            packed_ok(self@),
        ensures
            r is Some <==> has_layer(self@, label@) && no < anim_of(self@, label@).frames.len(),
            r matches Some(l) ==> l@ == anim_of(self@, label@).frames[no as int],
    {
        match self.find(&label) {
            Some(i) => {
                assert(self@.anims[i as int] == self.layers@[i as int]@);
                if no < self.layers[i].frame_count() {
                    Some(self.layers[i].frame_at(no))
                } else {
                    None
                }
            },
            None => None,
        }
    }

    /// The names in stacking order.
    pub fn sorted(&self) -> (r: &Vec<String>)
        ensures
            r@.map_values(|k: String| k@) == self@.sorted,
    {
        &self.sorted
    }

    /// The number of layers.
    pub fn len(&self) -> (n: usize)
        requires
            packed_ok(self@),
        ensures
            n == self@.keys.len(),
    {
        self.layers.len()
    }

    /// Drops every frame but the first of the layer named `label`.
    pub fn truncate(&mut self, label: String)
        requires
            packed_ok(old(self)@),
        ensures
            packed_ok(final(self)@),
            !has_layer(old(self)@, label@) ==> final(self)@ == old(self)@,
            has_layer(old(self)@, label@) ==> ({
                let a = anim_of(old(self)@, label@);
                final(self)@ == with_anim(old(self)@, label@, AnimView { frames: a.frames.subrange(0, 1), frame_no: 0, ..a })
            }),
    {
        match self.find(&label) {
            Some(i) => {
                let ghost v = self@;
                let a = &mut self.layers[i];
                proof {
                    assert(old(self).layers@.update(i as int, *final(a)).map_values(|a: AnimationLayer| a@)
                        =~= old(self)@.anims.update(i as int, final(a)@));
                }
                a.truncate();
                proof {
                    let b = v.anims[i as int];
                    lemma_packed_update(v, i as int, AnimView { frames: b.frames.subrange(0, 1), frame_no: 0, ..b });
                }
            },
            None => {},
        }
    }

    /// Makes the first frame of every layer transparent black.
    pub fn clear(&mut self)
        requires
            packed_ok(old(self)@),
            forall|i: int| 0 <= i < old(self)@.anims.len() ==> layer_ok(#[trigger] old(self)@.anims[i].frames[0]),
        ensures
            packed_ok(final(self)@),
            final(self)@.keys == old(self)@.keys,
            final(self)@.sorted == old(self)@.sorted,
            final(self)@.anims.len() == old(self)@.anims.len(),
            forall|i: int| 0 <= i < old(self)@.anims.len() ==> #[trigger] final(self)@.anims[i] == cleared_first(old(self)@.anims[i]),
    {
        let ghost v = self@;
        let n = self.layers.len();
        let mut i: usize = 0;
        while i < n
            invariant
                packed_ok(v),
                forall|j: int| 0 <= j < v.anims.len() ==> layer_ok(#[trigger] v.anims[j].frames[0]),
                n == v.anims.len(),
                i <= n,
                packed_ok(self@),
                self@.keys == v.keys,
                self@.sorted == v.sorted,
                self@.anims.len() == n,
                forall|j: int| 0 <= j < n ==> #[trigger] self@.anims[j] == if j < i { cleared_first(v.anims[j]) } else { v.anims[j] },
            decreases n - i,
        {
            let ghost w = self@;
            let ghost ls = self.layers@;
            let a = &mut self.layers[i];
            proof {
                assert(ls.update(i as int, *final(a)).map_values(|a: AnimationLayer| a@) =~= w.anims.update(
                    i as int,
                    final(a)@,
                ));
                assert(w.anims[i as int] == v.anims[i as int]);
            }
            let l = a.base_mut();
            l.clear();
            proof {
                let nb = cleared_first(v.anims[i as int]);
                lemma_packed_update(w, i as int, nb);
                assert(self@.anims =~= w.anims.update(i as int, nb));
            }
            i = i + 1;
        }
    }

    /// Makes the first frame of the layer named `label` transparent black.
    pub fn clear_layer(&mut self, label: String) -> (r: Result<(), Error>)
        requires
            packed_ok(old(self)@),
            has_layer(old(self)@, label@) ==> layer_ok(anim_of(old(self)@, label@).frames[0]),
        ensures
            packed_ok(final(self)@),
            r is Ok <==> has_layer(old(self)@, label@),
            r matches Err(e) ==> e.message@ == "No exist Layer name"@ && final(self)@ == old(self)@,
            r is Ok ==> final(self)@ == with_anim(old(self)@, label@, cleared_first(anim_of(old(self)@, label@))),
    {
        let ghost v = self@;
        match self.get_mut(label) {
            Some(layer) => {
                layer.clear();
                proof {
                    lemma_packed_update(v, index_of(v, label@), cleared_first(anim_of(v, label@)));
                }
                Ok(())
            },
            None => Err(error_text("No exist Layer name")),
        }
    }

    /// Shows the layer named `label`.
    pub fn set_enable(&mut self, label: String) -> (r: Result<(), Error>)
        requires
            packed_ok(old(self)@),
        ensures
            packed_ok(final(self)@),
            r is Ok <==> has_layer(old(self)@, label@),
            r matches Err(e) ==> e.message@ == "No exist Layer name"@ && final(self)@ == old(self)@,
            r is Ok ==> final(self)@ == with_anim(old(self)@, label@, AnimView {
                enable: true,
                ..anim_of(old(self)@, label@)
            }),
    {
        match self.find(&label) {
            Some(i) => {
                let ghost v = self@;
                let a = &mut self.layers[i];
                proof {
                    assert(old(self).layers@.update(i as int, *final(a)).map_values(|a: AnimationLayer| a@)
                        =~= old(self)@.anims.update(i as int, final(a)@));
                }
                a.set_enable();
                proof {
                    lemma_packed_update(v, i as int, AnimView { enable: true, ..v.anims[i as int] });
                }
                Ok(())
            },
            None => Err(error_text("No exist Layer name")),
        }
    }

    /// Hides the layer named `label`.
    pub fn set_disable(&mut self, label: String) -> (r: Result<(), Error>)
        requires
            packed_ok(old(self)@),
        ensures
            packed_ok(final(self)@),
            r is Ok <==> has_layer(old(self)@, label@),
            r matches Err(e) ==> e.message@ == "No exist Layer name"@ && final(self)@ == old(self)@,
            r is Ok ==> final(self)@ == with_anim(old(self)@, label@, AnimView {
                enable: false,
                ..anim_of(old(self)@, label@)
            }),
    {
        match self.find(&label) {
            Some(i) => {
                let ghost v = self@;
                let a = &mut self.layers[i];
                proof {
                    assert(old(self).layers@.update(i as int, *final(a)).map_values(|a: AnimationLayer| a@)
                        =~= old(self)@.anims.update(i as int, final(a)@));
                }
                a.set_disable();
                proof {
                    lemma_packed_update(v, i as int, AnimView { enable: false, ..v.anims[i as int] });
                }
                Ok(())
            },
            None => Err(error_text("No exist Layer name")),
        }
    }

    /// Whether the layer named `label` is shown.
    pub fn enable(&self, label: String) -> (r: Result<bool, Error>)
        requires
            packed_ok(self@),
        ensures
            r is Ok <==> has_layer(self@, label@),
            r matches Ok(b) ==> b == anim_of(self@, label@).enable,
            r matches Err(e) ==> e.message@ == "No exist Layer name"@,
    {
        match self.find(&label) {
            Some(i) => {
                assert(self@.anims[i as int] == self.layers@[i as int]@);
                Ok(self.layers[i].enable())
            },
            None => Err(error_text("No exist Layer name")),
        }
    }

    /// Removes the layer named `label`, if there is one, and puts the names back in stacking
    /// order.
    pub fn remove(&mut self, label: String)
        requires
            packed_ok(old(self)@),
        ensures
            packed_ok(final(self)@),
            in_level_order(final(self)@),
            has_layer(old(self)@, label@) ==> final(self)@.keys == old(self)@.keys.remove(index_of(old(self)@, label@))
                && final(self)@.anims == old(self)@.anims.remove(index_of(old(self)@, label@)),
            !has_layer(old(self)@, label@) ==> final(self)@.keys == old(self)@.keys && final(self)@.anims == old(self)@.anims,
    {
        let ghost v = self@;
        match self.find(&label) {
            Some(i) => {
                self.keys.remove(i);
                self.layers.remove(i);
                proof {
                    assert(self@.keys =~= v.keys.remove(i as int));
                    assert(self@.anims =~= v.anims.remove(i as int));
                    assert forall|a: int, b: int| 0 <= a < b < self@.keys.len() implies #[trigger] self@.keys[a]
                        != #[trigger] self@.keys[b] by {
                        let a0 = if a < i { a } else { a + 1 };
                        let b0 = if b < i { b } else { b + 1 };
                        assert(self@.keys[a] == v.keys[a0] && self@.keys[b] == v.keys[b0]);
                    }
                    assert forall|j: int| 0 <= j < self@.anims.len() implies anim_ok(#[trigger] self@.anims[j]) by {
                        let j0 = if j < i { j } else { j + 1 };
                        assert(self@.anims[j] == v.anims[j0]);
                    }
                }
            },
            None => {},
        }
        self.sort();
    }

    /// Moves the layer named `label` to its next frame; returns the frame now shown.
    pub fn set_next(&mut self, label: String) -> (r: Result<usize, Error>)
        requires
            packed_ok(old(self)@),
        ensures
            packed_ok(final(self)@),
            r is Ok <==> has_layer(old(self)@, label@),
            r matches Err(e) ==> e.message@ == "No exist Layer name"@ && final(self)@ == old(self)@,
            r matches Ok(n) ==> ({
                let a = anim_of(old(self)@, label@);
                let d = dispose_frames(a.frames, a.frame_no);
                &&& n == if a.frame_no + 1 < a.frames.len() { a.frame_no + 1 } else { 0 }
                &&& final(self)@ == with_anim(old(self)@, label@, AnimView {
                    frames: if a.frame_no + 1 < a.frames.len() {
                        d.update(a.frame_no + 1, with_enable(d[a.frame_no + 1], true))
                    } else {
                        reset_frames(d)
                    },
                    frame_no: n as int,
                    ..a
                })
            }),
    {
        match self.find(&label) {
            Some(i) => {
                let ghost v = self@;
                let a = &mut self.layers[i];
                proof {
                    assert(old(self).layers@.update(i as int, *final(a)).map_values(|a: AnimationLayer| a@)
                        =~= old(self)@.anims.update(i as int, final(a)@));
                }
                let n = a.next();
                let m = a.frame_number();
                proof {
                    let b = v.anims[i as int];
                    let d = dispose_frames(b.frames, b.frame_no);
                    assert(d.len() == b.frames.len());
                    assert(reset_frames(d).len() == d.len());
                    lemma_packed_update(v, i as int, AnimView {
                        frames: if b.frame_no + 1 < b.frames.len() {
                            d.update(b.frame_no + 1, with_enable(d[b.frame_no + 1], true))
                        } else {
                            reset_frames(d)
                        },
                        frame_no: n as int,
                        ..b
                    });
                }
                Ok(m)
            },
            None => Err(error_text("No exist Layer name")),
        }
    }

    /// How long the frame shown of the layer named `label` waits before the next.
    pub fn wait(&mut self, label: String) -> (r: Result<u64, Error>)
        requires
            packed_ok(old(self)@),
        ensures
            final(self)@ == old(self)@,
            r is Ok <==> has_layer(old(self)@, label@),
            r matches Err(e) ==> e.message@ == "No exist Layer name"@,
            r matches Ok(t) ==> t == match anim_of(old(self)@, label@).frames[anim_of(old(self)@, label@).frame_no].control {
                Some(c) => c.await_time,
                None => 0,
            },
    {
        match self.find(&label) {
            Some(i) => {
                let ghost v = self@;
                let a = &mut self.layers[i];
                proof {
                    assert(old(self).layers@.update(i as int, *final(a)).map_values(|a: AnimationLayer| a@)
                        =~= old(self)@.anims.update(i as int, final(a)@));
                }
                let t = a.wait();
                proof {
                    assert(self@.anims =~= v.anims);
                }
                Ok(t)
            },
            None => Err(error_text("No exist Layer name")),
        }
    }
}

/// What an image decoder says of an image before drawing it: the loop count of an animation,
/// the background color, and whether the image is animated.
pub struct ImageStart {
    pub loop_count: u32,
    pub background: Option<(u8, u8, u8)>,
    pub animation: bool,
}

/// Where a frame of an animated image goes.
pub struct FrameRect {
    pub start_x: i32,
    pub start_y: i32,
    pub width: usize,
    pub height: usize,
}

/// What an image decoder says of the next frame of an animated image.
pub struct FrameStart {
    pub await_time: u64,
    pub image_rect: Option<FrameRect>,
    pub dispose_option: Option<NextDispose>,
    pub blend: Option<NextBlend>,
}

/// The canvas after a decoder announced a `width` by `height` image: the loop count, frame,
/// background color and animation flag taken from `start`; the canvas image sized for it
/// when it has no pixels; and the layer being drawn into, if any, cut down to its first frame
/// and sized the same way, or else the drawing size recorded.
pub open spec fn init_state(v: CanvasView, width: int, height: int, start: Option<ImageStart>) -> CanvasView {
    let v1 = match start {
        Some(o) => CanvasView {
            loop_count: Some(o.loop_count),
            frame_no: 0,
            background_color: match o.background {
                Some(c) => (c.0 as int * 65536 + c.1 as int * 256 + c.2 as int) as u32,
                None => v.background_color,
            },
            is_animation: o.animation,
            ..v
        },
        None => CanvasView { loop_count: Some(0), frame_no: 0, is_animation: false, ..v },
    };
    let v2 = CanvasView { canvas: image_sized(v1.canvas, width, height), ..v1 };
    match v.current {
        None => CanvasView { draw_width: width as u32, draw_height: height as u32, ..v2 },
        Some(label) => {
            let a = anim_of(v2.layers, label);
            let first = image_sized(a.frames[0], width, height);
            CanvasView {
                layers: with_anim(v2.layers, label, AnimView { frames: seq![first], frame_no: 0, ..a }),
                ..v2
            }
        },
    }
}

/// The layer a decoded image is drawn into: the canvas image without a current layer; else
/// the first frame of the current layer while the first frame is decoded, the frame shown
/// after that.
pub open spec fn draw_target(v: CanvasView) -> LayerView {
    match v.current {
        None => v.canvas,
        Some(label) => {
            let a = anim_of(v.layers, label);
            if v.frame_no == 0 { a.frames[0] } else { a.frames[a.frame_no] }
        },
    }
}

/// The canvas with the layer decoded images are drawn into replaced by `t`.
pub open spec fn with_draw_target(v: CanvasView, t: LayerView) -> CanvasView {
    match v.current {
        None => CanvasView { canvas: t, ..v },
        Some(label) => {
            let a = anim_of(v.layers, label);
            let n = if v.frame_no == 0 { 0 } else { a.frame_no };
            CanvasView { layers: with_anim(v.layers, label, AnimView { frames: a.frames.update(n, t), ..a }), ..v }
        },
    }
}

/// A canvas: its own image, the layers drawn over it, the pen and colors to draw with, and
/// the state of an image being decoded into it.
pub struct Canvas {
    canvas: Layer,
    color: u32,
    background_color: u32,
    pen: Pen,
    layers: PackedLayers,
    current_layer: Option<String>,
    frame_no: usize,
    loop_count: Option<u32>,
    draw_width: u32,
    draw_height: u32,
    use_canvas_alpha: bool,
    canvas_alpha: u8,
    is_animation: bool,
}

/// What a canvas holds.
pub struct CanvasView {
    pub canvas: LayerView,
    pub color: u32,
    pub background_color: u32,
    pub pen: PenView,
    pub layers: PackedView,
    pub current: Option<Seq<char>>,
    pub frame_no: int,
    pub loop_count: Option<u32>,
    pub draw_width: u32,
    pub draw_height: u32,
    pub use_canvas_alpha: bool,
    pub canvas_alpha: u8,
    pub is_animation: bool,
}

impl View for Canvas {
    type V = CanvasView;

    closed spec fn view(&self) -> CanvasView {
        CanvasView {
            canvas: self.canvas@,
            color: self.color,
            background_color: self.background_color,
            pen: self.pen@,
            layers: self.layers@,
            current: match self.current_layer {
                Some(s) => Some(s@),
                None => None,
            },
            frame_no: self.frame_no as int,
            loop_count: self.loop_count,
            draw_width: self.draw_width,
            draw_height: self.draw_height,
            use_canvas_alpha: self.use_canvas_alpha,
            canvas_alpha: self.canvas_alpha,
            is_animation: self.is_animation,
        }
    }
}

/// The layers of the canvas are well formed.
pub open spec fn canvas_ok(v: CanvasView) -> bool {
    packed_ok(v.layers)
}

/// A canvas without pixels or layers: white ink on black, the one pixel pen, no decoding
/// state.
pub open spec fn empty_canvas() -> CanvasView {
    CanvasView {
        canvas: new_layer("_"@, 0, 0),
        color: 0x00ffffff,
        background_color: 0,
        pen: PenView { width: 1, height: 1, buffer: seq![255u8] },
        layers: PackedView { keys: seq![], anims: seq![], sorted: seq![] },
        current: None,
        frame_no: 0,
        loop_count: None,
        draw_width: 0,
        draw_height: 0,
        use_canvas_alpha: false,
        canvas_alpha: 0xff,
        is_animation: false,
    }
}

/// A canvas size the engine accepts: each side from 1 to `0x7ff_ffff`.
pub open spec fn canvas_size_ok(width: u32, height: u32) -> bool {
    0 < width < 0x8000000 && 0 < height < 0x8000000
}

/// The text `"_"`.
fn underscore() -> (s: String)
    ensures
        s@ == "_"@,
{
    let mut s = String::new();
    push_str(&mut s, "_");
    s
}

impl Canvas {
    fn empty() -> (c: Self)
        ensures
            c@ == empty_canvas(),
            canvas_ok(c@),
    {
        let mut one: Vec<u8> = Vec::new();
        one.push(255);
        let c = Self {
            canvas: Layer::new(underscore(), 0, 0),
            color: 0x00ffffff,
            background_color: 0,
            use_canvas_alpha: false,
            canvas_alpha: 0xff,
            pen: Pen::new(1, 1, one),
            layers: PackedLayers::new(),
            current_layer: None,
            frame_no: 0,
            loop_count: None,
            draw_width: 0,
            draw_height: 0,
            is_animation: false,
        };
        assert(c@.pen.buffer =~= seq![255u8]);
        c
    }

    /// A transparent black `width` by `height` canvas; a size out of range gives a canvas
    /// without pixels.
    pub fn new(width: u32, height: u32) -> (c: Self)
        ensures
            canvas_ok(c@),
            c@ == if canvas_size_ok(width, height) {
                CanvasView { canvas: new_layer("_"@, width, height), ..empty_canvas() }
            } else {
                empty_canvas()
            },
    {
        let mut this = Self::empty();
        if width == 0 || width >= 0x8000000 || height == 0 || height >= 0x8000000 {
            return this;
        }
        this.canvas = Layer::new(underscore(), width, height);
        this
    }

    /// A canvas over existing pixels, kept with a size of zero as the engine always has; a
    /// size out of range gives a canvas without pixels.
    pub fn new_in(buffer: Vec<u8>, width: u32, height: u32) -> (c: Self)
        ensures
            canvas_ok(c@),
            c@ == if canvas_size_ok(width, height) {
                CanvasView { canvas: fresh_layer("_"@, buffer@, 0, 0), ..empty_canvas() }
            } else {
                empty_canvas()
            },
    {
        let mut this = Self::empty();
        if width == 0 || width >= 0x8000000 || height == 0 || height >= 0x8000000 {
            return this;
        }
        this.canvas = Layer::new_in(underscore(), buffer, 0, 0);
        this
    }

    pub fn layers_len(&self) -> (n: usize)
        requires
            canvas_ok(self@),
        ensures
            n == self@.layers.keys.len(),
    {
        self.layers.len()
    }

    pub fn set_buckground_color(&mut self, color: u32)
        ensures
            final(self)@ == (CanvasView { background_color: color, ..old(self)@ }),
    {
        self.background_color = color;
    }

    pub fn background_color(&self) -> (c: u32)
        ensures
            c == self@.background_color,
    {
        self.background_color
    }

    pub fn color(&self) -> (c: u32)
        ensures
            c == self@.color,
    {
        self.color
    }

    pub fn set_color(&mut self, color: u32)
        ensures
            final(self)@ == (CanvasView { color, ..old(self)@ }),
    {
        self.color = color;
    }

    pub fn set_pen(&mut self, pen: Pen)
        ensures
            final(self)@ == (CanvasView { pen: pen@, ..old(self)@ }),
    {
        self.pen = pen;
    }

    /// A copy of the pen.
    pub fn pen(&self) -> (p: Pen)
        ensures
            p@ == self@.pen,
    {
        self.pen.clone()
    }

    /// Makes the layer named `current` the one decoded images are drawn into.
    pub fn set_current(&mut self, current: String)
        ensures
            final(self)@ == (CanvasView { current: Some(current@), ..old(self)@ }),
    {
        self.current_layer = Some(current);
    }

    /// The name of the layer decoded images are drawn into; `"_"`, the canvas itself, when
    /// none is set.
    pub fn current(&self) -> (s: String)
        ensures
            s@ == match self@.current {
                Some(c) => c,
                None => "_"@,
            },
    {
        if let Some(current) = &self.current_layer {
            current.clone()
        } else {
            underscore()
        }
    }

    pub fn is_animation(&self) -> (b: bool)
        ensures
            b == self@.is_animation,
    {
        self.is_animation
    }

    /// Adds a hidden frame to the layer named `label` and shows it.
    pub fn add_frame(&mut self, label: String, width: u32, height: u32, x: i32, y: i32) -> (r: Result<(), Error>)
        requires
            canvas_ok(old(self)@),
        ensures
            canvas_ok(final(self)@),
            final(self)@ == (CanvasView { layers: final(self)@.layers, ..old(self)@ }),
            r is Ok <==> has_layer(old(self)@.layers, label@),
            r matches Err(e) ==> e.message@ == "Layer is none"@ && final(self)@ == old(self)@,
            r is Ok ==> ({
                let a = anim_of(old(self)@.layers, label@);
                final(self)@.layers == with_anim(old(self)@.layers, label@, AnimView {
                    frames: a.frames.push(LayerView { x, y, enable: false, ..new_layer(label@, width, height) }),
                    frame_no: a.frames.len() as int,
                    ..a
                })
            }),
    {
        self.layers.add_frame(label, width, height, x, y)
    }

    /// Adds a transparent black layer named `label` at `(x, y)` on top of the others; a name
    /// already in use is refused.
    pub fn add_layer(&mut self, label: String, width: u32, height: u32, x: i32, y: i32) -> (r: Result<(), Error>)
        requires
            canvas_ok(old(self)@),
        ensures
            canvas_ok(final(self)@),
            final(self)@ == (CanvasView { layers: final(self)@.layers, ..old(self)@ }),
            r is Ok <==> !has_layer(old(self)@.layers, label@),
            r matches Err(e) ==> e.message@ == "Exist Layer name"@ && final(self)@ == old(self)@,
            r is Ok ==> ({
                let first = new_layer(label@, width, height);
                &&& final(self)@.layers.keys == old(self)@.layers.keys.push(label@)
                &&& final(self)@.layers.anims == old(self)@.layers.anims.push(AnimView {
                    x,
                    y,
                    scratch: first,
                    frames: seq![LayerView { z_index: old(self)@.layers.keys.len() as i32, ..first }],
                    frame_no: 0,
                    enable: true,
                })
                &&& in_level_order(final(self)@.layers)
            }),
    {
        self.layers.add(label, width, height, x, y)
    }

    /// Sets the canvas alpha of the layer named `label`.
    pub fn set_layer_alpha(&mut self, label: String, alpha: u8) -> (r: Result<(), Error>)
        requires
            canvas_ok(old(self)@),
        ensures
            canvas_ok(final(self)@),
            final(self)@ == (CanvasView { layers: final(self)@.layers, ..old(self)@ }),
            r is Ok <==> has_layer(old(self)@.layers, label@),
            r matches Err(e) ==> e.message@ == "No exist Layer name"@ && final(self)@ == old(self)@,
            r is Ok ==> ({
                let a = anim_of(old(self)@.layers, label@);
                final(self)@.layers == with_anim(old(self)@.layers, label@, AnimView {
                    frames: a.frames.update(0, LayerView { canvas_alpha: alpha, use_canvas_alpha: true, ..a.frames[0] }),
                    ..a
                })
            }),
    {
        let ghost v = self.layers@;
        match self.layers.get_mut(label) {
            Some(layer) => {
                layer.set_alpha(alpha);
                proof {
                    let a = anim_of(v, label@);
                    lemma_packed_update(v, index_of(v, label@), AnimView {
                        frames: a.frames.update(0, LayerView { canvas_alpha: alpha, use_canvas_alpha: true, ..a.frames[0] }),
                        ..a
                    });
                }
                Ok(())
            },
            None => Err(error_text("No exist Layer name")),
        }
    }

    /// Sets the stacking level of the layer named `label`.
    pub fn set_z_index(&mut self, label: String, z_index: i32) -> (r: Result<(), Error>)
        requires
            canvas_ok(old(self)@),
        ensures
            canvas_ok(final(self)@),
            final(self)@ == (CanvasView { layers: final(self)@.layers, ..old(self)@ }),
            r is Ok <==> has_layer(old(self)@.layers, label@),
            r matches Err(e) ==> e.message@ == "No exist Layer"@ && final(self)@ == old(self)@,
            r is Ok ==> ({
                let a = anim_of(old(self)@.layers, label@);
                &&& final(self)@.layers.keys == old(self)@.layers.keys
                &&& final(self)@.layers.anims == with_anim(old(self)@.layers, label@, AnimView {
                    frames: a.frames.update(0, LayerView { z_index, ..a.frames[0] }),
                    ..a
                }).anims
                &&& in_level_order(final(self)@.layers)
            }),
    {
        self.layers.set_z_index(label, z_index)
    }

    /// The layer named `label`.
    pub fn layer(&mut self, label: String) -> (r: Option<&Layer>)
        requires
            canvas_ok(old(self)@),
        ensures
            final(self)@ == old(self)@,
            r is Some <==> has_layer(old(self)@.layers, label@),
            r matches Some(l) ==> l@ == anim_of(old(self)@.layers, label@).frames[0],
    {
        self.layers.get(label)
    }

    /// The frame shown of the layer named `label`.
    pub fn frame(&mut self, label: String) -> (r: Option<&Layer>)
        requires
            canvas_ok(old(self)@),
        ensures
            final(self)@ == old(self)@,
            r is Some <==> has_layer(old(self)@.layers, label@),
            r matches Some(l) ==> l@ == anim_of(old(self)@.layers, label@).frames[anim_of(old(self)@.layers, label@).frame_no],
    {
        self.layers.get_frame(label)
    }

    /// The layer named `label`, to change.
    pub fn layer_mut(&mut self, label: String) -> (r: Option<&mut Layer>)
        requires
            canvas_ok(old(self)@),
        ensures
            r is Some <==> has_layer(old(self)@.layers, label@),
            r is None ==> final(self)@ == old(self)@,
            r matches Some(l) ==> ({
                let a = anim_of(old(self)@.layers, label@);
                &&& l@ == a.frames[0]
                &&& final(self)@ == (CanvasView {
                    layers: with_anim(old(self)@.layers, label@, AnimView { frames: a.frames.update(0, final(l)@), ..a }),
                    ..old(self)@
                })
            }),
    {
        self.layers.get_mut(label)
    }

    /// The frame shown of the layer named `label`, to change.
    pub fn frame_mut(&mut self, label: String) -> (r: Option<&mut Layer>)
        requires
            canvas_ok(old(self)@),
        ensures
            r is Some <==> has_layer(old(self)@.layers, label@),
            r is None ==> final(self)@ == old(self)@,
            r matches Some(l) ==> ({
                let a = anim_of(old(self)@.layers, label@);
                &&& l@ == a.frames[a.frame_no]
                &&& final(self)@ == (CanvasView {
                    layers: with_anim(old(self)@.layers, label@, AnimView { frames: a.frames.update(a.frame_no, final(l)@), ..a }),
                    ..old(self)@
                })
            }),
    {
        self.layers.get_frame_mut(label)
    }

    /// Shows the layer named `label`.
    pub fn set_enable(&mut self, label: String) -> (r: Result<(), Error>)
        requires
            canvas_ok(old(self)@),
        ensures
            canvas_ok(final(self)@),
            r is Ok <==> has_layer(old(self)@.layers, label@),
            r matches Err(e) ==> e.message@ == "No exist Layer name"@ && final(self)@ == old(self)@,
            r is Ok ==> final(self)@ == (CanvasView {
                layers: with_anim(old(self)@.layers, label@, AnimView { enable: true, ..anim_of(old(self)@.layers, label@) }),
                ..old(self)@
            }),
    {
        self.layers.set_enable(label)
    }

    /// Hides the layer named `label`.
    pub fn set_disable(&mut self, label: String) -> (r: Result<(), Error>)
        requires
            canvas_ok(old(self)@),
        ensures
            canvas_ok(final(self)@),
            r is Ok <==> has_layer(old(self)@.layers, label@),
            r matches Err(e) ==> e.message@ == "No exist Layer name"@ && final(self)@ == old(self)@,
            r is Ok ==> final(self)@ == (CanvasView {
                layers: with_anim(old(self)@.layers, label@, AnimView { enable: false, ..anim_of(old(self)@.layers, label@) }),
                ..old(self)@
            }),
    {
        self.layers.set_disable(label)
    }

    /// Whether the layer named `label` is shown.
    pub fn enable(&self, label: String) -> (r: Result<bool, Error>)
        requires
            canvas_ok(self@),
        ensures
            r is Ok <==> has_layer(self@.layers, label@),
            r matches Ok(b) ==> b == anim_of(self@.layers, label@).enable,
            r matches Err(e) ==> e.message@ == "No exist Layer name"@,
    {
        self.layers.enable(label)
    }

    /// Makes the layer named `label` transparent black.
    pub fn clear_layer(&mut self, label: String) -> (r: Result<(), Error>)
        requires
            canvas_ok(old(self)@),
            has_layer(old(self)@.layers, label@) ==> layer_ok(anim_of(old(self)@.layers, label@).frames[0]),
        ensures
            canvas_ok(final(self)@),
            r is Ok <==> has_layer(old(self)@.layers, label@),
            r matches Err(e) ==> e.message@ == "No exist Layer name"@ && final(self)@ == old(self)@,
            r is Ok ==> final(self)@ == (CanvasView {
                layers: with_anim(old(self)@.layers, label@, cleared_first(anim_of(old(self)@.layers, label@))),
                ..old(self)@
            }),
    {
        self.layers.clear_layer(label)
    }

    /// Removes the layer named `label`; nothing happens without one.
    pub fn delete_layer(&mut self, label: String)
        requires
            canvas_ok(old(self)@),
        ensures
            canvas_ok(final(self)@),
            !has_layer(old(self)@.layers, label@) ==> final(self)@ == old(self)@,
            has_layer(old(self)@.layers, label@) ==> ({
                let i = index_of(old(self)@.layers, label@);
                &&& final(self)@ == (CanvasView { layers: final(self)@.layers, ..old(self)@ })
                &&& final(self)@.layers.keys == old(self)@.layers.keys.remove(i)
                &&& final(self)@.layers.anims == old(self)@.layers.anims.remove(i)
                &&& in_level_order(final(self)@.layers)
            }),
    {
        if self.layers.get(label.clone()).is_some() {
            self.layers.remove(label);
        }
    }

    /// Places the layer named `label` at `(x, y)`; nothing happens without one.
    pub fn set_pos(&mut self, label: String, x: i32, y: i32)
        requires
            canvas_ok(old(self)@),
        ensures
            canvas_ok(final(self)@),
            !has_layer(old(self)@.layers, label@) ==> final(self)@ == old(self)@,
            has_layer(old(self)@.layers, label@) ==> ({
                let a = anim_of(old(self)@.layers, label@);
                final(self)@ == (CanvasView {
                    layers: with_anim(old(self)@.layers, label@, AnimView {
                        frames: a.frames.update(0, LayerView { x, y, ..a.frames[0] }),
                        ..a
                    }),
                    ..old(self)@
                })
            }),
    {
        let ghost v = self.layers@;
        if let Some(layer) = self.layers.get_mut(label) {
            layer.set_pos(x, y);
            proof {
                let a = anim_of(v, label@);
                lemma_packed_update(v, index_of(v, label@), AnimView {
                    frames: a.frames.update(0, LayerView { x, y, ..a.frames[0] }),
                    ..a
                });
            }
        }
    }

    /// Moves the layer named `label` by `(dx, dy)`; nothing happens without one.
    pub fn move_pos(&mut self, label: String, dx: i32, dy: i32)
        requires
            canvas_ok(old(self)@),
            has_layer(old(self)@.layers, label@) ==> ({
                let l = anim_of(old(self)@.layers, label@).frames[0];
                i32::MIN <= l.x + dx <= i32::MAX && i32::MIN <= l.y + dy <= i32::MAX
            }),
        ensures
            canvas_ok(final(self)@),
            !has_layer(old(self)@.layers, label@) ==> final(self)@ == old(self)@,
            has_layer(old(self)@.layers, label@) ==> ({
                let a = anim_of(old(self)@.layers, label@);
                final(self)@ == (CanvasView {
                    layers: with_anim(old(self)@.layers, label@, AnimView {
                        frames: a.frames.update(0, LayerView {
                            x: (a.frames[0].x + dx) as i32,
                            y: (a.frames[0].y + dy) as i32,
                            ..a.frames[0]
                        }),
                        ..a
                    }),
                    ..old(self)@
                })
            }),
    {
        let ghost v = self.layers@;
        if let Some(layer) = self.layers.get_mut(label) {
            layer.move_pos(dx, dy);
            proof {
                let a = anim_of(v, label@);
                lemma_packed_update(v, index_of(v, label@), AnimView {
                    frames: a.frames.update(0, LayerView {
                        x: (a.frames[0].x + dx) as i32,
                        y: (a.frames[0].y + dy) as i32,
                        ..a.frames[0]
                    }),
                    ..a
                });
            }
        }
    }

    /// The position of the layer named `label`.
    pub fn pos(&mut self, label: String) -> (r: Option<(i32, i32)>)
        requires
            canvas_ok(old(self)@),
        ensures
            final(self)@ == old(self)@,
            r is Some <==> has_layer(old(self)@.layers, label@),
            r matches Some(p) ==> p == (anim_of(old(self)@.layers, label@).frames[0].x, anim_of(old(self)@.layers, label@).frames[0].y),
    {
        if let Some(layer) = self.layers.get(label) {
            Some(layer.pos())
        } else {
            None
        }
    }

    /// The canvas alpha of the layer named `label`, when it uses one.
    pub fn get_layer_alpha(&mut self, label: String) -> (r: Result<Option<u8>, Error>)
        requires
            canvas_ok(old(self)@),
        ensures
            final(self)@ == old(self)@,
            r is Ok <==> has_layer(old(self)@.layers, label@),
            r matches Err(e) ==> e.message@ == "No exist Layer name"@,
            r matches Ok(a) ==> ({
                let l = anim_of(old(self)@.layers, label@).frames[0];
                a == if l.use_canvas_alpha { Some(l.canvas_alpha) } else { None::<u8> }
            }),
    {
        if let Some(layer) = self.layers.get(label) {
            Ok(layer.alpha())
        } else {
            Err(error_text("No exist Layer name"))
        }
    }

    /// Moves the layer named `label` to its next frame.
    pub fn set_next(&mut self, label: String) -> (r: Result<usize, Error>)
        requires
            canvas_ok(old(self)@),
        ensures
            canvas_ok(final(self)@),
            final(self)@ == (CanvasView { layers: final(self)@.layers, ..old(self)@ }),
            r is Ok <==> has_layer(old(self)@.layers, label@),
            r matches Err(e) ==> e.message@ == "No exist Layer name"@ && final(self)@ == old(self)@,
            r matches Ok(n) ==> ({
                let a = anim_of(old(self)@.layers, label@);
                let d = dispose_frames(a.frames, a.frame_no);
                &&& n == if a.frame_no + 1 < a.frames.len() { a.frame_no + 1 } else { 0 }
                &&& final(self)@.layers == with_anim(old(self)@.layers, label@, AnimView {
                    frames: if a.frame_no + 1 < a.frames.len() {
                        d.update(a.frame_no + 1, with_enable(d[a.frame_no + 1], true))
                    } else {
                        reset_frames(d)
                    },
                    frame_no: n as int,
                    ..a
                })
            }),
    {
        self.layers.set_next(label)
    }

    /// How long the frame shown of the layer named `label` waits before the next.
    pub fn wait(&mut self, label: String) -> (r: Result<u64, Error>)
        requires
            canvas_ok(old(self)@),
        ensures
            final(self)@ == old(self)@,
            r is Ok <==> has_layer(old(self)@.layers, label@),
            r matches Err(e) ==> e.message@ == "No exist Layer name"@,
            r matches Ok(t) ==> t == match anim_of(old(self)@.layers, label@).frames[anim_of(old(self)@.layers, label@).frame_no].control {
                Some(c) => c.await_time,
                None => 0,
            },
    {
        self.layers.wait(label)
    }

    /// The names of the layers in stacking order, lowest first.
    pub fn layer_order(&self) -> (r: Vec<String>)
        ensures
            r@.map_values(|k: String| k@) == self@.layers.sorted,
    {
        let sorted = self.layers.sorted();
        let mut out: Vec<String> = Vec::new();
        let mut i: usize = 0;
        while i < sorted.len()
            invariant
                sorted@.map_values(|k: String| k@) == self@.layers.sorted,
                i <= sorted@.len(),
                out@.map_values(|k: String| k@) == self@.layers.sorted.subrange(0, i as int),
            decreases sorted@.len() - i,
        {
            let ghost before = out@;
            let c = sorted[i].clone();
            assert(sorted@.map_values(|k: String| k@)[i as int] == sorted@[i as int]@);
            out.push(c);
            assert(out@ == before.push(c));
            assert(out@.map_values(|k: String| k@) =~= before.map_values(|k: String| k@).push(c@));
            i = i + 1;
            assert(out@.map_values(|k: String| k@) =~= self@.layers.sorted.subrange(0, i as int));
        }
        assert(self@.layers.sorted.subrange(0, i as int) =~= self@.layers.sorted);
        out
    }

    /// The number of frames of the layer named `label`.
    pub fn frames_len(&self, label: String) -> (r: Option<usize>)
        requires
            canvas_ok(self@),
        ensures
            r is Some <==> has_layer(self@.layers, label@),
            r matches Some(n) ==> n == anim_of(self@.layers, label@).frames.len(),
    {
        self.layers.frames_len(label)
    }

    /// Frame `no` of the layer named `label`.
    pub fn frame_at(&self, label: String, no: usize) -> (r: Option<&Layer>)
        requires
            canvas_ok(self@),
        ensures
            r is Some <==> has_layer(self@.layers, label@) && no < anim_of(self@.layers, label@).frames.len(),
            r matches Some(l) ==> l@ == anim_of(self@.layers, label@).frames[no as int],
    {
        self.layers.frame_at(label, no)
    }

    pub fn width(&self) -> (w: u32)
        ensures
            w == self@.canvas.width,
    {
        self.canvas.width()
    }

    pub fn height(&self) -> (h: u32)
        ensures
            h == self@.canvas.height,
    {
        self.canvas.height()
    }

    /// Resizes the canvas image to a transparent black `width` by `height` image.
    pub fn reinit(&mut self, width: u32, height: u32)
        requires
            width as int * height as int * 4 <= usize::MAX,
        ensures
            final(self)@ == (CanvasView {
                canvas: LayerView {
                    width,
                    height,
                    buffer: Seq::new((width as int * height as int * 4) as nat, |i: int| 0u8),
                    ..old(self)@.canvas
                },
                ..old(self)@
            }),
    {
        self.canvas.reinit(width, height);
    }

    pub fn buffer(&self) -> (b: &[u8])
        ensures
            b@ == self@.canvas.buffer,
    {
        self.canvas.buffer()
    }

    pub fn buffer_mut(&mut self) -> (b: &mut [u8])
        ensures
            b@ == old(self)@.canvas.buffer,
            final(self)@ == (CanvasView { canvas: LayerView { buffer: final(b)@, ..old(self)@.canvas }, ..old(self)@ }),
    {
        self.canvas.buffer_mut()
    }

    /// Paints the canvas image with the background color and makes every layer transparent
    /// black.
    pub fn clear(&mut self)
        requires
            canvas_ok(old(self)@),
            layer_ok(old(self)@.canvas),
            forall|i: int| 0 <= i < old(self)@.layers.anims.len() ==> layer_ok(#[trigger] old(self)@.layers.anims[i].frames[0]),
        ensures
            canvas_ok(final(self)@),
            final(self)@.canvas == filled(old(self)@.canvas, channel(old(self)@.background_color, 16), channel(
                old(self)@.background_color,
                8,
            ), channel(old(self)@.background_color, 0), 0xff),
            final(self)@.layers.keys == old(self)@.layers.keys,
            final(self)@.layers.sorted == old(self)@.layers.sorted,
            final(self)@.layers.anims.len() == old(self)@.layers.anims.len(),
            forall|i: int|
                0 <= i < old(self)@.layers.anims.len() ==> #[trigger] final(self)@.layers.anims[i] == cleared_first(
                    old(self)@.layers.anims[i],
                ),
            final(self)@ == (CanvasView { canvas: final(self)@.canvas, layers: final(self)@.layers, ..old(self)@ }),
    {
        let background = self.background_color;
        self.clear_with_color(background);
        self.layers.clear();
    }

    /// Paints the canvas image with the RGB of `color`, opaque.
    pub fn clear_with_color(&mut self, color: u32)
        requires
            layer_ok(old(self)@.canvas),
        ensures
            final(self)@ == (CanvasView {
                canvas: filled(old(self)@.canvas, channel(color, 16), channel(color, 8), channel(color, 0), 0xff),
                ..old(self)@
            }),
    {
        fillrect(&mut self.canvas, color);
    }

    /// The canvas alpha, when the canvas uses one.
    pub fn alpha(&self) -> (a: Option<u8>)
        ensures
            a == if self@.use_canvas_alpha { Some(self@.canvas_alpha) } else { None::<u8> },
    {
        if self.use_canvas_alpha {
            Some(self.canvas_alpha)
        } else {
            None
        }
    }

    pub fn set_alpha(&mut self, alpha: u8)
        ensures
            final(self)@ == (CanvasView { canvas_alpha: alpha, use_canvas_alpha: true, ..old(self)@ }),
    {
        self.canvas_alpha = alpha;
        self.use_canvas_alpha = true;
    }

    /// Gets ready for a decoded `width` by `height` image; `false`, with nothing changed, for an
    /// empty size.
    pub fn init(&mut self, width: usize, height: usize, start: Option<ImageStart>) -> (ok: bool)
        requires
            canvas_ok(old(self)@),
            width as int * height as int * 4 <= usize::MAX,
            width <= u32::MAX,
            height <= u32::MAX,
            old(self)@.current matches Some(label) ==> has_layer(old(self)@.layers, label),
        ensures
            canvas_ok(final(self)@),
            ok == (width > 0 && height > 0),
            ok ==> final(self)@ == init_state(old(self)@, width as int, height as int, start),
            !ok ==> final(self)@ == old(self)@,
    {
        if width == 0 || height == 0 {
            return false;
        }
        match start {
            Some(option) => {
                self.loop_count = Some(option.loop_count);
                self.frame_no = 0;
                if let Some(background) = option.background {
                    let color: u32 = background.0 as u32 * 65536 + background.1 as u32 * 256 + background.2 as u32;
                    self.background_color = color;
                }
                self.is_animation = option.animation;
            },
            None => {
                self.loop_count = Some(0);
                self.frame_no = 0;
                self.is_animation = false;
            },
        }
        self.canvas.init_image(width, height);
        match &self.current_layer {
            None => {
                self.draw_width = width as u32;
                self.draw_height = height as u32;
            },
            Some(current) => {
                let label = current.clone();
                let ghost v = self.layers@;
                self.layers.truncate(label.clone());
                let ghost t = self.layers@;
                proof {
                    lemma_index_of(t, label@, index_of(v, label@));
                }
                let layer = self.layers.get_mut(label).unwrap();
                layer.init_image(width, height);
                proof {
                    let a = anim_of(v, label@);
                    let first = image_sized(a.frames[0], width as int, height as int);
                    let trunc = AnimView { frames: a.frames.subrange(0, 1), frame_no: 0, ..a };
                    assert(seq![a.frames[0]].update(0, first) =~= seq![first]);
                    assert(a.frames.subrange(0, 1) =~= seq![a.frames[0]]);
                    lemma_with_anim_twice(v, label@, trunc, AnimView { frames: seq![first], frame_no: 0, ..a });
                    lemma_packed_update(t, index_of(v, label@), AnimView { frames: seq![first], frame_no: 0, ..a });
                }
            },
        }
        true
    }

    /// Draws a decoded `width` by `height` RGBA rectangle at `(start_x, start_y)` into the
    /// layer images are drawn into; `false`, with nothing drawn, when `data` is too short.
    pub fn draw(&mut self, start_x: usize, start_y: usize, width: usize, height: usize, data: &[u8]) -> (ok: bool)
        requires
            canvas_ok(old(self)@),
            old(self)@.current matches Some(label) ==> has_layer(old(self)@.layers, label),
            draw_target(old(self)@).buffer.len() == draw_target(old(self)@).width as int * draw_target(old(self)@).height
                as int * 4,
            width + start_x <= usize::MAX,
            height + start_y <= usize::MAX,
            height * width * 4 <= usize::MAX,
        ensures
            canvas_ok(final(self)@),
            ok == !blit_short(draw_target(old(self)@), start_x as int, start_y as int, width as int, height as int, data@),
            final(self)@ == with_draw_target(old(self)@, blitted(draw_target(old(self)@), start_x as int, start_y as int,
                width as int, height as int, data@)),
    {
        match &self.current_layer {
            Some(current) => {
                let label = current.clone();
                let ghost v = self.layers@;
                if self.frame_no == 0 {
                    let layer = self.layers.get_mut(label).unwrap();
                    let ok = layer.blit(start_x, start_y, width, height, data);
                    proof {
                        let a = anim_of(v, label@);
                        lemma_packed_update(v, index_of(v, label@), AnimView {
                            frames: a.frames.update(0, blitted(a.frames[0], start_x as int, start_y as int, width as int,
                                height as int, data@)),
                            ..a
                        });
                    }
                    ok
                } else {
                    let layer = self.layers.get_frame_mut(label).unwrap();
                    let ok = layer.blit(start_x, start_y, width, height, data);
                    proof {
                        let a = anim_of(v, label@);
                        lemma_packed_update(v, index_of(v, label@), AnimView {
                            frames: a.frames.update(a.frame_no, blitted(a.frames[a.frame_no], start_x as int, start_y as int,
                                width as int, height as int, data@)),
                            ..a
                        });
                    }
                    ok
                }
            },
            None => self.canvas.blit(start_x, start_y, width, height, data),
        }
    }

    /// The decoder finished: back to the first frame.
    pub fn terminate(&mut self)
        ensures
            final(self)@ == (CanvasView { frame_no: 0, ..old(self)@ }),
    {
        self.frame_no = 0;
    }

    /// The decoder has a next frame. Without a current layer, or without a frame
    /// description, the decoding stops: `Ok(false)`. Otherwise a hidden frame of the given
    /// rectangle (the first frame's size at the origin without one) is added to the current
    /// layer with the frame's timing and disposal, decoding goes on into it, and the answer is
    /// `Ok(true)`; a current name without a layer fails with `"Layer is none"`.
    pub fn next(&mut self, start: Option<FrameStart>) -> (r: Result<bool, Error>)
        requires
            canvas_ok(old(self)@),
            (old(self)@.current is Some && start is Some && start->0.image_rect is None) ==> has_layer(
                old(self)@.layers,
                old(self)@.current->0,
            ),
        ensures
            canvas_ok(final(self)@),
            (old(self)@.current is None || start is None) ==> (r matches Ok(false)) && final(self)@ == old(self)@,
            (old(self)@.current is Some && start is Some) ==> ({
                let label = old(self)@.current->0;
                let o = start->0;
                let a = anim_of(old(self)@.layers, label);
                let (w, h, x, y) = match o.image_rect {
                    Some(rect) => (rect.width as u32, rect.height as u32, rect.start_x, rect.start_y),
                    None => (a.frames[0].width, a.frames[0].height, 0i32, 0i32),
                };
                let frame = LayerView {
                    x,
                    y,
                    enable: false,
                    control: Some(AnimationControl { await_time: o.await_time, dispose_option: o.dispose_option, blend: o.blend }),
                    ..new_layer(label, w, h)
                };
                &&& r is Ok <==> has_layer(old(self)@.layers, label)
                &&& r matches Err(e) ==> e.message@ == "Layer is none"@ && final(self)@ == old(self)@
                &&& r is Ok ==> (r matches Ok(true)) && final(self)@ == (CanvasView {
                    layers: with_anim(old(self)@.layers, label, AnimView {
                        frames: a.frames.push(frame),
                        frame_no: a.frames.len() as int,
                        ..a
                    }),
                    frame_no: a.frames.len() as int,
                    ..old(self)@
                })
            }),
    {
        let current = match &self.current_layer {
            Some(c) => c.clone(),
            None => {
                return Ok(false);
            },
        };
        let opt = match start {
            Some(o) => o,
            None => {
                return Ok(false);
            },
        };
        let ghost v = self.layers@;
        let (width, height, start_x, start_y) = match opt.image_rect {
            Some(rect) => {
                #[verifier::truncate]
                let w = rect.width as u32;
                #[verifier::truncate]
                let h = rect.height as u32;
                (w, h, rect.start_x, rect.start_y)
            },
            None => {
                let first = self.layers.get(current.clone()).unwrap();
                (first.width(), first.height(), 0, 0)
            },
        };
        let added = self.layers.add_frame(current.clone(), width, height, start_x, start_y);
        if let Err(e) = added {
            return Err(e);
        }
        let ghost after = self.layers@;
        proof {
            lemma_index_of(after, current@, index_of(v, current@));
        }
        let control = AnimationControl { await_time: opt.await_time, dispose_option: opt.dispose_option, blend: opt.blend };
        let frame = self.layers.get_frame_mut(current.clone()).unwrap();
        frame.set_control(Some(control));
        let ghost fin = self.layers@;
        proof {
            let a = anim_of(v, current@);
            let b = anim_of(after, current@);
            let frame_view = LayerView { control: Some(control), ..b.frames[b.frame_no] };
            lemma_with_anim_twice(v, current@, b, AnimView { frames: b.frames.update(b.frame_no, frame_view), ..b });
            lemma_packed_update(after, index_of(v, current@), AnimView { frames: b.frames.update(b.frame_no, frame_view), ..b });
            assert(b.frames.update(b.frame_no, frame_view) =~= a.frames.push(frame_view));
            lemma_index_of(fin, current@, index_of(v, current@));
        }
        self.frame_no = self.layers.frame_last_no(current).unwrap_or(0);
        Ok(true)
    }
}

/// A layer added under a new name is found under that name, holding what was added.
pub proof fn law_added_layer_is_found(v: PackedView, label: Seq<char>, a: AnimView)
    requires
        packed_ok(v),
        !has_layer(v, label),
    ensures
        ({
            let w = PackedView { keys: v.keys.push(label), anims: v.anims.push(a), sorted: v.sorted };
            has_layer(w, label) && anim_of(w, label) == a
        }),
{
    let w = PackedView { keys: v.keys.push(label), anims: v.anims.push(a), sorted: v.sorted };
    let n = v.keys.len() as int;
    assert(w.keys[n] == label);
    let j = index_of(w, label);
    if j < n {
        assert(w.keys[j] == v.keys[j]);
    }
}

/// Once a layer is removed, no layer goes by its name.
pub proof fn law_removed_layer_is_gone(v: PackedView, label: Seq<char>)
    requires
        packed_ok(v),
        has_layer(v, label),
    ensures
        !has_layer(PackedView { keys: v.keys.remove(index_of(v, label)), anims: v.anims.remove(index_of(v, label)), sorted: v.sorted }, label),
{
    let i = index_of(v, label);
    let w = PackedView { keys: v.keys.remove(i), anims: v.anims.remove(i), sorted: v.sorted };
    if has_layer(w, label) {
        let j = choose|j: int| 0 <= j < w.keys.len() && w.keys[j] == label;
        if j < i {
            assert(w.keys[j] == v.keys[j]);
            assert(v.keys[j] != v.keys[i]);
        } else {
            assert(w.keys[j] == v.keys[j + 1]);
            assert(v.keys[i] != v.keys[j + 1]);
        }
    }
}

/// Every name in the stacking order is the name of a layer.
pub proof fn law_ordered_names_are_layers(v: PackedView, k: int)
    requires
        packed_ok(v),
        0 <= k < v.sorted.len(),
    ensures
        has_layer(v, v.sorted[k]),
{
    let perm = choose|perm: Seq<int>| order_by(v, perm);
    assert(v.sorted[k] == v.keys[perm[k]]);
}

/// Stepping an animated layer to its next frame moves the frame number up by one, modulo the
/// number of frames: after the last frame comes the first.
pub proof fn law_next_frame_wraps(a: AnimView)
    requires
        anim_ok(a),
    ensures
        (if a.frame_no + 1 < a.frames.len() { a.frame_no + 1 } else { 0 }) == (a.frame_no + 1) % (a.frames.len() as int),
{
    let n = a.frame_no;
    let len = a.frames.len() as int;
    if n + 1 < len {
        vstd::arithmetic::div_mod::lemma_small_mod((n + 1) as nat, len as nat);
    } else {
        vstd::arithmetic::div_mod::lemma_mod_self_0(len);
    }
}

/// Whether `n` bytes are exactly the pixels of a `w` by `h` image.
fn holds_pixels(w: u32, h: u32, n: usize) -> (b: bool)
    ensures
        b == (w as int * h as int * 4 == n),
{
    let ww = w as u128;
    let hh = h as u128;
    assert(ww * hh <= 0xffff_ffff * 0xffff_ffff) by (nonlinear_arith)
        requires
            ww <= 0xffff_ffff,
            hh <= 0xffff_ffff,
    ;
    ww * hh * 4 == n as u128
}

impl Canvas {
    /// Whether a layer is set as the one decoded images are drawn into.
    pub fn has_current(&self) -> (b: bool)
        ensures
            b == self@.current is Some,
    {
        self.current_layer.is_some()
    }

    /// Whether decoded pixels can be drawn now: a current layer, if one is set, exists, and the
    /// layer drawn into holds exactly its pixels.
    pub fn can_draw(&mut self) -> (b: bool)
        requires
            canvas_ok(old(self)@),
        ensures
            final(self)@ == old(self)@,
            b == ((old(self)@.current matches Some(label) ==> has_layer(old(self)@.layers, label)) && draw_target(
                old(self)@,
            ).buffer.len() == draw_target(old(self)@).width as int * draw_target(old(self)@).height as int * 4),
    {
        let target_ok = match &self.current_layer {
            None => {
                holds_pixels(self.canvas.width(), self.canvas.height(), self.canvas.buffer().len())
            },
            Some(current) => {
                let label = current.clone();
                if self.frame_no == 0 {
                    match self.layers.get(label) {
                        Some(l) => holds_pixels(l.width(), l.height(), l.buffer().len()),
                        None => false,
                    }
                } else {
                    match self.layers.get_frame(label) {
                        Some(l) => holds_pixels(l.width(), l.height(), l.buffer().len()),
                        None => false,
                    }
                }
            },
        };
        target_ok
    }
}

} // verus!
