//! Where each window goes: the rectangles that containers hand down to
//! their children, and the walks that look for free slots and windows.

use vstd::prelude::*;
use crate::element::{
    Bisect, FIXED_ONE, Grid, LayoutElemID, LayoutElement, LayoutElementProfile, Orientation, Padding,
    Window,
};
use crate::geometry::{clamp_i32, clamp_u32, spec_overlaps, Geometry, Point, Size};
use crate::tree::{LayoutTree, structure_ok, views_synced};

verus! {

/// What an element is given by its parent: a rectangle, the gap of the
/// nearest padding above it, and the product of the scales above it.
#[derive(Clone, Copy, Debug, PartialEq, Eq, Structural)]
pub struct Frame {
    pub rect: Geometry,
    pub padding: u32,
    /// Horizontal scale, in ten-thousandths.
    pub scale_x: u32,
    /// Vertical scale, in ten-thousandths.
    pub scale_y: u32,
}

pub open spec fn max0(v: int) -> int {
    if v < 0 { 0 } else { v }
}

/// The frame that the root is given: the whole display, unscaled.
pub open spec fn root_frame(display: Geometry) -> Frame {
    Frame { rect: display, padding: 0, scale_x: FIXED_ONE, scale_y: FIXED_ONE }
}

/// The rectangle of child `k` (0 or 1) of a bisection: its share of the
/// parent's rectangle along the orientation, less half the padding at the
/// inner edge, never below zero.
pub open spec fn bisect_rect(b: Bisect, f: Frame, k: int) -> Geometry {
    let g = f.rect;
    let half = f.padding as int / 2;
    let share = if k == 0 { b.ratio as int } else { FIXED_ONE - b.ratio as int };
    match b.orientation {
        Orientation::Horizontal => Geometry {
            origin: Point {
                x: clamp_i32(g.origin.x + k * (b.ratio as int * g.size.w as int / FIXED_ONE as int) + if k == 0 { 0 } else { half }) as i32,
                y: g.origin.y,
            },
            size: Size { w: clamp_u32(max0(share * g.size.w as int / FIXED_ONE as int - half)) as u32, h: g.size.h },
        },
        Orientation::Vertical => Geometry {
            origin: Point {
                x: g.origin.x,
                y: clamp_i32(g.origin.y + k * (b.ratio as int * g.size.h as int / FIXED_ONE as int) + if k == 0 { 0 } else { half }) as i32,
            },
            size: Size { w: g.size.w, h: clamp_u32(max0(share * g.size.h as int / FIXED_ONE as int - half)) as u32 },
        },
    }
}

/// `a / b` rounded toward zero.
pub open spec fn tdiv(a: int, b: int) -> int {
    if a >= 0 { a / b } else { -((-a) / b) }
}

fn tdiv_exec(a: i128, b: i128) -> (r: i128)
    requires
        b > 0,
        a > i128::MIN,
    ensures
        r == tdiv(a as int, b as int),
{
    if a >= 0 {
        a / b
    } else {
        let n = -a;
        assert(0 <= (n as int) / (b as int) <= n as int) by (nonlinear_arith) requires n >= 0, b > 0;
        -((-a) / b)
    }
}

/// The rectangle of cell `k` of a grid: the parent's rectangle moved by the
/// cell's column and row distance from the active cell, in display sizes
/// times the accumulated scale.
pub open spec fn grid_rect(g: Grid, display: Geometry, f: Frame, k: int) -> Geometry {
    let c = g.columns as int;
    let a = g.active_subspace as int;
    let dx = tdiv((k % c - a % c) * display.size.w as int * f.scale_x as int, FIXED_ONE as int);
    let dy = tdiv((k / c - a / c) * display.size.h as int * f.scale_y as int, FIXED_ONE as int);
    Geometry {
        origin: Point { x: clamp_i32(f.rect.origin.x + dx) as i32, y: clamp_i32(f.rect.origin.y + dy) as i32 },
        size: f.rect.size,
    }
}

/// The frame that a padding hands its child: the rectangle shrunk by the
/// gap on every side (never below zero), moved by the offset, its size
/// scaled; the gap and the scales go down to the descendants.
pub open spec fn padding_frame(pd: Padding, f: Frame) -> Frame {
    let g = f.rect;
    let off = match pd.offset {
        Some(o) => o,
        None => Point { x: 0, y: 0 },
    };
    let w = max0(g.size.w as int - 2 * pd.gap_size as int);
    let h = max0(g.size.h as int - 2 * pd.gap_size as int);
    Frame {
        rect: Geometry {
            origin: Point {
                x: clamp_i32(off.x + g.origin.x + pd.gap_size) as i32,
                y: clamp_i32(off.y + g.origin.y + pd.gap_size) as i32,
            },
            size: Size {
                w: clamp_u32(w * pd.inner_scale_x as int / FIXED_ONE as int) as u32,
                h: clamp_u32(h * pd.inner_scale_y as int / FIXED_ONE as int) as u32,
            },
        },
        padding: pd.gap_size,
        scale_x: clamp_u32(f.scale_x as int * pd.inner_scale_x as int / FIXED_ONE as int) as u32,
        scale_y: clamp_u32(f.scale_y as int * pd.inner_scale_y as int / FIXED_ONE as int) as u32,
    }
}

/// The first position of `c` in `s`.
pub open spec fn first_index(s: Seq<LayoutElemID>, c: LayoutElemID) -> int {
    choose|k: int| 0 <= k < s.len() && s[k] == c && forall|j: int| 0 <= j < k ==> s[j] != c
}

/// The frame that the profile `p`, given `f`, hands its child `c`.
pub open spec fn child_frame(display: Geometry, p: LayoutElementProfile, f: Frame, c: LayoutElemID) -> Option<Frame> {
    match p {
        LayoutElementProfile::Bisect(b) => if b.left == c {
            Some(Frame { rect: bisect_rect(b, f, 0), ..f })
        } else if b.right == c {
            Some(Frame { rect: bisect_rect(b, f, 1), ..f })
        } else {
            None
        },
        LayoutElementProfile::Grid(g) => if g.cells@.contains(c) && g.columns > 0 {
            Some(Frame { rect: grid_rect(g, display, f, first_index(g.cells@, c)), ..f })
        } else {
            None
        },
        LayoutElementProfile::Padding(pd) => if pd.child == c {
            Some(padding_frame(pd, f))
        } else {
            None
        },
        _ => None,
    }
}

/// The frame of element `id`, handed down from the root; none for an
/// element that does not hang from the root.
pub open spec fn frame_of(e: Seq<LayoutElement>, display: Geometry, id: int) -> Option<Frame>
    decreases id,
{
    if id == 0 && e.len() > 0 {
        Some(root_frame(display))
    } else if 0 < id < e.len() {
        match e[id].parent_id {
            Some(p) => if (p as int) < id {
                match frame_of(e, display, p as int) {
                    Some(f) => child_frame(display, e[p as int].profile, f, id as LayoutElemID),
                    None => None,
                }
            } else {
                None
            },
            None => None,
        }
    } else {
        None
    }
}

/// A profile after arrangement: a window in a frame takes the frame's
/// rectangle, and is visible where that meets the display.
pub open spec fn placed(p: LayoutElementProfile, fr: Option<Frame>, display: Geometry) -> LayoutElementProfile {
    match p {
        LayoutElementProfile::Window(w) => match fr {
            Some(f) => LayoutElementProfile::Window(
                Window { desired_geometry: f.rect, visible: spec_overlaps(display, f.rect), ..w },
            ),
            None => p,
        },
        _ => p,
    }
}

/// The elements after arrangement.
pub open spec fn arranged(e: Seq<LayoutElement>, display: Geometry) -> Seq<LayoutElement> {
    Seq::new(e.len(), |i: int| LayoutElement { profile: placed(e[i].profile, frame_of(e, display, i), display), ..e[i] })
}

fn sat_i32(v: i128) -> (r: i32)
    ensures
        r == clamp_i32(v as int),
{
    if v < i32::MIN as i128 {
        i32::MIN
    } else if v > i32::MAX as i128 {
        i32::MAX
    } else {
        v as i32
    }
}

fn sat_u32(v: i128) -> (r: u32)
    ensures
        r == clamp_u32(v as int),
{
    if v < 0 {
        0
    } else if v > u32::MAX as i128 {
        u32::MAX
    } else {
        v as u32
    }
}

fn max0_exec(v: i128) -> (r: i128)
    ensures
        r == max0(v as int),
{
    if v < 0 { 0 } else { v }
}

proof fn lemma_mul_bound(a: int, b: int, amax: int, bmax: int)
    requires
        0 <= a <= amax,
        0 <= b <= bmax,
    ensures
        0 <= a * b <= amax * bmax,
{
    assert(0 <= a * b <= amax * bmax) by (nonlinear_arith)
        requires 0 <= a <= amax, 0 <= b <= bmax;
}

impl Bisect {
    /// The rectangle of child `k` (0 or 1) within the frame `f`.
    pub fn get_offset_geometry(&self, f: Frame, k: i64) -> (r: Geometry)
        requires
            k == 0 || k == 1,
        ensures
            r == bisect_rect(*self, f, k as int),
    {
        let g = f.rect;
        let half = (f.padding / 2) as i128;
        let ratio = self.ratio as i128;
        let share = if k == 0 { ratio } else { FIXED_ONE as i128 - ratio };
        let one = FIXED_ONE as i128;
        proof {
            lemma_mul_bound(self.ratio as int, g.size.w as int, u32::MAX as int, u32::MAX as int);
            lemma_mul_bound(self.ratio as int, g.size.h as int, u32::MAX as int, u32::MAX as int);
        }
        let lead = if k == 0 { 0 } else { half };
        match self.orientation {
            Orientation::Horizontal => {
                let w = g.size.w as i128;
                proof {
                    assert(-(u32::MAX as int) * (u32::MAX as int) <= share * w <= (u32::MAX as int) * (u32::MAX as int)) by (nonlinear_arith)
                        requires -(u32::MAX as int) <= share <= u32::MAX as int, 0 <= w <= u32::MAX as int;
                }
                let x = g.origin.x as i128 + (k as i128) * (ratio * w / one) + lead;
                Geometry {
                    origin: Point { x: sat_i32(x), y: g.origin.y },
                    size: Size { w: sat_u32(max0_exec(share * w / one - half)), h: g.size.h },
                }
            },
            Orientation::Vertical => {
                let h = g.size.h as i128;
                proof {
                    assert(-(u32::MAX as int) * (u32::MAX as int) <= share * h <= (u32::MAX as int) * (u32::MAX as int)) by (nonlinear_arith)
                        requires -(u32::MAX as int) <= share <= u32::MAX as int, 0 <= h <= u32::MAX as int;
                }
                let y = g.origin.y as i128 + (k as i128) * (ratio * h / one) + lead;
                Geometry {
                    origin: Point { x: g.origin.x, y: sat_i32(y) },
                    size: Size { w: g.size.w, h: sat_u32(max0_exec(share * h / one - half)) },
                }
            },
        }
    }
}

impl Grid {
    /// The rectangle of cell `k` within the frame `f`.
    pub fn get_offset_geometry(&self, display: Geometry, f: Frame, k: usize) -> (r: Geometry)
        requires
            self.columns > 0,
            self.active_subspace < self.cells@.len() <= 65535,
            k < self.cells@.len(),
        ensures
            r == grid_rect(*self, display, f, k as int),
    {
        let c = self.columns;
        let a = self.active_subspace;
        let dcol = (k % c) as i128 - (a % c) as i128;
        let drow = (k / c) as i128 - (a / c) as i128;
        proof {
            assert(k as int / c as int <= k) by (nonlinear_arith) requires c >= 1, k >= 0;
            assert(a as int / c as int <= a) by (nonlinear_arith) requires c >= 1, a >= 0;
            assert(k as int % c as int <= k) by (nonlinear_arith) requires c >= 1, k >= 0;
            assert(a as int % c as int <= a) by (nonlinear_arith) requires c >= 1, a >= 0;
            let m = 65535int * (u32::MAX as int) * (u32::MAX as int);
            assert(-65535int * (u32::MAX as int) <= dcol * display.size.w as int <= 65535int * (u32::MAX as int)) by (nonlinear_arith)
                requires -65535 <= dcol <= 65535, 0 <= display.size.w <= u32::MAX;
            assert(-65535int * (u32::MAX as int) <= drow * display.size.h as int <= 65535int * (u32::MAX as int)) by (nonlinear_arith)
                requires -65535 <= drow <= 65535, 0 <= display.size.h <= u32::MAX;
            assert(-m <= dcol * display.size.w as int * f.scale_x as int <= m) by (nonlinear_arith)
                requires -65535 <= dcol <= 65535, 0 <= display.size.w <= u32::MAX, 0 <= f.scale_x <= u32::MAX,
                m == 65535int * (u32::MAX as int) * (u32::MAX as int);
            assert(-m <= drow * display.size.h as int * f.scale_y as int <= m) by (nonlinear_arith)
                requires -65535 <= drow <= 65535, 0 <= display.size.h <= u32::MAX, 0 <= f.scale_y <= u32::MAX,
                m == 65535int * (u32::MAX as int) * (u32::MAX as int);
        }
        let dx = tdiv_exec(dcol * display.size.w as i128 * f.scale_x as i128, FIXED_ONE as i128);
        let dy = tdiv_exec(drow * display.size.h as i128 * f.scale_y as i128, FIXED_ONE as i128);
        Geometry {
            origin: Point { x: sat_i32(f.rect.origin.x as i128 + dx), y: sat_i32(f.rect.origin.y as i128 + dy) },
            size: f.rect.size,
        }
    }
}

impl Padding {
    /// The frame that this padding hands its child, within the frame `f`.
    pub fn get_offset_geometry(&self, f: Frame) -> (r: Frame)
        ensures
            r == padding_frame(*self, f),
    {
        let g = f.rect;
        let off = match self.offset {
            Some(o) => o,
            None => Point { x: 0, y: 0 },
        };
        let gap = self.gap_size as i128;
        let w = max0_exec(g.size.w as i128 - 2 * gap);
        let h = max0_exec(g.size.h as i128 - 2 * gap);
        let one = FIXED_ONE as i128;
        proof {
            lemma_mul_bound(w as int, self.inner_scale_x as int, u32::MAX as int, u32::MAX as int);
            lemma_mul_bound(h as int, self.inner_scale_y as int, u32::MAX as int, u32::MAX as int);
            lemma_mul_bound(f.scale_x as int, self.inner_scale_x as int, u32::MAX as int, u32::MAX as int);
            lemma_mul_bound(f.scale_y as int, self.inner_scale_y as int, u32::MAX as int, u32::MAX as int);
        }
        Frame {
            rect: Geometry {
                origin: Point {
                    x: sat_i32(off.x as i128 + g.origin.x as i128 + gap),
                    y: sat_i32(off.y as i128 + g.origin.y as i128 + gap),
                },
                size: Size {
                    w: sat_u32(w * self.inner_scale_x as i128 / one),
                    h: sat_u32(h * self.inner_scale_y as i128 / one),
                },
            },
            padding: self.gap_size,
            scale_x: sat_u32(f.scale_x as i128 * self.inner_scale_x as i128 / one),
            scale_y: sat_u32(f.scale_y as i128 * self.inner_scale_y as i128 / one),
        }
    }
}

/// The first position of `c` in `s`, where `s` holds it.
pub fn position_of(s: &Vec<LayoutElemID>, c: LayoutElemID) -> (r: Option<usize>)
    ensures
        r matches Some(k) ==> s@.contains(c) && k == first_index(s@, c) && k < s@.len(),
        r is None ==> !s@.contains(c),
{
    let mut i: usize = 0;
    while i < s.len()
        invariant
            i <= s@.len(),
            forall|j: int| 0 <= j < i ==> s@[j] != c,
        decreases s@.len() - i,
    {
        if s[i] == c {
            proof {
                let k = first_index(s@, c);
                assert(0 <= i < s@.len() && s@[i as int] == c && forall|j: int| 0 <= j < i ==> s@[j] != c);
                if k < i {
                    assert(s@[k] != c);
                }
                if k > i {
                    assert(s@[i as int] != c);
                }
            }
            return Some(i);
        }
        i += 1;
    }
    None
}

/// The frame that `p`, given `f`, hands its child `c`.
pub fn get_child_frame(display: Geometry, p: &LayoutElementProfile, f: Frame, c: LayoutElemID) -> (r: Option<Frame>)
    requires
        p matches LayoutElementProfile::Grid(g) ==> g.cells@.len() <= 65535 && g.active_subspace < g.cells@.len(),
    ensures
        r == child_frame(display, *p, f, c),
{
    match p {
        LayoutElementProfile::Bisect(b) => {
            if b.left == c {
                Some(Frame { rect: b.get_offset_geometry(f, 0), ..f })
            } else if b.right == c {
                Some(Frame { rect: b.get_offset_geometry(f, 1), ..f })
            } else {
                None
            }
        },
        LayoutElementProfile::Grid(g) => {
            if g.columns == 0 {
                return None;
            }
            match position_of(&g.cells, c) {
                Some(k) => Some(Frame { rect: g.get_offset_geometry(display, f, k), ..f }),
                None => None,
            }
        },
        LayoutElementProfile::Padding(pd) => {
            if pd.child == c {
                Some(pd.get_offset_geometry(f))
            } else {
                None
            }
        },
        _ => None,
    }
}

impl LayoutTree {
    /// The frame of every element, handed down from the root.
    pub fn frames(&self) -> (r: Vec<Option<Frame>>)
        requires
            structure_ok(self.elements@),
        ensures
            r@.len() == self.elements@.len(),
            forall|i: int| 0 <= i < r@.len() ==> r@[i] == frame_of(self.elements@, self.outer_geometry, i),
    {
        proof { reveal(structure_ok); }
        let e = &self.elements;
        let mut r: Vec<Option<Frame>> = Vec::new();
        r.push(Some(Frame { rect: self.outer_geometry, padding: 0, scale_x: FIXED_ONE, scale_y: FIXED_ONE }));
        let mut i: usize = 1;
        while i < e.len()
            invariant
                structure_ok(e@),
                e == &self.elements,
                1 <= i <= e@.len(),
                r@.len() == i,
                forall|j: int| 0 <= j < i ==> r@[j] == frame_of(e@, self.outer_geometry, j),
            decreases e@.len() - i,
        {
            let fr = match e[i].parent_id {
                Some(p) => {
                    if (p as usize) < i {
                        match r[p as usize] {
                            Some(f) => {
                                proof {
                                    reveal(structure_ok);
                                    assert(crate::tree::containers_shaped(e@));
                                    assert(match e@[p as int].profile {
                                        LayoutElementProfile::Grid(g) => g.well_formed() && g.cells@.len() <= 65535,
                                        _ => true,
                                    });
                                }
                                get_child_frame(self.outer_geometry, &e[p as usize].profile, f, i as LayoutElemID)
                            },
                            None => None,
                        }
                    } else {
                        None
                    }
                },
                None => None,
            };
            r.push(fr);
            i += 1;
        }
        r
    }
}

impl LayoutTree {
    /// Gives every window that hangs from the root the rectangle of its
    /// frame, and marks it visible exactly where that rectangle meets the
    /// display. Nothing else changes.
    pub fn arrange(&mut self)
        requires
            structure_ok(old(self).elements@),
        ensures
            final(self).elements@ == arranged(old(self).elements@, old(self).outer_geometry),
            final(self).tags == old(self).tags,
            final(self).focused_id == old(self).focused_id,
            final(self).outer_geometry == old(self).outer_geometry,
            final(self).transitions == old(self).transitions,
            final(self).easing == old(self).easing,
    {
        let frames = self.frames();
        let display = self.outer_geometry;
        let ghost e0 = self.elements@;
        let mut i: usize = 0;
        while i < self.elements.len()
            invariant
                frames@.len() == e0.len(),
                forall|j: int| 0 <= j < frames@.len() ==> frames@[j] == frame_of(e0, display, j),
                display == self.outer_geometry,
                self.tags == old(self).tags,
                self.focused_id == old(self).focused_id,
                self.outer_geometry == old(self).outer_geometry,
                self.transitions == old(self).transitions,
                self.easing == old(self).easing,
                i <= e0.len(),
                self.elements@.len() == e0.len(),
                forall|j: int| 0 <= j < i ==> self.elements@[j] == arranged(e0, display)[j],
                forall|j: int| i <= j < e0.len() ==> self.elements@[j] == e0[j],
            decreases e0.len() - i,
        {
            if let LayoutElementProfile::Window(w) = &self.elements[i].profile {
                if let Some(f) = frames[i] {
                    let visible = display.overlaps_geometry(f.rect);
                    let placed = Window { desired_geometry: f.rect, visible, ..*w };
                    self.elements[i].profile = LayoutElementProfile::Window(placed);
                }
            }
            i += 1;
        }
        assert(self.elements@ =~= arranged(e0, display));
    }
}

/// Arrangement reads the containers and the parents only, so the frames
/// of an arranged tree are those of the tree before.
proof fn lemma_frames_survive_arrangement(e: Seq<LayoutElement>, display: Geometry, id: int)
    ensures
        frame_of(arranged(e, display), display, id) == frame_of(e, display, id),
    decreases id,
{
    let a = arranged(e, display);
    if 0 < id < e.len() {
        if let Some(p) = e[id].parent_id {
            if (p as int) < id {
                lemma_frames_survive_arrangement(e, display, p as int);
                assert(a[p as int].profile is Window ==> e[p as int].profile is Window);
                match e[p as int].profile {
                    LayoutElementProfile::Window(_) => {},
                    _ => { assert(a[p as int].profile == e[p as int].profile); },
                }
            }
        }
    }
}

/// Arranging twice gives every window the rectangle and the visibility
/// that arranging once gave it.
pub proof fn lemma_arrange_idempotent(e: Seq<LayoutElement>, display: Geometry)
    ensures
        arranged(arranged(e, display), display) == arranged(e, display),
{
    let a = arranged(e, display);
    assert forall|i: int| 0 <= i < a.len() implies arranged(a, display)[i] == a[i] by {
        lemma_frames_survive_arrangement(e, display, i);
    }
    assert(arranged(a, display) =~= a);
}

/// The slot that a new window takes below `s`: `s` itself where it is
/// empty; below a padding, the slot below its child; below a bisection, an
/// empty child first, else the slot below the first child, else below the
/// second; below a grid, the slot below its active cell.
pub open spec fn first_unoccupied(e: Seq<LayoutElement>, s: int) -> Option<LayoutElemID>
    decreases e.len() - s,
{
    if !(0 <= s < e.len()) {
        None
    } else {
        match e[s].profile {
            LayoutElementProfile::Empty => Some(s as LayoutElemID),
            LayoutElementProfile::Padding(pd) => if s < pd.child < e.len() {
                first_unoccupied(e, pd.child as int)
            } else {
                None
            },
            LayoutElementProfile::Bisect(b) => if s < b.left < e.len() && s < b.right < e.len() {
                if e[b.left as int].profile is Empty {
                    Some(b.left)
                } else if e[b.right as int].profile is Empty {
                    Some(b.right)
                } else {
                    match first_unoccupied(e, b.left as int) {
                        Some(x) => Some(x),
                        None => first_unoccupied(e, b.right as int),
                    }
                }
            } else {
                None
            },
            LayoutElementProfile::Grid(g) => if g.active_subspace < g.cells@.len() && s < g.cells@[g.active_subspace as int] < e.len() {
                first_unoccupied(e, g.cells@[g.active_subspace as int] as int)
            } else {
                None
            },
            LayoutElementProfile::Window(_) => None,
        }
    }
}

/// Whether `w` is a window reached from `s`; where `active_only`, a grid is
/// entered through its active cell only.
pub open spec fn window_reach(e: Seq<LayoutElement>, s: int, active_only: bool, w: int) -> bool
    decreases e.len() - s,
{
    if !(0 <= s < e.len()) {
        false
    } else {
        match e[s].profile {
            LayoutElementProfile::Window(_) => w == s,
            LayoutElementProfile::Padding(pd) => s < pd.child < e.len() && window_reach(e, pd.child as int, active_only, w),
            LayoutElementProfile::Bisect(b) =>
                (s < b.left < e.len() && window_reach(e, b.left as int, active_only, w))
                || (s < b.right < e.len() && window_reach(e, b.right as int, active_only, w)),
            LayoutElementProfile::Grid(g) => if active_only {
                g.active_subspace < g.cells@.len() && s < g.cells@[g.active_subspace as int] < e.len()
                    && window_reach(e, g.cells@[g.active_subspace as int] as int, active_only, w)
            } else {
                exists|k: int| 0 <= k < g.cells@.len() && s < #[trigger] g.cells@[k] < e.len()
                    && window_reach(e, g.cells@[k] as int, active_only, w)
            },
            LayoutElementProfile::Empty => false,
        }
    }
}

/// The slot below `outer_element_id` that a new window takes.
pub fn find_first_unoccupied(tree: &LayoutTree, outer_element_id: LayoutElemID) -> (r: Option<LayoutElemID>)
    ensures
        r == first_unoccupied(tree.elements@, outer_element_id as int),
    decreases tree.elements@.len() - outer_element_id,
{
    let e = &tree.elements;
    let s = outer_element_id as usize;
    if s >= e.len() {
        return None;
    }
    match &e[s].profile {
        LayoutElementProfile::Empty => Some(outer_element_id),
        LayoutElementProfile::Padding(pd) => {
            if outer_element_id < pd.child && (pd.child as usize) < e.len() {
                find_first_unoccupied(tree, pd.child)
            } else {
                None
            }
        },
        LayoutElementProfile::Bisect(b) => {
            if outer_element_id < b.left && (b.left as usize) < e.len() && outer_element_id < b.right
                && (b.right as usize) < e.len() {
                if e[b.left as usize].profile.is_none() {
                    Some(b.left)
                } else if e[b.right as usize].profile.is_none() {
                    Some(b.right)
                } else {
                    match find_first_unoccupied(tree, b.left) {
                        Some(x) => Some(x),
                        None => find_first_unoccupied(tree, b.right),
                    }
                }
            } else {
                None
            }
        },
        LayoutElementProfile::Grid(g) => {
            if g.active_subspace < g.cells.len() {
                let c = g.cells[g.active_subspace];
                if outer_element_id < c && (c as usize) < e.len() {
                    find_first_unoccupied(tree, c)
                } else {
                    None
                }
            } else {
                None
            }
        },
        LayoutElementProfile::Window(_) => None,
    }
}

/// Appends to `matches` the windows reached from `outer_element_id`;
/// where `needs_to_be_active`, a grid is entered through its active cell only.
pub fn find_all_windows(
    matches: &mut Vec<LayoutElemID>,
    needs_to_be_active: bool,
    tree: &LayoutTree,
    outer_element_id: LayoutElemID,
)
    ensures
        forall|w: LayoutElemID| #[trigger] final(matches)@.contains(w) <==> old(matches)@.contains(w)
            || window_reach(tree.elements@, outer_element_id as int, needs_to_be_active, w as int),
    decreases tree.elements@.len() - outer_element_id,
{
    let e = &tree.elements;
    let s = outer_element_id as usize;
    if s >= e.len() {
        return;
    }
    let ghost m0 = matches@;
    match &e[s].profile {
        LayoutElementProfile::Window(_) => {
            matches.push(outer_element_id);
            assert forall|w: LayoutElemID| #[trigger] matches@.contains(w) <==> m0.contains(w) || w == outer_element_id by {
                if matches@.contains(w) && w != outer_element_id {
                    let j = choose|j: int| 0 <= j < matches@.len() && matches@[j] == w;
                    assert(m0[j] == w);
                }
                if m0.contains(w) {
                    let j = choose|j: int| 0 <= j < m0.len() && m0[j] == w;
                    assert(matches@[j] == w);
                }
                if w == outer_element_id {
                    assert(matches@[m0.len() as int] == w);
                }
            }
        },
        LayoutElementProfile::Padding(pd) => {
            if outer_element_id < pd.child && (pd.child as usize) < e.len() {
                find_all_windows(matches, needs_to_be_active, tree, pd.child);
            }
        },
        LayoutElementProfile::Bisect(b) => {
            if outer_element_id < b.left && (b.left as usize) < e.len() {
                find_all_windows(matches, needs_to_be_active, tree, b.left);
            }
            if outer_element_id < b.right && (b.right as usize) < e.len() {
                find_all_windows(matches, needs_to_be_active, tree, b.right);
            }
        },
        LayoutElementProfile::Grid(g) => {
            if needs_to_be_active {
                if g.active_subspace < g.cells.len() {
                    let c = g.cells[g.active_subspace];
                    if outer_element_id < c && (c as usize) < e.len() {
                        find_all_windows(matches, needs_to_be_active, tree, c);
                    }
                }
            } else {
                let mut k: usize = 0;
                while k < g.cells.len()
                    invariant
                        k <= g.cells@.len(),
                        e == &tree.elements,
                        s < e@.len(),
                        e@[s as int].profile == LayoutElementProfile::Grid(*g),
                        !needs_to_be_active,
                        forall|w: LayoutElemID| #[trigger] matches@.contains(w) <==> m0.contains(w)
                            || exists|j: int| 0 <= j < k && outer_element_id < #[trigger] g.cells@[j] < e@.len()
                                && window_reach(e@, g.cells@[j] as int, false, w as int),
                    decreases g.cells@.len() - k,
                {
                    let c = g.cells[k];
                    let ghost m1 = matches@;
                    if outer_element_id < c && (c as usize) < e.len() {
                        find_all_windows(matches, needs_to_be_active, tree, c);
                    }
                    assert forall|w: LayoutElemID| #[trigger] matches@.contains(w) <==> m0.contains(w)
                        || exists|j: int| 0 <= j < k + 1 && outer_element_id < #[trigger] g.cells@[j] < e@.len()
                            && window_reach(e@, g.cells@[j] as int, false, w as int) by {
                        if exists|j: int| 0 <= j < k + 1 && outer_element_id < #[trigger] g.cells@[j] < e@.len()
                            && window_reach(e@, g.cells@[j] as int, false, w as int) {
                            let j = choose|j: int| 0 <= j < k + 1 && outer_element_id < #[trigger] g.cells@[j] < e@.len()
                                && window_reach(e@, g.cells@[j] as int, false, w as int);
                            if j < k {
                                assert(m1.contains(w));
                            }
                        }
                    }
                    k += 1;
                }
            }
        },
        LayoutElementProfile::Empty => {},
    }
}

/// Arrangement keeps the tree well formed.
pub proof fn lemma_arranged_same_shape(e: Seq<LayoutElement>, display: Geometry)
    ensures
        crate::tree::same_shape(e, arranged(e, display)),
{
}

} // verus!
