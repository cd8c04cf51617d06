//! The element model: what an element of the layout tree holds, and the
//! named numeric properties that each kind of element exposes.

use vstd::prelude::*;
use crate::geometry::{Geometry, Point, clamp_i32, clamp_u32, saturate_i32, saturate_u32};

verus! {

/// The identifier of an element of the layout tree.
pub type LayoutElemID = u16;

/// The process identifier of an external window.
pub type ViewPID = i32;

/// The fixed-point unit of fractional quantities: ratios, scales and opacities
/// are held in ten-thousandths.
pub const FIXED_ONE: u32 = 10000;

/// The least ratio that a bisection can be given through its property.
pub const RATIO_MIN: u32 = 500;

/// The largest ratio that a bisection can be given through its property.
pub const RATIO_MAX: u32 = 9500;

#[derive(Clone, Copy, Debug, PartialEq, Eq, Structural)]
pub enum Orientation {
    Horizontal,
    Vertical,
}

impl Orientation {
    pub fn opposite(&self) -> (r: Self)
        ensures
            r != *self,
    {
        match self {
            Orientation::Horizontal => Orientation::Vertical,
            Orientation::Vertical => Orientation::Horizontal,
        }
    }
}

#[derive(Clone, Copy, Debug, PartialEq, Eq, Structural)]
pub enum Side {
    Left,
    Right,
    Neither,
}

impl Side {
    pub fn opposite(&self) -> (r: Self)
        requires
            *self != Side::Neither,
        ensures
            *self == Side::Left ==> r == Side::Right,
            *self == Side::Right ==> r == Side::Left,
    {
        match self {
            Side::Left => Side::Right,
            _ => Side::Left,
        }
    }
}

/// A handle to an external window: an identity given by the window system,
/// and the process that owns the window.
#[derive(Clone, Copy, Debug, PartialEq, Eq, Structural)]
pub struct ViewRef {
    pub handle: u64,
    pub pid: ViewPID,
}

/// A container that splits its rectangle between exactly two children.
#[derive(Clone, Copy, Debug, PartialEq, Eq, Structural)]
pub struct Bisect {
    pub left: LayoutElemID,
    pub right: LayoutElemID,
    pub orientation: Orientation,
    /// The share of the left child, in ten-thousandths.
    pub ratio: u32,
}

impl Bisect {
    pub fn child_side(&self, element_ident: LayoutElemID) -> (r: Side)
        ensures
            r == spec_child_side(*self, element_ident),
    {
        if self.left == element_ident {
            Side::Left
        } else if self.right == element_ident {
            Side::Right
        } else {
            Side::Neither
        }
    }

    pub fn get_orientation(&self) -> (r: Orientation)
        ensures
            r == self.orientation,
    {
        self.orientation
    }
}

pub open spec fn spec_child_side(b: Bisect, id: LayoutElemID) -> Side {
    if b.left == id {
        Side::Left
    } else if b.right == id {
        Side::Right
    } else {
        Side::Neither
    }
}

/// A container of `columns * rows` cells, one of which is active.
#[derive(Clone, Debug)]
pub struct Grid {
    pub active_subspace: usize,
    pub columns: usize,
    pub cells: Vec<LayoutElemID>,
}

/// A direction in which the active cell of a grid can move.
#[derive(Clone, Copy, Debug, PartialEq, Eq, Structural)]
pub enum Direction {
    Left,
    Right,
    Up,
    Down,
}

impl Grid {
    pub open spec fn well_formed(&self) -> bool {
        &&& self.columns > 0
        &&& self.cells@.len() > 0
        &&& (self.cells@.len() as int) % (self.columns as int) == 0
        &&& self.active_subspace < self.cells@.len()
    }

    pub fn get_active_child_id(&self) -> (r: LayoutElemID)
        requires
            self.well_formed(),
        ensures
            r == self.cells@[self.active_subspace as int],
    {
        self.cells[self.active_subspace]
    }

    pub fn active_subspace(&self) -> (r: usize)
        ensures
            r == self.active_subspace,
    {
        self.active_subspace
    }

    /// A copy of this grid.
    pub fn clone_grid(&self) -> (r: Grid)
        ensures
            r.active_subspace == self.active_subspace,
            r.columns == self.columns,
            r.cells@ == self.cells@,
    {
        let mut cells: Vec<LayoutElemID> = Vec::new();
        let mut i: usize = 0;
        while i < self.cells.len()
            invariant
                i <= self.cells@.len(),
                cells@ == self.cells@.take(i as int),
            decreases self.cells@.len() - i,
        {
            cells.push(self.cells[i]);
            i += 1;
            assert(cells@ =~= self.cells@.take(i as int));
        }
        assert(self.cells@.take(i as int) =~= self.cells@);
        Grid { active_subspace: self.active_subspace, columns: self.columns, cells }
    }

    pub fn get_all_children(&self) -> (r: &Vec<LayoutElemID>)
        ensures
            r@ == self.cells@,
    {
        &self.cells
    }

    /// Makes the cell at `new_subspace` active, held to the cells that exist.
    pub fn set_active_subspace(&mut self, new_subspace: i64)
        requires
            old(self).well_formed(),
        ensures
            final(self).well_formed(),
            final(self).cells == old(self).cells,
            final(self).columns == old(self).columns,
            final(self).active_subspace as int == if new_subspace < 0 {
                0
            } else if new_subspace >= old(self).cells@.len() {
                old(self).cells@.len() - 1
            } else {
                new_subspace as int
            },
    {
        if new_subspace < 0 {
            self.active_subspace = 0;
        } else if new_subspace as u64 >= self.cells.len() as u64 {
            self.active_subspace = self.cells.len() - 1;
        } else {
            self.active_subspace = new_subspace as usize;
        }
    }

    /// Moves the active cell one step in `direction`, staying put at an edge.
    pub fn switch_to_subspace_in_direction(&mut self, direction: Direction)
        requires
            old(self).well_formed(),
        ensures
            final(self).well_formed(),
            final(self).cells == old(self).cells,
            final(self).columns == old(self).columns,
            final(self).active_subspace == spec_step(
                old(self).active_subspace as int,
                old(self).columns as int,
                old(self).cells@.len() as int,
                direction,
            ),
    {
        let a = self.active_subspace;
        let c = self.columns;
        let n = self.cells.len();
        let next = match direction {
            Direction::Left => if a > 0 && a % c > 0 { a - 1 } else { a },
            Direction::Right => if (a + 1) % c > 0 && a + 1 < n { a + 1 } else { a },
            Direction::Up => if a >= c { a - c } else { a },
            Direction::Down => if c < n && a < n - c { a + c } else { a },
        };
        assert(0nat % (c as nat) == 0) by (nonlinear_arith) requires c > 0;
        self.active_subspace = next;
    }
}

/// The cell that is active after one step from `a` in `d`, on a grid of
/// `n` cells in rows of `c`.
pub open spec fn spec_step(a: int, c: int, n: int, d: Direction) -> int {
    match d {
        Direction::Left => if a % c > 0 { a - 1 } else { a },
        Direction::Right => if (a + 1) % c > 0 && a + 1 < n { a + 1 } else { a },
        Direction::Up => if a >= c { a - c } else { a },
        Direction::Down => if a + c < n { a + c } else { a },
    }
}

/// A container of one child, inset by a gap on every side, optionally moved
/// by an absolute offset and scaled.
#[derive(Clone, Copy, Debug, PartialEq, Eq, Structural)]
pub struct Padding {
    pub child: LayoutElemID,
    pub gap_size: u32,
    /// Horizontal scale of the inner rectangle, in ten-thousandths.
    pub inner_scale_x: u32,
    /// Vertical scale of the inner rectangle, in ten-thousandths.
    pub inner_scale_y: u32,
    pub offset: Option<Point>,
    /// The opacity of a drawn frame, in ten-thousandths, where it has one.
    pub frame_opacity: Option<u32>,
}

impl Padding {
    pub fn init(child: LayoutElemID, gap_size: u32, offset: Option<Point>) -> (r: Padding)
        ensures
            r == (Padding {
                child,
                gap_size,
                inner_scale_x: FIXED_ONE,
                inner_scale_y: FIXED_ONE,
                offset,
                frame_opacity: None,
            }),
    {
        Padding {
            child,
            gap_size,
            inner_scale_x: FIXED_ONE,
            inner_scale_y: FIXED_ONE,
            offset,
            frame_opacity: None,
        }
    }

    /// Gives the padding a frame of the given opacity.
    pub fn apply_frame(&mut self, initial_opacity: u32)
        ensures
            *final(self) == (Padding { frame_opacity: Some(initial_opacity), ..*old(self) }),
    {
        self.frame_opacity = Some(initial_opacity);
    }
}

/// A leaf that shows an external window, or none while detached.
#[derive(Clone, Copy, Debug, PartialEq, Eq, Structural)]
pub struct Window {
    pub view: Option<ViewRef>,
    /// The rectangle that the last arrangement gave the window.
    pub desired_geometry: Geometry,
    /// Whether the last arrangement found the window on the display.
    pub visible: bool,
    /// Whether the window holds the input focus.
    pub activated: bool,
    /// The opacity of a drawn frame, in ten-thousandths, where it has one.
    pub frame_opacity: Option<u32>,
}

impl Window {
    pub fn init_dummy() -> (r: Window)
        ensures
            r.view is None,
            r.frame_opacity is None,
            !r.visible,
            !r.activated,
    {
        Window { view: None, desired_geometry: Geometry::zero(), visible: false, activated: false, frame_opacity: None }
    }

    pub fn attach_view(&mut self, view: ViewRef)
        ensures
            *final(self) == (Window { view: Some(view), ..*old(self) }),
    {
        self.view = Some(view);
    }

    pub fn detach_view(&mut self) -> (r: Option<ViewRef>)
        ensures
            r == old(self).view,
            *final(self) == (Window { view: None, ..*old(self) }),
    {
        let r = self.view;
        self.view = None;
        r
    }

    pub fn get_view(&self) -> (r: Option<ViewRef>)
        ensures
            r == self.view,
    {
        self.view
    }

    pub fn get_desired_geometry(&self) -> (r: Geometry)
        ensures
            r == self.desired_geometry,
    {
        self.desired_geometry
    }

    pub fn apply_frame(&mut self, initial_opacity: u32)
        ensures
            *final(self) == (Window { frame_opacity: Some(initial_opacity), ..*old(self) }),
    {
        self.frame_opacity = Some(initial_opacity);
    }
}

/// What an element of the layout tree is.
#[derive(Clone, Debug)]
pub enum LayoutElementProfile {
    /// An unoccupied slot.
    Empty,
    Bisect(Bisect),
    Grid(Grid),
    Padding(Padding),
    Window(Window),
}

impl LayoutElementProfile {
    pub fn is_none(&self) -> (r: bool)
        ensures
            r == self is Empty,
    {
        match self {
            LayoutElementProfile::Empty => true,
            _ => false,
        }
    }

    /// A short name of the kind of profile.
    pub fn kind_name(&self) -> (r: &'static str)
        ensures
            r@ == spec_kind_name(*self)@,
    {
        match self {
            LayoutElementProfile::Bisect(_) => "bisect",
            LayoutElementProfile::Grid(_) => "grid",
            LayoutElementProfile::Padding(_) => "padding",
            LayoutElementProfile::Window(_) => "window",
            LayoutElementProfile::Empty => "n/a",
        }
    }
}

pub open spec fn spec_kind_name(p: LayoutElementProfile) -> &'static str {
    match p {
        LayoutElementProfile::Bisect(_) => "bisect",
        LayoutElementProfile::Grid(_) => "grid",
        LayoutElementProfile::Padding(_) => "padding",
        LayoutElementProfile::Window(_) => "window",
        LayoutElementProfile::Empty => "n/a",
    }
}

/// The children that a profile declares, in order.
pub open spec fn children_of(p: LayoutElementProfile) -> Seq<LayoutElemID> {
    match p {
        LayoutElementProfile::Bisect(b) => seq![b.left, b.right],
        LayoutElementProfile::Grid(g) => g.cells@,
        LayoutElementProfile::Padding(pd) => seq![pd.child],
        _ => Seq::empty(),
    }
}

/// The named numeric properties that elements expose for animation.
#[derive(Clone, Copy, Debug, PartialEq, Eq, Structural)]
pub enum Property {
    Ratio,
    GapSize,
    InnerScaleX,
    InnerScaleY,
    OffsetX,
    OffsetY,
    FrameOpacity,
}

/// Every property, in the order of their names.
pub open spec fn all_properties() -> Seq<Property> {
    seq![
        Property::FrameOpacity,
        Property::GapSize,
        Property::InnerScaleX,
        Property::InnerScaleY,
        Property::OffsetX,
        Property::OffsetY,
        Property::Ratio,
    ]
}

impl Property {
    pub fn name(&self) -> (r: &'static str)
        ensures
            r@ == spec_property_name(*self)@,
    {
        match self {
            Property::Ratio => "ratio",
            Property::GapSize => "gap_size",
            Property::InnerScaleX => "inner_scale_x",
            Property::InnerScaleY => "inner_scale_y",
            Property::OffsetX => "offset_x",
            Property::OffsetY => "offset_y",
            Property::FrameOpacity => "frame_opacity",
        }
    }

    /// Every property, in the order of their names.
    pub fn all() -> (r: Vec<Property>)
        ensures
            r@ == all_properties(),
    {
        let r = vec![
            Property::FrameOpacity,
            Property::GapSize,
            Property::InnerScaleX,
            Property::InnerScaleY,
            Property::OffsetX,
            Property::OffsetY,
            Property::Ratio,
        ];
        assert(r@ =~= all_properties());
        r
    }
}

pub open spec fn spec_property_name(p: Property) -> &'static str {
    match p {
        Property::Ratio => "ratio",
        Property::GapSize => "gap_size",
        Property::InnerScaleX => "inner_scale_x",
        Property::InnerScaleY => "inner_scale_y",
        Property::OffsetX => "offset_x",
        Property::OffsetY => "offset_y",
        Property::FrameOpacity => "frame_opacity",
    }
}

/// `v` held to `[lo, hi]`.
pub open spec fn clamp_int(v: int, lo: int, hi: int) -> int {
    if v < lo {
        lo
    } else if v > hi {
        hi
    } else {
        v
    }
}

/// The value of a property of a profile, where the profile exposes it.
pub open spec fn spec_get_property(p: LayoutElementProfile, prop: Property) -> Option<int> {
    match p {
        LayoutElementProfile::Bisect(b) => match prop {
            Property::Ratio => Some(b.ratio as int),
            _ => None,
        },
        LayoutElementProfile::Padding(pd) => match prop {
            Property::GapSize => Some(pd.gap_size as int),
            Property::InnerScaleX => Some(pd.inner_scale_x as int),
            Property::InnerScaleY => Some(pd.inner_scale_y as int),
            Property::OffsetX => match pd.offset {
                Some(o) => Some(o.x as int),
                None => None,
            },
            Property::OffsetY => match pd.offset {
                Some(o) => Some(o.y as int),
                None => None,
            },
            Property::FrameOpacity => match pd.frame_opacity {
                Some(o) => Some(o as int),
                None => None,
            },
            _ => None,
        },
        LayoutElementProfile::Window(w) => match prop {
            Property::FrameOpacity => match w.frame_opacity {
                Some(o) => Some(o as int),
                None => None,
            },
            _ => None,
        },
        _ => None,
    }
}

/// The profile after writing `v` to a property: each field keeps to its
/// range, a ratio to `[RATIO_MIN, RATIO_MAX]` and an opacity to `[0, FIXED_ONE]`.
/// A property that the profile does not expose leaves it as it is.
pub open spec fn spec_set_property(
    p: LayoutElementProfile,
    prop: Property,
    v: int,
) -> LayoutElementProfile {
    match p {
        LayoutElementProfile::Bisect(b) => match prop {
            Property::Ratio => LayoutElementProfile::Bisect(
                Bisect { ratio: clamp_int(v, RATIO_MIN as int, RATIO_MAX as int) as u32, ..b },
            ),
            _ => p,
        },
        LayoutElementProfile::Padding(pd) => match prop {
            Property::GapSize => LayoutElementProfile::Padding(
                Padding { gap_size: clamp_u32(v) as u32, ..pd },
            ),
            Property::InnerScaleX => LayoutElementProfile::Padding(
                Padding { inner_scale_x: clamp_u32(v) as u32, ..pd },
            ),
            Property::InnerScaleY => LayoutElementProfile::Padding(
                Padding { inner_scale_y: clamp_u32(v) as u32, ..pd },
            ),
            Property::OffsetX => match pd.offset {
                Some(o) => LayoutElementProfile::Padding(
                    Padding { offset: Some(Point { x: clamp_i32(v) as i32, ..o }), ..pd },
                ),
                None => p,
            },
            Property::OffsetY => match pd.offset {
                Some(o) => LayoutElementProfile::Padding(
                    Padding { offset: Some(Point { y: clamp_i32(v) as i32, ..o }), ..pd },
                ),
                None => p,
            },
            Property::FrameOpacity => match pd.frame_opacity {
                Some(_) => LayoutElementProfile::Padding(
                    Padding {
                        frame_opacity: Some(clamp_int(v, 0, FIXED_ONE as int) as u32),
                        ..pd
                    },
                ),
                None => p,
            },
            _ => p,
        },
        LayoutElementProfile::Window(w) => match prop {
            Property::FrameOpacity => match w.frame_opacity {
                Some(_) => LayoutElementProfile::Window(
                    Window { frame_opacity: Some(clamp_int(v, 0, FIXED_ONE as int) as u32), ..w },
                ),
                None => p,
            },
            _ => p,
        },
        _ => p,
    }
}

/// `v` held to `[lo, hi]`.
pub fn clamp(v: i64, lo: i64, hi: i64) -> (r: i64)
    requires
        lo <= hi,
    ensures
        r == clamp_int(v as int, lo as int, hi as int),
{
    if v < lo {
        lo
    } else if v > hi {
        hi
    } else {
        v
    }
}

impl LayoutElementProfile {
    /// Reads a property, where this profile exposes it.
    pub fn get_property(&self, prop: Property) -> (r: Option<i64>)
        ensures
            r matches Some(v) ==> spec_get_property(*self, prop) == Some(v as int),
            r is None ==> spec_get_property(*self, prop) is None,
    {
        match self {
            LayoutElementProfile::Bisect(b) => match prop {
                Property::Ratio => Some(b.ratio as i64),
                _ => None,
            },
            LayoutElementProfile::Padding(pd) => match prop {
                Property::GapSize => Some(pd.gap_size as i64),
                Property::InnerScaleX => Some(pd.inner_scale_x as i64),
                Property::InnerScaleY => Some(pd.inner_scale_y as i64),
                Property::OffsetX => match pd.offset {
                    Some(o) => Some(o.x as i64),
                    None => None,
                },
                Property::OffsetY => match pd.offset {
                    Some(o) => Some(o.y as i64),
                    None => None,
                },
                Property::FrameOpacity => match pd.frame_opacity {
                    Some(o) => Some(o as i64),
                    None => None,
                },
                _ => None,
            },
            LayoutElementProfile::Window(w) => match prop {
                Property::FrameOpacity => match w.frame_opacity {
                    Some(o) => Some(o as i64),
                    None => None,
                },
                _ => None,
            },
            _ => None,
        }
    }

    /// Writes a property, held to the range of its field; a property that
    /// this profile does not expose leaves it as it is.
    pub fn set_property(&mut self, prop: Property, v: i64)
        ensures
            *final(self) == spec_set_property(*old(self), prop, v as int),
    {
        match self {
            LayoutElementProfile::Bisect(b) => {
                if prop == Property::Ratio {
                    b.ratio = clamp(v, RATIO_MIN as i64, RATIO_MAX as i64) as u32;
                }
            },
            LayoutElementProfile::Padding(pd) => {
                match prop {
                    Property::GapSize => pd.gap_size = saturate_u32(v),
                    Property::InnerScaleX => pd.inner_scale_x = saturate_u32(v),
                    Property::InnerScaleY => pd.inner_scale_y = saturate_u32(v),
                    Property::OffsetX => {
                        if let Some(o) = pd.offset {
                            pd.offset = Some(Point { x: saturate_i32(v), ..o });
                        }
                    },
                    Property::OffsetY => {
                        if let Some(o) = pd.offset {
                            pd.offset = Some(Point { y: saturate_i32(v), ..o });
                        }
                    },
                    Property::FrameOpacity => {
                        if pd.frame_opacity.is_some() {
                            pd.frame_opacity = Some(clamp(v, 0, FIXED_ONE as i64) as u32);
                        }
                    },
                    _ => {},
                }
            },
            LayoutElementProfile::Window(w) => {
                if prop == Property::FrameOpacity && w.frame_opacity.is_some() {
                    w.frame_opacity = Some(clamp(v, 0, FIXED_ONE as i64) as u32);
                }
            },
            _ => {},
        }
    }
}

/// Whether `v` holds `id`.
pub fn contains_id(v: &Vec<LayoutElemID>, id: LayoutElemID) -> (r: bool)
    ensures
        r == v@.contains(id),
{
    let mut i: usize = 0;
    while i < v.len()
        invariant
            i <= v@.len(),
            forall|j: int| 0 <= j < i ==> v@[j] != id,
        decreases v@.len() - i,
    {
        if v[i] == id {
            return true;
        }
        i += 1;
    }
    false
}

/// Whether profile `p` declares `id` as a child.
pub fn contains_id_in_profile(p: &LayoutElementProfile, id: LayoutElemID) -> (r: bool)
    ensures
        r == children_of(*p).contains(id),
{
    match p {
        LayoutElementProfile::Bisect(b) => {
            proof {
                assert(children_of(*p)[0] == b.left);
                assert(children_of(*p)[1] == b.right);
            }
            b.left == id || b.right == id
        },
        LayoutElementProfile::Grid(g) => contains_id(&g.cells, id),
        LayoutElementProfile::Padding(pd) => {
            proof { assert(children_of(*p)[0] == pd.child); }
            pd.child == id
        },
        _ => false,
    }
}

/// One element of the layout tree.
#[derive(Clone, Debug)]
pub struct LayoutElement {
    pub parent_id: Option<LayoutElemID>,
    pub element_id: LayoutElemID,
    pub profile: LayoutElementProfile,
}

impl LayoutElement {
    pub fn init_dummy(element_id: LayoutElemID, parent_id: Option<LayoutElemID>) -> (r:
        LayoutElement)
        ensures
            r.element_id == element_id,
            r.parent_id == parent_id,
            r.profile is Empty,
    {
        LayoutElement { parent_id, element_id, profile: LayoutElementProfile::Empty }
    }
}

} // verus!
