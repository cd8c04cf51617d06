//! The layout settings and the tree they build.

use vstd::prelude::*;
use crate::element::{
    Grid, LayoutElemID, LayoutElement, LayoutElementProfile, Padding, FIXED_ONE,
};
use crate::geometry::{Geometry, Point, Size};
use crate::tag::TagCondition;
use crate::tree::{structure_ok, LayoutTree, MAX_ELEMENTS, PARENT_ELEMENT};
use crate::element::Property;

verus! {

/// The gap of the root padding when the tree is built; it shrinks to zero.
pub const ROOT_GAP: u32 = 100;

/// The gap of the padding around each cell of the grid.
pub const CELL_GAP: u32 = 200;

/// The tag that every cell of the grid gets besides its own name.
pub const CELL_TAG: &'static str = "sub";

/// How the layout is built: the tags of its fixed elements, the grid of
/// workspaces, and the display.
pub struct LayoutConfig {
    pub root_tag: String,
    pub focused_tag: String,
    pub jumper_tag: String,
    pub grid_tag: String,
    pub workspace_columns: usize,
    pub workspaces: Vec<String>,
    pub monitor_resolution: Size,
}

/// The element `i` of a freshly built tree whose grid has `n` cells in
/// rows of `c`: a root padding, a jumper padding below it, the grid, and
/// for each cell a padding over an empty slot.
pub open spec fn initial_element(i: int, c: usize, n: int) -> LayoutElement {
    if i == 0 {
        LayoutElement { parent_id: None, element_id: 0, profile: LayoutElementProfile::Padding(
            Padding { child: 1, gap_size: ROOT_GAP, inner_scale_x: FIXED_ONE, inner_scale_y: FIXED_ONE, offset: None, frame_opacity: None }) }
    } else if i == 1 {
        LayoutElement { parent_id: Some(0), element_id: 1, profile: LayoutElementProfile::Padding(
            Padding { child: 2, gap_size: 0, inner_scale_x: FIXED_ONE, inner_scale_y: FIXED_ONE, offset: Some(Point { x: 0, y: 0 }), frame_opacity: None }) }
    } else if i == 2 {
        LayoutElement { parent_id: Some(1), element_id: 2, profile: LayoutElementProfile::Grid(
            Grid { active_subspace: 0, columns: c, cells: arbitrary() }) }
    } else if (i - 3) % 2 == 0 {
        LayoutElement { parent_id: Some(2), element_id: i as LayoutElemID, profile: LayoutElementProfile::Padding(
            Padding { child: (i + 1) as LayoutElemID, gap_size: CELL_GAP, inner_scale_x: FIXED_ONE, inner_scale_y: FIXED_ONE, offset: None, frame_opacity: None }) }
    } else {
        LayoutElement { parent_id: Some((i - 1) as LayoutElemID), element_id: i as LayoutElemID, profile: LayoutElementProfile::Empty }
    }
}

/// The cells of the grid of a freshly built tree.
pub open spec fn initial_cells(n: int) -> Seq<LayoutElemID> {
    Seq::new(n as nat, |k: int| (3 + 2 * k) as LayoutElemID)
}

/// Whether `e` is the freshly built tree of a grid of `n` cells in rows of `c`.
pub open spec fn is_initial(e: Seq<LayoutElement>, c: usize, n: int) -> bool {
    &&& e.len() == 3 + 2 * n
    &&& forall|i: int| 0 <= i < e.len() && i != 2 ==> #[trigger] e[i] == initial_element(i, c, n)
    &&& e[2].parent_id == Some(1u16)
    &&& e[2].element_id == 2
    &&& e[2].profile matches LayoutElementProfile::Grid(g) && g.active_subspace == 0 && g.columns == c && g.cells@ == initial_cells(n)
}

proof fn lemma_initial_well_formed(e: Seq<LayoutElement>, c: usize, n: int)
    requires
        is_initial(e, c, n),
        c > 0,
        n > 0,
        n % (c as int) == 0,
        3 + 2 * n <= MAX_ELEMENTS,
    ensures
        crate::tree::structure_ok(e),
{
    reveal(structure_ok);
    let cells = initial_cells(n);
    assert(cells.no_duplicates());
    assert forall|i: int| 0 <= i < e.len() implies (#[trigger] e[i]).element_id == i by {}
    assert forall|i: int| 0 < i < e.len() && (#[trigger] e[i]).parent_id is Some implies {
        let p = e[i].parent_id->0 as int;
        &&& p < i
        &&& crate::element::children_of(e[p].profile).contains(i as LayoutElemID)
    } by {
        if i >= 3 && (i - 3) % 2 == 0 {
            let k = (i - 3) / 2;
            assert(cells[k] == i as LayoutElemID);
        } else if i >= 3 {
            assert(crate::element::children_of(e[i - 1].profile)[0] == i as LayoutElemID);
        } else if i == 1 {
            assert(crate::element::children_of(e[0].profile)[0] == 1u16);
        } else {
            assert(crate::element::children_of(e[1].profile)[0] == 2u16);
        }
    }
    assert forall|p: int, k: int| 0 <= p < e.len() && 0 <= k < crate::element::children_of(e[p].profile).len() implies {
        let ch = (#[trigger] crate::element::children_of(e[p].profile)[k]) as int;
        &&& p < ch < e.len()
        &&& e[ch].parent_id == Some(p as LayoutElemID)
    } by {
        if p == 2 {
            assert(cells[k] == 3 + 2 * k);
            assert((3 + 2 * k - 3) % 2 == 0);
        } else if p >= 3 && (p - 3) % 2 == 0 {
            assert(((p + 1) - 3) % 2 != 0);
        }
    }
    assert forall|p: int| 0 <= p < e.len() implies match (#[trigger] e[p]).profile {
        LayoutElementProfile::Bisect(b) => b.left != b.right && b.ratio <= FIXED_ONE,
        LayoutElementProfile::Grid(g) => g.well_formed() && g.cells@.no_duplicates() && g.cells@.len() <= MAX_ELEMENTS,
        _ => true,
    } by {}
}

impl LayoutConfig {
    pub fn grid_width(&self) -> (r: usize)
        ensures
            r == self.workspace_columns,
    {
        self.workspace_columns
    }

    /// The rows of the grid: as many as the workspaces fill; none without
    /// columns.
    pub fn grid_height(&self) -> (r: usize)
        ensures
            r == if self.workspace_columns == 0 { 0 } else { self.workspaces@.len() / (self.workspace_columns as nat) },
    {
        if self.workspace_columns == 0 {
            0
        } else {
            self.workspaces.len() / self.workspace_columns
        }
    }

    pub fn monitor_geometry(&self) -> (r: Geometry)
        ensures
            r == (Geometry { origin: Point { x: 0, y: 0 }, size: self.monitor_resolution }),
    {
        Geometry { origin: Point { x: 0, y: 0 }, size: self.monitor_resolution }
    }

    /// Builds the tree: a root padding, a jumper padding, and a grid of
    /// workspaces, each a padding over an empty slot; tags the jumper, the
    /// grid and each named cell, registers the root and focus tags, and
    /// starts shrinking the root's gap to zero. None where the grid would
    /// be empty or too large for the identifiers.
    pub fn construct_tree(&self) -> (r: Option<LayoutTree>)
        ensures
            ({
                let c = self.workspace_columns as int;
                let rows = if c == 0 { 0 } else { self.workspaces@.len() as int / c };
                r is Some <==> c > 0 && rows > 0 && 3 + 2 * c * rows <= MAX_ELEMENTS
            }),
            r matches Some(t) ==> {
                &&& t.wf()
                &&& is_initial(t.elements@, self.workspace_columns, t.elements@.len() as int / 2 - 1)
                &&& t.outer_geometry == (Geometry { origin: Point { x: 0, y: 0 }, size: self.monitor_resolution })
                &&& t.focused_id == PARENT_ELEMENT
                &&& t.tags.tag_conditions@.len() == 2
                &&& t.tags.tag_conditions@[0].0@ == self.root_tag@
                &&& t.tags.tag_conditions@[0].1 == TagCondition::IsRoot
                &&& t.tags.tag_conditions@[1].0@ == self.focused_tag@
                &&& t.tags.tag_conditions@[1].1 == TagCondition::IsFocused
            },
    {
        let c = self.grid_width();
        let rows = self.grid_height();
        if c == 0 || rows == 0 || c > MAX_ELEMENTS || rows > MAX_ELEMENTS {
            proof {
                assert(2 * c * rows == 2 * (c * rows)) by (nonlinear_arith);
                if c > 0 && rows > 0 {
                    assert(c <= c * rows) by (nonlinear_arith) requires c > 0, rows > 0;
                    assert(rows <= c * rows) by (nonlinear_arith) requires c > 0, rows > 0;
                }
            }
            return None;
        }
        proof {
            assert(c * rows <= MAX_ELEMENTS * MAX_ELEMENTS) by (nonlinear_arith)
                requires c <= MAX_ELEMENTS, rows <= MAX_ELEMENTS;
            assert(2 * c * rows == 2 * (c * rows)) by (nonlinear_arith);
            assert(c * rows > 0) by (nonlinear_arith) requires c > 0, rows > 0;
        }
        if (c as u64) * (rows as u64) > ((MAX_ELEMENTS - 3) / 2) as u64 {
            return None;
        }
        let n = c * rows;
        proof {
            assert((n as int) % (c as int) == 0) by (nonlinear_arith) requires n == c * rows, c > 0;
        }
        let mut tree = LayoutTree::init(self.monitor_geometry());
        tree.tags.tag_element_on_condition(self.root_tag.as_str(), TagCondition::IsRoot);
        tree.tags.tag_element_on_condition(self.focused_tag.as_str(), TagCondition::IsFocused);
        let ghost tags0 = tree.tags;
        assert(tree.tags@ =~= Seq::<(Seq<char>, Seq<LayoutElemID>)>::empty());

        let mut cells: Vec<LayoutElemID> = Vec::new();
        let mut k: usize = 0;
        while k < n
            invariant
                k <= n,
                3 + 2 * n <= MAX_ELEMENTS,
                cells@ == initial_cells(k as int),
                tree.tags == tags0,
                tree.elements@.len() == 0,
                tree.outer_geometry == (Geometry { origin: Point { x: 0, y: 0 }, size: self.monitor_resolution }),
                tree.focused_id == PARENT_ELEMENT,
            decreases n - k,
        {
            cells.push((3 + 2 * k) as LayoutElemID);
            k += 1;
            assert(cells@ =~= initial_cells(k as int));
        }
        tree.elements.push(LayoutElement { parent_id: None, element_id: 0, profile: LayoutElementProfile::Padding(Padding::init(1, ROOT_GAP, None)) });
        tree.elements.push(LayoutElement { parent_id: Some(0), element_id: 1, profile: LayoutElementProfile::Padding(Padding::init(2, 0, Some(Point { x: 0, y: 0 }))) });
        tree.elements.push(LayoutElement { parent_id: Some(1), element_id: 2, profile: LayoutElementProfile::Grid(Grid { active_subspace: 0, columns: c, cells }) });
        let mut k: usize = 0;
        while k < n
            invariant
                k <= n,
                3 + 2 * n <= MAX_ELEMENTS,
                tree.elements@.len() == 3 + 2 * k,
                forall|i: int| 0 <= i < tree.elements@.len() && i != 2 ==> #[trigger] tree.elements@[i] == initial_element(i, c, n as int),
                tree.elements@[2].parent_id == Some(1u16),
                tree.elements@[2].element_id == 2,
                tree.elements@[2].profile matches LayoutElementProfile::Grid(g) && g.active_subspace == 0 && g.columns == c && g.cells@ == initial_cells(n as int),
                tree.tags == tags0,
                tree.outer_geometry == (Geometry { origin: Point { x: 0, y: 0 }, size: self.monitor_resolution }),
                tree.focused_id == PARENT_ELEMENT,
            decreases n - k,
        {
            let p = (3 + 2 * k) as LayoutElemID;
            tree.elements.push(LayoutElement { parent_id: Some(2), element_id: p, profile: LayoutElementProfile::Padding(Padding::init(p + 1, CELL_GAP, None)) });
            tree.elements.push(LayoutElement { parent_id: Some(p), element_id: p + 1, profile: LayoutElementProfile::Empty });
            k += 1;
            assert forall|i: int| 0 <= i < tree.elements@.len() && i != 2 implies #[trigger] tree.elements@[i] == initial_element(i, c, n as int) by {
                if i == p + 1 {
                    assert((i - 3) % 2 != 0);
                }
            }
        }
        proof {
            assert(is_initial(tree.elements@, c, n as int));
            lemma_initial_well_formed(tree.elements@, c, n as int);
            assert(n as int == tree.elements@.len() as int / 2 - 1);
        }
        let ghost conds = tree.tags.tag_conditions;
        tree.tags.tag_element(self.jumper_tag.as_str(), 1);
        tree.tags.tag_element(self.grid_tag.as_str(), 2);
        let mut k: usize = 0;
        while k < n
            invariant
                k <= n,
                3 + 2 * n <= MAX_ELEMENTS,
                tree.tags.wf(),
                tree.tags@.len() <= 2 + 2 * k,
                tree.tags.view_bindings@.len() == 0,
                tree.tags.tag_conditions == conds,
                tree.elements@.len() == 3 + 2 * n,
                structure_ok(tree.elements@),
                is_initial(tree.elements@, c, n as int),
                n as int == tree.elements@.len() as int / 2 - 1,
                tree.outer_geometry == (Geometry { origin: Point { x: 0, y: 0 }, size: self.monitor_resolution }),
                tree.focused_id == PARENT_ELEMENT,
            decreases n - k,
        {
            if k < self.workspaces.len() {
                tree.tags.tag_element(self.workspaces[k].as_str(), (3 + 2 * k) as LayoutElemID);
            }
            tree.tags.tag_element(CELL_TAG, (3 + 2 * k) as LayoutElemID);
            k += 1;
        }
        tree.animate_property(0, Property::GapSize, 0, false, 250);
        Some(tree)
    }
}

impl LayoutConfig {
    /// The settings of a three by three grid on a small display.
    pub fn default_config() -> (r: LayoutConfig)
        ensures
            r.workspace_columns == 3,
            r.workspaces@.len() == 9,
    {
        let mut workspaces: Vec<String> = Vec::new();
        workspaces.push("upper_left".to_owned());
        workspaces.push("upper_mid".to_owned());
        workspaces.push("upper_right".to_owned());
        workspaces.push("mid_left".to_owned());
        workspaces.push("mid_mid".to_owned());
        workspaces.push("mid_right".to_owned());
        workspaces.push("bottom_left".to_owned());
        workspaces.push("bottom_mid".to_owned());
        workspaces.push("bottom_right".to_owned());
        LayoutConfig {
            root_tag: "root".to_owned(),
            focused_tag: "focused".to_owned(),
            jumper_tag: "jumper".to_owned(),
            grid_tag: "grid".to_owned(),
            workspace_columns: 3,
            workspaces,
            monitor_resolution: Size { w: 640, h: 480 },
        }
    }
}

/// How the background is drawn: a wallpaper, where one is given, over a
/// solid color.
pub struct BackgroundConfig {
    pub wallpaper_path: Option<String>,
    pub rgb_color: Vec<u8>,
}

impl BackgroundConfig {
    /// No wallpaper, over a dark gray.
    pub fn default_config() -> (r: BackgroundConfig)
        ensures
            r.wallpaper_path is None,
            r.rgb_color@ == seq![25u8, 25u8, 25u8],
    {
        let rgb_color = vec![25u8, 25u8, 25u8];
        assert(rgb_color@ =~= seq![25u8, 25u8, 25u8]);
        BackgroundConfig { wallpaper_path: None, rgb_color }
    }

    /// The color as red, green and blue, where exactly three are given.
    pub fn rgb(&self) -> (r: Option<(u8, u8, u8)>)
        ensures
            self.rgb_color@.len() == 3 ==> r == Some((self.rgb_color@[0], self.rgb_color@[1], self.rgb_color@[2])),
            self.rgb_color@.len() != 3 ==> r is None,
    {
        if self.rgb_color.len() == 3 {
            Some((self.rgb_color[0], self.rgb_color[1], self.rgb_color[2]))
        } else {
            None
        }
    }
}

} // verus!
