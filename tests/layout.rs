use rustland::arrangement::Frame;
use rustland::config::{BackgroundConfig, LayoutConfig};
use rustland::element::{
    Bisect, Direction, Grid, LayoutElementProfile, Orientation, Padding, Property, Side, ViewRef, Window,
    FIXED_ONE,
};
use rustland::geometry::{Geometry, Point, Size};
use rustland::tree::LayoutTree;

fn default_tree() -> LayoutTree {
    LayoutConfig::default_config().construct_tree().expect("a three by three grid fits")
}

fn window(handle: u64, pid: i32) -> Window {
    let mut w = Window::init_dummy();
    w.attach_view(ViewRef { handle, pid });
    w
}

fn settle(tree: &mut LayoutTree) {
    for _ in 0..100 {
        tree.step_transitions(10);
    }
}

fn rect(x: i32, y: i32, w: u32, h: u32) -> Geometry {
    Geometry { origin: Point { x, y }, size: Size { w, h } }
}

#[test]
fn construct_tree_builds_root_jumper_grid_and_cells() {
    let tree = default_tree();
    assert_eq!(tree.elements.len(), 21);
    assert!(tree.elements[0].parent_id.is_none());
    match &tree.elements[0].profile {
        LayoutElementProfile::Padding(p) => {
            assert_eq!(p.child, 1);
            assert_eq!(p.gap_size, 100);
        }
        _ => panic!("root is a padding"),
    }
    match &tree.elements[2].profile {
        LayoutElementProfile::Grid(g) => {
            assert_eq!(g.cells, vec![3, 5, 7, 9, 11, 13, 15, 17, 19]);
            assert_eq!(g.columns, 3);
            assert_eq!(g.active_subspace, 0);
        }
        _ => panic!("element 2 is the grid"),
    }
    for k in 0..9u16 {
        assert_eq!(tree.elements[(4 + 2 * k) as usize].parent_id, Some(3 + 2 * k));
        assert!(tree.elements[(4 + 2 * k) as usize].profile.is_none());
    }
    assert_eq!(tree.lookup_element_by_tag("jumper"), vec![1]);
    assert_eq!(tree.lookup_element_by_tag("grid"), vec![2]);
    assert_eq!(tree.lookup_element_by_tag("mid_mid"), vec![11]);
    assert_eq!(tree.lookup_element_by_tag("sub"), vec![3]);
    assert_eq!(tree.lookup_element_by_tag("sub_2"), vec![5]);
    assert_eq!(tree.lookup_element_by_tag("sub_9"), vec![19]);
    assert_eq!(tree.transitions.len(), 1);
}

#[test]
fn construct_tree_refuses_empty_grid() {
    let mut cfg = LayoutConfig::default_config();
    cfg.workspace_columns = 0;
    assert!(cfg.construct_tree().is_none());
    let mut cfg = LayoutConfig::default_config();
    cfg.workspaces.clear();
    assert!(cfg.construct_tree().is_none());
    let mut cfg = LayoutConfig::default_config();
    cfg.workspace_columns = 4;
    assert_eq!(cfg.grid_height(), 2);
    assert_eq!(cfg.construct_tree().unwrap().elements.len(), 3 + 2 * 8);
}

#[test]
fn refresh_binds_computed_tags() {
    let mut tree = default_tree();
    assert!(tree.lookup_element_by_tag("root").is_empty());
    tree.refresh();
    assert_eq!(tree.lookup_element_by_tag("root"), vec![0]);
    assert_eq!(tree.lookup_element_by_tag("focused"), vec![0]);
    tree.focus_element(4);
    assert_eq!(tree.lookup_element_by_tag("focused"), vec![4]);
}

#[test]
fn arrange_places_window_in_active_cell() {
    let mut tree = default_tree();
    tree.reserve_element_identity(4, LayoutElementProfile::Window(window(1, 10)));
    tree.arrange();
    match &tree.elements[4].profile {
        LayoutElementProfile::Window(w) => {
            assert_eq!(w.desired_geometry, rect(300, 300, 40, 0));
        }
        _ => panic!("a window"),
    }
    settle(&mut tree);
    tree.arrange();
    match &tree.elements[4].profile {
        LayoutElementProfile::Window(w) => {
            assert_eq!(w.desired_geometry, rect(200, 200, 240, 80));
            assert!(w.visible);
        }
        _ => panic!("a window"),
    }
}

#[test]
fn arrange_hides_windows_of_other_cells() {
    let mut tree = default_tree();
    settle(&mut tree);
    tree.reserve_element_identity(6, LayoutElementProfile::Window(window(2, 11)));
    tree.reserve_element_identity(10, LayoutElementProfile::Window(window(3, 12)));
    tree.arrange();
    match &tree.elements[6].profile {
        LayoutElementProfile::Window(w) => {
            assert_eq!(w.desired_geometry, rect(840, 200, 240, 80));
            assert!(!w.visible);
        }
        _ => panic!("a window"),
    }
    match &tree.elements[10].profile {
        LayoutElementProfile::Window(w) => {
            assert_eq!(w.desired_geometry, rect(200, 680, 240, 80));
            assert!(!w.visible);
        }
        _ => panic!("a window"),
    }
}

#[test]
fn arrange_twice_gives_the_same_rectangles() {
    let mut tree = default_tree();
    settle(&mut tree);
    tree.reserve_element_identity(4, LayoutElementProfile::Window(window(1, 10)));
    tree.reserve_element_identity(8, LayoutElementProfile::Window(window(2, 11)));
    tree.arrange();
    let first: Vec<String> = tree.elements.iter().map(|e| format!("{:?}", e.profile)).collect();
    tree.arrange();
    let second: Vec<String> = tree.elements.iter().map(|e| format!("{:?}", e.profile)).collect();
    assert_eq!(first, second);
}

#[test]
fn bisect_halves_with_padding() {
    let b = Bisect { left: 1, right: 2, orientation: Orientation::Horizontal, ratio: 5000 };
    let f = Frame { rect: rect(0, 0, 100, 50), padding: 10, scale_x: FIXED_ONE, scale_y: FIXED_ONE };
    assert_eq!(b.get_offset_geometry(f, 0), rect(0, 0, 45, 50));
    assert_eq!(b.get_offset_geometry(f, 1), rect(55, 0, 45, 50));
    let v = Bisect { orientation: Orientation::Vertical, ratio: 2500, ..b };
    assert_eq!(v.get_offset_geometry(f, 0), rect(0, 0, 100, 7));
    assert_eq!(v.get_offset_geometry(f, 1), rect(0, 17, 100, 32));
}

#[test]
fn bisect_share_never_below_zero() {
    let b = Bisect { left: 1, right: 2, orientation: Orientation::Horizontal, ratio: 10 };
    let f = Frame { rect: rect(0, 0, 100, 50), padding: 40, scale_x: FIXED_ONE, scale_y: FIXED_ONE };
    assert_eq!(b.get_offset_geometry(f, 0).size.w, 0);
}

#[test]
fn grid_offsets_follow_active_cell() {
    let g = Grid { active_subspace: 4, columns: 3, cells: vec![1, 2, 3, 4, 5, 6, 7, 8, 9] };
    let display = rect(0, 0, 640, 480);
    let f = Frame { rect: rect(10, 20, 640, 480), padding: 0, scale_x: 5000, scale_y: FIXED_ONE };
    assert_eq!(g.get_offset_geometry(display, f, 4), rect(10, 20, 640, 480));
    assert_eq!(g.get_offset_geometry(display, f, 0), rect(-310, -460, 640, 480));
    assert_eq!(g.get_offset_geometry(display, f, 8), rect(330, 500, 640, 480));
}

#[test]
fn padding_shrinks_moves_and_scales() {
    let mut p = Padding::init(1, 10, Some(Point { x: 5, y: -5 }));
    p.inner_scale_x = 5000;
    let f = Frame { rect: rect(0, 0, 100, 15), padding: 3, scale_x: FIXED_ONE, scale_y: 2000 };
    let r = p.get_offset_geometry(f);
    assert_eq!(r.rect, rect(15, 5, 40, 0));
    assert_eq!(r.padding, 10);
    assert_eq!(r.scale_x, 5000);
    assert_eq!(r.scale_y, 2000);
}

#[test]
fn grid_moves_between_cells() {
    let mut g = Grid { active_subspace: 0, columns: 3, cells: vec![1, 2, 3, 4, 5, 6] };
    g.switch_to_subspace_in_direction(Direction::Left);
    assert_eq!(g.active_subspace, 0);
    g.switch_to_subspace_in_direction(Direction::Right);
    assert_eq!(g.active_subspace, 1);
    g.switch_to_subspace_in_direction(Direction::Down);
    assert_eq!(g.active_subspace, 4);
    g.switch_to_subspace_in_direction(Direction::Down);
    assert_eq!(g.active_subspace, 4);
    g.switch_to_subspace_in_direction(Direction::Right);
    g.switch_to_subspace_in_direction(Direction::Right);
    assert_eq!(g.active_subspace, 5);
    g.switch_to_subspace_in_direction(Direction::Up);
    assert_eq!(g.active_subspace, 2);
    g.set_active_subspace(-3);
    assert_eq!(g.active_subspace, 0);
    g.set_active_subspace(40);
    assert_eq!(g.active_subspace, 5);
    assert_eq!(g.get_active_child_id(), 6);
}

#[test]
fn properties_keep_to_their_ranges() {
    let mut p = LayoutElementProfile::Bisect(Bisect { left: 1, right: 2, orientation: Orientation::Vertical, ratio: 10 });
    assert_eq!(p.get_property(Property::Ratio), Some(10));
    p.set_property(Property::Ratio, 12000);
    assert_eq!(p.get_property(Property::Ratio), Some(9500));
    p.set_property(Property::Ratio, 0);
    assert_eq!(p.get_property(Property::Ratio), Some(500));
    assert_eq!(p.get_property(Property::GapSize), None);

    let mut q = LayoutElementProfile::Padding(Padding::init(1, 7, None));
    q.set_property(Property::GapSize, -5);
    assert_eq!(q.get_property(Property::GapSize), Some(0));
    q.set_property(Property::OffsetX, 3);
    assert_eq!(q.get_property(Property::OffsetX), None);
    let mut r = LayoutElementProfile::Padding(Padding::init(1, 7, Some(Point { x: 0, y: 0 })));
    r.set_property(Property::OffsetY, -20_000_000_000);
    assert_eq!(r.get_property(Property::OffsetY), Some(i32::MIN as i64));

    let mut w = Window::init_dummy();
    w.apply_frame(0);
    let mut wp = LayoutElementProfile::Window(w);
    wp.set_property(Property::FrameOpacity, 20000);
    assert_eq!(wp.get_property(Property::FrameOpacity), Some(10000));
    assert_eq!(Property::InnerScaleX.name(), "inner_scale_x");
}

#[test]
fn sides_and_orientations() {
    assert_eq!(Side::Left.opposite(), Side::Right);
    assert_eq!(Side::Right.opposite(), Side::Left);
    assert_eq!(Orientation::Vertical.opposite(), Orientation::Horizontal);
    let b = Bisect { left: 4, right: 9, orientation: Orientation::Vertical, ratio: 5000 };
    assert_eq!(b.child_side(9), Side::Right);
    assert_eq!(b.child_side(3), Side::Neither);
}

#[test]
fn parents_declare_their_children() {
    let tree = default_tree();
    for id in 1..tree.elements.len() as u16 {
        let p = tree.parent_of(id).expect("every element below the root has a parent");
        let declared = match &tree.elements[p as usize].profile {
            LayoutElementProfile::Padding(pd) => vec![pd.child],
            LayoutElementProfile::Grid(g) => g.cells.clone(),
            LayoutElementProfile::Bisect(b) => vec![b.left, b.right],
            _ => vec![],
        };
        assert!(declared.contains(&id));
    }
    assert_eq!(tree.parent_of(0), None);
    assert_eq!(tree.parent_of(500), None);
}

#[test]
fn view_bindings_follow_profiles() {
    let mut tree = default_tree();
    tree.reserve_element_identity(4, LayoutElementProfile::Window(window(77, 5)));
    assert_eq!(tree.lookup_element_from_view(77), Some(4));
    let old = tree.swap_element_profile(4, LayoutElementProfile::Empty);
    assert!(matches!(old, Some(LayoutElementProfile::Window(_))));
    assert_eq!(tree.lookup_element_from_view(77), None);
    assert!(tree.swap_element_profile(900, LayoutElementProfile::Empty).is_none());
}

#[test]
fn background_color() {
    let b = BackgroundConfig::default_config();
    assert_eq!(b.rgb(), Some((25, 25, 25)));
    let c = BackgroundConfig { wallpaper_path: None, rgb_color: vec![1, 2] };
    assert_eq!(c.rgb(), None);
}

#[test]
fn geometry_overlap_and_points() {
    let a = rect(0, 0, 10, 10);
    assert!(!a.overlaps_geometry(rect(10, 0, 5, 5)));
    assert!(a.overlaps_geometry(rect(5, 5, 10, 10)));
    assert!(!a.overlaps_geometry(rect(-20, 0, 5, 5)));
    assert!(a.contains_point(Point { x: 10, y: 10 }));
    assert!(!a.contains_point(Point { x: 11, y: 0 }));
    assert_eq!(Geometry::zero(), rect(0, 0, 0, 0));
}
