use rustland::config::LayoutConfig;
use rustland::element::{Direction, LayoutElementProfile, Orientation, Property, ViewRef, Window};
use rustland::geometry::Point;
use rustland::frame::{frame_payload, split_frame, SOCKET_DETERMINANT};
use rustland::job::{job_from_args, parse_job_type, process_job, Job, JobType};
use rustland::policy::{AutoCirculation, Circulation};
use rustland::tag::{ElementReference, TagCondition, TagRegister};
use rustland::text::{decimal_string, push_signed_decimal};
use rustland::transition::{Easing, QuadraticInterpolator, SineInterpolator, Transition};
use rustland::tree::LayoutTree;

fn tree_of(columns: usize, names: &[&str]) -> LayoutTree {
    let mut cfg = LayoutConfig::default_config();
    cfg.workspace_columns = columns;
    cfg.workspaces = names.iter().map(|s| s.to_string()).collect();
    cfg.construct_tree().expect("the grid fits")
}

fn default_tree() -> LayoutTree {
    LayoutConfig::default_config().construct_tree().expect("a three by three grid fits")
}

fn window(handle: u64, pid: i32) -> Window {
    let mut w = Window::init_dummy();
    w.attach_view(ViewRef { handle, pid });
    w
}

fn tag(t: &str) -> ElementReference {
    ElementReference::Tag(t.to_string())
}

#[test]
fn tagging_twice_disambiguates() {
    let mut reg = TagRegister::init();
    reg.tag_element("x", 4);
    reg.tag_element("x", 7);
    assert_eq!(reg.address_element_by_tag("x"), vec![4]);
    assert_eq!(reg.address_element_by_tag("x_2"), vec![7]);
    reg.tag_element("x", 9);
    assert_eq!(reg.address_element_by_tag("x_3"), vec![9]);
    assert_eq!(reg.address_element_by_tag("y"), Vec::<u16>::new());
}

#[test]
fn tags_of_an_element_and_untagging() {
    let mut reg = TagRegister::init();
    reg.tag_element("a", 1);
    reg.tag_element("b", 2);
    reg.tag_element("c", 1);
    assert_eq!(reg.address_tags_by_element(1), vec!["a".to_string(), "c".to_string()]);
    reg.untag_element(1);
    assert!(reg.address_tags_by_element(1).is_empty());
    assert_eq!(reg.address_element_by_tag("a"), Vec::<u16>::new());
    reg.remove_tag("b");
    assert_eq!(reg.address_element_by_tag("b"), Vec::<u16>::new());
    reg.tag_element("b", 5);
    assert_eq!(reg.address_element_by_tag("b"), vec![5]);
}

#[test]
fn element_swap_moves_tags() {
    let mut reg = TagRegister::init();
    reg.tag_element("w", 4);
    reg.tag_element("n", 21);
    reg.handle_element_swap(4, 21);
    assert_eq!(reg.address_element_by_tag("w"), vec![21]);
    assert_eq!(reg.address_element_by_tag("n"), vec![4]);
}

#[test]
fn references_resolve() {
    let mut tree = default_tree();
    tree.reserve_element_identity(4, LayoutElementProfile::Window(window(3, 42)));
    assert_eq!(tree.tags.address_element(&ElementReference::ElementID(8)), vec![8]);
    assert_eq!(tree.tags.address_element(&ElementReference::ViewPID(42)), vec![4]);
    assert!(tree.tags.address_element(&ElementReference::ViewPID(41)).is_empty());
    assert_eq!(tree.tags.address_element(&tag("upper_mid")), vec![5]);
    tree.tags.tag_element_on_condition("first", TagCondition::IsRoot);
    tree.refresh_tag_statuses();
    assert_eq!(tree.tags.address_element(&tag("first")), vec![0]);
}

#[test]
fn seat_takes_the_free_slot_then_splits() {
    let mut tree = default_tree();
    let mut policy = AutoCirculation::init(9);
    assert_eq!(policy.seat_window(&mut tree), Some(4));
    tree.reserve_element_identity(4, LayoutElementProfile::Window(window(1, 10)));
    tree.tags.tag_element("4", 4);
    let slot = policy.seat_window(&mut tree);
    assert_eq!(slot, Some(22));
    match &tree.elements[4].profile {
        LayoutElementProfile::Bisect(b) => {
            assert_eq!((b.left, b.right), (21, 22));
            assert_eq!(b.orientation, Orientation::Horizontal);
            assert_eq!(b.ratio, 10);
        }
        _ => panic!("the window was split"),
    }
    assert!(matches!(tree.elements[21].profile, LayoutElementProfile::Window(_)));
    assert!(tree.elements[22].profile.is_none());
    assert_eq!(tree.lookup_element_from_view(1), Some(21));
    assert_eq!(tree.lookup_element_by_tag("4"), vec![21]);
    assert_eq!(policy.last_orientations[0], Orientation::Vertical);
}

#[test]
fn four_seats_in_a_two_by_two_grid_then_a_split() {
    let mut tree = tree_of(2, &["a", "b", "c", "d"]);
    let mut policy = AutoCirculation::init(4);
    let mut seen = Vec::new();
    for k in 0..4u64 {
        let slot = policy.seat_window(&mut tree).expect("a slot");
        assert!(tree.elements[slot as usize].profile.is_none());
        assert!(!seen.contains(&slot));
        seen.push(slot);
        tree.reserve_element_identity(slot, LayoutElementProfile::Window(window(k, k as i32)));
    }
    let before = tree.elements.len();
    let fifth = policy.seat_window(&mut tree).expect("a slot");
    assert_eq!(tree.elements.len(), before + 2);
    assert_eq!(fifth as usize, before + 1);
    let parent = tree.parent_of(fifth).unwrap();
    assert!(matches!(tree.elements[parent as usize].profile, LayoutElementProfile::Bisect(_)));
}

#[test]
fn seat_then_detach_keeps_windows_and_tags() {
    let mut tree = default_tree();
    let mut policy = AutoCirculation::init(9);
    let slot = policy.seat_window(&mut tree).unwrap();
    tree.reserve_element_identity(slot, LayoutElementProfile::Window(window(1, 10)));
    tree.tags.tag_element("term", slot);
    let seated = policy.seat_window(&mut tree).unwrap();
    assert_eq!(policy.detach_window(&mut tree, seated), None);
    assert!(tree.elements[seated as usize].profile.is_none());
    assert!(matches!(tree.elements[21].profile, LayoutElementProfile::Window(_)));
    assert_eq!(tree.lookup_element_by_tag("term"), vec![21]);
}

#[test]
fn detach_collapses_an_empty_bisection() {
    let mut tree = default_tree();
    let mut policy = Circulation::init();
    assert_eq!(policy.seat_window(&mut tree), Some(4));
    tree.reserve_element_identity(4, LayoutElementProfile::Window(window(1, 10)));
    assert_eq!(policy.seat_window(&mut tree), Some(22));
    assert_eq!(policy.last_orientation, Orientation::Horizontal);
    let released = policy.detach_window(&mut tree, 21);
    assert_eq!(released, Some(ViewRef { handle: 1, pid: 10 }));
    assert!(tree.elements[4].profile.is_none());
    assert_eq!(tree.parent_of(21), None);
    assert_eq!(tree.parent_of(22), None);
    assert_eq!(tree.lookup_element_from_view(1), None);
    assert_eq!(policy.seat_window(&mut tree), Some(4));
}

#[test]
fn detach_leaves_other_profiles_alone() {
    let mut tree = default_tree();
    let mut policy = AutoCirculation::init(9);
    assert_eq!(policy.detach_window(&mut tree, 2), None);
    assert!(matches!(tree.elements[2].profile, LayoutElementProfile::Grid(_)));
    assert_eq!(policy.detach_window(&mut tree, 0), None);
    assert_eq!(policy.detach_window(&mut tree, 999), None);
}

#[test]
fn move_to_missing_destination() {
    let mut tree = default_tree();
    tree.reserve_element_identity(4, LayoutElementProfile::Window(window(1, 10)));
    let before = tree.tree_text();
    let job = Job::init(JobType::MoveTo, Some(ElementReference::ElementID(4)), vec![tag("nowhere")]);
    assert_eq!(process_job(&mut tree, &job), Err("Destination element missing in layout.".to_string()));
    assert_eq!(tree.elements.len(), 21);
    assert_eq!(tree.tree_text(), before);
}

#[test]
fn move_to_errors() {
    let mut tree = default_tree();
    tree.reserve_element_identity(4, LayoutElementProfile::Window(window(1, 10)));
    let job = Job::init(JobType::MoveTo, None, vec![]);
    assert_eq!(process_job(&mut tree, &job), Err("Move what, to where?".to_string()));
    let job = Job::init(JobType::MoveTo, Some(tag("ghost")), vec![tag("mid_mid")]);
    assert_eq!(process_job(&mut tree, &job), Err("Carried element missing in layout.".to_string()));
    let job = Job::init(JobType::MoveTo, Some(ElementReference::ElementID(2)), vec![tag("mid_mid")]);
    assert_eq!(process_job(&mut tree, &job), Err("Only windows can be moved.".to_string()));
    let job = Job::init(JobType::MoveTo, Some(ElementReference::ElementID(4)), vec![tag("jumper")]);
    assert_eq!(process_job(&mut tree, &job), Err("The destination cannot take another element.".to_string()));
}

#[test]
fn move_to_another_workspace() {
    let mut tree = default_tree();
    tree.reserve_element_identity(4, LayoutElementProfile::Window(window(1, 10)));
    tree.tags.tag_element("term", 4);
    let job = Job::init(JobType::MoveTo, Some(tag("term")), vec![ElementReference::ElementID(12)]);
    assert_eq!(process_job(&mut tree, &job), Ok("Element moved.".to_string()));
    assert!(tree.elements[4].profile.is_none());
    assert!(matches!(tree.elements[12].profile, LayoutElementProfile::Window(_)));
    assert_eq!(tree.lookup_element_by_tag("term"), vec![12]);
    assert_eq!(tree.lookup_element_from_view(1), Some(12));
}

#[test]
fn focus_jobs() {
    let mut tree = default_tree();
    tree.reserve_element_identity(4, LayoutElementProfile::Window(window(1, 10)));
    tree.reserve_element_identity(6, LayoutElementProfile::Window(window(2, 20)));
    let job = Job::init(JobType::Focus, Some(ElementReference::ViewPID(20)), vec![]);
    assert_eq!(process_job(&mut tree, &job), Ok("Focused changed.".to_string()));
    assert_eq!(tree.focused_id, 6);
    match (&tree.elements[4].profile, &tree.elements[6].profile) {
        (LayoutElementProfile::Window(a), LayoutElementProfile::Window(b)) => {
            assert!(!a.activated);
            assert!(b.activated);
        }
        _ => panic!("two windows"),
    }
    assert_eq!(tree.lookup_element_by_tag("focused"), vec![6]);
    let job = Job::init(JobType::Focus, None, vec![]);
    assert_eq!(process_job(&mut tree, &job), Err("Focus on what?".to_string()));
    let job = Job::init(JobType::Focus, Some(tag("nope")), vec![]);
    assert_eq!(process_job(&mut tree, &job), Err("That element does not exist in the layout.".to_string()));
}

#[test]
fn other_jobs() {
    let mut tree = default_tree();
    let job = Job::init(JobType::RunApp, None, vec![]);
    assert_eq!(process_job(&mut tree, &job), Ok("Application started.".to_string()));
    let job = Job::init(JobType::LayoutRefresh, None, vec![]);
    assert_eq!(process_job(&mut tree, &job), Ok("Layout refreshed.".to_string()));
    let job = Job::init(JobType::InsertWorkspace, None, vec![]);
    assert_eq!(process_job(&mut tree, &job), Err("Inserting workspaces is not supported.".to_string()));
    let job = Job::init(JobType::NA, None, vec![]);
    assert_eq!(process_job(&mut tree, &job), Err("No job to do.".to_string()));
    let job = Job::init(JobType::SendTree, None, vec![]);
    assert_eq!(process_job(&mut tree, &job), Ok(tree.tree_text()));
    assert_eq!(job.generated_result, Err("No generated result.".to_string()));
    assert_eq!(JobType::SendTree.describe(), "Show a tree view over the layout");
}

#[test]
fn tree_text_lines() {
    let tree = default_tree();
    let text = tree.tree_text();
    let lines: Vec<&str> = text.lines().collect();
    assert_eq!(lines.len(), 21);
    assert_eq!(lines[0], "├──[0] Padding: ~gap_size=100 ~inner_scale_x=10000 ~inner_scale_y=10000 ");
    assert_eq!(lines[1], "    ├──[1] Padding: @jumper ~gap_size=0 ~inner_scale_x=10000 ~inner_scale_y=10000 ~offset_x=0 ~offset_y=0 ");
    assert_eq!(lines[2], "        ├──[2] Grid: @grid ");
    assert_eq!(lines[3], "            ├──[3] Padding: @upper_left @sub ~gap_size=200 ~inner_scale_x=10000 ~inner_scale_y=10000 ");
    assert_eq!(lines[4], "                ├──[4] Unoccupied: ");
}

#[test]
fn transition_reaches_end_and_leaves() {
    let mut tree = default_tree();
    let mut w = window(1, 10);
    w.apply_frame(0);
    tree.reserve_element_identity(4, LayoutElementProfile::Window(w));
    tree.animate_property(4, Property::FrameOpacity, 10000, false, 250);
    let opacity = |t: &LayoutTree| t.elements[4].profile.get_property(Property::FrameOpacity).unwrap();
    let animating = |t: &LayoutTree| t.transitions.iter().any(|x| x.element_id == 4 && x.property == Property::FrameOpacity);
    for _ in 0..24 {
        tree.step_transitions(10);
        assert!(opacity(&tree) < 10000);
        assert!(animating(&tree));
    }
    assert_eq!(opacity(&tree), 9200);
    tree.step_transitions(10);
    assert_eq!(opacity(&tree), 10000);
    assert!(!animating(&tree));
}

#[test]
fn transition_waits_out_its_delay() {
    let mut t = Transition::new(0, Property::Ratio, 0, 100, 40, 25);
    assert_eq!(t.next(&Easing::Linear, 10), None);
    assert_eq!(t.delay_ms, 15);
    assert_eq!(t.next(&Easing::Linear, 10), None);
    assert_eq!(t.next(&Easing::Linear, 10), None);
    assert_eq!(t.delay_ms, 0);
    assert_eq!(t.next(&Easing::Linear, 10), Some(0));
    assert_eq!(t.next(&Easing::Linear, 10), Some(25));
    assert_eq!(t.next(&Easing::Linear, 10), Some(50));
    assert!(t.is_ongoing());
    assert_eq!(t.next(&Easing::Linear, 10), Some(100));
    assert!(!t.is_ongoing());
    assert_eq!(t.next(&Easing::Linear, 0), None);
}

#[test]
fn transition_downward_and_short() {
    let mut t = Transition::new(0, Property::Ratio, 100, 0, 40, 0);
    assert_eq!(t.next(&Easing::Linear, 10), Some(100));
    assert_eq!(t.next(&Easing::Linear, 10), Some(75));
    let mut s = Transition::new(0, Property::Ratio, 3, 9, 5, 0);
    assert_eq!(s.next(&Easing::Linear, 10), Some(9));
    assert!(!s.is_ongoing());
}

#[test]
fn easing_progress() {
    assert_eq!(Easing::Linear.progress(1, 4), 2500);
    assert_eq!(QuadraticInterpolator.easing().progress(1, 4), 625);
    let sine = SineInterpolator { samples: vec![0, 1000, 4000, 9000, 10000] };
    assert_eq!(sine.easing().progress(2, 4), 4000);
    assert_eq!(Easing::Sampled(vec![20000]).progress(0, 3), 10000);
    assert_eq!(Easing::Sampled(vec![]).progress(1, 2), 5000);
}

#[test]
fn new_animation_supersedes_old() {
    let mut tree = default_tree();
    tree.animate_property(0, Property::GapSize, 50, false, 100);
    let gaps: Vec<&Transition> = tree.transitions.iter().filter(|t| t.element_id == 0).collect();
    assert_eq!(gaps.len(), 1);
    assert_eq!(gaps[0].end, 50);
    tree.animate_property(0, Property::GapSize, 5, true, 0);
    assert_eq!(tree.elements[0].profile.get_property(Property::GapSize), Some(105));
    tree.animate_property(0, Property::Ratio, 5, false, 100);
    assert_eq!(tree.transitions.len(), 1);
    tree.animate_property_explicitly(3, Property::GapSize, 1, 2, 10, 0);
    assert_eq!(tree.transitions.len(), 2);
}

#[test]
fn frames_split_on_the_sentinel() {
    assert_eq!(SOCKET_DETERMINANT, b'$');
    assert_eq!(frame_payload(&b"abc".to_vec()), b"abc$".to_vec());
    assert_eq!(split_frame(&b"ab$cd$".to_vec()), Some((b"ab".to_vec(), 3)));
    assert_eq!(split_frame(&b"$".to_vec()), Some((Vec::new(), 1)));
    assert_eq!(split_frame(&b"abc".to_vec()), None);
}

#[test]
fn decimal_text() {
    assert_eq!(decimal_string(0), "0");
    assert_eq!(decimal_string(1234), "1234");
    assert_eq!(decimal_string(u64::MAX), u64::MAX.to_string());
    let mut s = String::from("v=");
    push_signed_decimal(&mut s, -5);
    assert_eq!(s, "v=-5");
    let mut m = String::new();
    push_signed_decimal(&mut m, i64::MIN);
    assert_eq!(m, i64::MIN.to_string());
}

fn words(ws: &[&str]) -> Vec<String> {
    ws.iter().map(|s| s.to_string()).collect()
}

#[test]
fn command_words() {
    assert_eq!(parse_job_type("focus"), Some(JobType::Focus));
    assert_eq!(parse_job_type("tree"), Some(JobType::SendTree));
    assert_eq!(parse_job_type("jump"), None);

    let job = job_from_args(&words(&["@term", "moveto", "mid_mid"])).unwrap();
    assert_eq!(job.job_type, JobType::MoveTo);
    assert!(matches!(job.main_ref, Some(ElementReference::Tag(ref t)) if t == "term"));
    assert_eq!(job.contextual_refs.len(), 1);
    assert!(matches!(job.contextual_refs[0], ElementReference::Tag(ref t) if t == "mid_mid"));

    let job = job_from_args(&words(&["runapp", "xterm"])).unwrap();
    assert_eq!(job.job_type, JobType::RunApp);
    assert!(job.main_ref.is_none());
    assert_eq!(job.anonymous_args, vec!["xterm".to_string()]);
    assert!(job.contextual_refs.is_empty());

    assert!(job_from_args(&words(&["@term"])).is_none());
    assert!(job_from_args(&words(&["dance"])).is_none());
    assert!(job_from_args(&words(&[])).is_none());
}

#[test]
fn install_window_only_in_free_slots() {
    let mut tree = default_tree();
    assert!(tree.install_window(4, window(8, 80)));
    assert_eq!(tree.lookup_element_from_view(8), Some(4));
    assert!(!tree.install_window(4, window(9, 90)));
    assert!(!tree.install_window(2, window(9, 90)));
    assert!(!tree.install_window(0, window(9, 90)));
    assert!(!tree.install_window(300, window(9, 90)));
}

#[test]
fn switching_workspace_slides_the_jumper() {
    let mut tree = default_tree();
    assert!(tree.switch_workspace(2, 1, Direction::Right));
    match &tree.elements[2].profile {
        LayoutElementProfile::Grid(g) => assert_eq!(g.active_subspace, 1),
        _ => panic!("the grid"),
    }
    let x = tree.transitions.iter().find(|t| t.element_id == 1 && t.property == Property::OffsetX).unwrap();
    assert_eq!((x.start, x.end), (640, 0));
    let y = tree.transitions.iter().find(|t| t.element_id == 1 && t.property == Property::OffsetY).unwrap();
    assert_eq!((y.start, y.end), (0, 0));
    assert!(tree.switch_workspace(2, 1, Direction::Up));
    assert!(!tree.switch_workspace(1, 1, Direction::Up));
}

#[test]
fn dragging_a_split() {
    let mut tree = default_tree();
    let mut policy = AutoCirculation::init(9);
    policy.seat_window(&mut tree);
    tree.reserve_element_identity(4, LayoutElementProfile::Window(window(1, 10)));
    policy.seat_window(&mut tree);
    for _ in 0..50 {
        tree.step_transitions(10);
    }
    tree.arrange();
    // The seated cell's padding closed to a gap of 7: the bisection spans 7..633.
    assert!(tree.resize_towards(4, Point { x: 320, y: 0 }));
    tree.step_transitions(10);
    assert_eq!(tree.elements[4].profile.get_property(Property::Ratio), Some(5000));
    assert!(tree.resize_towards(4, Point { x: 0, y: 0 }));
    tree.step_transitions(10);
    assert_eq!(tree.elements[4].profile.get_property(Property::Ratio), Some(500));
    assert!(!tree.resize_towards(3, Point { x: 0, y: 0 }));
}

#[test]
fn decorated_windows_fade_in() {
    let mut tree = default_tree();
    let mut policy = AutoCirculation::init(9);
    let slot = policy.seat_window(&mut tree).unwrap();
    assert!(tree.install_window(slot, window(1, 10)));
    policy.decorate_window(&mut tree, slot);
    assert_eq!(tree.elements[slot as usize].profile.get_property(Property::FrameOpacity), Some(0));
    for _ in 0..20 {
        tree.step_transitions(10);
    }
    assert_eq!(tree.elements[slot as usize].profile.get_property(Property::FrameOpacity), Some(0));
    for _ in 0..50 {
        tree.step_transitions(10);
    }
    assert_eq!(tree.elements[slot as usize].profile.get_property(Property::FrameOpacity), Some(7000));
    policy.decorate_window(&mut tree, 2);
    assert_eq!(tree.elements[2].profile.get_property(Property::FrameOpacity), None);
}
