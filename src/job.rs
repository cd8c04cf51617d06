//! Jobs: commands that change or query the layout and carry back a
//! textual result.

use vstd::prelude::*;
use crate::arrangement::{find_first_unoccupied, first_unoccupied};
use crate::element::{children_of, spec_step, Direction, LayoutElemID, LayoutElement, LayoutElementProfile, Property, Window};
use crate::policy::{lemma_leaf_replaced, lemma_unoccupied_is_empty};
use crate::tag::{resolved, swapped, ElementReference};
use crate::tree::{lemma_same_shape_keeps_wf, same_shape, structure_ok, views_synced, LayoutTree};

verus! {

#[derive(Clone, Copy, Debug, PartialEq, Eq, Structural)]
pub enum JobType {
    NA,
    Focus,
    InsertWorkspace,
    RunApp,
    SendTree,
    MoveTo,
    LayoutRefresh,
}

impl JobType {
    /// What a job of this type does, in words.
    pub fn describe(&self) -> (r: &'static str)
        ensures
            r@ == spec_describe(*self)@,
    {
        match self {
            JobType::NA => "N/A",
            JobType::Focus => "Switch the focus to a specific element/location",
            JobType::InsertWorkspace => "Insert a workspace at the focused location",
            JobType::RunApp => "Run a specific application",
            JobType::SendTree => "Show a tree view over the layout",
            JobType::MoveTo => "Move an element to a specific location",
            JobType::LayoutRefresh => "Refresh the arrangement of the layout",
        }
    }
}

pub open spec fn spec_describe(t: JobType) -> &'static str {
    match t {
        JobType::NA => "N/A",
        JobType::Focus => "Switch the focus to a specific element/location",
        JobType::InsertWorkspace => "Insert a workspace at the focused location",
        JobType::RunApp => "Run a specific application",
        JobType::SendTree => "Show a tree view over the layout",
        JobType::MoveTo => "Move an element to a specific location",
        JobType::LayoutRefresh => "Refresh the arrangement of the layout",
    }
}

/// A command with its target, its context, free arguments, and the result
/// that processing it gave.
#[derive(Debug)]
pub struct Job {
    pub job_type: JobType,
    pub main_ref: Option<ElementReference>,
    pub contextual_refs: Vec<ElementReference>,
    pub anonymous_args: Vec<String>,
    pub generated_result: Result<String, String>,
}

pub const NO_RESULT: &'static str = "No generated result.";
pub const FOCUS_WHAT: &'static str = "Focus on what?";
pub const NO_SUCH_ELEMENT: &'static str = "That element does not exist in the layout.";
pub const FOCUS_CHANGED: &'static str = "Focused changed.";
pub const LAYOUT_REFRESHED: &'static str = "Layout refreshed.";
pub const APP_STARTED: &'static str = "Application started.";
pub const NO_INSERT: &'static str = "Inserting workspaces is not supported.";
pub const NO_JOB: &'static str = "No job to do.";
pub const MOVE_WHAT: &'static str = "Move what, to where?";
pub const NO_DESTINATION: &'static str = "Destination element missing in layout.";
pub const NO_CARRIED: &'static str = "Carried element missing in layout.";
pub const ONLY_WINDOWS: &'static str = "Only windows can be moved.";
pub const NO_ROOM: &'static str = "The destination cannot take another element.";
pub const MOVED: &'static str = "Element moved.";

impl Job {
    pub fn init(job_type: JobType, main_ref: Option<ElementReference>, contextual_refs: Vec<ElementReference>) -> (r: Job)
        ensures
            r.job_type == job_type,
            r.main_ref == main_ref,
            r.contextual_refs == contextual_refs,
            r.anonymous_args@.len() == 0,
            r.generated_result matches Err(e) && e@ == NO_RESULT@,
    {
        Job {
            job_type,
            main_ref,
            contextual_refs,
            anonymous_args: Vec::new(),
            generated_result: Err(NO_RESULT.to_owned()),
        }
    }
}

/// The elements with the window at `t` activated and every other window
/// deactivated.
pub open spec fn with_focus(e: Seq<LayoutElement>, t: LayoutElemID) -> Seq<LayoutElement> {
    Seq::new(e.len(), |i: int| match e[i].profile {
        LayoutElementProfile::Window(w) => LayoutElement {
            profile: LayoutElementProfile::Window(Window { activated: i == t as int, ..w }),
            ..e[i]
        },
        _ => e[i],
    })
}

/// The slot below `dest` that can take a moved window: `dest` itself where
/// it is empty, an empty child of a bisection, or the free slot of a grid's
/// active cell.
pub open spec fn move_slot(e: Seq<LayoutElement>, dest: int) -> Option<LayoutElemID> {
    match e[dest].profile {
        LayoutElementProfile::Empty => Some(dest as LayoutElemID),
        LayoutElementProfile::Bisect(b) => if (b.left as int) < e.len() && e[b.left as int].profile is Empty {
            Some(b.left)
        } else if (b.right as int) < e.len() && e[b.right as int].profile is Empty {
            Some(b.right)
        } else {
            None
        },
        LayoutElementProfile::Grid(_) => first_unoccupied(e, dest),
        _ => None,
    }
}

/// The elements after the window at `c` moves to the slot `s`.
pub open spec fn moved(e: Seq<LayoutElement>, c: int, s: int) -> Seq<LayoutElement> {
    e.update(s, LayoutElement { profile: e[c].profile, ..e[s] })
        .update(c, LayoutElement { profile: LayoutElementProfile::Empty, ..e[c] })
}

/// What moving the window named by `carry` to the slot that `destination`
/// offers leaves, and the result it gives.
pub open spec fn move_outcome(old_tree: LayoutTree, new_tree: LayoutTree, carry: LayoutElemID, destination: LayoutElemID, r: Result<String, String>) -> bool {
    let e = old_tree.elements@;
    if destination as int >= e.len() {
        r matches Err(m) && m@ == NO_DESTINATION@ && new_tree == old_tree
    } else if carry as int >= e.len() {
        r matches Err(m) && m@ == NO_CARRIED@ && new_tree == old_tree
    } else if !(e[carry as int].profile is Window) {
        r matches Err(m) && m@ == ONLY_WINDOWS@ && new_tree == old_tree
    } else {
        match move_slot(e, destination as int) {
            Some(s) if (s as int) < e.len() && e[s as int].parent_id is Some => {
                &&& r matches Ok(m) && m@ == MOVED@
                &&& new_tree.elements@ == moved(e, carry as int, s as int)
                &&& new_tree.tags@ == old_tree.tags@.map_values(|p: (Seq<char>, Seq<LayoutElemID>)|
                    (p.0, p.1.map_values(|y: LayoutElemID| swapped(y, carry, s))))
            },
            _ => r matches Err(m) && m@ == NO_ROOM@ && new_tree == old_tree,
        }
    }
}

/// Moves the window at `carry` into the slot that `destination` offers.
pub fn move_element(tree: &mut LayoutTree, carry: LayoutElemID, destination: LayoutElemID) -> (r: Result<String, String>)
    requires
        old(tree).wf(),
    ensures
        final(tree).wf(),
        final(tree).focused_id == old(tree).focused_id,
        final(tree).outer_geometry == old(tree).outer_geometry,
        final(tree).tags.tag_conditions == old(tree).tags.tag_conditions,
        move_outcome(*old(tree), *final(tree), carry, destination, r),
{
    let len = tree.elements.len();
    if destination as usize >= len {
        return Err(NO_DESTINATION.to_owned());
    }
    if carry as usize >= len {
        return Err(NO_CARRIED.to_owned());
    }
    let window = match &tree.elements[carry as usize].profile {
        LayoutElementProfile::Window(w) => *w,
        _ => { return Err(ONLY_WINDOWS.to_owned()); },
    };
    let slot = match &tree.elements[destination as usize].profile {
        LayoutElementProfile::Empty => Some(destination),
        LayoutElementProfile::Bisect(b) => {
            if (b.left as usize) < len && tree.elements[b.left as usize].profile.is_none() {
                Some(b.left)
            } else if (b.right as usize) < len && tree.elements[b.right as usize].profile.is_none() {
                Some(b.right)
            } else {
                None
            }
        },
        LayoutElementProfile::Grid(_) => find_first_unoccupied(tree, destination),
        _ => None,
    };
    let s = match slot {
        Some(s) => s,
        None => { return Err(NO_ROOM.to_owned()); },
    };
    if s as usize >= len || tree.elements[s as usize].parent_id.is_none() {
        return Err(NO_ROOM.to_owned());
    }
    let ghost e0 = tree.elements@;
    proof {
        if tree.elements@[destination as int].profile is Grid {
            lemma_unoccupied_is_empty(e0, destination as int);
        }
        assert(e0[s as int].profile is Empty);
        assert(s != carry);
        lemma_leaf_replaced(e0, s as int, LayoutElementProfile::Window(window));
        let e1 = e0.update(s as int, LayoutElement { profile: LayoutElementProfile::Window(window), ..e0[s as int] });
        assert(e1[carry as int] == e0[carry as int]);
        lemma_leaf_replaced(e1, carry as int, LayoutElementProfile::Empty);
    }
    tree.tags.handle_element_swap(carry, s);
    let _ = tree.swap_element_profile(s, LayoutElementProfile::Window(window));
    let _ = tree.swap_element_profile(carry, LayoutElementProfile::Empty);
    assert(tree.elements@ =~= moved(e0, carry as int, s as int));
    Ok(MOVED.to_owned())
}

impl LayoutTree {
    /// Gives the focus to `target`: its window is activated and every other
    /// window deactivated, and the computed tags are re-evaluated.
    pub fn focus_element(&mut self, target: LayoutElemID)
        requires
            old(self).wf(),
        ensures
            final(self).wf(),
            final(self).focused_id == target,
            final(self).elements@ == with_focus(old(self).elements@, target),
            final(self).tags.tag_conditions == old(self).tags.tag_conditions,
            forall|i: int| 0 <= i < old(self).tags.tag_conditions@.len()
                && crate::tree::last_for_its_tag(old(self).tags.tag_conditions@, i)
                ==> #[trigger] crate::tag::tagged(final(self).tags@, old(self).tags.tag_conditions@[i].0@)
                    == crate::tree::holders(old(self).tags.tag_conditions@[i].1, old(self).elements@.len() as int, target),
            final(self).outer_geometry == old(self).outer_geometry,
    {
        let ghost e0 = self.elements@;
        let mut i: usize = 0;
        while i < self.elements.len()
            invariant
                i <= e0.len(),
                self.elements@.len() == e0.len(),
                forall|j: int| 0 <= j < i ==> self.elements@[j] == with_focus(e0, target)[j],
                forall|j: int| i <= j < e0.len() ==> self.elements@[j] == e0[j],
                self.tags == old(self).tags,
                self.focused_id == old(self).focused_id,
                self.outer_geometry == old(self).outer_geometry,
                self.transitions == old(self).transitions,
                self.easing == old(self).easing,
            decreases e0.len() - i,
        {
            if let LayoutElementProfile::Window(w) = &self.elements[i].profile {
                let focused = Window { activated: i == target as usize, ..*w };
                self.elements[i].profile = LayoutElementProfile::Window(focused);
            }
            i += 1;
        }
        proof {
            assert(self.elements@ =~= with_focus(e0, target));
            assert(same_shape(e0, self.elements@));
            lemma_same_shape_keeps_wf(e0, self.elements@, self.tags.view_bindings@);
        }
        self.focused_id = target;
        self.refresh_tag_statuses();
    }
}

/// Carries out a job on the tree and returns its result.
pub fn process_job(tree: &mut LayoutTree, job: &Job) -> (r: Result<String, String>)
    requires
        old(tree).wf(),
    ensures
        final(tree).wf(),
        final(tree).outer_geometry == old(tree).outer_geometry,
        match job.job_type {
            JobType::Focus => match job.main_ref {
                None => r matches Err(m) && m@ == FOCUS_WHAT@ && *final(tree) == *old(tree),
                Some(main) => {
                    let found = resolved(old(tree).tags, main);
                    if found.len() == 0 {
                        r matches Err(m) && m@ == NO_SUCH_ELEMENT@ && *final(tree) == *old(tree)
                    } else {
                        &&& r matches Ok(m) && m@ == FOCUS_CHANGED@
                        &&& final(tree).focused_id == found[0]
                        &&& final(tree).elements@ == with_focus(old(tree).elements@, found[0])
                    }
                },
            },
            JobType::LayoutRefresh => r matches Ok(m) && m@ == LAYOUT_REFRESHED@
                && final(tree).elements@ == crate::arrangement::arranged(old(tree).elements@, old(tree).outer_geometry),
            JobType::SendTree => r matches Ok(m) && m@ == crate::dump::tree_lines(old(tree).elements@, old(tree).tags@, old(tree).elements@.len() as int)
                && *final(tree) == *old(tree),
            JobType::RunApp => r matches Ok(m) && m@ == APP_STARTED@ && *final(tree) == *old(tree),
            JobType::InsertWorkspace => r matches Err(m) && m@ == NO_INSERT@ && *final(tree) == *old(tree),
            JobType::NA => r matches Err(m) && m@ == NO_JOB@ && *final(tree) == *old(tree),
            JobType::MoveTo => if job.main_ref is None || job.contextual_refs@.len() == 0 {
                r matches Err(m) && m@ == MOVE_WHAT@ && *final(tree) == *old(tree)
            } else {
                let dest = resolved(old(tree).tags, job.contextual_refs@[0]);
                let carried = resolved(old(tree).tags, job.main_ref->0);
                if dest.len() == 0 {
                    r matches Err(m) && m@ == NO_DESTINATION@ && *final(tree) == *old(tree)
                } else if carried.len() == 0 {
                    r matches Err(m) && m@ == NO_CARRIED@ && *final(tree) == *old(tree)
                } else {
                    move_outcome(*old(tree), *final(tree), carried[0], dest[0], r)
                }
            },
        },
{
    match job.job_type {
        JobType::Focus => {
            match &job.main_ref {
                None => Err(FOCUS_WHAT.to_owned()),
                Some(main) => {
                    let found = tree.tags.address_element(main);
                    if found.len() == 0 {
                        Err(NO_SUCH_ELEMENT.to_owned())
                    } else {
                        tree.focus_element(found[0]);
                        Ok(FOCUS_CHANGED.to_owned())
                    }
                },
            }
        },
        JobType::LayoutRefresh => {
            tree.refresh();
            Ok(LAYOUT_REFRESHED.to_owned())
        },
        JobType::SendTree => Ok(tree.tree_text()),
        JobType::RunApp => Ok(APP_STARTED.to_owned()),
        JobType::InsertWorkspace => Err(NO_INSERT.to_owned()),
        JobType::NA => Err(NO_JOB.to_owned()),
        JobType::MoveTo => {
            if job.main_ref.is_none() || job.contextual_refs.len() == 0 {
                return Err(MOVE_WHAT.to_owned());
            }
            let dest = tree.tags.address_element(&job.contextual_refs[0]);
            if dest.len() == 0 {
                return Err(NO_DESTINATION.to_owned());
            }
            let carried = match &job.main_ref {
                Some(main) => tree.tags.address_element(main),
                None => Vec::new(),
            };
            if carried.len() == 0 {
                return Err(NO_CARRIED.to_owned());
            }
            move_element(tree, carried[0], dest[0])
        },
    }
}

/// The job type that a command word names.
pub open spec fn command_type(w: Seq<char>) -> Option<JobType> {
    if w == "focus"@ {
        Some(JobType::Focus)
    } else if w == "runapp"@ {
        Some(JobType::RunApp)
    } else if w == "tree"@ {
        Some(JobType::SendTree)
    } else if w == "moveto"@ {
        Some(JobType::MoveTo)
    } else {
        None
    }
}

/// The job type that a command word names: `focus`, `runapp`, `tree` or
/// `moveto`.
pub fn parse_job_type(repr: &str) -> (r: Option<JobType>)
    ensures
        r == command_type(repr@),
{
    let w = repr.to_owned();
    if w.eq(&"focus".to_owned()) {
        Some(JobType::Focus)
    } else if w.eq(&"runapp".to_owned()) {
        Some(JobType::RunApp)
    } else if w.eq(&"tree".to_owned()) {
        Some(JobType::SendTree)
    } else if w.eq(&"moveto".to_owned()) {
        Some(JobType::MoveTo)
    } else {
        None
    }
}

/// Whether a word names a tag: it starts with an at sign.
pub open spec fn is_tag_word(w: Seq<char>) -> bool {
    w.len() > 0 && w[0] == '@'
}

/// A job from command words `[@tag] command [args...]`: the tag, where
/// given, is the main reference; the words after the command are the
/// application to run for `runapp`, and tags of the context otherwise.
/// None where the command is missing or unknown.
pub fn job_from_args(args: &Vec<String>) -> (r: Option<Job>)
    ensures
        ({
            let a = args@;
            let tagged_head = a.len() > 0 && is_tag_word(a[0]@);
            let c = if tagged_head { 1int } else { 0 };
            if a.len() <= c || command_type(a[c]@) is None {
                r is None
            } else {
                r matches Some(job) && {
                    &&& job.job_type == command_type(a[c]@)->0
                    &&& tagged_head ==> (job.main_ref matches Some(ElementReference::Tag(t)) && t@ == a[0]@.subrange(1, a[0]@.len() as int))
                    &&& !tagged_head ==> job.main_ref is None
                    &&& job.job_type == JobType::RunApp ==> job.contextual_refs@.len() == 0
                        && job.anonymous_args@.len() == a.len() - c - 1
                        && forall|i: int| 0 <= i < job.anonymous_args@.len() ==> #[trigger] job.anonymous_args@[i]@ == a[c + 1 + i]@
                    &&& job.job_type != JobType::RunApp ==> job.anonymous_args@.len() == 0
                        && job.contextual_refs@.len() == a.len() - c - 1
                        && forall|i: int| 0 <= i < job.contextual_refs@.len() ==>
                            ((#[trigger] job.contextual_refs@[i]) matches ElementReference::Tag(t) && t@ == a[c + 1 + i]@)
                    &&& job.generated_result matches Err(e) && e@ == NO_RESULT@
                }
            }
        }),
{
    let mut c: usize = 0;
    let mut main_ref: Option<ElementReference> = None;
    if args.len() > 0 {
        let head = args[0].as_str();
        let n = head.unicode_len();
        if n > 0 && head.get_char(0) == '@' {
            main_ref = Some(ElementReference::Tag(head.substring_char(1, n).to_owned()));
            c = 1;
        }
    }
    if args.len() <= c {
        return None;
    }
    let job_type = match parse_job_type(args[c].as_str()) {
        Some(t) => t,
        None => { return None; },
    };
    let mut contextual_refs: Vec<ElementReference> = Vec::new();
    let mut anonymous_args: Vec<String> = Vec::new();
    let mut i: usize = c + 1;
    while i < args.len()
        invariant
            c + 1 <= i <= args@.len(),
            job_type == JobType::RunApp ==> contextual_refs@.len() == 0 && anonymous_args@.len() == i - c - 1
                && forall|k: int| 0 <= k < anonymous_args@.len() ==> #[trigger] anonymous_args@[k]@ == args@[c + 1 + k]@,
            job_type != JobType::RunApp ==> anonymous_args@.len() == 0 && contextual_refs@.len() == i - c - 1
                && forall|k: int| 0 <= k < contextual_refs@.len() ==>
                    ((#[trigger] contextual_refs@[k]) matches ElementReference::Tag(t) && t@ == args@[c + 1 + k]@),
        decreases args@.len() - i,
    {
        if job_type == JobType::RunApp {
            anonymous_args.push(args[i].clone());
        } else {
            contextual_refs.push(ElementReference::Tag(args[i].clone()));
        }
        i += 1;
    }
    let mut job = Job::init(job_type, main_ref, contextual_refs);
    job.anonymous_args = anonymous_args;
    Some(job)
}

/// The time in which the view slides to another workspace.
pub const SLIDE_MS: u64 = 300;

impl LayoutTree {
    /// Makes the neighbouring cell of the grid at `grid` in `direction`
    /// active, and slides the view there: the padding at `jumper` starts
    /// offset by the distance between the two cells and moves back to rest.
    /// False, with nothing changed, where `grid` is no grid.
    pub fn switch_workspace(&mut self, grid: LayoutElemID, jumper: LayoutElemID, direction: Direction) -> (r: bool)
        requires
            old(self).wf(),
        ensures
            final(self).wf(),
            r == ((grid as int) < old(self).elements@.len() && old(self).elements@[grid as int].profile is Grid),
            !r ==> *final(self) == *old(self),
            r ==> ({
                let g = old(self).elements@[grid as int].profile->Grid_0;
                &&& final(self).elements@.len() == old(self).elements@.len()
                &&& final(self).elements@[grid as int].profile matches LayoutElementProfile::Grid(g2)
                    && g2.cells@ == g.cells@ && g2.columns == g.columns
                    && g2.active_subspace == spec_step(g.active_subspace as int, g.columns as int, g.cells@.len() as int, direction)
                &&& forall|i: int| 0 <= i < old(self).elements@.len() && i != grid ==> #[trigger] final(self).elements@[i] == old(self).elements@[i]
            }),
            final(self).tags == old(self).tags,
            final(self).focused_id == old(self).focused_id,
            final(self).outer_geometry == old(self).outer_geometry,
    {
        if grid as usize >= self.elements.len() {
            return false;
        }
        let mut g = match &self.elements[grid as usize].profile {
            LayoutElementProfile::Grid(g) => g.clone_grid(),
            _ => { return false; },
        };
        proof { crate::tree::lemma_shaped(self.elements@, grid as int); }
        let before = g.active_subspace;
        g.switch_to_subspace_in_direction(direction);
        let after = g.active_subspace;
        let c = g.columns;
        proof {
            assert(after as int % c as int <= after && before as int % c as int <= before) by (nonlinear_arith) requires c >= 1, after >= 0, before >= 0;
            assert(after as int / c as int <= after && before as int / c as int <= before) by (nonlinear_arith) requires c >= 1, after >= 0, before >= 0;
            let d = ((after % c) as int - (before % c) as int);
            assert(-65535 * (u32::MAX as int) <= d * self.outer_geometry.size.w as int <= 65535 * (u32::MAX as int)) by (nonlinear_arith)
                requires -65535 <= d <= 65535, 0 <= self.outer_geometry.size.w <= u32::MAX;
            let d2 = ((after / c) as int - (before / c) as int);
            assert(-65535 * (u32::MAX as int) <= d2 * self.outer_geometry.size.h as int <= 65535 * (u32::MAX as int)) by (nonlinear_arith)
                requires -65535 <= d2 <= 65535, 0 <= self.outer_geometry.size.h <= u32::MAX;
        }
        let dx = ((after % c) as i64 - (before % c) as i64) * self.outer_geometry.size.w as i64;
        let dy = ((after / c) as i64 - (before / c) as i64) * self.outer_geometry.size.h as i64;
        let ghost e0 = self.elements@;
        self.elements[grid as usize].profile = LayoutElementProfile::Grid(g);
        proof { lemma_active_cell_moved(e0, self.elements@, grid as int); }
        self.animate_property_explicitly(jumper, Property::OffsetX, dx, 0, SLIDE_MS, 0);
        self.animate_property_explicitly(jumper, Property::OffsetY, dy, 0, SLIDE_MS, 0);
        true
    }
}

/// Moving the active cell of a grid keeps the tree well formed.
proof fn lemma_active_cell_moved(e0: Seq<LayoutElement>, e1: Seq<LayoutElement>, p: int)
    requires
        structure_ok(e0),
        0 <= p < e0.len(),
        e1.len() == e0.len(),
        e0[p].profile matches LayoutElementProfile::Grid(g0) && e1[p].profile matches LayoutElementProfile::Grid(g1)
            && g1.cells@ == g0.cells@ && g1.columns == g0.columns && g1.well_formed(),
        e1[p].parent_id == e0[p].parent_id,
        e1[p].element_id == e0[p].element_id,
        forall|i: int| 0 <= i < e0.len() && i != p ==> #[trigger] e1[i] == e0[i],
    ensures
        structure_ok(e1),
        forall|vb: Seq<(crate::element::ViewRef, LayoutElemID)>| views_synced(e0, vb) ==> views_synced(e1, vb),
{
    reveal(structure_ok);
    assert(children_of(e1[p].profile) == children_of(e0[p].profile));
    assert forall|i: int| 0 <= i < e1.len() implies children_of(#[trigger] e1[i].profile) == children_of(e0[i].profile) by {
        if i != p { assert(e1[i] == e0[i]); }
    }
    assert forall|vb: Seq<(crate::element::ViewRef, LayoutElemID)>| views_synced(e0, vb) implies views_synced(e1, vb) by {
        assert forall|j: int| 0 <= j < vb.len() implies ({
            let (v, id) = #[trigger] vb[j];
            &&& (id as int) < e1.len()
            &&& e1[id as int].profile matches LayoutElementProfile::Window(w) && w.view == Some(v)
        }) by {
            let id = vb[j].1 as int;
            if id != p { assert(e1[id] == e0[id]); }
        }
        assert forall|i: int| 0 <= i < e1.len() implies match (#[trigger] e1[i]).profile {
            LayoutElementProfile::Window(w) => w.view matches Some(v) ==> vb.contains((v, i as LayoutElemID)),
            _ => true,
        } by {
            if i != p { assert(e1[i] == e0[i]); }
        }
    }
    assert forall|i: int| 0 <= i < e1.len() implies (#[trigger] e1[i]).element_id == i by {
        if i != p { assert(e1[i] == e0[i]); }
    }
    assert forall|i: int| 0 < i < e1.len() && (#[trigger] e1[i]).parent_id is Some implies {
        let q = e1[i].parent_id->0 as int;
        &&& q < i
        &&& children_of(e1[q].profile).contains(i as LayoutElemID)
    } by {
        assert(e1[i].parent_id == e0[i].parent_id);
        let q = e0[i].parent_id->0 as int;
        assert(children_of(e1[q].profile) == children_of(e0[q].profile));
    }
    assert forall|q: int, k: int| 0 <= q < e1.len() && 0 <= k < children_of(e1[q].profile).len() implies {
        let ch = (#[trigger] children_of(e1[q].profile)[k]) as int;
        &&& q < ch < e1.len()
        &&& e1[ch].parent_id == Some(q as LayoutElemID)
    } by {
        assert(children_of(e1[q].profile) == children_of(e0[q].profile));
        let ch = children_of(e0[q].profile)[k] as int;
        assert(e1[ch].parent_id == e0[ch].parent_id);
    }
    assert forall|q: int| 0 <= q < e1.len() implies match (#[trigger] e1[q]).profile {
        LayoutElementProfile::Bisect(b) => b.left != b.right && b.ratio <= crate::element::FIXED_ONE,
        LayoutElementProfile::Grid(g) => g.well_formed() && g.cells@.no_duplicates() && g.cells@.len() <= crate::tree::MAX_ELEMENTS,
        _ => true,
    } by {
        if q != p { assert(e1[q] == e0[q]); }
    }
    assert forall|i: int| 0 < i < e1.len() && (#[trigger] e1[i]).parent_id is None implies e1[i].profile is Empty by {
        if i != p { assert(e1[i] == e0[i]); }
    }
    assert(crate::tree::ids_are_indices(e1));
    assert(crate::tree::parents_declare(e1));
    assert(crate::tree::children_belong(e1));
    assert(crate::tree::containers_shaped(e1));
    assert(crate::tree::released_are_empty(e1));
}

impl LayoutTree {
    /// Drags the split of the bisection at `bisect` to `point`: its ratio
    /// becomes the point's share of the bisection's rectangle along its
    /// orientation, held to the ratio's range. False, with nothing changed,
    /// where `bisect` is no bisection hanging from the root, or its
    /// rectangle is empty along the orientation.
    pub fn resize_towards(&mut self, bisect: LayoutElemID, point: crate::geometry::Point) -> (r: bool)
        requires
            old(self).wf(),
        ensures
            final(self).wf(),
            !r ==> *final(self) == *old(self),
            r ==> (old(self).elements@[bisect as int].profile is Bisect
                && crate::arrangement::frame_of(old(self).elements@, old(self).outer_geometry, bisect as int) is Some),
            final(self).tags == old(self).tags,
            final(self).focused_id == old(self).focused_id,
            final(self).outer_geometry == old(self).outer_geometry,
    {
        if bisect as usize >= self.elements.len() {
            return false;
        }
        let orientation = match &self.elements[bisect as usize].profile {
            LayoutElementProfile::Bisect(b) => b.orientation,
            _ => { return false; },
        };
        let frames = self.frames();
        let f = match frames[bisect as usize] {
            Some(f) => f,
            None => { return false; },
        };
        let (offset, extent) = match orientation {
            crate::element::Orientation::Horizontal => (point.x as i64 - f.rect.origin.x as i64, f.rect.size.w as i64),
            crate::element::Orientation::Vertical => (point.y as i64 - f.rect.origin.y as i64, f.rect.size.h as i64),
        };
        if extent == 0 {
            return false;
        }
        proof {
            assert(-(u32::MAX as int) * 2 * 10000 <= offset * 10000 <= (u32::MAX as int) * 2 * 10000) by (nonlinear_arith)
                requires -(u32::MAX as int) * 2 <= offset <= (u32::MAX as int) * 2;
        }
        let ratio = offset * crate::element::FIXED_ONE as i64 / extent;
        self.animate_property(bisect, Property::Ratio, ratio, false, 1);
        true
    }
}

} // verus!
