//! Layout policies: where a new window is seated, and how the tree closes
//! up when a window leaves.

use vstd::prelude::*;
use crate::arrangement::{find_all_windows, find_first_unoccupied, first_unoccupied, window_reach};
use crate::element::{
    children_of, Bisect, LayoutElemID, LayoutElement, LayoutElementProfile, Orientation, Property, Side,
    ViewRef, Window, FIXED_ONE,
};
use crate::tag::swapped;
use crate::tree::{lemma_shaped, lemma_child_after, lemma_parent_before, 
    children_belong, containers_shaped, ids_are_indices, parents_declare, released_are_empty,
    structure_ok, views_synced, LayoutTree, MAX_ELEMENTS, PARENT_ELEMENT,
};

verus! {

/// The ratio that a new bisection starts from before it opens to half.
pub const SEED_RATIO: u32 = 10;

/// The time in which a bisection opens or closes.
pub const RESIZE_MS: u64 = 125;

/// The gap that a padding takes on when a window is seated in it.
pub const SEATED_GAP: i64 = 7;

/// A reached window is a window of the tree.
pub proof fn lemma_reached_is_window(e: Seq<LayoutElement>, s: int, ao: bool, w: int)
    requires
        window_reach(e, s, ao, w),
    ensures
        0 <= w < e.len(),
        e[w].profile is Window,
    decreases e.len() - s,
{
    match e[s].profile {
        LayoutElementProfile::Padding(pd) => lemma_reached_is_window(e, pd.child as int, ao, w),
        LayoutElementProfile::Bisect(b) => {
            if s < b.left < e.len() && window_reach(e, b.left as int, ao, w) {
                lemma_reached_is_window(e, b.left as int, ao, w);
            } else {
                lemma_reached_is_window(e, b.right as int, ao, w);
            }
        },
        LayoutElementProfile::Grid(g) => {
            if ao {
                lemma_reached_is_window(e, g.cells@[g.active_subspace as int] as int, ao, w);
            } else {
                let k = choose|k: int| 0 <= k < g.cells@.len() && s < #[trigger] g.cells@[k] < e.len()
                    && window_reach(e, g.cells@[k] as int, ao, w);
                lemma_reached_is_window(e, g.cells@[k] as int, ao, w);
            }
        },
        _ => {},
    }
}

/// Window bindings depend on the profiles alone.
proof fn lemma_views_follow_profiles(e1: Seq<LayoutElement>, e2: Seq<LayoutElement>, vb: Seq<(ViewRef, LayoutElemID)>)
    requires
        views_synced(e1, vb),
        e1.len() == e2.len(),
        forall|i: int| 0 <= i < e1.len() ==> (#[trigger] e2[i]).profile == e1[i].profile,
    ensures
        views_synced(e2, vb),
{
    assert forall|i: int| 0 <= i < e2.len() implies match (#[trigger] e2[i]).profile {
        LayoutElementProfile::Window(w) => w.view matches Some(v) ==> vb.contains((v, i as LayoutElemID)),
        _ => true,
    } by {
        assert(e1[i].profile == e2[i].profile);
    }
}

/// The largest identifier in `v`.
fn last_of(v: &Vec<LayoutElemID>) -> (r: LayoutElemID)
    requires
        v@.len() > 0,
    ensures
        v@.contains(r),
        forall|x: LayoutElemID| v@.contains(x) ==> x <= r,
{
    let mut m = v[0];
    let mut i: usize = 1;
    let ghost mut at: int = 0;
    while i < v.len()
        invariant
            1 <= i <= v@.len(),
            0 <= at < i,
            v@[at] == m,
            forall|j: int| 0 <= j < i ==> v@[j] <= m,
        decreases v@.len() - i,
    {
        if v[i] > m {
            m = v[i];
            proof { at = i as int; }
        }
        i += 1;
    }
    assert(v@[at] == m);
    assert forall|x: LayoutElemID| v@.contains(x) implies x <= m by {
        let j = choose|j: int| 0 <= j < v@.len() && v@[j] == x;
    }
    m
}

/// The elements after the window at `w` is split: `w` becomes a bisection
/// whose first child takes over the window and whose second child is a new
/// empty slot.
pub open spec fn split_at(e: Seq<LayoutElement>, w: int, o: Orientation) -> Seq<LayoutElement> {
    let n = e.len();
    e.update(w, LayoutElement {
        profile: LayoutElementProfile::Bisect(Bisect { left: n as LayoutElemID, right: (n + 1) as LayoutElemID, orientation: o, ratio: SEED_RATIO }),
        ..e[w]
    }).push(LayoutElement { parent_id: Some(w as LayoutElemID), element_id: n as LayoutElemID, profile: e[w].profile })
      .push(LayoutElement { parent_id: Some(w as LayoutElemID), element_id: (n + 1) as LayoutElemID, profile: LayoutElementProfile::Empty })
}

proof fn lemma_split_keeps_structure(e: Seq<LayoutElement>, w: int, o: Orientation)
    requires
        structure_ok(e),
        0 <= w < e.len(),
        e[w].profile is Window,
        e.len() + 2 <= MAX_ELEMENTS,
    ensures
        structure_ok(split_at(e, w, o)),
{
    reveal(structure_ok);
    let e2 = split_at(e, w, o);
    let n = e.len() as int;
    assert(children_of(e2[w].profile) == seq![n as LayoutElemID, (n + 1) as LayoutElemID]);
    assert forall|i: int| 0 <= i < e2.len() implies (#[trigger] e2[i]).element_id == i by {
        if i < n { assert(e[i].element_id == i); }
    }
    assert forall|i: int| 0 < i < e2.len() && (#[trigger] e2[i]).parent_id is Some implies {
        let p = e2[i].parent_id->0 as int;
        &&& p < i
        &&& children_of(e2[p].profile).contains(i as LayoutElemID)
    } by {
        if i == n {
            assert(children_of(e2[w].profile)[0] == i as LayoutElemID);
        } else if i == n + 1 {
            assert(children_of(e2[w].profile)[1] == i as LayoutElemID);
        } else {
            assert(e2[i].parent_id == e[i].parent_id);
            let p = e[i].parent_id->0 as int;
            assert(children_of(e[p].profile).contains(i as LayoutElemID));
            if p == w {
                assert(children_of(e[w].profile).len() == 0);
            }
            assert(e2[p].profile == e[p].profile);
        }
    }
    assert forall|p: int, k: int| 0 <= p < e2.len() && 0 <= k < children_of(e2[p].profile).len() implies {
        let c = (#[trigger] children_of(e2[p].profile)[k]) as int;
        &&& p < c < e2.len()
        &&& e2[c].parent_id == Some(p as LayoutElemID)
    } by {
        if p == w {
        } else if p == n {
            assert(children_of(e[w].profile).len() == 0);
        } else if p == n + 1 {
        } else {
            assert(e2[p] == e[p]);
            let c = children_of(e[p].profile)[k] as int;
            assert(p < c < e.len() && e[c].parent_id == Some(p as LayoutElemID));
            if c == w {
                assert(e2[c].parent_id == e[c].parent_id);
            } else {
                assert(e2[c] == e[c]);
            }
        }
    }
    assert forall|p: int| 0 <= p < e2.len() implies match (#[trigger] e2[p]).profile {
        LayoutElementProfile::Bisect(b) => b.left != b.right && b.ratio <= FIXED_ONE,
        LayoutElementProfile::Grid(g) => g.well_formed() && g.cells@.no_duplicates() && g.cells@.len() <= MAX_ELEMENTS,
        _ => true,
    } by {
        if p != w && p < n {
            assert(e2[p] == e[p]);
        }
    }
    assert forall|i: int| 0 < i < e2.len() && (#[trigger] e2[i]).parent_id is None implies e2[i].profile is Empty by {
        if i < n && i != w {
            assert(e2[i] == e[i]);
        }
    }
    assert(ids_are_indices(e2));
    assert(parents_declare(e2));
    assert(children_belong(e2));
    assert(containers_shaped(e2));
    assert(released_are_empty(e2));
}

/// Splits the window at `w` and returns the new empty slot beside it; the
/// tags of `w` follow the window to its new place.
fn extend_layout(tree: &mut LayoutTree, w: LayoutElemID, o: Orientation) -> (r: LayoutElemID)
    requires
        old(tree).wf(),
        (w as int) < old(tree).elements@.len(),
        old(tree).elements@[w as int].profile is Window,
        old(tree).elements@.len() + 2 <= MAX_ELEMENTS,
    ensures
        final(tree).wf(),
        r == old(tree).elements@.len() + 1,
        final(tree).elements@ == split_at(old(tree).elements@, w as int, o),
        final(tree).tags@ == old(tree).tags@.map_values(|p: (Seq<char>, Seq<LayoutElemID>)|
            (p.0, p.1.map_values(|x: LayoutElemID| swapped(x, w, old(tree).elements@.len() as LayoutElemID)))),
        final(tree).tags.tag_conditions == old(tree).tags.tag_conditions,
        final(tree).focused_id == old(tree).focused_id,
        final(tree).outer_geometry == old(tree).outer_geometry,
        final(tree).easing == old(tree).easing,
{
    let ghost e0 = tree.elements@;
    let n = tree.spawn_dummy_element(Some(w));
    let n1 = tree.spawn_dummy_element(Some(w));
    proof {
        lemma_views_follow_profiles(e0, e0, tree.tags.view_bindings@);
        assert forall|j: int| 0 <= j < tree.tags.view_bindings@.len() implies ({
            let (v, id) = #[trigger] tree.tags.view_bindings@[j];
            &&& (id as int) < tree.elements@.len()
            &&& tree.elements@[id as int].profile matches LayoutElementProfile::Window(x) && x.view == Some(v)
        }) by {
            let id = tree.tags.view_bindings@[j].1;
            assert(tree.elements@[id as int] == e0[id as int]);
        }
        assert forall|i: int| 0 <= i < tree.elements@.len() implies match (#[trigger] tree.elements@[i]).profile {
            LayoutElementProfile::Window(x) => x.view matches Some(v) ==> tree.tags.view_bindings@.contains((v, i as LayoutElemID)),
            _ => true,
        } by {
            if i < e0.len() {
                assert(tree.elements@[i] == e0[i]);
            }
        }
    }
    tree.tags.handle_element_swap(w, n);
    let bisect = Bisect { left: n, right: n1, orientation: o, ratio: SEED_RATIO };
    let thrown = tree.swap_element_profile(w, LayoutElementProfile::Bisect(bisect));
    match thrown {
        Some(profile) => { tree.reserve_element_identity(n, profile); },
        None => {},
    }
    proof {
        assert(tree.elements@ =~= split_at(e0, w as int, o));
        lemma_split_keeps_structure(e0, w as int, o);
    }
    tree.animate_property(w, Property::Ratio, (FIXED_ONE / 2) as i64, false, RESIZE_MS);
    n1
}

/// The slot that `first_unoccupied` finds is an empty element.
pub proof fn lemma_unoccupied_is_empty(e: Seq<LayoutElement>, s: int)
    requires
        first_unoccupied(e, s) is Some,
        e.len() <= MAX_ELEMENTS,
    ensures
        (first_unoccupied(e, s)->0 as int) < e.len(),
        e[first_unoccupied(e, s)->0 as int].profile is Empty,
    decreases e.len() - s,
{
    match e[s].profile {
        LayoutElementProfile::Padding(pd) => lemma_unoccupied_is_empty(e, pd.child as int),
        LayoutElementProfile::Bisect(b) => {
            if !(e[b.left as int].profile is Empty) && !(e[b.right as int].profile is Empty) {
                if first_unoccupied(e, b.left as int) is Some {
                    lemma_unoccupied_is_empty(e, b.left as int);
                } else {
                    lemma_unoccupied_is_empty(e, b.right as int);
                }
            }
        },
        LayoutElementProfile::Grid(g) => lemma_unoccupied_is_empty(e, g.cells@[g.active_subspace as int] as int),
        _ => {},
    }
}

/// The active cell of the nearest grid above `id`; zero where there is none.
fn active_cell_above(tree: &LayoutTree, id: LayoutElemID) -> (r: usize)
    requires
        tree.wf(),
        (id as int) < tree.elements@.len(),
{
    let mut cur = id;
    while cur > 0
        invariant
            tree.wf(),
            (cur as int) < tree.elements@.len(),
        decreases cur,
    {
        match tree.elements[cur as usize].parent_id {
            Some(p) => {
                proof { lemma_parent_before(tree.elements@, cur as int); }
                if let LayoutElementProfile::Grid(g) = &tree.elements[p as usize].profile {
                    return g.active_subspace;
                }
                cur = p;
            },
            None => {
                return 0;
            },
        }
    }
    0
}

/// Readies the parent of a seated slot: a padding closes its gap, a
/// bisection opens to half.
fn announce_seat(tree: &mut LayoutTree, slot: LayoutElemID)
    requires
        old(tree).wf(),
    ensures
        final(tree).wf(),
        final(tree).elements == old(tree).elements,
        final(tree).tags == old(tree).tags,
        final(tree).focused_id == old(tree).focused_id,
        final(tree).outer_geometry == old(tree).outer_geometry,
        final(tree).easing == old(tree).easing,
{
    if let Some(p) = tree.parent_of(slot) {
        if (p as usize) < tree.elements.len() {
            match &tree.elements[p as usize].profile {
                LayoutElementProfile::Padding(_) => {
                    tree.animate_property(p, Property::GapSize, SEATED_GAP, false, RESIZE_MS);
                },
                LayoutElementProfile::Bisect(_) => {
                    tree.animate_property(p, Property::Ratio, (FIXED_ONE / 2) as i64, false, RESIZE_MS);
                },
                _ => {},
            }
        }
    }
}

/// What seating leaves of a tree: the slot found below the root where
/// there is one, the tree's elements as they were; else the last window of
/// the active cell split, with a new empty slot beside it.
pub open spec fn seated(old_tree: LayoutTree, new_tree: LayoutTree, r: Option<LayoutElemID>) -> bool {
    let e = old_tree.elements@;
    &&& new_tree.wf()
    &&& new_tree.tags.tag_conditions == old_tree.tags.tag_conditions
    &&& new_tree.focused_id == old_tree.focused_id
    &&& new_tree.outer_geometry == old_tree.outer_geometry
    &&& (r matches Some(x) ==> (x as int) < new_tree.elements@.len() && new_tree.elements@[x as int].profile is Empty)
    &&& match first_unoccupied(e, 0) {
        Some(u) => r == Some(u) && new_tree.elements == old_tree.elements && new_tree.tags@ == old_tree.tags@,
        None => match r {
            None => new_tree.elements == old_tree.elements && new_tree.tags@ == old_tree.tags@ && (
                e.len() + 2 > MAX_ELEMENTS || forall|w: int| !window_reach(e, 0, true, w)),
            Some(x) => exists|w: int, o: Orientation| {
                &&& window_reach(e, 0, true, w)
                &&& (forall|w2: int| #[trigger] window_reach(e, 0, true, w2) ==> w2 <= w)
                &&& new_tree.elements@ == split_at(e, w, o)
                &&& new_tree.tags@ == old_tree.tags@.map_values(|p: (Seq<char>, Seq<LayoutElemID>)|
                    (p.0, p.1.map_values(|y: LayoutElemID| swapped(y, w as LayoutElemID, e.len() as LayoutElemID))))
                &&& x == e.len() + 1
            },
        },
    }
}

/// Seats a window: the first free slot below the root, else a split of
/// the last window of the active cell. Shared by the policies; `o` is the
/// orientation of a split.
fn seat_with(tree: &mut LayoutTree, o: Orientation) -> (r: Option<LayoutElemID>)
    requires
        old(tree).wf(),
    ensures
        seated(*old(tree), *final(tree), r),
        final(tree).easing == old(tree).easing,
{
    match find_first_unoccupied(tree, PARENT_ELEMENT) {
        Some(u) => {
            proof { lemma_unoccupied_is_empty(tree.elements@, 0); }
            announce_seat(tree, u);
            Some(u)
        },
        None => {
            let mut wins: Vec<LayoutElemID> = Vec::new();
            find_all_windows(&mut wins, true, tree, PARENT_ELEMENT);
            if wins.len() == 0 || tree.elements.len() + 2 > MAX_ELEMENTS {
                proof {
                    if wins@.len() == 0 {
                        assert forall|w: int| !window_reach(tree.elements@, 0, true, w) by {
                            if window_reach(tree.elements@, 0, true, w) {
                                lemma_reached_is_window(tree.elements@, 0, true, w);
                                assert(wins@.contains(w as LayoutElemID));
                            }
                        }
                    }
                }
                return None;
            }
            let w = last_of(&wins);
            proof {
                lemma_reached_is_window(tree.elements@, 0, true, w as int);
                assert forall|w2: int| #[trigger] window_reach(tree.elements@, 0, true, w2) implies w2 <= w by {
                    lemma_reached_is_window(tree.elements@, 0, true, w2);
                    assert(wins@.contains(w2 as LayoutElemID));
                }
            }
            let ghost t0 = *tree;
            let x = extend_layout(tree, w, o);
            proof {
                assert(tree.elements@[x as int].profile is Empty);
                assert(window_reach(t0.elements@, 0, true, w as int));
            }
            Some(x)
        },
    }
}

/// A policy that turns the orientation of each split, remembering the last
/// orientation of every workspace apart.
#[derive(Clone, Debug)]
pub struct AutoCirculation {
    pub last_orientations: Vec<Orientation>,
}

impl AutoCirculation {
    pub fn init(num_workspaces: usize) -> (r: AutoCirculation)
        ensures
            r.last_orientations@.len() == num_workspaces,
            forall|i: int| 0 <= i < num_workspaces ==> r.last_orientations@[i] == Orientation::Horizontal,
    {
        let mut v: Vec<Orientation> = Vec::new();
        let mut i: usize = 0;
        while i < num_workspaces
            invariant
                i <= num_workspaces,
                v@.len() == i,
                forall|j: int| 0 <= j < i ==> v@[j] == Orientation::Horizontal,
            decreases num_workspaces - i,
        {
            v.push(Orientation::Horizontal);
            i += 1;
        }
        AutoCirculation { last_orientations: v }
    }

    /// Returns the slot where a new window goes, making one where needed.
    pub fn seat_window(&mut self, tree: &mut LayoutTree) -> (r: Option<LayoutElemID>)
        requires
            old(tree).wf(),
        ensures
            seated(*old(tree), *final(tree), r),
            final(self).last_orientations@.len() == old(self).last_orientations@.len(),
    {
        let o = if find_first_unoccupied(tree, PARENT_ELEMENT).is_some() || tree.elements.len() == 0 {
            Orientation::Horizontal
        } else {
            let mut wins: Vec<LayoutElemID> = Vec::new();
            find_all_windows(&mut wins, true, tree, PARENT_ELEMENT);
            if wins.len() == 0 {
                Orientation::Horizontal
            } else {
                let w = last_of(&wins);
                proof { lemma_reached_is_window(tree.elements@, 0, true, w as int); }
                let cell = active_cell_above(tree, w);
                if cell < self.last_orientations.len() {
                    let o = self.last_orientations[cell];
                    self.last_orientations.set(cell, o.opposite());
                    o
                } else {
                    Orientation::Horizontal
                }
            }
        };
        seat_with(tree, o)
    }
}

/// A policy that turns the orientation of each split, across all workspaces.
#[derive(Clone, Copy, Debug, PartialEq, Eq, Structural)]
pub struct Circulation {
    pub last_orientation: Orientation,
}

impl Circulation {
    pub fn init() -> (r: Circulation)
        ensures
            r.last_orientation == Orientation::Horizontal,
    {
        Circulation { last_orientation: Orientation::Horizontal }
    }

    /// Returns the slot where a new window goes, making one where needed;
    /// each call turns the orientation first.
    pub fn seat_window(&mut self, tree: &mut LayoutTree) -> (r: Option<LayoutElemID>)
        requires
            old(tree).wf(),
        ensures
            seated(*old(tree), *final(tree), r),
            final(self).last_orientation != old(self).last_orientation,
    {
        self.last_orientation = self.last_orientation.opposite();
        seat_with(tree, self.last_orientation)
    }
}

/// `e` with the profile of `id` emptied.
pub open spec fn cleared(e: Seq<LayoutElement>, id: int) -> Seq<LayoutElement> {
    e.update(id, LayoutElement { profile: LayoutElementProfile::Empty, ..e[id] })
}

/// `e` after the bisection `p` over the empty `id` and `s` closes: `p`
/// becomes an empty slot, and `id` and `s` are released.
pub open spec fn collapsed(e: Seq<LayoutElement>, id: int, p: int, s: int) -> Seq<LayoutElement> {
    e.update(id, LayoutElement { parent_id: None, profile: LayoutElementProfile::Empty, ..e[id] })
        .update(s, LayoutElement { parent_id: None, ..e[s] })
        .update(p, LayoutElement { profile: LayoutElementProfile::Empty, ..e[p] })
}

/// The other child of a bisection.
pub open spec fn sibling(b: Bisect, id: LayoutElemID) -> LayoutElemID {
    if b.left == id { b.right } else { b.left }
}

pub proof fn lemma_leaf_replaced(e: Seq<LayoutElement>, id: int, np: LayoutElementProfile)
    requires
        structure_ok(e),
        0 <= id < e.len(),
        e[id].profile is Window || e[id].profile is Empty,
        np is Window || np is Empty,
        e[id].parent_id is None ==> np is Empty,
    ensures
        structure_ok(e.update(id, LayoutElement { profile: np, ..e[id] })),
{
    reveal(structure_ok);
    let e2 = e.update(id, LayoutElement { profile: np, ..e[id] });
    assert forall|i: int| 0 <= i < e2.len() implies (#[trigger] e2[i]).element_id == i by {
        assert(e[i].element_id == i);
    }
    assert forall|i: int| 0 < i < e2.len() && (#[trigger] e2[i]).parent_id is Some implies {
        let p = e2[i].parent_id->0 as int;
        &&& p < i
        &&& children_of(e2[p].profile).contains(i as LayoutElemID)
    } by {
        assert(e2[i].parent_id == e[i].parent_id);
        let p = e[i].parent_id->0 as int;
        assert(children_of(e[p].profile).contains(i as LayoutElemID));
        if p == id {
            assert(children_of(e[id].profile).len() == 0);
        }
    }
    assert forall|p: int, k: int| 0 <= p < e2.len() && 0 <= k < children_of(e2[p].profile).len() implies {
        let c = (#[trigger] children_of(e2[p].profile)[k]) as int;
        &&& p < c < e2.len()
        &&& e2[c].parent_id == Some(p as LayoutElemID)
    } by {
        assert(e2[p].profile == e[p].profile);
        let c = children_of(e[p].profile)[k] as int;
        assert(p < c < e.len() && e[c].parent_id == Some(p as LayoutElemID));
        assert(e2[c].parent_id == e[c].parent_id);
    }
    assert forall|p: int| 0 <= p < e2.len() implies match (#[trigger] e2[p]).profile {
        LayoutElementProfile::Bisect(b) => b.left != b.right && b.ratio <= FIXED_ONE,
        LayoutElementProfile::Grid(g) => g.well_formed() && g.cells@.no_duplicates() && g.cells@.len() <= MAX_ELEMENTS,
        _ => true,
    } by {
        if p != id { assert(e2[p] == e[p]); }
    }
    assert forall|i: int| 0 < i < e2.len() && (#[trigger] e2[i]).parent_id is None implies e2[i].profile is Empty by {
        if i != id { assert(e2[i] == e[i]); }
    }
    assert(ids_are_indices(e2));
    assert(parents_declare(e2));
    assert(children_belong(e2));
    assert(containers_shaped(e2));
    assert(released_are_empty(e2));
}

proof fn lemma_clear_keeps_structure(e: Seq<LayoutElement>, id: int)
    requires
        structure_ok(e),
        0 < id < e.len(),
        e[id].profile is Window || e[id].profile is Empty,
    ensures
        structure_ok(cleared(e, id)),
{
    lemma_leaf_replaced(e, id, LayoutElementProfile::Empty);
}

proof fn lemma_collapse_keeps_structure(e: Seq<LayoutElement>, id: int, p: int, s: int)
    requires
        structure_ok(e),
        0 < id < e.len(),
        e[id].profile is Empty,
        e[id].parent_id == Some(p as LayoutElemID),
        0 <= p < e.len(),
        e[p].profile matches LayoutElementProfile::Bisect(b) && s == sibling(b, id as LayoutElemID) as int
            && (b.left == id as LayoutElemID || b.right == id as LayoutElemID),
        0 <= s < e.len(),
        e[s].profile is Empty,
    ensures
        structure_ok(collapsed(e, id, p, s)),
{
    reveal(structure_ok);
    let b = e[p].profile->Bisect_0;
    let e2 = collapsed(e, id, p, s);
    assert(children_of(e[p].profile) == seq![b.left, b.right]);
    assert(children_of(e[p].profile)[0] == b.left);
    assert(children_of(e[p].profile)[1] == b.right);
    assert(p < id && p < s && id != s && p != 0 || p == 0);
    assert(e[s].parent_id == Some(p as LayoutElemID));
    assert forall|i: int| 0 <= i < e2.len() implies (#[trigger] e2[i]).element_id == i by {
        assert(e[i].element_id == i);
    }
    assert forall|i: int| 0 < i < e2.len() && (#[trigger] e2[i]).parent_id is Some implies {
        let q = e2[i].parent_id->0 as int;
        &&& q < i
        &&& children_of(e2[q].profile).contains(i as LayoutElemID)
    } by {
        assert(i != id && i != s);
        assert(e2[i].parent_id == e[i].parent_id);
        let q = e[i].parent_id->0 as int;
        assert(children_of(e[q].profile).contains(i as LayoutElemID));
        let k = choose|k: int| 0 <= k < children_of(e[q].profile).len() && children_of(e[q].profile)[k] == i as LayoutElemID;
        if q == p {
            assert(children_of(e[p].profile)[k] == i as LayoutElemID);
            assert(i == b.left || i == b.right);
        }
        if q == id || q == s {
            assert(children_of(e[q].profile).len() == 0);
        }
        assert(e2[q].profile == e[q].profile);
    }
    assert forall|q: int, k: int| 0 <= q < e2.len() && 0 <= k < children_of(e2[q].profile).len() implies {
        let c = (#[trigger] children_of(e2[q].profile)[k]) as int;
        &&& q < c < e2.len()
        &&& e2[c].parent_id == Some(q as LayoutElemID)
    } by {
        assert(q != p && q != id);
        assert(e2[q].profile == e[q].profile);
        let c = children_of(e[q].profile)[k] as int;
        assert(q < c < e.len() && e[c].parent_id == Some(q as LayoutElemID));
        if c == id || c == s {
            assert(false);
        }
        assert(e2[c].parent_id == e[c].parent_id);
    }
    assert forall|q: int| 0 <= q < e2.len() implies match (#[trigger] e2[q]).profile {
        LayoutElementProfile::Bisect(bb) => bb.left != bb.right && bb.ratio <= FIXED_ONE,
        LayoutElementProfile::Grid(g) => g.well_formed() && g.cells@.no_duplicates() && g.cells@.len() <= MAX_ELEMENTS,
        _ => true,
    } by {
        if q != id && q != p { assert(e2[q].profile == e[q].profile); }
    }
    assert forall|i: int| 0 < i < e2.len() && (#[trigger] e2[i]).parent_id is None implies e2[i].profile is Empty by {
        if i != id && i != s && i != p { assert(e2[i] == e[i]); }
    }
    assert(ids_are_indices(e2));
    assert(parents_declare(e2));
    assert(children_belong(e2));
    assert(containers_shaped(e2));
    assert(released_are_empty(e2));
}

/// What detaching `id` leaves of a tree. A window or an empty slot below
/// the root is emptied, and the view it showed comes back; where its parent
/// is a bisection whose other child is empty too, that bisection closes
/// into an empty slot and both children are released. Anything else is
/// left alone.
pub open spec fn detached(old_tree: LayoutTree, new_tree: LayoutTree, id: LayoutElemID, r: Option<ViewRef>) -> bool {
    let e = old_tree.elements@;
    let i = id as int;
    &&& new_tree.wf()
    &&& new_tree.tags@ == old_tree.tags@
    &&& new_tree.tags.tag_conditions == old_tree.tags.tag_conditions
    &&& new_tree.focused_id == old_tree.focused_id
    &&& new_tree.outer_geometry == old_tree.outer_geometry
    &&& if !(0 < i < e.len()) || !(e[i].profile is Window || e[i].profile is Empty) {
        r is None && new_tree.elements == old_tree.elements
    } else {
        &&& r == (match e[i].profile { LayoutElementProfile::Window(w) => w.view, _ => None })
        &&& match e[i].parent_id {
            Some(p) => match e[p as int].profile {
                LayoutElementProfile::Bisect(b) => if e[sibling(b, id) as int].profile is Empty {
                    new_tree.elements@ == collapsed(e, i, p as int, sibling(b, id) as int)
                } else {
                    new_tree.elements@ == cleared(e, i)
                },
                _ => new_tree.elements@ == cleared(e, i),
            },
            None => new_tree.elements@ == cleared(e, i),
        }
    }
}

/// Closes the bisection `p` over the empty children `id` and `sib`.
fn close_bisect(tree: &mut LayoutTree, id: LayoutElemID, p: LayoutElemID, sib: LayoutElemID)
    requires
        old(tree).wf(),
        0 < id < old(tree).elements@.len(),
        old(tree).elements@[id as int].profile is Empty,
        old(tree).elements@[id as int].parent_id == Some(p),
        (p as int) < old(tree).elements@.len(),
        old(tree).elements@[p as int].profile matches LayoutElementProfile::Bisect(b) && sib == sibling(b, id)
            && (b.left == id || b.right == id),
        (sib as int) < old(tree).elements@.len(),
        old(tree).elements@[sib as int].profile is Empty,
    ensures
        final(tree).wf(),
        final(tree).elements@ == collapsed(old(tree).elements@, id as int, p as int, sib as int),
        final(tree).tags@ == old(tree).tags@,
        final(tree).tags.tag_conditions == old(tree).tags.tag_conditions,
        final(tree).focused_id == old(tree).focused_id,
        final(tree).outer_geometry == old(tree).outer_geometry,
        final(tree).easing == old(tree).easing,
{
    let ghost e0 = tree.elements@;
    if let Some(g) = tree.elements[p as usize].parent_id {
        proof {
            if p == 0 {
                reveal(structure_ok);
            } else {
                lemma_parent_before(e0, p as int);
            }
        }
        let gb = match &tree.elements[g as usize].profile {
            LayoutElementProfile::Bisect(x) => Some(*x),
            _ => None,
        };
        if let Some(x) = gb {
            let target: i64 = if x.left == p { 0 } else { FIXED_ONE as i64 };
            tree.animate_property(g, Property::Ratio, target, false, RESIZE_MS);
        }
    }
    let _ = tree.swap_element_profile(p, LayoutElementProfile::Empty);
    let ghost e2 = tree.elements@;
    tree.elements[id as usize].parent_id = None;
    tree.elements[sib as usize].parent_id = None;
    proof {
        assert(tree.elements@ =~= collapsed(e0, id as int, p as int, sib as int));
        lemma_collapse_keeps_structure(e0, id as int, p as int, sib as int);
        assert forall|i: int| 0 <= i < e2.len() implies (#[trigger] tree.elements@[i]).profile == e2[i].profile by {}
        lemma_views_follow_profiles(e2, tree.elements@, tree.tags.view_bindings@);
    }
}

/// Detaches the window at `element_ident`, closing the tree up around it.
fn detach_from(tree: &mut LayoutTree, element_ident: LayoutElemID) -> (r: Option<ViewRef>)
    requires
        old(tree).wf(),
    ensures
        detached(*old(tree), *final(tree), element_ident, r),
        final(tree).easing == old(tree).easing,
{
    let id = element_ident;
    if id == 0 || id as usize >= tree.elements.len() {
        return None;
    }
    let view = match &tree.elements[id as usize].profile {
        LayoutElementProfile::Window(w) => w.view,
        LayoutElementProfile::Empty => None,
        _ => { return None; },
    };
    let ghost e0 = tree.elements@;
    let _ = tree.swap_element_profile(id, LayoutElementProfile::Empty);
    proof {
        assert(tree.elements@ =~= cleared(e0, id as int));
        lemma_clear_keeps_structure(e0, id as int);
    }
    let parent = tree.elements[id as usize].parent_id;
    if let Some(p) = parent {
        proof {
            assert(e0[id as int].parent_id == Some(p));
            lemma_parent_before(e0, id as int);
        }
        let pb = match &tree.elements[p as usize].profile {
            LayoutElementProfile::Bisect(b) => Some(*b),
            _ => None,
        };
        if let Some(b) = pb {
            let side = b.child_side(id);
            let sib = if side == Side::Left { b.right } else { b.left };
            proof {
                assert(children_of(e0[p as int].profile).contains(id));
                let k = choose|k: int| 0 <= k < children_of(e0[p as int].profile).len() && children_of(e0[p as int].profile)[k] == id;
                assert(k == 0 || k == 1);
                assert(sib == sibling(b, id));
                assert(children_of(e0[p as int].profile)[0] == b.left);
                assert(children_of(e0[p as int].profile)[1] == b.right);
                lemma_shaped(e0, p as int);
                lemma_child_after(e0, p as int, 0);
                lemma_child_after(e0, p as int, 1);
            }
            if tree.elements[sib as usize].profile.is_none() {
                let ghost e1 = tree.elements@;
                close_bisect(tree, id, p, sib);
                proof {
                    assert(collapsed(e1, id as int, p as int, sib as int) =~= collapsed(e0, id as int, p as int, sib as int));
                }
            } else {
                let target: i64 = if side == Side::Left { 0 } else { FIXED_ONE as i64 };
                tree.animate_property(p, Property::Ratio, target, false, RESIZE_MS);
            }
        }
    }
    view
}

impl AutoCirculation {
    /// Takes the window at `element_ident` out of the layout and returns the
    /// view it showed.
    pub fn detach_window(&mut self, tree: &mut LayoutTree, element_ident: LayoutElemID) -> (r: Option<ViewRef>)
        requires
            old(tree).wf(),
        ensures
            detached(*old(tree), *final(tree), element_ident, r),
            *final(self) == *old(self),
    {
        detach_from(tree, element_ident)
    }
}

impl Circulation {
    /// Takes the window at `element_ident` out of the layout and returns the
    /// view it showed.
    pub fn detach_window(&mut self, tree: &mut LayoutTree, element_ident: LayoutElemID) -> (r: Option<ViewRef>)
        requires
            old(tree).wf(),
        ensures
            detached(*old(tree), *final(tree), element_ident, r),
            *final(self) == *old(self),
    {
        detach_from(tree, element_ident)
    }
}

/// Seating a window and detaching the returned slot at once keeps every
/// window and every tag binding. Where a free slot was found, each window
/// stays where it was and the tags are as they were; where the last window
/// `w` of the active cell was split, its window moved to the new element
/// `n` beside the slot, and the tags that named `w` name `n`.
pub proof fn lemma_seat_detach_round_trip(t0: LayoutTree, t1: LayoutTree, x: LayoutElemID, t2: LayoutTree, r: Option<ViewRef>)
    requires
        t0.wf(),
        seated(t0, t1, Some(x)),
        detached(t1, t2, x, r),
    ensures
        r is None,
        t2.tags@ == t1.tags@,
        first_unoccupied(t0.elements@, 0) is Some ==> {
            &&& t2.tags@ == t0.tags@
            &&& forall|i: int| 0 <= i < t0.elements@.len() && (#[trigger] t0.elements@[i]).profile is Window
                ==> t2.elements@[i].profile == t0.elements@[i].profile
        },
        first_unoccupied(t0.elements@, 0) is None ==> exists|w: int| {
            let n = t0.elements@.len() as int;
            &&& 0 <= w < n
            &&& t2.elements@[n].profile == (#[trigger] t0.elements@[w]).profile
            &&& t2.tags@ == t0.tags@.map_values(|p: (Seq<char>, Seq<LayoutElemID>)|
                (p.0, p.1.map_values(|y: LayoutElemID| swapped(y, w as LayoutElemID, n as LayoutElemID))))
            &&& forall|i: int| 0 <= i < n && i != w && (#[trigger] t0.elements@[i]).profile is Window
                ==> t2.elements@[i].profile == t0.elements@[i].profile
        },
{
    let e0 = t0.elements@;
    let e1 = t1.elements@;
    let e2 = t2.elements@;
    let xi = x as int;
    assert(e1[xi].profile is Empty);
    if first_unoccupied(e0, 0) is Some {
        assert(e1 == e0);
        if xi > 0 {
            match e1[xi].parent_id {
                Some(p) => {
                    lemma_parent_before(e1, xi);
                    match e1[p as int].profile {
                        LayoutElementProfile::Bisect(b) => {
                            lemma_shaped(e1, p as int);
                            lemma_child_after(e1, p as int, 0);
                            lemma_child_after(e1, p as int, 1);
                            assert(children_of(e1[p as int].profile)[0] == b.left);
                            assert(children_of(e1[p as int].profile)[1] == b.right);
                            let sb = sibling(b, x) as int;
                            if e1[sb].profile is Empty {
                                assert(e2 == collapsed(e1, xi, p as int, sb));
                                assert forall|i: int| 0 <= i < e0.len() && (#[trigger] e0[i]).profile is Window
                                    implies e2[i].profile == e0[i].profile by {
                                    assert(i != xi && i != sb && i != p as int);
                                }
                            } else {
                                assert(e2 == cleared(e1, xi));
                            }
                        },
                        _ => { assert(e2 == cleared(e1, xi)); },
                    }
                },
                None => { assert(e2 == cleared(e1, xi)); },
            }
        }
    } else {
        let (w, o) = choose|w: int, o: Orientation| {
            &&& window_reach(e0, 0, true, w)
            &&& (forall|w2: int| #[trigger] window_reach(e0, 0, true, w2) ==> w2 <= w)
            &&& e1 == split_at(e0, w, o)
            &&& t1.tags@ == t0.tags@.map_values(|p: (Seq<char>, Seq<LayoutElemID>)|
                (p.0, p.1.map_values(|y: LayoutElemID| swapped(y, w as LayoutElemID, e0.len() as LayoutElemID))))
            &&& x == e0.len() + 1
        };
        lemma_reached_is_window(e0, 0, true, w);
        let n = e0.len() as int;
        assert(e1[xi].parent_id == Some(w as LayoutElemID));
        assert(e1[w].profile is Bisect);
        let b = e1[w].profile->Bisect_0;
        assert(sibling(b, x) == n as LayoutElemID);
        assert(e1[n].profile == e0[w].profile);
        assert(e2 == cleared(e1, xi));
        assert(e2[n] == e1[n]);
        assert forall|i: int| 0 <= i < n && i != w && (#[trigger] e0[i]).profile is Window implies e2[i].profile == e0[i].profile by {
            assert(e2[i] == e1[i]);
        }
    }
}

impl LayoutTree {
    /// Installs a window in the empty slot `slot`, binding its view. Only
    /// an empty slot that hangs below a parent takes a window.
    pub fn install_window(&mut self, slot: LayoutElemID, window: crate::element::Window) -> (r: bool)
        requires
            old(self).wf(),
        ensures
            final(self).wf(),
            r == ((slot as int) < old(self).elements@.len() && old(self).elements@[slot as int].profile is Empty
                && old(self).elements@[slot as int].parent_id is Some),
            r ==> final(self).elements@ == old(self).elements@.update(slot as int, LayoutElement {
                profile: LayoutElementProfile::Window(window),
                ..old(self).elements@[slot as int]
            }),
            !r ==> final(self).elements == old(self).elements,
            final(self).tags@ == old(self).tags@,
            final(self).tags.tag_conditions == old(self).tags.tag_conditions,
            final(self).focused_id == old(self).focused_id,
            final(self).outer_geometry == old(self).outer_geometry,
    {
        if slot as usize >= self.elements.len() || !self.elements[slot as usize].profile.is_none()
            || self.elements[slot as usize].parent_id.is_none() {
            return false;
        }
        proof { lemma_leaf_replaced(self.elements@, slot as int, LayoutElementProfile::Window(window)); }
        let _ = self.swap_element_profile(slot, LayoutElementProfile::Window(window));
        true
    }
}

/// The opacity that a window's frame fades in to.
pub const FRAME_OPACITY: i64 = 7000;

/// Gives the window at `id` a frame, invisible at first, that fades in
/// after a short delay. Anything but a window is left alone.
fn decorate(tree: &mut LayoutTree, id: LayoutElemID)
    requires
        old(tree).wf(),
    ensures
        final(tree).wf(),
        (id as int) < old(tree).elements@.len() && old(tree).elements@[id as int].profile is Window ==> {
            let w = old(tree).elements@[id as int].profile->Window_0;
            &&& final(tree).elements@ == old(tree).elements@.update(id as int, LayoutElement {
                profile: LayoutElementProfile::Window(Window { frame_opacity: Some(0), ..w }),
                ..old(tree).elements@[id as int]
            })
            &&& final(tree).transitions@ == crate::animation::others(old(tree).transitions@, id, Property::FrameOpacity).push(
                crate::transition::Transition {
                    element_id: id,
                    property: Property::FrameOpacity,
                    start: 0,
                    end: FRAME_OPACITY,
                    time_frame_ms: 500,
                    delay_ms: 200,
                    steps: 0,
                    ongoing: true,
                })
        },
        !((id as int) < old(tree).elements@.len() && old(tree).elements@[id as int].profile is Window) ==> *final(tree) == *old(tree),
        final(tree).tags == old(tree).tags,
        final(tree).focused_id == old(tree).focused_id,
        final(tree).outer_geometry == old(tree).outer_geometry,
{
    if id as usize >= tree.elements.len() {
        return;
    }
    let framed = match &tree.elements[id as usize].profile {
        LayoutElementProfile::Window(w) => Window { frame_opacity: Some(0), ..*w },
        _ => { return; },
    };
    let ghost e0 = tree.elements@;
    tree.elements[id as usize].profile = LayoutElementProfile::Window(framed);
    proof {
        assert(crate::tree::same_shape(e0, tree.elements@));
        crate::tree::lemma_same_shape_keeps_wf(e0, tree.elements@, tree.tags.view_bindings@);
    }
    tree.animate_property_after_delay(id, Property::FrameOpacity, FRAME_OPACITY, false, 500, 200);
}

impl AutoCirculation {
    /// Frames a newly seated window.
    pub fn decorate_window(&mut self, tree: &mut LayoutTree, element_ident: LayoutElemID)
        requires
            old(tree).wf(),
        ensures
            final(tree).wf(),
            *final(self) == *old(self),
            (element_ident as int) < old(tree).elements@.len() && old(tree).elements@[element_ident as int].profile is Window ==>
                (final(tree).elements@[element_ident as int].profile matches LayoutElementProfile::Window(w) && w.frame_opacity == Some(0u32)),
    {
        decorate(tree, element_ident);
    }
}

impl Circulation {
    /// Frames a newly seated window.
    pub fn decorate_window(&mut self, tree: &mut LayoutTree, element_ident: LayoutElemID)
        requires
            old(tree).wf(),
        ensures
            final(tree).wf(),
            *final(self) == *old(self),
            (element_ident as int) < old(tree).elements@.len() && old(tree).elements@[element_ident as int].profile is Window ==>
                (final(tree).elements@[element_ident as int].profile matches LayoutElementProfile::Window(w) && w.frame_opacity == Some(0u32)),
    {
        decorate(tree, element_ident);
    }
}

} // verus!
