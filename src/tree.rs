//! The layout tree: an arena of elements addressed by identifier, with the
//! tag register and the outer rectangle of the display.

use vstd::prelude::*;
use crate::element::{
    children_of, LayoutElemID, LayoutElement, LayoutElementProfile, ViewRef,
};
use crate::geometry::Geometry;
use crate::tag::{tagged, TagCondition, TagRegister};
use crate::transition::{Easing, Transition};

verus! {

/// The identifier of the root element.
pub const PARENT_ELEMENT: LayoutElemID = 0;

/// The most elements that a tree can hold: identifiers are `u16`.
pub const MAX_ELEMENTS: usize = 65535;

pub struct LayoutTree {
    /// The element that holds the focus.
    pub focused_id: LayoutElemID,
    /// The elements; the identifier of each is its index.
    pub elements: Vec<LayoutElement>,
    /// The rectangle of the display.
    pub outer_geometry: Geometry,
    pub tags: TagRegister,
    /// The animations under way.
    pub transitions: Vec<Transition>,
    /// How animations ease.
    pub easing: Easing,
}

/// The profiles of a sequence of elements.
pub open spec fn profile_at(e: Seq<LayoutElement>, i: int) -> LayoutElementProfile {
    e[i].profile
}

/// Each element's identifier is its index.
pub open spec fn ids_are_indices(e: Seq<LayoutElement>) -> bool {
    forall|i: int| 0 <= i < e.len() ==> (#[trigger] e[i]).element_id == i
}

/// Every element that has a parent is declared by it as a child.
pub open spec fn parents_declare(e: Seq<LayoutElement>) -> bool {
    forall|i: int| 0 < i < e.len() && (#[trigger] e[i]).parent_id is Some ==> {
        let p = e[i].parent_id->0 as int;
        &&& p < i
        &&& children_of(e[p].profile).contains(i as LayoutElemID)
    }
}

/// Every declared child exists, comes after its parent, and names it.
pub open spec fn children_belong(e: Seq<LayoutElement>) -> bool {
    forall|p: int, k: int| 0 <= p < e.len() && 0 <= k < children_of(e[p].profile).len() ==> {
        let c = (#[trigger] children_of(e[p].profile)[k]) as int;
        &&& p < c < e.len()
        &&& e[c].parent_id == Some(p as LayoutElemID)
    }
}

/// Containers keep their shape: a bisection has two distinct children and
/// a ratio no greater than one; a grid is full and its cells distinct.
pub open spec fn containers_shaped(e: Seq<LayoutElement>) -> bool {
    forall|p: int| 0 <= p < e.len() ==> match (#[trigger] e[p]).profile {
        LayoutElementProfile::Bisect(b) => b.left != b.right && b.ratio <= crate::element::FIXED_ONE,
        LayoutElementProfile::Grid(g) => g.well_formed() && g.cells@.no_duplicates() && g.cells@.len() <= MAX_ELEMENTS,
        _ => true,
    }
}

/// An element other than the root without a parent is an empty slot.
pub open spec fn released_are_empty(e: Seq<LayoutElement>) -> bool {
    forall|i: int| 0 < i < e.len() && (#[trigger] e[i]).parent_id is None ==> e[i].profile is Empty
}

/// The tree's shape: a root without parent, and parents and children that
/// agree.
#[verifier::opaque]
pub open spec fn structure_ok(e: Seq<LayoutElement>) -> bool {
    &&& 1 <= e.len() <= MAX_ELEMENTS
    &&& ids_are_indices(e)
    &&& e[0].parent_id is None
    &&& parents_declare(e)
    &&& children_belong(e)
    &&& containers_shaped(e)
    &&& released_are_empty(e)
}

/// The view bindings and the windows agree.
pub open spec fn views_synced(e: Seq<LayoutElement>, vb: Seq<(ViewRef, LayoutElemID)>) -> bool {
    &&& forall|j: int| 0 <= j < vb.len() ==> {
        let (v, id) = #[trigger] vb[j];
        &&& (id as int) < e.len()
        &&& e[id as int].profile matches LayoutElementProfile::Window(w) && w.view == Some(v)
    }
    &&& forall|i: int| 0 <= i < e.len() ==> match (#[trigger] e[i]).profile {
        LayoutElementProfile::Window(w) => w.view matches Some(v) ==> vb.contains((v, i as LayoutElemID)),
        _ => true,
    }
}

impl LayoutTree {
    /// The tree is well formed.
    pub open spec fn wf(&self) -> bool {
        &&& 1 <= self.elements@.len() <= MAX_ELEMENTS
        &&& structure_ok(self.elements@)
        &&& views_synced(self.elements@, self.tags.view_bindings@)
        &&& self.tags.wf()
    }

    /// A tree without elements, for the given display.
    pub fn init(outer_geometry: Geometry) -> (r: LayoutTree)
        ensures
            r.elements@.len() == 0,
            r.outer_geometry == outer_geometry,
            r.focused_id == PARENT_ELEMENT,
            r.tags@.len() == 0,
            r.tags.wf(),
            r.tags.view_bindings@.len() == 0,
            r.tags.tag_conditions@.len() == 0,
            r.transitions@.len() == 0,
            r.easing == Easing::Linear,
    {
        LayoutTree {
            focused_id: PARENT_ELEMENT,
            elements: Vec::new(),
            outer_geometry,
            tags: TagRegister::init(),
            transitions: Vec::new(),
            easing: Easing::Linear,
        }
    }

    /// Adds an empty placeholder element under `parent_id` and returns its
    /// identifier, the next in sequence.
    pub fn spawn_dummy_element(&mut self, parent_id: Option<LayoutElemID>) -> (r: LayoutElemID)
        requires
            old(self).elements@.len() < MAX_ELEMENTS,
        ensures
            r == old(self).elements@.len(),
            final(self).elements@ == old(self).elements@.push(
                LayoutElement { parent_id, element_id: r, profile: LayoutElementProfile::Empty },
            ),
            final(self).tags == old(self).tags,
            final(self).focused_id == old(self).focused_id,
            final(self).outer_geometry == old(self).outer_geometry,
            final(self).transitions == old(self).transitions,
            final(self).easing == old(self).easing,
    {
        let id = self.elements.len() as LayoutElemID;
        self.elements.push(LayoutElement::init_dummy(id, parent_id));
        id
    }

    /// Removes every binding of an external window to `element_ident`.
    pub fn remove_view_binding_to(&mut self, element_ident: LayoutElemID)
        ensures
            forall|x: (ViewRef, LayoutElemID)| #[trigger] final(self).tags.view_bindings@.contains(x)
                <==> old(self).tags.view_bindings@.contains(x) && x.1 != element_ident,
            final(self).tags@ == old(self).tags@,
            final(self).tags.tag_conditions == old(self).tags.tag_conditions,
            final(self).elements == old(self).elements,
            final(self).focused_id == old(self).focused_id,
            final(self).outer_geometry == old(self).outer_geometry,
            final(self).transitions == old(self).transitions,
            final(self).easing == old(self).easing,
    {
        let mut kept: Vec<(ViewRef, LayoutElemID)> = Vec::new();
        let ghost vb = self.tags.view_bindings@;
        let mut i: usize = 0;
        while i < self.tags.view_bindings.len()
            invariant
                i <= vb.len(),
                vb == self.tags.view_bindings@,
                forall|x: (ViewRef, LayoutElemID)| #[trigger] kept@.contains(x)
                    <==> (exists|j: int| 0 <= j < i && vb[j] == x) && x.1 != element_ident,
            decreases vb.len() - i,
        {
            let b = self.tags.view_bindings[i];
            let ghost k0 = kept@;
            if b.1 != element_ident {
                kept.push(b);
            }
            assert forall|x: (ViewRef, LayoutElemID)| #[trigger] kept@.contains(x)
                <==> (exists|j: int| 0 <= j < i + 1 && vb[j] == x) && x.1 != element_ident by {
                if kept@.contains(x) && !k0.contains(x) {
                    assert(vb[i as int] == x);
                }
                if (exists|j: int| 0 <= j < i + 1 && vb[j] == x) && x.1 != element_ident {
                    let j = choose|j: int| 0 <= j < i + 1 && vb[j] == x;
                    if j == i {
                        assert(kept@[kept@.len() - 1] == x);
                    } else {
                        assert(k0.contains(x));
                        let m = choose|m: int| 0 <= m < k0.len() && k0[m] == x;
                        assert(kept@[m] == x);
                    }
                }
            }
            i += 1;
        }
        assert forall|x: (ViewRef, LayoutElemID)| vb.contains(x) <==> (exists|j: int| 0 <= j < vb.len() && vb[j] == x) by {}
        self.tags.view_bindings = kept;
    }

    /// Installs `new_profile` on `identity` and returns the profile it had,
    /// keeping the bindings of external windows in step both ways. An
    /// unknown identity changes nothing.
    pub fn swap_element_profile(&mut self, identity: LayoutElemID, new_profile: LayoutElementProfile)
        -> (r: Option<LayoutElementProfile>)
        requires
            views_synced(old(self).elements@, old(self).tags.view_bindings@),
            old(self).elements@.len() <= MAX_ELEMENTS,
        ensures
            (identity as int) < old(self).elements@.len() ==> {
                &&& r == Some(old(self).elements@[identity as int].profile)
                &&& final(self).elements@ == old(self).elements@.update(
                    identity as int,
                    LayoutElement { profile: new_profile, ..old(self).elements@[identity as int] },
                )
            },
            (identity as int) >= old(self).elements@.len() ==> r is None && final(self).elements == old(self).elements,
            views_synced(final(self).elements@, final(self).tags.view_bindings@),
            final(self).tags@ == old(self).tags@,
            final(self).tags.tag_conditions == old(self).tags.tag_conditions,
            final(self).focused_id == old(self).focused_id,
            final(self).outer_geometry == old(self).outer_geometry,
            final(self).transitions == old(self).transitions,
            final(self).easing == old(self).easing,
    {
        if identity as usize >= self.elements.len() {
            return None;
        }
        let ghost vb0 = self.tags.view_bindings@;
        self.remove_view_binding_to(identity);
        let ghost vb1 = self.tags.view_bindings@;
        let ghost e0 = self.elements@;
        let mut profile = new_profile;
        if let LayoutElementProfile::Window(w) = &profile {
            if let Some(v) = w.view {
                self.tags.view_bindings.push((v, identity));
            }
        }
        std::mem::swap(&mut self.elements[identity as usize].profile, &mut profile);
        let ghost vb = self.tags.view_bindings@;
        let ghost e1 = self.elements@;
        assert(e1 =~= e0.update(identity as int, LayoutElement { profile: new_profile, ..e0[identity as int] }));
        assert forall|x: (ViewRef, LayoutElemID)| vb1.contains(x) implies vb.contains(x) by {
            let m = choose|m: int| 0 <= m < vb1.len() && vb1[m] == x;
            assert(vb[m] == x);
        }
        assert forall|j: int| 0 <= j < vb.len() implies ({
            let (v, id) = #[trigger] vb[j];
            &&& (id as int) < e1.len()
            &&& e1[id as int].profile matches LayoutElementProfile::Window(w) && w.view == Some(v)
        }) by {
            if j < vb1.len() {
                assert(vb1[j] == vb[j]);
                assert(vb1.contains(vb1[j]));
                assert(vb0.contains(vb1[j]));
                let m = choose|m: int| 0 <= m < vb0.len() && vb0[m] == vb1[j];
                assert(vb0[m] == vb[j]);
            }
        }
        assert forall|i: int| 0 <= i < e1.len() implies match (#[trigger] e1[i]).profile {
            LayoutElementProfile::Window(w) => w.view matches Some(v) ==> vb.contains((v, i as LayoutElemID)),
            _ => true,
        } by {
            if i != identity as int {
                assert(e1[i] == e0[i]);
                assert(e0[i] == old(self).elements@[i]);
                if let LayoutElementProfile::Window(w) = e1[i].profile {
                    if let Some(v) = w.view {
                        assert(vb0.contains((v, i as LayoutElemID)));
                        assert(vb1.contains((v, i as LayoutElemID)));
                    }
                }
            } else {
                if let LayoutElementProfile::Window(w) = new_profile {
                    if let Some(v) = w.view {
                        assert(vb[vb.len() - 1] == (v, identity));
                    }
                }
            }
        }
        Some(profile)
    }

    /// Installs `profile` on a placeholder made by `spawn_dummy_element`.
    pub fn reserve_element_identity(&mut self, identity: LayoutElemID, profile: LayoutElementProfile)
        requires
            views_synced(old(self).elements@, old(self).tags.view_bindings@),
            old(self).elements@.len() <= MAX_ELEMENTS,
        ensures
            (identity as int) < old(self).elements@.len() ==> final(self).elements@ == old(self).elements@.update(
                identity as int,
                LayoutElement { profile, ..old(self).elements@[identity as int] },
            ),
            (identity as int) >= old(self).elements@.len() ==> final(self).elements == old(self).elements,
            views_synced(final(self).elements@, final(self).tags.view_bindings@),
            final(self).tags@ == old(self).tags@,
            final(self).tags.tag_conditions == old(self).tags.tag_conditions,
            final(self).focused_id == old(self).focused_id,
            final(self).outer_geometry == old(self).outer_geometry,
            final(self).transitions == old(self).transitions,
            final(self).easing == old(self).easing,
    {
        let _ = self.swap_element_profile(identity, profile);
    }
}

/// Whether element `id` is declared by its parent, the root aside.
pub open spec fn declared_by_parent(e: Seq<LayoutElement>, id: int) -> bool {
    e[id].parent_id matches Some(p) && children_of(e[p as int].profile).contains(id as LayoutElemID)
}

/// Every element but the root either has a parent that declares it as a
/// child, or is a released slot: empty, without parent, declared by none.
pub proof fn lemma_parent_declares_child(tree: &LayoutTree, id: int)
    requires
        tree.wf(),
        0 < id < tree.elements@.len(),
    ensures
        declared_by_parent(tree.elements@, id) || {
            &&& tree.elements@[id].parent_id is None
            &&& tree.elements@[id].profile is Empty
            &&& forall|p: int| 0 <= p < tree.elements@.len() ==> !children_of(#[trigger] tree.elements@[p].profile).contains(id as LayoutElemID)
        },
{
    reveal(structure_ok);
    let e = tree.elements@;
    if e[id].parent_id is None {
        assert forall|p: int| 0 <= p < e.len() implies !children_of(#[trigger] e[p].profile).contains(id as LayoutElemID) by {
            if children_of(e[p].profile).contains(id as LayoutElemID) {
                let k = choose|k: int| 0 <= k < children_of(e[p].profile).len() && children_of(e[p].profile)[k] == id as LayoutElemID;
                assert(e[children_of(e[p].profile)[k] as int].parent_id == Some(p as LayoutElemID));
            }
        }
    }
}

/// A parent comes before its child and declares it.
pub proof fn lemma_parent_before(e: Seq<LayoutElement>, i: int)
    requires
        structure_ok(e),
        0 < i < e.len(),
        e[i].parent_id is Some,
    ensures
        (e[i].parent_id->0 as int) < i,
        children_of(e[e[i].parent_id->0 as int].profile).contains(i as LayoutElemID),
{
    reveal(structure_ok);
}

/// The declared children of an element come after it and name it.
pub proof fn lemma_child_after(e: Seq<LayoutElement>, p: int, k: int)
    requires
        structure_ok(e),
        0 <= p < e.len(),
        0 <= k < children_of(e[p].profile).len(),
    ensures
        p < children_of(e[p].profile)[k] < e.len(),
        e[children_of(e[p].profile)[k] as int].parent_id == Some(p as LayoutElemID),
{
    reveal(structure_ok);
}

/// Containers keep their shape.
pub proof fn lemma_shaped(e: Seq<LayoutElement>, p: int)
    requires
        structure_ok(e),
        0 <= p < e.len(),
    ensures
        match e[p].profile {
            LayoutElementProfile::Bisect(b) => b.left != b.right && b.ratio <= crate::element::FIXED_ONE,
            LayoutElementProfile::Grid(g) => g.well_formed() && g.cells@.no_duplicates() && g.cells@.len() <= MAX_ELEMENTS,
            _ => true,
        },
{
    reveal(structure_ok);
}

impl LayoutTree {
    pub fn lookup_element(&self, elem_id: LayoutElemID) -> (r: Option<&LayoutElement>)
        ensures
            (elem_id as int) < self.elements@.len() ==> r == Some(&self.elements@[elem_id as int]),
            (elem_id as int) >= self.elements@.len() ==> r is None,
    {
        if (elem_id as usize) < self.elements.len() {
            Some(&self.elements[elem_id as usize])
        } else {
            None
        }
    }

    /// The parent of an element; none for the root, a released slot, or an
    /// unknown identifier.
    pub fn parent_of(&self, element_ident: LayoutElemID) -> (r: Option<LayoutElemID>)
        ensures
            (element_ident as int) < self.elements@.len() ==> r == self.elements@[element_ident as int].parent_id,
            (element_ident as int) >= self.elements@.len() ==> r is None,
    {
        if (element_ident as usize) < self.elements.len() {
            self.elements[element_ident as usize].parent_id
        } else {
            None
        }
    }

    pub fn get_all_element_ids(&self) -> (r: Vec<LayoutElemID>)
        requires
            self.elements@.len() <= MAX_ELEMENTS,
        ensures
            r@.len() == self.elements@.len(),
            forall|i: int| 0 <= i < r@.len() ==> r@[i] == i,
    {
        let mut r: Vec<LayoutElemID> = Vec::new();
        let mut i: usize = 0;
        while i < self.elements.len()
            invariant
                i <= self.elements@.len() <= MAX_ELEMENTS,
                r@.len() == i,
                forall|j: int| 0 <= j < i ==> r@[j] == j,
            decreases self.elements@.len() - i,
        {
            r.push(i as LayoutElemID);
            i += 1;
        }
        r
    }

    pub fn get_outer_geometry(&self) -> (r: Geometry)
        ensures
            r == self.outer_geometry,
    {
        self.outer_geometry
    }

    pub fn set_outer_geometry(&mut self, new_geometry: Geometry)
        ensures
            *final(self) == (LayoutTree { outer_geometry: new_geometry, ..*old(self) }),
    {
        self.outer_geometry = new_geometry;
    }

    /// The element bound to the external window `handle`, where one is.
    pub fn lookup_element_from_view(&self, handle: u64) -> (r: Option<LayoutElemID>)
        ensures
            r matches Some(id) ==> exists|j: int| 0 <= j < self.tags.view_bindings@.len()
                && (#[trigger] self.tags.view_bindings@[j]).0.handle == handle && self.tags.view_bindings@[j].1 == id,
            r is None ==> forall|j: int| 0 <= j < self.tags.view_bindings@.len() ==> (#[trigger] self.tags.view_bindings@[j]).0.handle != handle,
    {
        let vb = &self.tags.view_bindings;
        let mut i: usize = 0;
        while i < vb.len()
            invariant
                i <= vb@.len(),
                vb@ == self.tags.view_bindings@,
                forall|j: int| 0 <= j < i ==> (#[trigger] vb@[j]).0.handle != handle,
            decreases vb@.len() - i,
        {
            if vb[i].0.handle == handle {
                assert(self.tags.view_bindings@[i as int].0.handle == handle);
                return Some(vb[i].1);
            }
            i += 1;
        }
        None
    }

    /// The existing elements bound to `tag`, in the order of binding.
    pub fn lookup_element_by_tag(&self, tag: &str) -> (r: Vec<LayoutElemID>)
        requires
            self.tags.wf(),
        ensures
            forall|x: LayoutElemID| #[trigger] r@.contains(x) <==> crate::tag::tagged(self.tags@, tag@).contains(x)
                && (x as int) < self.elements@.len(),
    {
        let all = self.tags.address_element_by_tag(tag);
        let mut r: Vec<LayoutElemID> = Vec::new();
        let mut i: usize = 0;
        while i < all.len()
            invariant
                i <= all@.len(),
                forall|x: LayoutElemID| #[trigger] r@.contains(x) <==> (exists|j: int| 0 <= j < i && all@[j] == x)
                    && (x as int) < self.elements@.len(),
            decreases all@.len() - i,
        {
            let ghost r0 = r@;
            if (all[i] as usize) < self.elements.len() {
                r.push(all[i]);
            }
            assert forall|x: LayoutElemID| #[trigger] r@.contains(x) <==> (exists|j: int| 0 <= j < i + 1 && all@[j] == x)
                && (x as int) < self.elements@.len() by {
                if r@.contains(x) && !r0.contains(x) {
                    assert(all@[i as int] == x);
                }
                if (exists|j: int| 0 <= j < i + 1 && all@[j] == x) && (x as int) < self.elements@.len() {
                    let j = choose|j: int| 0 <= j < i + 1 && all@[j] == x;
                    if j == i {
                        assert(r@[r@.len() - 1] == x);
                    } else {
                        assert(r0.contains(x));
                        let m = choose|m: int| 0 <= m < r0.len() && r0[m] == x;
                        assert(r@[m] == x);
                    }
                }
            }
            i += 1;
        }
        r
    }

    /// How many children of `b` are occupied.
    pub fn count_active_children(&self, b: &crate::element::Bisect) -> (r: u32)
        ensures
            r == (if (b.left as int) < self.elements@.len() && !(self.elements@[b.left as int].profile is Empty) { 1int } else { 0 })
                + (if (b.right as int) < self.elements@.len() && !(self.elements@[b.right as int].profile is Empty) { 1int } else { 0 }),
    {
        let mut n: u32 = 0;
        if (b.left as usize) < self.elements.len() && !self.elements[b.left as usize].profile.is_none() {
            n += 1;
        }
        if (b.right as usize) < self.elements.len() && !self.elements[b.right as usize].profile.is_none() {
            n += 1;
        }
        n
    }
}

/// The elements of which a condition holds, for a tree of `len` elements
/// focused on `focused`.
pub open spec fn holders(c: TagCondition, len: int, focused: LayoutElemID) -> Seq<LayoutElemID> {
    match c {
        TagCondition::IsRoot => if len > 0 { seq![PARENT_ELEMENT] } else { Seq::empty() },
        TagCondition::IsFocused => if (focused as int) < len { seq![focused] } else { Seq::empty() },
    }
}

/// Whether condition `i` is the last one registered for its tag.
pub open spec fn last_for_its_tag(cs: Seq<(String, TagCondition)>, i: int) -> bool {
    forall|m: int| i < m < cs.len() ==> (#[trigger] cs[m]).0@ != cs[i].0@
}

impl LayoutTree {
    fn holders_of(&self, c: TagCondition) -> (r: Vec<LayoutElemID>)
        ensures
            r@ == holders(c, self.elements@.len() as int, self.focused_id),
    {
        let mut r = Vec::new();
        match c {
            TagCondition::IsRoot => if self.elements.len() > 0 { r.push(PARENT_ELEMENT); },
            TagCondition::IsFocused => if (self.focused_id as usize) < self.elements.len() { r.push(self.focused_id); },
        }
        proof {
            assert(r@ =~= holders(c, self.elements@.len() as int, self.focused_id));
        }
        r
    }

    /// Re-evaluates every computed tag: it comes to name exactly the
    /// elements of which its condition holds now.
    pub fn refresh_tag_statuses(&mut self)
        requires
            old(self).tags.wf(),
        ensures
            final(self).tags.wf(),
            forall|i: int| 0 <= i < old(self).tags.tag_conditions@.len() && last_for_its_tag(old(self).tags.tag_conditions@, i)
                ==> #[trigger] tagged(final(self).tags@, old(self).tags.tag_conditions@[i].0@)
                    == holders(old(self).tags.tag_conditions@[i].1, old(self).elements@.len() as int, old(self).focused_id),
            forall|t: Seq<char>| (forall|i: int| 0 <= i < old(self).tags.tag_conditions@.len() ==> (#[trigger] old(self).tags.tag_conditions@[i]).0@ != t)
                ==> #[trigger] tagged(final(self).tags@, t) == tagged(old(self).tags@, t),
            final(self).tags.view_bindings == old(self).tags.view_bindings,
            final(self).tags.tag_conditions == old(self).tags.tag_conditions,
            final(self).elements == old(self).elements,
            final(self).focused_id == old(self).focused_id,
            final(self).outer_geometry == old(self).outer_geometry,
            final(self).transitions == old(self).transitions,
            final(self).easing == old(self).easing,
    {
        let ghost cs = self.tags.tag_conditions@;
        let ghost v0 = self.tags@;
        let n = self.tags.tag_conditions.len();
        let mut i: usize = 0;
        while i < n
            invariant
                n == cs.len(),
                i <= n,
                self.tags.wf(),
                self.tags.tag_conditions == old(self).tags.tag_conditions,
                cs == old(self).tags.tag_conditions@,
                self.tags.view_bindings == old(self).tags.view_bindings,
                self.elements == old(self).elements,
                self.focused_id == old(self).focused_id,
                self.outer_geometry == old(self).outer_geometry,
                self.transitions == old(self).transitions,
                self.easing == old(self).easing,
                forall|j: int| 0 <= j < i && (forall|m: int| j < m < i ==> (#[trigger] cs[m]).0@ != cs[j].0@)
                    ==> #[trigger] tagged(self.tags@, cs[j].0@) == holders(cs[j].1, self.elements@.len() as int, self.focused_id),
                forall|t: Seq<char>| (forall|j: int| 0 <= j < i ==> (#[trigger] cs[j]).0@ != t)
                    ==> #[trigger] tagged(self.tags@, t) == tagged(v0, t),
            decreases n - i,
        {
            let c = self.tags.tag_conditions[i].1;
            let tag = self.tags.tag_conditions[i].0.clone();
            let ids = self.holders_of(c);
            let ghost v1 = self.tags@;
            self.tags.set_binding(&tag, ids);
            assert forall|j: int| 0 <= j < i + 1 && (forall|m: int| j < m < i + 1 ==> (#[trigger] cs[m]).0@ != cs[j].0@)
                implies #[trigger] tagged(self.tags@, cs[j].0@) == holders(cs[j].1, self.elements@.len() as int, self.focused_id) by {
                if j < i {
                    assert(cs[i as int].0@ != cs[j].0@);
                    assert(tagged(self.tags@, cs[j].0@) == tagged(v1, cs[j].0@));
                }
            }
            assert forall|t: Seq<char>| (forall|j: int| 0 <= j < i + 1 ==> (#[trigger] cs[j]).0@ != t)
                implies #[trigger] tagged(self.tags@, t) == tagged(v0, t) by {
                assert(cs[i as int].0@ != t);
                assert(tagged(self.tags@, t) == tagged(v1, t));
            }
            i += 1;
        }
    }

    /// Re-evaluates the computed tags, then arranges the tree.
    pub fn refresh(&mut self)
        requires
            old(self).wf(),
        ensures
            final(self).elements@ == crate::arrangement::arranged(old(self).elements@, old(self).outer_geometry),
            final(self).wf(),
            final(self).tags.view_bindings == old(self).tags.view_bindings,
            final(self).tags.tag_conditions == old(self).tags.tag_conditions,
            forall|i: int| 0 <= i < old(self).tags.tag_conditions@.len() && last_for_its_tag(old(self).tags.tag_conditions@, i)
                ==> #[trigger] tagged(final(self).tags@, old(self).tags.tag_conditions@[i].0@)
                    == holders(old(self).tags.tag_conditions@[i].1, old(self).elements@.len() as int, old(self).focused_id),
            forall|t: Seq<char>| (forall|i: int| 0 <= i < old(self).tags.tag_conditions@.len() ==> (#[trigger] old(self).tags.tag_conditions@[i]).0@ != t)
                ==> #[trigger] tagged(final(self).tags@, t) == tagged(old(self).tags@, t),
            final(self).focused_id == old(self).focused_id,
            final(self).outer_geometry == old(self).outer_geometry,
            final(self).transitions == old(self).transitions,
            final(self).easing == old(self).easing,
    {
        self.refresh_tag_statuses();
        let ghost e0 = self.elements@;
        self.arrange();
        proof {
            crate::arrangement::lemma_arranged_same_shape(e0, self.outer_geometry);
            lemma_same_shape_keeps_wf(e0, self.elements@, self.tags.view_bindings@);
        }
    }
}

/// `e2` differs from `e1` only in the placement, visibility and focus of
/// windows.
pub open spec fn same_shape(e1: Seq<LayoutElement>, e2: Seq<LayoutElement>) -> bool {
    &&& e1.len() == e2.len()
    &&& forall|i: int| 0 <= i < e1.len() ==> {
        &&& (#[trigger] e2[i]).parent_id == e1[i].parent_id
        &&& e2[i].element_id == e1[i].element_id
        &&& match e1[i].profile {
            LayoutElementProfile::Window(w1) => e2[i].profile matches LayoutElementProfile::Window(w2) && w2.view == w1.view,
            _ => e2[i].profile == e1[i].profile,
        }
    }
}

/// Moving, showing or focusing windows keeps the tree well formed.
pub proof fn lemma_same_shape_keeps_wf(e1: Seq<LayoutElement>, e2: Seq<LayoutElement>, vb: Seq<(ViewRef, LayoutElemID)>)
    requires
        structure_ok(e1),
        views_synced(e1, vb),
        same_shape(e1, e2),
    ensures
        structure_ok(e2),
        views_synced(e2, vb),
{
    reveal(structure_ok);
    assert forall|i: int| 0 <= i < e1.len() implies children_of(#[trigger] e2[i].profile) == children_of(e1[i].profile) by {
        if e1[i].profile is Window {
            assert(children_of(e2[i].profile) =~= children_of(e1[i].profile));
        }
    }
    assert forall|i: int| 0 <= i < e2.len() implies (#[trigger] e2[i]).element_id == i by {
        assert(e1[i].element_id == i);
    }
    assert forall|i: int| 0 < i < e2.len() && (#[trigger] e2[i]).parent_id is Some implies {
        let p = e2[i].parent_id->0 as int;
        &&& p < i
        &&& children_of(e2[p].profile).contains(i as LayoutElemID)
    } by {
        assert(e1[i].parent_id == e2[i].parent_id);
        let p = e1[i].parent_id->0 as int;
        assert(children_of(e2[p].profile) == children_of(e1[p].profile));
    }
    assert forall|p: int, k: int| 0 <= p < e2.len() && 0 <= k < children_of(e2[p].profile).len() implies {
        let c = (#[trigger] children_of(e2[p].profile)[k]) as int;
        &&& p < c < e2.len()
        &&& e2[c].parent_id == Some(p as LayoutElemID)
    } by {
        assert(children_of(e2[p].profile) == children_of(e1[p].profile));
        let c = children_of(e1[p].profile)[k] as int;
        assert(e2[c].parent_id == e1[c].parent_id);
    }
    assert forall|p: int| 0 <= p < e2.len() implies match (#[trigger] e2[p]).profile {
        LayoutElementProfile::Bisect(b) => b.left != b.right && b.ratio <= crate::element::FIXED_ONE,
        LayoutElementProfile::Grid(g) => g.well_formed() && g.cells@.no_duplicates() && g.cells@.len() <= MAX_ELEMENTS,
        _ => true,
    } by {
        assert(e1[p].profile is Window || e2[p].profile == e1[p].profile);
    }
    assert forall|i: int| 0 < i < e2.len() && (#[trigger] e2[i]).parent_id is None implies e2[i].profile is Empty by {
        assert(e1[i].parent_id is None);
    }
    assert forall|j: int| 0 <= j < vb.len() implies ({
        let (v, id) = #[trigger] vb[j];
        &&& (id as int) < e2.len()
        &&& e2[id as int].profile matches LayoutElementProfile::Window(w) && w.view == Some(v)
    }) by {
        let id = vb[j].1 as int;
        assert(e1[id].profile is Window);
    }
    assert forall|i: int| 0 <= i < e2.len() implies match (#[trigger] e2[i]).profile {
        LayoutElementProfile::Window(w) => w.view matches Some(v) ==> vb.contains((v, i as LayoutElemID)),
        _ => true,
    } by {
        assert(e1[i].profile is Window || e2[i].profile == e1[i].profile);
        if let LayoutElementProfile::Window(w1) = e1[i].profile {
            assert(e2[i].profile is Window);
        }
    }
    assert(ids_are_indices(e2));
    assert(parents_declare(e2));
    assert(children_belong(e2));
    assert(containers_shaped(e2));
    assert(released_are_empty(e2));
}

} // verus!
