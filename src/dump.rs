//! A textual picture of the tree: one line per element that hangs from the
//! root, indented by depth, with its tags and its properties.

use vstd::prelude::*;
use crate::element::{all_properties, children_of, spec_get_property, spec_property_name, LayoutElement, LayoutElementProfile, LayoutElemID, Property};
use crate::tag::tags_of;
use crate::text::{push_decimal, push_signed_decimal, decimal, signed_decimal};
use crate::tree::LayoutTree;

verus! {

/// Whether element `i` hangs from the root, and how deep.
pub open spec fn depth_of(e: Seq<LayoutElement>, i: int) -> Option<nat>
    decreases i,
{
    if i == 0 && e.len() > 0 {
        Some(0)
    } else if 0 < i < e.len() {
        match e[i].parent_id {
            Some(p) => if (p as int) < i && children_of(e[p as int].profile).contains(i as LayoutElemID) {
                match depth_of(e, p as int) {
                    Some(d) => Some(d + 1),
                    None => None,
                }
            } else {
                None
            },
            None => None,
        }
    } else {
        None
    }
}

/// Four spaces for each level.
pub open spec fn indent(d: nat) -> Seq<char>
    decreases d,
{
    if d == 0 { Seq::empty() } else { indent((d - 1) as nat) + seq![' ', ' ', ' ', ' '] }
}

pub open spec fn kind_label(p: LayoutElementProfile) -> Seq<char> {
    match p {
        LayoutElementProfile::Bisect(_) => "Bisect"@,
        LayoutElementProfile::Grid(_) => "Grid"@,
        LayoutElementProfile::Padding(_) => "Padding"@,
        LayoutElementProfile::Window(_) => "Window"@,
        LayoutElementProfile::Empty => "Unoccupied"@,
    }
}

/// Each tag after an at sign, followed by a space.
pub open spec fn tags_text(ts: Seq<Seq<char>>) -> Seq<char>
    decreases ts.len(),
{
    if ts.len() == 0 { Seq::empty() } else { tags_text(ts.drop_last()) + seq!['@'] + ts.last() + seq![' '] }
}

/// Each property that the profile exposes, after a tilde, with its value.
pub open spec fn props_text(p: LayoutElementProfile, props: Seq<Property>) -> Seq<char>
    decreases props.len(),
{
    if props.len() == 0 {
        Seq::empty()
    } else {
        props_text(p, props.drop_last()) + match spec_get_property(p, props.last()) {
            Some(v) => seq!['~'] + spec_property_name(props.last())@ + seq!['='] + signed_decimal(v) + seq![' '],
            None => Seq::empty(),
        }
    }
}

/// The line of element `i` at depth `d`.
pub open spec fn element_line(e: Seq<LayoutElement>, tags: Seq<(Seq<char>, Seq<LayoutElemID>)>, i: int, d: nat) -> Seq<char> {
    indent(d) + "├──["@ + decimal(i as nat) + "] "@ + kind_label(e[i].profile) + ": "@
        + tags_text(tags_of(tags, i as LayoutElemID)) + props_text(e[i].profile, all_properties()) + seq!['\n']
}

/// The lines of the first `n` elements that hang from the root.
pub open spec fn tree_lines(e: Seq<LayoutElement>, tags: Seq<(Seq<char>, Seq<LayoutElemID>)>, n: int) -> Seq<char>
    decreases n,
{
    if n <= 0 {
        Seq::empty()
    } else {
        tree_lines(e, tags, n - 1) + match depth_of(e, n - 1) {
            Some(d) => element_line(e, tags, n - 1, d),
            None => Seq::empty(),
        }
    }
}

fn push_kind(s: &mut String, p: &LayoutElementProfile)
    ensures
        final(s)@ == old(s)@ + kind_label(*p),
{
    match p {
        LayoutElementProfile::Bisect(_) => s.append("Bisect"),
        LayoutElementProfile::Grid(_) => s.append("Grid"),
        LayoutElementProfile::Padding(_) => s.append("Padding"),
        LayoutElementProfile::Window(_) => s.append("Window"),
        LayoutElementProfile::Empty => s.append("Unoccupied"),
    }
}

fn push_props(s: &mut String, p: &LayoutElementProfile)
    ensures
        final(s)@ == old(s)@ + props_text(*p, all_properties()),
{
    let props = Property::all();
    let ghost s0 = s@;
    let mut k: usize = 0;
    while k < props.len()
        invariant
            props@ == all_properties(),
            k <= props@.len(),
            s@ == s0 + props_text(*p, props@.take(k as int)),
        decreases props@.len() - k,
    {
        assert(props@.take(k + 1).drop_last() =~= props@.take(k as int));
        if let Some(v) = p.get_property(props[k]) {
            proof { reveal_strlit("~"); reveal_strlit("="); reveal_strlit(" "); }
            s.append("~");
            s.append(props[k].name());
            s.append("=");
            push_signed_decimal(s, v);
            s.append(" ");
        }
        k += 1;
        assert(s@ =~= s0 + props_text(*p, props@.take(k as int)));
    }
    assert(props@.take(k as int) =~= all_properties());
}

fn push_tags(s: &mut String, tags: &Vec<String>)
    ensures
        final(s)@ == old(s)@ + tags_text(tags@.map_values(|t: String| t@)),
{
    let ghost s0 = s@;
    let mut k: usize = 0;
    while k < tags.len()
        invariant
            k <= tags@.len(),
            s@ == s0 + tags_text(tags@.take(k as int).map_values(|t: String| t@)),
        decreases tags@.len() - k,
    {
        assert(tags@.take(k + 1).map_values(|t: String| t@).drop_last() =~= tags@.take(k as int).map_values(|t: String| t@));
        proof { reveal_strlit("@"); reveal_strlit(" "); }
        s.append("@");
        s.append(tags[k].as_str());
        s.append(" ");
        k += 1;
        assert(s@ =~= s0 + tags_text(tags@.take(k as int).map_values(|t: String| t@)));
    }
    assert(tags@.take(k as int) =~= tags@);
}

impl LayoutTree {
    /// The depth of every element below the root; none for one that does
    /// not hang from it.
    fn depths(&self) -> (r: Vec<Option<u64>>)
        ensures
            r@.len() == self.elements@.len(),
            forall|i: int| 0 <= i < r@.len() ==> match #[trigger] r@[i] {
                Some(d) => depth_of(self.elements@, i) == Some(d as nat),
                None => depth_of(self.elements@, i) is None,
            },
    {
        let e = &self.elements;
        let mut r: Vec<Option<u64>> = Vec::new();
        let mut i: usize = 0;
        while i < e.len()
            invariant
                e == &self.elements,
                i <= e@.len(),
                r@.len() == i,
                forall|j: int| 0 <= j < i ==> match #[trigger] r@[j] {
                    Some(d) => depth_of(e@, j) == Some(d as nat) && d < j + 1,
                    None => depth_of(e@, j) is None,
                },
            decreases e@.len() - i,
        {
            let d = if i == 0 {
                Some(0u64)
            } else {
                match e[i].parent_id {
                    Some(p) => {
                        if (p as usize) < i && crate::element::contains_id_in_profile(&e[p as usize].profile, i as LayoutElemID) {
                            match r[p as usize] {
                                Some(dp) => Some(dp + 1),
                                None => None,
                            }
                        } else {
                            None
                        }
                    },
                    None => None,
                }
            };
            r.push(d);
            i += 1;
        }
        r
    }

    /// One line per element that hangs from the root, in the order of the
    /// identifiers: indented by depth, with its identifier, its kind, its
    /// tags and its properties.
    pub fn tree_text(&self) -> (r: String)
        requires
            self.elements@.len() <= crate::tree::MAX_ELEMENTS,
        ensures
            r@ == tree_lines(self.elements@, self.tags@, self.elements@.len() as int),
    {
        let depths = self.depths();
        let mut s = String::new();
        let mut i: usize = 0;
        while i < self.elements.len()
            invariant
                i <= self.elements@.len() <= crate::tree::MAX_ELEMENTS,
                depths@.len() == self.elements@.len(),
                forall|j: int| 0 <= j < depths@.len() ==> match #[trigger] depths@[j] {
                    Some(d) => depth_of(self.elements@, j) == Some(d as nat),
                    None => depth_of(self.elements@, j) is None,
                },
                s@ == tree_lines(self.elements@, self.tags@, i as int),
            decreases self.elements@.len() - i,
        {
            let ghost before = s@;
            if let Some(d) = depths[i] {
                proof { reveal_strlit("├──["); reveal_strlit("] "); reveal_strlit(": "); reveal_strlit("\n"); reveal_strlit("    "); }
                let ghost s0 = s@;
                let mut k: u64 = 0;
                while k < d
                    invariant
                        k <= d,
                        s@ == s0 + indent(k as nat),
                    decreases d - k,
                {
                    proof { reveal_strlit("    "); }
                    s.append("    ");
                    k += 1;
                    assert(s@ =~= s0 + indent(k as nat));
                }
                s.append("├──[");
                push_decimal(&mut s, i as u64);
                s.append("] ");
                push_kind(&mut s, &self.elements[i].profile);
                s.append(": ");
                let tags = self.tags.address_tags_by_element(i as LayoutElemID);
                push_tags(&mut s, &tags);
                push_props(&mut s, &self.elements[i].profile);
                s.append("\n");
                assert(s@ =~= before + element_line(self.elements@, self.tags@, i as int, d as nat));
            }
            i += 1;
        }
        s
    }
}

} // verus!
