//! Tags: string labels bound to elements of the layout, and the bindings
//! between external windows and the elements that show them.

use vstd::prelude::*;
use vstd::relations::injective_on;
use vstd::set_lib::{lemma_int_range, lemma_len_subset, lemma_map_size, set_int_range};
use crate::element::{contains_id, LayoutElemID, ViewPID, ViewRef};
use crate::text::{decimal, lemma_decimal_injective, push_decimal};

verus! {

/// A way of naming one or more elements.
#[derive(Clone, Debug)]
pub enum ElementReference {
    ElementID(LayoutElemID),
    ViewPID(ViewPID),
    Tag(String),
}

/// A tag and the elements bound to it, in the order of binding.
#[derive(Debug)]
pub struct TagBinding {
    pub tag: String,
    pub elements: Vec<LayoutElemID>,
}

/// A predicate over an element and the state of the layout that decides
/// whether a computed tag holds the element.
#[derive(Clone, Copy, Debug, PartialEq, Eq, Structural)]
pub enum TagCondition {
    /// Holds of the root element.
    IsRoot,
    /// Holds of the focused element.
    IsFocused,
}

/// The tags of a layout, and its bindings of external windows.
#[derive(Debug)]
pub struct TagRegister {
    pub bindings: Vec<TagBinding>,
    pub view_bindings: Vec<(ViewRef, LayoutElemID)>,
    pub tag_conditions: Vec<(String, TagCondition)>,
}

pub open spec fn binding_view(b: TagBinding) -> (Seq<char>, Seq<LayoutElemID>) {
    (b.tag@, b.elements@)
}

impl View for TagRegister {
    type V = Seq<(Seq<char>, Seq<LayoutElemID>)>;

    open spec fn view(&self) -> Seq<(Seq<char>, Seq<LayoutElemID>)> {
        self.bindings@.map_values(|b: TagBinding| binding_view(b))
    }
}

/// `t`, an underscore, and the decimal text of `k`.
pub open spec fn suffixed(t: Seq<char>, k: nat) -> Seq<char> {
    t + seq!['_'] + decimal(k)
}

/// Whether a tag is among the keys of the bindings.
pub open spec fn has_tag(v: Seq<(Seq<char>, Seq<LayoutElemID>)>, t: Seq<char>) -> bool {
    exists|i: int| 0 <= i < v.len() && (#[trigger] v[i]).0 == t
}

/// The elements bound to a tag; none where the tag is unknown.
pub open spec fn tagged(v: Seq<(Seq<char>, Seq<LayoutElemID>)>, t: Seq<char>) -> Seq<LayoutElemID> {
    if has_tag(v, t) {
        v[choose|i: int| 0 <= i < v.len() && (#[trigger] v[i]).0 == t].1
    } else {
        Seq::empty()
    }
}

/// Whether no two bindings share a tag.
pub open spec fn keys_unique(v: Seq<(Seq<char>, Seq<LayoutElemID>)>) -> bool {
    forall|i: int, j: int| 0 <= i < v.len() && 0 <= j < v.len() && i != j ==> (#[trigger] v[i]).0 != (#[trigger] v[j]).0
}

/// The least `k >= 2` for which `t` suffixed with `k` is no tag yet.
pub open spec fn first_free_suffix(v: Seq<(Seq<char>, Seq<LayoutElemID>)>, t: Seq<char>) -> nat {
    choose|k: nat| k >= 2 && !has_tag(v, suffixed(t, k)) && forall|j: nat| 2 <= j < k ==> has_tag(v, #[trigger] suffixed(t, j))
}

/// The name under which a new binding of `t` is stored: `t` itself where it
/// is free, else `t_2`, `t_3`, ..., the first that is free.
pub open spec fn free_name(v: Seq<(Seq<char>, Seq<LayoutElemID>)>, t: Seq<char>) -> Seq<char> {
    if !has_tag(v, t) {
        t
    } else {
        suffixed(t, first_free_suffix(v, t))
    }
}

/// The tags whose bindings hold `id`, in the order of the bindings.
pub open spec fn tags_of(v: Seq<(Seq<char>, Seq<LayoutElemID>)>, id: LayoutElemID) -> Seq<Seq<char>>
    decreases v.len(),
{
    if v.len() == 0 {
        Seq::empty()
    } else {
        let p = tags_of(v.drop_last(), id);
        if v.last().1.contains(id) {
            p.push(v.last().0)
        } else {
            p
        }
    }
}

/// `s` without the occurrences of `id`.
pub open spec fn without(s: Seq<LayoutElemID>, id: LayoutElemID) -> Seq<LayoutElemID>
    decreases s.len(),
{
    if s.len() == 0 {
        s
    } else {
        let p = without(s.drop_last(), id);
        if s.last() == id {
            p
        } else {
            p.push(s.last())
        }
    }
}

/// `e` with `a` and `b` exchanged.
pub open spec fn swapped(e: LayoutElemID, a: LayoutElemID, b: LayoutElemID) -> LayoutElemID {
    if e == a {
        b
    } else if e == b {
        a
    } else {
        e
    }
}

/// The element bound to the first window of process `pid`.
pub open spec fn first_with_pid(vb: Seq<(ViewRef, LayoutElemID)>, pid: ViewPID) -> Option<LayoutElemID>
    decreases vb.len(),
{
    if vb.len() == 0 {
        None
    } else if vb[0].0.pid == pid {
        Some(vb[0].1)
    } else {
        first_with_pid(vb.subrange(1, vb.len() as int), pid)
    }
}

/// The elements that a reference names.
pub open spec fn resolved(reg: TagRegister, r: ElementReference) -> Seq<LayoutElemID> {
    match r {
        ElementReference::ElementID(id) => seq![id],
        ElementReference::ViewPID(pid) => match first_with_pid(reg.view_bindings@, pid) {
            Some(id) => seq![id],
            None => Seq::empty(),
        },
        ElementReference::Tag(t) => tagged(reg@, t@),
    }
}

proof fn lemma_suffixed_injective(t: Seq<char>, a: nat, b: nat)
    requires
        suffixed(t, a) == suffixed(t, b),
    ensures
        a == b,
{
    let n = t.len() + 1int;
    assert(suffixed(t, a).subrange(n, suffixed(t, a).len() as int) =~= decimal(a));
    assert(suffixed(t, b).subrange(n, suffixed(t, b).len() as int) =~= decimal(b));
    lemma_decimal_injective(a, b);
}

/// Where the suffixes `2 .. c` of `t` are all tags, there are at least
/// `c - 2` bindings.
proof fn lemma_suffixes_bounded(v: Seq<(Seq<char>, Seq<LayoutElemID>)>, t: Seq<char>, c: nat)
    requires
        c >= 2,
        forall|k: nat| 2 <= k < c ==> has_tag(v, #[trigger] suffixed(t, k)),
    ensures
        c - 2 <= v.len(),
{
    let keys = v.map_values(|p: (Seq<char>, Seq<LayoutElemID>)| p.0);
    let x = set_int_range(2, c as int);
    lemma_int_range(2, c as int);
    let f = |k: int| suffixed(t, k as nat);
    let y = x.map(f);
    assert(injective_on(f, x)) by {
        assert forall|a: int, b: int| x.contains(a) && x.contains(b) && #[trigger] f(a) == #[trigger] f(b) implies a == b by {
            lemma_suffixed_injective(t, a as nat, b as nat);
        }
    }
    lemma_map_size(x, y, f);
    assert(y.subset_of(keys.to_set())) by {
        assert forall|s: Seq<char>| y.contains(s) implies keys.to_set().contains(s) by {
            let k = choose|k: int| x.contains(k) && f(k) == s;
            assert(has_tag(v, suffixed(t, k as nat)));
            let i = choose|i: int| 0 <= i < v.len() && (#[trigger] v[i]).0 == s;
            assert(keys[i] == s);
        }
    }
    keys.lemma_cardinality_of_set();
    lemma_len_subset(y, keys.to_set());
}

proof fn lemma_tagged_view_at(v: Seq<(Seq<char>, Seq<LayoutElemID>)>, i: int)
    requires
        keys_unique(v),
        0 <= i < v.len(),
    ensures
        has_tag(v, v[i].0),
        tagged(v, v[i].0) == v[i].1,
{
    assert(has_tag(v, v[i].0));
}

/// Where `w` differs from `v` only in bindings of tag `t`, every other tag
/// names the same elements in both.
proof fn lemma_other_tags_kept(v: Seq<(Seq<char>, Seq<LayoutElemID>)>, w: Seq<(Seq<char>, Seq<LayoutElemID>)>, t: Seq<char>, t2: Seq<char>)
    requires
        keys_unique(v),
        keys_unique(w),
        t2 != t,
        v.len() <= w.len(),
        forall|j: int| 0 <= j < v.len() && v[j].0 != t ==> w[j] == v[j],
        forall|j: int| 0 <= j < w.len() && w[j].0 != t ==> j < v.len() && w[j] == v[j],
    ensures
        tagged(w, t2) == tagged(v, t2),
{
    if has_tag(v, t2) {
        let j = choose|j: int| 0 <= j < v.len() && (#[trigger] v[j]).0 == t2;
        lemma_tagged_view_at(v, j);
        lemma_tagged_view_at(w, j);
    } else if has_tag(w, t2) {
        let j = choose|j: int| 0 <= j < w.len() && (#[trigger] w[j]).0 == t2;
        assert(v[j].0 == t2);
    }
}

/// Tagging two elements with one free tag binds the first under the tag
/// and the second under the tag suffixed with `_2`, each alone.
pub proof fn lemma_tag_disambiguation(v0: Seq<(Seq<char>, Seq<LayoutElemID>)>, t: Seq<char>, a: LayoutElemID, b: LayoutElemID)
    requires
        keys_unique(v0),
        !has_tag(v0, t),
        !has_tag(v0, suffixed(t, 2)),
    ensures
        ({
            let v1 = v0.push((free_name(v0, t), seq![a]));
            let v2 = v1.push((free_name(v1, t), seq![b]));
            &&& free_name(v1, t) == suffixed(t, 2)
            &&& tagged(v2, t) == seq![a]
            &&& tagged(v2, suffixed(t, 2)) == seq![b]
        }),
{
    let v1 = v0.push((t, seq![a]));
    assert(free_name(v0, t) == t);
    assert(suffixed(t, 2).len() > t.len());
    assert(has_tag(v1, t)) by { assert(v1[v0.len() as int].0 == t); }
    assert(!has_tag(v1, suffixed(t, 2))) by {
        if has_tag(v1, suffixed(t, 2)) {
            let i = choose|i: int| 0 <= i < v1.len() && (#[trigger] v1[i]).0 == suffixed(t, 2);
            if i < v0.len() {
                assert(v0[i].0 == suffixed(t, 2));
            }
        }
    }
    let k = first_free_suffix(v1, t);
    assert(2nat >= 2 && !has_tag(v1, suffixed(t, 2nat)) && forall|j: nat| 2 <= j < 2nat ==> has_tag(v1, #[trigger] suffixed(t, j)));
    if k > 2 {
        assert(has_tag(v1, suffixed(t, 2nat)));
    }
    assert(k == 2);
    let v2 = v1.push((suffixed(t, 2), seq![b]));
    assert(keys_unique(v2)) by {
        assert forall|i: int, j: int| 0 <= i < v2.len() && 0 <= j < v2.len() && i != j implies (#[trigger] v2[i]).0 != (#[trigger] v2[j]).0 by {
            if i < v0.len() && j < v0.len() {
                assert(v0[i] == v2[i] && v0[j] == v2[j]);
            } else if i < v0.len() {
                assert(v0[i] == v2[i]);
            } else if j < v0.len() {
                assert(v0[j] == v2[j]);
            }
        }
    }
    lemma_tagged_view_at(v2, v0.len() as int);
    lemma_tagged_view_at(v2, v0.len() + 1int);
}

impl TagRegister {
    pub open spec fn wf(&self) -> bool {
        keys_unique(self@)
    }

    pub fn init() -> (r: TagRegister)
        ensures
            r@ == Seq::<(Seq<char>, Seq<LayoutElemID>)>::empty(),
            r.view_bindings@.len() == 0,
            r.tag_conditions@.len() == 0,
            r.wf(),
    {
        let r = TagRegister { bindings: Vec::new(), view_bindings: Vec::new(), tag_conditions: Vec::new() };
        assert(r@ =~= Seq::<(Seq<char>, Seq<LayoutElemID>)>::empty());
        r
    }

    fn find_tag(&self, t: &String) -> (r: Option<usize>)
        ensures
            r matches Some(i) ==> i < self@.len() && self@[i as int].0 == t@,
            r is None ==> !has_tag(self@, t@),
    {
        let mut i: usize = 0;
        while i < self.bindings.len()
            invariant
                i <= self.bindings@.len(),
                forall|j: int| 0 <= j < i ==> self@[j].0 != t@,
            decreases self.bindings@.len() - i,
        {
            if self.bindings[i].tag.eq(t) {
                return Some(i);
            }
            i += 1;
        }
        None
    }

    proof fn lemma_tagged_at(&self, i: int)
        requires
            self.wf(),
            0 <= i < self@.len(),
        ensures
            has_tag(self@, self@[i].0),
            tagged(self@, self@[i].0) == self@[i].1,
    {
        assert(has_tag(self@, self@[i].0));
    }

    /// The elements bound to `tag`, in the order of binding.
    pub fn address_element_by_tag(&self, tag: &str) -> (r: Vec<LayoutElemID>)
        requires
            self.wf(),
        ensures
            r@ == tagged(self@, tag@),
    {
        let t = tag.to_owned();
        match self.find_tag(&t) {
            Some(i) => {
                proof { self.lemma_tagged_at(i as int); }
                self.bindings[i].elements.clone()
            },
            None => Vec::new(),
        }
    }

    /// The element that shows the first window bound of process `pid`,
    /// where one does.
    pub fn element_of_pid(&self, pid: ViewPID) -> (r: Option<LayoutElemID>)
        ensures
            r == first_with_pid(self.view_bindings@, pid),
    {
        let ghost vb = self.view_bindings@;
        let mut i: usize = 0;
        assert(vb.subrange(0, vb.len() as int) =~= vb);
        while i < self.view_bindings.len()
            invariant
                vb == self.view_bindings@,
                i <= vb.len(),
                first_with_pid(vb, pid) == first_with_pid(vb.subrange(i as int, vb.len() as int), pid),
            decreases vb.len() - i,
        {
            assert(vb.subrange(i as int, vb.len() as int).subrange(1, vb.len() - i) =~= vb.subrange(i + 1, vb.len() as int));
            if self.view_bindings[i].0.pid == pid {
                return Some(self.view_bindings[i].1);
            }
            i += 1;
        }
        None
    }

    /// The elements that a reference names: the element itself for an
    /// identifier, the element showing the window of a process, or the
    /// elements bound to a tag.
    pub fn address_element(&self, reference: &ElementReference) -> (r: Vec<LayoutElemID>)
        requires
            self.wf(),
        ensures
            r@ == resolved(*self, *reference),
    {
        match reference {
            ElementReference::ElementID(id) => {
                let r = vec![*id];
                assert(r@ =~= seq![*id]);
                r
            },
            ElementReference::ViewPID(pid) => {
                let mut r = Vec::new();
                if let Some(id) = self.element_of_pid(*pid) {
                    r.push(id);
                }
                assert(r@ =~= resolved(*self, *reference));
                r
            },
            ElementReference::Tag(t) => self.address_element_by_tag(t.as_str()),
        }
    }

    /// The tags bound to `elem_id`, in the order of the bindings.
    pub fn address_tags_by_element(&self, elem_id: LayoutElemID) -> (r: Vec<String>)
        ensures
            r@.map_values(|s: String| s@) == tags_of(self@, elem_id),
    {
        let mut r: Vec<String> = Vec::new();
        let mut i: usize = 0;
        while i < self.bindings.len()
            invariant
                i <= self.bindings@.len(),
                r@.map_values(|s: String| s@) == tags_of(self@.take(i as int), elem_id),
            decreases self.bindings@.len() - i,
        {
            assert(self@.take(i + 1).drop_last() =~= self@.take(i as int));
            if contains_id(&self.bindings[i].elements, elem_id) {
                r.push(self.bindings[i].tag.clone());
            }
            i += 1;
            assert(r@.map_values(|s: String| s@) =~= tags_of(self@.take(i as int), elem_id));
        }
        assert(self@.take(i as int) =~= self@);
        r
    }

    /// Binds `elem_id` under `tag`; where `tag` is taken, under the first
    /// free name among `tag_2`, `tag_3`, ...
    pub fn tag_element(&mut self, tag: &str, elem_id: LayoutElemID)
        requires
            old(self).wf(),
            old(self)@.len() < u32::MAX,
        ensures
            final(self).wf(),
            final(self)@ == old(self)@.push((free_name(old(self)@, tag@), seq![elem_id])),
            !has_tag(old(self)@, free_name(old(self)@, tag@)),
            final(self).view_bindings == old(self).view_bindings,
            final(self).tag_conditions == old(self).tag_conditions,
    {
        let t = tag.to_owned();
        let name = if self.find_tag(&t).is_none() {
            t
        } else {
            let mut counter: u64 = 2;
            let mut attempt = t.clone();
            attempt.append("_");
            push_decimal(&mut attempt, counter);
            proof { reveal_strlit("_"); }
            assert(attempt@ =~= suffixed(tag@, 2));
            while self.find_tag(&attempt).is_some()
                invariant
                    self.wf(),
                    self@.len() < u32::MAX,
                    t@ == tag@,
                    2 <= counter <= self.bindings@.len() + 2,
                    attempt@ == suffixed(tag@, counter as nat),
                    forall|k: nat| 2 <= k < counter ==> has_tag(self@, #[trigger] suffixed(tag@, k)),
                decreases self.bindings@.len() + 2 - counter,
            {
                proof {
                    lemma_suffixes_bounded(self@, tag@, counter as nat + 1);
                    reveal_strlit("_");
                }
                counter += 1;
                attempt = t.clone();
                attempt.append("_");
                push_decimal(&mut attempt, counter);
                assert(attempt@ =~= suffixed(tag@, counter as nat));
            }
            proof {
                let k = first_free_suffix(self@, tag@);
                assert(counter >= 2 && !has_tag(self@, suffixed(tag@, counter as nat))
                    && forall|j: nat| 2 <= j < counter ==> has_tag(self@, #[trigger] suffixed(tag@, j)));
                if k < counter {
                    assert(has_tag(self@, suffixed(tag@, k)));
                }
                if k > counter {
                    assert(has_tag(self@, suffixed(tag@, counter as nat)));
                }
                assert(k == counter);
            }
            attempt
        };
        let ghost old_view = self@;
        let mut elements = Vec::new();
        elements.push(elem_id);
        self.bindings.push(TagBinding { tag: name, elements });
        assert(self@ =~= old_view.push((free_name(old_view, tag@), seq![elem_id])));
        assert forall|i: int, j: int| 0 <= i < self@.len() && 0 <= j < self@.len() && i != j implies (#[trigger] self@[i]).0 != (#[trigger] self@[j]).0 by {
            if i == old_view.len() as int {
                assert(old_view[j] == self@[j]);
            } else if j == old_view.len() as int {
                assert(old_view[i] == self@[i]);
            }
        }
    }
    /// Registers a computed tag, held by the elements of which `condition`
    /// holds at each refresh.
    pub fn tag_element_on_condition(&mut self, tag: &str, condition: TagCondition)
        ensures
            final(self).bindings == old(self).bindings,
            final(self).view_bindings == old(self).view_bindings,
            final(self).tag_conditions@.len() == old(self).tag_conditions@.len() + 1,
            forall|i: int| 0 <= i < old(self).tag_conditions@.len() ==> final(self).tag_conditions@[i] == old(self).tag_conditions@[i],
            final(self).tag_conditions@.last().0@ == tag@,
            final(self).tag_conditions@.last().1 == condition,
    {
        self.tag_conditions.push((tag.to_owned(), condition));
    }

    /// Removes `elem_id` from every binding.
    pub fn untag_element(&mut self, elem_id: LayoutElemID)
        requires
            old(self).wf(),
        ensures
            final(self).wf(),
            final(self)@ == old(self)@.map_values(|p: (Seq<char>, Seq<LayoutElemID>)| (p.0, without(p.1, elem_id))),
            final(self).view_bindings == old(self).view_bindings,
            final(self).tag_conditions == old(self).tag_conditions,
    {
        let mut out: Vec<TagBinding> = Vec::new();
        let mut i: usize = 0;
        while i < self.bindings.len()
            invariant
                i <= self.bindings@.len(),
                out@.len() == i,
                forall|j: int| 0 <= j < i ==> binding_view(#[trigger] out@[j]) == (self@[j].0, without(self@[j].1, elem_id)),
            decreases self.bindings@.len() - i,
        {
            let b = &self.bindings[i];
            let mut kept: Vec<LayoutElemID> = Vec::new();
            let mut k: usize = 0;
            while k < b.elements.len()
                invariant
                    k <= b.elements@.len(),
                    kept@ == without(b.elements@.take(k as int), elem_id),
                decreases b.elements@.len() - k,
            {
                assert(b.elements@.take(k + 1).drop_last() =~= b.elements@.take(k as int));
                if b.elements[k] != elem_id {
                    kept.push(b.elements[k]);
                }
                k += 1;
            }
            assert(b.elements@.take(k as int) =~= b.elements@);
            out.push(TagBinding { tag: b.tag.clone(), elements: kept });
            i += 1;
        }
        let ghost old_view = self@;
        self.bindings = out;
        assert(self@ =~= old_view.map_values(|p: (Seq<char>, Seq<LayoutElemID>)| (p.0, without(p.1, elem_id))));
        assert forall|a: int, b: int| 0 <= a < self@.len() && 0 <= b < self@.len() && a != b implies (#[trigger] self@[a]).0 != (#[trigger] self@[b]).0 by {
            assert(self@[a].0 == old_view[a].0);
            assert(self@[b].0 == old_view[b].0);
        }
    }

    /// Removes the binding of `tag`, where there is one.
    pub fn remove_tag(&mut self, tag: &str)
        requires
            old(self).wf(),
        ensures
            final(self).wf(),
            !has_tag(old(self)@, tag@) ==> final(self)@ == old(self)@,
            has_tag(old(self)@, tag@) ==> exists|i: int| 0 <= i < old(self)@.len() && (#[trigger] old(self)@[i]).0 == tag@ && final(self)@ == old(self)@.remove(i),
            !has_tag(final(self)@, tag@),
            final(self).view_bindings == old(self).view_bindings,
            final(self).tag_conditions == old(self).tag_conditions,
    {
        let t = tag.to_owned();
        if let Some(i) = self.find_tag(&t) {
            let ghost old_view = self@;
            self.bindings.remove(i);
            assert(self@ =~= old_view.remove(i as int));
            assert(old_view[i as int].0 == tag@);
            assert forall|a: int, b: int| 0 <= a < self@.len() && 0 <= b < self@.len() && a != b implies (#[trigger] self@[a]).0 != (#[trigger] self@[b]).0 by {
                let a0 = if a < i { a } else { a + 1 };
                let b0 = if b < i { b } else { b + 1 };
                assert(self@[a] == old_view[a0]);
                assert(self@[b] == old_view[b0]);
            }
            proof {
                if has_tag(self@, tag@) {
                    let j = choose|j: int| 0 <= j < self@.len() && (#[trigger] self@[j]).0 == tag@;
                    let j0 = if j < i { j } else { j + 1 };
                    assert(self@[j] == old_view[j0]);
                }
            }
        }
    }

    /// Binds `tag` to exactly `elements`, in place of what it held.
    pub fn set_binding(&mut self, tag: &String, elements: Vec<LayoutElemID>)
        requires
            old(self).wf(),
        ensures
            final(self).wf(),
            has_tag(old(self)@, tag@) ==> exists|i: int| 0 <= i < old(self)@.len() && (#[trigger] old(self)@[i]).0 == tag@ && final(self)@ == old(self)@.update(i, (tag@, elements@)),
            !has_tag(old(self)@, tag@) ==> final(self)@ == old(self)@.push((tag@, elements@)),
            tagged(final(self)@, tag@) == elements@,
            forall|t2: Seq<char>| t2 != tag@ ==> #[trigger] tagged(final(self)@, t2) == tagged(old(self)@, t2),
            final(self).view_bindings == old(self).view_bindings,
            final(self).tag_conditions == old(self).tag_conditions,
    {
        let ghost old_view = self@;
        match self.find_tag(tag) {
            Some(i) => {
                self.bindings.set(i, TagBinding { tag: tag.clone(), elements });
                assert(self@ =~= old_view.update(i as int, (tag@, elements@)));
                assert forall|a: int, b: int| 0 <= a < self@.len() && 0 <= b < self@.len() && a != b implies (#[trigger] self@[a]).0 != (#[trigger] self@[b]).0 by {
                    assert(self@[a].0 == old_view[a].0);
                    assert(self@[b].0 == old_view[b].0);
                }
                proof { self.lemma_tagged_at(i as int); }
                assert forall|t2: Seq<char>| t2 != tag@ implies #[trigger] tagged(self@, t2) == tagged(old_view, t2) by {
                    lemma_other_tags_kept(old_view, self@, tag@, t2);
                }
            },
            None => {
                self.bindings.push(TagBinding { tag: tag.clone(), elements });
                assert(self@ =~= old_view.push((tag@, elements@)));
                assert forall|a: int, b: int| 0 <= a < self@.len() && 0 <= b < self@.len() && a != b implies (#[trigger] self@[a]).0 != (#[trigger] self@[b]).0 by {
                    if a == old_view.len() as int {
                        assert(old_view[b] == self@[b]);
                    } else if b == old_view.len() as int {
                        assert(old_view[a] == self@[a]);
                    }
                }
                proof { self.lemma_tagged_at(old_view.len() as int); }
                assert forall|t2: Seq<char>| t2 != tag@ implies #[trigger] tagged(self@, t2) == tagged(old_view, t2) by {
                    lemma_other_tags_kept(old_view, self@, tag@, t2);
                }
            },
        }
    }

    /// Exchanges `elem1_id` and `elem2_id` in every binding, so that tags
    /// follow content that moved from one element to the other.
    pub fn handle_element_swap(&mut self, elem1_id: LayoutElemID, elem2_id: LayoutElemID)
        requires
            old(self).wf(),
        ensures
            final(self).wf(),
            final(self)@ == old(self)@.map_values(|p: (Seq<char>, Seq<LayoutElemID>)| (p.0, p.1.map_values(|e: LayoutElemID| swapped(e, elem1_id, elem2_id)))),
            final(self).view_bindings == old(self).view_bindings,
            final(self).tag_conditions == old(self).tag_conditions,
    {
        let mut out: Vec<TagBinding> = Vec::new();
        let mut i: usize = 0;
        while i < self.bindings.len()
            invariant
                i <= self.bindings@.len(),
                out@.len() == i,
                forall|j: int| 0 <= j < i ==> binding_view(#[trigger] out@[j]) == (self@[j].0, self@[j].1.map_values(|e: LayoutElemID| swapped(e, elem1_id, elem2_id))),
            decreases self.bindings@.len() - i,
        {
            let b = &self.bindings[i];
            let mut moved: Vec<LayoutElemID> = Vec::new();
            let mut k: usize = 0;
            while k < b.elements.len()
                invariant
                    k <= b.elements@.len(),
                    moved@ == b.elements@.take(k as int).map_values(|e: LayoutElemID| swapped(e, elem1_id, elem2_id)),
                decreases b.elements@.len() - k,
            {
                let e = b.elements[k];
                moved.push(if e == elem1_id { elem2_id } else if e == elem2_id { elem1_id } else { e });
                k += 1;
                assert(moved@ =~= b.elements@.take(k as int).map_values(|e: LayoutElemID| swapped(e, elem1_id, elem2_id)));
            }
            assert(b.elements@.take(k as int) =~= b.elements@);
            out.push(TagBinding { tag: b.tag.clone(), elements: moved });
            i += 1;
        }
        let ghost old_view = self@;
        self.bindings = out;
        assert(self@ =~= old_view.map_values(|p: (Seq<char>, Seq<LayoutElemID>)| (p.0, p.1.map_values(|e: LayoutElemID| swapped(e, elem1_id, elem2_id)))));
        assert forall|a: int, b: int| 0 <= a < self@.len() && 0 <= b < self@.len() && a != b implies (#[trigger] self@[a]).0 != (#[trigger] self@[b]).0 by {
            assert(self@[a].0 == old_view[a].0);
            assert(self@[b].0 == old_view[b].0);
        }
    }
}

} // verus!
