//! Starting and stepping the animations of a layout tree.

use vstd::prelude::*;
use crate::element::{spec_get_property, spec_set_property, LayoutElemID, LayoutElement, Property};
use crate::transition::{step_value, stepped, Easing, Transition};
use crate::tree::LayoutTree;

verus! {

/// `v` held to the range of `i64`.
pub open spec fn clamp_i64(v: int) -> int {
    if v < i64::MIN { i64::MIN as int } else if v > i64::MAX { i64::MAX as int } else { v }
}

/// The transitions of `ts` that animate something other than `property`
/// of `id`, in order.
pub open spec fn others(ts: Seq<Transition>, id: LayoutElemID, property: Property) -> Seq<Transition>
    decreases ts.len(),
{
    if ts.len() == 0 {
        ts
    } else {
        let p = others(ts.drop_last(), id, property);
        if ts.last().element_id == id && ts.last().property == property { p } else { p.push(ts.last()) }
    }
}

/// The elements after each transition of `ts`, in order, writes the value
/// of its step.
pub open spec fn written(e: Seq<LayoutElement>, ts: Seq<Transition>, easing: Easing, delta: u64) -> Seq<LayoutElement>
    decreases ts.len(),
{
    if ts.len() == 0 {
        e
    } else {
        let e1 = written(e, ts.drop_last(), easing, delta);
        let t = ts.last();
        match step_value(t, easing, delta) {
            Some(v) => if (t.element_id as int) < e1.len() {
                e1.update(t.element_id as int, LayoutElement {
                    profile: spec_set_property(e1[t.element_id as int].profile, t.property, v),
                    ..e1[t.element_id as int]
                })
            } else {
                e1
            },
            None => e1,
        }
    }
}

/// The transitions of `ts` after one step, without those that finished.
pub open spec fn still_running(ts: Seq<Transition>, easing: Easing, delta: u64) -> Seq<Transition>
    decreases ts.len(),
{
    if ts.len() == 0 {
        ts
    } else {
        let p = still_running(ts.drop_last(), easing, delta);
        let t = stepped(ts.last(), easing, delta);
        if t.ongoing { p.push(t) } else { p }
    }
}

impl LayoutTree {
    /// Starts `t`, in place of any transition of the same property of the
    /// same element.
    pub fn push_transition(&mut self, t: Transition)
        ensures
            final(self).transitions@ == others(old(self).transitions@, t.element_id, t.property).push(t),
            final(self).elements == old(self).elements,
            final(self).tags == old(self).tags,
            final(self).focused_id == old(self).focused_id,
            final(self).outer_geometry == old(self).outer_geometry,
            final(self).easing == old(self).easing,
    {
        let mut kept: Vec<Transition> = Vec::new();
        let mut i: usize = 0;
        while i < self.transitions.len()
            invariant
                i <= self.transitions@.len(),
                kept@ == others(self.transitions@.take(i as int), t.element_id, t.property),
            decreases self.transitions@.len() - i,
        {
            assert(self.transitions@.take(i + 1).drop_last() =~= self.transitions@.take(i as int));
            let x = self.transitions[i];
            if !(x.element_id == t.element_id && x.property == t.property) {
                kept.push(x);
            }
            i += 1;
        }
        assert(self.transitions@.take(i as int) =~= self.transitions@);
        kept.push(t);
        self.transitions = kept;
    }

    /// Animates `property` of `element_id` toward `new_value` (added to the
    /// current value where `relative_transition`) over `time_frame_ms`,
    /// after `delay_ms`. The current value is read from the element's
    /// profile; where the profile does not expose the property nothing
    /// happens, and a time frame of zero sets the value at once.
    pub fn animate_property_after_delay(
        &mut self,
        element_id: LayoutElemID,
        property: Property,
        new_value: i64,
        relative_transition: bool,
        time_frame_ms: u64,
        delay_ms: u64,
    )
        ensures
            final(self).tags == old(self).tags,
            final(self).focused_id == old(self).focused_id,
            final(self).outer_geometry == old(self).outer_geometry,
            final(self).easing == old(self).easing,
            ({
                let e = old(self).elements@;
                let cur = if (element_id as int) < e.len() {
                    spec_get_property(e[element_id as int].profile, property)
                } else {
                    None
                };
                match cur {
                    None => final(self).elements == old(self).elements && final(self).transitions == old(self).transitions,
                    Some(v) => {
                        let end = if relative_transition { clamp_i64(v + new_value) } else { new_value as int };
                        if time_frame_ms == 0 {
                            &&& final(self).elements@ == e.update(element_id as int, LayoutElement {
                                profile: spec_set_property(e[element_id as int].profile, property, end),
                                ..e[element_id as int]
                            })
                            &&& final(self).transitions == old(self).transitions
                        } else {
                            &&& final(self).elements == old(self).elements
                            &&& final(self).transitions@ == others(old(self).transitions@, element_id, property).push(
                                Transition {
                                    element_id,
                                    property,
                                    start: v as i64,
                                    end: end as i64,
                                    time_frame_ms,
                                    delay_ms,
                                    steps: 0,
                                    ongoing: true,
                                },
                            )
                        }
                    },
                }
            }),
    {
        if element_id as usize >= self.elements.len() {
            return;
        }
        let cur = self.elements[element_id as usize].profile.get_property(property);
        if let Some(v) = cur {
            let sum = v as i128 + new_value as i128;
            let end = if relative_transition {
                if sum < i64::MIN as i128 { i64::MIN } else if sum > i64::MAX as i128 { i64::MAX } else { sum as i64 }
            } else {
                new_value
            };
            if time_frame_ms == 0 {
                self.elements[element_id as usize].profile.set_property(property, end);
            } else {
                self.push_transition(Transition::new(element_id, property, v, end, time_frame_ms, delay_ms));
            }
        }
    }

    /// Animates at once, without delay.
    pub fn animate_property(
        &mut self,
        element_id: LayoutElemID,
        property: Property,
        new_value: i64,
        relative_transition: bool,
        time_frame_ms: u64,
    )
        ensures
            final(self).tags == old(self).tags,
            final(self).focused_id == old(self).focused_id,
            final(self).outer_geometry == old(self).outer_geometry,
            final(self).easing == old(self).easing,
            ({
                let e = old(self).elements@;
                let cur = if (element_id as int) < e.len() {
                    spec_get_property(e[element_id as int].profile, property)
                } else {
                    None
                };
                match cur {
                    None => final(self).elements == old(self).elements && final(self).transitions == old(self).transitions,
                    Some(v) => {
                        let end = if relative_transition { clamp_i64(v + new_value) } else { new_value as int };
                        if time_frame_ms == 0 {
                            &&& final(self).elements@ == e.update(element_id as int, LayoutElement {
                                profile: spec_set_property(e[element_id as int].profile, property, end),
                                ..e[element_id as int]
                            })
                            &&& final(self).transitions == old(self).transitions
                        } else {
                            &&& final(self).elements == old(self).elements
                            &&& final(self).transitions@ == others(old(self).transitions@, element_id, property).push(
                                Transition {
                                    element_id,
                                    property,
                                    start: v as i64,
                                    end: end as i64,
                                    time_frame_ms,
                                    delay_ms: 0,
                                    steps: 0,
                                    ongoing: true,
                                },
                            )
                        }
                    },
                }
            }),
    {
        self.animate_property_after_delay(element_id, property, new_value, relative_transition, time_frame_ms, 0);
    }

    /// Animates from a given value rather than the current one.
    pub fn animate_property_explicitly(
        &mut self,
        element_id: LayoutElemID,
        property: Property,
        prev_value: i64,
        new_value: i64,
        time_frame_ms: u64,
        delay_ms: u64,
    )
        ensures
            final(self).transitions@ == others(old(self).transitions@, element_id, property).push(
                Transition {
                    element_id,
                    property,
                    start: prev_value,
                    end: new_value,
                    time_frame_ms,
                    delay_ms,
                    steps: 0,
                    ongoing: true,
                },
            ),
            final(self).elements == old(self).elements,
            final(self).tags == old(self).tags,
            final(self).focused_id == old(self).focused_id,
            final(self).outer_geometry == old(self).outer_geometry,
            final(self).easing == old(self).easing,
    {
        self.push_transition(Transition::new(element_id, property, prev_value, new_value, time_frame_ms, delay_ms));
    }

    /// Steps every transition by `time_delta_ms`, writes the values they
    /// give, and drops those that finished.
    pub fn step_transitions(&mut self, time_delta_ms: u64)
        ensures
            final(self).elements@ == written(old(self).elements@, old(self).transitions@, old(self).easing, time_delta_ms),
            final(self).transitions@ == still_running(old(self).transitions@, old(self).easing, time_delta_ms),
            final(self).tags == old(self).tags,
            final(self).focused_id == old(self).focused_id,
            final(self).outer_geometry == old(self).outer_geometry,
            final(self).easing == old(self).easing,
    {
        let ghost e0 = self.elements@;
        let ghost ts0 = self.transitions@;
        let mut kept: Vec<Transition> = Vec::new();
        let mut i: usize = 0;
        while i < self.transitions.len()
            invariant
                ts0 == self.transitions@,
                i <= ts0.len(),
                self.elements@ == written(e0, ts0.take(i as int), self.easing, time_delta_ms),
                kept@ == still_running(ts0.take(i as int), self.easing, time_delta_ms),
                self.easing == old(self).easing,
                self.tags == old(self).tags,
                self.focused_id == old(self).focused_id,
                self.outer_geometry == old(self).outer_geometry,
            decreases ts0.len() - i,
        {
            assert(ts0.take(i + 1).drop_last() =~= ts0.take(i as int));
            assert(ts0.take(i + 1).last() == ts0[i as int]);
            let mut t = self.transitions[i];
            let v = t.next(&self.easing, time_delta_ms);
            if let Some(v) = v {
                let id = t.element_id as usize;
                if id < self.elements.len() {
                    self.elements[id].profile.set_property(t.property, v);
                }
            }
            if t.ongoing {
                kept.push(t);
            }
            i += 1;
            assert(self.elements@ =~= written(e0, ts0.take(i as int), self.easing, time_delta_ms));
        }
        assert(ts0.take(i as int) =~= ts0);
        self.transitions = kept;
    }
}

} // verus!
