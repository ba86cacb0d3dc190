//! Inspector panel logic: dispatch on the current inspection target, and the
//! generic, type-erased property edits it performs on live objects.

use vstd::prelude::*;
use crate::selection::{InspectorSelection, SelectedEntities};

verus! {

/// What the inspector renders this frame, decided from the inspection target
/// and the current object selection.
#[derive(Debug, Clone, PartialEq, Eq)]
pub enum InspectorView {
    /// Exactly one object selected: a full recursive editor for that object,
    /// whose per-field edits apply to it alone.
    SingleObject(u64),
    /// Zero or several objects: only structurally shared properties, and any
    /// edit applies to every listed object at once.  With an empty list the
    /// panel stays an empty placeholder.
    SharedComponents(Vec<u64>),
    /// The registered resource with this type id and short name.
    Resource(u64, Vec<u8>),
    /// One asset instance: type id, short name, instance id.
    Asset(u64, Vec<u8>, u64),
}

/// What the inspector must show for a given target and object selection:
/// per-field editing of a single object exactly when one object is selected,
/// the shared-components view for every other selection size, and the bound
/// resource or asset otherwise.
pub open spec fn inspector_view_ok(
    selection: InspectorSelection,
    objects: Seq<u64>,
    r: InspectorView,
) -> bool {
    &&& selection is Entities && objects.len() == 1 ==> r == InspectorView::SingleObject(
        objects[0],
    )
    &&& selection is Entities && objects.len() != 1 ==> (r
        matches InspectorView::SharedComponents(v) && v@ =~= objects)
    &&& (selection matches InspectorSelection::Resource(t, n) ==> (r
        matches InspectorView::Resource(rt, rn) && rt == t && rn@ =~= n@))
    &&& (selection matches InspectorSelection::Asset(t, n, h) ==> (r
        matches InspectorView::Asset(rt, rn, rh) && rt == t && rn@ =~= n@ && rh == h))
}

/// Decide what the inspector shows.  Per-field editing of a single object is
/// allowed exactly when one object is selected; every other selection size
/// falls into the shared-components view.
pub fn inspector_view(selection: &InspectorSelection, selected: &SelectedEntities) -> (r:
    InspectorView)
    ensures
        inspector_view_ok(*selection, selected@, r),
{
    match selection {
        InspectorSelection::Entities => {
            if selected.len() == 1 {
                InspectorView::SingleObject(selected.get(0))
            } else {
                let mut objects: Vec<u64> = Vec::new();
                let mut i: usize = 0;
                while i < selected.len()
                    invariant
                        0 <= i <= selected@.len(),
                        objects@ =~= selected@.subrange(0, i as int),
                    decreases selected@.len() - i,
                {
                    objects.push(selected.get(i));
                    i = i + 1;
                }
                proof {
                    assert(selected@.subrange(0, selected@.len() as int) =~= selected@);
                }
                InspectorView::SharedComponents(objects)
            }
        },
        InspectorSelection::Resource(type_id, name) => {
            InspectorView::Resource(*type_id, name.clone())
        },
        InspectorSelection::Asset(type_id, name, instance) => {
            InspectorView::Asset(*type_id, name.clone(), *instance)
        },
    }
}

/// One type-erased property value held by a live object: the owning object's
/// handle, the property's registered type id, and the erased value.
#[derive(Debug, Clone, Copy, PartialEq, Eq, Structural)]
pub struct Property {
    pub object: u64,
    pub type_id: u64,
    pub value: u64,
}

/// What the erased accessor answers for one (object, type id) pair: the most
/// recently written value, if any.
pub open spec fn store_lookup(s: Seq<Property>, object: u64, type_id: u64) -> Option<u64>
    decreases s.len(),
{
    if s.len() == 0 {
        None
    } else if s.last().object == object && s.last().type_id == type_id {
        Some(s.last().value)
    } else {
        store_lookup(s.drop_last(), object, type_id)
    }
}

/// The editor's model of the erased get/set capability over the live object
/// graph: a write log where the latest write to a (object, type id) pair
/// wins.
pub struct PropertyStore {
    entries: Vec<Property>,
}

impl PropertyStore {
    /// The value this object currently holds for this type id, if any.
    pub closed spec fn value_of(self, object: u64, type_id: u64) -> Option<u64> {
        store_lookup(self.entries@, object, type_id)
    }

    pub fn new() -> (r: PropertyStore)
        ensures
            forall|o: u64, t: u64| #[trigger] r.value_of(o, t) is None,
    {
        PropertyStore { entries: Vec::new() }
    }

    /// The erased get: the value this object holds for this type id, if any.
    pub fn get(&self, object: u64, type_id: u64) -> (r: Option<u64>)
        ensures
            r == self.value_of(object, type_id),
    {
        let mut i: usize = self.entries.len();
        proof {
            assert(self.entries@.subrange(0, self.entries@.len() as int) =~= self.entries@);
        }
        while i > 0
            invariant
                0 <= i <= self.entries@.len(),
                store_lookup(self.entries@.subrange(0, i as int), object, type_id)
                    == self.value_of(object, type_id),
            decreases i,
        {
            let e = self.entries[i - 1];
            proof {
                let pre = self.entries@.subrange(0, i as int);
                assert(pre.last() == self.entries@[i - 1]);
                assert(pre.drop_last() =~= self.entries@.subrange(0, i - 1));
            }
            if e.object == object && e.type_id == type_id {
                return Some(e.value);
            }
            i = i - 1;
        }
        proof {
            assert(self.entries@.subrange(0, 0) =~= Seq::<Property>::empty());
        }
        None
    }

    /// The erased set: write the value this object holds for this type id;
    /// every other pair keeps its value.
    pub fn set(&mut self, object: u64, type_id: u64, value: u64)
        ensures
            final(self).value_of(object, type_id) == Some(value),
            forall|o: u64, t: u64|
                !(o == object && t == type_id) ==> #[trigger] final(self).value_of(o, t)
                    == old(self).value_of(o, t),
    {
        self.entries.push(Property { object, type_id, value });
        proof {
            assert(self.entries@.drop_last() =~= old(self).entries@);
        }
    }
}

/// A simulated edit from the shared-components view: write the new value for
/// the edited property onto every listed object at once.  Objects outside the
/// list, and other properties, keep every value they had.
pub fn apply_shared_edit(store: &mut PropertyStore, targets: &Vec<u64>, type_id: u64, value: u64)
    ensures
        forall|i: int|
            0 <= i < targets@.len() ==> #[trigger] final(store).value_of(targets@[i], type_id)
                == Some(value),
        forall|o: u64, t: u64|
            !targets@.contains(o) || t != type_id ==> #[trigger] final(store).value_of(o, t)
                == old(store).value_of(o, t),
{
    let mut i: usize = 0;
    while i < targets.len()
        invariant
            0 <= i <= targets@.len(),
            forall|j: int|
                0 <= j < i ==> #[trigger] store.value_of(targets@[j], type_id) == Some(value),
            forall|o: u64, t: u64|
                !targets@.contains(o) || t != type_id ==> #[trigger] store.value_of(o, t)
                    == old(store).value_of(o, t),
        decreases targets@.len() - i,
    {
        store.set(targets[i], type_id, value);
        i = i + 1;
    }
}

} // verus!
