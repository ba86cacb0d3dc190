//! Selection state shared by all panels: the ordered set of selected live
//! objects and the exclusive inspection target shown by the inspector.

use vstd::prelude::*;

verus! {

/// What the inspector currently shows: the object selection itself, one
/// registered global resource, or one asset instance.  Exactly one variant is
/// active at a time; switching the target never touches the latent object
/// selection.
#[derive(Debug, Clone, PartialEq, Eq)]
pub enum InspectorSelection {
    /// Inspect the selected live objects.
    Entities,
    /// Inspect the registered resource with this type id and short name.
    Resource(u64, Vec<u8>),
    /// Inspect one instance (by instance id) of the asset type with this
    /// type id and short name.
    Asset(u64, Vec<u8>, u64),
}

/// First-occurrence deduplication: the subsequence keeping the first
/// occurrence of every value, in order.
pub open spec fn dedup_first(s: Seq<u64>) -> Seq<u64>
    decreases s.len(),
{
    if s.len() == 0 {
        s
    } else {
        let d = dedup_first(s.drop_last());
        if d.contains(s.last()) {
            d
        } else {
            d.push(s.last())
        }
    }
}

/// The ordered set of selected live-object handles; click order is kept and
/// no handle appears twice.
pub struct SelectedEntities {
    objects: Vec<u64>,
}

impl View for SelectedEntities {
    type V = Seq<u64>;

    closed spec fn view(&self) -> Seq<u64> {
        self.objects@
    }
}

impl SelectedEntities {
    /// No handle appears twice.
    pub open spec fn wf(&self) -> bool {
        forall|i: int, j: int| 0 <= i < j < self@.len() ==> self@[i] != self@[j]
    }

    /// Start with nothing selected.
    pub fn new() -> (r: SelectedEntities)
        ensures
            r@ =~= Seq::<u64>::empty(),
            r.wf(),
    {
        SelectedEntities { objects: Vec::new() }
    }

    pub fn len(&self) -> (n: usize)
        ensures
            n == self@.len(),
    {
        self.objects.len()
    }

    pub fn get(&self, i: usize) -> (o: u64)
        requires
            i < self@.len(),
        ensures
            o == self@[i as int],
    {
        self.objects[i]
    }

    pub fn contains(&self, o: u64) -> (r: bool)
        ensures
            r == self@.contains(o),
    {
        let mut i: usize = 0;
        while i < self.objects.len()
            invariant
                0 <= i <= self.objects.len(),
                forall|k: int| 0 <= k < i ==> self.objects@[k] != o,
            decreases self.objects.len() - i,
        {
            if self.objects[i] == o {
                return true;
            }
            i = i + 1;
        }
        false
    }

    /// Plain click on a hierarchy node: the selection becomes exactly that
    /// object.
    pub fn select_one(&mut self, o: u64)
        ensures
            final(self)@ =~= seq![o],
            final(self).wf(),
    {
        self.objects = Vec::new();
        self.objects.push(o);
    }

    /// Modifier-click: accumulate the object at the end of the selection in
    /// click order; an already selected object leaves the selection unchanged.
    pub fn add_click(&mut self, o: u64)
        requires
            old(self).wf(),
        ensures
            final(self).wf(),
            old(self)@.contains(o) ==> final(self)@ =~= old(self)@,
            !old(self)@.contains(o) ==> final(self)@ =~= old(self)@.push(o),
    {
        if !self.contains(o) {
            self.objects.push(o);
        }
    }

    /// Replace the whole selection by the given click sequence; repeated
    /// handles keep their first position.  An empty sequence deselects.
    pub fn select(&mut self, objects: &Vec<u64>)
        ensures
            final(self)@ =~= dedup_first(objects@),
            final(self).wf(),
    {
        self.objects = Vec::new();
        let mut i: usize = 0;
        while i < objects.len()
            invariant
                0 <= i <= objects.len(),
                self@ =~= dedup_first(objects@.subrange(0, i as int)),
                self.wf(),
            decreases objects.len() - i,
        {
            let o = objects[i];
            self.add_click(o);
            proof {
                assert(objects@.subrange(0, i + 1).drop_last() =~= objects@.subrange(0, i as int));
                assert(objects@.subrange(0, i + 1).last() == o);
            }
            i = i + 1;
        }
        proof {
            assert(objects@.subrange(0, objects@.len() as int) =~= objects@);
        }
    }
}

} // verus!
