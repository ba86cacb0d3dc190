//! Core logic of an in-process overlay editor for a live scene graph.
//!
//! The crate models the coordination layer of the editor: the inspection-mode
//! toggle, the selection state shared by all panels, the dock layout tree,
//! the sorted resource/asset listings, the gizmo transform-editing protocol,
//! and the camera-viewport synchronizer.  Everything here is a pure function
//! of plain values; the host engine polls input, draws the panels and owns
//! the live objects, and hands this crate the values it needs each frame.

use vstd::prelude::*;

pub mod input;
pub mod inspector;
pub mod catalog;
pub mod dock;
pub mod gizmo;
pub mod selection;
pub mod viewport;

verus! {

/// Process-wide inspection-mode flag: when the flag is off the whole overlay
/// is hidden and the render camera uses the full window.
pub struct EditorResource(pub bool);

/// Marker for the one camera whose viewport the editor manages.
pub struct MainCamera;

/// Decision taken once at editor start-up: the editor refuses to run unless
/// the host supplies exactly one camera, in which case that camera is tagged
/// as the main camera and inspection mode starts out off.
pub enum SetupOutcome {
    /// Proceed; the single camera becomes the main camera.
    Proceed,
    /// No single camera was found: signal the host to terminate cleanly.
    Abort,
}

impl SetupOutcome {
    pub open spec fn is_proceed(self) -> bool {
        self matches SetupOutcome::Proceed
    }
}

/// Start-up gate: proceed exactly when the host presents a single camera.
pub fn setup(camera_count: usize) -> (r: SetupOutcome)
    ensures
        r.is_proceed() <==> camera_count == 1,
{
    if camera_count == 1 {
        SetupOutcome::Proceed
    } else {
        SetupOutcome::Abort
    }
}


/// One row of the resource panel: a resource-like registration with its
/// highlight flag.
pub struct ResourceRow {
    pub type_id: u64,
    pub short_name: Vec<u8>,
    pub order: usize,
    pub selected: bool,
}

/// The listing data a resource row carries.
pub open spec fn row_as_listed(r: ResourceRow) -> crate::catalog::ListedType {
    crate::catalog::ListedType { type_id: r.type_id, short_name: r.short_name, order: r.order }
}

/// The state of the editor overlay: the dock layout, the viewport panel's
/// rectangle, the selection shared by all panels, and the gizmo mode.
pub struct UiState {
    pub tree: crate::dock::DockTree,
    pub viewport_rect: Option<crate::viewport::UiRect>,
    pub selected_entities: crate::selection::SelectedEntities,
    pub selection: crate::selection::InspectorSelection,
    pub gizmo_mode: crate::gizmo::GizmoMode,
}

impl UiState {
    pub open spec fn wf(self) -> bool {
        self.tree.wf() && self.selected_entities.wf() && self.tree.tabs().no_duplicates()
    }

    /// The editor's initial state: the default dock layout, nothing
    /// selected, the selection itself as inspection target, no viewport
    /// rectangle yet, and the translate gizmo.
    pub fn new() -> (s: UiState)
        ensures
            s.wf(),
            s.tree.leaves() =~= seq![
                seq![crate::dock::PanelKind::Hierarchy],
                seq![crate::dock::PanelKind::GameView],
                seq![crate::dock::PanelKind::Resources, crate::dock::PanelKind::Assets],
                seq![crate::dock::PanelKind::Inspector],
            ],
            s.tree.tabs() =~= seq![
                crate::dock::PanelKind::Hierarchy,
                crate::dock::PanelKind::GameView,
                crate::dock::PanelKind::Resources,
                crate::dock::PanelKind::Assets,
                crate::dock::PanelKind::Inspector,
            ],
            s.viewport_rect is None,
            s.selected_entities@ =~= Seq::<u64>::empty(),
            s.selection is Entities,
            s.gizmo_mode == crate::gizmo::GizmoMode::Translate,
    {
        UiState {
            tree: crate::dock::DockTree::new_default(),
            viewport_rect: None,
            selected_entities: crate::selection::SelectedEntities::new(),
            selection: crate::selection::InspectorSelection::Entities,
            gizmo_mode: crate::gizmo::GizmoMode::Translate,
        }
    }

    /// The active inspection target, for the inspector panel to dispatch on.
    pub fn current(&self) -> (r: &crate::selection::InspectorSelection)
        ensures
            r == &self.selection,
    {
        &self.selection
    }

    /// Replace the object selection by the given click sequence (empty means
    /// deselect) and make the selection itself the inspection target.
    pub fn select(&mut self, objects: &Vec<u64>)
        requires
            old(self).wf(),
        ensures
            final(self).wf(),
            final(self).selected_entities@ =~= crate::selection::dedup_first(objects@),
            final(self).selection is Entities,
            final(self).tree == old(self).tree,
            final(self).viewport_rect == old(self).viewport_rect,
            final(self).gizmo_mode == old(self).gizmo_mode,
    {
        self.selected_entities.select(objects);
        self.selection = crate::selection::InspectorSelection::Entities;
    }

    /// A click on a hierarchy node: plain click selects exactly that object,
    /// modifier click accumulates it; either way the selection becomes the
    /// inspection target.
    pub fn hierarchy_click(&mut self, object: u64, additive: bool)
        requires
            old(self).wf(),
        ensures
            final(self).wf(),
            final(self).selection is Entities,
            !additive ==> final(self).selected_entities@ =~= seq![object],
            additive && old(self).selected_entities@.contains(object)
                ==> final(self).selected_entities@ =~= old(self).selected_entities@,
            additive && !old(self).selected_entities@.contains(object)
                ==> final(self).selected_entities@ =~= old(self).selected_entities@.push(object),
            final(self).tree == old(self).tree,
            final(self).viewport_rect == old(self).viewport_rect,
            final(self).gizmo_mode == old(self).gizmo_mode,
    {
        if additive {
            self.selected_entities.add_click(object);
        } else {
            self.selected_entities.select_one(object);
        }
        self.selection = crate::selection::InspectorSelection::Entities;
    }

    /// Make a registered resource the inspection target.  The latent object
    /// selection stays untouched.
    pub fn set_resource_target(&mut self, type_id: u64, name: Vec<u8>)
        requires
            old(self).wf(),
        ensures
            final(self).wf(),
            set_resource_spec(*old(self), *final(self), type_id, name@),
    {
        self.selection = crate::selection::InspectorSelection::Resource(type_id, name);
    }

    /// Make one asset instance the inspection target.  The latent object
    /// selection stays untouched.
    pub fn set_asset_target(&mut self, type_id: u64, name: Vec<u8>, instance: u64)
        requires
            old(self).wf(),
        ensures
            final(self).wf(),
            (final(self).selection matches crate::selection::InspectorSelection::Asset(t, n, h)
                && t == type_id && n@ =~= name@ && h == instance),
            final(self).selected_entities@ =~= old(self).selected_entities@,
            final(self).tree == old(self).tree,
            final(self).viewport_rect == old(self).viewport_rect,
            final(self).gizmo_mode == old(self).gizmo_mode,
    {
        self.selection = crate::selection::InspectorSelection::Asset(type_id, name, instance);
    }

    /// Run a sequence of drag-and-drop layout mutations.  Whatever the
    /// sequence, afterwards the layout holds exactly the tabs it held
    /// before, minus the closed ones, which are returned in order.
    pub fn apply_dock_ops(&mut self, ops: &Vec<crate::dock::DockOp>) -> (closed: Vec<
        crate::dock::PanelKind,
    >)
        requires
            old(self).wf(),
        ensures
            final(self).wf(),
            final(self).tree.leaves() == crate::dock::ops_leaves(old(self).tree.leaves(), ops@),
            closed@ == crate::dock::ops_closed(old(self).tree.leaves(), ops@),
            old(self).tree.tabs().to_multiset() =~= final(self).tree.tabs().to_multiset().add(
                closed@.to_multiset(),
            ),
            final(self).viewport_rect == old(self).viewport_rect,
            final(self).selected_entities@ =~= old(self).selected_entities@,
            final(self).selection == old(self).selection,
            final(self).gizmo_mode == old(self).gizmo_mode,
    {
        let closed = self.tree.apply_ops(ops);
        proof {
            broadcast use vstd::multiset::group_multiset_axioms;

            old(self).tree.tabs().lemma_multiset_has_no_duplicates();
            assert forall|x: crate::dock::PanelKind|
                self.tree.tabs().to_multiset().contains(x)
                    implies #[trigger] self.tree.tabs().to_multiset().count(x) == 1 by {
                assert(old(self).tree.tabs().to_multiset().count(x) >= self.tree.tabs().to_multiset().count(x));
                assert(old(self).tree.tabs().to_multiset().contains(x));
            }
            self.tree.tabs().lemma_multiset_has_no_duplicates_conv();
        }
        closed
    }
}

/// Everything `set_resource_target` promises: the target is fully replaced
/// by the given resource, and all other state, the latent object selection
/// included, is untouched.
pub open spec fn set_resource_spec(s0: UiState, s1: UiState, type_id: u64, name: Seq<u8>) -> bool {
    &&& (s1.selection matches crate::selection::InspectorSelection::Resource(t, n) && t == type_id
        && n@ =~= name)
    &&& s1.selected_entities@ =~= s0.selected_entities@
    &&& s1.tree == s0.tree
    &&& s1.viewport_rect == s0.viewport_rect
    &&& s1.gizmo_mode == s0.gizmo_mode
    &&& s1.wf()
}

/// Selecting a resource target and then a different one fully replaces the
/// prior target, with no field of the first retained; the latent object
/// selection is never touched, so switching back to the selection variant
/// shows the objects that were selected at the start.
pub proof fn lemma_resource_target_replacement(
    s0: UiState,
    s1: UiState,
    s2: UiState,
    t1: u64,
    n1: Seq<u8>,
    t2: u64,
    n2: Seq<u8>,
)
    requires
        set_resource_spec(s0, s1, t1, n1),
        set_resource_spec(s1, s2, t2, n2),
    ensures
        (s2.selection matches crate::selection::InspectorSelection::Resource(t, n) && t == t2
            && n@ =~= n2),
        s2.selected_entities@ =~= s0.selected_entities@,
{
}

/// The resource panel: list every resource-like registration alphabetically
/// by short name (ties in registration order), highlight the one whose type
/// id is the current resource target, and make a clicked row the new
/// inspection target.
pub fn select_resource(
    registry: &Vec<crate::catalog::TypeRegistration>,
    selection: &mut crate::selection::InspectorSelection,
    clicked: Option<usize>,
) -> (rows: Vec<ResourceRow>)
    ensures
        crate::catalog::listing_ok(
            rows@.map_values(|r: ResourceRow| row_as_listed(r)),
            registry@,
            false,
        ),
        forall|r: int|
            0 <= r < rows@.len() ==> (#[trigger] rows@[r].selected == (*old(selection)
                matches crate::selection::InspectorSelection::Resource(t, _) && t == rows@[r].type_id)),
        clicked matches Some(i) ==> ({
            &&& i < rows@.len() ==> (*final(selection)
                matches crate::selection::InspectorSelection::Resource(t, n) && t == rows@[
                i as int
            ].type_id && n@ =~= rows@[i as int].short_name@)
            &&& i >= rows@.len() ==> *final(selection) == *old(selection)
        }),
        clicked is None ==> *final(selection) == *old(selection),
{
    let listed = crate::catalog::resource_rows(registry);
    let ghost orig = listed@;
    let mut rest = listed;
    let mut rows: Vec<ResourceRow> = Vec::new();
    let current_resource: Option<u64> = match &*selection {
        crate::selection::InspectorSelection::Resource(t, _) => Some(*t),
        _ => None,
    };
    while rest.len() > 0
        invariant
            rest@ =~= orig.skip(orig.len() - rest@.len()),
            rows@.len() + rest@.len() == orig.len(),
            rows@.map_values(|r: ResourceRow| row_as_listed(r)) =~= orig.subrange(
                0,
                rows@.len() as int,
            ),
            forall|r: int|
                0 <= r < rows@.len() ==> (#[trigger] rows@[r].selected == (current_resource
                    matches Some(t) && t == rows@[r].type_id)),
            current_resource matches Some(t) ==> (*selection)
                matches crate::selection::InspectorSelection::Resource(t0, n) && t0 == t,
            current_resource is None ==> !((*selection)
                matches crate::selection::InspectorSelection::Resource(t0, n)),
        decreases rest@.len(),
    {
        let ghost i = rows@.len() as int;
        let ghost rest_before = rest@;
        let l = rest.remove(0);
        proof {
            assert(l == orig[i]);
            assert(rest@ =~= orig.skip(orig.len() - rest@.len())) by {
                assert(rest@ =~= rest_before.remove(0));
                assert(rest_before.remove(0) =~= orig.skip(orig.len() - rest_before.len() + 1));
            }
        }
        let selected = match current_resource {
            Some(t) => t == l.type_id,
            None => false,
        };
        rows.push(
            ResourceRow { type_id: l.type_id, short_name: l.short_name, order: l.order, selected },
        );
        proof {
            assert(rows@.map_values(|r: ResourceRow| row_as_listed(r)) =~= orig.subrange(
                0,
                rows@.len() as int,
            ));
        }
    }
    proof {
        assert(rows@.map_values(|r: ResourceRow| row_as_listed(r)) =~= orig);
    }
    match clicked {
        Some(i) => {
            if i < rows.len() {
                let type_id = rows[i].type_id;
                let name = crate::catalog::copy_bytes(&rows[i].short_name);
                *selection = crate::selection::InspectorSelection::Resource(type_id, name);
            }
        },
        None => {},
    }
    rows
}


/// The host's enumeration of live instances for one asset type.
pub struct InstanceList {
    pub type_id: u64,
    pub ids: Vec<u64>,
}

/// One section of the asset panel: an asset-like registration together with
/// its live instance ids, sorted ascending.
pub struct AssetSection {
    pub type_id: u64,
    pub short_name: Vec<u8>,
    pub order: usize,
    pub instance_ids: Vec<u64>,
}

/// The listing data an asset section carries.
pub open spec fn section_as_listed(a: AssetSection) -> crate::catalog::ListedType {
    crate::catalog::ListedType { type_id: a.type_id, short_name: a.short_name, order: a.order }
}

/// The instance ids the host reported for this asset type: the first list
/// with that type id, or nothing.
pub open spec fn instances_of(lists: Seq<InstanceList>, type_id: u64) -> Seq<u64>
    decreases lists.len(),
{
    if lists.len() == 0 {
        Seq::<u64>::empty()
    } else if lists[0].type_id == type_id {
        lists[0].ids@
    } else {
        instances_of(lists.drop_first(), type_id)
    }
}

fn find_instances(lists: &Vec<InstanceList>, type_id: u64) -> (r: Vec<u64>)
    ensures
        r@ =~= instances_of(lists@, type_id),
{
    let mut i: usize = 0;
    proof {
        assert(lists@.skip(0) =~= lists@);
    }
    while i < lists.len()
        invariant
            0 <= i <= lists@.len(),
            instances_of(lists@, type_id) =~= instances_of(lists@.skip(i as int), type_id),
        decreases lists@.len() - i,
    {
        proof {
            assert(lists@.skip(i as int)[0] == lists@[i as int]);
            assert(lists@.skip(i as int).drop_first() =~= lists@.skip(i + 1));
        }
        if lists[i].type_id == type_id {
            let mut r: Vec<u64> = Vec::new();
            let ids = &lists[i].ids;
            let mut b: usize = 0;
            while b < ids.len()
                invariant
                    0 <= b <= ids@.len(),
                    r@ =~= ids@.subrange(0, b as int),
                    ids == &lists@[i as int].ids,
                    i < lists@.len(),
                decreases ids@.len() - b,
            {
                r.push(ids[b]);
                b = b + 1;
            }
            proof {
                assert(ids@.subrange(0, ids@.len() as int) =~= ids@);
            }
            return r;
        }
        i = i + 1;
    }
    Vec::new()
}

/// A click on one instance row of the asset panel.
#[derive(Debug, Clone, Copy, PartialEq, Eq, Structural)]
pub struct AssetClick {
    pub type_index: usize,
    pub instance_index: usize,
}

/// The asset panel: list every asset-like registration alphabetically by
/// short name (ties in registration order), under each the live instance ids
/// sorted ascending, and make a clicked instance the new inspection target.
pub fn select_asset(
    registry: &Vec<crate::catalog::TypeRegistration>,
    instances: &Vec<InstanceList>,
    selection: &mut crate::selection::InspectorSelection,
    clicked: Option<AssetClick>,
) -> (sections: Vec<AssetSection>)
    ensures
        crate::catalog::listing_ok(
            sections@.map_values(|a: AssetSection| section_as_listed(a)),
            registry@,
            true,
        ),
        forall|k: int|
            0 <= k < sections@.len() ==> (#[trigger] sections@[k].instance_ids@).to_multiset()
                =~= instances_of(instances@, sections@[k].type_id).to_multiset(),
        forall|k: int, i1: int, i2: int|
            0 <= k < sections@.len() && 0 <= i1 < i2 < sections@[k].instance_ids@.len()
                ==> #[trigger] sections@[k].instance_ids@[i1] <= #[trigger] sections@[k].instance_ids@[i2],
        clicked matches Some(c) ==> ({
            &&& c.type_index < sections@.len() && c.instance_index < sections@[
                c.type_index as int
            ].instance_ids@.len() ==> (*final(selection)
                matches crate::selection::InspectorSelection::Asset(t, n, h) && t == sections@[
                c.type_index as int
            ].type_id && n@ =~= sections@[c.type_index as int].short_name@ && h == sections@[
                c.type_index as int
            ].instance_ids@[c.instance_index as int])
            &&& !(c.type_index < sections@.len() && c.instance_index < sections@[
                c.type_index as int
            ].instance_ids@.len()) ==> *final(selection) == *old(selection)
        }),
        clicked is None ==> *final(selection) == *old(selection),
{
    let listed = crate::catalog::asset_rows(registry);
    let ghost orig = listed@;
    let mut rest = listed;
    let mut sections: Vec<AssetSection> = Vec::new();
    while rest.len() > 0
        invariant
            rest@ =~= orig.skip(orig.len() - rest@.len()),
            sections@.len() + rest@.len() == orig.len(),
            sections@.map_values(|a: AssetSection| section_as_listed(a)) =~= orig.subrange(
                0,
                sections@.len() as int,
            ),
            forall|k: int|
                0 <= k < sections@.len() ==> (#[trigger] sections@[k].instance_ids@).to_multiset()
                    =~= instances_of(instances@, sections@[k].type_id).to_multiset(),
            forall|k: int, i1: int, i2: int|
                0 <= k < sections@.len() && 0 <= i1 < i2 < sections@[k].instance_ids@.len()
                    ==> #[trigger] sections@[k].instance_ids@[i1] <= #[trigger] sections@[
                    k
                ].instance_ids@[i2],
        decreases rest@.len(),
    {
        let ghost i = sections@.len() as int;
        let ghost rest_before = rest@;
        let l = rest.remove(0);
        proof {
            assert(l == orig[i]);
            assert(rest@ =~= orig.skip(orig.len() - rest@.len())) by {
                assert(rest@ =~= rest_before.remove(0));
                assert(rest_before.remove(0) =~= orig.skip(orig.len() - rest_before.len() + 1));
            }
        }
        let found = find_instances(instances, l.type_id);
        let sorted = crate::catalog::sort_ids(&found);
        sections.push(
            AssetSection {
                type_id: l.type_id,
                short_name: l.short_name,
                order: l.order,
                instance_ids: sorted,
            },
        );
        proof {
            assert(sections@.map_values(|a: AssetSection| section_as_listed(a)) =~= orig.subrange(
                0,
                sections@.len() as int,
            ));
        }
    }
    proof {
        assert(sections@.map_values(|a: AssetSection| section_as_listed(a)) =~= orig);
    }
    match clicked {
        Some(c) => {
            if c.type_index < sections.len() {
                let n_ids = sections[c.type_index].instance_ids.len();
                if c.instance_index < n_ids {
                    let type_id = sections[c.type_index].type_id;
                    let name = crate::catalog::copy_bytes(&sections[c.type_index].short_name);
                    let id = sections[c.type_index].instance_ids[c.instance_index];
                    *selection = crate::selection::InspectorSelection::Asset(type_id, name, id);
                }
            }
        },
        None => {},
    }
    sections
}


/// A click on a hierarchy node this frame.
#[derive(Debug, Clone, Copy, PartialEq, Eq, Structural)]
pub struct HierarchyClick {
    pub object: u64,
    pub additive: bool,
}

/// What the host hands the panel pass each frame: where the viewport panel
/// would draw, and at most one pointer click on one of the panels.
pub struct FrameInput {
    pub game_view_rect: crate::viewport::UiRect,
    pub hierarchy_click: Option<HierarchyClick>,
    pub resource_click: Option<usize>,
    pub asset_click: Option<AssetClick>,
}

impl FrameInput {
    /// How many panel clicks this frame carries; one pointer gives at most
    /// one.
    pub open spec fn click_count(self) -> int {
        (if self.hierarchy_click is Some {
            1int
        } else {
            0int
        }) + (if self.resource_click is Some {
            1int
        } else {
            0int
        }) + (if self.asset_click is Some {
            1int
        } else {
            0int
        })
    }
}

/// What the panel pass hands back for the host to draw: the tabs in render
/// order, the two listings, and the inspector's view.
pub struct FrameOutput {
    pub rendered: Vec<crate::dock::PanelKind>,
    pub resource_rows: Vec<ResourceRow>,
    pub asset_sections: Vec<AssetSection>,
    pub inspector: Option<crate::inspector::InspectorView>,
}

/// How a hierarchy click relates the object selection before and after.
pub open spec fn hierarchy_click_effect(before: Seq<u64>, c: HierarchyClick, after: Seq<u64>) -> bool {
    &&& !c.additive ==> after =~= seq![c.object]
    &&& c.additive && before.contains(c.object) ==> after =~= before
    &&& c.additive && !before.contains(c.object) ==> after =~= before.push(c.object)
}

/// Whether a panel that can move the selection has already rendered.
pub open spec fn selection_panel_seen(seen: Seq<crate::dock::PanelKind>, input: FrameInput) -> bool {
    ||| (input.hierarchy_click is Some && seen.contains(crate::dock::PanelKind::Hierarchy))
    ||| (input.resource_click is Some && seen.contains(crate::dock::PanelKind::Resources))
    ||| (input.asset_click is Some && seen.contains(crate::dock::PanelKind::Assets))
}

/// Whether the frame's click lands on a panel that renders before the
/// inspector tab, so that the inspector already shows its outcome this frame.
pub open spec fn click_before_inspector(
    tabs: Seq<crate::dock::PanelKind>,
    input: FrameInput,
) -> bool {
    ||| (input.hierarchy_click is Some && tabs.contains(crate::dock::PanelKind::Hierarchy)
        && tabs.index_of(crate::dock::PanelKind::Hierarchy) < tabs.index_of(
        crate::dock::PanelKind::Inspector,
    ))
    ||| (input.resource_click is Some && tabs.contains(crate::dock::PanelKind::Resources)
        && tabs.index_of(crate::dock::PanelKind::Resources) < tabs.index_of(
        crate::dock::PanelKind::Inspector,
    ))
    ||| (input.asset_click is Some && tabs.contains(crate::dock::PanelKind::Assets)
        && tabs.index_of(crate::dock::PanelKind::Assets) < tabs.index_of(
        crate::dock::PanelKind::Inspector,
    ))
}

/// A tab seen in the rendered prefix sits, by uniqueness, at its one index,
/// which lies before the current position.
proof fn lemma_seen_index(tabs: Seq<crate::dock::PanelKind>, i: int, x: crate::dock::PanelKind)
    requires
        tabs.no_duplicates(),
        0 <= i <= tabs.len(),
        tabs.subrange(0, i).contains(x),
    ensures
        tabs.contains(x),
        0 <= tabs.index_of(x) < i,
{
    let j = choose|j: int| 0 <= j < i && tabs.subrange(0, i)[j] == x;
    assert(tabs[j] == x);
    assert(tabs.contains(x));
    let k = tabs.index_of(x);
    assert(0 <= k < tabs.len() && tabs[k] == x);
    if k != j {
        assert(false);
    }
}

/// The tab at the current position is, by uniqueness, exactly where
/// `index_of` points.
proof fn lemma_current_index(tabs: Seq<crate::dock::PanelKind>, i: int, x: crate::dock::PanelKind)
    requires
        tabs.no_duplicates(),
        0 <= i < tabs.len(),
        tabs[i] == x,
    ensures
        tabs.contains(x),
        tabs.index_of(x) == i,
{
    assert(tabs.contains(x));
    let k = tabs.index_of(x);
    assert(0 <= k < tabs.len() && tabs[k] == x);
    if k != i {
        assert(false);
    }
}

impl UiState {
    /// One frame of the panel pass: render every tab of the dock layout in
    /// depth-first order.  The viewport panel records its rectangle, the
    /// hierarchy, resource and asset panels apply this frame's click to the
    /// selection, and the inspector reports what it shows.
    pub fn ui(
        &mut self,
        registry: &Vec<crate::catalog::TypeRegistration>,
        instances: &Vec<InstanceList>,
        input: &FrameInput,
    ) -> (out: FrameOutput)
        requires
            old(self).wf(),
            input.click_count() <= 1,
        ensures
            final(self).wf(),
            final(self).tree == old(self).tree,
            final(self).gizmo_mode == old(self).gizmo_mode,
            out.rendered@ =~= old(self).tree.tabs(),
            old(self).tree.tabs().contains(crate::dock::PanelKind::GameView) ==> final(self).viewport_rect == Some(input.game_view_rect),
            !old(self).tree.tabs().contains(crate::dock::PanelKind::GameView) ==> final(self).viewport_rect == old(self).viewport_rect,
            !selection_panel_seen(old(self).tree.tabs(), *input) ==> final(self).selection == old(self).selection,
            (input.hierarchy_click is None || !old(self).tree.tabs().contains(
                crate::dock::PanelKind::Hierarchy,
            )) ==> final(self).selected_entities@ =~= old(self).selected_entities@,
            input.hierarchy_click matches Some(c) ==> (old(self).tree.tabs().contains(
                crate::dock::PanelKind::Hierarchy,
            ) ==> final(self).selection is Entities && hierarchy_click_effect(
                old(self).selected_entities@,
                c,
                final(self).selected_entities@,
            )),
            old(self).tree.tabs().contains(crate::dock::PanelKind::Resources)
                ==> crate::catalog::listing_ok(
                out.resource_rows@.map_values(|r: ResourceRow| row_as_listed(r)),
                registry@,
                false,
            ),
            input.resource_click matches Some(idx) ==> (old(self).tree.tabs().contains(
                crate::dock::PanelKind::Resources,
            ) ==> {
                &&& idx < out.resource_rows@.len() ==> (final(self).selection
                    matches crate::selection::InspectorSelection::Resource(t, n) && t
                    == out.resource_rows@[idx as int].type_id && n@ =~= out.resource_rows@[
                    idx as int
                ].short_name@)
                &&& idx >= out.resource_rows@.len() ==> final(self).selection == old(self).selection
            }),
            old(self).tree.tabs().contains(crate::dock::PanelKind::Assets)
                ==> crate::catalog::listing_ok(
                out.asset_sections@.map_values(|a: AssetSection| section_as_listed(a)),
                registry@,
                true,
            ) && (forall|k: int|
                0 <= k < out.asset_sections@.len()
                    ==> (#[trigger] out.asset_sections@[k].instance_ids@).to_multiset()
                    =~= instances_of(instances@, out.asset_sections@[k].type_id).to_multiset())
                && (forall|k: int, i1: int, i2: int|
                0 <= k < out.asset_sections@.len() && 0 <= i1 < i2 < out.asset_sections@[
                    k
                ].instance_ids@.len() ==> #[trigger] out.asset_sections@[k].instance_ids@[i1]
                    <= #[trigger] out.asset_sections@[k].instance_ids@[i2]),
            input.asset_click matches Some(c) ==> (old(self).tree.tabs().contains(
                crate::dock::PanelKind::Assets,
            ) ==> {
                &&& c.type_index < out.asset_sections@.len() && c.instance_index
                    < out.asset_sections@[c.type_index as int].instance_ids@.len() ==> (final(self).selection matches crate::selection::InspectorSelection::Asset(t, n, h) && t
                    == out.asset_sections@[c.type_index as int].type_id && n@
                    =~= out.asset_sections@[c.type_index as int].short_name@ && h
                    == out.asset_sections@[c.type_index as int].instance_ids@[
                    c.instance_index as int
                ])
                &&& !(c.type_index < out.asset_sections@.len() && c.instance_index
                    < out.asset_sections@[c.type_index as int].instance_ids@.len()) ==> final(self).selection == old(self).selection
            }),
            (out.inspector is Some) == old(self).tree.tabs().contains(
                crate::dock::PanelKind::Inspector,
            ),
            out.inspector matches Some(v) ==> (!click_before_inspector(
                old(self).tree.tabs(),
                *input,
            ) ==> crate::inspector::inspector_view_ok(
                old(self).selection,
                old(self).selected_entities@,
                v,
            )),
            out.inspector matches Some(v) ==> (click_before_inspector(
                old(self).tree.tabs(),
                *input,
            ) ==> crate::inspector::inspector_view_ok(
                final(self).selection,
                final(self).selected_entities@,
                v,
            )),
    {
        let tabs = self.tree.tabs_in_order();
        let mut resource_rows: Vec<ResourceRow> = Vec::new();
        let mut asset_sections: Vec<AssetSection> = Vec::new();
        let mut inspector: Option<crate::inspector::InspectorView> = None;
        let mut i: usize = 0;
        while i < tabs.len()
            invariant
                0 <= i <= tabs@.len(),
                self.wf(),
                input.click_count() <= 1,
                tabs@ =~= old(self).tree.tabs(),
                self.tree == old(self).tree,
                self.gizmo_mode == old(self).gizmo_mode,
                tabs@.subrange(0, i as int).contains(crate::dock::PanelKind::GameView)
                    ==> self.viewport_rect == Some(input.game_view_rect),
                !tabs@.subrange(0, i as int).contains(crate::dock::PanelKind::GameView)
                    ==> self.viewport_rect == old(self).viewport_rect,
                !selection_panel_seen(tabs@.subrange(0, i as int), *input) ==> self.selection
                    == old(self).selection,
                (input.hierarchy_click is None || !tabs@.subrange(0, i as int).contains(
                    crate::dock::PanelKind::Hierarchy,
                )) ==> self.selected_entities@ =~= old(self).selected_entities@,
                input.hierarchy_click matches Some(c) ==> (tabs@.subrange(0, i as int).contains(
                    crate::dock::PanelKind::Hierarchy,
                ) ==> self.selection is Entities && hierarchy_click_effect(
                    old(self).selected_entities@,
                    c,
                    self.selected_entities@,
                )),
                tabs@.subrange(0, i as int).contains(crate::dock::PanelKind::Resources)
                    ==> crate::catalog::listing_ok(
                    resource_rows@.map_values(|r: ResourceRow| row_as_listed(r)),
                    registry@,
                    false,
                ),
                input.resource_click matches Some(idx) ==> (tabs@.subrange(0, i as int).contains(
                    crate::dock::PanelKind::Resources,
                ) ==> {
                    &&& idx < resource_rows@.len() ==> (self.selection
                        matches crate::selection::InspectorSelection::Resource(t, n) && t
                        == resource_rows@[idx as int].type_id && n@ =~= resource_rows@[
                        idx as int
                    ].short_name@)
                    &&& idx >= resource_rows@.len() ==> self.selection == old(self).selection
                }),
                tabs@.subrange(0, i as int).contains(crate::dock::PanelKind::Assets)
                    ==> crate::catalog::listing_ok(
                    asset_sections@.map_values(|a: AssetSection| section_as_listed(a)),
                    registry@,
                    true,
                ) && (forall|k: int|
                    0 <= k < asset_sections@.len()
                        ==> (#[trigger] asset_sections@[k].instance_ids@).to_multiset()
                        =~= instances_of(instances@, asset_sections@[k].type_id).to_multiset())
                    && (forall|k: int, i1: int, i2: int|
                    0 <= k < asset_sections@.len() && 0 <= i1 < i2 < asset_sections@[
                        k
                    ].instance_ids@.len() ==> #[trigger] asset_sections@[k].instance_ids@[i1]
                        <= #[trigger] asset_sections@[k].instance_ids@[i2]),
                input.asset_click matches Some(c) ==> (tabs@.subrange(0, i as int).contains(
                    crate::dock::PanelKind::Assets,
                ) ==> {
                    &&& c.type_index < asset_sections@.len() && c.instance_index
                        < asset_sections@[c.type_index as int].instance_ids@.len()
                        ==> (self.selection
                        matches crate::selection::InspectorSelection::Asset(t, n, h) && t
                        == asset_sections@[c.type_index as int].type_id && n@
                        =~= asset_sections@[c.type_index as int].short_name@ && h
                        == asset_sections@[c.type_index as int].instance_ids@[
                        c.instance_index as int
                    ])
                    &&& !(c.type_index < asset_sections@.len() && c.instance_index
                        < asset_sections@[c.type_index as int].instance_ids@.len())
                        ==> self.selection == old(self).selection
                }),
                (inspector is Some) == tabs@.subrange(0, i as int).contains(
                    crate::dock::PanelKind::Inspector,
                ),
                inspector matches Some(v) ==> (!click_before_inspector(tabs@, *input)
                    ==> crate::inspector::inspector_view_ok(
                    old(self).selection,
                    old(self).selected_entities@,
                    v,
                )),
                inspector matches Some(v) ==> (click_before_inspector(tabs@, *input)
                    ==> crate::inspector::inspector_view_ok(
                    self.selection,
                    self.selected_entities@,
                    v,
                )),
            decreases tabs@.len() - i,
        {
            let tab = tabs[i];
            proof {
                let seen = tabs@.subrange(0, i as int);
                let seen2 = tabs@.subrange(0, i + 1);
                assert(!seen.contains(tab)) by {
                    if seen.contains(tab) {
                        let j = choose|j: int| 0 <= j < seen.len() && seen[j] == tab;
                        assert(tabs@[j] == tabs@[i as int]);
                    }
                }
                assert(seen2 =~= seen.push(tabs@[i as int]));
                assert forall|x: crate::dock::PanelKind| #[trigger] seen2.contains(x)
                    <==> (seen.contains(x) || x == tabs@[i as int]) by {
                    if seen2.contains(x) {
                        let j = choose|j: int| 0 <= j < seen2.len() && seen2[j] == x;
                        if j < seen.len() {
                            assert(seen[j] == x);
                        }
                    }
                    if seen.contains(x) {
                        let j = choose|j: int| 0 <= j < seen.len() && seen[j] == x;
                        assert(seen2[j] == x);
                    }
                    if x == tabs@[i as int] {
                        assert(seen2[seen.len() as int] == x);
                    }
                }
            }
            match tab {
                crate::dock::PanelKind::GameView => {
                    self.viewport_rect = Some(input.game_view_rect);
                },
                crate::dock::PanelKind::Hierarchy => {
                    match input.hierarchy_click {
                        Some(c) => {
                            proof {
                                if inspector is Some && click_before_inspector(tabs@, *input) {
                                    lemma_seen_index(
                                        tabs@,
                                        i as int,
                                        crate::dock::PanelKind::Inspector,
                                    );
                                    lemma_current_index(
                                        tabs@,
                                        i as int,
                                        crate::dock::PanelKind::Hierarchy,
                                    );
                                    assert(false);
                                }
                            }
                            self.hierarchy_click(c.object, c.additive);
                        },
                        None => {},
                    }
                },
                crate::dock::PanelKind::Resources => {
                    proof {
                        if input.resource_click is Some && inspector is Some
                            && click_before_inspector(tabs@, *input) {
                            lemma_seen_index(tabs@, i as int, crate::dock::PanelKind::Inspector);
                            lemma_current_index(tabs@, i as int, crate::dock::PanelKind::Resources);
                            assert(false);
                        }
                    }
                    resource_rows = select_resource(
                        registry,
                        &mut self.selection,
                        input.resource_click,
                    );
                },
                crate::dock::PanelKind::Assets => {
                    proof {
                        if input.asset_click is Some && inspector is Some
                            && click_before_inspector(tabs@, *input) {
                            lemma_seen_index(tabs@, i as int, crate::dock::PanelKind::Inspector);
                            lemma_current_index(tabs@, i as int, crate::dock::PanelKind::Assets);
                            assert(false);
                        }
                    }
                    asset_sections = select_asset(
                        registry,
                        instances,
                        &mut self.selection,
                        input.asset_click,
                    );
                },
                crate::dock::PanelKind::Inspector => {
                    proof {
                        if !click_before_inspector(tabs@, *input) {
                            lemma_current_index(tabs@, i as int, crate::dock::PanelKind::Inspector);
                            if input.hierarchy_click is Some && tabs@.subrange(
                                0,
                                i as int,
                            ).contains(crate::dock::PanelKind::Hierarchy) {
                                lemma_seen_index(
                                    tabs@,
                                    i as int,
                                    crate::dock::PanelKind::Hierarchy,
                                );
                                assert(false);
                            }
                            if input.resource_click is Some && tabs@.subrange(0, i as int).contains(
                                crate::dock::PanelKind::Resources,
                            ) {
                                lemma_seen_index(
                                    tabs@,
                                    i as int,
                                    crate::dock::PanelKind::Resources,
                                );
                                assert(false);
                            }
                            if input.asset_click is Some && tabs@.subrange(0, i as int).contains(
                                crate::dock::PanelKind::Assets,
                            ) {
                                lemma_seen_index(tabs@, i as int, crate::dock::PanelKind::Assets);
                                assert(false);
                            }
                            assert(!selection_panel_seen(tabs@.subrange(0, i as int), *input));
                        }
                    }
                    inspector = Some(
                        crate::inspector::inspector_view(&self.selection, &self.selected_entities),
                    );
                },
            }
            i = i + 1;
        }
        proof {
            assert(tabs@.subrange(0, tabs@.len() as int) =~= tabs@);
        }
        FrameOutput { rendered: tabs, resource_rows, asset_sections, inspector }
    }
}

/// The whole per-frame entry of the overlay: with inspection mode off
/// nothing renders and nothing changes; with it on the panel pass runs.
pub fn show_ui(
    state: &mut UiState,
    editor: &EditorResource,
    registry: &Vec<crate::catalog::TypeRegistration>,
    instances: &Vec<InstanceList>,
    input: &FrameInput,
) -> (out: Option<FrameOutput>)
    requires
        old(state).wf(),
        input.click_count() <= 1,
    ensures
        final(state).wf(),
        !editor.0 ==> out is None && *final(state) == *old(state),
        editor.0 ==> (out matches Some(o) && o.rendered@ =~= old(state).tree.tabs() && final(state).tree == old(state).tree && final(state).gizmo_mode == old(state).gizmo_mode),
        editor.0 ==> ({
            let o = out->Some_0;
            &&& old(state).tree.tabs().contains(crate::dock::PanelKind::GameView) ==> final(state).viewport_rect == Some(input.game_view_rect)
            &&& !old(state).tree.tabs().contains(crate::dock::PanelKind::GameView) ==> final(state).viewport_rect == old(state).viewport_rect
            &&& !selection_panel_seen(old(state).tree.tabs(), *input) ==> final(state).selection
                == old(state).selection
            &&& (input.hierarchy_click is None || !old(state).tree.tabs().contains(
                crate::dock::PanelKind::Hierarchy,
            )) ==> final(state).selected_entities@ =~= old(state).selected_entities@
            &&& (input.hierarchy_click matches Some(c) ==> (old(state).tree.tabs().contains(
                crate::dock::PanelKind::Hierarchy,
            ) ==> final(state).selection is Entities && hierarchy_click_effect(
                old(state).selected_entities@,
                c,
                final(state).selected_entities@,
            )))
            &&& old(state).tree.tabs().contains(crate::dock::PanelKind::Resources)
                ==> crate::catalog::listing_ok(
                o.resource_rows@.map_values(|r: ResourceRow| row_as_listed(r)),
                registry@,
                false,
            )
            &&& (input.resource_click matches Some(idx) ==> (old(state).tree.tabs().contains(
                crate::dock::PanelKind::Resources,
            ) ==> {
                &&& idx < o.resource_rows@.len() ==> (final(state).selection
                    matches crate::selection::InspectorSelection::Resource(t, n) && t
                    == o.resource_rows@[idx as int].type_id && n@ =~= o.resource_rows@[
                    idx as int
                ].short_name@)
                &&& idx >= o.resource_rows@.len() ==> final(state).selection == old(state).selection
            }))
            &&& old(state).tree.tabs().contains(crate::dock::PanelKind::Assets)
                ==> crate::catalog::listing_ok(
                o.asset_sections@.map_values(|a: AssetSection| section_as_listed(a)),
                registry@,
                true,
            ) && (forall|k: int|
                0 <= k < o.asset_sections@.len()
                    ==> (#[trigger] o.asset_sections@[k].instance_ids@).to_multiset()
                    =~= instances_of(instances@, o.asset_sections@[k].type_id).to_multiset())
                && (forall|k: int, i1: int, i2: int|
                0 <= k < o.asset_sections@.len() && 0 <= i1 < i2 < o.asset_sections@[
                    k
                ].instance_ids@.len() ==> #[trigger] o.asset_sections@[k].instance_ids@[i1]
                    <= #[trigger] o.asset_sections@[k].instance_ids@[i2])
            &&& (input.asset_click matches Some(c) ==> (old(state).tree.tabs().contains(
                crate::dock::PanelKind::Assets,
            ) ==> {
                &&& c.type_index < o.asset_sections@.len() && c.instance_index
                    < o.asset_sections@[c.type_index as int].instance_ids@.len() ==> (final(state).selection matches crate::selection::InspectorSelection::Asset(t, n, h) && t
                    == o.asset_sections@[c.type_index as int].type_id && n@
                    =~= o.asset_sections@[c.type_index as int].short_name@ && h
                    == o.asset_sections@[c.type_index as int].instance_ids@[
                    c.instance_index as int
                ])
                &&& !(c.type_index < o.asset_sections@.len() && c.instance_index
                    < o.asset_sections@[c.type_index as int].instance_ids@.len()) ==> final(state).selection == old(state).selection
            }))
            &&& (o.inspector is Some) == old(state).tree.tabs().contains(
                crate::dock::PanelKind::Inspector,
            )
            &&& (o.inspector matches Some(v) ==> (!click_before_inspector(
                old(state).tree.tabs(),
                *input,
            ) ==> crate::inspector::inspector_view_ok(
                old(state).selection,
                old(state).selected_entities@,
                v,
            )))
            &&& (o.inspector matches Some(v) ==> (click_before_inspector(
                old(state).tree.tabs(),
                *input,
            ) ==> crate::inspector::inspector_view_ok(
                final(state).selection,
                final(state).selected_entities@,
                v,
            )))
        }),
{
    if !editor.0 {
        return None;
    }
    Some(state.ui(registry, instances, input))
}

} // verus!
