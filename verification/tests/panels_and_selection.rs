use overlay_editor::catalog::{lex_le_bytes, sort_ids, TypeRegistration};
use overlay_editor::inspector::{apply_shared_edit, inspector_view, InspectorView, PropertyStore};
use overlay_editor::selection::{InspectorSelection, SelectedEntities};
use overlay_editor::{
    select_asset, select_resource, show_ui, AssetClick, EditorResource, FrameInput, HierarchyClick,
    InstanceList, UiState,
};
use overlay_editor::dock::PanelKind;
use overlay_editor::viewport::UiRect;

fn registration(type_id: u64, name: &str, resource: bool, asset: bool) -> TypeRegistration {
    TypeRegistration {
        type_id,
        short_name: name.as_bytes().to_vec(),
        is_resource: resource,
        is_asset: asset,
    }
}

fn no_clicks(rect: UiRect) -> FrameInput {
    FrameInput { game_view_rect: rect, hierarchy_click: None, resource_click: None, asset_click: None }
}

#[test]
fn byte_order_is_lexicographic() {
    let a = b"Ammo".to_vec();
    let b = b"Clock".to_vec();
    let prefix = b"Am".to_vec();
    assert!(lex_le_bytes(&a, &b));
    assert!(!lex_le_bytes(&b, &a));
    assert!(lex_le_bytes(&prefix, &a));
    assert!(!lex_le_bytes(&a, &prefix));
    assert!(lex_le_bytes(&a, &a));
}

#[test]
fn instance_ids_sort_ascending() {
    let sorted = sort_ids(&vec![5, 3, 9, 3, 1]);
    assert_eq!(sorted, vec![1, 3, 3, 5, 9]);
    assert_eq!(sort_ids(&vec![]), Vec::<u64>::new());
}

#[test]
fn resource_listing_is_alphabetical_for_any_insertion_order() {
    // the same registrations in two insertion orders give the same listing
    let first = vec![
        registration(1, "Time", true, false),
        registration(2, "Ammo", true, false),
        registration(3, "Mesh", false, true),
        registration(4, "Clock", true, false),
    ];
    let second = vec![
        registration(4, "Clock", true, false),
        registration(3, "Mesh", false, true),
        registration(1, "Time", true, false),
        registration(2, "Ammo", true, false),
    ];
    let mut sel1 = InspectorSelection::Entities;
    let mut sel2 = InspectorSelection::Entities;
    let rows1 = select_resource(&first, &mut sel1, None);
    let rows2 = select_resource(&second, &mut sel2, None);
    let names1: Vec<Vec<u8>> = rows1.iter().map(|r| r.short_name.clone()).collect();
    let names2: Vec<Vec<u8>> = rows2.iter().map(|r| r.short_name.clone()).collect();
    assert_eq!(names1, vec![b"Ammo".to_vec(), b"Clock".to_vec(), b"Time".to_vec()]);
    assert_eq!(names1, names2);
    let ids1: Vec<u64> = rows1.iter().map(|r| r.type_id).collect();
    assert_eq!(ids1, vec![2, 4, 1]);
}

#[test]
fn resource_listing_breaks_ties_by_registration_order() {
    let registry = vec![
        registration(7, "State", true, false),
        registration(8, "State", true, false),
        registration(9, "Audio", true, false),
    ];
    let mut sel = InspectorSelection::Entities;
    let rows = select_resource(&registry, &mut sel, None);
    let ids: Vec<u64> = rows.iter().map(|r| r.type_id).collect();
    assert_eq!(ids, vec![9, 7, 8]);
    assert!(rows[1].order < rows[2].order);
}

#[test]
fn resource_click_sets_target_and_highlight_follows() {
    let registry = vec![
        registration(1, "Time", true, false),
        registration(2, "Ammo", true, false),
    ];
    let mut sel = InspectorSelection::Entities;
    let rows = select_resource(&registry, &mut sel, Some(0));
    assert!(!rows[0].selected && !rows[1].selected);
    assert_eq!(sel, InspectorSelection::Resource(2, b"Ammo".to_vec()));
    // on the next frame the clicked row is highlighted
    let rows = select_resource(&registry, &mut sel, None);
    assert!(rows[0].selected);
    assert!(!rows[1].selected);
    // an out-of-range click changes nothing
    let before = sel.clone();
    select_resource(&registry, &mut sel, Some(9));
    assert_eq!(sel, before);
}

#[test]
fn asset_listing_sorts_types_and_instances() {
    let registry = vec![
        registration(1, "Texture", false, true),
        registration(2, "Audio", false, true),
        registration(3, "Time", true, false),
    ];
    let instances = vec![
        InstanceList { type_id: 1, ids: vec![30, 10, 20] },
        InstanceList { type_id: 2, ids: vec![4] },
    ];
    let mut sel = InspectorSelection::Entities;
    let sections = select_asset(&registry, &instances, &mut sel, None);
    assert_eq!(sections.len(), 2);
    assert_eq!(sections[0].short_name, b"Audio".to_vec());
    assert_eq!(sections[0].instance_ids, vec![4]);
    assert_eq!(sections[1].short_name, b"Texture".to_vec());
    assert_eq!(sections[1].instance_ids, vec![10, 20, 30]);

    // clicking one instance binds the asset target to its id
    let click = AssetClick { type_index: 1, instance_index: 2 };
    select_asset(&registry, &instances, &mut sel, Some(click));
    assert_eq!(sel, InspectorSelection::Asset(1, b"Texture".to_vec(), 30));

    // a type with no reported instances lists none
    let sections = select_asset(&registry, &Vec::new(), &mut sel, None);
    assert!(sections[0].instance_ids.is_empty());
}

#[test]
fn inspector_requires_exactly_one_object_for_single_editing() {
    let sel = InspectorSelection::Entities;
    let mut objects = SelectedEntities::new();
    assert_eq!(
        inspector_view(&sel, &objects),
        InspectorView::SharedComponents(vec![])
    );
    objects.select_one(5);
    assert_eq!(inspector_view(&sel, &objects), InspectorView::SingleObject(5));
    objects.add_click(6);
    assert_eq!(
        inspector_view(&sel, &objects),
        InspectorView::SharedComponents(vec![5, 6])
    );
}

#[test]
fn shared_edit_reaches_every_selected_object() {
    // a simulated edit on three objects is observed on all three afterwards
    let mut store = PropertyStore::new();
    store.set(1, 77, 10);
    store.set(4, 99, 123);
    apply_shared_edit(&mut store, &vec![1, 2, 3], 77, 55);
    assert_eq!(store.get(1, 77), Some(55));
    assert_eq!(store.get(2, 77), Some(55));
    assert_eq!(store.get(3, 77), Some(55));
    // untargeted objects and other properties keep their values
    assert_eq!(store.get(4, 99), Some(123));
    assert_eq!(store.get(4, 77), None);
}

#[test]
fn resource_target_switch_replaces_fully_and_keeps_latent_selection() {
    let mut state = UiState::new();
    state.select(&vec![11, 22, 33]);
    state.set_resource_target(1, b"Ammo".to_vec());
    state.set_resource_target(2, b"Clock".to_vec());
    // nothing of the first target remains
    assert_eq!(*state.current(), InspectorSelection::Resource(2, b"Clock".to_vec()));
    // the latent object selection is untouched by target switches
    assert_eq!(state.selected_entities.len(), 3);
    assert_eq!(state.selected_entities.get(0), 11);
    assert_eq!(state.selected_entities.get(1), 22);
    assert_eq!(state.selected_entities.get(2), 33);
    // switching back to the selection variant shows the same objects
    state.select(&vec![11, 22, 33]);
    assert_eq!(*state.current(), InspectorSelection::Entities);
    assert_eq!(state.selected_entities.len(), 3);
}

#[test]
fn selection_accumulates_clicks_in_order_without_duplicates() {
    let mut state = UiState::new();
    state.hierarchy_click(9, false);
    state.hierarchy_click(4, true);
    state.hierarchy_click(9, true);
    assert_eq!(state.selected_entities.len(), 2);
    assert_eq!(state.selected_entities.get(0), 9);
    assert_eq!(state.selected_entities.get(1), 4);
    // a plain click replaces the whole selection
    state.hierarchy_click(4, false);
    assert_eq!(state.selected_entities.len(), 1);
    assert_eq!(state.selected_entities.get(0), 4);
    // selecting an empty sequence deselects
    state.select(&vec![]);
    assert_eq!(state.selected_entities.len(), 0);
}

#[test]
fn frame_pass_renders_tabs_and_records_viewport() {
    let mut state = UiState::new();
    let registry = vec![registration(1, "Time", true, false)];
    let rect = UiRect { x: 5, y: 6, width: 70, height: 80 };
    let out = state.ui(&registry, &Vec::new(), &no_clicks(rect));
    assert_eq!(
        out.rendered,
        vec![
            PanelKind::Hierarchy,
            PanelKind::GameView,
            PanelKind::Resources,
            PanelKind::Assets,
            PanelKind::Inspector,
        ]
    );
    assert_eq!(state.viewport_rect, Some(rect));
    assert_eq!(out.resource_rows.len(), 1);
    assert!(out.asset_sections.is_empty());
    // with nothing selected the inspector shows the empty shared view
    assert_eq!(out.inspector, Some(InspectorView::SharedComponents(vec![])));
}

#[test]
fn frame_pass_applies_clicks_to_the_selection() {
    let mut state = UiState::new();
    let registry = vec![
        registration(1, "Time", true, false),
        registration(2, "Ammo", true, false),
    ];
    let rect = UiRect { x: 0, y: 0, width: 10, height: 10 };

    let mut input = no_clicks(rect);
    input.hierarchy_click = Some(HierarchyClick { object: 3, additive: false });
    state.ui(&registry, &Vec::new(), &input);
    assert_eq!(*state.current(), InspectorSelection::Entities);
    assert_eq!(state.selected_entities.get(0), 3);

    let mut input = no_clicks(rect);
    input.resource_click = Some(1);
    let out = state.ui(&registry, &Vec::new(), &input);
    assert_eq!(out.resource_rows[1].short_name, b"Time".to_vec());
    assert_eq!(*state.current(), InspectorSelection::Resource(1, b"Time".to_vec()));
    // the object selection stayed latent through the resource click
    assert_eq!(state.selected_entities.len(), 1);
}

#[test]
fn show_ui_renders_nothing_while_mode_is_off() {
    let mut state = UiState::new();
    let registry = vec![registration(1, "Time", true, false)];
    let rect = UiRect { x: 1, y: 1, width: 2, height: 2 };
    let off = EditorResource(false);
    let out = show_ui(&mut state, &off, &registry, &Vec::new(), &no_clicks(rect));
    assert!(out.is_none());
    assert_eq!(state.viewport_rect, None);

    let on = EditorResource(true);
    let out = show_ui(&mut state, &on, &registry, &Vec::new(), &no_clicks(rect));
    assert_eq!(out.unwrap().rendered.len(), 5);
    assert_eq!(state.viewport_rect, Some(rect));
}

#[test]
fn dock_ops_through_the_ui_state_keep_every_tab() {
    let mut state = UiState::new();
    let ops = vec![overlay_editor::dock::DockOp::MoveTab {
        src_leaf: 3,
        src_tab: 0,
        dst_leaf: 0,
        dst_pos: 0,
    }];
    let closed = state.apply_dock_ops(&ops);
    assert!(closed.is_empty());
    let tabs = state.tree.tabs_in_order();
    assert_eq!(tabs.len(), 5);
    assert_eq!(tabs[0], PanelKind::Inspector);
}

#[test]
fn empty_enumerations_render_empty_panels() {
    let mut sel = InspectorSelection::Entities;
    let rows = select_resource(&Vec::new(), &mut sel, None);
    assert!(rows.is_empty());
    let sections = select_asset(&Vec::new(), &Vec::new(), &mut sel, None);
    assert!(sections.is_empty());
    assert_eq!(sel, InspectorSelection::Entities);
    // clicking into an empty listing is a silent no-op
    select_resource(&Vec::new(), &mut sel, Some(0));
    assert_eq!(sel, InspectorSelection::Entities);
}

#[test]
fn new_state_starts_with_defaults() {
    let state = UiState::new();
    assert_eq!(*state.current(), InspectorSelection::Entities);
    assert_eq!(state.selected_entities.len(), 0);
    assert!(state.viewport_rect.is_none());
    assert_eq!(state.gizmo_mode, overlay_editor::gizmo::GizmoMode::Translate);
    assert_eq!(state.tree.tabs_in_order().len(), 5);
}

#[test]
fn property_store_keeps_the_latest_write() {
    let mut store = PropertyStore::new();
    assert_eq!(store.get(1, 2), None);
    store.set(1, 2, 10);
    store.set(1, 2, 20);
    assert_eq!(store.get(1, 2), Some(20));
    store.set(1, 3, 30);
    assert_eq!(store.get(1, 2), Some(20));
    assert_eq!(store.get(1, 3), Some(30));
}

#[test]
fn inspector_shows_pre_click_state_when_it_renders_first() {
    let mut state = UiState::new();
    // drag the inspector tab to the front of the first leaf, so it renders
    // before the resource panel
    let ops = vec![overlay_editor::dock::DockOp::MoveTab {
        src_leaf: 3,
        src_tab: 0,
        dst_leaf: 0,
        dst_pos: 0,
    }];
    state.apply_dock_ops(&ops);
    assert_eq!(state.tree.tabs_in_order()[0], PanelKind::Inspector);

    let registry = vec![registration(1, "Time", true, false)];
    let mut input = no_clicks(UiRect { x: 0, y: 0, width: 10, height: 10 });
    input.resource_click = Some(0);
    let out = state.ui(&registry, &Vec::new(), &input);
    // the click took effect on the frame's state ...
    assert_eq!(*state.current(), InspectorSelection::Resource(1, b"Time".to_vec()));
    // ... but the inspector had already rendered the pre-click state
    assert_eq!(out.inspector, Some(InspectorView::SharedComponents(vec![])));
}
