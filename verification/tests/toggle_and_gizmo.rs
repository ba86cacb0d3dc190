use overlay_editor::input::{editor_input_system, run_toggle_frames};
use overlay_editor::gizmo::{
    apply_gizmo_result, gizmo_plan, set_gizmo_mode, CameraSource, GizmoMode, GizmoPlan, QuatBits,
    Transform3, Vec3Bits,
};
use overlay_editor::selection::SelectedEntities;
use overlay_editor::{setup, EditorResource, SetupOutcome};

fn transform(seed: u32) -> Transform3 {
    Transform3 {
        translation: Vec3Bits { x: seed, y: seed + 1, z: seed + 2 },
        rotation: QuatBits { x: seed + 3, y: seed + 4, z: seed + 5, w: seed + 6 },
        scale: Vec3Bits { x: seed + 7, y: seed + 8, z: seed + 9 },
    }
}

#[test]
fn toggle_flips_on_press_edge_only() {
    let mut editor = EditorResource(false);
    editor_input_system(&mut editor, false);
    assert!(!editor.0);
    editor_input_system(&mut editor, true);
    assert!(editor.0);
    editor_input_system(&mut editor, false);
    assert!(editor.0);
    editor_input_system(&mut editor, true);
    assert!(!editor.0);
}

#[test]
fn toggle_parity_over_sequences() {
    // the flag equals the initial value xor (number of presses mod 2)
    for initial in [false, true] {
        let frames = vec![true, false, true, true, false, true];
        let presses = frames.iter().filter(|p| **p).count();
        let mut editor = EditorResource(initial);
        run_toggle_frames(&mut editor, &frames);
        assert_eq!(editor.0, initial ^ (presses % 2 == 1));
    }
    let mut editor = EditorResource(false);
    run_toggle_frames(&mut editor, &vec![]);
    assert!(!editor.0);
    run_toggle_frames(&mut editor, &vec![true; 101]);
    assert!(editor.0);
}

#[test]
fn startup_requires_exactly_one_camera() {
    assert!(matches!(setup(0), SetupOutcome::Abort));
    assert!(matches!(setup(1), SetupOutcome::Proceed));
    assert!(matches!(setup(2), SetupOutcome::Abort));
}

#[test]
fn gizmo_mode_keys_overwrite_unconditionally() {
    let mut mode = GizmoMode::Translate;
    set_gizmo_mode(&mut mode, true, false, false);
    assert_eq!(mode, GizmoMode::Rotate);
    set_gizmo_mode(&mut mode, false, false, false);
    assert_eq!(mode, GizmoMode::Rotate);
    set_gizmo_mode(&mut mode, false, true, false);
    assert_eq!(mode, GizmoMode::Translate);
    set_gizmo_mode(&mut mode, false, false, true);
    assert_eq!(mode, GizmoMode::Scale);
    // scale wins when several keys land in one frame
    set_gizmo_mode(&mut mode, true, true, true);
    assert_eq!(mode, GizmoMode::Scale);
}

#[test]
fn gizmo_runs_only_with_single_selection() {
    let mut none_selected = SelectedEntities::new();
    assert_eq!(gizmo_plan(&none_selected, true, true), GizmoPlan::Skip);

    none_selected.select_one(7);
    let one = none_selected;
    assert_eq!(
        gizmo_plan(&one, true, false),
        GizmoPlan::Draw { source: CameraSource::Primary, object: 7 }
    );

    let mut two = SelectedEntities::new();
    two.add_click(7);
    two.add_click(8);
    assert_eq!(gizmo_plan(&two, true, true), GizmoPlan::Skip);
}

#[test]
fn gizmo_prefers_primary_camera_and_falls_back() {
    let mut one = SelectedEntities::new();
    one.select_one(42);
    assert_eq!(
        gizmo_plan(&one, true, true),
        GizmoPlan::Draw { source: CameraSource::Primary, object: 42 }
    );
    assert_eq!(
        gizmo_plan(&one, false, true),
        GizmoPlan::Draw { source: CameraSource::OrthographicFallback, object: 42 }
    );
    assert_eq!(gizmo_plan(&one, false, false), GizmoPlan::Skip);
}

#[test]
fn gizmo_result_replaces_transform_exactly() {
    // round trip: the object ends up with exactly the gizmo's result,
    // not the old transform composed with it
    let before = transform(100);
    let result = transform(900);
    assert_eq!(apply_gizmo_result(before, Some(result)), result);
    assert_eq!(apply_gizmo_result(before, None), before);
}
