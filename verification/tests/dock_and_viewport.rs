use overlay_editor::dock::{clear_background, title, DockOp, DockTree, PanelKind};
use overlay_editor::viewport::{set_camera_viewport, UiRect, Viewport, WindowInfo};

fn kind_counts(tabs: &[PanelKind]) -> [usize; 5] {
    let mut counts = [0usize; 5];
    for t in tabs {
        let k = match t {
            PanelKind::GameView => 0,
            PanelKind::Hierarchy => 1,
            PanelKind::Resources => 2,
            PanelKind::Assets => 3,
            PanelKind::Inspector => 4,
        };
        counts[k] += 1;
    }
    counts
}

#[test]
fn default_layout_renders_all_five_tabs() {
    let tree = DockTree::new_default();
    let tabs = tree.tabs_in_order();
    assert_eq!(
        tabs,
        vec![
            PanelKind::Hierarchy,
            PanelKind::GameView,
            PanelKind::Resources,
            PanelKind::Assets,
            PanelKind::Inspector,
        ]
    );
    assert_eq!(tree.leaf_count(), 4);
    assert_eq!(tree.leaf_len(0), 1);
    assert_eq!(tree.leaf_len(2), 2);
}

#[test]
fn titles_and_backgrounds() {
    assert_eq!(title(PanelKind::GameView), "GameView");
    assert_eq!(title(PanelKind::Hierarchy), "Hierarchy");
    assert_eq!(title(PanelKind::Resources), "Resources");
    assert_eq!(title(PanelKind::Assets), "Assets");
    assert_eq!(title(PanelKind::Inspector), "Inspector");
    assert!(!clear_background(PanelKind::GameView));
    assert!(clear_background(PanelKind::Inspector));
}

#[test]
fn moving_tabs_never_loses_or_duplicates_them() {
    // any sequence of drag/drop mutations keeps every tab exactly once
    let mut tree = DockTree::new_default();
    let ops = vec![
        DockOp::MoveTab { src_leaf: 2, src_tab: 1, dst_leaf: 3, dst_pos: 0 },
        DockOp::MoveToEdge {
            src_leaf: 0,
            src_tab: 0,
            dst_leaf: 1,
            horizontal: false,
            fraction_permille: 500,
            before: true,
        },
        DockOp::MoveTab { src_leaf: 9, src_tab: 0, dst_leaf: 0, dst_pos: 0 },
        DockOp::MoveTab { src_leaf: 1, src_tab: 0, dst_leaf: 0, dst_pos: 0 },
    ];
    let closed = tree.apply_ops(&ops);
    assert!(closed.is_empty());
    let tabs = tree.tabs_in_order();
    assert_eq!(tabs.len(), 5);
    assert_eq!(kind_counts(&tabs), [1, 1, 1, 1, 1]);
}

#[test]
fn moving_the_only_tab_collapses_its_leaf() {
    let mut tree = DockTree::new_default();
    // leaf 0 holds only the hierarchy tab; moving it away removes the leaf
    tree.move_tab(0, 0, 2, 0);
    assert_eq!(tree.leaf_count(), 3);
    let tabs = tree.tabs_in_order();
    assert_eq!(tabs.len(), 5);
    assert_eq!(kind_counts(&tabs), [1, 1, 1, 1, 1]);
    // the hierarchy tab now leads the former resources leaf
    assert_eq!(
        tabs,
        vec![
            PanelKind::GameView,
            PanelKind::Hierarchy,
            PanelKind::Resources,
            PanelKind::Assets,
            PanelKind::Inspector,
        ]
    );
}

#[test]
fn closing_tabs_removes_them_until_the_last_one() {
    let mut tree = DockTree::new_default();
    assert_eq!(tree.close_tab(2, 1), Some(PanelKind::Assets));
    let tabs = tree.tabs_in_order();
    assert_eq!(tabs.len(), 4);
    assert_eq!(kind_counts(&tabs), [1, 1, 1, 0, 1]);

    // close everything but one tab; the tree never becomes empty
    assert_eq!(tree.close_tab(0, 0), Some(PanelKind::Hierarchy));
    assert_eq!(tree.close_tab(0, 0), Some(PanelKind::GameView));
    assert_eq!(tree.close_tab(0, 0), Some(PanelKind::Resources));
    assert_eq!(tree.leaf_count(), 1);
    assert_eq!(tree.leaf_len(0), 1);
    // the very last tab cannot be closed
    assert_eq!(tree.close_tab(0, 0), None);
    assert_eq!(tree.tabs_in_order(), vec![PanelKind::Inspector]);
}

#[test]
fn closed_tabs_are_reported_by_the_op_driver() {
    let mut tree = DockTree::new_default();
    let ops = vec![
        DockOp::CloseTab { leaf: 2, tab: 0 },
        DockOp::CloseTab { leaf: 7, tab: 0 },
        DockOp::CloseTab { leaf: 2, tab: 0 },
    ];
    let closed = tree.apply_ops(&ops);
    assert_eq!(closed, vec![PanelKind::Resources, PanelKind::Assets]);
    let tabs = tree.tabs_in_order();
    assert_eq!(kind_counts(&tabs), [1, 1, 0, 0, 1]);
}

#[test]
fn viewport_uses_full_window_when_inspection_is_off() {
    let window = WindowInfo { physical_width: 1920, physical_height: 1080, scale_num: 2, scale_den: 1 };
    let rect = UiRect { x: 10, y: 20, width: 100, height: 50 };
    let v = set_camera_viewport(true, false, Some(rect), &window);
    assert_eq!(
        v,
        Some(Viewport { physical_x: 0, physical_y: 0, physical_width: 1920, physical_height: 1080 })
    );
    // the rectangle is ignored entirely while the mode is off
    let v2 = set_camera_viewport(true, false, None, &window);
    assert_eq!(v, v2);
}

#[test]
fn viewport_scales_rect_to_physical_pixels() {
    // rect {10, 20, 100, 50} at scale factor 2.0 gives {20, 40, 200, 100}
    let window = WindowInfo { physical_width: 1920, physical_height: 1080, scale_num: 2, scale_den: 1 };
    let rect = UiRect { x: 10, y: 20, width: 100, height: 50 };
    let v = set_camera_viewport(true, true, Some(rect), &window);
    assert_eq!(
        v,
        Some(Viewport { physical_x: 20, physical_y: 40, physical_width: 200, physical_height: 100 })
    );
    // a fractional scale factor of 1.25 carried as 5/4
    let window = WindowInfo { physical_width: 1000, physical_height: 800, scale_num: 5, scale_den: 4 };
    let v = set_camera_viewport(true, true, Some(rect), &window);
    assert_eq!(
        v,
        Some(Viewport { physical_x: 12, physical_y: 25, physical_width: 125, physical_height: 62 })
    );
}

#[test]
fn viewport_skips_frames_without_camera_or_rect() {
    let window = WindowInfo { physical_width: 640, physical_height: 480, scale_num: 1, scale_den: 1 };
    let rect = UiRect { x: 1, y: 2, width: 3, height: 4 };
    assert_eq!(set_camera_viewport(false, true, Some(rect), &window), None);
    assert_eq!(set_camera_viewport(false, false, Some(rect), &window), None);
    assert_eq!(set_camera_viewport(true, true, None, &window), None);
}
