//! Viewport synchronizer: after the panels have drawn, recompute the render
//! camera's physical-pixel viewport from the on-screen region the viewport
//! panel claimed, or use the full window when inspection mode is off.

use vstd::prelude::*;

verus! {

/// Where the viewport panel was drawn this frame, in logical UI points.
#[derive(Debug, Clone, Copy, PartialEq, Eq, Structural)]
pub struct UiRect {
    pub x: u32,
    pub y: u32,
    pub width: u32,
    pub height: u32,
}

/// What the host knows about the primary window this frame.  The display
/// scale factor is carried as the exact rational `scale_num / scale_den`
/// (for example 2.0 as 2/1, 1.25 as 5/4).
#[derive(Debug, Clone, Copy, PartialEq, Eq, Structural)]
pub struct WindowInfo {
    pub physical_width: u32,
    pub physical_height: u32,
    pub scale_num: u32,
    pub scale_den: u32,
}

impl WindowInfo {
    pub open spec fn wf(self) -> bool {
        self.scale_den > 0
    }
}

/// The physical-pixel viewport handed back to the camera; the depth range is
/// always the full `[0, 1]` range and is not represented.
#[derive(Debug, Clone, Copy, PartialEq, Eq, Structural)]
pub struct Viewport {
    pub physical_x: u64,
    pub physical_y: u64,
    pub physical_width: u64,
    pub physical_height: u64,
}

/// A logical length scaled to physical pixels, rounded towards zero.
pub open spec fn scaled(v: u32, w: WindowInfo) -> u64
    recommends
        w.wf(),
{
    ((v * w.scale_num) as int / w.scale_den as int) as u64
}

fn scale_len(v: u32, w: &WindowInfo) -> (r: u64)
    requires
        w.wf(),
    ensures
        r == scaled(v, *w),
{
    proof {
        assert(v as u64 * w.scale_num as u64 <= 0xffff_ffffu64 * 0xffff_ffffu64)
            by (nonlinear_arith)
            requires
                v <= u32::MAX,
                w.scale_num <= u32::MAX,
        ;
    }
    (v as u64 * w.scale_num as u64) / w.scale_den as u64
}

/// The viewport the main camera must use this frame.
///
/// With inspection mode off the camera covers the whole window, whatever the
/// panel rectangle says; with it on the camera covers exactly the panel
/// rectangle scaled to physical pixels.  When inspection mode is on but the
/// viewport panel has not drawn yet, or when no main camera exists, nothing
/// is returned and the camera is left alone this frame.
pub fn set_camera_viewport(
    has_main_camera: bool,
    inspection_on: bool,
    viewport_rect: Option<UiRect>,
    window: &WindowInfo,
) -> (r: Option<Viewport>)
    requires
        window.wf(),
    ensures
        !has_main_camera ==> r is None,
        has_main_camera && !inspection_on ==> r == Some(Viewport {
            physical_x: 0u64,
            physical_y: 0u64,
            physical_width: window.physical_width as u64,
            physical_height: window.physical_height as u64,
        }),
        has_main_camera && inspection_on && viewport_rect is None ==> r is None,
        has_main_camera && inspection_on && viewport_rect is Some ==> r == Some(Viewport {
            physical_x: scaled(viewport_rect->Some_0.x, *window),
            physical_y: scaled(viewport_rect->Some_0.y, *window),
            physical_width: scaled(viewport_rect->Some_0.width, *window),
            physical_height: scaled(viewport_rect->Some_0.height, *window),
        }),
{
    if !has_main_camera {
        return None;
    }
    if !inspection_on {
        return Some(Viewport {
            physical_x: 0u64,
            physical_y: 0u64,
            physical_width: window.physical_width as u64,
            physical_height: window.physical_height as u64,
        });
    }
    match viewport_rect {
        None => None,
        Some(rect) => Some(Viewport {
            physical_x: scale_len(rect.x, window),
            physical_y: scale_len(rect.y, window),
            physical_width: scale_len(rect.width, window),
            physical_height: scale_len(rect.height, window),
        }),
    }
}

} // verus!
