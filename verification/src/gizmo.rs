//! Gizmo transform-editing protocol: which object the gizmo manipulates this
//! frame, which camera projection it uses, and how a completed interaction is
//! written back onto the object.

use vstd::prelude::*;
use crate::selection::SelectedEntities;

verus! {

/// The gizmo's manipulation mode; each dedicated key press overwrites the
/// mode unconditionally.
#[derive(Debug, Clone, Copy, PartialEq, Eq, Structural)]
pub enum GizmoMode {
    Translate,
    Rotate,
    Scale,
}

/// The bit patterns of a three-component binary32 vector.
#[derive(Debug, Clone, Copy, PartialEq, Eq, Structural)]
pub struct Vec3Bits {
    pub x: u32,
    pub y: u32,
    pub z: u32,
}

/// The bit patterns of a binary32 quaternion.
#[derive(Debug, Clone, Copy, PartialEq, Eq, Structural)]
pub struct QuatBits {
    pub x: u32,
    pub y: u32,
    pub z: u32,
    pub w: u32,
}

/// A spatial transform carried opaquely: the bit patterns of the host's
/// binary32 translation, rotation-quaternion and scale components.  The
/// editor never computes with these values, it only stores and replaces
/// them, so bit-level identity is the right notion of equality.
#[derive(Debug, Clone, Copy, PartialEq, Eq, Structural)]
pub struct Transform3 {
    pub translation: Vec3Bits,
    pub rotation: QuatBits,
    pub scale: Vec3Bits,
}

/// Which camera lookup the gizmo uses this frame.
#[derive(Debug, Clone, Copy, PartialEq, Eq, Structural)]
pub enum CameraSource {
    /// The main camera with its primary (perspective or orthographic)
    /// projection.
    Primary,
    /// Fallback: a main camera that only carries an orthographic projection.
    OrthographicFallback,
}

/// The per-frame decision of the gizmo controller.
#[derive(Debug, Clone, Copy, PartialEq, Eq, Structural)]
pub enum GizmoPlan {
    /// Draw no gizmo this frame: not exactly one object is selected, or no
    /// main camera with a usable projection exists.
    Skip,
    /// Manipulate this object, using this camera lookup.
    Draw { source: CameraSource, object: u64 },
}

/// Decide whether and on which object the gizmo runs this frame.
///
/// The single-selection gate comes first: with zero or several selected
/// objects the gizmo is silently skipped before any camera or matrix work.
/// Otherwise the primary camera lookup is preferred and the
/// orthographic-only lookup is the fallback; with neither the frame is
/// skipped silently.
pub fn gizmo_plan(
    selected: &SelectedEntities,
    has_primary_camera: bool,
    has_orthographic_camera: bool,
) -> (r: GizmoPlan)
    ensures
        (r is Draw) <==> (selected@.len() == 1 && (has_primary_camera
            || has_orthographic_camera)),
        r is Draw ==> r->object == selected@[0],
        r is Draw ==> (r->source == (if has_primary_camera {
            CameraSource::Primary
        } else {
            CameraSource::OrthographicFallback
        })),
{
    if selected.len() != 1 {
        return GizmoPlan::Skip;
    }
    let object = selected.get(0);
    if has_primary_camera {
        GizmoPlan::Draw { source: CameraSource::Primary, object }
    } else if has_orthographic_camera {
        GizmoPlan::Draw { source: CameraSource::OrthographicFallback, object }
    } else {
        GizmoPlan::Skip
    }
}

/// Apply the gizmo's outcome to the selected object's transform.
///
/// A completed interaction replaces the transform wholesale with the absolute
/// result the gizmo returned; it is never composed with the previous value.
/// A frame without interaction, or an object without a transform, leaves the
/// transform untouched.
pub fn apply_gizmo_result(current: Transform3, result: Option<Transform3>) -> (r: Transform3)
    ensures
        result is Some ==> r == result->Some_0,
        result is None ==> r == current,
{
    match result {
        Some(new_transform) => new_transform,
        None => current,
    }
}

/// One frame of the gizmo-mode key bindings: the three dedicated keys are
/// polled in the fixed order rotate, translate, scale, and each pressed key
/// overwrites the mode, so a later key in that order wins the frame.
pub fn set_gizmo_mode(
    mode: &mut GizmoMode,
    rotate_pressed: bool,
    translate_pressed: bool,
    scale_pressed: bool,
)
    ensures
        *final(mode) == (if scale_pressed {
            GizmoMode::Scale
        } else if translate_pressed {
            GizmoMode::Translate
        } else if rotate_pressed {
            GizmoMode::Rotate
        } else {
            *old(mode)
        }),
{
    if rotate_pressed {
        *mode = GizmoMode::Rotate;
    }
    if translate_pressed {
        *mode = GizmoMode::Translate;
    }
    if scale_pressed {
        *mode = GizmoMode::Scale;
    }
}

} // verus!
