//! Crop rectangle derivation: every monitor receives a crop sized after the
//! reference dimensions, swapped for sideways monitors, at the monitor's own
//! verbatim position.

use vstd::prelude::*;

use crate::domain::MonitorInfo;
use crate::domain::MonitorInfoV;
use crate::domain::Vector;
use crate::domain::is_sideways;

verus! {

/// The region of the resized source image assigned to one monitor.
#[derive(Clone, Copy, PartialEq, Eq, Structural, Debug)]
pub struct CropRect {
    pub width: u16,
    pub height: u16,
    pub x: u16,
    pub y: u16,
}

/// The crop a monitor receives: the reference dimensions as width and
/// height — swapped when the monitor is sideways — at the monitor's own
/// position, never footprint-adjusted. The size is deliberately the
/// reference monitor's, not the monitor's own: mixed-resolution layouts
/// keep this observed behavior.
pub open spec fn spec_crop(m: MonitorInfoV, reference: Vector) -> CropRect {
    if is_sideways(m.rotation) {
        CropRect { width: reference.y, height: reference.x, x: m.position.x, y: m.position.y }
    } else {
        CropRect { width: reference.x, height: reference.y, x: m.position.x, y: m.position.y }
    }
}

/// Derives the rotation-aware crop rectangle for one monitor from the
/// shared reference dimensions.
pub fn compute_crop(monitor: &MonitorInfo, reference: Vector) -> (crop: CropRect)
    ensures
        crop == spec_crop(monitor@, reference),
{
    let mut width = reference.x;
    let mut height = reference.y;
    if monitor.rotation == 90 || monitor.rotation == 270 {
        height = width;
        width = reference.y;
    }
    CropRect { width, height, x: monitor.position.x, y: monitor.position.y }
}

} // verus!
