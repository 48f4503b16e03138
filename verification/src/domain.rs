//! Core data model: sizes and positions, one record per monitor, and the
//! rotation table that normalizes compositor transform codes.

use vstd::prelude::*;

verus! {

/// A pair of unsigned 16-bit magnitudes, used both as a point and as a size.
#[derive(Clone, Copy, PartialEq, Eq, Structural, Debug)]
pub struct Vector {
    pub x: u16,
    pub y: u16,
}

/// One physical display: its name, its top-left origin on the virtual
/// canvas, its native (never pre-rotated) pixel dimensions, and its
/// rotation in degrees, one of 0, 90, 180 or 270.
#[derive(Clone, Debug)]
pub struct MonitorInfo {
    pub name: String,
    pub position: Vector,
    pub rotation: u16,
    pub dimensions: Vector,
}

/// Mathematical image of a `MonitorInfo`: the name as a character sequence,
/// the numeric fields as they are.
pub struct MonitorInfoV {
    pub name: Seq<char>,
    pub position: Vector,
    pub rotation: u16,
    pub dimensions: Vector,
}

impl View for MonitorInfo {
    type V = MonitorInfoV;

    open spec fn view(&self) -> MonitorInfoV {
        MonitorInfoV {
            name: self.name@,
            position: self.position,
            rotation: self.rotation,
            dimensions: self.dimensions,
        }
    }
}

impl DeepView for MonitorInfo {
    type V = MonitorInfoV;

    open spec fn deep_view(&self) -> MonitorInfoV {
        self.view()
    }
}

/// A display is sideways when its rotation is 90 or 270 degrees; its
/// on-canvas footprint then swaps the native width and height.
pub open spec fn is_sideways(rotation: u16) -> bool {
    rotation == 90 || rotation == 270
}

/// Horizontal extent the monitor occupies on the canvas.
pub open spec fn footprint_x(m: MonitorInfoV) -> u16 {
    if is_sideways(m.rotation) {
        m.dimensions.y
    } else {
        m.dimensions.x
    }
}

/// Vertical extent the monitor occupies on the canvas.
pub open spec fn footprint_y(m: MonitorInfoV) -> u16 {
    if is_sideways(m.rotation) {
        m.dimensions.x
    } else {
        m.dimensions.y
    }
}

/// Rotation table for compositor transform codes: codes 0 to 3 are the four
/// cardinal rotations, codes 4 to 7 their flipped variants with the same
/// angle, and every other code falls back to 0 degrees.
pub open spec fn spec_rotation_of_code(code: u16) -> u16 {
    if code == 1 || code == 5 {
        90
    } else if code == 2 || code == 6 {
        180
    } else if code == 3 || code == 7 {
        270
    } else {
        0
    }
}

/// Maps a transform code to its rotation angle in degrees.
pub fn rotation_of_code(code: u16) -> (rotation: u16)
    ensures
        rotation == spec_rotation_of_code(code),
{
    match code {
        1 | 5 => 90,
        2 | 6 => 180,
        3 | 7 => 270,
        _ => 0,
    }
}

} // verus!
