//! Layout geometry: the canvas that a set of monitors spans, and the
//! reference monitor whose native resolution sizes every crop.

use vstd::prelude::*;

use crate::domain::MonitorInfo;
use crate::domain::MonitorInfoV;
use crate::domain::Vector;
use crate::domain::footprint_x;
use crate::domain::footprint_y;

verus! {

/// Rightmost canvas pixel column the monitor reaches: its x position plus
/// its rotation-adjusted horizontal footprint.
pub open spec fn extent_x(m: MonitorInfoV) -> int {
    m.position.x + footprint_x(m)
}

/// Bottom canvas pixel row the monitor reaches.
pub open spec fn extent_y(m: MonitorInfoV) -> int {
    m.position.y + footprint_y(m)
}

/// Every monitor's extents stay representable in sixteen bits, so the
/// canvas does too.
pub open spec fn extents_fit_u16(ms: Seq<MonitorInfoV>) -> bool {
    forall|i: int|
        0 <= i < ms.len() ==> extent_x(#[trigger] ms[i]) <= u16::MAX && extent_y(ms[i])
            <= u16::MAX
}

/// Width of the bounding canvas: the largest horizontal extent of any
/// monitor, and 0 when there is none.
pub open spec fn spec_canvas_x(ms: Seq<MonitorInfoV>) -> int
    decreases ms.len(),
{
    if ms.len() == 0 {
        0
    } else {
        let prev = spec_canvas_x(ms.drop_last());
        let e = extent_x(ms.last());
        if e > prev {
            e
        } else {
            prev
        }
    }
}

/// Height of the bounding canvas.
pub open spec fn spec_canvas_y(ms: Seq<MonitorInfoV>) -> int
    decreases ms.len(),
{
    if ms.len() == 0 {
        0
    } else {
        let prev = spec_canvas_y(ms.drop_last());
        let e = extent_y(ms.last());
        if e > prev {
            e
        } else {
            prev
        }
    }
}

/// Computes the bounding box that encloses every monitor's on-canvas
/// footprint, seeded at `(0, 0)`; an empty layout yields `(0, 0)`.
pub fn get_bounding_box(monitors: &Vec<MonitorInfo>) -> (canvas: Vector)
    requires
        extents_fit_u16(monitors.deep_view()),
    ensures
        canvas.x == spec_canvas_x(monitors.deep_view()),
        canvas.y == spec_canvas_y(monitors.deep_view()),
{
    let ghost dv = monitors.deep_view();
    let mut info = Vector { x: 0, y: 0 };
    let mut i: usize = 0;
    proof {
        assert(dv.take(0) =~= Seq::<MonitorInfoV>::empty());
    }
    while i < monitors.len()
        invariant
            dv == monitors.deep_view(),
            extents_fit_u16(dv),
            dv.len() == monitors.len(),
            0 <= i <= dv.len(),
            info.x == spec_canvas_x(dv.take(i as int)),
            info.y == spec_canvas_y(dv.take(i as int)),
        decreases monitors.len() - i,
    {
        let m = &monitors[i];
        proof {
            assert(dv[i as int] == monitors@[i as int].deep_view());
            assert(extent_x(dv[i as int]) <= u16::MAX && extent_y(dv[i as int]) <= u16::MAX);
        }
        let x_extent: u16;
        let y_extent: u16;
        if m.rotation == 270 || m.rotation == 90 {
            x_extent = m.position.x + m.dimensions.y;
            y_extent = m.position.y + m.dimensions.x;
        } else {
            x_extent = m.position.x + m.dimensions.x;
            y_extent = m.position.y + m.dimensions.y;
        }
        if x_extent > info.x {
            info.x = x_extent;
        }
        if y_extent > info.y {
            info.y = y_extent;
        }
        i += 1;
        proof {
            assert(dv.take(i as int).drop_last() =~= dv.take(i - 1));
            assert(dv.take(i as int).last() == dv[i - 1]);
        }
    }
    proof {
        assert(dv.take(dv.len() as int) =~= dv);
    }
    info
}

/// Reference selection state over a prefix of the layout: the best
/// rotation-adjusted horizontal footprint seen so far, and the native
/// dimensions of the monitor that achieved it. A later monitor takes over
/// only with a strictly larger footprint, so the first best wins ties.
pub open spec fn spec_reference_state(ms: Seq<MonitorInfoV>) -> (u16, Vector)
    decreases ms.len(),
{
    if ms.len() == 0 {
        (0u16, Vector { x: 0, y: 0 })
    } else {
        let prev = spec_reference_state(ms.drop_last());
        let fx = footprint_x(ms.last());
        if fx > prev.0 {
            (fx, ms.last().dimensions)
        } else {
            prev
        }
    }
}

/// Native dimensions of the selected reference monitor; `(0, 0)` when the
/// layout is empty or every footprint is zero.
pub open spec fn spec_reference_dimensions(ms: Seq<MonitorInfoV>) -> Vector {
    spec_reference_state(ms).1
}

/// Selects the monitor with the strictly largest rotation-adjusted
/// horizontal footprint (first one wins ties) and returns its unmodified
/// native dimensions; an empty layout yields `(0, 0)`.
pub fn get_largest_monitor_dimensions(monitors: &Vec<MonitorInfo>) -> (dims: Vector)
    ensures
        dims == spec_reference_dimensions(monitors.deep_view()),
{
    let ghost dv = monitors.deep_view();
    let mut best_fx: u16 = 0;
    let mut best = Vector { x: 0, y: 0 };
    let mut i: usize = 0;
    proof {
        assert(dv.take(0) =~= Seq::<MonitorInfoV>::empty());
    }
    while i < monitors.len()
        invariant
            dv == monitors.deep_view(),
            dv.len() == monitors.len(),
            0 <= i <= dv.len(),
            (best_fx, best) == spec_reference_state(dv.take(i as int)),
        decreases monitors.len() - i,
    {
        let m = &monitors[i];
        proof {
            assert(dv[i as int] == monitors@[i as int].deep_view());
        }
        let fx: u16 = if m.rotation == 270 || m.rotation == 90 {
            m.dimensions.y
        } else {
            m.dimensions.x
        };
        proof {
            assert(fx == footprint_x(dv[i as int]));
        }
        if fx > best_fx {
            best_fx = fx;
            best = m.dimensions;
        }
        i += 1;
        proof {
            assert(dv.take(i as int).drop_last() =~= dv.take(i - 1));
            assert(dv.take(i as int).last() == dv[i - 1]);
        }
    }
    proof {
        assert(dv.take(dv.len() as int) =~= dv);
    }
    best
}

/// On an empty layout both derived values degrade to zero: the canvas is
/// `(0, 0)` and so are the reference dimensions.
pub proof fn lemma_empty_layout_degrades()
    ensures
        spec_canvas_x(Seq::<MonitorInfoV>::empty()) == 0,
        spec_canvas_y(Seq::<MonitorInfoV>::empty()) == 0,
        spec_reference_dimensions(Seq::<MonitorInfoV>::empty()) == (Vector { x: 0, y: 0 }),
{
}

/// The canvas is a bounding box: it encloses every monitor's footprint, and
/// on a non-empty layout each of its sides is actually reached by some
/// monitor — the box is tight.
pub proof fn lemma_canvas_is_bounding_box(ms: Seq<MonitorInfoV>)
    ensures
        spec_canvas_x(ms) >= 0,
        spec_canvas_y(ms) >= 0,
        forall|i: int|
            0 <= i < ms.len() ==> extent_x(#[trigger] ms[i]) <= spec_canvas_x(ms) && extent_y(
                ms[i],
            ) <= spec_canvas_y(ms),
        ms.len() > 0 ==> exists|i: int|
            0 <= i < ms.len() && extent_x(#[trigger] ms[i]) == spec_canvas_x(ms),
        ms.len() > 0 ==> exists|i: int|
            0 <= i < ms.len() && extent_y(#[trigger] ms[i]) == spec_canvas_y(ms),
    decreases ms.len(),
{
    if ms.len() > 0 {
        lemma_canvas_is_bounding_box(ms.drop_last());
        assert forall|i: int|
            0 <= i < ms.len() implies extent_x(#[trigger] ms[i]) <= spec_canvas_x(ms) && extent_y(
            ms[i],
        ) <= spec_canvas_y(ms) by {
            if i < ms.len() - 1 {
                assert(ms.drop_last()[i] == ms[i]);
            }
        }
        let e_x = extent_x(ms.last());
        if e_x > spec_canvas_x(ms.drop_last()) {
            assert(extent_x(ms[ms.len() - 1]) == spec_canvas_x(ms));
        } else if ms.len() > 1 {
            let i = choose|i: int|
                0 <= i < ms.drop_last().len() && extent_x(#[trigger] ms.drop_last()[i])
                    == spec_canvas_x(ms.drop_last());
            assert(ms.drop_last()[i] == ms[i]);
            assert(extent_x(ms[i]) == spec_canvas_x(ms));
        } else {
            assert(extent_x(ms[0]) == spec_canvas_x(ms));
        }
        let e_y = extent_y(ms.last());
        if e_y > spec_canvas_y(ms.drop_last()) {
            assert(extent_y(ms[ms.len() - 1]) == spec_canvas_y(ms));
        } else if ms.len() > 1 {
            let i = choose|i: int|
                0 <= i < ms.drop_last().len() && extent_y(#[trigger] ms.drop_last()[i])
                    == spec_canvas_y(ms.drop_last());
            assert(ms.drop_last()[i] == ms[i]);
            assert(extent_y(ms[i]) == spec_canvas_y(ms));
        } else {
            assert(extent_y(ms[0]) == spec_canvas_y(ms));
        }
    }
}

/// Reference selection picks the first maximum: no monitor's
/// rotation-adjusted horizontal footprint exceeds the selected one, and
/// whenever any footprint is positive the selected monitor exists, its
/// native dimensions are what comes back, and every monitor before it has a
/// strictly smaller footprint — the first encountered wins ties.
pub proof fn lemma_reference_is_first_maximum(ms: Seq<MonitorInfoV>)
    ensures
        forall|i: int|
            0 <= i < ms.len() ==> footprint_x(#[trigger] ms[i]) <= spec_reference_state(ms).0,
        spec_reference_state(ms).0 > 0 ==> exists|i: int|
            0 <= i < ms.len() && footprint_x(#[trigger] ms[i]) == spec_reference_state(ms).0
                && ms[i].dimensions == spec_reference_state(ms).1 && (forall|j: int|
                0 <= j < i ==> footprint_x(#[trigger] ms[j]) < spec_reference_state(ms).0),
    decreases ms.len(),
{
    if ms.len() > 0 {
        lemma_reference_is_first_maximum(ms.drop_last());
        let prev = spec_reference_state(ms.drop_last());
        let fx = footprint_x(ms.last());
        assert forall|i: int|
            0 <= i < ms.len() implies footprint_x(#[trigger] ms[i]) <= spec_reference_state(
            ms,
        ).0 by {
            if i < ms.len() - 1 {
                assert(ms.drop_last()[i] == ms[i]);
            }
        }
        if spec_reference_state(ms).0 > 0 {
            if fx > prev.0 {
                let w = ms.len() - 1;
                assert(footprint_x(ms[w]) == spec_reference_state(ms).0);
                assert forall|j: int| 0 <= j < w implies footprint_x(#[trigger] ms[j])
                    < spec_reference_state(ms).0 by {
                    assert(ms.drop_last()[j] == ms[j]);
                }
            } else {
                let i = choose|i: int|
                    0 <= i < ms.drop_last().len() && footprint_x(#[trigger] ms.drop_last()[i])
                        == prev.0 && ms.drop_last()[i].dimensions == prev.1 && (forall|j: int|
                        0 <= j < i ==> footprint_x(#[trigger] ms.drop_last()[j]) < prev.0);
                assert(ms.drop_last()[i] == ms[i]);
                assert forall|j: int| 0 <= j < i implies footprint_x(#[trigger] ms[j])
                    < spec_reference_state(ms).0 by {
                    assert(ms.drop_last()[j] == ms[j]);
                    assert(footprint_x(ms.drop_last()[j]) < prev.0);
                }
                assert(footprint_x(ms[i]) == spec_reference_state(ms).0 && ms[i].dimensions
                    == spec_reference_state(ms).1);
            }
        }
    }
}

} // verus!
