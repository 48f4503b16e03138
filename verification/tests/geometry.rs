use wallsplit::CropRect;
use wallsplit::MonitorInfo;
use wallsplit::Vector;
use wallsplit::compute_crop;
use wallsplit::get_bounding_box;
use wallsplit::get_largest_monitor_dimensions;
use wallsplit::rotation_of_code;

fn monitor(name: &str, w: u16, h: u16, x: u16, y: u16, rotation: u16) -> MonitorInfo {
    MonitorInfo {
        name: name.to_owned(),
        position: Vector { x, y },
        rotation,
        dimensions: Vector { x: w, y: h },
    }
}

#[test]
fn rotation_table_all_codes() {
    let expected = [0u16, 90, 180, 270, 0, 90, 180, 270];
    for code in 0u16..=7 {
        assert_eq!(rotation_of_code(code), expected[code as usize]);
    }
    assert_eq!(rotation_of_code(8), 0);
    assert_eq!(rotation_of_code(100), 0);
    assert_eq!(rotation_of_code(u16::MAX), 0);
}

#[test]
fn canvas_two_unrotated_monitors() {
    let monitors = vec![
        monitor("a", 1920, 1080, 0, 0, 0),
        monitor("b", 1920, 1080, 1920, 0, 0),
    ];
    let canvas = get_bounding_box(&monitors);
    assert_eq!(canvas, Vector { x: 3840, y: 1080 });
}

#[test]
fn canvas_single_rotated_monitor() {
    let monitors = vec![monitor("a", 1920, 1080, 0, 0, 90)];
    let canvas = get_bounding_box(&monitors);
    assert_eq!(canvas, Vector { x: 1080, y: 1920 });
}

#[test]
fn canvas_rotation_270_also_swaps() {
    let monitors = vec![monitor("a", 1920, 1080, 100, 50, 270)];
    let canvas = get_bounding_box(&monitors);
    assert_eq!(canvas, Vector { x: 1180, y: 1970 });
}

#[test]
fn canvas_empty_layout_is_zero() {
    let monitors: Vec<MonitorInfo> = Vec::new();
    assert_eq!(get_bounding_box(&monitors), Vector { x: 0, y: 0 });
}

#[test]
fn reference_prefers_larger_horizontal_footprint() {
    // B is the higher-resolution monitor, but sideways its horizontal
    // footprint is only 1440, so A's 1920 wins and A's native size returns.
    let monitors = vec![
        monitor("a", 1920, 1080, 0, 0, 0),
        monitor("b", 2560, 1440, 1920, 0, 90),
    ];
    let dims = get_largest_monitor_dimensions(&monitors);
    assert_eq!(dims, Vector { x: 1920, y: 1080 });
}

#[test]
fn reference_returns_native_not_footprint() {
    // The sideways monitor wins (footprint 2560 > 1920) and its native,
    // unswapped dimensions come back.
    let monitors = vec![
        monitor("a", 1920, 1080, 0, 0, 0),
        monitor("b", 1440, 2560, 0, 0, 90),
    ];
    let dims = get_largest_monitor_dimensions(&monitors);
    assert_eq!(dims, Vector { x: 1440, y: 2560 });
}

#[test]
fn reference_first_wins_ties() {
    let monitors = vec![
        monitor("first", 1920, 1080, 0, 0, 0),
        monitor("second", 1920, 1200, 0, 0, 0),
    ];
    let dims = get_largest_monitor_dimensions(&monitors);
    assert_eq!(dims, Vector { x: 1920, y: 1080 });
}

#[test]
fn reference_empty_layout_is_zero() {
    let monitors: Vec<MonitorInfo> = Vec::new();
    assert_eq!(get_largest_monitor_dimensions(&monitors), Vector { x: 0, y: 0 });
}

#[test]
fn crop_unrotated_keeps_reference_size() {
    let m = monitor("a", 1920, 1080, 0, 0, 0);
    let crop = compute_crop(&m, Vector { x: 1920, y: 1080 });
    assert_eq!(crop, CropRect { width: 1920, height: 1080, x: 0, y: 0 });
}

#[test]
fn crop_rotated_swaps_width_and_height() {
    let m = monitor("a", 1920, 1080, 0, 0, 90);
    let crop = compute_crop(&m, Vector { x: 1920, y: 1080 });
    assert_eq!(crop, CropRect { width: 1080, height: 1920, x: 0, y: 0 });
}

#[test]
fn crop_position_is_never_footprint_adjusted() {
    let m = monitor("a", 1920, 1080, 1920, 480, 270);
    let crop = compute_crop(&m, Vector { x: 2560, y: 1440 });
    assert_eq!(crop, CropRect { width: 1440, height: 2560, x: 1920, y: 480 });
}
