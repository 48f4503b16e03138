use wallsplit::ParseErrorKind;
use wallsplit::Vector;
use wallsplit::get_extension;
use wallsplit::output_file_name;
use wallsplit::parse_monitors;

/// A ten-line monitor block in the compositor's layout format.
fn block(name: &str, size_line: &str, transform: &str) -> String {
    format!(
        "Monitor {} (ID 0):\n\t{}\n\tdescription: Example\n\tmake: X\n\tmodel: Y\n\tserial: Z\n\tscale: 1.00\n\tactive: yes\n\tdpms: on\n\ttransform: {}",
        name, size_line, transform
    )
}

#[test]
fn parse_two_monitors() {
    let text = format!(
        "{}\n\n{}",
        block("DP-1", "1920x1080@144.00000 at 0x0", "0"),
        block("HDMI-1", "2560x1440@59.95100 at 1920x0", "1")
    );
    let monitors = parse_monitors(&text).expect("both blocks are well-formed");
    assert_eq!(monitors.len(), 2);
    assert_eq!(monitors[0].name, "DP-1");
    assert_eq!(monitors[0].dimensions, Vector { x: 1920, y: 1080 });
    assert_eq!(monitors[0].position, Vector { x: 0, y: 0 });
    assert_eq!(monitors[0].rotation, 0);
    assert_eq!(monitors[1].name, "HDMI-1");
    assert_eq!(monitors[1].dimensions, Vector { x: 2560, y: 1440 });
    assert_eq!(monitors[1].position, Vector { x: 1920, y: 0 });
    assert_eq!(monitors[1].rotation, 90);
}

#[test]
fn parse_strips_refresh_rate() {
    // If the refresh-rate suffix were not removed, the height token would
    // still carry "@60.00" and the block would be rejected.
    let text = block("DP-1", "1920x1080@60.00 at 0x0", "0");
    let monitors = parse_monitors(&text).expect("refresh rate is discarded");
    assert_eq!(monitors[0].dimensions, Vector { x: 1920, y: 1080 });
}

#[test]
fn parse_size_without_refresh_rate() {
    let text = block("DP-1", "1920x1080 at 0x0", "0");
    let monitors = parse_monitors(&text).expect("the refresh rate is optional");
    assert_eq!(monitors[0].dimensions, Vector { x: 1920, y: 1080 });
}

#[test]
fn parse_empty_text_yields_no_monitors() {
    let monitors = parse_monitors("").expect("an empty text is an empty list");
    assert_eq!(monitors.len(), 0);
}

#[test]
fn parse_transform_codes_four_to_seven_are_flipped_variants() {
    for (code, rotation) in [("4", 0u16), ("5", 90), ("6", 180), ("7", 270)] {
        let text = block("DP-1", "1920x1080@60 at 0x0", code);
        let monitors = parse_monitors(&text).expect("valid block");
        assert_eq!(monitors[0].rotation, rotation);
    }
}

#[test]
fn parse_transform_out_of_range_falls_back_to_zero() {
    for code in ["8", "42", "junk", ""] {
        let text = block("DP-1", "1920x1080@60 at 0x0", code);
        let monitors = parse_monitors(&text).expect("an odd code is tolerated");
        assert_eq!(monitors[0].rotation, 0);
    }
}

#[test]
fn parse_missing_at_separator_fails_whole_parse() {
    let text = format!(
        "{}\n\n{}",
        block("DP-1", "1920x1080@60 at 0x0", "0"),
        block("HDMI-1", "2560x1440@60 0x0", "0")
    );
    let err = parse_monitors(&text).expect_err("the second block is malformed");
    assert_eq!(err.block, 1);
    assert_eq!(err.kind, ParseErrorKind::MissingAtSeparator);
    assert_eq!(err.fragment, "\t2560x1440@60 0x0");
}

#[test]
fn parse_sentinel_ends_list_despite_trailing_garbage() {
    let text = format!(
        "{}\n\n{}\n\n\nanything at all\nmore garbage",
        block("DP-1", "1920x1080@60 at 0x0", "0"),
        block("HDMI-1", "2560x1440@60 at 1920x0", "3")
    );
    let monitors = parse_monitors(&text).expect("the sentinel is not an error");
    assert_eq!(monitors.len(), 2);
    assert_eq!(monitors[0].name, "DP-1");
    assert_eq!(monitors[1].name, "HDMI-1");
    assert_eq!(monitors[1].rotation, 270);
}

#[test]
fn parse_sentinel_even_when_garbage_is_malformed() {
    // The malformed text after the sentinel must not turn the parse into an
    // error: parsing stops at the sentinel.
    let text = format!("{}\n\n\n{}", block("DP-1", "1920x1080@60 at 0x0", "0"), "no at here");
    let monitors = parse_monitors(&text).expect("blocks after the sentinel are ignored");
    assert_eq!(monitors.len(), 1);
}

#[test]
fn parse_missing_name_token() {
    let text = "Monitor\n\t1920x1080@60 at 0x0";
    let err = parse_monitors(text).expect_err("the header has no name");
    assert_eq!(err.block, 0);
    assert_eq!(err.kind, ParseErrorKind::MissingName);
    assert_eq!(err.fragment, "Monitor");
}

#[test]
fn parse_missing_line() {
    let text = "Monitor DP-1 (ID 0):\n\t1920x1080@60 at 0x0\n\ttransform: 0";
    let err = parse_monitors(text).expect_err("the block is too short");
    assert_eq!(err.block, 0);
    assert_eq!(err.kind, ParseErrorKind::MissingLine);
}

#[test]
fn parse_missing_size_separator() {
    let text = block("DP-1", "1920@60 at 0x0", "0");
    let err = parse_monitors(&text).expect_err("no 'x' between width and height");
    assert_eq!(err.kind, ParseErrorKind::MissingSizeSeparator);
    assert_eq!(err.fragment, "1920");
}

#[test]
fn parse_invalid_width() {
    let text = block("DP-1", "abcx1080@60 at 0x0", "0");
    let err = parse_monitors(&text).expect_err("the width is not numeric");
    assert_eq!(err.kind, ParseErrorKind::InvalidWidth);
    assert_eq!(err.fragment, "abc");
}

#[test]
fn parse_width_out_of_range() {
    let text = block("DP-1", "70000x1080@60 at 0x0", "0");
    let err = parse_monitors(&text).expect_err("the width exceeds sixteen bits");
    assert_eq!(err.kind, ParseErrorKind::InvalidWidth);
    assert_eq!(err.fragment, "70000");
}

#[test]
fn parse_largest_representable_size() {
    let text = block("DP-1", "65535x65535@60 at 65535x65535", "0");
    let monitors = parse_monitors(&text).expect("65535 still fits");
    assert_eq!(monitors[0].dimensions, Vector { x: 65535, y: 65535 });
    assert_eq!(monitors[0].position, Vector { x: 65535, y: 65535 });
}

#[test]
fn parse_invalid_height() {
    let text = block("DP-1", "1920x10a0@60 at 0x0", "0");
    let err = parse_monitors(&text).expect_err("the height is not numeric");
    assert_eq!(err.kind, ParseErrorKind::InvalidHeight);
    assert_eq!(err.fragment, "10a0");
}

#[test]
fn parse_missing_position_separator() {
    let text = block("DP-1", "1920x1080@60 at 55", "0");
    let err = parse_monitors(&text).expect_err("no 'x' between the coordinates");
    assert_eq!(err.kind, ParseErrorKind::MissingPositionSeparator);
    assert_eq!(err.fragment, "55");
}

#[test]
fn parse_invalid_position_x() {
    let text = block("DP-1", "1920x1080@60 at ax0", "0");
    let err = parse_monitors(&text).expect_err("the x position is not numeric");
    assert_eq!(err.kind, ParseErrorKind::InvalidPositionX);
    assert_eq!(err.fragment, "a");
}

#[test]
fn parse_invalid_position_y() {
    let text = block("DP-1", "1920x1080@60 at 0xb", "0");
    let err = parse_monitors(&text).expect_err("the y position is not numeric");
    assert_eq!(err.kind, ParseErrorKind::InvalidPositionY);
    assert_eq!(err.fragment, "b");
}

#[test]
fn parse_missing_transform_separator() {
    let text = "Monitor DP-1 (ID 0):\n\t1920x1080@60 at 0x0\n\ta\n\tb\n\tc\n\td\n\te\n\tf\n\tg\n\ttransform 0";
    let err = parse_monitors(text).expect_err("no ':' before the code");
    assert_eq!(err.block, 0);
    assert_eq!(err.kind, ParseErrorKind::MissingTransformSeparator);
}

#[test]
fn parse_extra_at_separators_are_ignored() {
    let text = block("DP-1", "1920x1080@60 at 30x40 at 99x99", "0");
    let monitors = parse_monitors(&text).expect("only the first two pieces matter");
    assert_eq!(monitors[0].position, Vector { x: 30, y: 40 });
}

#[test]
fn parse_extra_size_separators_are_ignored() {
    let text = block("DP-1", "1920x1080x77@60 at 0x0", "0");
    let monitors = parse_monitors(&text).expect("only width and height are read");
    assert_eq!(monitors[0].dimensions, Vector { x: 1920, y: 1080 });
}

#[test]
fn extension_after_last_dot() {
    assert_eq!(get_extension("wallpaper.png"), "png");
    assert_eq!(get_extension("archive.tar.gz"), "gz");
}

#[test]
fn extension_without_dot_is_whole_path() {
    assert_eq!(get_extension("noext"), "noext");
}

#[test]
fn extension_of_trailing_dot_is_empty() {
    assert_eq!(get_extension("odd."), "");
}

#[test]
fn output_name_joins_monitor_and_extension() {
    assert_eq!(output_file_name("DP-1", "png"), "DP-1.png");
    assert_eq!(output_file_name("HDMI-1", "jpg"), "HDMI-1.jpg");
}
