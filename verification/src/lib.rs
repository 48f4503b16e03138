//! Splits one wallpaper into per-monitor crops: parses a textual monitor
//! layout, computes the canvas that the monitors span, selects a reference
//! resolution, and derives a rotation-aware crop rectangle per monitor.

pub mod crop;
pub mod domain;
pub mod geometry;
pub mod naming;
pub mod parse;
pub mod strings;

pub use crop::CropRect;
pub use crop::compute_crop;
pub use domain::MonitorInfo;
pub use domain::Vector;
pub use domain::rotation_of_code;
pub use geometry::get_bounding_box;
pub use geometry::get_largest_monitor_dimensions;
pub use naming::get_extension;
pub use naming::output_file_name;
pub use parse::ParseError;
pub use parse::ParseErrorKind;
pub use parse::parse_monitors;
