//! Verified core of a system-tray controller for the xone Xbox wireless
//! dongle driver: parsing and producing the sysfs attribute texts, choosing
//! devices and names, the release-check parser, and the tray's state machine.

pub mod sysfs;
pub mod text;
pub mod tray;
pub mod udev;
pub mod update;

pub use sysfs::{not_found, Error, ErrorKind};
pub use tray::XoneTray;
