//! Host-side logic for talking to a Kano Stem Player over USB and for
//! preparing stem sets: packet framing, the device's read/sync/upload
//! protocol, parsing of the JSON the device sends, and the naming rules
//! for stems.

pub mod frame;
pub mod text;
pub mod json;
pub mod device;
pub mod catalog;
pub mod sync;
pub mod stems;
pub mod upload;
pub mod audio;
pub mod session;
