//! Driver core for a keyboard's secondary bitmap display.
//!
//! The display is two 128x32 panels driven over a HID report channel. This
//! crate holds the verified core of the driver: packing a 128x64 grayscale
//! buffer into the panels' bit format, framing a packed panel into fixed-size
//! report packets, planning the exact sequence of raw transport writes, and
//! the playback state machine that sequences frames of an animation. All
//! device I/O, image decoding and resampling live outside this crate and
//! exchange plain byte buffers with it.

pub mod device;
pub mod luma;
pub mod panel;
pub mod playback;
pub mod report;
pub mod writer;

pub use device::DeviceSelector;
pub use luma::LumaBuffer;
pub use panel::PanelBitmap;
pub use report::{ReportPacket, Side};
pub use writer::ProtocolProfile;
