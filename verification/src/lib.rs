//! VITURE Gen2 glasses ("protocol V2") over USB HID.
//!
//! * [`frame`]: the wire format; [`msg`]: message IDs; [`wire`], [`text`]: bytes and text.
//! * [`device`]: requests and events over any [`Transport`]; [`sim`]: simulated glasses.
//! * [`xr`]: a tracking session; [`ring`]: samples between two threads; [`pointer`]: the phone.
//! * [`library`]: how a library's files are packed; [`mesh`]: mesh projections; [`pano`]: geometry.
//! * [`hidraw`], [`usbfs`], [`uring`], [`sys`]: what the transports hand to the kernel and make of
//!   its answers; [`cli`]: the command line.

pub mod cli;
pub mod clock;
pub mod device;
pub mod frame;
pub mod hidraw;
pub mod library;
pub mod mesh;
pub mod msg;
pub mod pano;
pub mod pointer;
pub mod ring;
pub mod sim;
pub mod sys;
pub mod text;
pub mod uring;
pub mod usbfs;
pub mod wire;
pub mod xr;

pub use device::{Device, Transport, REPLY_TIMEOUT_NS};
pub use frame::{
    build, parse, DisplayMode, Error, Event, Frame, Pose, Rate, Raw, Streams, FRAME_MAX, HEADER_LEN,
    PREAMBLE, RESPONSE_OFFSET,
};
