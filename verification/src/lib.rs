//! Decoder for the byte stream of the HLS-LFCD LDS rotary lidar (LDS-01).
//!
//! The sensor streams frames of 2520 bytes, each holding one full turn of
//! 360 range and intensity measurements. This crate holds the protocol
//! logic only: it never touches a serial port. A caller owns the transport,
//! performs the transfers that the session asks for, and hands the bytes
//! back.

pub mod frame;
pub mod reading;
pub mod session;
pub mod sync;

pub use frame::decode;
pub use reading::LaserReading;
pub use session::{DriverClosed, LFCDLaser, ReadStep, START_BYTE, STOP_BYTE};
pub use sync::{synchronize, SyncState};
