//! The verified core of a low-latency full-duplex audio engine and of the latency
//! test that drives it.
//!
//! Capture flows through a wait-free ring into the realtime render thread, where
//! a [`Processor`] maps input frames to output frames on a shared frame timeline.
//! Samples are single-precision numbers, held as bit patterns.
//!
//! - [`engine`], [`error`], [`devices`]: configuration, counters, errors, listings.
//! - [`float32`], [`format`], [`wfx`]: samples and the formats they are stored in.
//! - [`ring`], [`duplex`]: the path from the captured to the rendered bytes.
//! - [`wasapi`], [`wdmks`], [`asio`], [`asio_control`], [`asio_lifecycle`]: what each
//!   backend asks of its devices, and what it makes of their answers.
//! - [`opts`], [`probe`], [`sweep`], [`report`], [`zip`], [`sysinfo`]: the latency
//!   test, its log and its report.
//! - [`text`]: numerals and other text.

pub mod asio;
pub mod asio_control;
pub mod asio_lifecycle;
pub mod devices;
pub mod duplex;
pub mod engine;
pub mod error;
pub mod float32;
pub mod format;
pub mod opts;
pub mod probe;
pub mod report;
pub mod ring;
pub mod sweep;
pub mod sysinfo;
pub mod text;
pub mod wasapi;
pub mod wdmks;
pub mod wfx;
pub mod zip;

pub use devices::{list_devices, Inventory};
pub use engine::{
    Backend, DeviceInfo, EngineConfig, Processor, ShareMode, StatsSnapshot, StreamInfo, StreamStats,
};
pub use error::{EngineError, Result};
pub use format::{SampleFormat, StreamFormat};
