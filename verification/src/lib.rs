//! Luminance control for DDC/CI monitors, without the I/O.
//!
//! The crate holds the decisions of a monitor-control daemon: the cached
//! register model, the mapping from a luminance percentage to register
//! values, the building of the fleet from what discovery found, and the
//! routing of client requests to displays. It never touches a device. Every
//! operation that needs a register write hands the write out as a value;
//! the caller performs it and reports the outcome back.

pub mod calibration;
pub mod display;
pub mod error;
pub mod fleet;
pub mod luminance;
pub mod protocol;
pub mod registry;
pub mod router;
pub mod vcp;

pub use calibration::Calibration;
pub use display::{Channel, Display, Pending, Step};
pub use error::{Error, DDCRC_OK};
pub use protocol::{Command, SocketPayload};
pub use registry::{discover, Probe, Registers};
pub use router::{handle_client_cmd, Action, Job, Router};
pub use vcp::{RegisterWrite, VcpValue};
