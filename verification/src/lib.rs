//! Multi-protocol screenshot capture core: framebuffer reconstruction for
//! RDP and VNC sessions, a bounded worker-pool supervisor, and the report
//! aggregation that collects one outcome per target.
//!
//! Network and file I/O live outside this crate; the types here consume
//! plain values (chunks, events, byte buffers) and are verified against
//! the contracts on each function.

pub mod argparse;
pub mod error;
pub mod parsing;
pub mod png;
pub mod pool;
pub mod raster;
pub mod rdp;
pub mod reporting;
pub mod util;
pub mod vnc;
pub mod web;

pub use argparse::Mode;
pub use argparse::Opts;
pub use argparse::WebMode;
pub use parsing::InputLists;
pub use parsing::Target;
pub use pool::ThreadStatus;
pub use pool::WorkerPool;
pub use reporting::FileError;
pub use reporting::ReportMessage;
pub use reporting::ReportMessageContent;
pub use reporting::ReportSink;
pub use util::target_to_filename;
pub use vnc::VncImage;
pub use vnc::VncOutput;
