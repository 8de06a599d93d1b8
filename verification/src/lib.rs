//! Reads traces of Chrome's tracing format, lists the processes that a trace names,
//! measures the span of its timestamps, draws their histogram and cuts a trace down to
//! the events of chosen processes.

pub mod bridge;
pub mod codec;
pub mod event;
pub mod histogram;
pub mod json;
pub mod listing;
pub mod process;
pub mod selection;
pub mod sequences;
pub mod text;
pub mod trace;

pub use event::{ParseError, TextOrNumber, TraceEvents};
pub use histogram::{Histogram, HistogramError};
pub use json::{JsonNumber, JsonValue};
pub use process::ProcessInfo;
pub use trace::{Timing, Trace};
