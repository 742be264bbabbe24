//! Batching of events.

pub mod batch;
pub mod buffer;
pub mod clock;
pub mod collector;
pub mod error;
pub mod laws;
pub mod opts;
pub mod parquet_writer;
pub mod worker;

pub use batch::{Batch, BatchState, BatchWriter};
pub use buffer::{Buffer, SizeHandle};
pub use clock::{Duration, Instant};
pub use collector::{BatchCollector, EventSender};
pub use error::{BatchCollectorError, TrySendError};
pub use opts::BatchCollectorOpts;
pub use parquet_writer::{Compression, ParquetFile, ParquetWriter, ParquetWriterError};
pub use worker::{due, Activity, Batcher, Completed, ControlEvent, Effect, Step, WakeUp};
