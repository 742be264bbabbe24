//! Configuration of a batch collector.

use super::clock::Duration;
use vstd::prelude::*;

verus! {

/// Most of these values should be left on default outside of testing.
#[derive(Debug, Clone, Copy)]
pub struct BatchCollectorOpts {
    /// Data collection queue size. Overflowing it drops additional analytics
    /// events.
    pub event_queue_limit: usize,
    /// The amount of time after which current batch will be exported
    /// regardless of how much data it has collected.
    pub export_time_threshold: Duration,
    /// Writer buffer size threshold, going above which will cause data export
    /// and new batch allocation. A buffer of exactly this size is exported
    /// too.
    pub export_size_threshold: usize,
    /// The maximum number of events that a single batch can contain. Going
    /// above this limit will cause data export and new batch allocation. A
    /// batch that has just this many events is exported too, without waiting
    /// for the next event. Zero counts as one.
    pub export_row_threshold: usize,
    /// Allocation size for the batch data buffer. Overflowing it will cause
    /// reallocation of data, so it's best to set the export threshold below
    /// this value to never overflow.
    pub batch_alloc_size: usize,
    /// The interval at which the background task will check if current batch
    /// has expired and needs to be exported.
    pub export_check_interval: Duration,
}

impl BatchCollectorOpts {
    /// The buffer of a batch can be allocated: no allocation is larger than
    /// `isize::MAX` bytes.
    pub open spec fn allocatable(self) -> bool {
        self.batch_alloc_size <= isize::MAX
    }

    /// How many events a batch can contain: as many as the row threshold says,
    /// but at least one, since no batch is exported without an event.
    pub open spec fn row_limit(self) -> int {
        if self.export_row_threshold == 0 {
            1
        } else {
            self.export_row_threshold as int
        }
    }

    /// The event queue can be created: it holds at least one event and no
    /// more than the channel can count.
    pub open spec fn queueable(self) -> bool {
        0 < self.event_queue_limit <= usize::MAX / 8
    }
}

impl Default for BatchCollectorOpts {
    fn default() -> (opts: Self)
        ensures
            opts.event_queue_limit == 2048,
            opts.export_time_threshold.nanos == 300_000_000_000,
            opts.export_size_threshold == 134_217_728,
            opts.export_row_threshold == 131_072,
            opts.batch_alloc_size == 136_314_880,
            opts.export_check_interval.nanos == 30_000_000_000,
            opts.allocatable(),
            opts.queueable(),
            opts.export_size_threshold < opts.batch_alloc_size,
    {
        Self {
            event_queue_limit: 2048,
            export_time_threshold: Duration::from_secs(60 * 5),
            export_size_threshold: 1024 * 1024 * 128,
            export_row_threshold: 1024 * 128,
            batch_alloc_size: 1024 * 1024 * 130,
            export_check_interval: Duration::from_secs(30),
        }
    }
}

} // verus!
