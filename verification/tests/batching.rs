use analytics::batcher::{
    due, Activity, Batch, BatchCollectorError, BatchCollectorOpts, BatchWriter, Batcher, Buffer,
    ControlEvent, Duration, Instant, Step, WakeUp,
};
use std::io::Write;
use std::sync::atomic::{AtomicBool, AtomicUsize, Ordering};
use std::sync::Arc;

/// Writes each event as one byte. Events of 250 and above are refused, and
/// events of 240 and above make a later call fail.
struct ByteWriter {
    buffer: Buffer,
    poison: u8,
}

impl BatchWriter<u8> for ByteWriter {
    type Error = String;

    fn create(buffer: Buffer, opts: &BatchCollectorOpts) -> Result<Self, String> {
        if opts.event_queue_limit == 13 {
            return Err("no writer".to_string());
        }
        Ok(ByteWriter { buffer, poison: 0 })
    }

    fn write(&mut self, data: u8) -> Result<(), String> {
        if data >= 250 {
            return Err("refused".to_string());
        }
        if data >= 240 {
            self.poison = data;
        }
        self.buffer.write(&[data]).map_err(|e| e.to_string())?;
        Ok(())
    }

    fn flush(&mut self) -> Result<(), String> {
        if self.poison == 240 {
            return Err("flush failed".to_string());
        }
        Ok(())
    }

    fn into_buffer(self) -> Result<Vec<u8>, String> {
        if self.poison == 241 {
            return Err("encoding failed".to_string());
        }
        Ok(self.buffer.into_inner())
    }
}

const HORIZON: Instant = Instant { nanos: 1_000_000 };

fn at(nanos: u128) -> Instant {
    Instant { nanos }
}

fn opts(rows: usize, size: usize, time: u128) -> BatchCollectorOpts {
    BatchCollectorOpts {
        event_queue_limit: 4,
        export_time_threshold: Duration { nanos: time },
        export_size_threshold: size,
        export_row_threshold: rows,
        batch_alloc_size: 16,
        export_check_interval: Duration { nanos: 1 },
    }
}

fn batcher(rows: usize, size: usize, time: u128) -> Batcher<u8, ByteWriter> {
    match Batcher::new(opts(rows, size, time), at(0), HORIZON) {
        Ok(batcher) => batcher,
        Err(error) => panic!("{}", error.message()),
    }
}

fn event(data: u8) -> WakeUp<u8> {
    WakeUp::Control(Some(ControlEvent::Process(data)))
}

fn exported(step: &Step<String>) -> Option<&[u8]> {
    assert!(step.failure.is_none());
    assert!(step.exports.len() <= 1);
    step.exports.first().map(|bytes| &bytes[..])
}

fn failure(step: &Step<String>) -> Option<(Activity, String)> {
    step.failure.as_ref().map(|(activity, error)| (*activity, error.message()))
}

fn nothing(step: &Step<String>) -> bool {
    step.exports.is_empty() && step.failure.is_none()
}

fn idle(step: &Step<String>) -> bool {
    nothing(step) && !step.stop
}

fn count(size: &Arc<AtomicUsize>) -> usize {
    size.load(Ordering::Relaxed)
}

#[test]
fn buffer_reports_its_size() {
    let mut buffer = Buffer::new(2);
    assert_eq!(count(buffer.size_bytes()), 0);
    assert_eq!(buffer.write(&[1, 2, 3]).unwrap(), 3);
    assert_eq!(count(buffer.size_bytes()), 3);
    assert_eq!(buffer.write(&[]).unwrap(), 0);
    assert_eq!(buffer.write(&[4]).unwrap(), 1);
    buffer.flush().unwrap();
    assert_eq!(count(buffer.size_bytes()), 4);
    assert_eq!(buffer.into_inner(), vec![1, 2, 3, 4]);
}

#[test]
fn size_is_reported_after_the_buffer_was_given_away() {
    let buffer = Buffer::new(0);
    let size = buffer.size_bytes().clone();
    let mut owner = std::io::BufWriter::with_capacity(4, buffer);
    owner.write_all(&[1, 2, 3]).unwrap();
    assert_eq!(count(&size), 0);
    owner.write_all(&[4, 5, 6]).unwrap();
    assert_eq!(count(&size), 3);
    let buffer = owner.into_inner().ok().unwrap();
    assert_eq!(count(&size), 6);
    assert_eq!(buffer.into_inner(), vec![1, 2, 3, 4, 5, 6]);
    assert_eq!(count(&size), 6);
}

#[test]
fn default_options() {
    let opts = BatchCollectorOpts::default();
    assert_eq!(opts.event_queue_limit, 2048);
    assert_eq!(opts.export_time_threshold, Duration::from_secs(300));
    assert_eq!(opts.export_size_threshold, 128 * 1024 * 1024);
    assert_eq!(opts.export_row_threshold, 128 * 1024);
    assert_eq!(opts.batch_alloc_size, 130 * 1024 * 1024);
    assert_eq!(opts.export_check_interval, Duration::from_secs(30));
    assert_eq!(Duration::from_secs(2).nanos, 2_000_000_000);
}

#[test]
fn instants_are_compared_and_moved() {
    assert_eq!(at(5).plus(Duration { nanos: 7 }), at(12));
    assert!(at(6).is_later_than(at(5)));
    assert!(!at(5).is_later_than(at(5)));
    assert!(!at(4).is_later_than(at(5)));
}

#[test]
fn batch_counts_what_the_writer_takes() {
    let mut batch: Batch<u8, ByteWriter> = match Batch::new(&opts(9, 9, 9), at(3)) {
        Ok(batch) => batch,
        Err(error) => panic!("{}", error.message()),
    };
    assert_eq!((batch.num_rows(), batch.size_bytes()), (0, 0));
    assert!(!batch.has_expiration());
    assert_eq!(batch.expiration(), at(3));
    assert!(matches!(batch.write(7), Ok(1)));
    assert!(matches!(batch.write(255), Err(BatchCollectorError::Writer(_))));
    assert!(matches!(batch.write(8), Ok(2)));
    assert_eq!((batch.num_rows(), batch.size_bytes()), (2, 2));
    batch.set_expiration(at(50));
    assert!(batch.has_expiration());
    assert_eq!(batch.expiration(), at(50));
    assert!(batch.flush().is_ok());
    assert!(matches!(batch.into_buffer(), Ok(bytes) if bytes == [7, 8]));
}

#[test]
fn writer_that_cannot_be_created() {
    let mut bad = opts(9, 9, 9);
    bad.event_queue_limit = 13;
    match Batcher::<u8, ByteWriter>::new(bad, at(0), HORIZON) {
        Err(error) => assert_eq!(error.message(), "writer error: no writer"),
        Ok(_) => panic!("a batcher without a writer"),
    }
}

#[test]
fn full_batch_is_exported() {
    let mut b = batcher(3, 1000, 1000);
    assert!(!b.has_data());
    assert!(idle(&b.step(event(1), at(1))));
    assert!(b.has_data());
    assert!(idle(&b.step(event(2), at(2))));
    let step = b.step(event(3), at(3));
    assert_eq!(exported(&step), Some(&[1, 2, 3][..]));
    assert!(!step.stop);
    assert!(!b.has_data());
    assert!(idle(&b.step(event(4), at(4))));
}

#[test]
fn large_batch_is_exported() {
    let mut b = batcher(1000, 2, 1000);
    assert!(idle(&b.step(event(1), at(1))));
    assert_eq!(exported(&b.step(event(2), at(2))), Some(&[1, 2][..]));
}

#[test]
fn size_and_rows_decide_when_a_batch_is_due() {
    let opts = opts(3, 10, 100);
    assert!(!due(&opts, 2, 9));
    assert!(due(&opts, 3, 9));
    assert!(due(&opts, 2, 10));
    assert!(due(&opts, 4, 11));
}

#[test]
fn zero_thresholds_export_every_event() {
    let mut b = batcher(0, 1000, 1000);
    assert_eq!(exported(&b.step(event(1), at(1))), Some(&[1][..]));
    let mut b = batcher(1000, 0, 1000);
    assert_eq!(exported(&b.step(event(1), at(1))), Some(&[1][..]));
}

#[test]
fn expired_batch_is_exported_at_the_next_tick() {
    let mut b = batcher(1000, 1000, 100);
    assert!(idle(&b.step(event(1), at(10))));
    assert_eq!(b.expiration(), at(110));
    assert!(idle(&b.step(event(2), at(60))));
    assert_eq!(b.expiration(), at(110));
    assert!(idle(&b.step(WakeUp::Tick, at(110))));
    assert!(b.has_data());
    assert_eq!(exported(&b.step(WakeUp::Tick, at(111))), Some(&[1, 2][..]));
    assert!(!b.has_data());
    assert_eq!(b.expiration(), at(111));
    assert!(idle(&b.step(event(3), at(200))));
    assert_eq!(b.expiration(), at(300));
}

#[test]
fn empty_batch_is_not_exported() {
    let mut b = batcher(1000, 1000, 100);
    assert!(idle(&b.step(WakeUp::Tick, at(500))));
    let mut outbox = Vec::new();
    assert!(b.export(at(501), &mut outbox).is_ok());
    assert!(outbox.is_empty());
    let step = b.step(WakeUp::Control(Some(ControlEvent::Shutdown)), at(502));
    assert!(nothing(&step));
    assert!(step.stop);
}

#[test]
fn shutdown_exports_the_rest() {
    let mut b = batcher(2, 1000, 100);
    assert!(idle(&b.step(event(1), at(1))));
    assert_eq!(exported(&b.step(event(2), at(2))), Some(&[1, 2][..]));
    assert!(idle(&b.step(event(3), at(3))));
    let step = b.step(WakeUp::Control(Some(ControlEvent::Shutdown)), at(4));
    assert_eq!(exported(&step), Some(&[3][..]));
    assert!(step.stop);
}

#[test]
fn closed_queue_stops_without_an_export() {
    let mut b = batcher(1000, 1000, 100);
    assert!(idle(&b.step(event(1), at(1))));
    let step = b.step(WakeUp::Control(None), at(2));
    assert!(nothing(&step));
    assert!(step.stop);
    assert!(b.has_data());
}

#[test]
fn refused_event_is_not_part_of_the_batch() {
    let mut b = batcher(2, 1000, 100);
    let step = b.step(event(255), at(5));
    assert_eq!(
        failure(&step),
        Some((Activity::Processing, "writer error: refused".to_string()))
    );
    assert!(!step.stop);
    assert!(!b.has_data());
    assert_eq!(b.expiration(), at(105));
    assert!(idle(&b.step(event(1), at(6))));
    assert_eq!(b.expiration(), at(105));
    assert_eq!(exported(&b.step(event(2), at(7))), Some(&[1, 2][..]));
}

#[test]
fn batch_whose_flush_fails_stays() {
    let mut b = batcher(2, 1000, 100);
    assert!(idle(&b.step(event(240), at(1))));
    let expected = "writer error: flush failed".to_string();
    let step = b.step(event(2), at(2));
    assert_eq!(failure(&step), Some((Activity::Processing, expected.clone())));
    assert!(b.has_data());
    let step = b.step(WakeUp::Tick, at(102));
    assert_eq!(failure(&step), Some((Activity::BatchExpired, expected.clone())));
    let step = b.step(WakeUp::Control(Some(ControlEvent::Shutdown)), at(103));
    assert_eq!(failure(&step), Some((Activity::CollectorShutdown, expected)));
    assert!(step.stop);
    assert!(b.has_data());
}

#[test]
fn batch_that_cannot_be_encoded_is_gone() {
    let mut b = batcher(2, 1000, 100);
    assert!(idle(&b.step(event(241), at(1))));
    let step = b.step(event(2), at(2));
    assert_eq!(
        failure(&step),
        Some((Activity::Processing, "writer error: encoding failed".to_string()))
    );
    assert!(!b.has_data());
    assert!(idle(&b.step(event(3), at(3))));
    assert_eq!(exported(&b.step(event(4), at(4))), Some(&[3, 4][..]));
}

#[test]
fn events_are_exported_once_and_in_order() {
    let mut b = batcher(7, 1000, 50);
    let mut out: Vec<u8> = Vec::new();
    for i in 0u8..200 {
        let now = at(i as u128 * 9);
        let step = b.step(event(i), now);
        out.extend(exported(&step).unwrap_or(&[]));
        if i % 5 == 0 {
            let step = b.step(WakeUp::Tick, now);
            out.extend(exported(&step).unwrap_or(&[]));
        }
    }
    let step = b.step(WakeUp::Control(Some(ControlEvent::Shutdown)), at(5000));
    out.extend(exported(&step).unwrap_or(&[]));
    assert_eq!(out, (0u8..200).collect::<Vec<u8>>());
}

#[test]
fn process_returns_the_completed_batch() {
    let mut b = batcher(2, 1000, 100);
    let mut outbox = vec![vec![9]];
    assert!(b.process(1, at(1), &mut outbox).is_ok());
    assert_eq!(outbox, vec![vec![9]]);
    assert!(b.process(2, at(2), &mut outbox).is_ok());
    assert_eq!(outbox, vec![vec![9], vec![1, 2]]);
}

static OUT_OF_WRITERS: AtomicBool = AtomicBool::new(false);

/// A writer that cannot be created while there are none left.
struct ScarceWriter {
    events: Vec<u8>,
}

impl BatchWriter<u8> for ScarceWriter {
    type Error = String;

    fn create(_buffer: Buffer, _opts: &BatchCollectorOpts) -> Result<Self, String> {
        if OUT_OF_WRITERS.load(Ordering::SeqCst) {
            return Err("out of writers".to_string());
        }
        Ok(ScarceWriter { events: Vec::new() })
    }

    fn write(&mut self, data: u8) -> Result<(), String> {
        if data >= 250 {
            return Err("refused".to_string());
        }
        self.events.push(data);
        Ok(())
    }

    fn flush(&mut self) -> Result<(), String> {
        Ok(())
    }

    fn into_buffer(self) -> Result<Vec<u8>, String> {
        Ok(self.events)
    }
}

#[test]
fn full_batch_takes_no_more_events() {
    let mut b: Batcher<u8, ScarceWriter> =
        Batcher::new(opts(2, 1000, 100), at(0), HORIZON).ok().unwrap();
    let no_writer = Some((Activity::Processing, "writer error: out of writers".to_string()));
    OUT_OF_WRITERS.store(true, Ordering::SeqCst);
    assert!(idle(&b.step(event(1), at(1))));
    let step = b.step(event(2), at(2));
    assert_eq!(failure(&step), no_writer);
    assert!(step.exports.is_empty() && !step.stop);
    // The batch is full now, so the event has no place.
    let step = b.step(event(3), at(3));
    assert_eq!(failure(&step), no_writer);
    assert!(step.exports.is_empty() && !step.stop);
    assert!(b.has_data());
    assert_eq!(b.expiration(), at(101));
    OUT_OF_WRITERS.store(false, Ordering::SeqCst);
    // Room is made for the next event, which starts a batch of its own.
    assert_eq!(exported(&b.step(event(4), at(4))), Some(&[1, 2][..]));
    assert!(b.has_data());
    assert_eq!(b.expiration(), at(104));
    assert_eq!(exported(&b.step(event(5), at(5))), Some(&[4, 5][..]));

    // A full batch is exported even if the event that follows it is refused.
    OUT_OF_WRITERS.store(true, Ordering::SeqCst);
    assert!(idle(&b.step(event(6), at(6))));
    assert_eq!(failure(&b.step(event(7), at(7))), no_writer);
    OUT_OF_WRITERS.store(false, Ordering::SeqCst);
    let step = b.step(event(255), at(8));
    assert_eq!(
        failure(&step),
        Some((Activity::Processing, "writer error: refused".to_string()))
    );
    assert_eq!(step.exports, vec![vec![6, 7]]);
    assert!(!b.has_data());

    // With room for one event only, two batches can be completed at once.
    let mut b: Batcher<u8, ScarceWriter> =
        Batcher::new(opts(0, 1000, 100), at(0), HORIZON).ok().unwrap();
    OUT_OF_WRITERS.store(true, Ordering::SeqCst);
    assert_eq!(failure(&b.step(event(1), at(1))), no_writer);
    OUT_OF_WRITERS.store(false, Ordering::SeqCst);
    let step = b.step(event(2), at(2));
    assert!(step.failure.is_none());
    assert_eq!(step.exports, vec![vec![1], vec![2]]);
}

#[test]
fn refused_events_do_not_end_the_run() {
    let mut b = batcher(3, 1000, 100_000);
    let mut out: Vec<Vec<u8>> = Vec::new();
    let mut reports = 0;
    for i in 0u8..30 {
        let data = if i % 4 == 1 { 255 } else { i };
        let mut step = b.step(event(data), at(i as u128));
        assert!(!step.stop);
        out.append(&mut step.exports);
        reports += step.failure.is_some() as usize;
    }
    out.append(&mut b.step(WakeUp::Control(Some(ControlEvent::Shutdown)), at(99)).exports);
    assert_eq!(reports, 8);
    assert!(out.iter().all(|batch| 0 < batch.len() && batch.len() <= 3));
    let expected: Vec<u8> = (0u8..30).filter(|i| i % 4 != 1).collect();
    assert_eq!(out.concat(), expected);
}

#[test]
fn event_waits_no_longer_than_threshold_and_interval() {
    let mut b = batcher(1000, 1000, 100);
    assert!(idle(&b.step(event(1), at(7))));
    let mut exported_at = None;
    for tick in 1..20u128 {
        let step = b.step(WakeUp::Tick, at(7 + 30 * tick));
        if exported(&step) == Some(&[1][..]) {
            exported_at = Some(7 + 30 * tick);
        }
    }
    assert_eq!(exported_at, Some(127));
}

#[test]
fn failures_do_not_delay_other_events() {
    let mut b = batcher(2, 1000, 100);
    assert!(idle(&b.step(event(1), at(7))));
    // Refused events come in all the time.
    for tick in 1..=3u128 {
        assert!(failure(&b.step(event(255), at(30 * tick))).is_some());
        assert!(idle(&b.step(WakeUp::Tick, at(7 + 30 * tick))));
    }
    assert_eq!(exported(&b.step(WakeUp::Tick, at(127))), Some(&[1][..]));
}

#[test]
fn events_whose_expiration_cannot_be_told_are_not_accepted() {
    let mut b = batcher(10, 1000, 100);
    assert!(b.can_accept_event(at(1_000_000 - 100)));
    assert!(!b.can_accept_event(at(1_000_000 - 99)));
    assert!(!b.can_accept_event(at(1_000_001)));
    assert!(idle(&b.step(event(1), at(1))));
    assert!(b.can_accept_event(at(1_000_000)));
    let b = batcher(10, 1000, u128::MAX);
    assert!(!b.can_accept_event(at(0)));
}
