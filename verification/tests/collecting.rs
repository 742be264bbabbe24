use analytics::batcher::{
    BatchCollector, BatchCollectorError, BatchCollectorOpts, BatchWriter, Buffer, ControlEvent,
    Instant, ParquetWriter, ParquetWriterError, TrySendError, WakeUp,
};
use analytics::{Analytics, AnalyticsCollector};
use bytes::Bytes;
use parquet::basic::Compression;
use parquet::data_type::Int32Type;
use parquet::file::reader::{FileReader, SerializedFileReader};
use parquet::schema::parser::parse_message_type;
use parquet::schema::types::SchemaDescriptor;
use std::io::Write;
use std::sync::atomic::Ordering;
use std::sync::{Arc, Mutex};

struct Sink {
    buffer: Buffer,
}

impl BatchWriter<u8> for Sink {
    type Error = String;

    fn create(buffer: Buffer, _opts: &BatchCollectorOpts) -> Result<Self, String> {
        Ok(Sink { buffer })
    }

    fn write(&mut self, data: u8) -> Result<(), String> {
        self.buffer.write(&[data]).map(|_| ()).map_err(|e| e.to_string())
    }

    fn flush(&mut self) -> Result<(), String> {
        Ok(())
    }

    fn into_buffer(self) -> Result<Vec<u8>, String> {
        Ok(self.buffer.into_inner())
    }
}

const START: Instant = Instant { nanos: 0 };

const HORIZON: Instant = Instant { nanos: u128::MAX };

fn small() -> BatchCollectorOpts {
    BatchCollectorOpts { event_queue_limit: 2, batch_alloc_size: 8, ..BatchCollectorOpts::default() }
}

#[test]
fn queue_delivers_events_in_order_and_refuses_what_overflows() {
    let (collector, mut rx, _batcher) =
        BatchCollector::<u8>::new::<Sink>(small(), START, HORIZON).ok().unwrap();
    assert!(collector.try_collect(1).is_ok());
    assert!(collector.try_collect(2).is_ok());
    assert!(matches!(
        collector.try_collect(3),
        Err(TrySendError::Full(ControlEvent::Process(3)))
    ));
    assert!(matches!(collector.shutdown(), Err(TrySendError::Full(ControlEvent::Shutdown))));
    assert!(matches!(rx.try_recv(), Ok(ControlEvent::Process(1))));
    assert!(collector.shutdown().is_ok());
    assert!(matches!(rx.try_recv(), Ok(ControlEvent::Process(2))));
    assert!(matches!(rx.try_recv(), Ok(ControlEvent::Shutdown)));
    drop(rx);
    assert!(matches!(
        collector.try_collect(4),
        Err(TrySendError::Closed(ControlEvent::Process(4)))
    ));
}

#[test]
fn collector_works_behind_a_handle() {
    let (collector, mut rx, _batcher) =
        BatchCollector::<u8>::new::<Sink>(small(), START, HORIZON).ok().unwrap();
    let analytics = Analytics::new(collector);
    let other = analytics.clone();
    analytics.collect(1);
    other.collect(2);
    other.collect(3);
    assert!(matches!(rx.try_recv(), Ok(ControlEvent::Process(1))));
    assert!(matches!(rx.try_recv(), Ok(ControlEvent::Process(2))));
    assert!(rx.try_recv().is_err());
}

#[test]
fn dropped_collector_leaves_nothing_behind() {
    let opts = BatchCollectorOpts { event_queue_limit: 9, export_row_threshold: 2, ..small() };
    let (collector, mut rx, mut batcher) =
        BatchCollector::<u8>::new::<Sink>(opts, START, HORIZON).ok().unwrap();
    for data in 1..=5 {
        collector.collect(data);
    }
    assert!(collector.shutdown().is_ok());
    let mut out: Vec<Vec<u8>> = Vec::new();
    let mut stopped = false;
    while let Ok(control) = rx.try_recv() {
        assert!(!stopped);
        let mut step = batcher.step(WakeUp::Control(Some(control)), START);
        assert!(step.failure.is_none());
        out.append(&mut step.exports);
        stopped = step.stop;
    }
    assert!(stopped);
    assert_eq!(out, vec![vec![1, 2], vec![3, 4], vec![5]]);
}

#[test]
fn send_errors_become_collector_errors() {
    let full: BatchCollectorError<String> = TrySendError::Full(1u8).into();
    assert!(matches!(full, BatchCollectorError::EventQueueOverflow));
    assert_eq!(full.message(), "event queue overflow");
    let closed: BatchCollectorError<String> = TrySendError::Closed(1u8).into();
    assert!(matches!(closed, BatchCollectorError::EventQueueChannelClosed));
    assert_eq!(closed.message(), "event queue channel closed");
    let writer = BatchCollectorError::Writer("disk on fire".to_string());
    assert_eq!(writer.message(), "writer error: disk on fire");
}

struct Recorder {
    seen: Arc<Mutex<Vec<String>>>,
}

impl AnalyticsCollector<String> for Recorder {
    fn collect(&self, data: String) {
        self.seen.lock().unwrap().push(data);
    }
}

#[test]
fn clones_share_the_collector() {
    let seen = Arc::new(Mutex::new(Vec::new()));
    let analytics = Analytics::new(Recorder { seen: seen.clone() });
    let copy = analytics.clone();
    let copy_of_copy = copy.clone();
    analytics.collect("a".to_string());
    copy_of_copy.collect("b".to_string());
    copy.collect("c".to_string());
    let expected = vec!["a".to_string(), "b".to_string(), "c".to_string()];
    assert_eq!(*seen.lock().unwrap(), expected);
}

#[test]
fn collector_type_can_be_erased() {
    let seen = Arc::new(Mutex::new(Vec::new()));
    let erased: Box<dyn AnalyticsCollector<String>> = Box::new(Recorder { seen: seen.clone() });
    let analytics: Analytics<String> = Analytics::new(erased);
    analytics.collect("x".to_string());
    assert_eq!(*seen.lock().unwrap(), vec!["x".to_string()]);
}

fn schema() -> SchemaDescriptor {
    let schema = parse_message_type("message events { REQUIRED INT32 id; }").unwrap();
    SchemaDescriptor::new(Arc::new(schema))
}

#[test]
fn parquet_rows_are_kept_in_order() {
    let buffer = Buffer::new(0);
    let size = buffer.size_bytes().clone();
    let mut rows = ParquetWriter::<i32>::create(buffer, Ok(schema()), &small()).ok().unwrap();
    assert!(rows.write(3).is_ok());
    assert!(rows.write(1).is_ok());
    assert!(rows.flush().is_ok());
    assert!(rows.write(2).is_ok());
    let (file, rows) = rows.into_parts();
    assert_eq!(rows, vec![3, 1, 2]);

    let mut writer = file.writer;
    let mut group = writer.next_row_group().unwrap();
    let mut column = group.next_column().unwrap().unwrap();
    column.typed::<Int32Type>().write_batch(&rows, None, None).unwrap();
    column.close().unwrap();
    group.close().unwrap();
    let bytes = writer.into_inner().unwrap().into_inner();
    assert_eq!(size.load(Ordering::Relaxed), bytes.len());

    let reader = SerializedFileReader::new(Bytes::from(bytes)).unwrap();
    let metadata = reader.metadata();
    assert_eq!(metadata.file_metadata().schema().name(), "events");
    assert_eq!(metadata.num_row_groups(), 1);
    assert_eq!(metadata.row_group(0).num_rows(), 3);
    assert_eq!(metadata.row_group(0).column(0).compression(), Compression::GZIP);
}

#[test]
fn parquet_file_without_a_schema() {
    let error = ParquetWriterError::General("no schema".to_string());
    match ParquetWriter::<u8>::create(Buffer::new(0), Err(error), &small()) {
        Err(ParquetWriterError::General(message)) => assert_eq!(message, "no schema"),
        _ => panic!("the error was lost"),
    }

    // No room is asked for where there is no schema.
    let error = ParquetWriterError::General("no schema".to_string());
    let opts = BatchCollectorOpts { export_row_threshold: usize::MAX, ..small() };
    assert!(ParquetWriter::<u64>::create(Buffer::new(0), Err(error), &opts).is_err());
}
