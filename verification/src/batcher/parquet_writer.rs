//! The rows of a Parquet file under construction.

use super::buffer::Buffer;
use super::opts::BatchCollectorOpts;
use parquet::errors::ParquetError;
use parquet::file::properties::WriterProperties;
use parquet::file::writer::SerializedFileWriter;
use parquet::schema::types::SchemaDescriptor;
use std::sync::Arc;
use vstd::prelude::*;

verus! {

/// The error type of `parquet`. It is only passed along.
#[verifier::external_type_specification]
#[verifier::external_body]
pub struct ExParquetError(ParquetError);

/// A schema for which `SchemaDescriptor::new` of `parquet` found the columns. It
/// is only passed along.
#[verifier::external_type_specification]
#[verifier::external_body]
pub struct ExSchemaDescriptor(SchemaDescriptor);

/// Re-export for use outside of this module.
pub type ParquetWriterError = ParquetError;

/// How the columns of a file are compressed.
#[derive(Debug, Clone, Copy, PartialEq, Eq, Structural)]
pub enum Compression {
    Gzip,
}

/// An open Parquet file: a `parquet::file::writer::SerializedFileWriter` over
/// the buffer that the file is written to.
#[verifier::external_body]
pub struct ParquetFile {
    pub writer: SerializedFileWriter<Buffer>,
}

/// Calls `SerializedFileWriter::new` with the schema and with properties that
/// are the defaults of `WriterProperties::builder` but for the compression.
///
/// It fails only where the first bytes cannot be written, and writing to a
/// `Buffer` never fails. It panics on a schema for which the columns cannot be
/// found, and a `SchemaDescriptor` exists only for one for which they were.
/// Nothing is stated of which bytes the file will consist of.
#[verifier::external_body]
fn open_file(buffer: Buffer, schema: SchemaDescriptor, compression: Compression) -> (opened: Result<
    ParquetFile,
    ParquetError,
>)
    ensures
        opened is Ok,
    opens_invariants none
{
    let compression = match compression {
        Compression::Gzip => parquet::basic::Compression::GZIP,
    };
    let props = WriterProperties::builder().set_compression(compression).build();
    SerializedFileWriter::new(buffer, schema.root_schema_ptr(), Arc::new(props)).map(
        |writer| ParquetFile { writer },
    )
}

/// Events that wait to be written to a Parquet file as one row group, and that
/// file.
///
/// A Parquet file stores its rows by column, so no event is encoded before all
/// are known.
pub struct ParquetWriter<T> {
    data: Vec<T>,
    writer: ParquetFile,
}

impl<T> ParquetWriter<T> {
    /// The events taken so far, in order.
    pub closed spec fn rows(&self) -> Seq<T> {
        self.data@
    }

    /// The open file.
    pub closed spec fn file(&self) -> ParquetFile {
        self.writer
    }

    /// The memory for events was reserved by asking for room for `capacity` of
    /// them.
    pub closed spec fn reserved(&self, capacity: usize) -> bool {
        call_ensures(Vec::<T>::with_capacity, (capacity,), self.data)
    }

    /// The file was opened on `buffer`, with this schema and compression.
    pub closed spec fn opened_on(
        &self,
        buffer: Buffer,
        schema: SchemaDescriptor,
        compression: Compression,
    ) -> bool {
        call_ensures(open_file, (buffer, schema, compression), Ok(self.writer))
    }

    /// There can be room for all events of a full batch from the start.
    pub open spec fn has_room(opts: BatchCollectorOpts) -> bool {
        opts.export_row_threshold * vstd::layout::size_of::<T>() <= isize::MAX
    }

    /// Opens a compressed file on `buffer` and starts with no events and room
    /// for all that a batch can hold, if there is a schema.
    pub fn create(
        buffer: Buffer,
        schema: Result<SchemaDescriptor, ParquetWriterError>,
        opts: &BatchCollectorOpts,
    ) -> (created: Result<Self, ParquetWriterError>)
        requires
            schema is Ok ==> Self::has_room(*opts),
        ensures
            match schema {
                Ok(schema) => {
                    &&& created matches Ok(w)
                    &&& w.rows() == Seq::<T>::empty()
                    &&& w.reserved(opts.export_row_threshold)
                    &&& w.opened_on(buffer, schema, Compression::Gzip)
                },
                Err(error) => created == Err::<Self, ParquetWriterError>(error),
            },
    {
        match schema {
            Ok(schema) => Self::open(buffer, schema, Self::reserve(opts)),
            Err(error) => Err(error),
        }
    }

    /// No events and room for all that a batch can hold.
    fn reserve(opts: &BatchCollectorOpts) -> (data: Vec<T>)
        requires
            Self::has_room(*opts),
        ensures
            data@ == Seq::<T>::empty(),
            call_ensures(Vec::<T>::with_capacity, (opts.export_row_threshold,), data),
    {
        let data = Vec::with_capacity(opts.export_row_threshold);
        data
    }

    /// Opens a compressed file on `buffer`, for `data` to be written to it. The
    /// buffer is only handed on.
    fn open(buffer: Buffer, schema: SchemaDescriptor, data: Vec<T>) -> (created: Result<
        Self,
        ParquetWriterError,
    >)
        ensures
            created matches Ok(w) && w.data == data && w.opened_on(
                buffer,
                schema,
                Compression::Gzip,
            ),
        opens_invariants none
    {
        match open_file(buffer, schema, Compression::Gzip) {
            Ok(writer) => Ok(Self { data, writer }),
            Err(error) => Err(error),
        }
    }

    /// Keeps the event. The file is not touched, so this cannot fail.
    pub fn write(&mut self, data: T) -> (written: Result<(), ParquetWriterError>)
        ensures
            written == Ok::<(), ParquetWriterError>(()),
            final(self).rows() == old(self).rows().push(data),
            final(self).file() == old(self).file(),
    {
        self.data.push(data);
        Ok(())
    }

    /// Does nothing: events reach the file only when it is completed.
    pub fn flush(&mut self) -> (flushed: Result<(), ParquetWriterError>)
        ensures
            flushed == Ok::<(), ParquetWriterError>(()),
            *final(self) == *old(self),
    {
        Ok(())
    }

    /// Gives away the file and the events to be written to it.
    pub fn into_parts(self) -> (parts: (ParquetFile, Vec<T>))
        ensures
            parts.0 == self.file(),
            parts.1@ == self.rows(),
    {
        (self.writer, self.data)
    }
}

} // verus!
