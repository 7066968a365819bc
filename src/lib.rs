//! Encodes columnar record batches into packed, fixed-width rows: a null
//! bitmap, then each field's little-endian value at an offset fixed by the schema.

pub mod types;
pub mod bytes;
pub mod layout;
pub mod writer;
pub mod batch;
pub mod laws;

pub use batch::{bench_write_batch, check_columns, check_schema, write_batch, write_batch_unchecked};
pub use layout::RowLayout;
pub use types::{Column, ColumnValues, DataType, Field, RecordBatch, RowError, Schema};
pub use writer::{write_row, RowWriter};
