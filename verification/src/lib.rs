//! A writer for the TsFile columnar time-series format.
//!
//! The writer accepts typed, time-stamped samples addressed by
//! (device, measurement) and produces a self-describing on-disk artifact:
//! chunk groups of encoded pages, a two-level metadata index tree, a bloom
//! filter over the series paths, and a framed footer. Every serialization
//! step is specified down to the byte.

pub mod group_writer;
pub mod metadata;
pub mod murmur128;
pub mod schema;
pub mod statistics;
pub mod tsfile_writer;
pub mod types;
pub mod sink;
pub mod bloom_filter;
pub mod chunk_writer;
pub mod compression;
pub mod encoding;
pub mod float_bits;
pub mod utils;

pub use bloom_filter::{BloomFilter, HashFunction};
pub use chunk_writer::{Chunk, ChunkHeader, ChunkMetadata, ChunkWriter};
pub use compression::CompressionType;
pub use group_writer::{ChunkGroup, ChunkGroupHeader, ChunkGroupMetadata, GroupWriter};
pub use sink::write_str;
pub use metadata::{MetadataIndexEntry, MetadataIndexNode, MetadataIndexNodeType, TimeSeriesMetadata, TsFileMetadata};
pub use sink::Serializable;
pub use encoding::{TSEncoding, TimeEncoder};
pub use sink::{PositionedWrite, WriteWrapper};
pub use schema::{DeviceBuilder, MeasurementGroup, MeasurementSchema, Path, Schema, TsFileSchemaBuilder};
pub use statistics::Statistics;
pub use tsfile_writer::{write_file_3, DataPoint, TsFileWriter};
pub use types::{IoTDBValue, TSDataType, TsFileError};
pub use utils::{read_var_u32, write_var_i32, write_var_u32};
