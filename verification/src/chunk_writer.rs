//! One measurement's chunk: buffered page, running statistics, and the
//! chunk's exact serialized form.
//!
//! A chunk holds a single page. The page body is the framed time column
//! followed by the plain-encoded value column; the chunk frames the page
//! with its header: marker `0x05`, the measurement id, the page region
//! length, and the data-type, compression and encoding tags.

use vstd::prelude::*;
use vstd::string::StringSliceAdditionalSpecFns;

use crate::compression::CompressionType;
use crate::encoding::lemma_time_bytes_len;
use crate::encoding::sp_time_bytes;
use crate::encoding::sp_time_step;
use crate::encoding::time_enc_wf;
use crate::encoding::TimeEncoder;
use crate::encoding::TimeModel;
use crate::schema::MeasurementSchema;
use crate::sink::PositionedWrite;
use crate::statistics::sp_stats_new;
use crate::statistics::sp_stats_update;
use crate::statistics::Statistics;
use crate::types::IoTDBValue;
use crate::types::TSDataType;
use crate::types::TsFileError;
use crate::encoding::TSEncoding;
use crate::utils::be_i64_bytes;
use crate::utils::be_u32_bytes;
use crate::utils::push_be_i64;
use crate::utils::push_be_u32;
use crate::utils::push_bytes;
use crate::utils::push_str_frame;
use crate::utils::varint32_bytes;
use crate::utils::varuint_bytes;
use crate::utils::write_var_i32;
use crate::utils::write_var_u32;
use crate::utils::lemma_varuint_bytes_len;

verus! {

/// The byte budget of a chunk's single page; a write that would grow a
/// column past it is refused with `PageOverflow`.
pub const PAGE_BUDGET: usize = 0x0FFF_FFFF;

/// The plain encoding of one value: a zig-zag varint for the 32-bit integer
/// kind, fixed-width big-endian otherwise.
pub open spec fn sp_value_bytes(v: IoTDBValue) -> Seq<u8> {
    match v {
        IoTDBValue::INT(x) => varint32_bytes(x),
        IoTDBValue::LONG(x) => be_i64_bytes(x),
        IoTDBValue::FLOAT(b) => be_u32_bytes(b),
        IoTDBValue::DOUBLE(_) => Seq::empty(),
    }
}

/// The abstract state of one chunk.
#[verifier::ext_equal]
pub struct ChunkView {
    /// The measurement id bytes.
    pub measurement_id: Seq<u8>,
    /// The column's data type.
    pub data_type: TSDataType,
    /// The time encoder's state.
    pub time: TimeModel,
    /// The plain-encoded value column so far.
    pub values: Seq<u8>,
    /// The running statistics.
    pub statistics: Statistics,
    /// The number of samples accepted.
    pub num_values: u64,
}

/// The page body: the framed time column, then the value column.
pub open spec fn sp_page_body(c: ChunkView) -> Seq<u8> {
    let tb = sp_time_bytes(c.time);
    varuint_bytes(tb.len()) + tb + c.values
}

/// The complete serialized chunk: marker, measurement id frame, page region
/// length, the three tags, the uncompressed and compressed sizes (equal
/// here) and the page body.
pub open spec fn sp_chunk_bytes(c: ChunkView) -> Seq<u8> {
    let body = sp_page_body(c);
    let u = body.len();
    let region = varuint_bytes(u).len() + varuint_bytes(u).len() + u;
    seq![5u8] + crate::sink::str_frame(c.measurement_id) + varuint_bytes(region as nat)
        + seq![c.data_type.tag(), 0u8, 0u8] + varuint_bytes(u) + varuint_bytes(u) + body
}

/// The chunk invariant: the statistics kind matches the column, the time
/// encoder is within a block, the id frames, and the columns are within the
/// page budget (plus the slack one write can add).
pub open spec fn chunk_wf(c: ChunkView) -> bool {
    &&& time_enc_wf(c.time)
    &&& c.measurement_id.len() < 0x10_0000
    &&& c.values.len() <= PAGE_BUDGET + 8
    &&& c.time.out.len() <= PAGE_BUDGET + 1048
    &&& c.num_values <= c.values.len() + 1
    &&& match (c.statistics, c.data_type) {
        (Statistics::Int32 { .. }, TSDataType::INT32) => true,
        (Statistics::Int64 { .. }, TSDataType::INT64) => true,
        (Statistics::Float { .. }, TSDataType::FLOAT) => true,
        _ => false,
    }
}

/// The chunk state after accepting one matching sample.
pub open spec fn sp_chunk_step(c: ChunkView, ts: i64, v: IoTDBValue) -> ChunkView {
    ChunkView {
        time: sp_time_step(c.time, ts),
        values: c.values + sp_value_bytes(v),
        statistics: sp_stats_update(c.statistics, ts, v),
        num_values: (c.num_values + 1) as u64,
        ..c
    }
}

/// The metadata captured for one written chunk.
pub struct ChunkMetadata {
    /// The measurement id bytes.
    pub measurement_id: Vec<u8>,
    /// The column's data type.
    pub data_type: TSDataType,
    /// The mask byte; zero for single, unaligned chunks.
    pub mask: u8,
    /// The byte position of the chunk's `0x05` marker in the file.
    pub offset_of_chunk_header: u64,
    /// The chunk's statistics at serialization time.
    pub statistics: Statistics,
}

/// The writer for one measurement's chunk.
pub struct ChunkWriter {
    /// The measurement id bytes.
    pub measurement_id: Vec<u8>,
    /// The column's data type.
    pub data_type: TSDataType,
    /// The declared value encoding.
    pub encoding: TSEncoding,
    /// The declared compression kind.
    pub compression: CompressionType,
    /// The time-column encoder.
    pub time_encoder: TimeEncoder,
    /// The plain-encoded value column.
    pub value_buffer: Vec<u8>,
    /// The running statistics.
    pub statistics: Statistics,
    /// The number of samples accepted.
    pub num_values: u64,
}

impl View for ChunkWriter {
    type V = ChunkView;

    open spec fn view(&self) -> ChunkView {
        ChunkView {
            measurement_id: self.measurement_id@,
            data_type: self.data_type,
            time: self.time_encoder@,
            values: self.value_buffer@,
            statistics: self.statistics,
            num_values: self.num_values,
        }
    }
}

impl ChunkWriter {
    /// A fresh chunk writer for the column that `ms` describes.
    pub fn new(measurement_id: Vec<u8>, ms: &MeasurementSchema) -> (r: ChunkWriter)
        requires
            measurement_id@.len() < 0x10_0000,
        ensures
            chunk_wf(r@),
            r@.measurement_id == measurement_id@,
            r@.data_type == ms.data_type,
            r@.statistics == sp_stats_new(ms.data_type),
            r@.num_values == 0,
            r@.values == Seq::<u8>::empty(),
            r@.time.have_first == false,
            r@.time.out == Seq::<u8>::empty(),
    {
        ChunkWriter {
            measurement_id,
            data_type: ms.data_type,
            encoding: ms.encoding,
            compression: ms.compression,
            time_encoder: TimeEncoder::new(),
            value_buffer: Vec::new(),
            statistics: Statistics::new(ms.data_type),
            num_values: 0,
        }
    }

    /// Accepts the sample `(ts, value)`. A value of the wrong kind is
    /// refused with `TypeMismatch`; a sample that would grow a column past
    /// the page budget is refused with `PageOverflow`; either way the chunk
    /// is unchanged.
    pub fn write(&mut self, ts: i64, value: &IoTDBValue) -> (r: Result<(), TsFileError>)
        requires
            chunk_wf(old(self)@),
        ensures
            chunk_wf(final(self)@),
            match r {
                Ok(()) => {
                    &&& value.matches_type(old(self)@.data_type)
                    &&& old(self)@.values.len() <= PAGE_BUDGET
                    &&& old(self)@.time.out.len() <= PAGE_BUDGET
                    &&& final(self)@ == sp_chunk_step(old(self)@, ts, *value)
                },
                Err(e) => {
                    &&& *final(self) == *old(self)
                    &&& (e == TsFileError::TypeMismatch || e == TsFileError::PageOverflow)
                    &&& (e == TsFileError::TypeMismatch) == !value.matches_type(
                        old(self)@.data_type,
                    )
                    &&& (e == TsFileError::PageOverflow) == (value.matches_type(
                        old(self)@.data_type,
                    ) && (old(self)@.values.len() > PAGE_BUDGET || old(
                        self,
                    )@.time.out.len() > PAGE_BUDGET))
                },
            },
    {
        let matches = match (value, self.data_type) {
            (IoTDBValue::INT(_), TSDataType::INT32) => true,
            (IoTDBValue::LONG(_), TSDataType::INT64) => true,
            (IoTDBValue::FLOAT(_), TSDataType::FLOAT) => true,
            _ => false,
        };
        if !matches {
            return Err(TsFileError::TypeMismatch);
        }
        if self.value_buffer.len() > PAGE_BUDGET || self.time_encoder.out.len()
            > PAGE_BUDGET {
            return Err(TsFileError::PageOverflow);
        }
        proof {
            crate::encoding::lemma_time_step_out_growth(self@.time, ts);
        }
        self.time_encoder.encode(ts);
        match value {
            IoTDBValue::INT(x) => {
                write_var_i32(*x, &mut self.value_buffer);
            },
            IoTDBValue::LONG(x) => {
                push_be_i64(&mut self.value_buffer, *x);
            },
            IoTDBValue::FLOAT(b) => {
                push_be_u32(&mut self.value_buffer, *b);
            },
            IoTDBValue::DOUBLE(_) => {},
        }
        self.statistics.update(ts, value);
        self.num_values = self.num_values + 1;
        Ok(())
    }

    /// Serializes the chunk. An empty chunk is skipped entirely and yields
    /// no metadata; otherwise the chunk's bytes are emitted and the returned
    /// metadata records the position of the chunk's `0x05` marker.
    #[verifier::rlimit(100)]
    #[verifier::spinoff_prover]
    pub fn serialize<W: PositionedWrite>(&self, file: &mut W) -> (r: Option<
        ChunkMetadata,
    >)
        requires
            old(file).wf(),
            chunk_wf(self@),
        ensures
            final(file).wf(),
            self@.num_values == 0 ==> final(file).sunk() == old(file).sunk() && r is None,
            self@.num_values > 0 ==> {
                &&& final(file).sunk() == old(file).sunk() + sp_chunk_bytes(self@)
                &&& r is Some
                &&& r->Some_0.measurement_id@ == self@.measurement_id
                &&& r->Some_0.data_type == self@.data_type
                &&& r->Some_0.mask == 0
                &&& r->Some_0.offset_of_chunk_header == old(file).sunk().len()
                &&& r->Some_0.statistics == self@.statistics
            },
    {
        if self.num_values == 0 {
            return None;
        }
        let offset = file.get_position();
        proof {
            lemma_time_bytes_len(self@.time);
        }
        // The page body: framed time column, then values.
        let mut tb: Vec<u8> = Vec::new();
        self.time_encoder.write_to(&mut tb);
        let mut body: Vec<u8> = Vec::new();
        proof {
            lemma_varuint_bytes_len(tb@.len());
        }
        write_var_u32(tb.len() as u32, &mut body);
        push_bytes(&mut body, tb.as_slice());
        push_bytes(&mut body, self.value_buffer.as_slice());
        proof {
            assert(body@ =~= sp_page_body(self@));
        }
        // The chunk frame around it.
        let u: usize = body.len();
        let mut uv: Vec<u8> = Vec::new();
        let n1 = write_var_u32(u as u32, &mut uv);
        let region: usize = n1 + n1 + u;
        let mut chunk: Vec<u8> = Vec::new();
        chunk.push(5u8);
        push_str_frame(&mut chunk, self.measurement_id.as_slice());
        write_var_u32(region as u32, &mut chunk);
        chunk.push(self.data_type.serialize());
        chunk.push(0u8);
        chunk.push(0u8);
        push_bytes(&mut chunk, uv.as_slice());
        push_bytes(&mut chunk, uv.as_slice());
        push_bytes(&mut chunk, body.as_slice());
        proof {
            assert(chunk@ =~= sp_chunk_bytes(self@));
        }
        file.write_all(chunk.as_slice());
        let cm = ChunkMetadata {
            measurement_id: vstd::slice::slice_to_vec(self.measurement_id.as_slice()),
            data_type: self.data_type,
            mask: 0,
            offset_of_chunk_header: offset,
            statistics: self.statistics,
        };
        Some(cm)
    }
}

/// A bare chunk header record: marker, measurement id frame, a declared
/// data size and the three tags for a 32-bit integer plain uncompressed
/// column.
pub struct ChunkHeader {
    /// The measurement id bytes.
    pub measurement_id: Vec<u8>,
    /// The declared data length byte.
    pub data_size: u8,
}

impl ChunkHeader {
    /// A header for `measurement_id` with the default data length.
    pub fn new(measurement_id: &str) -> (r: ChunkHeader)
        ensures
            r.measurement_id@ == measurement_id.spec_bytes(),
            r.data_size == 0x20,
    {
        ChunkHeader {
            measurement_id: vstd::slice::slice_to_vec(measurement_id.as_bytes()),
            data_size: 0x20,
        }
    }
}

impl crate::sink::Serializable for ChunkHeader {
    open spec fn record_bytes(&self) -> Seq<u8> {
        seq![5u8] + crate::sink::str_frame(self.measurement_id@) + seq![self.data_size, 1u8, 0u8, 0u8]
    }

    open spec fn serial_wf(&self) -> bool {
        self.measurement_id@.len() < 0x10_0000
    }

    fn serialize<W: PositionedWrite>(&self, file: &mut W) {
        let mut buf: Vec<u8> = Vec::new();
        buf.push(5u8);
        push_str_frame(&mut buf, self.measurement_id.as_slice());
        buf.push(self.data_size);
        buf.push(1u8);
        buf.push(0u8);
        buf.push(0u8);
        file.write_all(buf.as_slice());
        proof {
            assert(file.sunk() =~= old(file).sunk() + self.record_bytes());
        }
    }
}

/// A chunk record that consists of its header alone.
pub struct Chunk {
    /// The chunk's header.
    pub header: ChunkHeader,
}

impl crate::sink::Serializable for Chunk {
    open spec fn record_bytes(&self) -> Seq<u8> {
        self.header.record_bytes()
    }

    open spec fn serial_wf(&self) -> bool {
        self.header.serial_wf()
    }

    fn serialize<W: PositionedWrite>(&self, file: &mut W) {
        self.header.serialize(file);
    }
}

} // verus!
