//! One device's chunk group: its chunk writers in schema order, the
//! group's serialized form, and the chunk metadata captured on the way.

use vstd::prelude::*;
use vstd::string::StringSliceAdditionalSpecFns;

use crate::chunk_writer::chunk_wf;
use crate::chunk_writer::sp_chunk_bytes;
use crate::chunk_writer::sp_chunk_step;
use crate::chunk_writer::ChunkMetadata;
use crate::chunk_writer::ChunkView;
use crate::chunk_writer::ChunkWriter;
use crate::schema::MeasurementGroup;
use crate::sink::str_frame;
use crate::sink::PositionedWrite;
use crate::statistics::Statistics;
use crate::types::IoTDBValue;
use crate::types::TSDataType;
use crate::types::TsFileError;
use crate::utils::bytes_eq;
use crate::utils::push_bytes;
use crate::utils::push_str_frame;

verus! {

/// The abstract metadata of one written chunk.
#[verifier::ext_equal]
pub struct ChunkMetaView {
    /// The measurement id bytes.
    pub measurement_id: Seq<u8>,
    /// The column's data type.
    pub data_type: TSDataType,
    /// The mask byte; zero for single, unaligned chunks.
    pub mask: u8,
    /// The byte position of the chunk's `0x05` marker in the file.
    pub offset: int,
    /// The chunk's statistics at serialization time.
    pub statistics: Statistics,
}

/// The abstract view of a chunk metadata record.
pub open spec fn cm_view(cm: ChunkMetadata) -> ChunkMetaView {
    ChunkMetaView {
        measurement_id: cm.measurement_id@,
        data_type: cm.data_type,
        mask: cm.mask,
        offset: cm.offset_of_chunk_header as int,
        statistics: cm.statistics,
    }
}

/// The abstract views of a list of chunk metadata records.
pub open spec fn cm_views(cms: Seq<ChunkMetadata>) -> Seq<ChunkMetaView> {
    Seq::new(cms.len(), |i: int| cm_view(cms[i]))
}

/// The abstract state of one chunk group.
#[verifier::ext_equal]
pub struct GroupView {
    /// The device path bytes.
    pub device: Seq<u8>,
    /// The device's chunks, in schema order.
    pub chunks: Seq<ChunkView>,
}

/// True when at least one chunk of the group holds data.
pub open spec fn sp_has_data(chunks: Seq<ChunkView>) -> bool {
    exists|i: int| 0 <= i < chunks.len() && #[trigger] chunks[i].num_values > 0
}

/// The concatenated bytes of the group's non-empty chunks, in order.
pub open spec fn sp_chunks_bytes(chunks: Seq<ChunkView>) -> Seq<u8>
    decreases chunks.len(),
{
    if chunks.len() == 0 {
        Seq::empty()
    } else {
        sp_chunks_bytes(chunks.drop_last()) + (if chunks.last().num_values > 0 {
            sp_chunk_bytes(chunks.last())
        } else {
            Seq::empty()
        })
    }
}

/// The metadata of the group's non-empty chunks when their bytes begin at
/// file position `pos`: each record's offset is the position of its chunk.
pub open spec fn sp_chunk_metas(chunks: Seq<ChunkView>, pos: int) -> Seq<ChunkMetaView>
    decreases chunks.len(),
{
    if chunks.len() == 0 {
        Seq::empty()
    } else {
        sp_chunk_metas(chunks.drop_last(), pos) + (if chunks.last().num_values > 0 {
            seq![
                ChunkMetaView {
                    measurement_id: chunks.last().measurement_id,
                    data_type: chunks.last().data_type,
                    mask: 0,
                    offset: pos + sp_chunks_bytes(chunks.drop_last()).len(),
                    statistics: chunks.last().statistics,
                },
            ]
        } else {
            Seq::empty()
        })
    }
}

/// The group header's length: the marker byte and the framed device path
/// (zero when the group is empty and nothing is emitted).
pub open spec fn sp_group_header_len(g: GroupView) -> int {
    if sp_has_data(g.chunks) {
        (1 + str_frame(g.device).len()) as int
    } else {
        0
    }
}

/// The group's serialized form: marker `0x00`, the framed device path, then
/// every non-empty chunk; an entirely empty group is skipped.
pub open spec fn sp_group_bytes(g: GroupView) -> Seq<u8> {
    if sp_has_data(g.chunks) {
        seq![0u8] + str_frame(g.device) + sp_chunks_bytes(g.chunks)
    } else {
        Seq::empty()
    }
}

/// The index of the first chunk with measurement id `id` at or after `i`,
/// or -1.
pub open spec fn sp_find_from(chunks: Seq<ChunkView>, id: Seq<u8>, i: int) -> int
    decreases chunks.len() - i,
{
    if i < 0 || i >= chunks.len() {
        -1
    } else if chunks[i].measurement_id == id {
        i
    } else {
        sp_find_from(chunks, id, i + 1)
    }
}

/// A successful find is an in-range index of a chunk with the sought id.
pub proof fn lemma_find_from_range(chunks: Seq<ChunkView>, id: Seq<u8>, i: int)
    ensures
        sp_find_from(chunks, id, i) == -1 || (i <= sp_find_from(chunks, id, i)
            < chunks.len() && chunks[sp_find_from(chunks, id, i)].measurement_id == id),
    decreases chunks.len() - i,
{
    if 0 <= i < chunks.len() && chunks[i].measurement_id != id {
        lemma_find_from_range(chunks, id, i + 1);
    }
}

/// The group invariant: the device path frames and every chunk is
/// well-formed.
pub open spec fn group_wf(g: GroupView) -> bool {
    &&& g.device.len() < 0x10_0000
    &&& forall|i: int| 0 <= i < g.chunks.len() ==> chunk_wf(#[trigger] g.chunks[i])
}

/// The writer for one device's chunk group.
pub struct GroupWriter {
    /// The device path bytes.
    pub device_id: Vec<u8>,
    /// One chunk writer per measurement, in schema order.
    pub chunk_writers: Vec<ChunkWriter>,
}

impl View for GroupWriter {
    type V = GroupView;

    open spec fn view(&self) -> GroupView {
        GroupView {
            device: self.device_id@,
            chunks: Seq::new(self.chunk_writers@.len(), |i: int| self.chunk_writers@[i]@),
        }
    }
}

impl GroupWriter {
    /// A fresh group writer with one chunk writer per measurement of
    /// `group`, in schema order.
    pub fn new(device_id: Vec<u8>, group: &MeasurementGroup) -> (r: GroupWriter)
        requires
            device_id@.len() < 0x10_0000,
            forall|i: int|
                0 <= i < group.measurement_schemas@.len()
                    ==> (#[trigger] group.measurement_schemas@[i]).0@.len() < 0x10_0000,
        ensures
            group_wf(r@),
            r@.device == device_id@,
            r@.chunks.len() == group.measurement_schemas@.len(),
            forall|i: int|
                0 <= i < group.measurement_schemas@.len() ==> {
                    &&& (#[trigger] r@.chunks[i]).measurement_id
                        == group.measurement_schemas@[i].0@
                    &&& r@.chunks[i].data_type == group.measurement_schemas@[i].1.data_type
                    &&& r@.chunks[i].num_values == 0
                },
    {
        let n = group.measurement_schemas.len();
        let mut chunk_writers: Vec<ChunkWriter> = Vec::new();
        let mut i: usize = 0;
        while i < n
            invariant
                n == group.measurement_schemas@.len(),
                i <= n,
                chunk_writers@.len() == i,
                forall|k: int|
                    0 <= k < n ==> (#[trigger] group.measurement_schemas@[k]).0@.len()
                        < 0x10_0000,
                forall|k: int|
                    0 <= k < i ==> {
                        &&& chunk_wf((#[trigger] chunk_writers@[k])@)
                        &&& chunk_writers@[k]@.measurement_id
                            == group.measurement_schemas@[k].0@
                        &&& chunk_writers@[k]@.data_type
                            == group.measurement_schemas@[k].1.data_type
                        &&& chunk_writers@[k]@.num_values == 0
                    },
            decreases n - i,
        {
            let pair = &group.measurement_schemas[i];
            let id = vstd::slice::slice_to_vec(pair.0.as_slice());
            let cw = ChunkWriter::new(id, &pair.1);
            chunk_writers.push(cw);
            i = i + 1;
        }
        GroupWriter { device_id, chunk_writers }
    }

    /// Routes the sample `(ts, value)` to the chunk writer of `measurement`.
    /// An unknown measurement is refused with `UnknownMeasurement`; the
    /// chunk itself may refuse with `TypeMismatch` or `PageOverflow`. On
    /// any error the group is unchanged.
    #[verifier::rlimit(100)]
    #[verifier::spinoff_prover]
    pub fn write(&mut self, measurement: &str, ts: i64, value: &IoTDBValue) -> (r: Result<
        (),
        TsFileError,
    >)
        requires
            group_wf(old(self)@),
        ensures
            group_wf(final(self)@),
            final(self)@.device == old(self)@.device,
            final(self)@.chunks.len() == old(self)@.chunks.len(),
            ({
                let idx = sp_find_from(old(self)@.chunks, measurement.spec_bytes(), 0);
                match r {
                    Ok(()) => {
                        &&& idx >= 0
                        &&& value.matches_type(old(self)@.chunks[idx].data_type)
                        &&& old(self)@.chunks[idx].values.len()
                            <= crate::chunk_writer::PAGE_BUDGET
                        &&& old(self)@.chunks[idx].time.out.len()
                            <= crate::chunk_writer::PAGE_BUDGET
                        &&& final(self)@.chunks == old(self)@.chunks.update(
                            idx,
                            sp_chunk_step(old(self)@.chunks[idx], ts, *value),
                        )
                    },
                    Err(e) => {
                        &&& final(self)@.chunks == old(self)@.chunks
                        &&& (e == TsFileError::UnknownMeasurement || e
                            == TsFileError::TypeMismatch || e == TsFileError::PageOverflow)
                        &&& (e == TsFileError::UnknownMeasurement) == (idx < 0)
                        &&& idx >= 0 ==> (e == TsFileError::TypeMismatch)
                            == !value.matches_type(old(self)@.chunks[idx].data_type)
                        &&& (e == TsFileError::PageOverflow) == (idx >= 0
                            && value.matches_type(old(self)@.chunks[idx].data_type) && (
                        old(self)@.chunks[idx].values.len()
                            > crate::chunk_writer::PAGE_BUDGET || old(
                            self,
                        )@.chunks[idx].time.out.len() > crate::chunk_writer::PAGE_BUDGET))
                    },
                }
            }),
    {
        let id = measurement.as_bytes();
        let found = self.find_measurement(id);
        match found {
            None => Err(TsFileError::UnknownMeasurement),
            Some(i) => {
                let ghost pre = self@;
                let ghost idx = i as int;
                proof {
                    assert(chunk_wf(pre.chunks[idx]));
                }
                let mut cw = self.chunk_writers.remove(i);
                let r = cw.write(ts, value);
                self.chunk_writers.insert(i, cw);
                proof {
                    assert(self.chunk_writers@ =~= old(self).chunk_writers@.update(
                        idx,
                        cw,
                    ));
                    if r is Ok {
                        assert(self@.chunks =~= pre.chunks.update(
                            idx,
                            sp_chunk_step(pre.chunks[idx], ts, *value),
                        ));
                    } else {
                        assert(self@.chunks =~= pre.chunks);
                    }
                    assert(forall|k: int|
                        0 <= k < self@.chunks.len() ==> chunk_wf(
                            #[trigger] self@.chunks[k],
                        )) by {
                        assert(forall|k: int|
                            0 <= k < self@.chunks.len() && k != idx ==> self@.chunks[k]
                                == pre.chunks[k]);
                    }
                }
                r
            },
        }
    }

    /// The index of the first chunk writer whose measurement id is `id`.
    fn find_measurement(&self, id: &[u8]) -> (r: Option<usize>)
        ensures
            match r {
                Some(i) => {
                    &&& 0 <= i < self@.chunks.len()
                    &&& sp_find_from(self@.chunks, id@, 0) == i
                },
                None => sp_find_from(self@.chunks, id@, 0) == -1,
            },
    {
        let n = self.chunk_writers.len();
        let mut i: usize = 0;
        while i < n
            invariant
                n == self.chunk_writers@.len(),
                i <= n,
                sp_find_from(self@.chunks, id@, 0) == sp_find_from(
                    self@.chunks,
                    id@,
                    i as int,
                ),
            decreases n - i,
        {
            if bytes_eq(self.chunk_writers[i].measurement_id.as_slice(), id) {
                proof {
                    assert(self@.chunks[i as int].measurement_id == id@);
                }
                return Some(i);
            }
            i = i + 1;
        }
        None
    }

    /// Serializes the group: the chunk-group header, then every non-empty
    /// chunk, collecting one metadata record per written chunk. A group
    /// with no data emits nothing.
    pub fn serialize<W: PositionedWrite>(&self, file: &mut W) -> (r: Vec<ChunkMetadata>)
        requires
            old(file).wf(),
            group_wf(self@),
        ensures
            final(file).wf(),
            final(file).sunk() == old(file).sunk() + sp_group_bytes(self@),
            cm_views(r@) == sp_chunk_metas(
                self@.chunks,
                old(file).sunk().len() as int + sp_group_header_len(self@),
            ),
    {
        let n = self.chunk_writers.len();
        // Does any chunk hold data?
        let mut any: bool = false;
        let mut i: usize = 0;
        while i < n
            invariant
                n == self.chunk_writers@.len(),
                i <= n,
                any == sp_has_data(self@.chunks.take(i as int)),
            decreases n - i,
        {
            if self.chunk_writers[i].num_values > 0 {
                any = true;
                proof {
                    assert(self@.chunks.take(i as int + 1)[i as int].num_values > 0);
                }
            }
            proof {
                if sp_has_data(self@.chunks.take(i as int)) {
                    let w = choose|k: int|
                        0 <= k < i && #[trigger] self@.chunks.take(i as int)[k].num_values
                            > 0;
                    assert(self@.chunks.take(i as int + 1)[w].num_values > 0);
                }
            }
            i = i + 1;
        }
        proof {
            assert(self@.chunks.take(n as int) =~= self@.chunks);
        }
        let mut metadata: Vec<ChunkMetadata> = Vec::new();
        if !any {
            proof {
                lemma_all_empty_no_metas(
                    self@.chunks,
                    old(file).sunk().len() as int + sp_group_header_len(self@),
                );
                assert(cm_views(metadata@) =~= Seq::<ChunkMetaView>::empty());
                assert(file.sunk() =~= old(file).sunk() + sp_group_bytes(self@));
            }
            return metadata;
        }
        // Chunk-group header: marker, then the framed device path.
        let mut header: Vec<u8> = Vec::new();
        header.push(0u8);
        push_str_frame(&mut header, self.device_id.as_slice());
        file.write_all(header.as_slice());
        let ghost base: int = old(file).sunk().len() as int + 1 + str_frame(self@.device).len() as int;
        proof {
            assert(file.sunk() =~= old(file).sunk() + seq![0u8] + str_frame(self@.device)
                + sp_chunks_bytes(self@.chunks.take(0)));
            assert(cm_views(metadata@) =~= sp_chunk_metas(self@.chunks.take(0), base));
        }
        let mut i: usize = 0;
        while i < n
            invariant
                n == self.chunk_writers@.len(),
                i <= n,
                file.wf(),
                group_wf(self@),
                file.sunk() == old(file).sunk() + seq![0u8] + str_frame(self@.device)
                    + sp_chunks_bytes(self@.chunks.take(i as int)),
                cm_views(metadata@) == sp_chunk_metas(
                    self@.chunks.take(i as int),
                    base,
                ),
                base == old(file).sunk().len() + 1 + str_frame(self@.device).len(),
            decreases n - i,
        {
            let ghost pre_sunk = file.sunk();
            proof {
                assert(chunk_wf(self@.chunks[i as int]));
            }
            let cm = self.chunk_writers[i].serialize(file);
            match cm {
                Some(c) => {
                    metadata.push(c);
                },
                None => {},
            }
            i = i + 1;
            proof {
                assert(self@.chunks.take(i as int).drop_last() =~= self@.chunks.take(
                    i - 1,
                ));
                assert(self@.chunks.take(i as int).last() == self@.chunks[i - 1]);
                assert(file.sunk() =~= old(file).sunk() + seq![0u8] + str_frame(
                    self@.device,
                ) + sp_chunks_bytes(self@.chunks.take(i as int)));
                assert(cm_views(metadata@) =~= sp_chunk_metas(
                    self@.chunks.take(i as int),
                    base,
                ));
            }
        }
        proof {
            assert(self@.chunks.take(n as int) =~= self@.chunks);
            assert(file.sunk() =~= old(file).sunk() + sp_group_bytes(self@));
        }
        metadata
    }
}

/// Collected metadata is at most one record per chunk, and every record's
/// id is a chunk's id.
pub proof fn lemma_chunk_metas_wf(chunks: Seq<ChunkView>, pos: int)
    requires
        forall|i: int| 0 <= i < chunks.len() ==> chunk_wf(#[trigger] chunks[i]),
    ensures
        sp_chunk_metas(chunks, pos).len() <= chunks.len(),
        forall|j: int|
            0 <= j < sp_chunk_metas(chunks, pos).len() ==> (#[trigger] sp_chunk_metas(
                chunks,
                pos,
            )[j]).measurement_id.len() < 0x10_0000,
    decreases chunks.len(),
{
    if chunks.len() > 0 {
        assert(forall|i: int|
            0 <= i < chunks.drop_last().len() ==> chunk_wf(
                #[trigger] chunks.drop_last()[i],
            )) by {
            assert(forall|i: int|
                0 <= i < chunks.drop_last().len() ==> chunks.drop_last()[i] == chunks[i]);
        }
        lemma_chunk_metas_wf(chunks.drop_last(), pos);
        assert(chunk_wf(chunks[chunks.len() - 1]));
    }
}

/// A group whose chunks are all empty yields no metadata.
pub proof fn lemma_all_empty_no_metas(chunks: Seq<ChunkView>, pos: int)
    requires
        !sp_has_data(chunks),
    ensures
        sp_chunk_metas(chunks, pos) == Seq::<ChunkMetaView>::empty(),
        sp_chunks_bytes(chunks) == Seq::<u8>::empty(),
    decreases chunks.len(),
{
    if chunks.len() > 0 {
        assert(!sp_has_data(chunks.drop_last())) by {
            if sp_has_data(chunks.drop_last()) {
                let w = choose|i: int|
                    0 <= i < chunks.drop_last().len()
                        && #[trigger] chunks.drop_last()[i].num_values > 0;
                assert(chunks[w].num_values > 0);
            }
        }
        lemma_all_empty_no_metas(chunks.drop_last(), pos);
        assert(chunks.last().num_values == 0) by {
            if chunks.last().num_values > 0 {
                assert(chunks[chunks.len() - 1].num_values > 0);
            }
        }
        assert(sp_chunk_metas(chunks, pos) =~= Seq::<ChunkMetaView>::empty());
        assert(sp_chunks_bytes(chunks) =~= Seq::<u8>::empty());
    }
}

/// The metadata of one written chunk group: the device and its chunks'
/// metadata.
pub struct ChunkGroupMetadata {
    /// The device path bytes.
    pub device_id: Vec<u8>,
    /// One record per written chunk, in schema order.
    pub chunk_metadata: Vec<ChunkMetadata>,
}

impl ChunkGroupMetadata {
    /// Metadata for `device_id` with the collected chunk records.
    pub fn new(device_id: Vec<u8>, chunk_metadata: Vec<ChunkMetadata>) -> (r:
        ChunkGroupMetadata)
        ensures
            r.device_id@ == device_id@,
            r.chunk_metadata@ == chunk_metadata@,
    {
        ChunkGroupMetadata { device_id, chunk_metadata }
    }
}

/// A bare chunk-group header record: the group marker, then the framed
/// device path.
pub struct ChunkGroupHeader {
    /// The device path bytes.
    pub device_id: Vec<u8>,
}

impl crate::sink::Serializable for ChunkGroupHeader {
    open spec fn record_bytes(&self) -> Seq<u8> {
        seq![0u8] + str_frame(self.device_id@)
    }

    open spec fn serial_wf(&self) -> bool {
        self.device_id@.len() < 0x10_0000
    }

    fn serialize<W: PositionedWrite>(&self, file: &mut W) {
        let mut buf: Vec<u8> = Vec::new();
        buf.push(0u8);
        push_str_frame(&mut buf, self.device_id.as_slice());
        file.write_all(buf.as_slice());
        proof {
            assert(file.sunk() =~= old(file).sunk() + self.record_bytes());
        }
    }
}

/// A chunk-group record that consists of its header alone.
pub struct ChunkGroup {
    /// The group's header.
    pub header: ChunkGroupHeader,
}

impl crate::sink::Serializable for ChunkGroup {
    open spec fn record_bytes(&self) -> Seq<u8> {
        self.header.record_bytes()
    }

    open spec fn serial_wf(&self) -> bool {
        self.header.serial_wf()
    }

    fn serialize<W: PositionedWrite>(&self, file: &mut W) {
        self.header.serialize(file);
    }
}

} // verus!
