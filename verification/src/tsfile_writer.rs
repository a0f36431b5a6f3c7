//! The file writer: routing samples to chunk groups and serializing the
//! complete file on close.
//!
//! The file is the opening magic and version byte, the chunk groups, the
//! metadata marker, the per-series records and the index tree, the footer
//! record pointing back at the metadata section, the bloom filter over the
//! series paths, the footer length and the trailing magic. Every byte of it
//! is pinned by [`sp_file_bytes`].

use vstd::prelude::*;
use vstd::string::StringSliceAdditionalSpecFns;

use crate::bloom_filter::sp_bloom_size;
use crate::bloom_filter::sp_set_bits;
use crate::bloom_filter::BloomFilter;
use crate::bloom_filter::bloom_wf;
use crate::chunk_writer::sp_chunk_step;
use crate::chunk_writer::ChunkView;
use crate::chunk_writer::PAGE_BUDGET;
use crate::group_writer::cm_views;
use crate::group_writer::group_wf;
use crate::group_writer::sp_chunk_metas;
use crate::group_writer::sp_find_from;
use crate::group_writer::sp_group_bytes;
use crate::group_writer::sp_group_header_len;
use crate::group_writer::ChunkGroupMetadata;
use crate::group_writer::ChunkMetaView;
use crate::group_writer::GroupView;
use crate::group_writer::GroupWriter;
use crate::metadata::dev_views;
use crate::metadata::tsm_views;
use crate::metadata::sp_construct_bytes;
use crate::metadata::sp_construct_root;
use crate::metadata::sp_file_meta_bytes;
use crate::metadata::DevView;
use crate::metadata::MetadataIndexNode;
use crate::metadata::TimeSeriesMetadata;
use crate::metadata::TSMView;
use crate::metadata::TsFileMetadata;
use crate::schema::Path;
use crate::schema::Schema;
use crate::sink::PositionedWrite;
use crate::sink::Serializable;
use crate::sink::WriteWrapper;
use crate::statistics::sp_stats_update;
use crate::types::IoTDBValue;
use crate::types::TsFileError;
use crate::utils::be_u32_bytes;
use crate::utils::be_u64_bytes;

verus! {

/// The abstract state of the writer.
#[verifier::ext_equal]
pub struct WriterView {
    /// The chunk groups, in schema order.
    pub groups: Seq<GroupView>,
    /// True once the file was closed.
    pub closed: bool,
}

/// The writer invariant: every group is well-formed and the counts fit the
/// format's arities.
pub open spec fn writer_wf(w: WriterView) -> bool {
    &&& w.groups.len() < 0x1_0000_0000
    &&& forall|i: int|
        0 <= i < w.groups.len() ==> group_wf(#[trigger] w.groups[i]) && w.groups[i].chunks.len()
            < 0x40_0000_0000
}

/// The index of the first group whose device is `device`, or -1.
pub open spec fn sp_find_group(groups: Seq<GroupView>, device: Seq<u8>, i: int) -> int
    decreases groups.len() - i,
{
    if i < 0 || i >= groups.len() {
        -1
    } else if groups[i].device == device {
        i
    } else {
        sp_find_group(groups, device, i + 1)
    }
}

/// One measurement and value of a row write.
pub struct DataPoint {
    /// The measurement id.
    pub measurement: String,
    /// The value.
    pub value: IoTDBValue,
}

impl DataPoint {
    /// The point `(measurement, value)`.
    pub fn new(measurement: &str, value: IoTDBValue) -> (r: DataPoint)
        ensures
            r.measurement@ == measurement@,
            r.value == value,
    {
        DataPoint { measurement: measurement.to_owned(), value }
    }
}

/// The result of routing one sample: the group sequence afterwards and the
/// error, if the sample was refused.
pub open spec fn sp_writer_write(
    groups: Seq<GroupView>,
    device: Seq<u8>,
    measurement: Seq<u8>,
    ts: i64,
    v: IoTDBValue,
) -> (Seq<GroupView>, Option<TsFileError>) {
    let g = sp_find_group(groups, device, 0);
    if g < 0 {
        (groups, Some(TsFileError::UnknownDevice))
    } else {
        let c = sp_find_from(groups[g].chunks, measurement, 0);
        if c < 0 {
            (groups, Some(TsFileError::UnknownMeasurement))
        } else if !v.matches_type(groups[g].chunks[c].data_type) {
            (groups, Some(TsFileError::TypeMismatch))
        } else if groups[g].chunks[c].values.len() > PAGE_BUDGET
            || groups[g].chunks[c].time.out.len() > PAGE_BUDGET {
            (groups, Some(TsFileError::PageOverflow))
        } else {
            (
                groups.update(
                    g,
                    GroupView {
                        chunks: groups[g].chunks.update(
                            c,
                            sp_chunk_step(groups[g].chunks[c], ts, v),
                        ),
                        ..groups[g]
                    },
                ),
                None,
            )
        }
    }
}

/// The measurement bytes and value of each point of a row.
pub open spec fn sp_points_of(points: Seq<DataPoint>) -> Seq<(Seq<u8>, IoTDBValue)> {
    Seq::new(
        points.len(),
        |i: int| (vstd::utf8::encode_utf8(points[i].measurement@), points[i].value),
    )
}

/// The group sequence and outcome after routing a row of points in order,
/// stopping at the first refused point.
pub open spec fn sp_writer_write_row(
    groups: Seq<GroupView>,
    device: Seq<u8>,
    ts: i64,
    points: Seq<(Seq<u8>, IoTDBValue)>,
) -> (Seq<GroupView>, Option<TsFileError>)
    decreases points.len(),
{
    if points.len() == 0 {
        (groups, None)
    } else {
        let first = sp_writer_write(groups, device, points[0].0, ts, points[0].1);
        if first.1 is Some {
            first
        } else {
            sp_writer_write_row(first.0, device, ts, points.skip(1))
        }
    }
}

/// The writer: one chunk group per device of the schema, in schema order.
pub struct TsFileWriter {
    /// The destination name the writer was opened with.
    pub filename: String,
    /// One group writer per device.
    pub group_writers: Vec<GroupWriter>,
    /// True once the file was closed.
    pub closed: bool,
}

impl View for TsFileWriter {
    type V = WriterView;

    open spec fn view(&self) -> WriterView {
        WriterView {
            groups: Seq::new(self.group_writers@.len(), |i: int| self.group_writers@[i]@),
            closed: self.closed,
        }
    }
}

impl TsFileWriter {
    /// A writer for `schema`, bound to the destination name `filename`.
    /// Every chunk group starts empty.
    pub fn new(filename: &str, schema: Schema) -> (r: TsFileWriter)
        requires
            schema.measurement_groups@.len() < 0x1_0000_0000,
            forall|i: int|
                0 <= i < schema.measurement_groups@.len() ==> {
                    &&& (#[trigger] schema.measurement_groups@[i]).0@.len() < 0x10_0000
                    &&& schema.measurement_groups@[i].1.measurement_schemas@.len()
                        < 0x40_0000_0000
                    &&& forall|k: int|
                        0 <= k < schema.measurement_groups@[i].1.measurement_schemas@.len()
                            ==> (
                        #[trigger] schema.measurement_groups@[i].1.measurement_schemas@[k]).0@.len()
                            < 0x10_0000
                },
        ensures
            writer_wf(r@),
            !r@.closed,
            r.filename@ == filename@,
            r@.groups.len() == schema.measurement_groups@.len(),
            forall|i: int|
                0 <= i < schema.measurement_groups@.len() ==> {
                    &&& (#[trigger] r@.groups[i]).device
                        == schema.measurement_groups@[i].0@
                    &&& r@.groups[i].chunks.len()
                        == schema.measurement_groups@[i].1.measurement_schemas@.len()
                    &&& forall|k: int|
                        0 <= k < r@.groups[i].chunks.len() ==> {
                            &&& (#[trigger] r@.groups[i].chunks[k]).measurement_id
                                == schema.measurement_groups@[i].1.measurement_schemas@[k].0@
                            &&& r@.groups[i].chunks[k].data_type
                                == schema.measurement_groups@[i].1.measurement_schemas@[k].1.data_type
                            &&& r@.groups[i].chunks[k].num_values == 0
                        }
                },
    {
        let n = schema.measurement_groups.len();
        let mut group_writers: Vec<GroupWriter> = Vec::new();
        let mut i: usize = 0;
        while i < n
            invariant
                n == schema.measurement_groups@.len(),
                n < 0x1_0000_0000,
                i <= n,
                group_writers@.len() == i,
                forall|x: int|
                    0 <= x < n ==> {
                        &&& (#[trigger] schema.measurement_groups@[x]).0@.len()
                            < 0x10_0000
                        &&& schema.measurement_groups@[x].1.measurement_schemas@.len()
                            < 0x40_0000_0000
                        &&& forall|k: int|
                            0 <= k
                                < schema.measurement_groups@[x].1.measurement_schemas@.len()
                                ==> (
                            #[trigger] schema.measurement_groups@[x].1.measurement_schemas@[k]).0@.len()
                                < 0x10_0000
                    },
                forall|x: int|
                    0 <= x < i ==> {
                        &&& group_wf((#[trigger] group_writers@[x])@)
                        &&& group_writers@[x]@.device
                            == schema.measurement_groups@[x].0@
                        &&& group_writers@[x]@.chunks.len()
                            == schema.measurement_groups@[x].1.measurement_schemas@.len()
                        &&& forall|k: int|
                            0 <= k < group_writers@[x]@.chunks.len() ==> {
                                &&& (#[trigger] group_writers@[x]@.chunks[k]).measurement_id
                                    == schema.measurement_groups@[x].1.measurement_schemas@[k].0@
                                &&& group_writers@[x]@.chunks[k].data_type
                                    == schema.measurement_groups@[x].1.measurement_schemas@[k].1.data_type
                                &&& group_writers@[x]@.chunks[k].num_values == 0
                            }
                    },
            decreases n - i,
        {
            let pair = &schema.measurement_groups[i];
            let id = vstd::slice::slice_to_vec(pair.0.as_slice());
            let gw = GroupWriter::new(id, &pair.1);
            group_writers.push(gw);
            i = i + 1;
        }
        TsFileWriter { filename: filename.to_owned(), group_writers, closed: false }
    }

    /// Routes the sample `(timestamp, value)` to the chunk of
    /// `(device, measurement)`. A write after `close` is refused with
    /// `AlreadyClosed`; an unknown device or measurement, a value of the
    /// wrong kind, or an exhausted page budget is refused with the matching
    /// error. On any error the writer is unchanged.
    #[verifier::rlimit(100)]
    #[verifier::spinoff_prover]
    pub fn write(
        &mut self,
        device: &str,
        measurement: &str,
        timestamp: i64,
        value: IoTDBValue,
    ) -> (r: Result<(), TsFileError>)
        requires
            writer_wf(old(self)@),
        ensures
            writer_wf(final(self)@),
            final(self)@.closed == old(self)@.closed,
            old(self)@.closed ==> r == Result::<(), TsFileError>::Err(
                TsFileError::AlreadyClosed,
            ) && final(self)@.groups == old(self)@.groups,
            !old(self)@.closed ==> {
                let step = sp_writer_write(
                    old(self)@.groups,
                    device.spec_bytes(),
                    measurement.spec_bytes(),
                    timestamp,
                    value,
                );
                &&& final(self)@.groups == step.0
                &&& (step.1 is Some ==> r is Err && r->Err_0 == step.1->0)
                &&& (step.1 is None ==> r is Ok)
            },
    {
        if self.closed {
            return Err(TsFileError::AlreadyClosed);
        }
        let dev = device.as_bytes();
        let found = self.find_device(dev);
        match found {
            None => {
                proof {
                    assert(self@.groups =~~= old(self)@.groups);
                }
                Err(TsFileError::UnknownDevice)
            },
            Some(g) => {
                let ghost pre = self@;
                let ghost gi = g as int;
                proof {
                    assert(group_wf(pre.groups[gi]));
                }
                let mut gw = self.group_writers.remove(g);
                let r = gw.write(measurement, timestamp, &value);
                self.group_writers.insert(g, gw);
                proof {
                    assert(self.group_writers@ =~= old(self).group_writers@.update(
                        gi,
                        gw,
                    ));
                    if r is Ok {
                        let c = sp_find_from(pre.groups[gi].chunks, measurement.spec_bytes(), 0);
                        crate::group_writer::lemma_find_from_range(
                            pre.groups[gi].chunks,
                            measurement.spec_bytes(),
                            0,
                        );
                        assert(gw@ =~~= (GroupView {
                            chunks: pre.groups[gi].chunks.update(
                                c,
                                sp_chunk_step(pre.groups[gi].chunks[c], timestamp, value),
                            ),
                            ..pre.groups[gi]
                        }));
                        assert(self@.groups =~~= pre.groups.update(
                            gi,
                            GroupView {
                                chunks: pre.groups[gi].chunks.update(
                                    c,
                                    sp_chunk_step(
                                        pre.groups[gi].chunks[c],
                                        timestamp,
                                        value,
                                    ),
                                ),
                                ..pre.groups[gi]
                            },
                        ));
                    } else {
                        assert(gw@.chunks =~~= pre.groups[gi].chunks);
                        assert(gw@ =~~= pre.groups[gi]);
                        assert(self@.groups =~~= pre.groups);
                    }
                    assert(forall|x: int|
                        0 <= x < self@.groups.len() ==> group_wf(#[trigger] self@.groups[x])
                            && self@.groups[x].chunks.len() < 0x40_0000_0000) by {
                        assert(forall|x: int|
                            0 <= x < self@.groups.len() && x != gi ==> self@.groups[x]
                                == pre.groups[x]);
                    }
                }
                r
            },
        }
    }

    /// The index of the first chunk group whose device is `dev`.
    fn find_device(&self, dev: &[u8]) -> (r: Option<usize>)
        ensures
            match r {
                Some(i) => {
                    &&& 0 <= i < self@.groups.len()
                    &&& sp_find_group(self@.groups, dev@, 0) == i
                },
                None => sp_find_group(self@.groups, dev@, 0) == -1,
            },
    {
        let n = self.group_writers.len();
        let mut i: usize = 0;
        while i < n
            invariant
                n == self.group_writers@.len(),
                i <= n,
                sp_find_group(self@.groups, dev@, 0) == sp_find_group(
                    self@.groups,
                    dev@,
                    i as int,
                ),
            decreases n - i,
        {
            if crate::utils::bytes_eq(self.group_writers[i].device_id.as_slice(), dev) {
                proof {
                    assert(self@.groups[i as int].device == dev@);
                }
                return Some(i);
            }
            i = i + 1;
        }
        None
    }

    /// Writes a whole row: each point of `points` in order, stopping at the
    /// first refused point.
    #[verifier::rlimit(100)]
    #[verifier::spinoff_prover]
    pub fn write_many(&mut self, device: &str, timestamp: i64, points: Vec<DataPoint>) -> (r:
        Result<(), TsFileError>)
        requires
            writer_wf(old(self)@),
        ensures
            writer_wf(final(self)@),
            final(self)@.closed == old(self)@.closed,
            old(self)@.closed ==> r == Result::<(), TsFileError>::Err(
                TsFileError::AlreadyClosed,
            ) && final(self)@.groups == old(self)@.groups,
            !old(self)@.closed ==> {
                let step = sp_writer_write_row(
                    old(self)@.groups,
                    device.spec_bytes(),
                    timestamp,
                    sp_points_of(points@),
                );
                &&& final(self)@.groups == step.0
                &&& (step.1 is Some ==> r is Err && r->Err_0 == step.1->0)
                &&& (step.1 is None ==> r is Ok)
            },
    {
        if self.closed {
            return Err(TsFileError::AlreadyClosed);
        }
        let n = points.len();
        let ghost pts = sp_points_of(points@);
        let mut i: usize = 0;
        proof {
            assert(pts.skip(0) =~= pts);
        }
        while i < n
            invariant
                writer_wf(self@),
                !self@.closed,
                !old(self)@.closed,
                n == points@.len(),
                i <= n,
                pts == sp_points_of(points@),
                pts.len() == n,
                forall|x: int|
                    0 <= x < n ==> #[trigger] pts[x] == (
                        vstd::utf8::encode_utf8(points@[x].measurement@),
                        points@[x].value,
                    ),
                sp_writer_write_row(old(self)@.groups, device.spec_bytes(), timestamp, pts)
                    == sp_writer_write_row(
                    self@.groups,
                    device.spec_bytes(),
                    timestamp,
                    pts.skip(i as int),
                ),
            decreases n - i,
        {
            let p = &points[i];
            let ghost pre_groups = self@.groups;
            let ms = p.measurement.as_str();
            proof {
                assert(pts.skip(i as int)[0] == pts[i as int]);
                assert(pts.skip(i as int).skip(1) =~= pts.skip(i as int + 1));
                assert(ms.spec_bytes() == pts[i as int].0);
                assert(p.value == pts[i as int].1);
            }
            let r = self.write(device, ms, timestamp, p.value);
            let ghost first = sp_writer_write(
                pre_groups,
                device.spec_bytes(),
                pts[i as int].0,
                timestamp,
                pts[i as int].1,
            );
            match r {
                Err(e) => {
                    proof {
                        assert(first.1 == Some(e));
                        assert(self@.groups == first.0);
                        assert(sp_writer_write_row(
                            pre_groups,
                            device.spec_bytes(),
                            timestamp,
                            pts.skip(i as int),
                        ) == (self@.groups, Some(e)));
                    }
                    return Err(e);
                },
                Ok(_) => {},
            }
            proof {
                assert(first.1 is None);
                assert(self@.groups == first.0);
                assert(sp_writer_write_row(
                    pre_groups,
                    device.spec_bytes(),
                    timestamp,
                    pts.skip(i as int),
                ) == sp_writer_write_row(
                    self@.groups,
                    device.spec_bytes(),
                    timestamp,
                    pts.skip(i as int + 1),
                ));
            }
            i = i + 1;
        }
        proof {
            assert(pts.skip(n as int) =~= Seq::<(Seq<u8>, IoTDBValue)>::empty());
        }
        Ok(())
    }
}

/// The six magic bytes `TsFile`.
pub open spec fn sp_magic() -> Seq<u8> {
    seq![0x54u8, 0x73u8, 0x46u8, 0x69u8, 0x6Cu8, 0x65u8]
}

/// The concatenated serialized chunk groups, in order.
pub open spec fn sp_groups_bytes(groups: Seq<GroupView>) -> Seq<u8>
    decreases groups.len(),
{
    if groups.len() == 0 {
        Seq::empty()
    } else {
        sp_groups_bytes(groups.drop_last()) + sp_group_bytes(groups.last())
    }
}

/// The total serialized length of the first `k` chunk groups.
pub open spec fn sp_groups_prefix_len(groups: Seq<GroupView>, k: int) -> int
    decreases k,
{
    if k <= 0 {
        0
    } else {
        sp_groups_prefix_len(groups, k - 1) + sp_group_bytes(groups[k - 1]).len()
    }
}

/// Concatenated group bytes measure exactly the prefix lengths.
pub proof fn lemma_groups_bytes_len(groups: Seq<GroupView>, k: int)
    requires
        0 <= k <= groups.len(),
    ensures
        sp_groups_bytes(groups.take(k)).len() == sp_groups_prefix_len(groups, k),
    decreases k,
{
    if k > 0 {
        lemma_groups_bytes_len(groups, k - 1);
        assert(groups.take(k).drop_last() =~= groups.take(k - 1));
        assert(groups.take(k).last() == groups[k - 1]);
    }
}

/// Each device's collected chunk metadata, when the file's chunk groups
/// begin right after the seven header bytes.
pub open spec fn sp_all_metas(groups: Seq<GroupView>) -> Seq<(Seq<u8>, Seq<ChunkMetaView>)> {
    Seq::new(
        groups.len(),
        |k: int|
            (
                groups[k].device,
                sp_chunk_metas(
                    groups[k].chunks,
                    7 + sp_groups_prefix_len(groups, k) + sp_group_header_len(groups[k]),
                ),
            ),
    )
}

/// The per-series footer record synthesized from one chunk's metadata: a
/// single-chunk series whose chunk list holds just the chunk's position.
pub open spec fn sp_tsm_of_cm(cm: ChunkMetaView) -> TSMView {
    TSMView {
        type_byte: 0,
        list_size: 8,
        measurement_id: cm.measurement_id,
        data_type: cm.data_type,
        statistics: cm.statistics,
        buffer: be_u64_bytes(cm.offset as u64),
    }
}

/// The per-series records of one device's chunk metadata.
pub open spec fn sp_tsms_of(ms: Seq<ChunkMetaView>) -> Seq<TSMView> {
    Seq::new(ms.len(), |j: int| sp_tsm_of_cm(ms[j]))
}

/// The metadata-index input synthesized from the collected metadata.
pub open spec fn sp_devs_from(ms: Seq<(Seq<u8>, Seq<ChunkMetaView>)>) -> Seq<DevView> {
    Seq::new(ms.len(), |k: int| DevView { device: ms[k].0, list: sp_tsms_of(ms[k].1) })
}

/// The series paths `device.measurement` of the collected metadata, in
/// order.
pub open spec fn sp_paths_from(ms: Seq<(Seq<u8>, Seq<ChunkMetaView>)>) -> Seq<Seq<u8>>
    decreases ms.len(),
{
    if ms.len() == 0 {
        Seq::empty()
    } else {
        sp_paths_from(ms.drop_last()) + Seq::new(
            ms.last().1.len(),
            |j: int| ms.last().0 + seq![46u8] + ms.last().1[j].measurement_id,
        )
    }
}

/// The number of hash functions the writer's bloom filter uses.
pub open spec fn sp_bloom_k() -> i32 {
    if crate::bloom_filter::BLOOM_HASH_COUNT <= 8 {
        crate::bloom_filter::BLOOM_HASH_COUNT
    } else {
        8
    }
}

/// The start of the footer record: right after the metadata section.
pub open spec fn sp_footer_index(groups: Seq<GroupView>) -> int {
    let gb = sp_groups_bytes(groups);
    let devs = sp_devs_from(sp_all_metas(groups));
    8 + gb.len() as int + sp_construct_bytes(devs, 8 + gb.len() as int).len() as int
}

/// The complete file produced for the writer state `groups`: header and
/// version, the chunk groups, the metadata marker and section, the footer
/// record, the bloom filter, the footer length and the trailing magic.
pub open spec fn sp_file_bytes(groups: Seq<GroupView>) -> Seq<u8> {
    let header = sp_magic() + seq![3u8];
    let gb = sp_groups_bytes(groups);
    let meta_offset: int = 7 + gb.len() as int;
    let devs = sp_devs_from(sp_all_metas(groups));
    let cb = sp_construct_bytes(devs, meta_offset + 1);
    let root = sp_construct_root(devs, meta_offset + 1);
    let fm = sp_file_meta_bytes(Some(root), meta_offset as u64);
    let paths = sp_paths_from(sp_all_metas(groups));
    let size = sp_bloom_size(paths.len());
    let bits = crate::bloom_filter::sp_build_bits(paths, size, sp_bloom_k() as int);
    let bloomrec = crate::utils::length_framed(crate::bloom_filter::sp_bloom_bytes(bits))
        + crate::utils::varuint_bytes(size as nat) + crate::utils::varuint_bytes(
        sp_bloom_k() as nat,
    );
    let pre = header + gb + seq![2u8] + cb + fm + bloomrec;
    let footer_index = meta_offset + 1 + cb.len();
    pre + be_u32_bytes((((pre.len() - footer_index) as int) % 0x1_0000_0000) as u32)
        + sp_magic()
}

/// The abstract views of the collected chunk-group metadata.
pub open spec fn cgm_views(cgms: Seq<ChunkGroupMetadata>) -> Seq<
    (Seq<u8>, Seq<ChunkMetaView>),
> {
    Seq::new(cgms.len(), |k: int| (cgms[k].device_id@, cm_views(cgms[k].chunk_metadata@)))
}

impl TsFileWriter {
    /// Serializes every chunk group in order, collecting each device's
    /// chunk metadata; the groups start right after the seven header bytes.
    #[verifier::rlimit(100)]
    #[verifier::spinoff_prover]
    fn serialize_groups<W: PositionedWrite>(&self, file: &mut W) -> (r: Vec<
        ChunkGroupMetadata,
    >)
        requires
            old(file).wf(),
            writer_wf(self@),
            old(file).sunk().len() == 7,
        ensures
            final(file).wf(),
            final(file).sunk() == old(file).sunk() + sp_groups_bytes(self@.groups),
            cgm_views(r@) == sp_all_metas(self@.groups),
    {
        let ghost groups = self@.groups;
        let n = self.group_writers.len();
        let mut r: Vec<ChunkGroupMetadata> = Vec::new();
        let mut d: usize = 0;
        proof {
            assert(groups.take(0) =~= Seq::<GroupView>::empty());
            assert(cgm_views(r@) =~~= sp_all_metas(groups).take(0));
        }
        while d < n
            invariant
                file.wf(),
                n == self.group_writers@.len(),
                groups == self@.groups,
                writer_wf(self@),
                old(file).sunk().len() == 7,
                d <= n,
                file.sunk() == old(file).sunk() + sp_groups_bytes(groups.take(d as int)),
                cgm_views(r@) == sp_all_metas(groups).take(d as int),
                r@.len() == d,
            decreases n - d,
        {
            proof {
                lemma_groups_bytes_len(groups, d as int);
                assert(group_wf(groups[d as int]));
            }
            let gw = &self.group_writers[d];
            let cms = gw.serialize(file);
            let device = vstd::slice::slice_to_vec(gw.device_id.as_slice());
            r.push(ChunkGroupMetadata::new(device, cms));
            d = d + 1;
            proof {
                lemma_groups_bytes_len(groups, d as int);
                assert(groups.take(d as int).drop_last() =~= groups.take(d - 1));
                assert(groups.take(d as int).last() == groups[d - 1]);
                assert(file.sunk() =~= old(file).sunk() + sp_groups_bytes(
                    groups.take(d as int),
                ));
                assert(cgm_views(r@) =~~= sp_all_metas(groups).take(d as int));
            }
        }
        proof {
            assert(groups.take(n as int) =~= groups);
            assert(cgm_views(r@) =~~= sp_all_metas(groups));
        }
        r
    }

    /// Synthesizes the per-series footer records from the collected chunk
    /// metadata: one single-chunk record per written chunk, carrying the
    /// chunk's statistics and its position.
    #[verifier::rlimit(100)]
    #[verifier::spinoff_prover]
    fn build_tsm_lists(cgms: &Vec<ChunkGroupMetadata>) -> (r: Vec<
        (Vec<u8>, Vec<TimeSeriesMetadata>),
    >)
        ensures
            dev_views(r@) == sp_devs_from(cgm_views(cgms@)),
    {
        let n = cgms.len();
        let mut r: Vec<(Vec<u8>, Vec<TimeSeriesMetadata>)> = Vec::new();
        let mut d: usize = 0;
        proof {
            assert(dev_views(r@) =~~= sp_devs_from(cgm_views(cgms@)).take(0));
        }
        while d < n
            invariant
                n == cgms@.len(),
                d <= n,
                r@.len() == d,
                dev_views(r@) == sp_devs_from(cgm_views(cgms@)).take(d as int),
            decreases n - d,
        {
            let cgm = &cgms[d];
            let m = cgm.chunk_metadata.len();
            let mut list: Vec<TimeSeriesMetadata> = Vec::new();
            let mut j: usize = 0;
            proof {
                assert(tsm_views(list@) =~~= sp_tsms_of(
                    cm_views(cgm.chunk_metadata@),
                ).take(0));
            }
            while j < m
                invariant
                    m == cgm.chunk_metadata@.len(),
                    j <= m,
                    list@.len() == j,
                    tsm_views(list@) == sp_tsms_of(cm_views(cgm.chunk_metadata@)).take(
                        j as int,
                    ),
                decreases m - j,
            {
                let cm = &cgm.chunk_metadata[j];
                let mut buffer: Vec<u8> = Vec::new();
                crate::utils::push_be_u64(&mut buffer, cm.offset_of_chunk_header);
                let tsm = TimeSeriesMetadata {
                    time_series_metadata_type: 0,
                    chunk_meta_data_list_data_size: 8,
                    measurement_id: vstd::slice::slice_to_vec(
                        cm.measurement_id.as_slice(),
                    ),
                    data_type: cm.data_type,
                    statistics: cm.statistics,
                    buffer,
                };
                list.push(tsm);
                j = j + 1;
                proof {
                    assert(tsm_views(list@) =~~= sp_tsms_of(
                        cm_views(cgm.chunk_metadata@),
                    ).take(j as int));
                }
            }
            proof {
                assert(sp_tsms_of(cm_views(cgm.chunk_metadata@)).take(m as int)
                    =~= sp_tsms_of(cm_views(cgm.chunk_metadata@)));
            }
            let device = vstd::slice::slice_to_vec(cgm.device_id.as_slice());
            r.push((device, list));
            d = d + 1;
            proof {
                assert(dev_views(r@) =~~= sp_devs_from(cgm_views(cgms@)).take(d as int));
            }
        }
        proof {
            assert(sp_devs_from(cgm_views(cgms@)).take(n as int) =~= sp_devs_from(
                cgm_views(cgms@),
            ));
            assert(dev_views(r@) =~~= sp_devs_from(cgm_views(cgms@)));
        }
        r
    }

    /// The series paths `device.measurement` of the collected metadata, in
    /// order.
    #[verifier::rlimit(100)]
    #[verifier::spinoff_prover]
    fn build_paths(cgms: &Vec<ChunkGroupMetadata>) -> (r: Vec<Path>)
        ensures
            crate::bloom_filter::sp_path_views(r@) == sp_paths_from(cgm_views(cgms@)),
    {
        let n = cgms.len();
        let mut r: Vec<Path> = Vec::new();
        let mut d: usize = 0;
        proof {
            assert(cgm_views(cgms@).take(0) =~= Seq::<(Seq<u8>, Seq<ChunkMetaView>)>::empty());
            assert(crate::bloom_filter::sp_path_views(r@) =~~= sp_paths_from(
                cgm_views(cgms@).take(0),
            ));
        }
        while d < n
            invariant
                n == cgms@.len(),
                d <= n,
                crate::bloom_filter::sp_path_views(r@) == sp_paths_from(
                    cgm_views(cgms@).take(d as int),
                ),
            decreases n - d,
        {
            let ghost pre = r@;
            let cgm = &cgms[d];
            let m = cgm.chunk_metadata.len();
            let mut j: usize = 0;
            while j < m
                invariant
                    n == cgms@.len(),
                    d < n,
                    m == cgm.chunk_metadata@.len(),
                    cgm == &cgms[d as int],
                    j <= m,
                    crate::bloom_filter::sp_path_views(pre) == sp_paths_from(
                        cgm_views(cgms@).take(d as int),
                    ),
                    r@.len() == pre.len() + j,
                    forall|x: int|
                        0 <= x < pre.len() ==> #[trigger] r@[x].path@ == pre[x].path@,
                    forall|x: int|
                        0 <= x < j ==> #[trigger] r@[pre.len() + x].path@ == cgms@[
                            d as int
                        ].device_id@ + seq![46u8] + cm_views(
                            cgms@[d as int].chunk_metadata@,
                        )[x].measurement_id,
                decreases m - j,
            {
                let cm = &cgm.chunk_metadata[j];
                let mut path: Vec<u8> = Vec::new();
                crate::utils::push_bytes(&mut path, cgm.device_id.as_slice());
                path.push(46u8);
                crate::utils::push_bytes(&mut path, cm.measurement_id.as_slice());
                proof {
                    assert(path@ =~= cgms@[d as int].device_id@ + seq![46u8] + cm_views(
                        cgms@[d as int].chunk_metadata@,
                    )[j as int].measurement_id);
                }
                r.push(Path { path });
                j = j + 1;
            }
            d = d + 1;
            proof {
                assert(cgm_views(cgms@).take(d as int).drop_last() =~= cgm_views(
                    cgms@,
                ).take(d - 1));
                assert(cgm_views(cgms@).take(d as int).last() == cgm_views(cgms@)[d - 1]);
                let spv = crate::bloom_filter::sp_path_views(r@);
                let tgt = sp_paths_from(cgm_views(cgms@).take(d as int));
                assert(tgt == sp_paths_from(cgm_views(cgms@).take(d - 1)) + Seq::new(
                    cgm_views(cgms@)[d - 1].1.len(),
                    |j: int|
                        cgm_views(cgms@)[d - 1].0 + seq![46u8] + cgm_views(cgms@)[d
                            - 1].1[j].measurement_id,
                ));
                assert(cgm_views(cgms@)[d - 1].1.len() == m);
                assert(spv.len() == tgt.len());
                assert forall|x: int| 0 <= x < spv.len() implies spv[x] == tgt[x] by {
                    if x < pre.len() {
                        assert(spv[x] == pre[x].path@);
                        assert(tgt[x] == sp_paths_from(cgm_views(cgms@).take(d - 1))[x]);
                    } else {
                        assert(spv[x] == r@[x].path@);
                        let xx = x - pre.len();
                        assert(r@[pre.len() + xx].path@ == cgms@[d - 1].device_id@
                            + seq![46u8] + cm_views(
                            cgms@[d - 1].chunk_metadata@,
                        )[xx].measurement_id);
                        assert(pre.len() + xx == x);
                        assert(tgt[x] == cgm_views(cgms@)[d - 1].0 + seq![46u8]
                            + cgm_views(cgms@)[d - 1].1[xx].measurement_id);
                    }
                }
                assert(spv =~~= tgt);
            }
        }
        proof {
            assert(cgm_views(cgms@).take(n as int) =~= cgm_views(cgms@));
            assert(crate::bloom_filter::sp_path_views(r@) =~~= sp_paths_from(
                cgm_views(cgms@),
            ));
        }
        r
    }

    /// Serializes the complete file into `file`, which must be empty: the
    /// resulting bytes are exactly [`sp_file_bytes`] of the writer's groups.
    #[verifier::rlimit(100)]
    #[verifier::spinoff_prover]
    pub fn _flush<W: PositionedWrite>(&self, file: &mut W)
        requires
            old(file).wf(),
            writer_wf(self@),
            old(file).sunk().len() == 0,
        ensures
            final(file).wf(),
            final(file).sunk() == sp_file_bytes(self@.groups),
    {
        let ghost groups = self@.groups;
        // Header: magic and version.
        let mut header: Vec<u8> = Vec::new();
        header.push(0x54u8);
        header.push(0x73u8);
        header.push(0x46u8);
        header.push(0x69u8);
        header.push(0x6Cu8);
        header.push(0x65u8);
        header.push(3u8);
        file.write_all(header.as_slice());
        proof {
            assert(file.sunk() =~= sp_magic() + seq![3u8]);
        }
        // Chunk groups, collecting their metadata.
        let cgms = self.serialize_groups(file);
        let meta_offset = file.get_position();
        // The metadata marker.
        let mut marker: Vec<u8> = Vec::new();
        marker.push(2u8);
        file.write_all(marker.as_slice());
        // The per-series records and the index tree.
        let devs = Self::build_tsm_lists(&cgms);
        proof {
            lemma_all_metas_wf(groups);
            assert(crate::metadata::dev_input_wf(dev_views(devs@)));
        }
        let root = MetadataIndexNode::construct_metadata_index(&devs, file);
        // The footer record.
        let footer_index = file.get_position();
        let fm = TsFileMetadata::new(Some(root), meta_offset);
        fm.serialize(file);
        // The bloom filter over the series paths.
        let paths = Self::build_paths(&cgms);
        let filter = BloomFilter::build(paths);
        filter.serialize(file);
        // The footer length and the trailing magic.
        let pos = file.get_position();
        let flen: u32 = (((pos - footer_index) as u64) % 0x1_0000_0000) as u32;
        let mut tail: Vec<u8> = Vec::new();
        crate::utils::push_be_u32(&mut tail, flen);
        tail.push(0x54u8);
        tail.push(0x73u8);
        tail.push(0x46u8);
        tail.push(0x69u8);
        tail.push(0x6Cu8);
        tail.push(0x65u8);
        file.write_all(tail.as_slice());
        proof {
            assert(file.sunk() =~= sp_file_bytes(groups));
        }
    }

    /// Serializes the file into a fresh in-memory sink and returns it.
    pub fn flush(&self) -> (r: WriteWrapper)
        requires
            writer_wf(self@),
        ensures
            r.wf(),
            r.sunk() == sp_file_bytes(self@.groups),
    {
        let buffer: Vec<u8> = Vec::new();
        let mut sink = WriteWrapper::new(buffer);
        self._flush(&mut sink);
        sink
    }

    /// Closes the writer: serializes the file, refuses any further write,
    /// and returns the finished in-memory file.
    pub fn close(&mut self) -> (r: WriteWrapper)
        requires
            writer_wf(old(self)@),
        ensures
            writer_wf(final(self)@),
            final(self)@.closed,
            final(self)@.groups == old(self)@.groups,
            r.wf(),
            r.sunk() == sp_file_bytes(old(self)@.groups),
    {
        let r = self.flush();
        self.closed = true;
        proof {
            assert(self@.groups =~~= old(self)@.groups);
        }
        r
    }
}

/// Builds a small single-series file in memory: a writer over device `d1`
/// with the 32-bit integer measurement `s1`, five samples, and one flush.
pub fn write_file_3() {
    let d1 = "d1";
    let s1 = "s1";
    if d1.as_bytes().len() >= 0x10_0000 || s1.as_bytes().len() >= 0x10_0000 {
        return;
    }
    proof {
        assert(d1.spec_bytes().len() < 0x10_0000);
        assert(s1.spec_bytes().len() < 0x10_0000);
    }
    let group = crate::schema::DeviceBuilder::new().add(
        s1,
        crate::types::TSDataType::INT32,
        crate::encoding::TSEncoding::PLAIN,
        crate::compression::CompressionType::UNCOMPRESSED,
    ).build();
    let schema = crate::schema::TsFileSchemaBuilder::new().add(d1, group).build();
    proof {
        assert(schema.measurement_groups@.len() == 1);
        assert forall|i: int| 0 <= i < schema.measurement_groups@.len() implies {
            &&& (#[trigger] schema.measurement_groups@[i]).0@.len() < 0x10_0000
            &&& schema.measurement_groups@[i].1.measurement_schemas@.len()
                < 0x40_0000_0000
            &&& forall|k: int|
                0 <= k < schema.measurement_groups@[i].1.measurement_schemas@.len() ==> (
                #[trigger] schema.measurement_groups@[i].1.measurement_schemas@[k]).0@.len()
                    < 0x10_0000
        } by {
            assert(schema.measurement_groups@[0].0@ == d1.spec_bytes());
            assert(schema.measurement_groups@[0].1.measurement_schemas@.len() == 1);
            assert forall|k: int|
                0 <= k < schema.measurement_groups@[i].1.measurement_schemas@.len()
                    implies (
            #[trigger] schema.measurement_groups@[i].1.measurement_schemas@[k]).0@.len()
                < 0x10_0000 by {
                assert(schema.measurement_groups@[0].1.measurement_schemas@[0].0@
                    == s1.spec_bytes());
            }
        }
    }
    let mut writer = TsFileWriter::new("data3.tsfile", schema);
    let _ = writer.write(d1, s1, 1, IoTDBValue::INT(13));
    let _ = writer.write(d1, s1, 10, IoTDBValue::INT(14));
    let _ = writer.write(d1, s1, 100, IoTDBValue::INT(15));
    let _ = writer.write(d1, s1, 1000, IoTDBValue::INT(16));
    let _ = writer.write(d1, s1, 10000, IoTDBValue::INT(17));
    let _ = writer.flush();
}

/// The file begins with the magic bytes and the version, and ends with the
/// magic bytes.
pub proof fn lemma_file_magic(groups: Seq<GroupView>)
    ensures
        sp_file_bytes(groups).len() >= 17,
        sp_file_bytes(groups).subrange(0, 6) =~= sp_magic(),
        sp_file_bytes(groups)[6] == 3u8,
        sp_file_bytes(groups).subrange(
            sp_file_bytes(groups).len() - 6,
            sp_file_bytes(groups).len() as int,
        ) =~= sp_magic(),
{
    let fb = sp_file_bytes(groups);
    crate::utils::lemma_varuint_bytes_len(sp_bloom_size(
        sp_paths_from(sp_all_metas(groups)).len(),
    ) as nat);
    crate::utils::lemma_varuint_bytes_len(sp_bloom_k() as nat);
}

/// The 32-bit integer right before the trailing magic is the byte distance
/// from the first byte of the footer record up to that integer itself.
pub proof fn lemma_footer_length(groups: Seq<GroupView>)
    ensures
        sp_file_bytes(groups).subrange(
            sp_file_bytes(groups).len() - 10,
            sp_file_bytes(groups).len() - 6,
        ) =~= be_u32_bytes(
            ((sp_file_bytes(groups).len() - 10 - sp_footer_index(groups)) as int
                % 0x1_0000_0000) as u32,
        ),
{
    let fb = sp_file_bytes(groups);
    crate::utils::lemma_varuint_bytes_len(sp_bloom_size(
        sp_paths_from(sp_all_metas(groups)).len(),
    ) as nat);
    crate::utils::lemma_varuint_bytes_len(sp_bloom_k() as nat);
}

/// Every chunk-metadata offset collected for a group points at the `0x05`
/// marker of its chunk within the group's serialized chunks.
pub proof fn lemma_chunk_offsets_mark_chunks(chunks: Seq<ChunkView>, pos: int)
    ensures
        forall|j: int|
            0 <= j < sp_chunk_metas(chunks, pos).len() ==> {
                let off = (#[trigger] sp_chunk_metas(chunks, pos)[j]).offset;
                &&& pos <= off < pos + crate::group_writer::sp_chunks_bytes(chunks).len()
                &&& crate::group_writer::sp_chunks_bytes(chunks)[off - pos] == 5u8
            },
    decreases chunks.len(),
{
    if chunks.len() > 0 {
        lemma_chunk_offsets_mark_chunks(chunks.drop_last(), pos);
        let metas = sp_chunk_metas(chunks, pos);
        let bytes = crate::group_writer::sp_chunks_bytes(chunks);
        let pmetas = sp_chunk_metas(chunks.drop_last(), pos);
        let pbytes = crate::group_writer::sp_chunks_bytes(chunks.drop_last());
        assert forall|j: int| 0 <= j < metas.len() implies {
            let off = (#[trigger] metas[j]).offset;
            &&& pos <= off < pos + bytes.len()
            &&& bytes[off - pos] == 5u8
        } by {
            if j < pmetas.len() {
                assert(metas[j] == pmetas[j]);
                assert(bytes[pmetas[j].offset - pos] == pbytes[pmetas[j].offset - pos]);
            } else {
                assert(chunks.last().num_values > 0);
                assert(metas[j].offset == pos + pbytes.len());
                assert(crate::chunk_writer::sp_chunk_bytes(chunks.last())[0] == 5u8);
                assert(bytes[pbytes.len() as int] == 5u8);
            }
        }
    }
}

/// Within the concatenated groups, the bytes of group `k` sit at its
/// prefix offset.
pub proof fn lemma_groups_bytes_index(groups: Seq<GroupView>, k: int, i: int)
    requires
        0 <= k < groups.len(),
        0 <= i < sp_group_bytes(groups[k]).len(),
    ensures
        0 <= sp_groups_prefix_len(groups, k) + i < sp_groups_bytes(groups).len(),
        sp_groups_bytes(groups)[sp_groups_prefix_len(groups, k) + i] == sp_group_bytes(
            groups[k],
        )[i],
    decreases groups.len(),
{
    lemma_groups_bytes_len(groups, k);
    lemma_groups_bytes_len(groups, groups.len() as int);
    assert(groups.take(groups.len() as int) =~= groups);
    if k == groups.len() - 1 {
        assert(groups.take(k) =~= groups.drop_last().take(k));
        lemma_groups_prefix_len_stable(groups, k);
        assert(sp_groups_bytes(groups) == sp_groups_bytes(groups.drop_last())
            + sp_group_bytes(groups.last()));
        lemma_groups_bytes_len(groups.drop_last(), k);
        assert(groups.drop_last().take(k) =~= groups.drop_last());
    } else {
        lemma_groups_bytes_index(groups.drop_last(), k, i);
        lemma_groups_prefix_len_stable(groups, k);
    }
}

/// The prefix length of the first `k` groups does not depend on the groups
/// after them.
pub proof fn lemma_groups_prefix_len_stable(groups: Seq<GroupView>, k: int)
    requires
        0 <= k < groups.len(),
    ensures
        sp_groups_prefix_len(groups.drop_last(), k) == sp_groups_prefix_len(groups, k),
    decreases k,
{
    if k > 0 {
        lemma_groups_prefix_len_stable(groups, k - 1);
    }
}

/// Every chunk offset the writer records points at the `0x05` marker of
/// its chunk in the final file: the byte of [`sp_file_bytes`] at a
/// collected offset is the chunk marker.
pub proof fn lemma_file_chunk_markers(groups: Seq<GroupView>, k: int, j: int)
    requires
        writer_wf(WriterView { groups, closed: false }),
        0 <= k < groups.len(),
        0 <= j < sp_all_metas(groups)[k].1.len(),
    ensures
        0 <= sp_all_metas(groups)[k].1[j].offset < sp_file_bytes(groups).len(),
        sp_file_bytes(groups)[sp_all_metas(groups)[k].1[j].offset] == 5u8,
{
    let g = groups[k];
    let pos = 7 + sp_groups_prefix_len(groups, k) + sp_group_header_len(g);
    let metas = sp_chunk_metas(g.chunks, pos);
    let off = metas[j].offset;
    lemma_chunk_offsets_mark_chunks(g.chunks, pos);
    assert(crate::group_writer::sp_chunks_bytes(g.chunks)[off - pos] == 5u8);
    // The group holds data, so its bytes are the header and its chunks.
    assert(crate::group_writer::sp_has_data(g.chunks)) by {
        lemma_chunk_metas_nonempty_has_data(g.chunks, pos, j);
    }
    assert(sp_group_bytes(g) == seq![0u8] + crate::sink::str_frame(g.device)
        + crate::group_writer::sp_chunks_bytes(g.chunks));
    let hl = sp_group_header_len(g);
    let gi = off - 7 - sp_groups_prefix_len(groups, k);
    assert(sp_group_bytes(g)[gi] == 5u8);
    lemma_groups_bytes_index(groups, k, gi);
    assert(sp_groups_bytes(groups)[off - 7] == 5u8);
    let fb = sp_file_bytes(groups);
    assert(fb[off] == sp_groups_bytes(groups)[off - 7]);
}

/// A chunk-metadata list with an entry comes from chunks with data.
pub proof fn lemma_chunk_metas_nonempty_has_data(
    chunks: Seq<ChunkView>,
    pos: int,
    j: int,
)
    requires
        0 <= j < sp_chunk_metas(chunks, pos).len(),
    ensures
        crate::group_writer::sp_has_data(chunks),
    decreases chunks.len(),
{
    if chunks.len() > 0 {
        if chunks.last().num_values > 0 {
            assert(chunks[chunks.len() - 1].num_values > 0);
        } else {
            lemma_chunk_metas_nonempty_has_data(chunks.drop_last(), pos, j);
            let w = choose|i: int|
                0 <= i < chunks.drop_last().len()
                    && #[trigger] chunks.drop_last()[i].num_values > 0;
            assert(chunks[w].num_values > 0);
        }
    }
}

/// Every collected metadata record frames: its id comes from a well-formed
/// chunk, and the counts fit the format.
pub proof fn lemma_all_metas_wf(groups: Seq<GroupView>)
    requires
        writer_wf(WriterView { groups, closed: false }),
    ensures
        crate::metadata::dev_input_wf(sp_devs_from(sp_all_metas(groups))),
{
    let devs = sp_devs_from(sp_all_metas(groups));
    assert forall|i: int|
        0 <= i < devs.len() implies (#[trigger] devs[i]).device.len() < 0x10_0000
        && devs[i].list.len() < 0x40_0000_0000 && (forall|k: int|
        0 <= k < devs[i].list.len() ==> crate::metadata::tsm_wf(
            #[trigger] devs[i].list[k],
        )) by {
        assert(group_wf(groups[i]));
        crate::group_writer::lemma_chunk_metas_wf(
            groups[i].chunks,
            7 + sp_groups_prefix_len(groups, i) + sp_group_header_len(groups[i]),
        );
    }
}

} // verus!
