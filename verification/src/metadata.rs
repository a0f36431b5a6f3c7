//! The footer's metadata records: per-series metadata, the index tree
//! nodes, and the file-level footer record.

use vstd::prelude::*;

use crate::sink::str_frame;
use crate::sink::PositionedWrite;
use crate::sink::Serializable;
use crate::statistics::sp_stats_bytes;
use crate::statistics::Statistics;
use crate::types::TSDataType;
use crate::utils::be_u32_bytes;
use crate::utils::be_u64_bytes;
use crate::utils::push_be_u64;
use crate::utils::push_bytes;
use crate::utils::push_str_frame;
use crate::utils::varuint_bytes;
use crate::utils::write_var_u32;
use crate::utils::lemma_varuint_bytes_len;

verus! {

/// The kinds of index-tree nodes, each with a stable one-byte tag.
#[derive(Copy, Clone, Eq, PartialEq, Structural, Debug)]
pub enum MetadataIndexNodeType {
    /// An internal node over device subtrees; tag 0.
    InternalDevice,
    /// The leaf level over devices; tag 1.
    LeafDevice,
    /// An internal node over measurement subtrees; tag 2.
    InternalMeasurement,
    /// The leaf level over measurements; tag 3.
    LeafMeasurement,
}

/// The one-byte tag of a node type.
pub open spec fn sp_node_type_byte(t: MetadataIndexNodeType) -> u8 {
    match t {
        MetadataIndexNodeType::InternalDevice => 0,
        MetadataIndexNodeType::LeafDevice => 1,
        MetadataIndexNodeType::InternalMeasurement => 2,
        MetadataIndexNodeType::LeafMeasurement => 3,
    }
}

impl Serializable for MetadataIndexNodeType {
    open spec fn record_bytes(&self) -> Seq<u8> {
        seq![sp_node_type_byte(*self)]
    }

    open spec fn serial_wf(&self) -> bool {
        true
    }

    fn serialize<W: PositionedWrite>(&self, file: &mut W) {
        let byte: u8 = match self {
            MetadataIndexNodeType::InternalDevice => 0,
            MetadataIndexNodeType::LeafDevice => 1,
            MetadataIndexNodeType::InternalMeasurement => 2,
            MetadataIndexNodeType::LeafMeasurement => 3,
        };
        let mut buf: Vec<u8> = Vec::new();
        buf.push(byte);
        file.write_all(buf.as_slice());
        proof {
            assert(file.sunk() =~= old(file).sunk() + self.record_bytes());
        }
    }
}

/// One child entry of an index node: a name and the position where the
/// child's record was written.
pub struct MetadataIndexEntry {
    /// The child's name: a measurement id or device path.
    pub name: Vec<u8>,
    /// The byte position of the child's record in the file.
    pub offset: u64,
}

/// The serialized form of an entry: the framed name, then the offset as a
/// big-endian 64-bit integer.
pub open spec fn sp_entry_bytes(name: Seq<u8>, offset: u64) -> Seq<u8> {
    str_frame(name) + be_u64_bytes(offset)
}

impl Serializable for MetadataIndexEntry {
    open spec fn record_bytes(&self) -> Seq<u8> {
        sp_entry_bytes(self.name@, self.offset)
    }

    open spec fn serial_wf(&self) -> bool {
        self.name@.len() < 0x10_0000
    }

    fn serialize<W: PositionedWrite>(&self, file: &mut W) {
        let mut buf: Vec<u8> = Vec::new();
        push_str_frame(&mut buf, self.name.as_slice());
        push_be_u64(&mut buf, self.offset);
        file.write_all(buf.as_slice());
        proof {
            assert(file.sunk() =~= old(file).sunk() + self.record_bytes());
        }
    }
}

/// The abstract view of an index node.
#[verifier::ext_equal]
pub struct NodeView {
    /// Child entries: names and their record positions.
    pub entries: Seq<(Seq<u8>, u64)>,
    /// The position right after the node's subtree.
    pub end_offset: u64,
    /// The node kind.
    pub node_type: MetadataIndexNodeType,
}

/// The concatenated serialized entries.
pub open spec fn sp_entries_bytes(entries: Seq<(Seq<u8>, u64)>) -> Seq<u8>
    decreases entries.len(),
{
    if entries.len() == 0 {
        Seq::empty()
    } else {
        sp_entries_bytes(entries.drop_last()) + sp_entry_bytes(
            entries.last().0,
            entries.last().1,
        )
    }
}

/// The serialized form of an index node: the child count as an unsigned
/// varint, the entries, the end offset and the node-type byte.
pub open spec fn sp_node_bytes(n: NodeView) -> Seq<u8> {
    varuint_bytes(n.entries.len()) + sp_entries_bytes(n.entries) + be_u64_bytes(
        n.end_offset,
    ) + seq![sp_node_type_byte(n.node_type)]
}

/// A node's names are short enough to frame and its arity fits the format.
pub open spec fn node_wf(n: NodeView) -> bool {
    &&& n.entries.len() < 0x1_0000_0000
    &&& forall|i: int| 0 <= i < n.entries.len() ==> (#[trigger] n.entries[i]).0.len() < 0x10_0000
}

/// One node of the two-level metadata index tree.
pub struct MetadataIndexNode {
    /// The child entries.
    pub children: Vec<MetadataIndexEntry>,
    /// The position right after the node's subtree.
    pub end_offset: u64,
    /// The node kind.
    pub node_type: MetadataIndexNodeType,
}

impl View for MetadataIndexNode {
    type V = NodeView;

    open spec fn view(&self) -> NodeView {
        NodeView {
            entries: Seq::new(self.children@.len(), |i: int| (self.children@[i].name@, self.children@[i].offset)),
            end_offset: self.end_offset,
            node_type: self.node_type,
        }
    }
}

impl Serializable for MetadataIndexNode {
    open spec fn record_bytes(&self) -> Seq<u8> {
        sp_node_bytes(self@)
    }

    open spec fn serial_wf(&self) -> bool {
        node_wf(self@)
    }

    fn serialize<W: PositionedWrite>(&self, file: &mut W) {
        let mut buf: Vec<u8> = Vec::new();
        write_var_u32(self.children.len() as u32, &mut buf);
        let n = self.children.len();
        let mut i: usize = 0;
        while i < n
            invariant
                n == self.children@.len(),
                node_wf(self@),
                i <= n,
                buf@ == varuint_bytes(self@.entries.len()) + sp_entries_bytes(
                    self@.entries.take(i as int),
                ),
            decreases n - i,
        {
            proof {
                assert((#[trigger] self@.entries[i as int]).0 == self.children@[
                    i as int
                ].name@);
            }
            push_str_frame(&mut buf, self.children[i].name.as_slice());
            push_be_u64(&mut buf, self.children[i].offset);
            i = i + 1;
            proof {
                assert(self@.entries.take(i as int).drop_last() =~= self@.entries.take(
                    i - 1,
                ));
                assert(buf@ =~= varuint_bytes(self@.entries.len()) + sp_entries_bytes(
                    self@.entries.take(i as int),
                ));
            }
        }
        push_be_u64(&mut buf, self.end_offset);
        let tb: u8 = match self.node_type {
            MetadataIndexNodeType::InternalDevice => 0,
            MetadataIndexNodeType::LeafDevice => 1,
            MetadataIndexNodeType::InternalMeasurement => 2,
            MetadataIndexNodeType::LeafMeasurement => 3,
        };
        buf.push(tb);
        file.write_all(buf.as_slice());
        proof {
            assert(self@.entries.take(n as int) =~= self@.entries);
            assert(file.sunk() =~= old(file).sunk() + self.record_bytes());
        }
    }
}

impl MetadataIndexNode {
    /// An empty node of the given kind.
    pub fn new(node_type: MetadataIndexNodeType) -> (r: MetadataIndexNode)
        ensures
            r@.entries.len() == 0,
            r@.end_offset == 0,
            r@.node_type == node_type,
            node_wf(r@),
    {
        let r = MetadataIndexNode { children: Vec::new(), end_offset: 0, node_type };
        proof {
            assert(r@.entries =~= Seq::<(Seq<u8>, u64)>::empty());
        }
        r
    }

    /// True when the node has reached the maximum index-node degree.
    pub fn is_full(&self) -> (r: bool)
        ensures
            r == (self@.entries.len() >= 256),
    {
        self.children.len() >= 256
    }

    /// Reduces a queue of sibling nodes to a single root: each round writes
    /// the queue's nodes and gathers up to 256 of them under one parent,
    /// whose entries name each child's first entry and record the position
    /// the child was written at; the final single node is returned without
    /// being written.
    #[verifier::rlimit(100)]
    #[verifier::spinoff_prover]
    pub fn generate_root_node<W: PositionedWrite>(
        queue: Vec<MetadataIndexNode>,
        file: &mut W,
        node_type: MetadataIndexNodeType,
    ) -> (r: MetadataIndexNode)
        requires
            old(file).wf(),
            queue@.len() >= 1,
            queue_wf(node_views(queue@)),
        ensures
            final(file).wf(),
            final(file).sunk() == old(file).sunk() + sp_reduce_bytes(
                node_views(queue@),
                old(file).sunk().len() as int,
                node_type,
            ),
            r@ == sp_reduce_root(
                node_views(queue@),
                old(file).sunk().len() as int,
                node_type,
            ),
            node_wf(r@),
            r@.entries.len() >= 1,
        decreases queue@.len(),
    {
        let ghost qv = node_views(queue@);
        let ghost pos = old(file).sunk().len() as int;
        if queue.len() == 1 {
            let mut q = queue;
            let r = q.pop().unwrap();
            proof {
                assert(r@ == qv[0]);
                assert(queue_wf(qv));
            }
            return r;
        }
        let n = queue.len();
        let mut parents: Vec<MetadataIndexNode> = Vec::new();
        let mut current = MetadataIndexNode::new(node_type);
        let mut i: usize = 0;
        proof {
            assert(node_views(parents@) =~~= sp_parents(qv, pos, node_type).take(0));
            assert(current@.entries =~= sp_parent(qv, pos, node_type, 0).entries.take(0));
            assert(qv.take(0) =~= Seq::<NodeView>::empty());
        }
        while i < n
            invariant
                file.wf(),
                n == queue@.len(),
                n >= 2,
                qv == node_views(queue@),
                queue_wf(qv),
                pos == old(file).sunk().len() as int,
                i <= n,
                file.sunk() == old(file).sunk() + sp_level_bytes(qv.take(i as int)),
                node_views(parents@) == sp_parents(qv, pos, node_type).take(
                    (i / 256) as int,
                ),
                current@.node_type == node_type,
                current@.entries == sp_parent(
                    qv,
                    pos,
                    node_type,
                    (i / 256) as int,
                ).entries.take((i % 256) as int),
                current@.entries.len() == i % 256,
                node_wf(current@),
            decreases n - i,
        {
            proof {
                lemma_level_bytes_len(qv, i as int);
                assert(node_wf(qv[i as int]) && qv[i as int].entries.len() >= 1);
                assert(qv[i as int] == queue@[i as int]@);
            }
            let node = &queue[i];
            let name = vstd::slice::slice_to_vec(node.children[0].name.as_slice());
            let offset = file.get_position();
            current.children.push(MetadataIndexEntry { name, offset });
            node.serialize(file);
            let ghost j = (i / 256) as int;
            i = i + 1;
            proof {
                lemma_level_bytes_len(qv, i as int);
                assert(qv.take(i as int).drop_last() =~= qv.take(i - 1));
                assert(qv.take(i as int).last() == qv[i - 1]);
                assert(file.sunk() =~= old(file).sunk() + sp_level_bytes(
                    qv.take(i as int),
                ));
                assert(offset == pos + sp_nodes_prefix_len(qv, i - 1));
                assert(current@.entries =~= sp_parent(
                    qv,
                    pos,
                    node_type,
                    j,
                ).entries.take((i - 1) % 256 + 1));
            }
            if current.children.len() == 256 {
                let ghost pparents = parents@;
                let ghost cpre = current@;
                let mut done = current;
                done.end_offset = file.get_position();
                parents.push(done);
                current = MetadataIndexNode::new(node_type);
                proof {
                    lemma_level_bytes_len(qv, i as int);
                    assert(i % 256 == 0 && i / 256 == j + 1);
                    assert(256 * j + 256 == i);
                    assert(256 * (j + 1) <= n);
                    assert(j + 1 <= sp_group_count(n as int)) by {
                        vstd::arithmetic::div_mod::lemma_div_is_ordered(
                            (256 * (j + 1)) as int,
                            n as int + 255,
                            256,
                        );
                    }
                    assert(done@.entries == cpre.entries);
                    assert(cpre.entries == sp_parent(qv, pos, node_type, j).entries.take(
                        256,
                    ));
                    assert(sp_parent(qv, pos, node_type, j).entries.len() == 256);
                    assert(done@.entries =~~= sp_parent(qv, pos, node_type, j).entries);
                    assert(done@ =~~= sp_parent(qv, pos, node_type, j));
                    assert(node_views(pparents).len() == pparents.len());
                    assert(sp_parents(qv, pos, node_type).take(j).len() == j);
                    assert(pparents.len() == j);
                    assert(parents@.len() == j + 1);
                    assert forall|k: int| 0 <= k < j + 1 implies node_views(parents@)[k]
                        =~~= sp_parents(qv, pos, node_type).take(j + 1)[k] by {
                        if k < j {
                            assert(node_views(pparents)[k] == sp_parents(
                                qv,
                                pos,
                                node_type,
                            ).take(j)[k]);
                        } else {
                            assert(parents@ == pparents.push(done));
                            assert(pparents.push(done)[j] == done);
                            assert(parents@[k] == done);
                        }
                    }
                    assert(node_views(parents@) =~~= sp_parents(qv, pos, node_type).take(
                        j + 1,
                    ));
                    assert(current@.entries =~= sp_parent(
                        qv,
                        pos,
                        node_type,
                        j + 1,
                    ).entries.take(0));
                }
            }
        }
        proof {
            assert(qv.take(n as int) =~= qv);
        }
        if current.children.len() > 0 {
            let ghost j = (n / 256) as int;
            let ghost pparents = parents@;
            let mut done = current;
            done.end_offset = file.get_position();
            parents.push(done);
            proof {
                lemma_level_bytes_len(qv, n as int);
                assert(n % 256 != 0);
                assert(256 * j < n < 256 * (j + 1));
                assert(done@.entries =~~= sp_parent(qv, pos, node_type, j).entries);
                assert(done@ =~~= sp_parent(qv, pos, node_type, j));
                assert(sp_group_count(n as int) == j + 1);
                assert(node_views(pparents).len() == pparents.len());
                assert(sp_parents(qv, pos, node_type).take(j).len() == j);
                assert(pparents.len() == j);
                assert(parents@.len() == j + 1);
                assert forall|k: int| 0 <= k < j + 1 implies node_views(parents@)[k]
                    =~~= sp_parents(qv, pos, node_type)[k] by {
                    if k < j {
                        assert(node_views(pparents)[k] == sp_parents(
                            qv,
                            pos,
                            node_type,
                        ).take(j)[k]);
                    } else {
                        assert(parents@ == pparents.push(done));
                        assert(pparents.push(done)[j] == done);
                        assert(parents@[k] == done);
                    }
                }
                assert(node_views(parents@) =~~= sp_parents(qv, pos, node_type));
            }
        } else {
            proof {
                assert(n % 256 == 0);
                assert(sp_group_count(n as int) == n as int / 256);
                assert(node_views(parents@) =~~= sp_parents(qv, pos, node_type));
            }
        }
        proof {
            assert(parents@.len() == sp_group_count(n as int));
            assert(parents@.len() < n);
            assert(parents@.len() >= 1);
            assert forall|k: int| 0 <= k < parents@.len() implies node_wf(
                #[trigger] node_views(parents@)[k],
            ) && node_views(parents@)[k].entries.len() >= 1 by {
                assert(node_views(parents@)[k] == sp_parent(qv, pos, node_type, k));
                assert(256 * k < n);
                assert forall|e: int|
                    0 <= e < sp_parent(qv, pos, node_type, k).entries.len() implies (
                #[trigger] sp_parent(qv, pos, node_type, k).entries[e]).0.len()
                    < 0x10_0000 by {
                    assert(node_wf(qv[256 * k + e]) && qv[256 * k + e].entries.len() >= 1);
                }
            }
        }
        let r = Self::generate_root_node(parents, file, node_type);
        proof {
            assert(file.sunk() =~= old(file).sunk() + sp_reduce_bytes(qv, pos, node_type));
        }
        r
    }

    /// Serializes one device's footer section: its per-series records,
    /// collecting a measurement-index entry for every 256th record, then
    /// the reduction of the grouped leaves. Returns the device's root.
    #[verifier::rlimit(100)]
    #[verifier::spinoff_prover]
    fn device_section<W: PositionedWrite>(
        device_timeseries_metadata: &Vec<(Vec<u8>, Vec<TimeSeriesMetadata>)>,
        d: usize,
        file: &mut W,
    ) -> (r: MetadataIndexNode)
        requires
            old(file).wf(),
            d < device_timeseries_metadata@.len(),
            dev_input_wf(dev_views(device_timeseries_metadata@)),
            dev_views(device_timeseries_metadata@)[d as int].list.len() >= 1,
        ensures
            final(file).wf(),
            final(file).sunk() == old(file).sunk() + sp_device_section_bytes(
                dev_views(device_timeseries_metadata@)[d as int].list,
                old(file).sunk().len() as int,
            ),
            r@ == sp_device_root(
                dev_views(device_timeseries_metadata@)[d as int].list,
                old(file).sunk().len() as int,
            ),
            node_wf(r@),
            r@.entries.len() >= 1,
    {
        let ghost lv = dev_views(device_timeseries_metadata@)[d as int].list;
        let ghost p = old(file).sunk().len() as int;
        let list = &device_timeseries_metadata[d].1;
        let m = list.len();
        proof {
            assert(lv =~~= tsm_views(list@));
            assert forall|x: int| 0 <= x < m implies tsm_wf(#[trigger] lv[x]) by {
                assert(tsm_wf(dev_views(device_timeseries_metadata@)[d as int].list[x]));
            }
        }
        // Pass one: serialize the records, collecting an entry for every
        // 256th one.
        let mut entries: Vec<MetadataIndexEntry> = Vec::new();
        let mut i: usize = 0;
        proof {
            assert(lv.take(0) =~= Seq::<TSMView>::empty());
            assert(entry_views(entries@) =~~= sp_measurement_entries(lv, p).take(0));
        }
        while i < m
            invariant
                file.wf(),
                m == list@.len(),
                m >= 1,
                lv == tsm_views(list@),
                lv.len() == m,
                forall|x: int| 0 <= x < m ==> tsm_wf(#[trigger] lv[x]),
                p == old(file).sunk().len() as int,
                i <= m,
                file.sunk() == old(file).sunk() + sp_tsm_list_bytes(lv.take(i as int)),
                entry_views(entries@) == sp_measurement_entries(lv, p).take(
                    ((i + 255) / 256) as int,
                ),
                entries@.len() == (i + 255) / 256,
            decreases m - i,
        {
            proof {
                lemma_tsm_list_bytes_len(lv, i as int);
            }
            let ghost epre = entries@;
            if i % 256 == 0 {
                let name = vstd::slice::slice_to_vec(list[i].measurement_id.as_slice());
                let offset = file.get_position();
                entries.push(MetadataIndexEntry { name, offset });
                proof {
                    assert(256 * ((i as int) / 256) == i) by {
                        vstd::arithmetic::div_mod::lemma_fundamental_div_mod(i as int, 256);
                    }
                }
            }
            let tsm = &list[i];
            proof {
                assert(tsm@ == lv[i as int]);
            }
            tsm.serialize(file);
            i = i + 1;
            proof {
                lemma_tsm_list_bytes_len(lv, i as int);
                assert(lv.take(i as int).drop_last() =~= lv.take(i - 1));
                assert(lv.take(i as int).last() == lv[i - 1]);
                assert(file.sunk() =~= old(file).sunk() + sp_tsm_list_bytes(
                    lv.take(i as int),
                ));
                assert(entry_views(entries@) =~~= sp_measurement_entries(lv, p).take(
                    ((i + 255) / 256) as int,
                ));
            }
        }
        proof {
            assert(lv.take(m as int) =~= lv);
            lemma_tsm_list_bytes_len(lv, m as int);
            assert(entry_views(entries@) =~~= sp_measurement_entries(lv, p));
        }
        // Pass two: group the entries into leaves and reduce them.
        let fe = file.get_position();
        proof {
            lemma_measurement_entries_wf(lv, p);
            assert forall|x: int| 0 <= x < entries@.len() implies (
            #[trigger] entries@[x]).name@.len() < 0x10_0000 by {
                assert(entry_views(entries@)[x] == sp_measurement_entries(lv, p)[x]);
                assert(sp_measurement_entries(lv, p)[x].0.len() < 0x10_0000);
            }
        }
        let queue = Self::group_entries(
            entries,
            MetadataIndexNodeType::LeafMeasurement,
            fe,
        );
        let root = Self::generate_root_node(
            queue,
            file,
            MetadataIndexNodeType::InternalMeasurement,
        );
        proof {
            assert(file.sunk() =~= old(file).sunk() + sp_device_section_bytes(lv, p));
        }
        root
    }

    /// Groups collected index entries 256 to a node: a node followed by
    /// another ends at the next node's first entry position, the last one
    /// at `fe`.
    #[verifier::rlimit(100)]
    #[verifier::spinoff_prover]
    fn group_entries(
        entries: Vec<MetadataIndexEntry>,
        node_type: MetadataIndexNodeType,
        fe: u64,
    ) -> (r: Vec<MetadataIndexNode>)
        requires
            entries@.len() >= 1,
            entries@.len() < 0x1_0000_0000,
            forall|x: int|
                0 <= x < entries@.len() ==> (#[trigger] entries@[x]).name@.len()
                    < 0x10_0000,
        ensures
            node_views(r@) == sp_entry_groups(entry_views(entries@), node_type, fe),
            r@.len() >= 1,
            queue_wf(node_views(r@)),
    {
        let ghost es = entry_views(entries@);
        let n = entries.len();
        let mut out: Vec<MetadataIndexNode> = Vec::new();
        let mut current = MetadataIndexNode::new(node_type);
        let mut x: usize = 0;
        proof {
            assert(node_views(out@) =~~= sp_entry_groups(es, node_type, fe).take(0));
            assert(current@.entries =~= es.subrange(0, 0));
        }
        while x < n
            invariant
                n == entries@.len(),
                n >= 1,
                n < 0x1_0000_0000,
                es == entry_views(entries@),
                es.len() == n,
                forall|y: int|
                    0 <= y < n ==> (#[trigger] entries@[y]).name@.len() < 0x10_0000,
                x <= n,
                node_views(out@) == sp_entry_groups(es, node_type, fe).take(
                    (x / 256) as int,
                ),
                out@.len() == x / 256,
                current@.node_type == node_type,
                current@.entries == es.subrange(256 * ((x / 256) as int), x as int),
                current@.entries.len() == x % 256,
                node_wf(current@),
            decreases n - x,
        {
            let name = vstd::slice::slice_to_vec(entries[x].name.as_slice());
            let offset = entries[x].offset;
            current.children.push(MetadataIndexEntry { name, offset });
            let ghost j = (x / 256) as int;
            x = x + 1;
            proof {
                assert(es[x - 1] == (entries@[x - 1].name@, entries@[x - 1].offset));
                assert(current@.entries =~= es.subrange(256 * j, x as int));
            }
            if current.children.len() == 256 {
                let ghost pout = out@;
                let ghost cpre = current@;
                let mut done = current;
                done.end_offset = if x < n {
                    entries[x].offset
                } else {
                    fe
                };
                out.push(done);
                current = MetadataIndexNode::new(node_type);
                proof {
                    assert(x % 256 == 0 && x / 256 == j + 1);
                    assert(256 * (j + 1) == x);
                    assert(done@.entries == cpre.entries);
                    assert(x < n ==> es[x as int].1 == entries@[x as int].offset);
                    assert(j + 1 <= sp_group_count(n as int)) by {
                        vstd::arithmetic::div_mod::lemma_div_is_ordered(
                            x as int,
                            n as int + 255,
                            256,
                        );
                    }
                    assert(done@ =~~= sp_entry_groups(es, node_type, fe)[j]);
                    assert(sp_entry_groups(es, node_type, fe).take(j).len() == j);
                    assert(pout.len() == j);
                    assert forall|y: int| 0 <= y < j + 1 implies node_views(out@)[y]
                        =~~= sp_entry_groups(es, node_type, fe).take(j + 1)[y] by {
                        if y < j {
                            assert(node_views(pout)[y] == sp_entry_groups(
                                es,
                                node_type,
                                fe,
                            ).take(j)[y]);
                        } else {
                            assert(out@ == pout.push(done));
                            assert(pout.push(done)[j] == done);
                        }
                    }
                    assert(node_views(out@) =~~= sp_entry_groups(es, node_type, fe).take(
                        j + 1,
                    ));
                    assert(current@.entries =~= es.subrange(256 * (j + 1), x as int));
                }
            }
        }
        if current.children.len() > 0 {
            let ghost j = (n / 256) as int;
            let ghost pout = out@;
            let ghost cpre = current@;
            let mut done = current;
            done.end_offset = fe;
            out.push(done);
            proof {
                assert(n % 256 != 0);
                assert(done@.entries == cpre.entries);
                assert(done@ =~~= sp_entry_groups(es, node_type, fe)[j]);
                assert(sp_group_count(n as int) == j + 1);
                assert(sp_entry_groups(es, node_type, fe).take(j).len() == j);
                assert(pout.len() == j);
                assert forall|y: int| 0 <= y < j + 1 implies node_views(out@)[y]
                    =~~= sp_entry_groups(es, node_type, fe)[y] by {
                    if y < j {
                        assert(node_views(pout)[y] == sp_entry_groups(
                            es,
                            node_type,
                            fe,
                        ).take(j)[y]);
                    } else {
                        assert(out@ == pout.push(done));
                        assert(pout.push(done)[j] == done);
                    }
                }
                assert(node_views(out@) =~~= sp_entry_groups(es, node_type, fe));
            }
        } else {
            proof {
                assert(n % 256 == 0);
                assert(sp_group_count(n as int) == n as int / 256);
                assert(node_views(out@) =~~= sp_entry_groups(es, node_type, fe));
            }
        }
        proof {
            assert(out@.len() == sp_group_count(n as int));
            assert(out@.len() >= 1);
            assert forall|k: int| 0 <= k < out@.len() implies node_wf(
                #[trigger] node_views(out@)[k],
            ) && node_views(out@)[k].entries.len() >= 1 by {
                assert(node_views(out@)[k] == sp_entry_groups(es, node_type, fe)[k]);
                assert(256 * k < n);
                assert forall|e: int|
                    0 <= e < sp_entry_groups(es, node_type, fe)[k].entries.len() implies (
                #[trigger] sp_entry_groups(es, node_type, fe)[k].entries[e]).0.len()
                    < 0x10_0000 by {
                    assert(sp_entry_groups(es, node_type, fe)[k].entries[e] == es[256 * k
                        + e]);
                    assert(entries@[256 * k + e].name@.len() < 0x10_0000);
                }
            }
        }
        out
    }

    /// Serializes the whole metadata index for `device_timeseries_metadata`:
    /// per device its per-series records and the reduction of its
    /// measurement leaves, then the device roots and the device-level
    /// reduction. Returns the index root; devices without records are
    /// skipped.
    #[verifier::rlimit(100)]
    #[verifier::spinoff_prover]
    pub fn construct_metadata_index<W: PositionedWrite>(
        device_timeseries_metadata: &Vec<(Vec<u8>, Vec<TimeSeriesMetadata>)>,
        file: &mut W,
    ) -> (r: MetadataIndexNode)
        requires
            old(file).wf(),
            dev_input_wf(dev_views(device_timeseries_metadata@)),
        ensures
            final(file).wf(),
            final(file).sunk() == old(file).sunk() + sp_construct_bytes(
                dev_views(device_timeseries_metadata@),
                old(file).sunk().len() as int,
            ),
            r@ == sp_construct_root(
                dev_views(device_timeseries_metadata@),
                old(file).sunk().len() as int,
            ),
            node_wf(r@),
    {
        let ghost dv = dev_views(device_timeseries_metadata@);
        let ghost pos = old(file).sunk().len() as int;
        let roots = Self::all_device_sections(device_timeseries_metadata, file);
        let ghost rts = sp_device_roots_upto(dv, pos, dv.len() as int);
        let nr = roots.len();
        if nr == 0 {
            let mut empty_root = MetadataIndexNode::new(
                MetadataIndexNodeType::LeafDevice,
            );
            empty_root.end_offset = file.get_position();
            proof {
                assert(empty_root@.entries =~= Seq::<(Seq<u8>, u64)>::empty());
                assert(file.sunk() =~= old(file).sunk() + sp_construct_bytes(dv, pos));
                assert(empty_root@ =~~= sp_construct_root(dv, pos));
            }
            return empty_root;
        }
        proof {
            assert(rts.len() <= dv.len()) by {
                lemma_device_roots_count(dv, pos, dv.len() as int);
            }
        }
        let r = Self::device_index(roots, file);
        proof {
            assert(file.sunk() =~= old(file).sunk() + sp_construct_bytes(dv, pos));
            assert(r@ =~~= sp_construct_root(dv, pos));
        }
        r
    }

    /// Serializes every device's footer section in order, collecting the
    /// device roots; devices with no records are skipped.
    #[verifier::rlimit(100)]
    #[verifier::spinoff_prover]
    fn all_device_sections<W: PositionedWrite>(
        device_timeseries_metadata: &Vec<(Vec<u8>, Vec<TimeSeriesMetadata>)>,
        file: &mut W,
    ) -> (roots: Vec<(Vec<u8>, MetadataIndexNode)>)
        requires
            old(file).wf(),
            dev_input_wf(dev_views(device_timeseries_metadata@)),
        ensures
            final(file).wf(),
            final(file).sunk() == old(file).sunk() + sp_devices_bytes_upto(
                dev_views(device_timeseries_metadata@),
                old(file).sunk().len() as int,
                dev_views(device_timeseries_metadata@).len() as int,
            ),
            root_pair_views(roots@) == sp_device_roots_upto(
                dev_views(device_timeseries_metadata@),
                old(file).sunk().len() as int,
                dev_views(device_timeseries_metadata@).len() as int,
            ),
            roots@.len() < 0x1_0000_0000,
            forall|k: int|
                0 <= k < roots@.len() ==> node_wf(#[trigger] root_pair_views(
                    roots@,
                )[k].1) && root_pair_views(roots@)[k].1.entries.len() >= 1
                && root_pair_views(roots@)[k].0.len() < 0x10_0000,
    {
        let ghost dv = dev_views(device_timeseries_metadata@);
        let ghost pos = old(file).sunk().len() as int;
        let nd = device_timeseries_metadata.len();
        let mut roots: Vec<(Vec<u8>, MetadataIndexNode)> = Vec::new();
        let mut d: usize = 0;
        proof {
            assert(root_pair_views(roots@) =~~= sp_device_roots_upto(dv, pos, 0));
        }
        while d < nd
            invariant
                file.wf(),
                nd == device_timeseries_metadata@.len(),
                dv == dev_views(device_timeseries_metadata@),
                dev_input_wf(dv),
                pos == old(file).sunk().len() as int,
                d <= nd,
                file.sunk() == old(file).sunk() + sp_devices_bytes_upto(dv, pos, d as int),
                root_pair_views(roots@) == sp_device_roots_upto(dv, pos, d as int),
                roots@.len() <= d,
                forall|k: int|
                    0 <= k < roots@.len() ==> node_wf(#[trigger] root_pair_views(
                        roots@,
                    )[k].1) && root_pair_views(roots@)[k].1.entries.len() >= 1
                    && root_pair_views(roots@)[k].0.len() < 0x10_0000,
            decreases nd - d,
        {
            let ghost rpre = roots@;
            let m = device_timeseries_metadata[d].1.len();
            if m > 0 {
                proof {
                    assert(dv[d as int] == (DevView {
                        device: device_timeseries_metadata@[d as int].0@,
                        list: tsm_views(device_timeseries_metadata@[d as int].1@),
                    }));
                }
                let root = Self::device_section(device_timeseries_metadata, d, file);
                let name = vstd::slice::slice_to_vec(
                    device_timeseries_metadata[d].0.as_slice(),
                );
                roots.push((name, root));
            }
            d = d + 1;
            proof {
                assert(file.sunk() =~= old(file).sunk() + sp_devices_bytes_upto(
                    dv,
                    pos,
                    d as int,
                ));
                assert(root_pair_views(roots@) =~~= sp_device_roots_upto(
                    dv,
                    pos,
                    d as int,
                ));
            }
        }
        roots
    }

    /// Serializes the device level of the index: every device root, one
    /// entry per root grouped 256 to a leaf, then the reduction of the
    /// leaves. Returns the index root, whose end offset is the position
    /// after the index.
    #[verifier::rlimit(100)]
    #[verifier::spinoff_prover]
    fn device_index<W: PositionedWrite>(
        roots: Vec<(Vec<u8>, MetadataIndexNode)>,
        file: &mut W,
    ) -> (r: MetadataIndexNode)
        requires
            old(file).wf(),
            roots@.len() >= 1,
            roots@.len() < 0x1_0000_0000,
            forall|k: int|
                0 <= k < roots@.len() ==> node_wf(#[trigger] root_pair_views(
                    roots@,
                )[k].1) && root_pair_views(roots@)[k].1.entries.len() >= 1
                && root_pair_views(roots@)[k].0.len() < 0x10_0000,
        ensures
            final(file).wf(),
            final(file).sunk() == old(file).sunk() + sp_device_index_bytes(
                root_pair_views(roots@),
                old(file).sunk().len() as int,
            ),
            r@ == sp_device_index_root(
                root_pair_views(roots@),
                old(file).sunk().len() as int,
            ),
            node_wf(r@),
    {
        let ghost rts = root_pair_views(roots@);
        let ghost rv = sp_root_nodes(rts);
        let ghost q = old(file).sunk().len() as int;
        let nr = roots.len();
        // Pass one: write every device root, collecting one entry per root.
        let mut entries: Vec<MetadataIndexEntry> = Vec::new();
        let mut k: usize = 0;
        proof {
            assert(rv.take(0) =~= Seq::<NodeView>::empty());
            assert(entry_views(entries@) =~~= sp_root_entries(rts, q).take(0));
        }
        while k < nr
            invariant
                file.wf(),
                nr == roots@.len(),
                nr >= 1,
                rts == root_pair_views(roots@),
                rv == sp_root_nodes(rts),
                rts.len() == nr,
                forall|x: int|
                    0 <= x < nr ==> node_wf(#[trigger] rts[x].1) && rts[x].1.entries.len()
                        >= 1 && rts[x].0.len() < 0x10_0000,
                q == old(file).sunk().len() as int,
                k <= nr,
                file.sunk() == old(file).sunk() + sp_level_bytes(rv.take(k as int)),
                entry_views(entries@) == sp_root_entries(rts, q).take(k as int),
                entries@.len() == k,
            decreases nr - k,
        {
            proof {
                lemma_level_bytes_len(rv, k as int);
                assert(rts[k as int].1 == roots@[k as int].1@);
                assert(rts[k as int].0 == roots@[k as int].0@);
            }
            let name = vstd::slice::slice_to_vec(roots[k].0.as_slice());
            let offset = file.get_position();
            entries.push(MetadataIndexEntry { name, offset });
            roots[k].1.serialize(file);
            k = k + 1;
            proof {
                lemma_level_bytes_len(rv, k as int);
                assert(rv.take(k as int).drop_last() =~= rv.take(k - 1));
                assert(rv.take(k as int).last() == rv[k - 1]);
                assert(file.sunk() =~= old(file).sunk() + sp_level_bytes(
                    rv.take(k as int),
                ));
                assert(entry_views(entries@) =~~= sp_root_entries(rts, q).take(k as int));
            }
        }
        proof {
            assert(rv.take(nr as int) =~= rv);
            lemma_level_bytes_len(rv, nr as int);
            assert(entry_views(entries@) =~~= sp_root_entries(rts, q));
        }
        // Pass two: group the entries into device leaves and reduce them.
        let fe = file.get_position();
        proof {
            assert forall|x: int| 0 <= x < entries@.len() implies (
            #[trigger] entries@[x]).name@.len() < 0x10_0000 by {
                assert(entry_views(entries@)[x] == sp_root_entries(rts, q)[x]);
                assert(node_wf(root_pair_views(roots@)[x].1));
                assert(root_pair_views(roots@)[x].0.len() < 0x10_0000);
            }
        }
        let queue2 = Self::group_entries(entries, MetadataIndexNodeType::LeafDevice, fe);
        let mut r = Self::generate_root_node(
            queue2,
            file,
            MetadataIndexNodeType::InternalDevice,
        );
        r.end_offset = file.get_position();
        proof {
            assert(file.sunk() =~= old(file).sunk() + sp_device_index_bytes(rts, q));
            assert(r@ =~~= sp_device_index_root(rts, q));
        }
        r
    }

    /// Captures the current sink position as the node's end offset and
    /// moves the node into the queue.
    pub fn add_current_index_node_to_queue<W: PositionedWrite>(
        current_index_node: MetadataIndexNode,
        queue: &mut Vec<MetadataIndexNode>,
        file: &W,
    )
        requires
            file.wf(),
        ensures
            final(queue)@.len() == old(queue)@.len() + 1,
            forall|i: int|
                0 <= i < old(queue)@.len() ==> #[trigger] final(queue)@[i] == old(
                    queue,
                )@[i],
            final(queue)@.last()@ == (NodeView {
                end_offset: file.sunk().len() as u64,
                ..current_index_node@
            }),
    {
        let mut node = current_index_node;
        node.end_offset = file.get_position();
        queue.push(node);
    }
}

/// The abstract views of a queue of index nodes.
pub open spec fn node_views(q: Seq<MetadataIndexNode>) -> Seq<NodeView> {
    Seq::new(q.len(), |i: int| q[i]@)
}

/// The abstract views of collected index entries.
pub open spec fn entry_views(es: Seq<MetadataIndexEntry>) -> Seq<(Seq<u8>, u64)> {
    Seq::new(es.len(), |i: int| (es[i].name@, es[i].offset))
}

/// The total serialized length of the first `k` nodes.
pub open spec fn sp_nodes_prefix_len(nodes: Seq<NodeView>, k: int) -> int
    decreases k,
{
    if k <= 0 {
        0
    } else {
        sp_nodes_prefix_len(nodes, k - 1) + sp_node_bytes(nodes[k - 1]).len()
    }
}

/// The concatenated serialized nodes.
pub open spec fn sp_level_bytes(nodes: Seq<NodeView>) -> Seq<u8>
    decreases nodes.len(),
{
    if nodes.len() == 0 {
        Seq::empty()
    } else {
        sp_level_bytes(nodes.drop_last()) + sp_node_bytes(nodes.last())
    }
}

/// Concatenated node bytes measure exactly the prefix lengths.
pub proof fn lemma_level_bytes_len(nodes: Seq<NodeView>, k: int)
    requires
        0 <= k <= nodes.len(),
    ensures
        sp_level_bytes(nodes.take(k)).len() == sp_nodes_prefix_len(nodes, k),
    decreases k,
{
    if k > 0 {
        lemma_level_bytes_len(nodes, k - 1);
        assert(nodes.take(k).drop_last() =~= nodes.take(k - 1));
        assert(nodes.take(k).last() == nodes[k - 1]);
    }
}

/// The number of parents a level of `n` children produces: up to 256
/// children share one parent.
pub open spec fn sp_group_count(n: int) -> int {
    (n + 255) / 256
}

/// The parent node over children `256j .. min(256(j+1), n)` of a level that
/// begins at file position `pos`: one entry per child, naming the child's
/// first entry and its position; the end offset is the position after the
/// last grouped child.
pub open spec fn sp_parent(
    nodes: Seq<NodeView>,
    pos: int,
    t: MetadataIndexNodeType,
    j: int,
) -> NodeView {
    let lo = 256 * j;
    let hi = if 256 * (j + 1) <= nodes.len() {
        256 * (j + 1)
    } else {
        nodes.len() as int
    };
    NodeView {
        entries: Seq::new(
            (hi - lo) as nat,
            |k: int|
                (
                    nodes[lo + k].entries[0].0,
                    (pos + sp_nodes_prefix_len(nodes, lo + k)) as u64,
                ),
        ),
        end_offset: (pos + sp_nodes_prefix_len(nodes, hi)) as u64,
        node_type: t,
    }
}

/// The parent level over `nodes` written at position `pos`.
pub open spec fn sp_parents(nodes: Seq<NodeView>, pos: int, t: MetadataIndexNodeType) -> Seq<
    NodeView,
> {
    Seq::new(sp_group_count(nodes.len() as int) as nat, |j: int| sp_parent(nodes, pos, t, j))
}

/// The bytes the whole reduction emits: each level's nodes, then the next
/// level above it, until one node is left (which is not written).
pub open spec fn sp_reduce_bytes(nodes: Seq<NodeView>, pos: int, t: MetadataIndexNodeType) -> Seq<
    u8,
>
    decreases nodes.len(),
{
    if nodes.len() <= 1 {
        Seq::empty()
    } else {
        let level = sp_level_bytes(nodes);
        level + sp_reduce_bytes(sp_parents(nodes, pos, t), pos + level.len(), t)
    }
}

/// The root the reduction returns.
pub open spec fn sp_reduce_root(nodes: Seq<NodeView>, pos: int, t: MetadataIndexNodeType) -> NodeView
    decreases nodes.len(),
{
    if nodes.len() <= 1 {
        nodes[0]
    } else {
        let level = sp_level_bytes(nodes);
        sp_reduce_root(sp_parents(nodes, pos, t), pos + level.len(), t)
    }
}

/// Every node of the queue is well-formed and has at least one entry.
pub open spec fn queue_wf(nodes: Seq<NodeView>) -> bool {
    forall|i: int|
        0 <= i < nodes.len() ==> node_wf(#[trigger] nodes[i]) && nodes[i].entries.len()
            >= 1
}

/// The per-series footer record: its measurement id, data type, statistics
/// and the serialized chunk metadata list.
pub struct TimeSeriesMetadata {
    /// The record's type byte; its low bit is set when the series has more
    /// than one chunk.
    pub time_series_metadata_type: u8,
    /// The byte length of the chunk metadata list.
    pub chunk_meta_data_list_data_size: u32,
    /// The measurement id bytes.
    pub measurement_id: Vec<u8>,
    /// The column's data type.
    pub data_type: TSDataType,
    /// The statistics merged over the series' chunks.
    pub statistics: Statistics,
    /// The serialized chunk metadata list.
    pub buffer: Vec<u8>,
}

/// The abstract view of a per-series record.
#[verifier::ext_equal]
pub struct TSMView {
    /// The record's type byte.
    pub type_byte: u8,
    /// The byte length of the chunk metadata list.
    pub list_size: u32,
    /// The measurement id bytes.
    pub measurement_id: Seq<u8>,
    /// The column's data type.
    pub data_type: TSDataType,
    /// The merged statistics.
    pub statistics: Statistics,
    /// The serialized chunk metadata list.
    pub buffer: Seq<u8>,
}

/// The serialized form of a per-series record.
pub open spec fn sp_tsm_bytes(t: TSMView) -> Seq<u8> {
    seq![t.type_byte] + str_frame(t.measurement_id) + seq![t.data_type.tag()]
        + varuint_bytes(t.list_size as nat) + sp_stats_bytes(t.statistics) + t.buffer
}

/// A per-series record's id is short enough to frame.
pub open spec fn tsm_wf(t: TSMView) -> bool {
    t.measurement_id.len() < 0x10_0000
}

impl View for TimeSeriesMetadata {
    type V = TSMView;

    open spec fn view(&self) -> TSMView {
        TSMView {
            type_byte: self.time_series_metadata_type,
            list_size: self.chunk_meta_data_list_data_size,
            measurement_id: self.measurement_id@,
            data_type: self.data_type,
            statistics: self.statistics,
            buffer: self.buffer@,
        }
    }
}

impl Serializable for TimeSeriesMetadata {
    open spec fn record_bytes(&self) -> Seq<u8> {
        sp_tsm_bytes(self@)
    }

    open spec fn serial_wf(&self) -> bool {
        tsm_wf(self@)
    }

    fn serialize<W: PositionedWrite>(&self, file: &mut W) {
        let mut buf: Vec<u8> = Vec::new();
        buf.push(self.time_series_metadata_type);
        push_str_frame(&mut buf, self.measurement_id.as_slice());
        buf.push(self.data_type.serialize());
        write_var_u32(self.chunk_meta_data_list_data_size, &mut buf);
        self.statistics.write_bytes(&mut buf);
        push_bytes(&mut buf, self.buffer.as_slice());
        file.write_all(buf.as_slice());
        proof {
            assert(file.sunk() =~= old(file).sunk() + self.record_bytes());
        }
    }
}

/// One device's footer input: its path bytes and its per-series records in
/// schema order.
pub struct DevView {
    /// The device path bytes.
    pub device: Seq<u8>,
    /// The device's per-series records.
    pub list: Seq<TSMView>,
}

/// The concatenated serialized per-series records.
pub open spec fn sp_tsm_list_bytes(list: Seq<TSMView>) -> Seq<u8>
    decreases list.len(),
{
    if list.len() == 0 {
        Seq::empty()
    } else {
        sp_tsm_list_bytes(list.drop_last()) + sp_tsm_bytes(list.last())
    }
}

/// The total serialized length of the first `k` per-series records.
pub open spec fn sp_tsm_prefix_len(list: Seq<TSMView>, k: int) -> int
    decreases k,
{
    if k <= 0 {
        0
    } else {
        sp_tsm_prefix_len(list, k - 1) + sp_tsm_bytes(list[k - 1]).len()
    }
}

/// Concatenated record bytes measure exactly the prefix lengths.
pub proof fn lemma_tsm_list_bytes_len(list: Seq<TSMView>, k: int)
    requires
        0 <= k <= list.len(),
    ensures
        sp_tsm_list_bytes(list.take(k)).len() == sp_tsm_prefix_len(list, k),
    decreases k,
{
    if k > 0 {
        lemma_tsm_list_bytes_len(list, k - 1);
        assert(list.take(k).drop_last() =~= list.take(k - 1));
        assert(list.take(k).last() == list[k - 1]);
    }
}

/// The measurement-index entries of one device whose records begin at
/// file position `pos`: every 256th record gets an entry naming it and
/// recording its position.
pub open spec fn sp_measurement_entries(list: Seq<TSMView>, pos: int) -> Seq<(Seq<u8>, u64)> {
    let m = list.len() as int;
    let e = (m + 255) / 256;
    Seq::new(
        e as nat,
        |x: int|
            (list[256 * x].measurement_id, (pos + sp_tsm_prefix_len(list, 256 * x)) as u64),
    )
}

/// The measurement entries of a well-formed device: at least one, the
/// count fits the format, and every name frames.
pub proof fn lemma_measurement_entries_wf(lv: Seq<TSMView>, p: int)
    requires
        1 <= lv.len() < 0x40_0000_0000,
        forall|x: int| 0 <= x < lv.len() ==> tsm_wf(#[trigger] lv[x]),
    ensures
        1 <= sp_measurement_entries(lv, p).len() < 0x1_0000_0000,
        forall|x: int|
            0 <= x < sp_measurement_entries(lv, p).len() ==> (
            #[trigger] sp_measurement_entries(lv, p)[x]).0.len() < 0x10_0000,
{
    let m = lv.len() as int;
    let e = (m + 255) / 256;
    assert(e < 0x1_0000_0000) by {
        vstd::arithmetic::div_mod::lemma_div_is_ordered(
            m + 255,
            0x40_0000_0000int + 254,
            256,
        );
    }
    assert forall|x: int| 0 <= x < e implies (
    #[trigger] sp_measurement_entries(lv, p)[x]).0.len() < 0x10_0000 by {
        assert(256 * x < m) by {
            assert(x <= e - 1);
            assert(256 * x <= 256 * (e - 1)) by {
                vstd::arithmetic::mul::lemma_mul_inequality(x, e - 1, 256);
                vstd::arithmetic::mul::lemma_mul_is_commutative(x, 256);
                vstd::arithmetic::mul::lemma_mul_is_commutative(e - 1, 256);
            }
            vstd::arithmetic::div_mod::lemma_fundamental_div_mod(m + 255, 256);
        }
        assert(tsm_wf(lv[256 * x]));
    }
}

/// Groups index entries 256 to a node: node `j` takes entries
/// `256j .. min(256(j+1), n)`; a node that is followed by another ends at
/// the next node's first entry position, the last one at `fe`.
pub open spec fn sp_entry_groups(
    es: Seq<(Seq<u8>, u64)>,
    t: MetadataIndexNodeType,
    fe: u64,
) -> Seq<NodeView> {
    Seq::new(
        sp_group_count(es.len() as int) as nat,
        |j: int|
            {
                let lo = 256 * j;
                let hi = if 256 * (j + 1) <= es.len() {
                    256 * (j + 1)
                } else {
                    es.len() as int
                };
                NodeView {
                    entries: es.subrange(lo, hi),
                    end_offset: if hi < es.len() {
                        es[hi].1
                    } else {
                        fe
                    },
                    node_type: t,
                }
            },
    )
}

/// The leaf level of one device's measurement index.
pub open spec fn sp_device_leaves(list: Seq<TSMView>, pos: int) -> Seq<NodeView> {
    sp_entry_groups(
        sp_measurement_entries(list, pos),
        MetadataIndexNodeType::LeafMeasurement,
        (pos + sp_tsm_prefix_len(list, list.len() as int)) as u64,
    )
}

/// The bytes of one device's footer section: its records, then the
/// reduction of its measurement-index leaves.
pub open spec fn sp_device_section_bytes(list: Seq<TSMView>, pos: int) -> Seq<u8> {
    let tb = sp_tsm_list_bytes(list);
    tb + sp_reduce_bytes(
        sp_device_leaves(list, pos),
        pos + tb.len(),
        MetadataIndexNodeType::InternalMeasurement,
    )
}

/// The root of one device's measurement index.
pub open spec fn sp_device_root(list: Seq<TSMView>, pos: int) -> NodeView {
    let tb = sp_tsm_list_bytes(list);
    sp_reduce_root(
        sp_device_leaves(list, pos),
        pos + tb.len(),
        MetadataIndexNodeType::InternalMeasurement,
    )
}

/// The bytes of the first `k` devices' footer sections (devices with no
/// records are skipped).
pub open spec fn sp_devices_bytes_upto(devs: Seq<DevView>, pos: int, k: int) -> Seq<u8>
    decreases k,
{
    if k <= 0 {
        Seq::empty()
    } else {
        let b = sp_devices_bytes_upto(devs, pos, k - 1);
        b + (if devs[k - 1].list.len() == 0 {
            Seq::empty()
        } else {
            sp_device_section_bytes(devs[k - 1].list, pos + b.len())
        })
    }
}

/// The device roots of the first `k` devices, paired with their paths.
pub open spec fn sp_device_roots_upto(devs: Seq<DevView>, pos: int, k: int) -> Seq<
    (Seq<u8>, NodeView),
>
    decreases k,
{
    if k <= 0 {
        Seq::empty()
    } else {
        let rs = sp_device_roots_upto(devs, pos, k - 1);
        rs + (if devs[k - 1].list.len() == 0 {
            Seq::<(Seq<u8>, NodeView)>::empty()
        } else {
            seq![
                (
                    devs[k - 1].device,
                    sp_device_root(
                        devs[k - 1].list,
                        pos + sp_devices_bytes_upto(devs, pos, k - 1).len(),
                    ),
                ),
            ]
        })
    }
}

/// There are at most as many device roots as devices.
pub proof fn lemma_device_roots_count(devs: Seq<DevView>, pos: int, k: int)
    requires
        0 <= k <= devs.len(),
    ensures
        sp_device_roots_upto(devs, pos, k).len() <= k,
    decreases k,
{
    if k > 0 {
        lemma_device_roots_count(devs, pos, k - 1);
    }
}

/// The node views of a root list.
pub open spec fn sp_root_nodes(roots: Seq<(Seq<u8>, NodeView)>) -> Seq<NodeView> {
    Seq::new(roots.len(), |i: int| roots[i].1)
}

/// The device-level entries: one per device root, named by the device
/// path, recording the root's position.
pub open spec fn sp_root_entries(roots: Seq<(Seq<u8>, NodeView)>, q: int) -> Seq<(Seq<u8>, u64)> {
    let rv = sp_root_nodes(roots);
    Seq::new(roots.len(), |x: int| (roots[x].0, (q + sp_nodes_prefix_len(rv, x)) as u64))
}

/// The leaf level of the device index.
pub open spec fn sp_dev_leaves(roots: Seq<(Seq<u8>, NodeView)>, q: int) -> Seq<NodeView> {
    let rv = sp_root_nodes(roots);
    sp_entry_groups(
        sp_root_entries(roots, q),
        MetadataIndexNodeType::LeafDevice,
        (q + sp_nodes_prefix_len(rv, roots.len() as int)) as u64,
    )
}

/// The bytes of the device index: every device root, then the reduction of
/// the device leaves (nothing when the file holds no series).
pub open spec fn sp_device_index_bytes(roots: Seq<(Seq<u8>, NodeView)>, q: int) -> Seq<
    u8,
> {
    if roots.len() == 0 {
        Seq::empty()
    } else {
        let level = sp_level_bytes(sp_root_nodes(roots));
        level + sp_reduce_bytes(
            sp_dev_leaves(roots, q),
            q + level.len(),
            MetadataIndexNodeType::InternalDevice,
        )
    }
}

/// The root of the whole metadata index; its end offset is the position
/// right after the index.
pub open spec fn sp_device_index_root(roots: Seq<(Seq<u8>, NodeView)>, q: int) -> NodeView {
    if roots.len() == 0 {
        NodeView {
            entries: Seq::empty(),
            end_offset: q as u64,
            node_type: MetadataIndexNodeType::LeafDevice,
        }
    } else {
        let level = sp_level_bytes(sp_root_nodes(roots));
        NodeView {
            end_offset: (q + sp_device_index_bytes(roots, q).len()) as u64,
            ..sp_reduce_root(
                sp_dev_leaves(roots, q),
                q + level.len(),
                MetadataIndexNodeType::InternalDevice,
            )
        }
    }
}

/// The bytes the whole metadata index construction emits for `devs`
/// starting at position `pos`.
pub open spec fn sp_construct_bytes(devs: Seq<DevView>, pos: int) -> Seq<u8> {
    let db = sp_devices_bytes_upto(devs, pos, devs.len() as int);
    db + sp_device_index_bytes(
        sp_device_roots_upto(devs, pos, devs.len() as int),
        pos + db.len(),
    )
}

/// The root node the construction returns.
pub open spec fn sp_construct_root(devs: Seq<DevView>, pos: int) -> NodeView {
    let db = sp_devices_bytes_upto(devs, pos, devs.len() as int);
    sp_device_index_root(sp_device_roots_upto(devs, pos, devs.len() as int), pos + db.len())
}

/// The abstract views of a list of per-series records.
pub open spec fn tsm_views(list: Seq<TimeSeriesMetadata>) -> Seq<TSMView> {
    Seq::new(list.len(), |i: int| list[i]@)
}

/// The abstract views of the construction's input.
pub open spec fn dev_views(devs: Seq<(Vec<u8>, Vec<TimeSeriesMetadata>)>) -> Seq<DevView> {
    Seq::new(
        devs.len(),
        |i: int| DevView { device: devs[i].0@, list: tsm_views(devs[i].1@) },
    )
}

/// The abstract views of the collected device roots.
pub open spec fn root_pair_views(rs: Seq<(Vec<u8>, MetadataIndexNode)>) -> Seq<
    (Seq<u8>, NodeView),
> {
    Seq::new(rs.len(), |i: int| (rs[i].0@, rs[i].1@))
}

/// Every device path and measurement id of the input frames, and the
/// counts fit the format's unsigned 32-bit arities.
pub open spec fn dev_input_wf(devs: Seq<DevView>) -> bool {
    &&& devs.len() < 0x1_0000_0000
    &&& forall|i: int|
        0 <= i < devs.len() ==> (#[trigger] devs[i]).device.len() < 0x10_0000
            && devs[i].list.len() < 0x40_0000_0000 && (forall|k: int|
            0 <= k < devs[i].list.len() ==> tsm_wf(#[trigger] devs[i].list[k]))
}

/// The file-level footer record: the index root (or a four-byte zero
/// sentinel) followed by the metadata section's start position.
pub struct TsFileMetadata {
    /// The index tree's root, if the file holds any series.
    pub metadata_index: Option<MetadataIndexNode>,
    /// The byte position at which the metadata section began.
    pub meta_offset: u64,
}

impl TsFileMetadata {
    /// A footer record pointing at `meta_offset` with root
    /// `metadata_index`.
    pub fn new(metadata_index: Option<MetadataIndexNode>, meta_offset: u64) -> (r:
        TsFileMetadata)
        ensures
            r.metadata_index == metadata_index,
            r.meta_offset == meta_offset,
    {
        TsFileMetadata { metadata_index, meta_offset }
    }
}

/// The serialized form of the footer record.
pub open spec fn sp_file_meta_bytes(root: Option<NodeView>, meta_offset: u64) -> Seq<u8> {
    (match root {
        Some(n) => sp_node_bytes(n),
        None => be_u32_bytes(0),
    }) + be_u64_bytes(meta_offset)
}

impl Serializable for TsFileMetadata {
    open spec fn record_bytes(&self) -> Seq<u8> {
        sp_file_meta_bytes(
            match self.metadata_index {
                Some(n) => Some(n@),
                None => None,
            },
            self.meta_offset,
        )
    }

    open spec fn serial_wf(&self) -> bool {
        match self.metadata_index {
            Some(n) => node_wf(n@),
            None => true,
        }
    }

    fn serialize<W: PositionedWrite>(&self, file: &mut W) {
        match &self.metadata_index {
            Some(index) => {
                index.serialize(file);
            },
            None => {
                let mut buf: Vec<u8> = Vec::new();
                buf.push(0u8);
                buf.push(0u8);
                buf.push(0u8);
                buf.push(0u8);
                file.write_all(buf.as_slice());
                proof {
                    assert((0u32 >> 24u32) as u8 == 0 && (0u32 >> 16u32) as u8 == 0 && (
                    0u32 >> 8u32) as u8 == 0) by (bit_vector);
                    assert(file.sunk() =~= old(file).sunk() + be_u32_bytes(0));
                }
            },
        }
        let mut tail: Vec<u8> = Vec::new();
        push_be_u64(&mut tail, self.meta_offset);
        file.write_all(tail.as_slice());
        proof {
            assert(file.sunk() =~= old(file).sunk() + self.record_bytes());
        }
    }
}

} // verus!
