//! Resolves the streams of a graph to endpoints on one node.
//!
//! A node has one [`ChannelManager`]. It holds a read endpoint for every
//! stream that an operator of the node reads, one per consumer, and a write
//! endpoint for every stream that is written on the node. A read endpoint is
//! handed out once; a write endpoint as often as it is asked for.
use crate::graph::{Graph, GraphView, StreamSource};
use crate::ids::{NodeId, OperatorId, StreamId};
use vstd::prelude::*;

verus! {

/// How messages reach a read endpoint.
#[derive(Clone, Copy, Debug, PartialEq, Eq)]
pub enum Transport {
    /// From the same node: messages are moved, not copied or encoded.
    Local,
    /// From the node given: messages arrive encoded.
    Remote(NodeId),
}

/// The read end of a stream for one consumer.
#[derive(Clone, Copy, Debug, PartialEq, Eq)]
pub struct ReadEndpoint {
    /// The stream that the consumer reads.
    pub stream: StreamId,
    /// The stream that feeds it: `stream` itself, or the stream that it is
    /// bound to if it is a loop stream.
    pub source: StreamId,
    /// The operator that reads.
    pub consumer: OperatorId,
    /// How messages arrive.
    pub transport: Transport,
    /// How many messages may wait at the endpoint.
    pub capacity: usize,
}

/// The write end of a stream.
#[derive(Clone, Copy, Debug, PartialEq, Eq)]
pub struct WriteEndpoint {
    /// The stream that is written.
    pub stream: StreamId,
    /// The operator that writes it; `None` for a stream that the driver
    /// feeds.
    pub producer: Option<OperatorId>,
    /// Whether the stream has a reader on another node, so that what is
    /// sent must be encoded.
    pub remote: bool,
}

/// A read endpoint and whether it was handed out.
#[derive(Clone, Copy, Debug, PartialEq, Eq)]
pub struct ReadSlot {
    pub endpoint: ReadEndpoint,
    pub taken: bool,
}

/// Why a stream could not be resolved to an endpoint.
#[derive(Clone, Copy, Debug, PartialEq, Eq)]
pub enum ResolutionError {
    /// The node has no such endpoint.
    StreamNotFound { stream: StreamId },
    /// The read endpoint was handed out before.
    AlreadyTaken { stream: StreamId, consumer: OperatorId },
    /// The stream has a reader on another node, and no codec was given to
    /// encode what is sent on it.
    CodecMissing { stream: StreamId },
}

/// The mathematical value of a [`ChannelManager`].
pub struct ChannelManagerView {
    pub node_id: NodeId,
    pub capacity: usize,
    pub reads: Seq<ReadSlot>,
    pub writes: Seq<WriteEndpoint>,
}

/// Slot `k` of `reads` is the endpoint of `consumer` on `stream`.
pub open spec fn read_slot_at(
    reads: Seq<ReadSlot>,
    k: int,
    stream: StreamId,
    consumer: OperatorId,
) -> bool {
    0 <= k < reads.len() && reads[k].endpoint.stream == stream && reads[k].endpoint.consumer
        == consumer
}

/// No two slots are for the same consumer on the same stream.
pub open spec fn distinct_reads(reads: Seq<ReadSlot>) -> bool {
    forall|k: int, k2: int|
        0 <= k < k2 < reads.len() ==> !((#[trigger] reads[k]).endpoint.stream == (
        #[trigger] reads[k2]).endpoint.stream && reads[k].endpoint.consumer
            == reads[k2].endpoint.consumer)
}

/// Endpoint `k` of `writes` is that of `stream`.
pub open spec fn write_endpoint_at(writes: Seq<WriteEndpoint>, k: int, stream: StreamId) -> bool {
    0 <= k < writes.len() && writes[k].stream == stream
}

/// No two write endpoints are for the same stream.
pub open spec fn distinct_writes(writes: Seq<WriteEndpoint>) -> bool {
    forall|k: int, k2: int|
        0 <= k < k2 < writes.len() ==> (#[trigger] writes[k]).stream != (
        #[trigger] writes[k2]).stream
}

/// Marks the slot of `consumer` on `stream` as handed out.
pub open spec fn mark_taken(stream: StreamId, consumer: OperatorId) -> spec_fn(ReadSlot) -> ReadSlot {
    |slot: ReadSlot|
        if slot.endpoint.stream == stream && slot.endpoint.consumer == consumer {
            ReadSlot { taken: true, ..slot }
        } else {
            slot
        }
}

impl ChannelManagerView {
    /// What construction and every call keep true.
    pub open spec fn wf(self) -> bool {
        distinct_reads(self.reads) && distinct_writes(self.writes)
    }

    /// The node has a read endpoint for `consumer` on `stream`, handed out
    /// or not.
    pub open spec fn has_read(self, stream: StreamId, consumer: OperatorId) -> bool {
        exists|k: int| read_slot_at(self.reads, k, stream, consumer)
    }

    /// The read endpoint for `consumer` on `stream` is there to be taken.
    pub open spec fn is_available(self, stream: StreamId, consumer: OperatorId) -> bool {
        exists|k: int| read_slot_at(self.reads, k, stream, consumer) && !self.reads[k].taken
    }

    /// The read endpoint for `consumer` on `stream` was handed out.
    pub open spec fn is_taken(self, stream: StreamId, consumer: OperatorId) -> bool {
        exists|k: int| read_slot_at(self.reads, k, stream, consumer) && self.reads[k].taken
    }

    /// The node has a write endpoint for `stream`.
    pub open spec fn has_write(self, stream: StreamId) -> bool {
        exists|k: int| write_endpoint_at(self.writes, k, stream)
    }

    /// What taking the read endpoint for `consumer` on `stream` returns.
    pub open spec fn take_result(self, stream: StreamId, consumer: OperatorId) -> Result<
        ReadEndpoint,
        ResolutionError,
    > {
        if self.is_available(stream, consumer) {
            Ok(self.reads[choose|k: int| read_slot_at(self.reads, k, stream, consumer)].endpoint)
        } else if self.has_read(stream, consumer) {
            Err(ResolutionError::AlreadyTaken { stream, consumer })
        } else {
            Err(ResolutionError::StreamNotFound { stream })
        }
    }

    /// The channel manager after the read endpoint for `consumer` on
    /// `stream` was taken.
    pub open spec fn after_take(self, stream: StreamId, consumer: OperatorId) -> Self {
        ChannelManagerView { reads: self.reads.map_values(mark_taken(stream, consumer)), ..self }
    }

    /// What asking for the write endpoint of `stream` returns.
    pub open spec fn write_result(self, stream: StreamId) -> Result<WriteEndpoint, ResolutionError> {
        if self.has_write(stream) {
            Ok(self.writes[choose|k: int| write_endpoint_at(self.writes, k, stream)])
        } else {
            Err(ResolutionError::StreamNotFound { stream })
        }
    }
}

/// How messages that are fed on node `from` reach the node `to`.
pub open spec fn route(from: NodeId, to: NodeId) -> Transport {
    if from == to {
        Transport::Local
    } else {
        Transport::Remote(from)
    }
}

/// Input `j` of operator `i` is `stream`; the operator is `consumer` and
/// runs on `node`, and the stream is fed.
pub open spec fn reads_at(
    graph: GraphView,
    node: NodeId,
    i: int,
    j: int,
    stream: StreamId,
    consumer: OperatorId,
) -> bool {
    &&& graph.consumes(i, j, stream)
    &&& graph.operators[i].id == consumer
    &&& graph.operators[i].node_id == node
    &&& graph.feeding_node(stream) is Some
}

/// At place `e` the driver reads `stream` under the identity `consumer`;
/// `node` is the driver's, and the stream is fed.
pub open spec fn extracts_at(
    graph: GraphView,
    node: NodeId,
    e: int,
    stream: StreamId,
    consumer: OperatorId,
) -> bool {
    &&& graph.extract_at(e, consumer)
    &&& graph.extracts[e].stream == stream
    &&& node == GraphView::driver_node()
    &&& graph.feeding_node(stream) is Some
}

/// `consumer` reads `stream` on `node`, and the stream is fed: `consumer` is
/// an operator that runs on the node, or the node is the driver's and
/// `consumer` the identity under which the driver reads the stream.
pub open spec fn reads_here(
    graph: GraphView,
    node: NodeId,
    stream: StreamId,
    consumer: OperatorId,
) -> bool {
    (exists|i: int, j: int| reads_at(graph, node, i, j, stream, consumer)) || exists|e: int|
        extracts_at(graph, node, e, stream, consumer)
}

/// `consumer` reads `stream` on `node` as an operator, or as the driver at
/// one of the first `n` places at which the driver reads.
spec fn read_before(
    graph: GraphView,
    node: NodeId,
    stream: StreamId,
    consumer: OperatorId,
    n: int,
) -> bool {
    (exists|i: int, j: int| reads_at(graph, node, i, j, stream, consumer)) || exists|e: int|
        extracts_at(graph, node, e, stream, consumer) && e < n
}

/// `reads` holds the read endpoints of `node` for the inputs of all
/// operators and for the first `n` places at which the driver reads, each
/// once and none handed out.
spec fn extracts_built(
    graph: GraphView,
    node: NodeId,
    capacity: usize,
    reads: Seq<ReadSlot>,
    n: int,
) -> bool {
    &&& distinct_reads(reads)
    &&& forall|k: int|
        0 <= k < reads.len() ==> {
            let slot = #[trigger] reads[k];
            &&& !slot.taken
            &&& slot.endpoint == read_endpoint(
                graph,
                node,
                capacity,
                slot.endpoint.stream,
                slot.endpoint.consumer,
            )
            &&& read_before(graph, node, slot.endpoint.stream, slot.endpoint.consumer, n)
        }
    &&& forall|i2: int, j2: int, stream: StreamId, consumer: OperatorId| #[trigger]
        reads_at(graph, node, i2, j2, stream, consumer) ==> exists|k: int|
            read_slot_at(reads, k, stream, consumer)
    &&& forall|e: int, stream: StreamId, consumer: OperatorId| #[trigger]
        extracts_at(graph, node, e, stream, consumer) && e < n ==> exists|k: int|
            read_slot_at(reads, k, stream, consumer)
}

/// The read endpoint on `node` for `consumer` on `stream`.
pub open spec fn read_endpoint(
    graph: GraphView,
    node: NodeId,
    capacity: usize,
    stream: StreamId,
    consumer: OperatorId,
) -> ReadEndpoint {
    ReadEndpoint {
        stream,
        source: graph.resolve(stream),
        consumer,
        transport: route(graph.feeding_node(stream).unwrap(), node),
        capacity,
    }
}

/// Output `j` of operator `i` is `stream`, and the operator runs on `node`.
pub open spec fn writes_at(graph: GraphView, node: NodeId, i: int, j: int, stream: StreamId) -> bool {
    graph.produces(i, j, stream) && graph.operators[i].node_id == node
}

/// Stream `k` is `stream`; the driver feeds it, and `node` is the driver's.
pub open spec fn ingests_at(graph: GraphView, node: NodeId, k: int, stream: StreamId) -> bool {
    graph.stream_at(k, stream) && graph.streams[k].source is Ingest && node
        == GraphView::driver_node()
}

/// `stream` is written on `node`: by an operator that runs there, or by the
/// driver if the node is the driver's.
pub open spec fn writes_here(graph: GraphView, node: NodeId, stream: StreamId) -> bool {
    (exists|i: int, j: int| writes_at(graph, node, i, j, stream)) || exists|k: int|
        ingests_at(graph, node, k, stream)
}

/// The write endpoint of `stream` on `node`.
pub open spec fn write_endpoint(graph: GraphView, node: NodeId, stream: StreamId) -> WriteEndpoint {
    WriteEndpoint {
        stream,
        producer: match graph.source_of(stream) {
            Some(StreamSource::Operator(producer)) => Some(producer),
            _ => None,
        },
        remote: graph.is_read_off(node, stream),
    }
}

/// Input `j2` of operator `i2` comes before input `j` of operator `i`.
spec fn comes_before(i2: int, j2: int, i: int, j: int) -> bool {
    i2 < i || (i2 == i && j2 < j)
}

/// `reads` holds the read endpoints of `node` for the inputs that come
/// before input `j` of operator `i`, each once and none handed out.
spec fn reads_built(
    graph: GraphView,
    node: NodeId,
    capacity: usize,
    reads: Seq<ReadSlot>,
    i: int,
    j: int,
) -> bool {
    &&& distinct_reads(reads)
    &&& forall|k: int|
        0 <= k < reads.len() ==> {
            let slot = #[trigger] reads[k];
            &&& !slot.taken
            &&& slot.endpoint == read_endpoint(
                graph,
                node,
                capacity,
                slot.endpoint.stream,
                slot.endpoint.consumer,
            )
            &&& exists|i2: int, j2: int|
                reads_at(graph, node, i2, j2, slot.endpoint.stream, slot.endpoint.consumer)
                    && comes_before(i2, j2, i, j)
        }
    &&& forall|i2: int, j2: int, stream: StreamId, consumer: OperatorId|
        #[trigger] reads_at(graph, node, i2, j2, stream, consumer) && comes_before(i2, j2, i, j)
            ==> exists|k: int| read_slot_at(reads, k, stream, consumer)
}

/// `writes` holds the write endpoints of `node` for the outputs that come
/// before output `j` of operator `i`, each once.
spec fn writes_built(
    graph: GraphView,
    node: NodeId,
    writes: Seq<WriteEndpoint>,
    i: int,
    j: int,
) -> bool {
    &&& distinct_writes(writes)
    &&& forall|k: int|
        0 <= k < writes.len() ==> {
            let endpoint = #[trigger] writes[k];
            &&& endpoint == write_endpoint(graph, node, endpoint.stream)
            &&& exists|i2: int, j2: int|
                writes_at(graph, node, i2, j2, endpoint.stream) && comes_before(i2, j2, i, j)
        }
    &&& forall|i2: int, j2: int, stream: StreamId| #[trigger]
        writes_at(graph, node, i2, j2, stream) && comes_before(i2, j2, i, j) ==> exists|k: int|
            write_endpoint_at(writes, k, stream)
}

/// `writes` holds the write endpoints of `node` for the outputs of all
/// operators and for the ingest streams among the first `n` streams, each
/// once.
spec fn ingests_built(
    graph: GraphView,
    node: NodeId,
    writes: Seq<WriteEndpoint>,
    n: int,
) -> bool {
    &&& distinct_writes(writes)
    &&& forall|k: int|
        0 <= k < writes.len() ==> {
            let endpoint = #[trigger] writes[k];
            &&& endpoint == write_endpoint(graph, node, endpoint.stream)
            &&& written_before(graph, node, endpoint.stream, n)
        }
    &&& forall|i2: int, j2: int, stream: StreamId| #[trigger]
        writes_at(graph, node, i2, j2, stream) ==> exists|k: int|
            write_endpoint_at(writes, k, stream)
    &&& forall|k2: int, stream: StreamId| #[trigger]
        ingests_at(graph, node, k2, stream) && k2 < n ==> exists|k: int|
            write_endpoint_at(writes, k, stream)
}

/// `stream` is written on `node` by an operator, or it is an ingest stream
/// among the first `n` streams and `node` is the driver's.
spec fn written_before(graph: GraphView, node: NodeId, stream: StreamId, n: int) -> bool {
    (exists|i: int, j: int| writes_at(graph, node, i, j, stream)) || exists|k: int|
        ingests_at(graph, node, k, stream) && k < n
}

/// The read endpoints among `reads` that the stream `source` feeds, in
/// order.
pub open spec fn fed_by(reads: Seq<ReadSlot>, source: StreamId) -> Seq<ReadEndpoint>
    decreases reads.len(),
{
    if reads.len() == 0 {
        Seq::empty()
    } else if reads.last().endpoint.source == source {
        fed_by(reads.drop_last(), source).push(reads.last().endpoint)
    } else {
        fed_by(reads.drop_last(), source)
    }
}

/// The endpoints of one node.
pub struct ChannelManager {
    node_id: NodeId,
    capacity: usize,
    reads: Vec<ReadSlot>,
    writes: Vec<WriteEndpoint>,
}

impl View for ChannelManager {
    type V = ChannelManagerView;

    closed spec fn view(&self) -> ChannelManagerView {
        ChannelManagerView {
            node_id: self.node_id,
            capacity: self.capacity,
            reads: self.reads@,
            writes: self.writes@,
        }
    }
}

fn find_read(reads: &Vec<ReadSlot>, stream: StreamId, consumer: OperatorId) -> (found: Option<usize>)
    ensures
        match found {
            Some(k) => read_slot_at(reads@, k as int, stream, consumer),
            None => forall|k: int| !read_slot_at(reads@, k, stream, consumer),
        },
{
    let mut k: usize = 0;
    while k < reads.len()
        invariant
            k <= reads@.len(),
            forall|k2: int| 0 <= k2 < k ==> !read_slot_at(reads@, k2, stream, consumer),
        decreases reads@.len() - k,
    {
        if reads[k].endpoint.stream == stream && reads[k].endpoint.consumer == consumer {
            return Some(k);
        }
        k = k + 1;
    }
    None
}

fn find_write(writes: &Vec<WriteEndpoint>, stream: StreamId) -> (found: Option<usize>)
    ensures
        match found {
            Some(k) => write_endpoint_at(writes@, k as int, stream),
            None => forall|k: int| !write_endpoint_at(writes@, k, stream),
        },
{
    let mut k: usize = 0;
    while k < writes.len()
        invariant
            k <= writes@.len(),
            forall|k2: int| 0 <= k2 < k ==> !write_endpoint_at(writes@, k2, stream),
        decreases writes@.len() - k,
    {
        if writes[k].stream == stream {
            return Some(k);
        }
        k = k + 1;
    }
    None
}

/// Adds the read endpoints of operator `i`, which runs on `node_id`.
fn add_reads(graph: &Graph, node_id: NodeId, capacity: usize, i: usize, reads: &mut Vec<ReadSlot>)
    requires
        graph.wf(),
        i < graph@.operators.len(),
        graph@.operators[i as int].node_id == node_id,
        reads_built(graph@, node_id, capacity, old(reads)@, i as int, 0),
    ensures
        reads_built(
            graph@,
            node_id,
            capacity,
            final(reads)@,
            i as int,
            graph@.operators[i as int].inputs.len() as int,
        ),
{
    let operator = graph.operator(i);
    let mut j: usize = 0;
    while j < operator.read_stream_ids.len()
        invariant
            graph.wf(),
            i < graph@.operators.len(),
            operator@ == graph@.operators[i as int],
            operator.node_id == node_id,
            j <= operator.read_stream_ids@.len(),
            reads_built(graph@, node_id, capacity, reads@, i as int, j as int),
        decreases operator.read_stream_ids@.len() - j,
    {
        let stream = operator.read_stream_ids[j];
        let consumer = operator.id;
        let ghost before = reads@;
        let feeding = graph.feeding_node(stream);
        let mut added = false;
        if let Some(from) = feeding {
            if find_read(reads, stream, consumer).is_none() {
                let transport = if from == node_id {
                    Transport::Local
                } else {
                    Transport::Remote(from)
                };
                let source = graph.resolve(stream);
                reads.push(
                    ReadSlot {
                        endpoint: ReadEndpoint { stream, source, consumer, transport, capacity },
                        taken: false,
                    },
                );
                added = true;
            }
        }
        proof {
            let g = graph@;
            let (ii, jj) = (i as int, j as int);
            if added {
                assert(reads@ == before.push(reads@[before.len() as int]));
                assert(reads_at(g, node_id, ii, jj, stream, consumer));
                assert forall|k: int| 0 <= k < before.len() implies reads@[k] == before[k] by {}
                assert forall|k: int, k2: int| 0 <= k < k2 < reads@.len() implies !((
                #[trigger] reads@[k]).endpoint.stream == (#[trigger] reads@[k2]).endpoint.stream
                    && reads@[k].endpoint.consumer == reads@[k2].endpoint.consumer) by {
                    if k2 == before.len() {
                        assert(!read_slot_at(before, k, stream, consumer));
                    }
                }
            } else {
                assert(reads@ == before);
            }
            assert forall|k: int| 0 <= k < reads@.len() implies {
                let slot = #[trigger] reads@[k];
                &&& !slot.taken
                &&& slot.endpoint == read_endpoint(
                    g,
                    node_id,
                    capacity,
                    slot.endpoint.stream,
                    slot.endpoint.consumer,
                )
                &&& exists|i2: int, j2: int|
                    reads_at(g, node_id, i2, j2, slot.endpoint.stream, slot.endpoint.consumer)
                        && comes_before(i2, j2, ii, jj + 1)
            } by {
                let slot = reads@[k];
                if k < before.len() {
                    let (i2, j2) = choose|i2: int, j2: int|
                        reads_at(g, node_id, i2, j2, slot.endpoint.stream, slot.endpoint.consumer)
                            && comes_before(i2, j2, ii, jj);
                    assert(reads_at(g, node_id, i2, j2, slot.endpoint.stream, slot.endpoint.consumer)
                        && comes_before(i2, j2, ii, jj + 1));
                } else {
                    assert(reads_at(g, node_id, ii, jj, slot.endpoint.stream, slot.endpoint.consumer)
                        && comes_before(ii, jj, ii, jj + 1));
                }
            }
            assert forall|i2: int, j2: int, s: StreamId, c: OperatorId| #[trigger]
                reads_at(g, node_id, i2, j2, s, c) && comes_before(
                    i2,
                    j2,
                    ii,
                    jj + 1,
                ) implies exists|k: int| read_slot_at(reads@, k, s, c) by {
                if comes_before(i2, j2, ii, jj) {
                    let k = choose|k: int| read_slot_at(before, k, s, c);
                    assert(read_slot_at(reads@, k, s, c));
                } else {
                    assert(i2 == ii && j2 == jj);
                    assert(s == stream && c == consumer);
                    if added {
                        assert(read_slot_at(reads@, before.len() as int, s, c));
                    } else {
                        let k = choose|k: int| read_slot_at(before, k, s, c);
                        assert(read_slot_at(reads@, k, s, c));
                    }
                }
            }
        }
        j = j + 1;
    }
}

/// Adds the write endpoints of operator `i`, which runs on `node_id`.
fn add_writes(graph: &Graph, node_id: NodeId, i: usize, writes: &mut Vec<WriteEndpoint>)
    requires
        graph.wf(),
        i < graph@.operators.len(),
        graph@.operators[i as int].node_id == node_id,
        writes_built(graph@, node_id, old(writes)@, i as int, 0),
    ensures
        writes_built(
            graph@,
            node_id,
            final(writes)@,
            i as int,
            graph@.operators[i as int].outputs.len() as int,
        ),
{
    let operator = graph.operator(i);
    let mut j: usize = 0;
    while j < operator.write_stream_ids.len()
        invariant
            graph.wf(),
            i < graph@.operators.len(),
            operator@ == graph@.operators[i as int],
            operator.node_id == node_id,
            j <= operator.write_stream_ids@.len(),
            writes_built(graph@, node_id, writes@, i as int, j as int),
        decreases operator.write_stream_ids@.len() - j,
    {
        let stream = operator.write_stream_ids[j];
        let ghost before = writes@;
        let remote = graph.is_read_off(node_id, stream);
        writes.push(WriteEndpoint { stream, producer: Some(operator.id), remote });
        proof {
            let g = graph@;
            let (ii, jj) = (i as int, j as int);
            assert(g.produces(ii, jj, stream));
            assert(writes_at(g, node_id, ii, jj, stream));
            let d = choose|d: int| g.declares(d, stream, g.operators[ii].id);
            g.lemma_stream_index(d, stream);
            assert(writes@[before.len() as int] == write_endpoint(g, node_id, stream));
            assert forall|k: int| 0 <= k < before.len() implies same_endpoint(writes@, before, k) by {}
            assert forall|k: int, k2: int| 0 <= k < k2 < writes@.len() implies (
            #[trigger] writes@[k]).stream != (#[trigger] writes@[k2]).stream by {
                if k2 == before.len() {
                    assert(same_endpoint(writes@, before, k));
                    let e = before[k];
                    let (i2, j2) = choose|i2: int, j2: int|
                        writes_at(g, node_id, i2, j2, e.stream) && comes_before(i2, j2, ii, jj);
                    if e.stream == stream {
                        assert(g.produces(i2, j2, stream) && g.produces(ii, jj, stream));
                    }
                } else {
                    assert(same_endpoint(writes@, before, k));
                    assert(same_endpoint(writes@, before, k2));
                }
            }
            assert forall|k: int| 0 <= k < writes@.len() implies {
                let endpoint = #[trigger] writes@[k];
                &&& endpoint == write_endpoint(g, node_id, endpoint.stream)
                &&& exists|i2: int, j2: int|
                    writes_at(g, node_id, i2, j2, endpoint.stream) && comes_before(
                        i2,
                        j2,
                        ii,
                        jj + 1,
                    )
            } by {
                let e = writes@[k];
                if k < before.len() {
                    assert(same_endpoint(writes@, before, k));
                    let (i2, j2) = choose|i2: int, j2: int|
                        writes_at(g, node_id, i2, j2, e.stream) && comes_before(i2, j2, ii, jj);
                    assert(writes_at(g, node_id, i2, j2, e.stream) && comes_before(
                        i2,
                        j2,
                        ii,
                        jj + 1,
                    ));
                } else {
                    assert(writes_at(g, node_id, ii, jj, e.stream) && comes_before(
                        ii,
                        jj,
                        ii,
                        jj + 1,
                    ));
                }
            }
            assert forall|i2: int, j2: int, s: StreamId| #[trigger]
                writes_at(g, node_id, i2, j2, s) && comes_before(
                    i2,
                    j2,
                    ii,
                    jj + 1,
                ) implies exists|k: int| write_endpoint_at(writes@, k, s) by {
                if comes_before(i2, j2, ii, jj) {
                    let k = choose|k: int| write_endpoint_at(before, k, s);
                    assert(same_endpoint(writes@, before, k));
                    assert(write_endpoint_at(writes@, k, s));
                } else {
                    assert(write_endpoint_at(writes@, before.len() as int, s));
                }
            }
        }
        j = j + 1;
    }
}

/// On a node other than the driver's there is no ingest stream to add.
proof fn lemma_no_ingests(graph: GraphView, node: NodeId, writes: Seq<WriteEndpoint>)
    requires
        node != GraphView::driver_node(),
        ingests_built(graph, node, writes, 0),
    ensures
        ingests_built(graph, node, writes, graph.streams.len() as int),
{
    let n = graph.streams.len() as int;
    assert forall|k: int| 0 <= k < writes.len() implies {
        let endpoint = #[trigger] writes[k];
        &&& endpoint == write_endpoint(graph, node, endpoint.stream)
        &&& written_before(graph, node, endpoint.stream, n)
    } by {
        let e = writes[k];
        assert(written_before(graph, node, e.stream, 0));
        let (i2, j2) = choose|i2: int, j2: int| writes_at(graph, node, i2, j2, e.stream);
        assert(writes_at(graph, node, i2, j2, e.stream));
    }
}

/// Going on to the next operator: the endpoints built for all inputs and
/// outputs of operator `i`, or for none if it runs elsewhere, are those
/// built before operator `i + 1`.
proof fn lemma_next_operator(
    graph: GraphView,
    node: NodeId,
    capacity: usize,
    reads: Seq<ReadSlot>,
    writes: Seq<WriteEndpoint>,
    i: int,
)
    requires
        0 <= i < graph.operators.len(),
        graph.operators[i].node_id == node ==> reads_built(
            graph,
            node,
            capacity,
            reads,
            i,
            graph.operators[i].inputs.len() as int,
        ) && writes_built(graph, node, writes, i, graph.operators[i].outputs.len() as int),
        graph.operators[i].node_id != node ==> reads_built(graph, node, capacity, reads, i, 0)
            && writes_built(graph, node, writes, i, 0),
    ensures
        reads_built(graph, node, capacity, reads, i + 1, 0),
        writes_built(graph, node, writes, i + 1, 0),
{
    let here = graph.operators[i].node_id == node;
    let jr = if here { graph.operators[i].inputs.len() as int } else { 0 };
    let jw = if here { graph.operators[i].outputs.len() as int } else { 0 };
    assert forall|k: int| 0 <= k < reads.len() implies {
        let slot = #[trigger] reads[k];
        exists|i2: int, j2: int|
            reads_at(graph, node, i2, j2, slot.endpoint.stream, slot.endpoint.consumer)
                && comes_before(i2, j2, i + 1, 0)
    } by {
        let slot = reads[k];
        let (i2, j2) = choose|i2: int, j2: int|
            reads_at(graph, node, i2, j2, slot.endpoint.stream, slot.endpoint.consumer)
                && comes_before(i2, j2, i, jr);
        assert(reads_at(graph, node, i2, j2, slot.endpoint.stream, slot.endpoint.consumer)
            && comes_before(i2, j2, i + 1, 0));
    }
    assert forall|i2: int, j2: int, s: StreamId, c: OperatorId| #[trigger]
        reads_at(graph, node, i2, j2, s, c) && comes_before(i2, j2, i + 1, 0) implies exists|
        k: int,
    |
        read_slot_at(reads, k, s, c) by {
        assert(comes_before(i2, j2, i, jr));
    }
    assert forall|k: int| 0 <= k < writes.len() implies {
        let endpoint = #[trigger] writes[k];
        exists|i2: int, j2: int|
            writes_at(graph, node, i2, j2, endpoint.stream) && comes_before(i2, j2, i + 1, 0)
    } by {
        let e = writes[k];
        let (i2, j2) = choose|i2: int, j2: int|
            writes_at(graph, node, i2, j2, e.stream) && comes_before(i2, j2, i, jw);
        assert(writes_at(graph, node, i2, j2, e.stream) && comes_before(i2, j2, i + 1, 0));
    }
    assert forall|i2: int, j2: int, s: StreamId| #[trigger]
        writes_at(graph, node, i2, j2, s) && comes_before(i2, j2, i + 1, 0) implies exists|k: int|
        write_endpoint_at(writes, k, s) by {
        assert(comes_before(i2, j2, i, jw));
    }
}

/// Endpoint `k` is the same in `after` as in `before`.
spec fn same_endpoint(after: Seq<WriteEndpoint>, before: Seq<WriteEndpoint>, k: int) -> bool {
    after[k] == before[k]
}

/// Adds the read endpoints of the driver, if `node_id` is the driver's
/// node.
fn add_extracts(graph: &Graph, node_id: NodeId, capacity: usize, reads: &mut Vec<ReadSlot>)
    requires
        graph.wf(),
        reads_built(graph@, node_id, capacity, old(reads)@, graph@.operators.len() as int, 0),
    ensures
        extracts_built(graph@, node_id, capacity, final(reads)@, graph@.extracts.len() as int),
{
    proof {
        let g = graph@;
        let ops = g.operators.len() as int;
        assert forall|k: int| 0 <= k < reads@.len() implies read_before(
            g,
            node_id,
            (#[trigger] reads@[k]).endpoint.stream,
            reads@[k].endpoint.consumer,
            0,
        ) by {
            let slot = reads@[k];
            let (i2, j2) = choose|i2: int, j2: int|
                reads_at(g, node_id, i2, j2, slot.endpoint.stream, slot.endpoint.consumer)
                    && comes_before(i2, j2, ops, 0);
            assert(reads_at(g, node_id, i2, j2, slot.endpoint.stream, slot.endpoint.consumer));
        }
        assert forall|i2: int, j2: int, stream: StreamId, consumer: OperatorId| #[trigger]
            reads_at(g, node_id, i2, j2, stream, consumer) implies exists|k: int|
            read_slot_at(reads@, k, stream, consumer) by {
            assert(comes_before(i2, j2, ops, 0));
        }
        assert(extracts_built(g, node_id, capacity, reads@, 0));
    }
    if node_id != 0 {
        proof {
            lemma_no_extracts(graph@, node_id, capacity, reads@);
        }
        return ;
    }
    let mut n: usize = 0;
    while n < graph.num_extracts()
        invariant
            graph.wf(),
            node_id == 0,
            n <= graph@.extracts.len(),
            extracts_built(graph@, node_id, capacity, reads@, n as int),
        decreases graph@.extracts.len() - n,
    {
        let extract = graph.extract(n);
        let ghost before = reads@;
        let mut added = false;
        if let Some(from) = graph.feeding_node(extract.stream) {
            let transport = if from == node_id {
                Transport::Local
            } else {
                Transport::Remote(from)
            };
            let source = graph.resolve(extract.stream);
            reads.push(
                ReadSlot {
                    endpoint: ReadEndpoint {
                        stream: extract.stream,
                        source,
                        consumer: extract.id,
                        transport,
                        capacity,
                    },
                    taken: false,
                },
            );
            added = true;
        }
        proof {
            let g = graph@;
            let nn = n as int;
            let stream = extract.stream;
            let consumer = extract.id;
            assert(g.extract_at(nn, consumer));
            assert forall|k: int| 0 <= k < before.len() implies reads@[k] == before[k] by {}
            if added {
                assert(extracts_at(g, node_id, nn, stream, consumer));
                assert forall|k: int, k2: int| 0 <= k < k2 < reads@.len() implies !((
                #[trigger] reads@[k]).endpoint.stream == (#[trigger] reads@[k2]).endpoint.stream
                    && reads@[k].endpoint.consumer == reads@[k2].endpoint.consumer) by {
                    if k2 == before.len() {
                        let slot = before[k];
                        if slot.endpoint.consumer == consumer && slot.endpoint.stream == stream {
                            assert(read_before(g, node_id, stream, consumer, nn));
                            if exists|i2: int, j2: int|
                                reads_at(g, node_id, i2, j2, stream, consumer) {
                                let (i2, j2) = choose|i2: int, j2: int|
                                    reads_at(g, node_id, i2, j2, stream, consumer);
                                assert(g.operators[i2].id != g.extracts[nn].id);
                            } else {
                                let e = choose|e: int|
                                    extracts_at(g, node_id, e, stream, consumer) && e < nn;
                                assert(g.extracts[e].id != g.extracts[nn].id);
                            }
                        }
                    }
                }
            } else {
                assert(reads@ == before);
            }
            assert forall|k: int| 0 <= k < reads@.len() implies {
                let slot = #[trigger] reads@[k];
                &&& !slot.taken
                &&& slot.endpoint == read_endpoint(
                    g,
                    node_id,
                    capacity,
                    slot.endpoint.stream,
                    slot.endpoint.consumer,
                )
                &&& read_before(g, node_id, slot.endpoint.stream, slot.endpoint.consumer, nn + 1)
            } by {
                let slot = reads@[k];
                if k < before.len() {
                    assert(read_before(
                        g,
                        node_id,
                        slot.endpoint.stream,
                        slot.endpoint.consumer,
                        nn,
                    ));
                    if !exists|i2: int, j2: int|
                        reads_at(g, node_id, i2, j2, slot.endpoint.stream, slot.endpoint.consumer) {
                        let e = choose|e: int|
                            extracts_at(
                                g,
                                node_id,
                                e,
                                slot.endpoint.stream,
                                slot.endpoint.consumer,
                            ) && e < nn;
                        assert(extracts_at(
                            g,
                            node_id,
                            e,
                            slot.endpoint.stream,
                            slot.endpoint.consumer,
                        ) && e < nn + 1);
                    }
                } else {
                    assert(extracts_at(g, node_id, nn, stream, consumer) && nn < nn + 1);
                }
            }
            assert forall|i2: int, j2: int, s: StreamId, c: OperatorId| #[trigger]
                reads_at(g, node_id, i2, j2, s, c) implies exists|k: int|
                read_slot_at(reads@, k, s, c) by {
                let k = choose|k: int| read_slot_at(before, k, s, c);
                assert(read_slot_at(reads@, k, s, c));
            }
            assert forall|e: int, s: StreamId, c: OperatorId| #[trigger]
                extracts_at(g, node_id, e, s, c) && e < nn + 1 implies exists|k: int|
                read_slot_at(reads@, k, s, c) by {
                if e < nn {
                    let k = choose|k: int| read_slot_at(before, k, s, c);
                    assert(read_slot_at(reads@, k, s, c));
                } else {
                    assert(read_slot_at(reads@, before.len() as int, s, c));
                }
            }
        }
        n = n + 1;
    }
}

/// On a node other than the driver's there is no read endpoint of the
/// driver to add.
proof fn lemma_no_extracts(graph: GraphView, node: NodeId, capacity: usize, reads: Seq<ReadSlot>)
    requires
        node != GraphView::driver_node(),
        extracts_built(graph, node, capacity, reads, 0),
    ensures
        extracts_built(graph, node, capacity, reads, graph.extracts.len() as int),
{
    let n = graph.extracts.len() as int;
    assert forall|k: int| 0 <= k < reads.len() implies read_before(
        graph,
        node,
        (#[trigger] reads[k]).endpoint.stream,
        reads[k].endpoint.consumer,
        n,
    ) by {
        let slot = reads[k];
        assert(read_before(graph, node, slot.endpoint.stream, slot.endpoint.consumer, 0));
        let (i2, j2) = choose|i2: int, j2: int|
            reads_at(graph, node, i2, j2, slot.endpoint.stream, slot.endpoint.consumer);
        assert(reads_at(graph, node, i2, j2, slot.endpoint.stream, slot.endpoint.consumer));
    }
}

/// Adds the write endpoints of the ingest streams, if `node_id` is the
/// driver's node.
fn add_ingests(graph: &Graph, node_id: NodeId, writes: &mut Vec<WriteEndpoint>)
    requires
        graph.wf(),
        writes_built(graph@, node_id, old(writes)@, graph@.operators.len() as int, 0),
    ensures
        ingests_built(graph@, node_id, final(writes)@, graph@.streams.len() as int),
{
    proof {
        let g = graph@;
        assert forall|k: int| 0 <= k < writes@.len() implies {
            let endpoint = #[trigger] writes@[k];
            &&& endpoint == write_endpoint(g, node_id, endpoint.stream)
            &&& written_before(g, node_id, endpoint.stream, 0)
        } by {
            let e = writes@[k];
            let (i2, j2) = choose|i2: int, j2: int|
                writes_at(g, node_id, i2, j2, e.stream) && comes_before(
                    i2,
                    j2,
                    g.operators.len() as int,
                    0,
                );
            assert(writes_at(g, node_id, i2, j2, e.stream));
        }
        assert(ingests_built(g, node_id, writes@, 0));
        assert forall|i2: int, j2: int, s: StreamId| #[trigger]
            writes_at(g, node_id, i2, j2, s) implies exists|k: int|
            write_endpoint_at(writes@, k, s) by {
            assert(comes_before(i2, j2, g.operators.len() as int, 0));
        }
    }
    if node_id != 0 {
        proof {
            lemma_no_ingests(graph@, node_id, writes@);
        }
        return ;
    }
    let mut n: usize = 0;
    while n < graph.num_streams()
        invariant
            graph.wf(),
            node_id == 0,
            n <= graph@.streams.len(),
            ingests_built(graph@, node_id, writes@, n as int),
        decreases graph@.streams.len() - n,
    {
        let descriptor = graph.stream(n);
        let ghost before = writes@;
        let mut added = false;
        if let StreamSource::Ingest = descriptor.source {
            let remote = graph.is_read_off(node_id, descriptor.id);
            writes.push(WriteEndpoint { stream: descriptor.id, producer: None, remote });
            added = true;
        }
        proof {
            let g = graph@;
            let nn = n as int;
            let stream = descriptor.id;
            assert(g.stream_at(nn, stream));
            g.lemma_stream_index(nn, stream);
            assert forall|k: int| 0 <= k < before.len() implies same_endpoint(writes@, before, k) by {}
            if added {
                assert(ingests_at(g, node_id, nn, stream));
                assert(writes@[before.len() as int] == write_endpoint(g, node_id, stream));
                assert forall|k: int, k2: int| 0 <= k < k2 < writes@.len() implies (
                #[trigger] writes@[k]).stream != (#[trigger] writes@[k2]).stream by {
                    assert(same_endpoint(writes@, before, k));
                    if k2 == before.len() {
                        let e = before[k];
                        if e.stream == stream {
                            assert(written_before(g, node_id, stream, nn));
                            if exists|i2: int, j2: int| writes_at(g, node_id, i2, j2, stream) {
                                let (i2, j2) = choose|i2: int, j2: int|
                                    writes_at(g, node_id, i2, j2, stream);
                                assert(g.produces(i2, j2, stream));
                                let d = choose|d: int| g.declares(d, stream, g.operators[i2].id);
                                assert(g.stream_at(d, stream));
                            } else {
                                let k3 = choose|k3: int|
                                    ingests_at(g, node_id, k3, stream) && k3 < nn;
                                assert(g.stream_at(k3, stream));
                            }
                        }
                    } else {
                        assert(same_endpoint(writes@, before, k2));
                    }
                }
            } else {
                assert(writes@ == before);
            }
            assert forall|k: int| 0 <= k < writes@.len() implies {
                let endpoint = #[trigger] writes@[k];
                &&& endpoint == write_endpoint(g, node_id, endpoint.stream)
                &&& written_before(g, node_id, endpoint.stream, nn + 1)
            } by {
                let e = writes@[k];
                if k < before.len() {
                    assert(same_endpoint(writes@, before, k));
                    assert(written_before(g, node_id, e.stream, nn));
                    if !exists|i2: int, j2: int| writes_at(g, node_id, i2, j2, e.stream) {
                        let k3 = choose|k3: int| ingests_at(g, node_id, k3, e.stream) && k3 < nn;
                        assert(ingests_at(g, node_id, k3, e.stream) && k3 < nn + 1);
                    }
                } else {
                    assert(ingests_at(g, node_id, nn, e.stream) && nn < nn + 1);
                }
            }
            assert forall|i2: int, j2: int, s: StreamId| #[trigger]
                writes_at(g, node_id, i2, j2, s) implies exists|k: int|
                write_endpoint_at(writes@, k, s) by {
                let k = choose|k: int| write_endpoint_at(before, k, s);
                assert(same_endpoint(writes@, before, k));
                assert(write_endpoint_at(writes@, k, s));
            }
            assert forall|k2: int, s: StreamId| #[trigger]
                ingests_at(g, node_id, k2, s) && k2 < nn + 1 implies exists|k: int|
                write_endpoint_at(writes@, k, s) by {
                if k2 < nn {
                    let k = choose|k: int| write_endpoint_at(before, k, s);
                    assert(same_endpoint(writes@, before, k));
                    assert(write_endpoint_at(writes@, k, s));
                } else {
                    assert(write_endpoint_at(writes@, before.len() as int, s));
                }
            }
        }
        n = n + 1;
    }
}

impl ChannelManager {
    /// What every channel manager that this module hands out satisfies.
    pub open spec fn wf(&self) -> bool {
        self@.wf()
    }

    pub fn node_id(&self) -> (node_id: NodeId)
        ensures
            node_id == self@.node_id,
    {
        self.node_id
    }

    /// The endpoints of the node `node_id` for `graph`, none handed out. A
    /// read endpoint holds up to `capacity` messages.
    ///
    /// The node gets a read endpoint for each of its operators on each
    /// stream that the operator reads, if the stream is fed, and a write
    /// endpoint for each stream that one of its operators writes. The
    /// driver's node also gets a write endpoint for each ingest stream and
    /// a read endpoint for each place at which the driver reads a stream
    /// that is fed.
    pub fn new(graph: &Graph, node_id: NodeId, capacity: usize) -> (manager: Self)
        requires
            graph.wf(),
        ensures
            manager.wf(),
            manager@.node_id == node_id,
            manager@.capacity == capacity,
            forall|stream: StreamId, consumer: OperatorId|
                manager@.has_read(stream, consumer) <==> reads_here(
                    graph@,
                    node_id,
                    stream,
                    consumer,
                ),
            forall|k: int|
                0 <= k < manager@.reads.len() ==> {
                    let slot = #[trigger] manager@.reads[k];
                    &&& !slot.taken
                    &&& slot.endpoint == read_endpoint(
                        graph@,
                        node_id,
                        capacity,
                        slot.endpoint.stream,
                        slot.endpoint.consumer,
                    )
                },
            forall|stream: StreamId|
                manager@.has_write(stream) <==> writes_here(graph@, node_id, stream),
            forall|k: int|
                0 <= k < manager@.writes.len() ==> (#[trigger] manager@.writes[k])
                    == write_endpoint(graph@, node_id, manager@.writes[k].stream),
    {
        let mut reads: Vec<ReadSlot> = Vec::new();
        let mut writes: Vec<WriteEndpoint> = Vec::new();
        let mut i: usize = 0;
        while i < graph.num_operators()
            invariant
                graph.wf(),
                i <= graph@.operators.len(),
                reads_built(graph@, node_id, capacity, reads@, i as int, 0),
                writes_built(graph@, node_id, writes@, i as int, 0),
            decreases graph@.operators.len() - i,
        {
            let operator = graph.operator(i);
            if operator.node_id == node_id {
                add_reads(graph, node_id, capacity, i, &mut reads);
                add_writes(graph, node_id, i, &mut writes);
            }
            proof {
                lemma_next_operator(graph@, node_id, capacity, reads@, writes@, i as int);
            }
            i = i + 1;
        }
        add_ingests(graph, node_id, &mut writes);
        add_extracts(graph, node_id, capacity, &mut reads);
        let manager = ChannelManager { node_id, capacity, reads, writes };
        proof {
            let view = manager@;
            assert forall|stream: StreamId, consumer: OperatorId|
                view.has_read(stream, consumer) <==> reads_here(
                    graph@,
                    node_id,
                    stream,
                    consumer,
                ) by {
                let places = graph@.extracts.len() as int;
                if view.has_read(stream, consumer) {
                    let k = choose|k: int| read_slot_at(view.reads, k, stream, consumer);
                    assert(read_before(graph@, node_id, stream, consumer, places));
                    if !exists|i2: int, j2: int|
                        reads_at(graph@, node_id, i2, j2, stream, consumer) {
                        let e = choose|e: int|
                            extracts_at(graph@, node_id, e, stream, consumer) && e < places;
                        assert(extracts_at(graph@, node_id, e, stream, consumer));
                    }
                }
                if reads_here(graph@, node_id, stream, consumer) {
                    if exists|i2: int, j2: int|
                        reads_at(graph@, node_id, i2, j2, stream, consumer) {
                        let (i2, j2) = choose|i2: int, j2: int|
                            reads_at(graph@, node_id, i2, j2, stream, consumer);
                        assert(reads_at(graph@, node_id, i2, j2, stream, consumer));
                    } else {
                        let e = choose|e: int| extracts_at(graph@, node_id, e, stream, consumer);
                        assert(extracts_at(graph@, node_id, e, stream, consumer) && e < places);
                    }
                }
            }
            assert forall|stream: StreamId|
                view.has_write(stream) <==> writes_here(graph@, node_id, stream) by {
                if view.has_write(stream) {
                    let k = choose|k: int| write_endpoint_at(view.writes, k, stream);
                    assert(written_before(
                        graph@,
                        node_id,
                        view.writes[k].stream,
                        graph@.streams.len() as int,
                    ));
                    if !exists|i2: int, j2: int| writes_at(graph@, node_id, i2, j2, stream) {
                        let k3 = choose|k3: int|
                            ingests_at(graph@, node_id, k3, stream) && k3 < graph@.streams.len();
                        assert(ingests_at(graph@, node_id, k3, stream));
                    }
                }
                if writes_here(graph@, node_id, stream) {
                    if exists|i2: int, j2: int| writes_at(graph@, node_id, i2, j2, stream) {
                        let (i2, j2) = choose|i2: int, j2: int|
                            writes_at(graph@, node_id, i2, j2, stream);
                        assert(writes_at(graph@, node_id, i2, j2, stream));
                    } else {
                        let k2 = choose|k2: int| ingests_at(graph@, node_id, k2, stream);
                        assert(ingests_at(graph@, node_id, k2, stream));
                    }
                }
            }
        }
        manager
    }

    /// Returns the read endpoint for `consumer` on `stream` and removes it
    /// for good: the same endpoint cannot be taken again.
    pub fn take_read_stream(&mut self, stream: StreamId, consumer: OperatorId) -> (result: Result<
        ReadEndpoint,
        ResolutionError,
    >)
        requires
            old(self).wf(),
        ensures
            final(self).wf(),
            result == old(self)@.take_result(stream, consumer),
            final(self)@ == if result is Ok {
                old(self)@.after_take(stream, consumer)
            } else {
                old(self)@
            },
            result is Ok <==> old(self)@.is_available(stream, consumer),
            result is Ok ==> final(self)@.is_taken(stream, consumer),
            !final(self)@.is_available(stream, consumer),
    {
        match find_read(&self.reads, stream, consumer) {
            Some(k) => {
                proof {
                    lemma_read_slot(self@, k as int, stream, consumer);
                }
                let slot = self.reads[k];
                if slot.taken {
                    Err(ResolutionError::AlreadyTaken { stream, consumer })
                } else {
                    self.reads.set(k, ReadSlot { endpoint: slot.endpoint, taken: true });
                    proof {
                        assert(self.reads@ =~= old(self).reads@.map_values(
                            mark_taken(stream, consumer),
                        ));
                        lemma_take_once(old(self)@, stream, consumer);
                        assert(read_slot_at(self.reads@, k as int, stream, consumer));
                    }
                    Ok(slot.endpoint)
                }
            },
            None => Err(ResolutionError::StreamNotFound { stream }),
        }
    }

    /// The read endpoints of the node that the stream `source` feeds, handed
    /// out or not: those of its readers on this node, each once. A reader
    /// of a loop stream is fed by the stream that the loop stream is bound
    /// to.
    pub fn readers_of(&self, source: StreamId) -> (readers: Vec<ReadEndpoint>)
        ensures
            readers@ == fed_by(self@.reads, source),
    {
        let mut readers: Vec<ReadEndpoint> = Vec::new();
        let mut k: usize = 0;
        proof {
            assert(self.reads@.take(0) =~= Seq::<ReadSlot>::empty());
        }
        while k < self.reads.len()
            invariant
                k <= self.reads@.len(),
                readers@ == fed_by(self.reads@.take(k as int), source),
            decreases self.reads@.len() - k,
        {
            proof {
                assert(self.reads@.take(k + 1).drop_last() =~= self.reads@.take(k as int));
                assert(self.reads@.take(k + 1).last() == self.reads@[k as int]);
            }
            if self.reads[k].endpoint.source == source {
                readers.push(self.reads[k].endpoint);
            }
            k = k + 1;
        }
        proof {
            assert(self.reads@.take(self.reads@.len() as int) =~= self.reads@);
        }
        readers
    }

    /// Returns the write endpoint of `stream`. It stays with the channel
    /// manager and can be asked for again.
    pub fn get_write_stream(&self, stream: StreamId) -> (result: Result<
        WriteEndpoint,
        ResolutionError,
    >)
        requires
            self.wf(),
        ensures
            result == self@.write_result(stream),
            result is Ok <==> self@.has_write(stream),
    {
        match find_write(&self.writes, stream) {
            Some(k) => {
                proof {
                    let chosen = choose|k2: int| write_endpoint_at(self.writes@, k2, stream);
                    if chosen < k {
                        assert(self.writes@[chosen].stream != self.writes@[k as int].stream);
                    } else if k < chosen {
                        assert(self.writes@[k as int].stream != self.writes@[chosen].stream);
                    }
                }
                Ok(self.writes[k])
            },
            None => Err(ResolutionError::StreamNotFound { stream }),
        }
    }
}

/// In a well-formed channel manager the endpoint of a consumer on a stream
/// stands in one slot only.
pub proof fn lemma_read_slot(
    manager: ChannelManagerView,
    k: int,
    stream: StreamId,
    consumer: OperatorId,
)
    requires
        manager.wf(),
        read_slot_at(manager.reads, k, stream, consumer),
    ensures
        forall|k2: int| read_slot_at(manager.reads, k2, stream, consumer) ==> k2 == k,
        manager.has_read(stream, consumer),
        manager.is_available(stream, consumer) == !manager.reads[k].taken,
        manager.is_taken(stream, consumer) == manager.reads[k].taken,
        (choose|k2: int| read_slot_at(manager.reads, k2, stream, consumer)) == k,
{
    assert forall|k2: int| read_slot_at(manager.reads, k2, stream, consumer) implies k2 == k by {
        if k2 < k {
            assert(!(manager.reads[k2].endpoint.stream == manager.reads[k].endpoint.stream
                && manager.reads[k2].endpoint.consumer == manager.reads[k].endpoint.consumer));
        } else if k < k2 {
            assert(!(manager.reads[k].endpoint.stream == manager.reads[k2].endpoint.stream
                && manager.reads[k].endpoint.consumer == manager.reads[k2].endpoint.consumer));
        }
    }
}

/// A read endpoint is taken once: after the call that returns it, the same
/// call fails, since the endpoint was handed out.
pub proof fn lemma_take_once(manager: ChannelManagerView, stream: StreamId, consumer: OperatorId)
    requires
        manager.wf(),
        manager.take_result(stream, consumer) is Ok,
    ensures
        manager.after_take(stream, consumer).wf(),
        manager.after_take(stream, consumer).is_taken(stream, consumer),
        !manager.after_take(stream, consumer).is_available(stream, consumer),
        manager.after_take(stream, consumer).take_result(stream, consumer) == Err::<
            ReadEndpoint,
            ResolutionError,
        >(ResolutionError::AlreadyTaken { stream, consumer }),
{
    let after = manager.after_take(stream, consumer);
    let k = choose|k: int| read_slot_at(manager.reads, k, stream, consumer);
    assert(read_slot_at(after.reads, k, stream, consumer));
    assert(after.reads[k].taken);
    assert forall|k2: int| 0 <= k2 < after.reads.len() implies (#[trigger] after.reads[k2]).endpoint
        == manager.reads[k2].endpoint by {}
    assert(after.wf());
    lemma_read_slot(after, k, stream, consumer);
}

/// An endpoint that was handed out stays handed out, whatever is taken
/// afterwards.
pub proof fn lemma_taken_for_good(
    manager: ChannelManagerView,
    stream: StreamId,
    consumer: OperatorId,
    other_stream: StreamId,
    other_consumer: OperatorId,
)
    requires
        manager.wf(),
        manager.is_taken(stream, consumer),
    ensures
        manager.after_take(other_stream, other_consumer).wf(),
        manager.after_take(other_stream, other_consumer).is_taken(stream, consumer),
        !manager.after_take(other_stream, other_consumer).is_available(stream, consumer),
        manager.after_take(other_stream, other_consumer).take_result(stream, consumer) is Err,
{
    let after = manager.after_take(other_stream, other_consumer);
    let k = choose|k: int| read_slot_at(manager.reads, k, stream, consumer) && manager.reads[k].taken;
    assert(read_slot_at(after.reads, k, stream, consumer));
    assert(after.reads[k].taken);
    assert forall|k2: int| 0 <= k2 < after.reads.len() implies (#[trigger] after.reads[k2]).endpoint
        == manager.reads[k2].endpoint by {}
    assert(after.wf());
    lemma_read_slot(after, k, stream, consumer);
}

/// Taking a read endpoint changes no write endpoint.
pub proof fn lemma_writes_stay(manager: ChannelManagerView, stream: StreamId, consumer: OperatorId)
    ensures
        manager.after_take(stream, consumer).writes == manager.writes,
        forall|other: StreamId| #[trigger]
            manager.after_take(stream, consumer).write_result(other) == manager.write_result(
                other,
            ),
        forall|other: StreamId| #[trigger]
            manager.after_take(stream, consumer).has_write(other) == manager.has_write(other),
{
    let after = manager.after_take(stream, consumer);
    assert forall|other: StreamId| #[trigger]
        after.write_result(other) == manager.write_result(other) by {
        assert(after.has_write(other) == manager.has_write(other));
    }
}

/// The readers that a stream feeds are the read endpoints that name it as
/// their source: each of them is among the readers, and nothing else is.
pub proof fn lemma_fed_by(reads: Seq<ReadSlot>, source: StreamId)
    ensures
        forall|k: int|
            0 <= k < reads.len() && (#[trigger] reads[k]).endpoint.source == source ==> fed_by(
                reads,
                source,
            ).contains(reads[k].endpoint),
        forall|r: int|
            0 <= r < fed_by(reads, source).len() ==> {
                let endpoint = #[trigger] fed_by(reads, source)[r];
                endpoint.source == source && exists|k: int|
                    0 <= k < reads.len() && reads[k].endpoint == endpoint
            },
    decreases reads.len(),
{
    if reads.len() > 0 {
        let rest = reads.drop_last();
        lemma_fed_by(rest, source);
        let all = fed_by(reads, source);
        let before = fed_by(rest, source);
        assert forall|k: int|
            0 <= k < reads.len() && (#[trigger] reads[k]).endpoint.source == source implies all.contains(
            reads[k].endpoint,
        ) by {
            if k < rest.len() {
                assert(rest[k] == reads[k]);
                let r = choose|r: int| 0 <= r < before.len() && before[r] == rest[k].endpoint;
                assert(all[r] == reads[k].endpoint);
            } else {
                assert(all[all.len() - 1] == reads[k].endpoint);
            }
        }
        assert forall|r: int| 0 <= r < all.len() implies {
            let endpoint = #[trigger] all[r];
            endpoint.source == source && exists|k: int|
                0 <= k < reads.len() && reads[k].endpoint == endpoint
        } by {
            if r < before.len() {
                assert(all[r] == before[r]);
                let k = choose|k: int| 0 <= k < rest.len() && rest[k].endpoint == before[r];
                assert(reads[k].endpoint == all[r]);
            } else {
                assert(reads[reads.len() - 1].endpoint == all[r]);
            }
        }
    }
}

} // verus!
