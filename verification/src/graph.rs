//! The dataflow graph under construction.
//!
//! The driver owns a [`Graph`] and hands it to every connect call. The graph
//! records operators and streams and issues their identities; it never runs
//! anything. [`Graph::validate`] checks that every stream that is read is
//! also fed, which a graph must be for the nodes to execute it.
use crate::config::{clone_text, text_of, OperatorConfig, OperatorConfigView};
use crate::ids::{uuid_text, IdGenerator, NodeId, OperatorId, StreamId, Uuid};
use std::collections::HashMap;
use vstd::prelude::*;
use vstd::string::StringExecFns;

verus! {

/// The shapes an operator can have.
#[derive(Clone, Copy, Debug, PartialEq, Eq, Structural)]
pub enum Topology {
    Source,
    Sink,
    ParallelSink,
    OneInOneOut,
    ParallelOneInOneOut,
    TwoInOneOut,
    OneInTwoOut,
}

impl Topology {
    /// The number of streams that an operator of this shape reads.
    pub open spec fn inputs(self) -> nat {
        match self {
            Topology::Source => 0,
            Topology::TwoInOneOut => 2,
            _ => 1,
        }
    }

    /// The number of streams that an operator of this shape writes.
    pub open spec fn outputs(self) -> nat {
        match self {
            Topology::Sink | Topology::ParallelSink => 0,
            Topology::OneInTwoOut => 2,
            _ => 1,
        }
    }

    /// Whether the operator's workers merge partial results into its state.
    pub open spec fn merges_state(self) -> bool {
        self == Topology::ParallelSink || self == Topology::ParallelOneInOneOut
    }

    pub fn num_inputs(&self) -> (n: usize)
        ensures
            n == self.inputs(),
    {
        match self {
            Topology::Source => 0,
            Topology::TwoInOneOut => 2,
            _ => 1,
        }
    }

    pub fn num_outputs(&self) -> (n: usize)
        ensures
            n == self.outputs(),
    {
        match self {
            Topology::Sink | Topology::ParallelSink => 0,
            Topology::OneInTwoOut => 2,
            _ => 1,
        }
    }

    pub fn has_appendable_state(&self) -> (b: bool)
        ensures
            b == self.merges_state(),
    {
        match self {
            Topology::ParallelSink | Topology::ParallelOneInOneOut => true,
            _ => false,
        }
    }
}

/// Who feeds a stream.
#[derive(Clone, Copy, Debug, PartialEq, Eq)]
pub enum StreamSource {
    /// The operator with this identity writes the stream.
    Operator(OperatorId),
    /// The driver writes the stream.
    Ingest,
    /// A placeholder that closes a cycle: it stands for the stream it is
    /// bound to, once it is bound.
    Loop(Option<StreamId>),
}

/// A stream that the graph holds.
#[derive(Clone, Copy, Debug, PartialEq, Eq)]
pub struct StreamDescriptor {
    pub id: StreamId,
    pub source: StreamSource,
}

/// A place at which the driver reads a stream.
#[derive(Clone, Copy, Debug, PartialEq, Eq)]
pub struct ExtractDescriptor {
    /// The identity under which the driver reads.
    pub id: Uuid,
    /// The stream that it reads.
    pub stream: StreamId,
}

/// An operator that the graph holds.
pub struct OperatorDescriptor {
    pub id: OperatorId,
    pub name: Option<String>,
    pub node_id: NodeId,
    pub topology: Topology,
    pub read_stream_ids: Vec<StreamId>,
    pub write_stream_ids: Vec<StreamId>,
    pub num_workers: Option<usize>,
}

/// The mathematical value of an [`OperatorDescriptor`].
pub struct OperatorView {
    pub id: OperatorId,
    pub name: Option<Seq<char>>,
    pub node_id: NodeId,
    pub topology: Topology,
    pub inputs: Seq<StreamId>,
    pub outputs: Seq<StreamId>,
    pub num_workers: Option<usize>,
}

impl View for OperatorDescriptor {
    type V = OperatorView;

    open spec fn view(&self) -> OperatorView {
        OperatorView {
            id: self.id,
            name: text_of(self.name),
            node_id: self.node_id,
            topology: self.topology,
            inputs: self.read_stream_ids@,
            outputs: self.write_stream_ids@,
            num_workers: self.num_workers,
        }
    }
}

impl OperatorView {
    /// The operator reads and writes as many streams as its shape says.
    pub open spec fn arity_ok(self) -> bool {
        self.inputs.len() == self.topology.inputs() && self.outputs.len()
            == self.topology.outputs()
    }
}

/// Why a graph cannot be built or executed.
#[derive(Clone, Copy, Debug, PartialEq, Eq)]
pub enum GraphConstructionError {
    /// An operator, or the driver where `consumer` is the identity under
    /// which it reads, reads a stream that the graph does not hold.
    UnknownStream { consumer: Uuid, stream: StreamId },
    /// A loop stream was never bound.
    UnboundLoop { stream: StreamId },
    /// The stream to bind is not a loop stream of the graph.
    NotALoop { stream: StreamId },
    /// The loop stream is bound already.
    AlreadyBound { stream: StreamId },
    /// The stream to bind a loop to is not written by an operator of the graph.
    NotAnOperatorStream { stream: StreamId },
}

/// Describes a stream as one that the operator `operator` writes.
pub open spec fn declared_by(operator: OperatorId) -> spec_fn(StreamId) -> StreamDescriptor {
    |stream: StreamId| StreamDescriptor { id: stream, source: StreamSource::Operator(operator) }
}

/// The mathematical value of a [`Graph`].
pub struct GraphView {
    /// How many identities the graph has issued.
    pub issued: nat,
    /// The operators, in the order in which they were connected.
    pub operators: Seq<OperatorView>,
    /// The streams, in the order in which they were added.
    pub streams: Seq<StreamDescriptor>,
    /// The places at which the driver reads, in the order in which they
    /// were added.
    pub extracts: Seq<ExtractDescriptor>,
    /// The names that the driver gave to streams.
    pub names: Map<StreamId, Seq<char>>,
}

impl GraphView {
    pub open spec fn empty() -> GraphView {
        GraphView {
            issued: 0,
            operators: Seq::empty(),
            streams: Seq::empty(),
            extracts: Seq::empty(),
            names: Map::empty(),
        }
    }

    /// Whether `id` is yet to be issued.
    pub open spec fn is_fresh(self, id: Uuid) -> bool {
        id.value >= self.issued
    }

    /// Stream `k` of the graph has identity `id`.
    pub open spec fn stream_at(self, k: int, id: StreamId) -> bool {
        0 <= k < self.streams.len() && self.streams[k].id == id
    }

    /// The graph holds a stream with identity `id`.
    pub open spec fn has_stream(self, id: StreamId) -> bool {
        exists|k: int| self.stream_at(k, id)
    }

    /// Operator `i` of the graph has identity `id`.
    pub open spec fn operator_at(self, i: int, id: OperatorId) -> bool {
        0 <= i < self.operators.len() && self.operators[i].id == id
    }

    /// The graph holds an operator with identity `id`.
    pub open spec fn has_operator(self, id: OperatorId) -> bool {
        exists|i: int| self.operator_at(i, id)
    }

    /// The driver reads at place `e` under the identity `id`.
    pub open spec fn extract_at(self, e: int, id: Uuid) -> bool {
        0 <= e < self.extracts.len() && self.extracts[e].id == id
    }

    /// The driver reads somewhere under the identity `id`.
    pub open spec fn has_extract(self, id: Uuid) -> bool {
        exists|e: int| self.extract_at(e, id)
    }

    /// Output `j` of operator `i` is the stream `id`.
    pub open spec fn produces(self, i: int, j: int, id: StreamId) -> bool {
        0 <= i < self.operators.len() && 0 <= j < self.operators[i].outputs.len()
            && self.operators[i].outputs[j] == id
    }

    /// Input `j` of operator `i` is the stream `id`.
    pub open spec fn consumes(self, i: int, j: int, id: StreamId) -> bool {
        0 <= i < self.operators.len() && 0 <= j < self.operators[i].inputs.len()
            && self.operators[i].inputs[j] == id
    }

    /// Exactly one output of one operator is the stream `id`.
    pub open spec fn has_unique_producer(self, id: StreamId) -> bool {
        exists|i: int, j: int|
            {
                &&& #[trigger] self.produces(i, j, id)
                &&& forall|i2: int, j2: int| #[trigger]
                    self.produces(i2, j2, id) ==> i2 == i && j2 == j
            }
    }

    /// Stream `k` is `id`, written by the operator `operator`.
    pub open spec fn declares(self, k: int, id: StreamId, operator: OperatorId) -> bool {
        self.stream_at(k, id) && self.streams[k].source == StreamSource::Operator(operator)
    }

    /// Stream `k` is `id`, and an operator writes it.
    pub open spec fn operator_stream_at(self, k: int, id: StreamId) -> bool {
        self.stream_at(k, id) && self.streams[k].source is Operator
    }

    /// An operator of the graph writes the stream `id`.
    pub open spec fn is_operator_stream(self, id: StreamId) -> bool {
        exists|k: int| self.operator_stream_at(k, id)
    }

    /// The driver writes the stream `id`.
    pub open spec fn is_ingest_stream(self, id: StreamId) -> bool {
        exists|k: int| self.stream_at(k, id) && self.streams[k].source is Ingest
    }

    /// Stream `k` is a loop stream that is not bound.
    pub open spec fn unbound_at(self, k: int) -> bool {
        0 <= k < self.streams.len() && self.streams[k].source == StreamSource::Loop(None)
    }

    /// Who feeds the stream `id`, if the graph holds it.
    pub open spec fn source_of(self, id: StreamId) -> Option<StreamSource> {
        if self.has_stream(id) {
            Some(self.streams[choose|k: int| self.stream_at(k, id)].source)
        } else {
            None
        }
    }

    /// The stream that `id` stands for: the one it is bound to if it is a
    /// bound loop stream, else itself.
    pub open spec fn resolve(self, id: StreamId) -> StreamId {
        match self.source_of(id) {
            Some(StreamSource::Loop(Some(target))) => target,
            _ => id,
        }
    }

    /// The place of the operator `id` among the operators of the graph.
    pub open spec fn index_of_operator(self, id: OperatorId) -> int {
        choose|i: int| self.operator_at(i, id)
    }

    /// The node of the driver, which feeds the ingest streams.
    pub open spec fn driver_node() -> NodeId {
        0
    }

    /// The node from which the stream `id` is fed, if it is fed.
    pub open spec fn feeding_node(self, id: StreamId) -> Option<NodeId> {
        match self.source_of(self.resolve(id)) {
            Some(StreamSource::Operator(producer)) => if self.has_operator(producer) {
                Some(self.operators[self.index_of_operator(producer)].node_id)
            } else {
                None
            },
            Some(StreamSource::Ingest) => Some(Self::driver_node()),
            _ => None,
        }
    }

    /// Input `j` of operator `i` is fed by `stream`, and the operator runs
    /// on another node than `node`.
    pub open spec fn read_off_at(self, node: NodeId, i: int, j: int, stream: StreamId) -> bool {
        &&& 0 <= i < self.operators.len()
        &&& 0 <= j < self.operators[i].inputs.len()
        &&& self.resolve(self.operators[i].inputs[j]) == stream
        &&& self.operators[i].node_id != node
    }

    /// At place `e` the driver reads what `stream` feeds, and the driver's
    /// node is another than `node`.
    pub open spec fn extracted_off_at(self, node: NodeId, e: int, stream: StreamId) -> bool {
        &&& 0 <= e < self.extracts.len()
        &&& self.resolve(self.extracts[e].stream) == stream
        &&& node != Self::driver_node()
    }

    /// Whether `stream` has a reader on another node than `node`: an
    /// operator that runs elsewhere, or the driver if its node is another.
    pub open spec fn is_read_off(self, node: NodeId, stream: StreamId) -> bool {
        (exists|i: int, j: int| self.read_off_at(node, i, j, stream)) || exists|e: int|
            self.extracted_off_at(node, e, stream)
    }

    /// The name of the stream `id`: the one the driver gave it, or else the
    /// text of its identity.
    pub open spec fn stream_name(self, id: StreamId) -> Seq<char> {
        if self.names.contains_key(id) {
            self.names[id]
        } else {
            uuid_text(id.value as nat)
        }
    }

    /// What construction keeps true of a graph.
    pub open spec fn wf(self) -> bool {
        &&& forall|i: int|
            0 <= i < self.operators.len() ==> (#[trigger] self.operators[i]).id.value < self.issued
        &&& forall|k: int|
            0 <= k < self.streams.len() ==> (#[trigger] self.streams[k]).id.value < self.issued
        &&& forall|i: int, i2: int|
            0 <= i < i2 < self.operators.len() ==> (#[trigger] self.operators[i]).id
                != (#[trigger] self.operators[i2]).id
        &&& forall|k: int, k2: int|
            0 <= k < k2 < self.streams.len() ==> (#[trigger] self.streams[k]).id
                != (#[trigger] self.streams[k2]).id
        &&& forall|i: int, k: int|
            0 <= i < self.operators.len() && 0 <= k < self.streams.len() ==> (
            #[trigger] self.operators[i]).id != (#[trigger] self.streams[k]).id
        &&& forall|i: int|
            0 <= i < self.operators.len() ==> (#[trigger] self.operators[i]).arity_ok()
        &&& forall|i: int, j: int, id: StreamId| #[trigger]
            self.produces(i, j, id) ==> exists|k: int|
                self.declares(k, id, self.operators[i].id)
        &&& forall|k: int, id: StreamId| #[trigger]
            self.operator_stream_at(k, id) ==> exists|i: int, j: int|
                self.produces(i, j, id) && self.operators[i].id
                    == self.streams[k].source->Operator_0
        &&& forall|i: int, j: int, i2: int, j2: int, id: StreamId|
            #![trigger self.produces(i, j, id), self.produces(i2, j2, id)]
            self.produces(i, j, id) && self.produces(i2, j2, id) ==> i == i2 && j == j2
        &&& forall|k: int, target: StreamId|
            0 <= k < self.streams.len() && (#[trigger] self.streams[k]).source
                == StreamSource::Loop(Some(target)) ==> #[trigger] self.is_operator_stream(target)
        &&& forall|e: int|
            0 <= e < self.extracts.len() ==> (#[trigger] self.extracts[e]).id.value < self.issued
        &&& forall|e: int, e2: int|
            0 <= e < e2 < self.extracts.len() ==> (#[trigger] self.extracts[e]).id != (
            #[trigger] self.extracts[e2]).id
        &&& forall|i: int, e: int|
            0 <= i < self.operators.len() && 0 <= e < self.extracts.len() ==> (
            #[trigger] self.operators[i]).id != (#[trigger] self.extracts[e]).id
    }

    /// The graph with loop stream `k` bound to the stream `target`.
    pub open spec fn bind_loop(self, k: int, target: StreamId) -> GraphView {
        GraphView {
            streams: self.streams.update(
                k,
                StreamDescriptor { id: self.streams[k].id, source: StreamSource::Loop(Some(target)) },
            ),
            ..self
        }
    }

    /// The graph with the stream `id` named `name`.
    pub open spec fn rename(self, id: StreamId, name: Seq<char>) -> GraphView {
        GraphView { names: self.names.insert(id, name), ..self }
    }

    /// Input `j` of operator `i` is a stream that the graph does not hold.
    pub open spec fn is_dangling(self, i: int, j: int) -> bool {
        0 <= i < self.operators.len() && 0 <= j < self.operators[i].inputs.len()
            && !self.has_stream(self.operators[i].inputs[j])
    }

    /// Stream `k` is the first loop stream that is not bound.
    pub open spec fn first_unbound(self, k: int) -> bool {
        self.unbound_at(k) && forall|k2: int| 0 <= k2 < k ==> !self.unbound_at(k2)
    }

    /// Input `j` of operator `i` is the first that the graph does not hold,
    /// going through the operators in order and through the inputs of each.
    pub open spec fn first_dangling(self, i: int, j: int) -> bool {
        &&& self.is_dangling(i, j)
        &&& forall|i2: int, j2: int|
            (i2 < i || (i2 == i && j2 < j)) ==> !self.is_dangling(i2, j2)
    }

    /// The driver reads at place `e` a stream that the graph does not hold.
    pub open spec fn is_dangling_extract(self, e: int) -> bool {
        0 <= e < self.extracts.len() && !self.has_stream(self.extracts[e].stream)
    }

    /// Place `e` is the first at which the driver reads a stream that the
    /// graph does not hold.
    pub open spec fn first_dangling_extract(self, e: int) -> bool {
        self.is_dangling_extract(e) && forall|e2: int| 0 <= e2 < e ==> !self.is_dangling_extract(e2)
    }

    /// Every loop stream is bound, and the graph holds every stream that an
    /// operator or the driver reads.
    pub open spec fn complete(self) -> bool {
        &&& forall|k: int| !self.unbound_at(k)
        &&& forall|i: int, j: int| !self.is_dangling(i, j)
        &&& forall|e: int| !self.is_dangling_extract(e)
    }

    /// Whether the loop stream `placeholder` can be bound to `target`: it is
    /// a loop stream of the graph that is not bound, and an operator of the
    /// graph writes `target`.
    pub open spec fn can_bind(self, placeholder: StreamId, target: StreamId) -> bool {
        &&& exists|k: int| self.unbound_at(k) && self.streams[k].id == placeholder
        &&& self.is_operator_stream(target)
    }

    /// Why `placeholder` cannot be bound to `target`, where it cannot.
    pub open spec fn why_not_bound(
        self,
        placeholder: StreamId,
        target: StreamId,
    ) -> GraphConstructionError {
        if exists|k: int| self.unbound_at(k) && self.streams[k].id == placeholder {
            GraphConstructionError::NotAnOperatorStream { stream: target }
        } else if exists|k: int|
            self.stream_at(k, placeholder) && self.streams[k].source is Loop {
            GraphConstructionError::AlreadyBound { stream: placeholder }
        } else {
            GraphConstructionError::NotALoop { stream: placeholder }
        }
    }

    /// In a well-formed graph a stream stands at one place only.
    pub proof fn lemma_stream_index(self, k: int, id: StreamId)
        requires
            self.wf(),
            self.stream_at(k, id),
        ensures
            forall|k2: int| self.stream_at(k2, id) ==> k2 == k,
            self.has_stream(id),
            self.source_of(id) == Some(self.streams[k].source),
            self.is_operator_stream(id) == (self.streams[k].source is Operator),
            self.is_ingest_stream(id) == (self.streams[k].source is Ingest),
    {
        assert forall|k2: int| self.stream_at(k2, id) implies k2 == k by {
            if k2 < k {
                assert(self.streams[k2].id != self.streams[k].id);
            } else if k < k2 {
                assert(self.streams[k].id != self.streams[k2].id);
            }
        }
        if self.streams[k].source is Operator {
            assert(self.operator_stream_at(k, id));
        }
    }

    /// In a well-formed graph an operator stands at one place only.
    pub proof fn lemma_operator_index(self, i: int, id: OperatorId)
        requires
            self.wf(),
            self.operator_at(i, id),
        ensures
            forall|i2: int| self.operator_at(i2, id) ==> i2 == i,
            self.has_operator(id),
            self.index_of_operator(id) == i,
    {
        assert forall|i2: int| self.operator_at(i2, id) implies i2 == i by {
            if i2 < i {
                assert(self.operators[i2].id != self.operators[i].id);
            } else if i < i2 {
                assert(self.operators[i].id != self.operators[i2].id);
            }
        }
    }

    /// The identity that the next operator gets.
    pub open spec fn next_operator_id(self) -> OperatorId {
        Uuid { value: self.issued as u128 }
    }

    /// The identities that the outputs of the next operator get, if it has
    /// `n` of them.
    pub open spec fn next_outputs(self, n: nat) -> Seq<StreamId> {
        Seq::new(n, |j: int| Uuid { value: (self.issued + 1 + j) as u128 })
    }

    /// The graph with `n` more identities issued.
    pub open spec fn issue(self, n: nat) -> GraphView {
        GraphView { issued: self.issued + n, ..self }
    }

    /// Whether `id` was issued and stands for nothing in the graph yet.
    pub open spec fn is_unused(self, id: Uuid) -> bool {
        id.value < self.issued && !self.has_stream(id) && !self.has_operator(id)
            && !self.has_extract(id)
    }

    /// The graph with the operator `operator` and its output streams added.
    pub open spec fn add_operator(self, operator: OperatorView) -> GraphView {
        GraphView {
            operators: self.operators.push(operator),
            streams: self.streams + operator.outputs.map_values(declared_by(operator.id)),
            ..self
        }
    }

    /// The operator that a connect call adds.
    pub open spec fn next_operator(
        self,
        topology: Topology,
        config: OperatorConfigView,
        inputs: Seq<StreamId>,
    ) -> OperatorView {
        OperatorView {
            id: self.next_operator_id(),
            name: config.name,
            node_id: config.node_id,
            topology,
            inputs,
            outputs: self.next_outputs(topology.outputs()),
            num_workers: config.num_workers,
        }
    }

    /// The graph after an operator of shape `topology` was connected to the
    /// streams `inputs`: the operator takes the next identity, its outputs
    /// the ones after it.
    pub open spec fn connect(
        self,
        topology: Topology,
        config: OperatorConfigView,
        inputs: Seq<StreamId>,
    ) -> GraphView {
        self.issue(1 + topology.outputs()).add_operator(
            self.next_operator(topology, config, inputs),
        )
    }

    /// The graph after a place was added at which the driver reads
    /// `stream`.
    pub open spec fn add_extract(self, stream: StreamId) -> GraphView {
        GraphView {
            issued: self.issued + 1,
            extracts: self.extracts.push(
                ExtractDescriptor { id: Uuid { value: self.issued as u128 }, stream },
            ),
            ..self
        }
    }

    /// The graph after a stream fed by `source` was added.
    pub open spec fn add_stream(self, source: StreamSource) -> GraphView {
        GraphView {
            issued: self.issued + 1,
            streams: self.streams.push(
                StreamDescriptor { id: Uuid { value: self.issued as u128 }, source },
            ),
            ..self
        }
    }
}

/// The dataflow graph that the driver builds.
pub struct Graph {
    ids: IdGenerator,
    operators: Vec<OperatorDescriptor>,
    streams: Vec<StreamDescriptor>,
    extracts: Vec<ExtractDescriptor>,
    names: HashMap<u128, String>,
}

impl View for Graph {
    type V = GraphView;

    closed spec fn view(&self) -> GraphView {
        GraphView {
            issued: self.ids.issued(),
            operators: self.operators@.map_values(|operator: OperatorDescriptor| operator@),
            streams: self.streams@,
            extracts: self.extracts@,
            names: Map::new(
                |id: StreamId| self.names@.contains_key(id.value),
                |id: StreamId| self.names@[id.value]@,
            ),
        }
    }
}

impl Graph {
    /// What every graph that this module hands out satisfies.
    pub open spec fn wf(&self) -> bool {
        self@.wf()
    }

    /// Whether the graph can issue `n` more identities.
    pub open spec fn can_issue(&self, n: nat) -> bool {
        self@.issued + n <= u128::MAX
    }

    /// An empty graph.
    pub fn new() -> (graph: Self)
        ensures
            graph.wf(),
            graph@ == GraphView::empty(),
    {
        let graph = Graph {
            ids: IdGenerator::new(),
            operators: Vec::new(),
            streams: Vec::new(),
            extracts: Vec::new(),
            names: HashMap::new(),
        };
        assert(graph@.operators =~= Seq::empty());
        assert(graph@.names =~= Map::empty());
        graph
    }

    /// The number of identities that the graph can still issue.
    pub fn remaining_ids(&self) -> (left: u128)
        ensures
            left == u128::MAX - self@.issued,
    {
        self.ids.remaining()
    }

    /// Issues the next identity. Nothing in the graph stands under it yet.
    pub fn issue_id(&mut self) -> (id: Uuid)
        requires
            old(self).wf(),
            old(self).can_issue(1),
        ensures
            final(self).wf(),
            final(self)@ == old(self)@.issue(1),
            id.value == old(self)@.issued,
            final(self)@.is_unused(id),
    {
        let id = Uuid::new_deterministic(&mut self.ids);
        proof {
            lemma_issue(old(self)@, 1, id);
            lemma_fresh_is_absent(old(self)@, id);
        }
        id
    }

    /// Adds an operator and the streams that it writes. The identity in
    /// `config` and those in `write_stream_ids` must have been issued by this
    /// graph and not used since.
    pub(crate) fn add_operator(
        &mut self,
        config: &OperatorConfig,
        topology: Topology,
        read_stream_ids: Vec<StreamId>,
        write_stream_ids: Vec<StreamId>,
    )
        requires
            old(self).wf(),
            read_stream_ids@.len() == topology.inputs(),
            write_stream_ids@.len() == topology.outputs(),
            old(self)@.is_unused(config.id),
            forall|j: int|
                0 <= j < write_stream_ids@.len() ==> old(self)@.is_unused(
                    #[trigger] write_stream_ids@[j],
                ) && write_stream_ids@[j] != config.id,
            forall|j: int, j2: int|
                0 <= j < j2 < write_stream_ids@.len() ==> write_stream_ids@[j]
                    != write_stream_ids@[j2],
        ensures
            final(self).wf(),
            final(self)@ == old(self)@.add_operator(
                OperatorView {
                    id: config.id,
                    name: config@.name,
                    node_id: config.node_id,
                    topology,
                    inputs: read_stream_ids@,
                    outputs: write_stream_ids@,
                    num_workers: config.num_workers,
                },
            ),
    {
        let ghost operator = OperatorView {
            id: config.id,
            name: config@.name,
            node_id: config.node_id,
            topology,
            inputs: read_stream_ids@,
            outputs: write_stream_ids@,
            num_workers: config.num_workers,
        };
        let ghost declare = declared_by(config.id);
        let mut j: usize = 0;
        while j < write_stream_ids.len()
            invariant
                j <= write_stream_ids@.len(),
                self.ids == old(self).ids,
                self.operators == old(self).operators,
                self.extracts == old(self).extracts,
                self.names == old(self).names,
                declare == declared_by(config.id),
                self.streams@ == old(self).streams@ + write_stream_ids@.take(j as int).map_values(
                    declare,
                ),
            decreases write_stream_ids@.len() - j,
        {
            let ghost before = self.streams@;
            let stream = write_stream_ids[j];
            self.streams.push(
                StreamDescriptor { id: stream, source: StreamSource::Operator(config.id) },
            );
            proof {
                let taken = write_stream_ids@.take(j as int);
                let more = write_stream_ids@.take(j + 1);
                assert(more =~= taken.push(stream));
                assert(declare(stream) == StreamDescriptor {
                    id: stream,
                    source: StreamSource::Operator(config.id),
                });
                assert(more.map_values(declare) =~= taken.map_values(declare).push(
                    declare(stream),
                ));
                assert(self.streams@ == before.push(declare(stream)));
                assert(self.streams@ =~= old(self).streams@ + more.map_values(declare));
            }
            j = j + 1;
        }
        assert(write_stream_ids@.take(j as int) =~= write_stream_ids@);
        let descriptor = OperatorDescriptor {
            id: config.id,
            name: clone_text(&config.name),
            node_id: config.node_id,
            topology,
            read_stream_ids,
            write_stream_ids,
            num_workers: config.num_workers,
        };
        assert(descriptor@ == operator);
        self.operators.push(descriptor);
        proof {
            lemma_add_operator(old(self)@, operator);
            assert(self@.operators =~= old(self)@.operators.push(operator));
            assert(self@.names =~= old(self)@.names);
            assert(self@.streams =~= old(self)@.add_operator(operator).streams);
        }
    }

    /// Adds a stream that no operator writes: one that the driver feeds, or
    /// a loop stream that is yet to be bound.
    pub fn add_stream(&mut self, source: StreamSource) -> (id: StreamId)
        requires
            old(self).wf(),
            old(self).can_issue(1),
            source is Ingest || source == StreamSource::Loop(None),
        ensures
            final(self).wf(),
            final(self)@ == old(self)@.add_stream(source),
            id.value == old(self)@.issued,
            !old(self)@.has_stream(id),
            final(self)@.has_stream(id),
    {
        let id = Uuid::new_deterministic(&mut self.ids);
        self.streams.push(StreamDescriptor { id, source });
        proof {
            lemma_add_stream(old(self)@, source);
            lemma_fresh_is_absent(old(self)@, id);
            assert(self@.names =~= old(self)@.names);
            assert(self@.stream_at(old(self)@.streams.len() as int, id));
        }
        id
    }

    /// Adds a place at which the driver reads `stream`. Returns the identity
    /// under which it reads.
    pub fn add_extract(&mut self, stream: StreamId) -> (id: Uuid)
        requires
            old(self).wf(),
            old(self).can_issue(1),
        ensures
            final(self).wf(),
            final(self)@ == old(self)@.add_extract(stream),
            id.value == old(self)@.issued,
    {
        let id = Uuid::new_deterministic(&mut self.ids);
        self.extracts.push(ExtractDescriptor { id, stream });
        proof {
            lemma_add_extract(old(self)@, stream);
            assert(self@.names =~= old(self)@.names);
        }
        id
    }

    /// The number of places at which the driver reads.
    pub fn num_extracts(&self) -> (n: usize)
        ensures
            n == self@.extracts.len(),
    {
        self.extracts.len()
    }

    /// Place `e` at which the driver reads.
    pub fn extract(&self, e: usize) -> (extract: ExtractDescriptor)
        requires
            e < self@.extracts.len(),
        ensures
            extract == self@.extracts[e as int],
    {
        self.extracts[e]
    }

    /// The place of the stream `id` among the streams of the graph.
    pub fn find_stream(&self, id: StreamId) -> (found: Option<usize>)
        ensures
            match found {
                Some(k) => self@.stream_at(k as int, id),
                None => !self@.has_stream(id),
            },
    {
        let mut k: usize = 0;
        while k < self.streams.len()
            invariant
                k <= self.streams@.len(),
                forall|k2: int| 0 <= k2 < k ==> self.streams@[k2].id != id,
            decreases self.streams@.len() - k,
        {
            if self.streams[k].id == id {
                return Some(k);
            }
            k = k + 1;
        }
        assert forall|k2: int| !self@.stream_at(k2, id) by {}
        None
    }

    /// Who feeds the stream `id`, if the graph holds it.
    pub fn stream_source(&self, id: StreamId) -> (source: Option<StreamSource>)
        requires
            self.wf(),
        ensures
            source == self@.source_of(id),
    {
        match self.find_stream(id) {
            Some(k) => {
                proof {
                    self@.lemma_stream_index(k as int, id);
                }
                Some(self.streams[k].source)
            },
            None => None,
        }
    }

    /// The place of the operator `id` among the operators of the graph.
    pub fn find_operator(&self, id: OperatorId) -> (found: Option<usize>)
        requires
            self.wf(),
        ensures
            match found {
                Some(i) => self@.operator_at(i as int, id) && i == self@.index_of_operator(id),
                None => !self@.has_operator(id),
            },
    {
        let mut i: usize = 0;
        while i < self.operators.len()
            invariant
                self.wf(),
                i <= self.operators@.len(),
                forall|i2: int| 0 <= i2 < i ==> self@.operators[i2].id != id,
            decreases self.operators@.len() - i,
        {
            if self.operators[i].id == id {
                proof {
                    assert(self@.operator_at(i as int, id));
                    self@.lemma_operator_index(i as int, id);
                }
                return Some(i);
            }
            i = i + 1;
        }
        assert forall|i2: int| !self@.operator_at(i2, id) by {}
        None
    }

    /// The stream that `id` stands for.
    pub fn resolve(&self, id: StreamId) -> (stream: StreamId)
        requires
            self.wf(),
        ensures
            stream == self@.resolve(id),
    {
        match self.stream_source(id) {
            Some(StreamSource::Loop(Some(target))) => target,
            _ => id,
        }
    }

    /// The node from which the stream `id` is fed, if it is fed.
    pub fn feeding_node(&self, id: StreamId) -> (node: Option<NodeId>)
        requires
            self.wf(),
        ensures
            node == self@.feeding_node(id),
    {
        let stream = self.resolve(id);
        match self.stream_source(stream) {
            Some(StreamSource::Operator(producer)) => match self.find_operator(producer) {
                Some(i) => Some(self.operators[i].node_id),
                None => None,
            },
            Some(StreamSource::Ingest) => Some(0),
            _ => None,
        }
    }

    /// Whether `stream` has a reader on another node than `node`.
    pub fn is_read_off(&self, node: NodeId, stream: StreamId) -> (read: bool)
        requires
            self.wf(),
        ensures
            read == self@.is_read_off(node, stream),
    {
        let mut i: usize = 0;
        while i < self.operators.len()
            invariant
                self.wf(),
                i <= self.operators@.len(),
                forall|i2: int, j2: int| i2 < i ==> !self@.read_off_at(node, i2, j2, stream),
            decreases self.operators@.len() - i,
        {
            let operator = &self.operators[i];
            assert(operator@ == self@.operators[i as int]);
            if operator.node_id != node {
                let mut j: usize = 0;
                while j < operator.read_stream_ids.len()
                    invariant
                        self.wf(),
                        i < self.operators@.len(),
                        operator@ == self@.operators[i as int],
                        operator.node_id != node,
                        j <= operator.read_stream_ids@.len(),
                        forall|i2: int, j2: int|
                            (i2 < i || (i2 == i && j2 < j)) ==> !self@.read_off_at(
                                node,
                                i2,
                                j2,
                                stream,
                            ),
                    decreases operator.read_stream_ids@.len() - j,
                {
                    if self.resolve(operator.read_stream_ids[j]) == stream {
                        assert(self@.read_off_at(node, i as int, j as int, stream));
                        return true;
                    }
                    j = j + 1;
                }
            }
            i = i + 1;
        }
        if node == 0 {
            assert forall|e: int| !self@.extracted_off_at(node, e, stream) by {}
            return false;
        }
        let mut e: usize = 0;
        while e < self.extracts.len()
            invariant
                self.wf(),
                node != 0,
                e <= self.extracts@.len(),
                forall|i2: int, j2: int| !self@.read_off_at(node, i2, j2, stream),
                forall|e2: int| e2 < e ==> !self@.extracted_off_at(node, e2, stream),
            decreases self.extracts@.len() - e,
        {
            if self.resolve(self.extracts[e].stream) == stream {
                assert(self@.extracted_off_at(node, e as int, stream));
                return true;
            }
            e = e + 1;
        }
        false
    }

    /// Binds the loop stream `placeholder` to `target`, a stream that an
    /// operator of the graph writes. From then on `placeholder` stands for
    /// `target`.
    pub fn connect_loop(&mut self, placeholder: StreamId, target: StreamId) -> (result: Result<
        (),
        GraphConstructionError,
    >)
        requires
            old(self).wf(),
        ensures
            final(self).wf(),
            match result {
                Ok(()) => exists|k: int|
                    {
                        &&& old(self)@.unbound_at(k)
                        &&& old(self)@.streams[k].id == placeholder
                        &&& old(self)@.is_operator_stream(target)
                        &&& final(self)@ == old(self)@.bind_loop(k, target)
                    },
                Err(error) => {
                    &&& final(self)@ == old(self)@
                    &&& error == old(self)@.why_not_bound(placeholder, target)
                },
            },
            result is Ok <==> old(self)@.can_bind(placeholder, target),
    {
        let found = self.find_stream(placeholder);
        let k = match found {
            Some(k) => k,
            None => {
                proof {
                    assert forall|k: int|
                        !(self@.unbound_at(k) && self@.streams[k].id == placeholder) by {
                        if self@.unbound_at(k) && self@.streams[k].id == placeholder {
                            assert(self@.stream_at(k, placeholder));
                        }
                    }
                }
                return Err(GraphConstructionError::NotALoop { stream: placeholder });
            },
        };
        proof {
            self@.lemma_stream_index(k as int, placeholder);
            assert forall|k2: int|
                self@.unbound_at(k2) && self@.streams[k2].id == placeholder implies k2 == k by {
                assert(self@.stream_at(k2, placeholder));
            }
        }
        match self.streams[k].source {
            StreamSource::Loop(None) => {},
            StreamSource::Loop(Some(_)) => {
                return Err(GraphConstructionError::AlreadyBound { stream: placeholder });
            },
            _ => {
                return Err(GraphConstructionError::NotALoop { stream: placeholder });
            },
        }
        assert(self@.unbound_at(k as int));
        let fed_by_operator = match self.find_stream(target) {
            Some(t) => {
                proof {
                    self@.lemma_stream_index(t as int, target);
                }
                match self.streams[t].source {
                    StreamSource::Operator(_) => true,
                    _ => false,
                }
            },
            None => false,
        };
        if !fed_by_operator {
            return Err(GraphConstructionError::NotAnOperatorStream { stream: target });
        }
        self.streams.set(
            k,
            StreamDescriptor { id: placeholder, source: StreamSource::Loop(Some(target)) },
        );
        proof {
            lemma_bind_loop(old(self)@, k as int, target);
            assert(self@.names =~= old(self)@.names);
            assert(self@ == old(self)@.bind_loop(k as int, target));
        }
        Ok(())
    }

    /// The name of the stream `id`.
    pub fn get_stream_name(&self, id: &StreamId) -> (name: String)
        ensures
            name@ == self@.stream_name(*id),
    {
        match self.names.get(&id.value) {
            Some(name) => name.clone(),
            None => id.to_text(),
        }
    }

    /// Names the stream `id`.
    pub fn set_stream_name(&mut self, id: &StreamId, name: &str)
        ensures
            final(self)@ == old(self)@.rename(*id, name@),
            old(self).wf() ==> final(self).wf(),
    {
        self.names.insert(id.value, String::from_str(name));
        proof {
            assert(self@.names =~= old(self)@.names.insert(*id, name@));
            if old(self).wf() {
                lemma_same_wiring(old(self)@, self@);
            }
        }
    }

    /// The number of operators in the graph.
    pub fn num_operators(&self) -> (n: usize)
        ensures
            n == self@.operators.len(),
    {
        self.operators.len()
    }

    /// Operator `i` of the graph.
    pub fn operator(&self, i: usize) -> (operator: &OperatorDescriptor)
        requires
            i < self@.operators.len(),
        ensures
            operator@ == self@.operators[i as int],
    {
        &self.operators[i]
    }

    /// The number of streams in the graph.
    pub fn num_streams(&self) -> (n: usize)
        ensures
            n == self@.streams.len(),
    {
        self.streams.len()
    }

    /// Stream `k` of the graph.
    pub fn stream(&self, k: usize) -> (stream: StreamDescriptor)
        requires
            k < self@.streams.len(),
        ensures
            stream == self@.streams[k as int],
    {
        self.streams[k]
    }

    /// Checks that the graph can be executed: every loop stream is bound and
    /// every stream that an operator or the driver reads is in the graph.
    /// The error names the first loop stream that is not bound or, if all
    /// are, the first input of an operator that is missing or, if none is,
    /// the first stream that the driver reads and that is missing.
    pub fn validate(&self) -> (result: Result<(), GraphConstructionError>)
        requires
            self.wf(),
        ensures
            match result {
                Ok(()) => self@.complete(),
                Err(GraphConstructionError::UnboundLoop { stream }) => exists|k: int|
                    self@.first_unbound(k) && self@.streams[k].id == stream,
                Err(GraphConstructionError::UnknownStream { consumer, stream }) => {
                    &&& forall|k: int| !self@.unbound_at(k)
                    &&& (exists|i: int, j: int|
                        {
                            &&& self@.first_dangling(i, j)
                            &&& self@.operators[i].id == consumer
                            &&& self@.operators[i].inputs[j] == stream
                        }) || ((forall|i: int, j: int| !self@.is_dangling(i, j)) && exists|e: int|
                        {
                            &&& self@.first_dangling_extract(e)
                            &&& self@.extracts[e].id == consumer
                            &&& self@.extracts[e].stream == stream
                        })
                },
                Err(_) => false,
            },
    {
        let mut k: usize = 0;
        while k < self.streams.len()
            invariant
                k <= self.streams@.len(),
                forall|k2: int| 0 <= k2 < k ==> !self@.unbound_at(k2),
            decreases self.streams@.len() - k,
        {
            match self.streams[k].source {
                StreamSource::Loop(None) => {
                    assert(self@.first_unbound(k as int));
                    return Err(GraphConstructionError::UnboundLoop { stream: self.streams[k].id });
                },
                _ => {},
            }
            k = k + 1;
        }
        let mut i: usize = 0;
        while i < self.operators.len()
            invariant
                i <= self.operators@.len(),
                forall|k2: int| !self@.unbound_at(k2),
                forall|i2: int, j2: int| i2 < i ==> !self@.is_dangling(i2, j2),
            decreases self.operators@.len() - i,
        {
            let operator = &self.operators[i];
            assert(operator@ == self@.operators[i as int]);
            let mut j: usize = 0;
            while j < operator.read_stream_ids.len()
                invariant
                    i < self.operators@.len(),
                    operator@ == self@.operators[i as int],
                    j <= operator.read_stream_ids@.len(),
                    forall|k2: int| !self@.unbound_at(k2),
                    forall|i2: int, j2: int|
                        (i2 < i || (i2 == i && j2 < j)) ==> !self@.is_dangling(i2, j2),
                decreases operator.read_stream_ids@.len() - j,
            {
                let stream = operator.read_stream_ids[j];
                if self.find_stream(stream).is_none() {
                    assert(self@.first_dangling(i as int, j as int));
                    return Err(
                        GraphConstructionError::UnknownStream { consumer: operator.id, stream },
                    );
                }
                j = j + 1;
            }
            i = i + 1;
        }
        assert forall|i2: int, j2: int| !self@.is_dangling(i2, j2) by {}
        let mut e: usize = 0;
        while e < self.extracts.len()
            invariant
                e <= self.extracts@.len(),
                forall|k2: int| !self@.unbound_at(k2),
                forall|i2: int, j2: int| !self@.is_dangling(i2, j2),
                forall|e2: int| 0 <= e2 < e ==> !self@.is_dangling_extract(e2),
            decreases self.extracts@.len() - e,
        {
            let extract = self.extracts[e];
            if self.find_stream(extract.stream).is_none() {
                assert(self@.first_dangling_extract(e as int));
                return Err(
                    GraphConstructionError::UnknownStream {
                        consumer: extract.id,
                        stream: extract.stream,
                    },
                );
            }
            e = e + 1;
        }
        Ok(())
    }
}

/// Adding an operator under identities that stand for nothing yet keeps the
/// graph well formed, and each of its outputs then has that operator as its
/// one producer.
pub proof fn lemma_add_operator(graph: GraphView, operator: OperatorView)
    requires
        graph.wf(),
        operator.arity_ok(),
        graph.is_unused(operator.id),
        forall|j: int|
            0 <= j < operator.outputs.len() ==> graph.is_unused(#[trigger] operator.outputs[j])
                && operator.outputs[j] != operator.id,
        forall|j: int, j2: int|
            0 <= j < j2 < operator.outputs.len() ==> operator.outputs[j] != operator.outputs[j2],
    ensures
        graph.add_operator(operator).wf(),
        forall|j: int|
            0 <= j < operator.outputs.len() ==> {
                let id = #[trigger] operator.outputs[j];
                &&& graph.add_operator(operator).has_stream(id)
                &&& graph.add_operator(operator).has_unique_producer(id)
            },
{
    let after = graph.add_operator(operator);
    let id = operator.id;
    let outputs = operator.outputs;
    let n = outputs.len() as int;
    let ops = graph.operators.len() as int;
    let strs = graph.streams.len() as int;
    assert(after.operators.len() == ops + 1);
    assert(after.streams.len() == strs + n);
    assert forall|k: int| 0 <= k < strs implies after.streams[k] == graph.streams[k] by {}
    assert forall|k: int| strs <= k < strs + n implies after.streams[k] == (StreamDescriptor {
        id: outputs[k - strs],
        source: StreamSource::Operator(id),
    }) by {}
    assert forall|i: int| 0 <= i < ops implies after.operators[i] == graph.operators[i] by {}
    assert(after.operators[ops] == operator);

    assert forall|k: int| 0 <= k < strs implies (#[trigger] graph.streams[k]).id != id by {
        assert(graph.stream_at(k, graph.streams[k].id));
    }
    assert forall|i: int| 0 <= i < ops implies (#[trigger] graph.operators[i]).id != id by {
        assert(graph.operator_at(i, graph.operators[i].id));
    }
    assert forall|e: int| 0 <= e < graph.extracts.len() implies (#[trigger] graph.extracts[e]).id
        != id by {
        assert(graph.extract_at(e, graph.extracts[e].id));
    }
    assert forall|k: int, j: int| 0 <= k < strs && 0 <= j < n implies (
    #[trigger] graph.streams[k]).id != #[trigger] outputs[j] by {
        assert(graph.stream_at(k, graph.streams[k].id));
    }
    assert forall|i: int, j: int| 0 <= i < ops && 0 <= j < n implies (
    #[trigger] graph.operators[i]).id != #[trigger] outputs[j] by {
        assert(graph.operator_at(i, graph.operators[i].id));
    }
    assert forall|k: int, k2: int| 0 <= k < k2 < after.streams.len() implies (
    #[trigger] after.streams[k]).id != (#[trigger] after.streams[k2]).id by {
        if k2 >= strs && k >= strs {
            assert(outputs[k - strs] != outputs[k2 - strs]);
        }
    }
    assert forall|i: int, k: int|
        0 <= i < after.operators.len() && 0 <= k < after.streams.len() implies (
    #[trigger] after.operators[i]).id != (#[trigger] after.streams[k]).id by {
        if k >= strs {
            assert(after.streams[k].id == outputs[k - strs]);
        }
    }

    assert forall|i: int, j: int, s: StreamId| #[trigger] after.produces(i, j, s) implies exists|
        k: int,
    |
        after.declares(k, s, after.operators[i].id) by {
        if i < ops {
            assert(graph.produces(i, j, s));
            let k = choose|k: int| graph.declares(k, s, graph.operators[i].id);
            assert(after.declares(k, s, after.operators[i].id));
        } else {
            assert(after.declares(strs + j, s, after.operators[i].id));
        }
    }
    assert forall|k: int, s: StreamId| #[trigger] after.operator_stream_at(k, s) implies exists|
        i: int,
        j: int,
    |
        after.produces(i, j, s) && after.operators[i].id
            == after.streams[k].source->Operator_0 by {
        if k < strs {
            assert(graph.operator_stream_at(k, s));
            let (i, j) = choose|i: int, j: int|
                graph.produces(i, j, s) && graph.operators[i].id
                    == graph.streams[k].source->Operator_0;
            assert(after.produces(i, j, s));
        } else {
            assert(after.produces(ops, k - strs, s));
        }
    }
    assert forall|i: int, j: int, i2: int, j2: int, s: StreamId|
        #![trigger after.produces(i, j, s), after.produces(i2, j2, s)]
        after.produces(i, j, s) && after.produces(i2, j2, s) implies i == i2 && j == j2 by {
        if i < ops {
            assert(graph.produces(i, j, s));
            let k = choose|k: int| graph.declares(k, s, graph.operators[i].id);
            assert(graph.stream_at(k, s));
        }
        if i2 < ops {
            assert(graph.produces(i2, j2, s));
            let k = choose|k: int| graph.declares(k, s, graph.operators[i2].id);
            assert(graph.stream_at(k, s));
        }
    }
    assert forall|k: int, target: StreamId|
        0 <= k < after.streams.len() && (#[trigger] after.streams[k]).source
            == StreamSource::Loop(Some(target)) implies #[trigger] after.is_operator_stream(
        target,
    ) by {
        assert(k < strs);
        assert(graph.streams[k].source == StreamSource::Loop(Some(target)));
        assert(graph.is_operator_stream(target));
        let k2 = choose|k2: int| graph.operator_stream_at(k2, target);
        assert(after.operator_stream_at(k2, target));
    }
    assert(after.wf());

    assert forall|j: int| 0 <= j < n implies {
        let s = #[trigger] outputs[j];
        &&& after.has_stream(s)
        &&& after.has_unique_producer(s)
    } by {
        let s = outputs[j];
        assert(after.stream_at(strs + j, s));
        assert(after.produces(ops, j, s));
    }
}

/// Connecting an operator keeps the graph well formed, and the identities it
/// hands out were never handed out before: those of the new output streams
/// differ from one another, from the new operator's, and from that of every
/// stream and operator that the graph held. Each new stream has the new
/// operator as its one producer.
pub proof fn lemma_connect_fresh(
    graph: GraphView,
    topology: Topology,
    config: OperatorConfigView,
    inputs: Seq<StreamId>,
)
    requires
        graph.wf(),
        inputs.len() == topology.inputs(),
        graph.issued + 1 + topology.outputs() <= u128::MAX,
    ensures
        graph.connect(topology, config, inputs).wf(),
        graph.is_fresh(graph.next_operator_id()),
        !graph.has_operator(graph.next_operator_id()),
        !graph.has_stream(graph.next_operator_id()),
        forall|j: int|
            0 <= j < topology.outputs() ==> {
                let id = #[trigger] graph.next_outputs(topology.outputs())[j];
                &&& graph.is_fresh(id)
                &&& !graph.has_stream(id)
                &&& !graph.has_operator(id)
                &&& id != graph.next_operator_id()
                &&& graph.connect(topology, config, inputs).has_stream(id)
                &&& graph.connect(topology, config, inputs).has_unique_producer(id)
            },
        forall|j: int, j2: int|
            0 <= j < j2 < topology.outputs() ==> graph.next_outputs(topology.outputs())[j]
                != graph.next_outputs(topology.outputs())[j2],
{
    let n = topology.outputs();
    let issued = graph.issue(1 + n);
    let operator = graph.next_operator(topology, config, inputs);
    lemma_fresh_is_absent(graph, operator.id);
    assert forall|j: int| 0 <= j < n implies graph.is_fresh(#[trigger] operator.outputs[j])
        && !graph.has_stream(operator.outputs[j]) && !graph.has_operator(operator.outputs[j]) by {
        lemma_fresh_is_absent(graph, operator.outputs[j]);
    }
    assert forall|j: int| 0 <= j < n implies issued.is_unused(#[trigger] operator.outputs[j])
        && operator.outputs[j] != operator.id by {
        lemma_issue(graph, 1 + n, operator.outputs[j]);
    }
    lemma_issue(graph, 1 + n, operator.id);
    lemma_add_operator(issued, operator);
}

/// Issuing identities changes nothing of what the graph holds.
pub proof fn lemma_issue(graph: GraphView, n: nat, id: Uuid)
    requires
        graph.wf(),
    ensures
        graph.issue(n).wf(),
        graph.issue(n).has_stream(id) == graph.has_stream(id),
        graph.issue(n).has_operator(id) == graph.has_operator(id),
        graph.issue(n).has_extract(id) == graph.has_extract(id),
        graph.issue(n).is_operator_stream(id) == graph.is_operator_stream(id),
{
    let after = graph.issue(n);
    lemma_same_wiring(graph, after);
    assert forall|e: int| after.extract_at(e, id) == graph.extract_at(e, id) by {}
    if graph.has_extract(id) {
        let e = choose|e: int| graph.extract_at(e, id);
        assert(after.extract_at(e, id));
    }
    assert forall|k: int| after.stream_at(k, id) == graph.stream_at(k, id) by {}
    assert forall|i: int| after.operator_at(i, id) == graph.operator_at(i, id) by {}
    assert forall|k: int| after.operator_stream_at(k, id) == graph.operator_stream_at(k, id) by {}
    if graph.has_stream(id) {
        let k = choose|k: int| graph.stream_at(k, id);
        assert(after.stream_at(k, id));
    }
    if graph.has_operator(id) {
        let i = choose|i: int| graph.operator_at(i, id);
        assert(after.operator_at(i, id));
    }
    if graph.is_operator_stream(id) {
        let k = choose|k: int| graph.operator_stream_at(k, id);
        assert(after.operator_stream_at(k, id));
    }
}

/// A graph with the operators and streams of a well-formed graph, and with
/// no fewer identities issued, is well formed.
pub proof fn lemma_same_wiring(graph: GraphView, after: GraphView)
    requires
        graph.wf(),
        after.operators == graph.operators,
        after.streams == graph.streams,
        after.extracts == graph.extracts,
        after.issued >= graph.issued,
    ensures
        after.wf(),
{
    assert forall|i: int, j: int, s: StreamId| #[trigger] after.produces(i, j, s) implies exists|
        k: int,
    |
        after.declares(k, s, after.operators[i].id) by {
        assert(graph.produces(i, j, s));
        let k = choose|k: int| graph.declares(k, s, graph.operators[i].id);
        assert(after.declares(k, s, after.operators[i].id));
    }
    assert forall|k: int, s: StreamId| #[trigger] after.operator_stream_at(k, s) implies exists|
        i: int,
        j: int,
    |
        after.produces(i, j, s) && after.operators[i].id
            == after.streams[k].source->Operator_0 by {
        assert(graph.operator_stream_at(k, s));
        let (i, j) = choose|i: int, j: int|
            graph.produces(i, j, s) && graph.operators[i].id
                == graph.streams[k].source->Operator_0;
        assert(after.produces(i, j, s));
    }
    assert forall|i: int, j: int, i2: int, j2: int, s: StreamId|
        #![trigger after.produces(i, j, s), after.produces(i2, j2, s)]
        after.produces(i, j, s) && after.produces(i2, j2, s) implies i == i2 && j == j2 by {
        assert(graph.produces(i, j, s) && graph.produces(i2, j2, s));
    }
    assert forall|k: int, target: StreamId|
        0 <= k < after.streams.len() && (#[trigger] after.streams[k]).source
            == StreamSource::Loop(Some(target)) implies #[trigger] after.is_operator_stream(
        target,
    ) by {
        assert(graph.is_operator_stream(target));
        let k2 = choose|k2: int| graph.operator_stream_at(k2, target);
        assert(after.operator_stream_at(k2, target));
    }
}

/// A well-formed graph holds no stream and no operator under an identity
/// that it has yet to issue.
pub proof fn lemma_fresh_is_absent(graph: GraphView, id: Uuid)
    requires
        graph.wf(),
        graph.is_fresh(id),
    ensures
        !graph.has_stream(id),
        !graph.has_operator(id),
        !graph.has_extract(id),
{
    assert forall|k: int| !graph.stream_at(k, id) by {}
    assert forall|i: int| !graph.operator_at(i, id) by {}
    assert forall|e: int| !graph.extract_at(e, id) by {}
}

/// Adding a place at which the driver reads keeps the graph well formed.
pub proof fn lemma_add_extract(graph: GraphView, stream: StreamId)
    requires
        graph.wf(),
        graph.issued + 1 <= u128::MAX,
    ensures
        graph.add_extract(stream).wf(),
{
    let after = graph.add_extract(stream);
    let old_extracts = graph.extracts.len() as int;
    assert forall|e: int| 0 <= e < old_extracts implies after.extracts[e] == graph.extracts[e] by {}
    lemma_same_wiring(graph, GraphView { issued: graph.issued + 1, ..graph });
    assert forall|i: int, j: int, s: StreamId| #[trigger] after.produces(i, j, s) implies exists|
        k: int,
    |
        after.declares(k, s, after.operators[i].id) by {
        assert(graph.produces(i, j, s));
        let k = choose|k: int| graph.declares(k, s, graph.operators[i].id);
        assert(after.declares(k, s, after.operators[i].id));
    }
    assert forall|k: int, s: StreamId| #[trigger] after.operator_stream_at(k, s) implies exists|
        i: int,
        j: int,
    |
        after.produces(i, j, s) && after.operators[i].id
            == after.streams[k].source->Operator_0 by {
        assert(graph.operator_stream_at(k, s));
        let (i, j) = choose|i: int, j: int|
            graph.produces(i, j, s) && graph.operators[i].id
                == graph.streams[k].source->Operator_0;
        assert(after.produces(i, j, s));
    }
    assert forall|i: int, j: int, i2: int, j2: int, s: StreamId|
        #![trigger after.produces(i, j, s), after.produces(i2, j2, s)]
        after.produces(i, j, s) && after.produces(i2, j2, s) implies i == i2 && j == j2 by {
        assert(graph.produces(i, j, s) && graph.produces(i2, j2, s));
    }
    assert forall|k: int, target: StreamId|
        0 <= k < after.streams.len() && (#[trigger] after.streams[k]).source
            == StreamSource::Loop(Some(target)) implies #[trigger] after.is_operator_stream(
        target,
    ) by {
        assert(graph.is_operator_stream(target));
        let k2 = choose|k2: int| graph.operator_stream_at(k2, target);
        assert(after.operator_stream_at(k2, target));
    }
}

/// Adding a stream that the driver feeds, or an unbound loop stream, keeps
/// the graph well formed.
pub proof fn lemma_add_stream(graph: GraphView, source: StreamSource)
    requires
        graph.wf(),
        graph.issued + 1 <= u128::MAX,
        source is Ingest || source == StreamSource::Loop(None),
    ensures
        graph.add_stream(source).wf(),
{
    let after = graph.add_stream(source);
    let strs = graph.streams.len() as int;
    assert forall|k: int| 0 <= k < strs implies after.streams[k] == graph.streams[k] by {}
    assert forall|i: int, j: int, s: StreamId| #[trigger] after.produces(i, j, s) implies exists|
        k: int,
    |
        after.declares(k, s, after.operators[i].id) by {
        assert(graph.produces(i, j, s));
        let k = choose|k: int| graph.declares(k, s, graph.operators[i].id);
        assert(after.declares(k, s, after.operators[i].id));
    }
    assert forall|k: int, s: StreamId| #[trigger] after.operator_stream_at(k, s) implies exists|
        i: int,
        j: int,
    |
        after.produces(i, j, s) && after.operators[i].id
            == after.streams[k].source->Operator_0 by {
        assert(graph.operator_stream_at(k, s));
        let (i, j) = choose|i: int, j: int|
            graph.produces(i, j, s) && graph.operators[i].id
                == graph.streams[k].source->Operator_0;
        assert(after.produces(i, j, s));
    }
    assert forall|i: int, j: int, i2: int, j2: int, s: StreamId|
        #![trigger after.produces(i, j, s), after.produces(i2, j2, s)]
        after.produces(i, j, s) && after.produces(i2, j2, s) implies i == i2 && j == j2 by {
        assert(graph.produces(i, j, s) && graph.produces(i2, j2, s));
    }
    assert forall|k: int, target: StreamId|
        0 <= k < after.streams.len() && (#[trigger] after.streams[k]).source
            == StreamSource::Loop(Some(target)) implies #[trigger] after.is_operator_stream(
        target,
    ) by {
        assert(graph.streams[k].source == StreamSource::Loop(Some(target)));
        assert(graph.is_operator_stream(target));
        let k2 = choose|k2: int| graph.operator_stream_at(k2, target);
        assert(after.operator_stream_at(k2, target));
    }
}

/// Binding an unbound loop stream to a stream that an operator writes keeps
/// the graph well formed.
pub proof fn lemma_bind_loop(graph: GraphView, k: int, target: StreamId)
    requires
        graph.wf(),
        graph.unbound_at(k),
        graph.is_operator_stream(target),
    ensures
        graph.bind_loop(k, target).wf(),
{
    let after = graph.bind_loop(k, target);
    assert forall|k2: int| 0 <= k2 < graph.streams.len() implies (
    #[trigger] after.streams[k2]).id == graph.streams[k2].id by {}
    assert forall|k2: int| 0 <= k2 < graph.streams.len() && k2 != k implies (
    #[trigger] after.streams[k2]) == graph.streams[k2] by {}
    assert forall|i: int, j: int, s: StreamId| #[trigger] after.produces(i, j, s) implies exists|
        k2: int,
    |
        after.declares(k2, s, after.operators[i].id) by {
        assert(graph.produces(i, j, s));
        let k2 = choose|k2: int| graph.declares(k2, s, graph.operators[i].id);
        assert(after.declares(k2, s, after.operators[i].id));
    }
    assert forall|k2: int, s: StreamId| #[trigger] after.operator_stream_at(k2, s) implies exists|
        i: int,
        j: int,
    |
        after.produces(i, j, s) && after.operators[i].id
            == after.streams[k2].source->Operator_0 by {
        assert(graph.operator_stream_at(k2, s));
        let (i, j) = choose|i: int, j: int|
            graph.produces(i, j, s) && graph.operators[i].id
                == graph.streams[k2].source->Operator_0;
        assert(after.produces(i, j, s));
    }
    assert forall|i: int, j: int, i2: int, j2: int, s: StreamId|
        #![trigger after.produces(i, j, s), after.produces(i2, j2, s)]
        after.produces(i, j, s) && after.produces(i2, j2, s) implies i == i2 && j == j2 by {
        assert(graph.produces(i, j, s) && graph.produces(i2, j2, s));
    }
    assert forall|k2: int, t: StreamId|
        0 <= k2 < after.streams.len() && (#[trigger] after.streams[k2]).source
            == StreamSource::Loop(Some(t)) implies #[trigger] after.is_operator_stream(t) by {
        if k2 != k {
            assert(graph.streams[k2].source == StreamSource::Loop(Some(t)));
        }
        assert(graph.is_operator_stream(t));
        let k3 = choose|k3: int| graph.operator_stream_at(k3, t);
        assert(after.operator_stream_at(k3, t));
    }
}

/// In a well-formed graph a stream that an operator writes has exactly one
/// producer: one output of one operator.
pub proof fn lemma_one_producer(graph: GraphView, id: StreamId)
    requires
        graph.wf(),
        graph.is_operator_stream(id),
    ensures
        graph.has_unique_producer(id),
{
    let k = choose|k: int| graph.operator_stream_at(k, id);
    let (i, j) = choose|i: int, j: int|
        graph.produces(i, j, id) && graph.operators[i].id == graph.streams[k].source->Operator_0;
    assert(graph.produces(i, j, id));
    assert forall|i2: int, j2: int| #[trigger] graph.produces(i2, j2, id) implies i2 == i && j2
        == j by {}
}

/// In a graph that is well formed and complete, every stream that an
/// operator reads stands for a stream that the driver feeds or that has
/// exactly one producer.
pub proof fn lemma_inputs_have_one_producer(graph: GraphView, i: int, j: int)
    requires
        graph.wf(),
        graph.complete(),
        0 <= i < graph.operators.len(),
        0 <= j < graph.operators[i].inputs.len(),
    ensures
        ({
            let stream = graph.resolve(graph.operators[i].inputs[j]);
            graph.is_ingest_stream(stream) || graph.has_unique_producer(stream)
        }),
{
    let id = graph.operators[i].inputs[j];
    assert(!graph.is_dangling(i, j));
    let k = choose|k: int| graph.stream_at(k, id);
    graph.lemma_stream_index(k, id);
    assert(!graph.unbound_at(k));
    match graph.streams[k].source {
        StreamSource::Operator(_) => {
            lemma_one_producer(graph, id);
        },
        StreamSource::Ingest => {},
        StreamSource::Loop(Some(target)) => {
            assert(graph.is_operator_stream(target));
            lemma_one_producer(graph, target);
        },
        StreamSource::Loop(None) => {},
    }
}

/// Connecting an operator to streams that the graph holds keeps a complete
/// graph complete.
pub proof fn lemma_connect_complete(
    graph: GraphView,
    topology: Topology,
    config: OperatorConfigView,
    inputs: Seq<StreamId>,
)
    requires
        graph.wf(),
        graph.complete(),
        inputs.len() == topology.inputs(),
        forall|j: int| 0 <= j < inputs.len() ==> graph.has_stream(#[trigger] inputs[j]),
    ensures
        graph.connect(topology, config, inputs).complete(),
{
    let after = graph.connect(topology, config, inputs);
    let ops = graph.operators.len() as int;
    let strs = graph.streams.len() as int;
    assert forall|k: int| 0 <= k < strs implies after.streams[k] == graph.streams[k] by {}
    assert forall|k: int| !after.unbound_at(k) by {
        if 0 <= k < strs {
            assert(!graph.unbound_at(k));
        }
    }
    assert forall|e: int| !after.is_dangling_extract(e) by {
        if 0 <= e < after.extracts.len() {
            assert(!graph.is_dangling_extract(e));
            let k = choose|k: int| graph.stream_at(k, graph.extracts[e].stream);
            assert(after.stream_at(k, after.extracts[e].stream));
        }
    }
    assert forall|i: int, j: int| !after.is_dangling(i, j) by {
        if 0 <= i < after.operators.len() && 0 <= j < after.operators[i].inputs.len() {
            let id = after.operators[i].inputs[j];
            if i < ops {
                assert(after.operators[i] == graph.operators[i]);
                assert(!graph.is_dangling(i, j));
            } else {
                assert(id == inputs[j]);
            }
            let k = choose|k: int| graph.stream_at(k, id);
            assert(after.stream_at(k, id));
        }
    }
}

/// One call of a connect function: the shape of the operator, what the
/// driver configured, and the streams that the operator reads.
pub struct ConnectCall {
    pub topology: Topology,
    pub config: OperatorConfigView,
    pub inputs: Seq<StreamId>,
}

impl ConnectCall {
    /// The call names as many inputs as the shape has.
    pub open spec fn is_valid(self) -> bool {
        self.inputs.len() == self.topology.inputs()
    }
}

impl GraphView {
    /// The graph after the connect calls `calls`, made in order.
    pub open spec fn connect_all(self, calls: Seq<ConnectCall>) -> GraphView
        decreases calls.len(),
    {
        if calls.len() == 0 {
            self
        } else {
            let call = calls.last();
            self.connect_all(calls.drop_last()).connect(call.topology, call.config, call.inputs)
        }
    }
}

/// Whatever operators the driver connects, and in whatever order, no two
/// streams of the graph get the same identity, and every stream that an
/// operator writes has that operator as its one producer.
pub proof fn lemma_connect_sequence(graph: GraphView, calls: Seq<ConnectCall>)
    requires
        graph.wf(),
        forall|c: int| 0 <= c < calls.len() ==> (#[trigger] calls[c]).is_valid(),
        graph.issued + 3 * calls.len() <= u128::MAX,
    ensures
        graph.connect_all(calls).wf(),
        graph.connect_all(calls).issued <= graph.issued + 3 * calls.len(),
        forall|k: int, k2: int|
            0 <= k < k2 < graph.connect_all(calls).streams.len() ==> (
            #[trigger] graph.connect_all(calls).streams[k]).id != (#[trigger] graph.connect_all(
                calls,
            ).streams[k2]).id,
        forall|id: StreamId| #[trigger]
            graph.connect_all(calls).is_operator_stream(id) ==> graph.connect_all(
                calls,
            ).has_unique_producer(id),
    decreases calls.len(),
{
    if calls.len() > 0 {
        let call = calls.last();
        lemma_connect_sequence(graph, calls.drop_last());
        let before = graph.connect_all(calls.drop_last());
        lemma_connect_fresh(before, call.topology, call.config, call.inputs);
    }
    let after = graph.connect_all(calls);
    assert forall|id: StreamId| #[trigger] after.is_operator_stream(id) implies after.has_unique_producer(
        id,
    ) by {
        lemma_one_producer(after, id);
    }
}

} // verus!
