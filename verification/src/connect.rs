//! Connects operators to the graph.
//!
//! There is one connect function per operator shape. Each gives the operator
//! the next identity of the graph, whatever identity the configuration
//! holds, and each of its outputs the identities after that; adds the
//! operator and its output streams to the graph; and returns the handles of
//! the new streams together with a runner. The runner keeps what is needed
//! to bring the operator up: when the node starts, it resolves the
//! operator's streams with the node's channel manager and makes the
//! executor. The write end of an output with a reader on another node gets
//! the codec that the node gives, and encodes what is sent on it.
use crate::channel_manager::{
    lemma_writes_stay, ChannelManager, ChannelManagerView, ResolutionError,
};
use crate::config::OperatorConfig;
use crate::executors::{
    OneInExecutor, OneInOneOutMessageProcessor, OneInTwoOutExecutor,
    ParallelOneInOneOutMessageProcessor, ParallelSinkMessageProcessor, SinkMessageProcessor,
    SourceExecutor, TwoInOneOutExecutor,
};
use crate::graph::{lemma_connect_fresh, lemma_issue, Graph, GraphView, Topology};
use crate::pool::DispatchPolicy;
use crate::ids::{OperatorId, StreamId};
use crate::operator::{
    OneInOneOut, OneInTwoOut, ParallelOneInOneOut, ParallelSink, Sink, Source, TwoInOneOut,
};
use crate::progress::{ProgressView, Side};
use crate::state::AppendableState;
use crate::stream::{OperatorStream, ReadStream, Stream, WriteStream};
use crate::wire::PayloadCodec;
use std::marker::PhantomData;
use vstd::prelude::*;

verus! {

/// `config` with the identity `id`.
pub open spec fn with_id(config: OperatorConfig, id: OperatorId) -> OperatorConfig {
    OperatorConfig { id, ..config }
}

/// The identities that a connect call issues stand for nothing in the graph
/// before the operator is added: not the operator's, and not those of its
/// `n` outputs, which all differ.
pub proof fn lemma_issued_are_unused(graph: GraphView, n: nat)
    requires
        graph.wf(),
        graph.issued + 1 + n <= u128::MAX,
    ensures
        graph.issue(1 + n).wf(),
        graph.issue(1 + n).is_unused(graph.next_operator_id()),
        forall|j: int|
            0 <= j < n ==> graph.issue(1 + n).is_unused(#[trigger] graph.next_outputs(n)[j])
                && graph.next_outputs(n)[j] != graph.next_operator_id(),
        forall|j: int, j2: int|
            0 <= j < j2 < n ==> graph.next_outputs(n)[j] != graph.next_outputs(n)[j2],
{
    let id = graph.next_operator_id();
    lemma_issue(graph, 1 + n, id);
    crate::graph::lemma_fresh_is_absent(graph, id);
    assert forall|j: int| 0 <= j < n implies graph.issue(1 + n).is_unused(
        #[trigger] graph.next_outputs(n)[j],
    ) && graph.next_outputs(n)[j] != id by {
        lemma_issue(graph, 1 + n, graph.next_outputs(n)[j]);
        crate::graph::lemma_fresh_is_absent(graph, graph.next_outputs(n)[j]);
    }
}

/// The codec that the write end of `stream` gets on the node of `manager`,
/// or why the stream has no write end there. The node must write the
/// stream. A stream with a reader on another node gets the codec given, and
/// a codec must be given; a stream whose readers are all on the node gets
/// none.
pub open spec fn write_end<D>(
    manager: ChannelManagerView,
    stream: StreamId,
    codec: Option<Box<dyn PayloadCodec<D>>>,
) -> Result<Option<Box<dyn PayloadCodec<D>>>, ResolutionError> {
    match manager.write_result(stream) {
        Ok(write) => if !write.remote {
            Ok(None)
        } else if codec is Some {
            Ok(codec)
        } else {
            Err(ResolutionError::CodecMissing { stream })
        },
        Err(error) => Err(error),
    }
}

/// Opens the write end of `stream`.
fn open_write_stream<D>(
    channel_manager: &ChannelManager,
    stream: StreamId,
    codec: Option<Box<dyn PayloadCodec<D>>>,
) -> (result: Result<WriteStream<D>, ResolutionError>)
    requires
        channel_manager.wf(),
    ensures
        match write_end(channel_manager@, stream, codec) {
            Ok(encoder) => result matches Ok(opened) && opened.is_new(stream) && opened.codec()
                == encoder,
            Err(error) => result matches Err(e) && e == error,
        },
{
    let write = match channel_manager.get_write_stream(stream) {
        Ok(write) => write,
        Err(error) => {
            return Err(error);
        },
    };
    if !write.remote {
        Ok(WriteStream::new(stream))
    } else if codec.is_some() {
        Ok(WriteStream::with_codec(stream, codec))
    } else {
        Err(ResolutionError::CodecMissing { stream })
    }
}

/// The workers of a parallel operator when it is brought up: as many as
/// `config` asks for, taking turns from the first, none with a result
/// waiting.
pub open spec fn fresh_pool<V>(pool: crate::pool::PoolView<V>, config: OperatorConfig) -> bool {
    &&& pool.policy == DispatchPolicy::RoundRobin
    &&& pool.cursor == 0
    &&& pool.waiting.len() == if crate::executors::workers_of(config) == 0 {
        1
    } else {
        crate::executors::workers_of(config) as int
    }
    &&& forall|w: int| 0 <= w < pool.waiting.len() ==> (#[trigger] pool.waiting[w]).len() == 0
}

/// Brings up a source.
pub struct SourceRunner<FO, FS, T> {
    pub config: OperatorConfig,
    pub operator_fn: FO,
    pub state_fn: FS,
    pub write_stream_id: StreamId,
    pub phantom: PhantomData<T>,
}

impl<O: Source<S, T>, S, T, FO: Fn() -> O, FS: Fn() -> S> SourceRunner<FO, FS, T> {
    /// Resolves the output stream and makes the executor. The write end
    /// encodes with `codec` if the stream has a reader on another node.
    /// Fails if the node does not write the stream, or if the stream has a
    /// reader on another node and no codec is given.
    pub fn run(
        self,
        channel_manager: &mut ChannelManager,
        codec: Option<Box<dyn PayloadCodec<T>>>,
    ) -> (result: Result<
        SourceExecutor<O, S, T>,
        ResolutionError,
    >)
        requires
            old(channel_manager).wf(),
            call_requires(self.operator_fn, ()),
            call_requires(self.state_fn, ()),
        ensures
            final(channel_manager).wf(),
            final(channel_manager)@ == old(channel_manager)@,
            match write_end(old(channel_manager)@, self.write_stream_id, codec) {
                Ok(encoder) => {
                    &&& result matches Ok(executor)
                    &&& executor.config == self.config
                    &&& call_ensures(self.operator_fn, (), executor.operator)
                    &&& call_ensures(self.state_fn, (), executor.state)
                    &&& executor.write_stream.is_new(self.write_stream_id)
                    &&& executor.write_stream.codec() == encoder
                    &&& !executor.executed
                },
                Err(error) => result matches Err(e) && e == error,
            },
    {
        let write_stream = match open_write_stream(channel_manager, self.write_stream_id, codec) {
            Ok(write_stream) => write_stream,
            Err(error) => {
                return Err(error);
            },
        };
        Ok(SourceExecutor::new(self.config, self.operator_fn, self.state_fn, write_stream))
    }
}

/// Connects a source: an operator without inputs and with one output.
pub fn connect_source<O: Source<S, T>, S, T, FO: Fn() -> O, FS: Fn() -> S>(
    graph: &mut Graph,
    operator_fn: FO,
    state_fn: FS,
    config: OperatorConfig,
) -> (connected: (OperatorStream<T>, SourceRunner<FO, FS, T>))
    requires
        old(graph).wf(),
        old(graph).can_issue(2),
    ensures
        final(graph).wf(),
        final(graph)@ == old(graph)@.connect(Topology::Source, config@, Seq::empty()),
        connected.0.stream_id() == old(graph)@.next_outputs(1)[0],
        !old(graph)@.has_stream(connected.0.stream_id()),
        final(graph)@.has_stream(connected.0.stream_id()),
        final(graph)@.has_unique_producer(connected.0.stream_id()),
        connected.1.config == with_id(config, old(graph)@.next_operator_id()),
        connected.1.operator_fn == operator_fn,
        connected.1.state_fn == state_fn,
        connected.1.write_stream_id == connected.0.stream_id(),
{
    let ghost before = graph@;
    let mut config = config;
    config.id = graph.issue_id();
    let write_stream = OperatorStream::new(graph);

    let mut write_stream_ids: Vec<StreamId> = Vec::new();
    write_stream_ids.push(write_stream.id());

    proof {
        assert(graph@ == before.issue(2));
        assert(write_stream_ids@ =~= before.next_outputs(1));
        lemma_issued_are_unused(before, 1);
        lemma_connect_fresh(before, Topology::Source, config@, Seq::empty());
    }
    graph.add_operator(&config, Topology::Source, Vec::new(), write_stream_ids);

    let runner = SourceRunner {
        config,
        operator_fn,
        state_fn,
        write_stream_id: write_stream.id(),
        phantom: PhantomData,
    };
    (write_stream, runner)
}

/// Brings up a sink.
pub struct SinkRunner<FO, FS, T> {
    pub config: OperatorConfig,
    pub operator_fn: FO,
    pub state_fn: FS,
    pub read_stream_id: StreamId,
    pub phantom: PhantomData<T>,
}

impl<O: Sink<S, T>, S, T, FO: Fn() -> O, FS: Fn() -> S> SinkRunner<FO, FS, T> {
    /// Takes the read end of the input stream and makes the executor. Fails
    /// if the node has no read end of the stream for this operator, or if
    /// it was taken before.
    pub fn run(self, channel_manager: &mut ChannelManager) -> (result: Result<
        OneInExecutor<SinkMessageProcessor<O, S>, T>,
        ResolutionError,
    >)
        requires
            old(channel_manager).wf(),
            call_requires(self.operator_fn, ()),
            call_requires(self.state_fn, ()),
        ensures
            final(channel_manager).wf(),
            match old(channel_manager)@.take_result(self.read_stream_id, self.config.id) {
                Ok(read) => {
                    &&& final(channel_manager)@ == old(channel_manager)@.after_take(
                        self.read_stream_id,
                        self.config.id,
                    )
                    &&& result matches Ok(executor)
                    &&& executor.config == self.config
                    &&& executor.read_stream.is_new(read.stream, read.capacity)
                    &&& executor.processor.config == self.config
                    &&& call_ensures(self.operator_fn, (), executor.processor.operator)
                    &&& call_ensures(self.state_fn, (), executor.processor.state)
                },
                Err(error) => {
                    &&& final(channel_manager)@ == old(channel_manager)@
                    &&& result matches Err(e) && e == error
                },
            },
    {
        let read = match channel_manager.take_read_stream(self.read_stream_id, self.config.id) {
            Ok(read) => read,
            Err(error) => {
                return Err(error);
            },
        };
        let read_stream = ReadStream::new(read.stream, read.capacity);
        let processor = SinkMessageProcessor::new(
            self.config.clone(),
            self.operator_fn,
            self.state_fn,
        );
        Ok(OneInExecutor::new(self.config, processor, read_stream))
    }
}

/// Connects a sink: an operator with one input and without outputs.
pub fn connect_sink<O: Sink<S, T>, S, T, FO: Fn() -> O, FS: Fn() -> S, R: Stream<T>>(
    graph: &mut Graph,
    operator_fn: FO,
    state_fn: FS,
    config: OperatorConfig,
    read_stream: &R,
) -> (runner: SinkRunner<FO, FS, T>)
    requires
        old(graph).wf(),
        old(graph).can_issue(1),
    ensures
        final(graph).wf(),
        final(graph)@ == old(graph)@.connect(
            Topology::Sink,
            config@,
            seq![read_stream.stream_id()],
        ),
        runner.config == with_id(config, old(graph)@.next_operator_id()),
        runner.operator_fn == operator_fn,
        runner.state_fn == state_fn,
        runner.read_stream_id == read_stream.stream_id(),
{
    let ghost before = graph@;
    let mut config = config;
    config.id = graph.issue_id();

    let mut read_stream_ids: Vec<StreamId> = Vec::new();
    read_stream_ids.push(read_stream.id());

    proof {
        assert(read_stream_ids@ =~= seq![read_stream.stream_id()]);
        assert(Seq::<StreamId>::empty() =~= before.next_outputs(0));
        lemma_issued_are_unused(before, 0);
    }
    graph.add_operator(&config, Topology::Sink, read_stream_ids, Vec::new());

    SinkRunner {
        config,
        operator_fn,
        state_fn,
        read_stream_id: read_stream.id(),
        phantom: PhantomData,
    }
}

/// Brings up a sink with several workers.
pub struct ParallelSinkRunner<FO, FS, T> {
    pub config: OperatorConfig,
    pub operator_fn: FO,
    pub state_fn: FS,
    pub read_stream_id: StreamId,
    pub phantom: PhantomData<T>,
}

impl<
    O: ParallelSink<T, U>,
    T,
    U,
    F: Fn(&U, &U) -> U,
    FO: Fn() -> O,
    FS: Fn() -> AppendableState<U, F>,
> ParallelSinkRunner<FO, FS, T> {
    /// Takes the read end of the input stream and makes the executor. Fails
    /// if the node has no read end of the stream for this operator, or if
    /// it was taken before.
    pub fn run(self, channel_manager: &mut ChannelManager) -> (result: Result<
        OneInExecutor<ParallelSinkMessageProcessor<O, U, F>, T>,
        ResolutionError,
    >)
        requires
            old(channel_manager).wf(),
            call_requires(self.operator_fn, ()),
            call_requires(self.state_fn, ()),
        ensures
            final(channel_manager).wf(),
            match old(channel_manager)@.take_result(self.read_stream_id, self.config.id) {
                Ok(read) => {
                    &&& final(channel_manager)@ == old(channel_manager)@.after_take(
                        self.read_stream_id,
                        self.config.id,
                    )
                    &&& result matches Ok(executor)
                    &&& executor.config == self.config
                    &&& executor.read_stream.is_new(read.stream, read.capacity)
                    &&& executor.processor.config == self.config
                    &&& call_ensures(self.operator_fn, (), executor.processor.operator)
                    &&& call_ensures(self.state_fn, (), executor.processor.state)
                    &&& fresh_pool(executor.processor.pool@, self.config)
                },
                Err(error) => {
                    &&& final(channel_manager)@ == old(channel_manager)@
                    &&& result matches Err(e) && e == error
                },
            },
    {
        let read = match channel_manager.take_read_stream(self.read_stream_id, self.config.id) {
            Ok(read) => read,
            Err(error) => {
                return Err(error);
            },
        };
        let read_stream = ReadStream::new(read.stream, read.capacity);
        let processor = ParallelSinkMessageProcessor::new(
            self.config.clone(),
            self.operator_fn,
            self.state_fn,
        );
        Ok(OneInExecutor::new(self.config, processor, read_stream))
    }
}

/// Connects a parallel sink: an operator with one input and without
/// outputs, whose workers merge their partial results into its state.
pub fn connect_parallel_sink<
    O: ParallelSink<T, U>,
    T,
    U,
    F: Fn(&U, &U) -> U,
    FO: Fn() -> O,
    FS: Fn() -> AppendableState<U, F>,
    R: Stream<T>,
>(
    graph: &mut Graph,
    operator_fn: FO,
    state_fn: FS,
    config: OperatorConfig,
    read_stream: &R,
) -> (runner: ParallelSinkRunner<FO, FS, T>)
    requires
        old(graph).wf(),
        old(graph).can_issue(1),
    ensures
        final(graph).wf(),
        final(graph)@ == old(graph)@.connect(
            Topology::ParallelSink,
            config@,
            seq![read_stream.stream_id()],
        ),
        runner.config == with_id(config, old(graph)@.next_operator_id()),
        runner.operator_fn == operator_fn,
        runner.state_fn == state_fn,
        runner.read_stream_id == read_stream.stream_id(),
{
    let ghost before = graph@;
    let mut config = config;
    config.id = graph.issue_id();

    let mut read_stream_ids: Vec<StreamId> = Vec::new();
    read_stream_ids.push(read_stream.id());

    proof {
        assert(read_stream_ids@ =~= seq![read_stream.stream_id()]);
        assert(Seq::<StreamId>::empty() =~= before.next_outputs(0));
        lemma_issued_are_unused(before, 0);
    }
    graph.add_operator(&config, Topology::ParallelSink, read_stream_ids, Vec::new());

    ParallelSinkRunner {
        config,
        operator_fn,
        state_fn,
        read_stream_id: read_stream.id(),
        phantom: PhantomData,
    }
}

/// Brings up an operator with one input and one output.
pub struct OneInOneOutRunner<FO, FS, T, U> {
    pub config: OperatorConfig,
    pub operator_fn: FO,
    pub state_fn: FS,
    pub read_stream_id: StreamId,
    pub write_stream_id: StreamId,
    pub phantom: PhantomData<(T, U)>,
}

impl<O: OneInOneOut<S, T, U>, S, T, U, FO: Fn() -> O, FS: Fn() -> S> OneInOneOutRunner<
    FO,
    FS,
    T,
    U,
> {
    /// Takes the read end of the input stream, resolves the output stream
    /// and makes the executor. The write end encodes with `codec` if the
    /// output has a reader on another node. Fails if the node has no read
    /// end of the input for this operator or it was taken before; or if the
    /// node does not write the output, or the output has a reader on
    /// another node and no codec is given: the read end is then taken all
    /// the same.
    pub fn run(
        self,
        channel_manager: &mut ChannelManager,
        codec: Option<Box<dyn PayloadCodec<U>>>,
    ) -> (result: Result<
        OneInExecutor<OneInOneOutMessageProcessor<O, S, U>, T>,
        ResolutionError,
    >)
        requires
            old(channel_manager).wf(),
            call_requires(self.operator_fn, ()),
            call_requires(self.state_fn, ()),
        ensures
            final(channel_manager).wf(),
            match old(channel_manager)@.take_result(self.read_stream_id, self.config.id) {
                Ok(read) => {
                    &&& final(channel_manager)@ == old(channel_manager)@.after_take(
                        self.read_stream_id,
                        self.config.id,
                    )
                    &&& match write_end(old(channel_manager)@, self.write_stream_id, codec) {
                        Ok(encoder) => {
                            &&& result matches Ok(executor)
                            &&& executor.config == self.config
                            &&& executor.read_stream.is_new(read.stream, read.capacity)
                            &&& executor.processor.config == self.config
                            &&& call_ensures(self.operator_fn, (), executor.processor.operator)
                            &&& call_ensures(self.state_fn, (), executor.processor.state)
                            &&& executor.processor.write_stream.is_new(self.write_stream_id)
                            &&& executor.processor.write_stream.codec() == encoder
                        },
                        Err(error) => result matches Err(e) && e == error,
                    }
                },
                Err(error) => {
                    &&& final(channel_manager)@ == old(channel_manager)@
                    &&& result matches Err(e) && e == error
                },
            },
    {
        let read = match channel_manager.take_read_stream(self.read_stream_id, self.config.id) {
            Ok(read) => read,
            Err(error) => {
                return Err(error);
            },
        };
        proof {
            lemma_writes_stay(old(channel_manager)@, self.read_stream_id, self.config.id);
        }
        let write_stream = match open_write_stream(channel_manager, self.write_stream_id, codec) {
            Ok(write_stream) => write_stream,
            Err(error) => {
                return Err(error);
            },
        };
        let read_stream = ReadStream::new(read.stream, read.capacity);
        let processor = OneInOneOutMessageProcessor::new(
            self.config.clone(),
            self.operator_fn,
            self.state_fn,
            write_stream,
        );
        Ok(OneInExecutor::new(self.config, processor, read_stream))
    }
}

/// Connects an operator with one input and one output.
pub fn connect_one_in_one_out<
    O: OneInOneOut<S, T, U>,
    S,
    T,
    U,
    FO: Fn() -> O,
    FS: Fn() -> S,
    R: Stream<T>,
>(
    graph: &mut Graph,
    operator_fn: FO,
    state_fn: FS,
    config: OperatorConfig,
    read_stream: &R,
) -> (connected: (OperatorStream<U>, OneInOneOutRunner<FO, FS, T, U>))
    requires
        old(graph).wf(),
        old(graph).can_issue(2),
    ensures
        final(graph).wf(),
        final(graph)@ == old(graph)@.connect(
            Topology::OneInOneOut,
            config@,
            seq![read_stream.stream_id()],
        ),
        connected.0.stream_id() == old(graph)@.next_outputs(1)[0],
        !old(graph)@.has_stream(connected.0.stream_id()),
        final(graph)@.has_stream(connected.0.stream_id()),
        final(graph)@.has_unique_producer(connected.0.stream_id()),
        connected.1.config == with_id(config, old(graph)@.next_operator_id()),
        connected.1.operator_fn == operator_fn,
        connected.1.state_fn == state_fn,
        connected.1.read_stream_id == read_stream.stream_id(),
        connected.1.write_stream_id == connected.0.stream_id(),
{
    let ghost before = graph@;
    let mut config = config;
    config.id = graph.issue_id();
    let write_stream = OperatorStream::new(graph);

    let mut read_stream_ids: Vec<StreamId> = Vec::new();
    read_stream_ids.push(read_stream.id());
    let mut write_stream_ids: Vec<StreamId> = Vec::new();
    write_stream_ids.push(write_stream.id());

    proof {
        assert(graph@ == before.issue(2));
        assert(read_stream_ids@ =~= seq![read_stream.stream_id()]);
        assert(write_stream_ids@ =~= before.next_outputs(1));
        lemma_issued_are_unused(before, 1);
        lemma_connect_fresh(before, Topology::OneInOneOut, config@, read_stream_ids@);
    }
    graph.add_operator(&config, Topology::OneInOneOut, read_stream_ids, write_stream_ids);

    let runner = OneInOneOutRunner {
        config,
        operator_fn,
        state_fn,
        read_stream_id: read_stream.id(),
        write_stream_id: write_stream.id(),
        phantom: PhantomData,
    };
    (write_stream, runner)
}

/// Brings up an operator with one input, one output and several workers.
pub struct ParallelOneInOneOutRunner<FO, FS, T, U> {
    pub config: OperatorConfig,
    pub operator_fn: FO,
    pub state_fn: FS,
    pub read_stream_id: StreamId,
    pub write_stream_id: StreamId,
    pub phantom: PhantomData<(T, U)>,
}

impl<
    O: ParallelOneInOneOut<T, U, V>,
    T,
    U,
    V,
    F: Fn(&V, &V) -> V,
    FO: Fn() -> O,
    FS: Fn() -> AppendableState<V, F>,
> ParallelOneInOneOutRunner<FO, FS, T, U> {
    /// Takes the read end of the input stream, resolves the output stream
    /// and makes the executor. The write end encodes with `codec` if the
    /// output has a reader on another node. Fails if the node has no read
    /// end of the input for this operator or it was taken before; or if the
    /// node does not write the output, or the output has a reader on
    /// another node and no codec is given: the read end is then taken all
    /// the same.
    pub fn run(
        self,
        channel_manager: &mut ChannelManager,
        codec: Option<Box<dyn PayloadCodec<U>>>,
    ) -> (result: Result<
        OneInExecutor<ParallelOneInOneOutMessageProcessor<O, U, V, F>, T>,
        ResolutionError,
    >)
        requires
            old(channel_manager).wf(),
            call_requires(self.operator_fn, ()),
            call_requires(self.state_fn, ()),
        ensures
            final(channel_manager).wf(),
            match old(channel_manager)@.take_result(self.read_stream_id, self.config.id) {
                Ok(read) => {
                    &&& final(channel_manager)@ == old(channel_manager)@.after_take(
                        self.read_stream_id,
                        self.config.id,
                    )
                    &&& match write_end(old(channel_manager)@, self.write_stream_id, codec) {
                        Ok(encoder) => {
                            &&& result matches Ok(executor)
                            &&& executor.config == self.config
                            &&& executor.read_stream.is_new(read.stream, read.capacity)
                            &&& executor.processor.config == self.config
                            &&& call_ensures(self.operator_fn, (), executor.processor.operator)
                            &&& call_ensures(self.state_fn, (), executor.processor.state)
                            &&& executor.processor.write_stream.is_new(self.write_stream_id)
                            &&& executor.processor.write_stream.codec() == encoder
                            &&& fresh_pool(executor.processor.pool@, self.config)
                        },
                        Err(error) => result matches Err(e) && e == error,
                    }
                },
                Err(error) => {
                    &&& final(channel_manager)@ == old(channel_manager)@
                    &&& result matches Err(e) && e == error
                },
            },
    {
        let read = match channel_manager.take_read_stream(self.read_stream_id, self.config.id) {
            Ok(read) => read,
            Err(error) => {
                return Err(error);
            },
        };
        proof {
            lemma_writes_stay(old(channel_manager)@, self.read_stream_id, self.config.id);
        }
        let write_stream = match open_write_stream(channel_manager, self.write_stream_id, codec) {
            Ok(write_stream) => write_stream,
            Err(error) => {
                return Err(error);
            },
        };
        let read_stream = ReadStream::new(read.stream, read.capacity);
        let processor = ParallelOneInOneOutMessageProcessor::new(
            self.config.clone(),
            self.operator_fn,
            self.state_fn,
            write_stream,
        );
        Ok(OneInExecutor::new(self.config, processor, read_stream))
    }
}

/// Connects a parallel operator with one input and one output, whose
/// workers merge their partial results into its state.
pub fn connect_parallel_only_one_in_one_out<
    O: ParallelOneInOneOut<T, U, V>,
    T,
    U,
    V,
    F: Fn(&V, &V) -> V,
    FO: Fn() -> O,
    FS: Fn() -> AppendableState<V, F>,
    R: Stream<T>,
>(
    graph: &mut Graph,
    operator_fn: FO,
    state_fn: FS,
    config: OperatorConfig,
    read_stream: &R,
) -> (connected: (OperatorStream<U>, ParallelOneInOneOutRunner<FO, FS, T, U>))
    requires
        old(graph).wf(),
        old(graph).can_issue(2),
    ensures
        final(graph).wf(),
        final(graph)@ == old(graph)@.connect(
            Topology::ParallelOneInOneOut,
            config@,
            seq![read_stream.stream_id()],
        ),
        connected.0.stream_id() == old(graph)@.next_outputs(1)[0],
        !old(graph)@.has_stream(connected.0.stream_id()),
        final(graph)@.has_stream(connected.0.stream_id()),
        final(graph)@.has_unique_producer(connected.0.stream_id()),
        connected.1.config == with_id(config, old(graph)@.next_operator_id()),
        connected.1.operator_fn == operator_fn,
        connected.1.state_fn == state_fn,
        connected.1.read_stream_id == read_stream.stream_id(),
        connected.1.write_stream_id == connected.0.stream_id(),
{
    let ghost before = graph@;
    let mut config = config;
    config.id = graph.issue_id();
    let write_stream = OperatorStream::new(graph);

    let mut read_stream_ids: Vec<StreamId> = Vec::new();
    read_stream_ids.push(read_stream.id());
    let mut write_stream_ids: Vec<StreamId> = Vec::new();
    write_stream_ids.push(write_stream.id());

    proof {
        assert(graph@ == before.issue(2));
        assert(read_stream_ids@ =~= seq![read_stream.stream_id()]);
        assert(write_stream_ids@ =~= before.next_outputs(1));
        lemma_issued_are_unused(before, 1);
        lemma_connect_fresh(before, Topology::ParallelOneInOneOut, config@, read_stream_ids@);
    }
    graph.add_operator(&config, Topology::ParallelOneInOneOut, read_stream_ids, write_stream_ids);

    let runner = ParallelOneInOneOutRunner {
        config,
        operator_fn,
        state_fn,
        read_stream_id: read_stream.id(),
        write_stream_id: write_stream.id(),
        phantom: PhantomData,
    };
    (write_stream, runner)
}

/// Brings up an operator with two inputs and one output.
pub struct TwoInOneOutRunner<FO, FS, T, U, V> {
    pub config: OperatorConfig,
    pub operator_fn: FO,
    pub state_fn: FS,
    pub left_read_stream_id: StreamId,
    pub right_read_stream_id: StreamId,
    pub write_stream_id: StreamId,
    pub phantom: PhantomData<(T, U, V)>,
}

impl<O: TwoInOneOut<S, T, U, V>, S, T, U, V, FO: Fn() -> O, FS: Fn() -> S> TwoInOneOutRunner<
    FO,
    FS,
    T,
    U,
    V,
> {
    /// Takes the read end of the left input, then that of the right input,
    /// resolves the output stream and makes the executor. The write end
    /// encodes with `codec` if the output has a reader on another node, and
    /// a codec must then be given. Fails at the first of these that cannot
    /// be had; the read ends that were taken before stay taken. An operator
    /// that reads one stream on both inputs cannot be brought up: the
    /// stream has one read end for it.
    pub fn run(
        self,
        channel_manager: &mut ChannelManager,
        codec: Option<Box<dyn PayloadCodec<V>>>,
    ) -> (result: Result<
        TwoInOneOutExecutor<O, S, T, U, V>,
        ResolutionError,
    >)
        requires
            old(channel_manager).wf(),
            call_requires(self.operator_fn, ()),
            call_requires(self.state_fn, ()),
        ensures
            final(channel_manager).wf(),
            match old(channel_manager)@.take_result(self.left_read_stream_id, self.config.id) {
                Ok(left) => {
                    let taken = old(channel_manager)@.after_take(
                        self.left_read_stream_id,
                        self.config.id,
                    );
                    match taken.take_result(self.right_read_stream_id, self.config.id) {
                        Ok(right) => {
                            &&& final(channel_manager)@ == taken.after_take(
                                self.right_read_stream_id,
                                self.config.id,
                            )
                            &&& match write_end(old(channel_manager)@, self.write_stream_id, codec) {
                                Ok(encoder) => {
                                    &&& result matches Ok(executor)
                                    &&& executor.config == self.config
                                    &&& call_ensures(self.operator_fn, (), executor.operator)
                                    &&& call_ensures(self.state_fn, (), executor.state)
                                    &&& executor.left_read_stream.is_new(
                                        left.stream,
                                        left.capacity,
                                    )
                                    &&& executor.right_read_stream.is_new(
                                        right.stream,
                                        right.capacity,
                                    )
                                    &&& executor.write_stream.is_new(self.write_stream_id)
                    &&& executor.write_stream.codec() == encoder
                                    &&& executor.progress@ == ProgressView::start()
                                    &&& executor.turn == Side::Left
                                },
                                Err(error) => result matches Err(e) && e == error,
                            }
                        },
                        Err(error) => {
                            &&& final(channel_manager)@ == taken
                            &&& result matches Err(e) && e == error
                        },
                    }
                },
                Err(error) => {
                    &&& final(channel_manager)@ == old(channel_manager)@
                    &&& result matches Err(e) && e == error
                },
            },
    {
        let left = match channel_manager.take_read_stream(
            self.left_read_stream_id,
            self.config.id,
        ) {
            Ok(left) => left,
            Err(error) => {
                return Err(error);
            },
        };
        let ghost taken = channel_manager@;
        let right = match channel_manager.take_read_stream(
            self.right_read_stream_id,
            self.config.id,
        ) {
            Ok(right) => right,
            Err(error) => {
                return Err(error);
            },
        };
        proof {
            lemma_writes_stay(old(channel_manager)@, self.left_read_stream_id, self.config.id);
            lemma_writes_stay(taken, self.right_read_stream_id, self.config.id);
        }
        let write_stream = match open_write_stream(channel_manager, self.write_stream_id, codec) {
            Ok(write_stream) => write_stream,
            Err(error) => {
                return Err(error);
            },
        };
        let left_read_stream = ReadStream::new(left.stream, left.capacity);
        let right_read_stream = ReadStream::new(right.stream, right.capacity);
        Ok(
            TwoInOneOutExecutor::new(
                self.config,
                self.operator_fn,
                self.state_fn,
                left_read_stream,
                right_read_stream,
                write_stream,
            ),
        )
    }
}

/// Connects an operator with two inputs and one output.
pub fn connect_two_in_one_out<
    O: TwoInOneOut<S, T, U, V>,
    S,
    T,
    U,
    V,
    FO: Fn() -> O,
    FS: Fn() -> S,
    L: Stream<T>,
    R: Stream<U>,
>(
    graph: &mut Graph,
    operator_fn: FO,
    state_fn: FS,
    config: OperatorConfig,
    left_read_stream: &L,
    right_read_stream: &R,
) -> (connected: (OperatorStream<V>, TwoInOneOutRunner<FO, FS, T, U, V>))
    requires
        old(graph).wf(),
        old(graph).can_issue(2),
    ensures
        final(graph).wf(),
        final(graph)@ == old(graph)@.connect(
            Topology::TwoInOneOut,
            config@,
            seq![left_read_stream.stream_id(), right_read_stream.stream_id()],
        ),
        connected.0.stream_id() == old(graph)@.next_outputs(1)[0],
        !old(graph)@.has_stream(connected.0.stream_id()),
        final(graph)@.has_stream(connected.0.stream_id()),
        final(graph)@.has_unique_producer(connected.0.stream_id()),
        connected.1.config == with_id(config, old(graph)@.next_operator_id()),
        connected.1.operator_fn == operator_fn,
        connected.1.state_fn == state_fn,
        connected.1.left_read_stream_id == left_read_stream.stream_id(),
        connected.1.right_read_stream_id == right_read_stream.stream_id(),
        connected.1.write_stream_id == connected.0.stream_id(),
{
    let ghost before = graph@;
    let mut config = config;
    config.id = graph.issue_id();
    let write_stream = OperatorStream::new(graph);

    let mut read_stream_ids: Vec<StreamId> = Vec::new();
    read_stream_ids.push(left_read_stream.id());
    read_stream_ids.push(right_read_stream.id());
    let mut write_stream_ids: Vec<StreamId> = Vec::new();
    write_stream_ids.push(write_stream.id());

    proof {
        assert(graph@ == before.issue(2));
        assert(read_stream_ids@ =~= seq![
            left_read_stream.stream_id(),
            right_read_stream.stream_id(),
        ]);
        assert(write_stream_ids@ =~= before.next_outputs(1));
        lemma_issued_are_unused(before, 1);
        lemma_connect_fresh(before, Topology::TwoInOneOut, config@, read_stream_ids@);
    }
    graph.add_operator(&config, Topology::TwoInOneOut, read_stream_ids, write_stream_ids);

    let runner = TwoInOneOutRunner {
        config,
        operator_fn,
        state_fn,
        left_read_stream_id: left_read_stream.id(),
        right_read_stream_id: right_read_stream.id(),
        write_stream_id: write_stream.id(),
        phantom: PhantomData,
    };
    (write_stream, runner)
}

/// Brings up an operator with one input and two outputs.
pub struct OneInTwoOutRunner<FO, FS, T, U, V> {
    pub config: OperatorConfig,
    pub operator_fn: FO,
    pub state_fn: FS,
    pub read_stream_id: StreamId,
    pub left_write_stream_id: StreamId,
    pub right_write_stream_id: StreamId,
    pub phantom: PhantomData<(T, U, V)>,
}

impl<O: OneInTwoOut<S, T, U, V>, S, T, U, V, FO: Fn() -> O, FS: Fn() -> S> OneInTwoOutRunner<
    FO,
    FS,
    T,
    U,
    V,
> {
    /// Takes the read end of the input stream, resolves the left output and
    /// then the right one, and makes the executor. Each write end encodes
    /// with its codec if its output has a reader on another node, and a
    /// codec must then be given. Fails at the first of these that cannot be
    /// had; the read end, once taken, stays taken.
    pub fn run(
        self,
        channel_manager: &mut ChannelManager,
        left_codec: Option<Box<dyn PayloadCodec<U>>>,
        right_codec: Option<Box<dyn PayloadCodec<V>>>,
    ) -> (result: Result<
        OneInTwoOutExecutor<O, S, T, U, V>,
        ResolutionError,
    >)
        requires
            old(channel_manager).wf(),
            call_requires(self.operator_fn, ()),
            call_requires(self.state_fn, ()),
        ensures
            final(channel_manager).wf(),
            match old(channel_manager)@.take_result(self.read_stream_id, self.config.id) {
                Ok(read) => {
                    &&& final(channel_manager)@ == old(channel_manager)@.after_take(
                        self.read_stream_id,
                        self.config.id,
                    )
                    &&& match write_end(
                        old(channel_manager)@,
                        self.left_write_stream_id,
                        left_codec,
                    ) {
                        Ok(left_encoder) => match write_end(
                            old(channel_manager)@,
                            self.right_write_stream_id,
                            right_codec,
                        ) {
                            Ok(right_encoder) => {
                                &&& result matches Ok(executor)
                                &&& executor.config == self.config
                                &&& call_ensures(self.operator_fn, (), executor.operator)
                                &&& call_ensures(self.state_fn, (), executor.state)
                                &&& executor.read_stream.is_new(read.stream, read.capacity)
                                &&& executor.left_write_stream.is_new(self.left_write_stream_id)
                                &&& executor.left_write_stream.codec() == left_encoder
                                &&& executor.right_write_stream.is_new(
                                    self.right_write_stream_id,
                                )
                                &&& executor.right_write_stream.codec() == right_encoder
                            },
                            Err(error) => result matches Err(e) && e == error,
                        },
                        Err(error) => result matches Err(e) && e == error,
                    }
                },
                Err(error) => {
                    &&& final(channel_manager)@ == old(channel_manager)@
                    &&& result matches Err(e) && e == error
                },
            },
    {
        let read = match channel_manager.take_read_stream(self.read_stream_id, self.config.id) {
            Ok(read) => read,
            Err(error) => {
                return Err(error);
            },
        };
        proof {
            lemma_writes_stay(old(channel_manager)@, self.read_stream_id, self.config.id);
        }
        let left_write_stream = match open_write_stream(
            channel_manager,
            self.left_write_stream_id,
            left_codec,
        ) {
            Ok(left_write_stream) => left_write_stream,
            Err(error) => {
                return Err(error);
            },
        };
        let right_write_stream = match open_write_stream(
            channel_manager,
            self.right_write_stream_id,
            right_codec,
        ) {
            Ok(right_write_stream) => right_write_stream,
            Err(error) => {
                return Err(error);
            },
        };
        let read_stream = ReadStream::new(read.stream, read.capacity);
        Ok(
            OneInTwoOutExecutor::new(
                self.config,
                self.operator_fn,
                self.state_fn,
                read_stream,
                left_write_stream,
                right_write_stream,
            ),
        )
    }
}

/// Connects an operator with one input and two outputs.
pub fn connect_one_in_two_out<
    O: OneInTwoOut<S, T, U, V>,
    S,
    T,
    U,
    V,
    FO: Fn() -> O,
    FS: Fn() -> S,
    R: Stream<T>,
>(
    graph: &mut Graph,
    operator_fn: FO,
    state_fn: FS,
    config: OperatorConfig,
    read_stream: &R,
) -> (connected: (OperatorStream<U>, OperatorStream<V>, OneInTwoOutRunner<FO, FS, T, U, V>))
    requires
        old(graph).wf(),
        old(graph).can_issue(3),
    ensures
        final(graph).wf(),
        final(graph)@ == old(graph)@.connect(
            Topology::OneInTwoOut,
            config@,
            seq![read_stream.stream_id()],
        ),
        connected.0.stream_id() == old(graph)@.next_outputs(2)[0],
        connected.1.stream_id() == old(graph)@.next_outputs(2)[1],
        connected.0.stream_id() != connected.1.stream_id(),
        !old(graph)@.has_stream(connected.0.stream_id()),
        !old(graph)@.has_stream(connected.1.stream_id()),
        final(graph)@.has_stream(connected.0.stream_id()),
        final(graph)@.has_stream(connected.1.stream_id()),
        final(graph)@.has_unique_producer(connected.0.stream_id()),
        final(graph)@.has_unique_producer(connected.1.stream_id()),
        connected.2.config == with_id(config, old(graph)@.next_operator_id()),
        connected.2.operator_fn == operator_fn,
        connected.2.state_fn == state_fn,
        connected.2.read_stream_id == read_stream.stream_id(),
        connected.2.left_write_stream_id == connected.0.stream_id(),
        connected.2.right_write_stream_id == connected.1.stream_id(),
{
    let ghost before = graph@;
    let mut config = config;
    config.id = graph.issue_id();
    let left_write_stream = OperatorStream::new(graph);
    let right_write_stream = OperatorStream::new(graph);

    let mut read_stream_ids: Vec<StreamId> = Vec::new();
    read_stream_ids.push(read_stream.id());
    let mut write_stream_ids: Vec<StreamId> = Vec::new();
    write_stream_ids.push(left_write_stream.id());
    write_stream_ids.push(right_write_stream.id());

    proof {
        assert(graph@ == before.issue(3));
        assert(read_stream_ids@ =~= seq![read_stream.stream_id()]);
        assert(write_stream_ids@ =~= before.next_outputs(2));
        lemma_issued_are_unused(before, 2);
        lemma_connect_fresh(before, Topology::OneInTwoOut, config@, read_stream_ids@);
        assert(before.next_outputs(2)[0] != before.next_outputs(2)[1]);
    }
    graph.add_operator(&config, Topology::OneInTwoOut, read_stream_ids, write_stream_ids);

    let runner = OneInTwoOutRunner {
        config,
        operator_fn,
        state_fn,
        read_stream_id: read_stream.id(),
        left_write_stream_id: left_write_stream.id(),
        right_write_stream_id: right_write_stream.id(),
        phantom: PhantomData,
    };
    (left_write_stream, right_write_stream, runner)
}

} // verus!
