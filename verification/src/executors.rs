//! One executor per operator shape.
//!
//! An executor owns the operator, its state and the ends of its streams. A
//! call of its step takes at most one message off an input, hands a payload
//! to the operator's callback, writes what the callback returns to the
//! output, and passes progress markers on. The node calls the steps and
//! moves the messages between the streams; an executor whose step fails is
//! given up, with the error.
use crate::config::OperatorConfig;
use crate::operator::{
    CallbackError, OneInOneOut, OneInTwoOut, ParallelOneInOneOut, ParallelSink, Sink, Source,
    TwoInOneOut,
};
use crate::pool::{merge_in_order, places, DispatchPolicy, WorkerPool};
use crate::progress::{ProgressJoin, ProgressView, Side};
use crate::state::{computes, merge_all, AppendableState};
use crate::stream::{payloads, Message, ReadStream, SendError, WriteStream};
use vstd::prelude::*;

verus! {

/// Why an executor stopped.
#[derive(Debug, PartialEq, Eq)]
pub enum ExecutionError {
    /// The operator's callback failed.
    Callback(CallbackError),
    /// A message could not be sent.
    Send(SendError),
}

impl Clone for ExecutionError {
    fn clone(&self) -> (copy: Self)
        ensures
            copy == *self,
    {
        match self {
            ExecutionError::Callback(error) => ExecutionError::Callback(error.clone()),
            ExecutionError::Send(error) => ExecutionError::Send(*error),
        }
    }
}

/// What a step did.
#[derive(Clone, Copy, Debug, PartialEq, Eq, Structural)]
pub enum Step {
    /// There was no message to read.
    Idle,
    /// One message was read and handled.
    Processed,
}

/// The failure of a step in which sending ended with `result`: none if the
/// message was sent, and else the error of sending.
pub open spec fn send_failure(result: Result<(), SendError>) -> Option<ExecutionError> {
    match result {
        Ok(_) => None,
        Err(error) => Some(ExecutionError::Send(error)),
    }
}

/// Whether writing what a callback returned can turn the write stream
/// `before` into `after` and make the step fail with `failure`. The outputs
/// of a callback that succeeded are sent as payloads, first to last, up to
/// the first that cannot be sent, and the step fails if one cannot; a
/// callback that failed leaves the stream as it was, and the step fails
/// with the callback's error.
pub open spec fn delivered<U>(
    before: WriteStream<U>,
    produced: Result<Vec<U>, CallbackError>,
    after: WriteStream<U>,
    failure: Option<ExecutionError>,
) -> bool {
    match produced {
        Ok(outputs) => exists|sent: Result<(), SendError>| #[trigger]
            after.forwarded(&before, outputs@, sent) && failure == send_failure(sent),
        Err(error) => failure == Some(ExecutionError::Callback(error)) && after == before,
    }
}

/// Whether passing on a progress marker at `time` turns the write stream
/// `before` into `after` and makes the step fail with `failure`: an open
/// stream takes the marker, and a closed one takes nothing and fails the
/// step.
pub open spec fn marked<U>(
    before: WriteStream<U>,
    time: u64,
    after: WriteStream<U>,
    failure: Option<ExecutionError>,
) -> bool {
    &&& failure == closed_failure(before.is_closed())
    &&& after.accepted(
        &before,
        Message::ProgressMarker(time),
        if before.is_closed() {
            Err(SendError::Closed)
        } else {
            Ok(())
        },
    )
}

fn sent(result: Result<(), SendError>) -> (outcome: Result<(), ExecutionError>)
    ensures
        failure_of(outcome) == send_failure(result),
{
    match result {
        Ok(()) => Ok(()),
        Err(error) => Err(ExecutionError::Send(error)),
    }
}

/// The error in `result`, if it is one.
pub open spec fn failure_of<R>(result: Result<R, ExecutionError>) -> Option<ExecutionError> {
    match result {
        Ok(_) => None,
        Err(error) => Some(error),
    }
}

/// The error of a step in which sending fails if `closed` is true.
pub open spec fn closed_failure(closed: bool) -> Option<ExecutionError> {
    if closed {
        Some(ExecutionError::Send(SendError::Closed))
    } else {
        None
    }
}

/// Runs a source: once, from start to end.
#[verifier::reject_recursive_types(T)]
pub struct SourceExecutor<O, S, T> {
    pub config: OperatorConfig,
    pub operator: O,
    pub state: S,
    pub write_stream: WriteStream<T>,
    /// Whether the source was run.
    pub executed: bool,
}

impl<O: Source<S, T>, S, T> SourceExecutor<O, S, T> {
    /// An executor for the operator that `operator_fn` makes, with the state
    /// that `state_fn` makes. The source was not run.
    pub fn new<FO: Fn() -> O, FS: Fn() -> S>(
        config: OperatorConfig,
        operator_fn: FO,
        state_fn: FS,
        write_stream: WriteStream<T>,
    ) -> (executor: Self)
        requires
            call_requires(operator_fn, ()),
            call_requires(state_fn, ()),
        ensures
            executor.config == config,
            call_ensures(operator_fn, (), executor.operator),
            call_ensures(state_fn, (), executor.state),
            executor.write_stream == write_stream,
            !executor.executed,
    {
        SourceExecutor {
            config,
            operator: operator_fn(),
            state: state_fn(),
            write_stream,
            executed: false,
        }
    }

    /// Runs the source, unless it was run before. Returns whether this call
    /// ran it. The source is called once, on the operator, its state and a
    /// write end of the output with nothing pending, which is closed if the
    /// output is closed and encodes as the output does. What the source
    /// left there is then pending on the write stream, behind what was
    /// pending: a source can add to its output and close it, and nothing
    /// else. The step fails if the source does.
    pub fn execute(&mut self) -> (result: Result<bool, ExecutionError>)
        ensures
            final(self).executed,
            final(self).config == old(self).config,
            final(self).write_stream.stream_id() == old(self).write_stream.stream_id(),
            old(self).executed ==> result == Ok::<bool, ExecutionError>(false) && *final(self)
                == *old(self),
            !old(self).executed ==> {
                &&& (result == Ok::<bool, ExecutionError>(true) || failure_of(result) matches Some(
                    ExecutionError::Callback(_),
                ))
                &&& exists|sent: Seq<Message<T>>| #[trigger]
                    Self::ran(old(self).write_stream, final(self).write_stream, sent)
                &&& exists|
                    operator: &mut O,
                    state: &mut S,
                    output: &mut WriteStream<T>,
                    outcome: Result<(), CallbackError>,
                |
                    {
                        &&& mut_ref_current(operator) == old(self).operator
                        &&& mut_ref_future(operator) == final(self).operator
                        &&& mut_ref_current(state) == old(self).state
                        &&& mut_ref_future(state) == final(self).state
                        &&& mut_ref_current(output).is_new_like(old(self).write_stream)
                        &&& #[trigger] call_ensures(O::run, (operator, state, output), outcome)
                        &&& failure_of(result) == callback_failure(outcome)
                        &&& final(self).write_stream.took_over(
                            old(self).write_stream,
                            mut_ref_future(output),
                        )
                    }
            },
    {
        if self.executed {
            return Ok(false);
        }
        self.executed = true;
        let mut output = self.write_stream.fork();
        let outcome = self.operator.run(&mut self.state, &mut output);
        let ghost sent = output.pending();
        self.write_stream.take_over(output);
        proof {
            let added = if old(self).write_stream.is_closed() {
                Seq::empty()
            } else {
                sent
            };
            assert(self.write_stream.pending() =~= old(self).write_stream.pending() + added);
            assert(Self::ran(old(self).write_stream, self.write_stream, added));
        }
        match outcome {
            Ok(()) => Ok(true),
            Err(error) => Err(ExecutionError::Callback(error)),
        }
    }

    /// Whether running the source can turn its write stream `before` into
    /// `after` by sending `sent`: what was pending is still pending, with
    /// `sent` behind it, and a closed stream stays closed and gets nothing.
    pub open spec fn ran(before: WriteStream<T>, after: WriteStream<T>, sent: Seq<Message<T>>) -> bool {
        &&& after.stream_id() == before.stream_id()
        &&& after.pending() == before.pending() + sent
        &&& before.is_closed() ==> after.is_closed() && sent.len() == 0
    }
}

/// Handles the messages of an operator with one input.
pub trait OneInMessageProcessorT<T>: Sized {
    /// Whether handling `msg` may turn this processor into `after` and fail
    /// with `failure`, or succeed if that is `None`.
    spec fn handles(self, msg: Message<T>, after: Self, failure: Option<ExecutionError>) -> bool;

    /// Handles one message.
    fn process(&mut self, msg: Message<T>) -> (result: Result<(), ExecutionError>)
        ensures
            (*old(self)).handles(msg, *final(self), failure_of(result)),
    ;
}

/// Runs an operator with one input: reads its messages one by one and hands
/// each to the processor.
pub struct OneInExecutor<P, T> {
    pub config: OperatorConfig,
    pub processor: P,
    pub read_stream: ReadStream<T>,
}

impl<P: OneInMessageProcessorT<T>, T> OneInExecutor<P, T> {
    pub fn new(config: OperatorConfig, processor: P, read_stream: ReadStream<T>) -> (executor: Self)
        ensures
            executor.config == config,
            executor.processor == processor,
            executor.read_stream == read_stream,
    {
        OneInExecutor { config, processor, read_stream }
    }

    /// Reads the oldest message that was delivered, if there is one, and
    /// has the processor handle it.
    pub fn step(&mut self) -> (result: Result<Step, ExecutionError>)
        ensures
            final(self).config == old(self).config,
            final(self).read_stream.stream_id() == old(self).read_stream.stream_id(),
            final(self).read_stream.limit() == old(self).read_stream.limit(),
            old(self).read_stream.queued().len() == 0 ==> {
                &&& result == Ok::<Step, ExecutionError>(Step::Idle)
                &&& final(self).processor == old(self).processor
                &&& final(self).read_stream.queued() == old(self).read_stream.queued()
            },
            old(self).read_stream.queued().len() > 0 ==> {
                &&& final(self).read_stream.queued() == old(self).read_stream.queued().skip(1)
                &&& old(self).processor.handles(
                    old(self).read_stream.queued()[0],
                    final(self).processor,
                    failure_of(result),
                )
                &&& result is Ok ==> result == Ok::<Step, ExecutionError>(Step::Processed)
                &&& exists|processor: &mut P, outcome: Result<(), ExecutionError>|
                    {
                        &&& mut_ref_current(processor) == old(self).processor
                        &&& mut_ref_future(processor) == final(self).processor
                        &&& #[trigger] call_ensures(
                            P::process,
                            (processor, old(self).read_stream.queued()[0]),
                            outcome,
                        )
                        &&& failure_of(result) == failure_of(outcome)
                    }
            },
    {
        match self.read_stream.try_read() {
            None => Ok(Step::Idle),
            Some(msg) => {
                match self.processor.process(msg) {
                    Ok(()) => Ok(Step::Processed),
                    Err(error) => Err(error),
                }
            },
        }
    }
}

/// Handles the messages of a sink.
pub struct SinkMessageProcessor<O, S> {
    pub config: OperatorConfig,
    pub operator: O,
    pub state: S,
}

impl<O, S> SinkMessageProcessor<O, S> {
    /// A processor for the operator that `operator_fn` makes, with the state
    /// that `state_fn` makes.
    pub fn new<FO: Fn() -> O, FS: Fn() -> S>(
        config: OperatorConfig,
        operator_fn: FO,
        state_fn: FS,
    ) -> (processor: Self)
        requires
            call_requires(operator_fn, ()),
            call_requires(state_fn, ()),
        ensures
            processor.config == config,
            call_ensures(operator_fn, (), processor.operator),
            call_ensures(state_fn, (), processor.state),
    {
        SinkMessageProcessor { config, operator: operator_fn(), state: state_fn() }
    }
}

impl<O: Sink<S, T>, S, T> OneInMessageProcessorT<T> for SinkMessageProcessor<O, S> {
    /// A progress marker changes nothing. A payload goes to the callback,
    /// and the step fails if the callback does.
    open spec fn handles(self, msg: Message<T>, after: Self, failure: Option<ExecutionError>) -> bool {
        &&& after.config == self.config
        &&& match msg {
            Message::ProgressMarker(_) => after == self && failure is None,
            Message::Payload(_) => failure is None || failure matches Some(
                ExecutionError::Callback(_),
            ),
        }
    }

    fn process(&mut self, msg: Message<T>) -> (result: Result<(), ExecutionError>)
        ensures
            match msg {
                Message::ProgressMarker(_) => *final(self) == *old(self) && result is Ok,
                Message::Payload(data) => exists|
                    operator: &mut O,
                    state: &mut S,
                    outcome: Result<(), CallbackError>,
                |
                    {
                        &&& mut_ref_current(operator) == old(self).operator
                        &&& mut_ref_future(operator) == final(self).operator
                        &&& mut_ref_current(state) == old(self).state
                        &&& mut_ref_future(state) == final(self).state
                        &&& #[trigger] call_ensures(O::on_data, (operator, state, &data), outcome)
                        &&& failure_of(result) == callback_failure(outcome)
                    },
            },
    {
        match msg {
            Message::Payload(data) => match self.operator.on_data(&mut self.state, &data) {
                Ok(()) => Ok(()),
                Err(error) => Err(ExecutionError::Callback(error)),
            },
            Message::ProgressMarker(_) => Ok(()),
        }
    }
}

/// The failure of a step in which the callback returned `outcome`: none if
/// the callback succeeded, and else the callback's error.
pub open spec fn callback_failure<R>(outcome: Result<R, CallbackError>) -> Option<ExecutionError> {
    match outcome {
        Ok(_) => None,
        Err(error) => Some(ExecutionError::Callback(error)),
    }
}

/// Handles the messages of an operator with one input and one output.
#[verifier::reject_recursive_types(U)]
pub struct OneInOneOutMessageProcessor<O, S, U> {
    pub config: OperatorConfig,
    pub operator: O,
    pub state: S,
    pub write_stream: WriteStream<U>,
}

impl<O, S, U> OneInOneOutMessageProcessor<O, S, U> {
    /// A processor for the operator that `operator_fn` makes, with the state
    /// that `state_fn` makes.
    pub fn new<FO: Fn() -> O, FS: Fn() -> S>(
        config: OperatorConfig,
        operator_fn: FO,
        state_fn: FS,
        write_stream: WriteStream<U>,
    ) -> (processor: Self)
        requires
            call_requires(operator_fn, ()),
            call_requires(state_fn, ()),
        ensures
            processor.config == config,
            call_ensures(operator_fn, (), processor.operator),
            call_ensures(state_fn, (), processor.state),
            processor.write_stream == write_stream,
    {
        OneInOneOutMessageProcessor {
            config,
            operator: operator_fn(),
            state: state_fn(),
            write_stream,
        }
    }

    /// Writes what the callback returned for a payload: its outputs, in
    /// order, or nothing if it failed.
    pub fn conclude(&mut self, produced: Result<Vec<U>, CallbackError>) -> (result: Result<
        (),
        ExecutionError,
    >)
        ensures
            final(self).config == old(self).config,
            final(self).operator == old(self).operator,
            final(self).state == old(self).state,
            delivered(
                old(self).write_stream,
                produced,
                final(self).write_stream,
                failure_of(result),
            ),
    {
        match produced {
            Ok(outputs) => sent(self.write_stream.forward(outputs)),
            Err(error) => Err(ExecutionError::Callback(error)),
        }
    }
}

impl<O: OneInOneOut<S, T, U>, S, T, U> OneInMessageProcessorT<T> for OneInOneOutMessageProcessor<
    O,
    S,
    U,
> {
    /// A progress marker is passed on. A payload goes to the callback, and
    /// outputs are sent as payloads, in order; nothing else is sent.
    open spec fn handles(self, msg: Message<T>, after: Self, failure: Option<ExecutionError>) -> bool {
        &&& after.config == self.config
        &&& match msg {
            Message::ProgressMarker(time) => {
                &&& after.operator == self.operator
                &&& after.state == self.state
                &&& marked(self.write_stream, time, after.write_stream, failure)
            },
            Message::Payload(_) => exists|outputs: Seq<U>|
                {
                    &&& #[trigger] after.write_stream.follows(&self.write_stream, payloads(outputs))
                    &&& self.write_stream.is_closed() ==> outputs.len() == 0
                },
        }
    }

    /// Handles one message. A payload goes to the callback, once, with the
    /// operator and its state; what the callback returns is written as
    /// [`OneInOneOutMessageProcessor::conclude`] writes it.
    fn process(&mut self, msg: Message<T>) -> (result: Result<(), ExecutionError>)
        ensures
            match msg {
                Message::ProgressMarker(_) => true,
                Message::Payload(data) => exists|
                    operator: &mut O,
                    state: &mut S,
                    produced: Result<Vec<U>, CallbackError>,
                |
                    {
                        &&& mut_ref_current(operator) == old(self).operator
                        &&& mut_ref_future(operator) == final(self).operator
                        &&& mut_ref_current(state) == old(self).state
                        &&& mut_ref_future(state) == final(self).state
                        &&& #[trigger] call_ensures(O::on_data, (operator, state, &data), produced)
                        &&& delivered(
                            old(self).write_stream,
                            produced,
                            final(self).write_stream,
                            failure_of(result),
                        )
                    },
            },
    {
        match msg {
            Message::Payload(data) => {
                let produced = self.operator.on_data(&mut self.state, &data);
                let ghost before = self.write_stream;
                let ghost returned = produced;
                let result = self.conclude(produced);
                proof {
                    lemma_payloads_follow(self.write_stream, before, returned, failure_of(result));
                }
                result
            },
            Message::ProgressMarker(time) => {
                let result = sent(self.write_stream.forward_marker(time));
                result
            },
        }
    }
}

/// The number of workers that `config` asks for: the number it names, or
/// one if it names none.
pub open spec fn workers_of(config: OperatorConfig) -> usize {
    match config.num_workers {
        Some(n) => n,
        None => 1,
    }
}

fn pool_for<U>(config: &OperatorConfig) -> (pool: WorkerPool<U>)
    ensures
        pool@.wf(),
        pool@.policy == DispatchPolicy::RoundRobin,
        pool@.cursor == 0,
        pool@.waiting.len() == if workers_of(*config) == 0 {
            1
        } else {
            workers_of(*config) as int
        },
        forall|w: int| 0 <= w < pool@.waiting.len() ==> (#[trigger] pool@.waiting[w]).len() == 0,
{
    let workers = match config.num_workers {
        Some(n) => n,
        None => 1,
    };
    WorkerPool::new(workers, DispatchPolicy::RoundRobin)
}

/// Handles the messages of a sink with several workers.
pub struct ParallelSinkMessageProcessor<O, U, F> {
    pub config: OperatorConfig,
    pub operator: O,
    pub state: AppendableState<U, F>,
    pub pool: WorkerPool<U>,
}

impl<O, U, F: Fn(&U, &U) -> U> ParallelSinkMessageProcessor<O, U, F> {
    /// A processor for the operator that `operator_fn` makes, with the state
    /// that `state_fn` makes and as many workers as `config` asks for. The
    /// workers take turns.
    pub fn new<FO: Fn() -> O, FS: Fn() -> AppendableState<U, F>>(
        config: OperatorConfig,
        operator_fn: FO,
        state_fn: FS,
    ) -> (processor: Self)
        requires
            call_requires(operator_fn, ()),
            call_requires(state_fn, ()),
        ensures
            processor.config == config,
            call_ensures(operator_fn, (), processor.operator),
            call_ensures(state_fn, (), processor.state),
            processor.pool@.policy == DispatchPolicy::RoundRobin,
            processor.pool@.cursor == 0,
            processor.pool@.waiting.len() == if workers_of(config) == 0 {
                1
            } else {
                workers_of(config) as int
            },
            forall|w: int|
                0 <= w < processor.pool@.waiting.len() ==> (
                #[trigger] processor.pool@.waiting[w]).len() == 0,
    {
        let pool = pool_for(&config);
        ParallelSinkMessageProcessor { config, operator: operator_fn(), state: state_fn(), pool }
    }

    /// Keeps what a worker returned for a payload: the next worker's
    /// partial result waits to be merged, unless the callback failed.
    pub fn conclude(&mut self, produced: Result<U, CallbackError>) -> (result: Result<
        (),
        ExecutionError,
    >)
        ensures
            final(self).config == old(self).config,
            final(self).operator == old(self).operator,
            final(self).state == old(self).state,
            match produced {
                Ok(partial) => {
                    &&& result is Ok
                    &&& final(self).pool@ == old(self).pool@.after_assign().after_finish(
                        old(self).pool@.assigned(),
                        partial,
                    )
                },
                Err(error) => {
                    &&& failure_of(result) == Some(ExecutionError::Callback(error))
                    &&& final(self).pool == old(self).pool
                },
            },
    {
        match produced {
            Ok(partial) => {
                let worker = self.pool.assign();
                self.pool.finish(worker, partial);
                Ok(())
            },
            Err(error) => Err(ExecutionError::Callback(error)),
        }
    }

    /// Merges the oldest waiting result of `worker` into the state. Returns
    /// whether there was one.
    pub fn complete(&mut self, worker: usize) -> (merged: bool)
        requires
            old(self).state.wf(),
        ensures
            final(self).config == old(self).config,
            final(self).operator == old(self).operator,
            final(self).state.merge() == old(self).state.merge(),
            final(self).pool@ == old(self).pool@.after_complete(worker as int),
            match old(self).pool@.next_of(worker as int) {
                Some(partial) => {
                    &&& merged
                    &&& call_ensures(
                        old(self).state.merge(),
                        (&old(self).state.value(), &partial),
                        final(self).state.value(),
                    )
                    &&& forall|combine: spec_fn(U, U) -> U|
                        computes(old(self).state.merge(), combine) ==> final(self).state.value()
                            == #[trigger] combine(old(self).state.value(), partial)
                },
                None => !merged && final(self).state == old(self).state,
            },
    {
        match self.pool.complete(worker) {
            Some(partial) => {
                self.state.append(partial);
                true
            },
            None => false,
        }
    }

    /// Merges waiting results into the state in the order `schedule`: for
    /// each entry the oldest waiting result of the worker that it names, if
    /// the worker has one. Returns how many results were merged.
    pub fn complete_in_order(&mut self, schedule: &Vec<usize>) -> (merged: usize)
        requires
            old(self).state.wf(),
        ensures
            final(self).config == old(self).config,
            final(self).operator == old(self).operator,
            final(self).state.merge() == old(self).state.merge(),
            final(self).pool@ == old(self).pool@.after_schedule(places(schedule@)),
            merged == old(self).pool@.merged_by(places(schedule@)).len(),
            forall|combine: spec_fn(U, U) -> U|
                computes(old(self).state.merge(), combine) ==> final(self).state.value()
                    == #[trigger] merge_all(
                    combine,
                    old(self).state.value(),
                    old(self).pool@.merged_by(places(schedule@)),
                ),
    {
        merge_in_order(&mut self.state, &mut self.pool, schedule)
    }
}

impl<O: ParallelSink<T, U>, T, U, F: Fn(&U, &U) -> U> OneInMessageProcessorT<
    T,
> for ParallelSinkMessageProcessor<O, U, F> {
    /// A progress marker changes nothing. A payload goes to the callback,
    /// once; the partial result that the callback returns is the next
    /// worker's and waits to be merged, and the step fails if the callback
    /// does. The state does not change.
    open spec fn handles(self, msg: Message<T>, after: Self, failure: Option<ExecutionError>) -> bool {
        &&& after.config == self.config
        &&& after.operator == self.operator
        &&& after.state == self.state
        &&& match msg {
            Message::ProgressMarker(_) => after.pool == self.pool && failure is None,
            Message::Payload(data) => exists|produced: Result<U, CallbackError>|
                {
                    &&& #[trigger] call_ensures(O::on_data, (&self.operator, &data), produced)
                    &&& match produced {
                        Ok(partial) => {
                            &&& failure is None
                            &&& after.pool@ == self.pool@.after_assign().after_finish(
                                self.pool@.assigned(),
                                partial,
                            )
                        },
                        Err(error) => {
                            &&& failure == Some(ExecutionError::Callback(error))
                            &&& after.pool == self.pool
                        },
                    }
                },
        }
    }

    fn process(&mut self, msg: Message<T>) -> (result: Result<(), ExecutionError>) {
        match msg {
            Message::Payload(data) => {
                let produced = self.operator.on_data(&data);
                self.conclude(produced)
            },
            Message::ProgressMarker(_) => Ok(()),
        }
    }
}

/// Handles the messages of an operator with one input, one output and
/// several workers.
#[verifier::reject_recursive_types(U)]
pub struct ParallelOneInOneOutMessageProcessor<O, U, V, F> {
    pub config: OperatorConfig,
    pub operator: O,
    pub state: AppendableState<V, F>,
    pub pool: WorkerPool<V>,
    pub write_stream: WriteStream<U>,
}

impl<O, U, V, F: Fn(&V, &V) -> V> ParallelOneInOneOutMessageProcessor<O, U, V, F> {
    /// A processor for the operator that `operator_fn` makes, with the state
    /// that `state_fn` makes and as many workers as `config` asks for. The
    /// workers take turns.
    pub fn new<FO: Fn() -> O, FS: Fn() -> AppendableState<V, F>>(
        config: OperatorConfig,
        operator_fn: FO,
        state_fn: FS,
        write_stream: WriteStream<U>,
    ) -> (processor: Self)
        requires
            call_requires(operator_fn, ()),
            call_requires(state_fn, ()),
        ensures
            processor.config == config,
            call_ensures(operator_fn, (), processor.operator),
            call_ensures(state_fn, (), processor.state),
            processor.write_stream == write_stream,
            processor.pool@.policy == DispatchPolicy::RoundRobin,
            processor.pool@.cursor == 0,
            processor.pool@.waiting.len() == if workers_of(config) == 0 {
                1
            } else {
                workers_of(config) as int
            },
            forall|w: int|
                0 <= w < processor.pool@.waiting.len() ==> (
                #[trigger] processor.pool@.waiting[w]).len() == 0,
    {
        let pool = pool_for(&config);
        ParallelOneInOneOutMessageProcessor {
            config,
            operator: operator_fn(),
            state: state_fn(),
            pool,
            write_stream,
        }
    }

    /// Keeps and writes what a worker returned for a payload: the next
    /// worker's partial result waits to be merged, and its outputs are sent
    /// at once, in order. A callback that failed leaves everything as it
    /// was.
    pub fn conclude(&mut self, produced: Result<(Vec<U>, V), CallbackError>) -> (result: Result<
        (),
        ExecutionError,
    >)
        ensures
            final(self).config == old(self).config,
            final(self).operator == old(self).operator,
            final(self).state == old(self).state,
            kept_and_delivered(
                old(self).pool,
                old(self).write_stream,
                produced,
                final(self).pool,
                final(self).write_stream,
                failure_of(result),
            ),
    {
        match produced {
            Ok((outputs, partial)) => {
                let worker = self.pool.assign();
                self.pool.finish(worker, partial);
                let ghost written = outputs;
                let forwarded = self.write_stream.forward(outputs);
                let result = sent(forwarded);
                proof {
                    assert(self.write_stream.forwarded(
                        &old(self).write_stream,
                        written@,
                        forwarded,
                    ));
                }
                result
            },
            Err(error) => Err(ExecutionError::Callback(error)),
        }
    }

    /// Merges the oldest waiting result of `worker` into the state. Returns
    /// whether there was one.
    pub fn complete(&mut self, worker: usize) -> (merged: bool)
        requires
            old(self).state.wf(),
        ensures
            final(self).config == old(self).config,
            final(self).operator == old(self).operator,
            final(self).write_stream == old(self).write_stream,
            final(self).state.merge() == old(self).state.merge(),
            final(self).pool@ == old(self).pool@.after_complete(worker as int),
            match old(self).pool@.next_of(worker as int) {
                Some(partial) => {
                    &&& merged
                    &&& call_ensures(
                        old(self).state.merge(),
                        (&old(self).state.value(), &partial),
                        final(self).state.value(),
                    )
                    &&& forall|combine: spec_fn(V, V) -> V|
                        computes(old(self).state.merge(), combine) ==> final(self).state.value()
                            == #[trigger] combine(old(self).state.value(), partial)
                },
                None => !merged && final(self).state == old(self).state,
            },
    {
        match self.pool.complete(worker) {
            Some(partial) => {
                self.state.append(partial);
                true
            },
            None => false,
        }
    }

    /// Merges waiting results into the state in the order `schedule`: for
    /// each entry the oldest waiting result of the worker that it names, if
    /// the worker has one. Returns how many results were merged.
    pub fn complete_in_order(&mut self, schedule: &Vec<usize>) -> (merged: usize)
        requires
            old(self).state.wf(),
        ensures
            final(self).config == old(self).config,
            final(self).operator == old(self).operator,
            final(self).write_stream == old(self).write_stream,
            final(self).state.merge() == old(self).state.merge(),
            final(self).pool@ == old(self).pool@.after_schedule(places(schedule@)),
            merged == old(self).pool@.merged_by(places(schedule@)).len(),
            forall|combine: spec_fn(V, V) -> V|
                computes(old(self).state.merge(), combine) ==> final(self).state.value()
                    == #[trigger] merge_all(
                    combine,
                    old(self).state.value(),
                    old(self).pool@.merged_by(places(schedule@)),
                ),
    {
        merge_in_order(&mut self.state, &mut self.pool, schedule)
    }
}

impl<O: ParallelOneInOneOut<T, U, V>, T, U, V, F: Fn(&V, &V) -> V> OneInMessageProcessorT<
    T,
> for ParallelOneInOneOutMessageProcessor<O, U, V, F> {
    /// A progress marker is passed on. A payload goes to the callback,
    /// once; the partial result that the callback returns is the next
    /// worker's and waits to be merged, and the outputs that it returns are
    /// sent at once, in order. The step fails if the callback does or if an
    /// output cannot be sent. The state does not change.
    open spec fn handles(self, msg: Message<T>, after: Self, failure: Option<ExecutionError>) -> bool {
        &&& after.config == self.config
        &&& after.operator == self.operator
        &&& after.state == self.state
        &&& match msg {
            Message::ProgressMarker(time) => {
                &&& after.pool == self.pool
                &&& marked(self.write_stream, time, after.write_stream, failure)
            },
            Message::Payload(data) => exists|produced: Result<(Vec<U>, V), CallbackError>|
                {
                    &&& #[trigger] call_ensures(O::on_data, (&self.operator, &data), produced)
                    &&& kept_and_delivered(
                        self.pool,
                        self.write_stream,
                        produced,
                        after.pool,
                        after.write_stream,
                        failure,
                    )
                },
        }
    }

    fn process(&mut self, msg: Message<T>) -> (result: Result<(), ExecutionError>) {
        match msg {
            Message::Payload(data) => {
                let produced = self.operator.on_data(&data);
                self.conclude(produced)
            },
            Message::ProgressMarker(time) => sent(self.write_stream.forward_marker(time)),
        }
    }
}

/// Whether keeping and writing what the callback of a parallel operator
/// returned can turn the pool `pool` into `pool_after` and the write stream
/// `before` into `after`, and make the step fail with `failure`. The
/// partial result of a callback that succeeded is the next worker's and
/// waits to be merged, and its outputs are sent as payloads, first to last,
/// up to the first that cannot be sent, and the step fails if one cannot; a
/// callback that failed leaves pool and stream as they were.
pub open spec fn kept_and_delivered<U, V>(
    pool: WorkerPool<V>,
    before: WriteStream<U>,
    produced: Result<(Vec<U>, V), CallbackError>,
    pool_after: WorkerPool<V>,
    after: WriteStream<U>,
    failure: Option<ExecutionError>,
) -> bool {
    match produced {
        Ok((outputs, partial)) => {
            &&& pool_after@ == pool@.after_assign().after_finish(pool@.assigned(), partial)
            &&& exists|sent: Result<(), SendError>| #[trigger]
                after.forwarded(&before, outputs@, sent) && failure == send_failure(sent)
        },
        Err(error) => {
            &&& failure == Some(ExecutionError::Callback(error))
            &&& pool_after == pool
            &&& after == before
        },
    }
}

/// Which input a step reads: the one whose turn it is if a message waits
/// there, else the other if a message waits there.
pub open spec fn side_to_read(turn: Side, left_waiting: nat, right_waiting: nat) -> Option<Side> {
    match turn {
        Side::Left => if left_waiting > 0 {
            Some(Side::Left)
        } else if right_waiting > 0 {
            Some(Side::Right)
        } else {
            None
        },
        Side::Right => if right_waiting > 0 {
            Some(Side::Right)
        } else if left_waiting > 0 {
            Some(Side::Left)
        } else {
            None
        },
    }
}

/// The other input.
pub open spec fn other_side(side: Side) -> Side {
    match side {
        Side::Left => Side::Right,
        Side::Right => Side::Left,
    }
}

/// Runs an operator with two inputs and one output. The inputs take turns,
/// and a progress marker goes out when its time has passed on both.
#[verifier::reject_recursive_types(V)]
pub struct TwoInOneOutExecutor<O, S, T, U, V> {
    pub config: OperatorConfig,
    pub operator: O,
    pub state: S,
    pub left_read_stream: ReadStream<T>,
    pub right_read_stream: ReadStream<U>,
    pub write_stream: WriteStream<V>,
    /// The progress of the two inputs.
    pub progress: ProgressJoin,
    /// The input that the next step reads first.
    pub turn: Side,
}

impl<O: TwoInOneOut<S, T, U, V>, S, T, U, V> TwoInOneOutExecutor<O, S, T, U, V> {
    /// An executor for the operator that `operator_fn` makes, with the state
    /// that `state_fn` makes. No progress marker was seen, and the left
    /// input is read first.
    pub fn new<FO: Fn() -> O, FS: Fn() -> S>(
        config: OperatorConfig,
        operator_fn: FO,
        state_fn: FS,
        left_read_stream: ReadStream<T>,
        right_read_stream: ReadStream<U>,
        write_stream: WriteStream<V>,
    ) -> (executor: Self)
        requires
            call_requires(operator_fn, ()),
            call_requires(state_fn, ()),
        ensures
            executor.config == config,
            call_ensures(operator_fn, (), executor.operator),
            call_ensures(state_fn, (), executor.state),
            executor.left_read_stream == left_read_stream,
            executor.right_read_stream == right_read_stream,
            executor.write_stream == write_stream,
            executor.progress@ == ProgressView::start(),
            executor.turn == Side::Left,
    {
        TwoInOneOutExecutor {
            config,
            operator: operator_fn(),
            state: state_fn(),
            left_read_stream,
            right_read_stream,
            write_stream,
            progress: ProgressJoin::new(),
            turn: Side::Left,
        }
    }

    /// Whether taking note of a progress marker at `time` on `side` turns
    /// the executor `before` into `after` and makes the step fail with
    /// `failure`. The marker is noted; if its time has passed on both
    /// inputs and no marker that late went out before, a marker goes out,
    /// as [`marked`] says. The operator and its state stay as they are.
    pub open spec fn noted(
        side: Side,
        time: u64,
        before: Self,
        after: Self,
        failure: Option<ExecutionError>,
    ) -> bool {
        &&& after.operator == before.operator
        &&& after.state == before.state
        &&& after.progress@ == before.progress@.observe(side, time)
        &&& match before.progress@.emits(side, time) {
            Some(marker) => marked(before.write_stream, marker, after.write_stream, failure),
            None => failure is None && after.write_stream == before.write_stream,
        }
    }

    /// Takes note of a progress marker at `time` on `side` and sends one on
    /// the output if its time has passed on both inputs and no marker that
    /// late went out before.
    pub fn on_marker(&mut self, side: Side, time: u64) -> (result: Result<(), ExecutionError>)
        ensures
            final(self).config == old(self).config,
            final(self).left_read_stream == old(self).left_read_stream,
            final(self).right_read_stream == old(self).right_read_stream,
            final(self).turn == old(self).turn,
            Self::noted(side, time, *old(self), *final(self), failure_of(result)),
    {
        match self.progress.observe(side, time) {
            Some(marker) => sent(self.write_stream.forward_marker(marker)),
            None => Ok(()),
        }
    }

    /// Writes what the callback returned for a payload: its outputs, in
    /// order, or nothing if it failed.
    pub fn conclude(&mut self, produced: Result<Vec<V>, CallbackError>) -> (result: Result<
        (),
        ExecutionError,
    >)
        ensures
            final(self).config == old(self).config,
            final(self).operator == old(self).operator,
            final(self).state == old(self).state,
            final(self).left_read_stream == old(self).left_read_stream,
            final(self).right_read_stream == old(self).right_read_stream,
            final(self).progress == old(self).progress,
            final(self).turn == old(self).turn,
            delivered(
                old(self).write_stream,
                produced,
                final(self).write_stream,
                failure_of(result),
            ),
    {
        match produced {
            Ok(outputs) => sent(self.write_stream.forward(outputs)),
            Err(error) => Err(ExecutionError::Callback(error)),
        }
    }

    /// Reads one message, from the input whose turn it is if one waits
    /// there and else from the other, and handles it. The turn then goes to
    /// the input that was not read. A progress marker is noted as
    /// [`TwoInOneOutExecutor::on_marker`] notes it. A payload of the left
    /// input goes to the callback for the left input and one of the right
    /// input to the callback for the right input, once, with the operator
    /// and its state; what the callback returns is written as
    /// [`TwoInOneOutExecutor::conclude`] writes it.
    pub fn step(&mut self) -> (result: Result<Step, ExecutionError>)
        ensures
            final(self).config == old(self).config,
            match side_to_read(
                old(self).turn,
                old(self).left_read_stream.queued().len(),
                old(self).right_read_stream.queued().len(),
            ) {
                None => result == Ok::<Step, ExecutionError>(Step::Idle) && *final(self) == *old(
                    self,
                ),
                Some(side) => {
                    &&& result is Ok ==> result == Ok::<Step, ExecutionError>(Step::Processed)
                    &&& final(self).turn == other_side(side)
                    &&& match side {
                        Side::Left => {
                            &&& final(self).left_read_stream.queued() == old(
                                self,
                            ).left_read_stream.queued().skip(1)
                            &&& final(self).left_read_stream.stream_id() == old(
                                self,
                            ).left_read_stream.stream_id()
                            &&& final(self).left_read_stream.limit() == old(
                                self,
                            ).left_read_stream.limit()
                            &&& final(self).right_read_stream == old(self).right_read_stream
                            &&& match old(self).left_read_stream.queued()[0] {
                                Message::ProgressMarker(time) => Self::noted(
                                    side,
                                    time,
                                    *old(self),
                                    *final(self),
                                    failure_of(result),
                                ),
                                Message::Payload(data) => {
                                    &&& final(self).progress == old(self).progress
                                    &&& exists|
                                        operator: &mut O,
                                        state: &mut S,
                                        produced: Result<Vec<V>, CallbackError>,
                                    |
                                        {
                                            &&& mut_ref_current(operator) == old(self).operator
                                            &&& mut_ref_future(operator) == final(self).operator
                                            &&& mut_ref_current(state) == old(self).state
                                            &&& mut_ref_future(state) == final(self).state
                                            &&& #[trigger] call_ensures(
                                                O::on_left_data,
                                                (operator, state, &data),
                                                produced,
                                            )
                                            &&& delivered(
                                                old(self).write_stream,
                                                produced,
                                                final(self).write_stream,
                                                failure_of(result),
                                            )
                                        }
                                },
                            }
                        },
                        Side::Right => {
                            &&& final(self).right_read_stream.queued() == old(
                                self,
                            ).right_read_stream.queued().skip(1)
                            &&& final(self).right_read_stream.stream_id() == old(
                                self,
                            ).right_read_stream.stream_id()
                            &&& final(self).right_read_stream.limit() == old(
                                self,
                            ).right_read_stream.limit()
                            &&& final(self).left_read_stream == old(self).left_read_stream
                            &&& match old(self).right_read_stream.queued()[0] {
                                Message::ProgressMarker(time) => Self::noted(
                                    side,
                                    time,
                                    *old(self),
                                    *final(self),
                                    failure_of(result),
                                ),
                                Message::Payload(data) => {
                                    &&& final(self).progress == old(self).progress
                                    &&& exists|
                                        operator: &mut O,
                                        state: &mut S,
                                        produced: Result<Vec<V>, CallbackError>,
                                    |
                                        {
                                            &&& mut_ref_current(operator) == old(self).operator
                                            &&& mut_ref_future(operator) == final(self).operator
                                            &&& mut_ref_current(state) == old(self).state
                                            &&& mut_ref_future(state) == final(self).state
                                            &&& #[trigger] call_ensures(
                                                O::on_right_data,
                                                (operator, state, &data),
                                                produced,
                                            )
                                            &&& delivered(
                                                old(self).write_stream,
                                                produced,
                                                final(self).write_stream,
                                                failure_of(result),
                                            )
                                        }
                                },
                            }
                        },
                    }
                },
            },
    {
        let side = match self.turn {
            Side::Left => if self.left_read_stream.num_queued() > 0 {
                Side::Left
            } else if self.right_read_stream.num_queued() > 0 {
                Side::Right
            } else {
                return Ok(Step::Idle);
            },
            Side::Right => if self.right_read_stream.num_queued() > 0 {
                Side::Right
            } else if self.left_read_stream.num_queued() > 0 {
                Side::Left
            } else {
                return Ok(Step::Idle);
            },
        };
        let outcome = match side {
            Side::Left => {
                self.turn = Side::Right;
                match self.left_read_stream.try_read() {
                    Some(Message::Payload(data)) => {
                        let produced = self.operator.on_left_data(&mut self.state, &data);
                        self.conclude(produced)
                    },
                    Some(Message::ProgressMarker(time)) => self.on_marker(Side::Left, time),
                    None => Ok(()),
                }
            },
            Side::Right => {
                self.turn = Side::Left;
                match self.right_read_stream.try_read() {
                    Some(Message::Payload(data)) => {
                        let produced = self.operator.on_right_data(&mut self.state, &data);
                        self.conclude(produced)
                    },
                    Some(Message::ProgressMarker(time)) => self.on_marker(Side::Right, time),
                    None => Ok(()),
                }
            },
        };
        match outcome {
            Ok(()) => Ok(Step::Processed),
            Err(error) => Err(error),
        }
    }
}

/// Runs an operator with one input and two outputs.
#[verifier::reject_recursive_types(U)]
#[verifier::reject_recursive_types(V)]
pub struct OneInTwoOutExecutor<O, S, T, U, V> {
    pub config: OperatorConfig,
    pub operator: O,
    pub state: S,
    pub read_stream: ReadStream<T>,
    pub left_write_stream: WriteStream<U>,
    pub right_write_stream: WriteStream<V>,
}

impl<O: OneInTwoOut<S, T, U, V>, S, T, U, V> OneInTwoOutExecutor<O, S, T, U, V> {
    /// An executor for the operator that `operator_fn` makes, with the state
    /// that `state_fn` makes.
    pub fn new<FO: Fn() -> O, FS: Fn() -> S>(
        config: OperatorConfig,
        operator_fn: FO,
        state_fn: FS,
        read_stream: ReadStream<T>,
        left_write_stream: WriteStream<U>,
        right_write_stream: WriteStream<V>,
    ) -> (executor: Self)
        requires
            call_requires(operator_fn, ()),
            call_requires(state_fn, ()),
        ensures
            executor.config == config,
            call_ensures(operator_fn, (), executor.operator),
            call_ensures(state_fn, (), executor.state),
            executor.read_stream == read_stream,
            executor.left_write_stream == left_write_stream,
            executor.right_write_stream == right_write_stream,
    {
        OneInTwoOutExecutor {
            config,
            operator: operator_fn(),
            state: state_fn(),
            read_stream,
            left_write_stream,
            right_write_stream,
        }
    }

    /// Whether passing a progress marker at `time` on to both outputs turns
    /// the write streams `left` and `right` into `left_after` and
    /// `right_after` and makes the step fail with `failure`. If both are
    /// open, each takes the marker; if one is closed, neither takes it and
    /// the step fails.
    pub open spec fn marked_both(
        left: WriteStream<U>,
        right: WriteStream<V>,
        time: u64,
        left_after: WriteStream<U>,
        right_after: WriteStream<V>,
        failure: Option<ExecutionError>,
    ) -> bool {
        &&& failure == closed_failure(left.is_closed() || right.is_closed())
        &&& if left.is_closed() || right.is_closed() {
            left_after == left && right_after == right
        } else {
            &&& left_after.accepted(&left, Message::ProgressMarker(time), Ok(()))
            &&& right_after.accepted(&right, Message::ProgressMarker(time), Ok(()))
        }
    }

    /// Whether writing what the callback returned can turn the write
    /// streams `left` and `right` into `left_after` and `right_after` and
    /// make the step fail with `failure`. The outputs for the left stream
    /// are sent first, as [`WriteStream::forward`] sends them; if one of
    /// them cannot be sent, the step fails and the right stream stays as it
    /// was; else the outputs for the right stream are sent. A callback that
    /// failed leaves both streams as they were.
    pub open spec fn delivered_both(
        left: WriteStream<U>,
        right: WriteStream<V>,
        produced: Result<(Vec<U>, Vec<V>), CallbackError>,
        left_after: WriteStream<U>,
        right_after: WriteStream<V>,
        failure: Option<ExecutionError>,
    ) -> bool {
        match produced {
            Ok((lefts, rights)) => exists|sent: Result<(), SendError>|
                {
                    &&& #[trigger] left_after.forwarded(&left, lefts@, sent)
                    &&& if sent is Err {
                        failure == send_failure(sent) && right_after == right
                    } else {
                        exists|then: Result<(), SendError>| #[trigger]
                            right_after.forwarded(&right, rights@, then) && failure
                                == send_failure(then)
                    }
                },
            Err(error) => {
                &&& failure == Some(ExecutionError::Callback(error))
                &&& left_after == left
                &&& right_after == right
            },
        }
    }

    /// Passes a progress marker at `time` on to both outputs. If one of them
    /// is closed, neither gets it.
    pub fn on_marker(&mut self, time: u64) -> (result: Result<(), ExecutionError>)
        ensures
            final(self).config == old(self).config,
            final(self).operator == old(self).operator,
            final(self).state == old(self).state,
            final(self).read_stream == old(self).read_stream,
            Self::marked_both(
                old(self).left_write_stream,
                old(self).right_write_stream,
                time,
                final(self).left_write_stream,
                final(self).right_write_stream,
                failure_of(result),
            ),
    {
        if self.left_write_stream.closed() || self.right_write_stream.closed() {
            return Err(ExecutionError::Send(SendError::Closed));
        }
        let left = self.left_write_stream.forward_marker(time);
        let right = self.right_write_stream.forward_marker(time);
        Ok(())
    }

    /// Writes what the callback returned for a payload: first the outputs
    /// for the left stream, then those for the right one, each in order. If
    /// the left ones cannot be sent, the right ones are not sent either. A
    /// callback that failed leaves both streams as they were.
    pub fn conclude(&mut self, produced: Result<(Vec<U>, Vec<V>), CallbackError>) -> (result:
        Result<(), ExecutionError>)
        ensures
            final(self).config == old(self).config,
            final(self).operator == old(self).operator,
            final(self).state == old(self).state,
            final(self).read_stream == old(self).read_stream,
            Self::delivered_both(
                old(self).left_write_stream,
                old(self).right_write_stream,
                produced,
                final(self).left_write_stream,
                final(self).right_write_stream,
                failure_of(result),
            ),
    {
        match produced {
            Ok((lefts, rights)) => {
                let ghost first = lefts;
                let ghost second = rights;
                let left = self.left_write_stream.forward(lefts);
                proof {
                    assert(self.left_write_stream.forwarded(
                        &old(self).left_write_stream,
                        first@,
                        left,
                    ));
                }
                match left {
                    Ok(()) => {
                        let right = self.right_write_stream.forward(rights);
                        let result = sent(right);
                        proof {
                            assert(self.right_write_stream.forwarded(
                                &old(self).right_write_stream,
                                second@,
                                right,
                            ));
                        }
                        result
                    },
                    Err(error) => Err(ExecutionError::Send(error)),
                }
            },
            Err(error) => Err(ExecutionError::Callback(error)),
        }
    }

    /// Reads the oldest message that was delivered, if there is one, and
    /// handles it. A progress marker is passed on to both outputs. A
    /// payload goes to the callback, once, with the operator and its state;
    /// what the callback returns is written as
    /// [`OneInTwoOutExecutor::conclude`] writes it.
    pub fn step(&mut self) -> (result: Result<Step, ExecutionError>)
        ensures
            final(self).config == old(self).config,
            final(self).read_stream.stream_id() == old(self).read_stream.stream_id(),
            final(self).read_stream.limit() == old(self).read_stream.limit(),
            old(self).read_stream.queued().len() == 0 ==> result == Ok::<Step, ExecutionError>(
                Step::Idle,
            ) && *final(self) == *old(self),
            old(self).read_stream.queued().len() > 0 ==> {
                &&& final(self).read_stream.queued() == old(self).read_stream.queued().skip(1)
                &&& result is Ok ==> result == Ok::<Step, ExecutionError>(Step::Processed)
                &&& match old(self).read_stream.queued()[0] {
                    Message::ProgressMarker(time) => {
                        &&& final(self).operator == old(self).operator
                        &&& final(self).state == old(self).state
                        &&& Self::marked_both(
                            old(self).left_write_stream,
                            old(self).right_write_stream,
                            time,
                            final(self).left_write_stream,
                            final(self).right_write_stream,
                            failure_of(result),
                        )
                    },
                    Message::Payload(data) => exists|
                        operator: &mut O,
                        state: &mut S,
                        produced: Result<(Vec<U>, Vec<V>), CallbackError>,
                    |
                        {
                            &&& mut_ref_current(operator) == old(self).operator
                            &&& mut_ref_future(operator) == final(self).operator
                            &&& mut_ref_current(state) == old(self).state
                            &&& mut_ref_future(state) == final(self).state
                            &&& #[trigger] call_ensures(
                                O::on_data,
                                (operator, state, &data),
                                produced,
                            )
                            &&& Self::delivered_both(
                                old(self).left_write_stream,
                                old(self).right_write_stream,
                                produced,
                                final(self).left_write_stream,
                                final(self).right_write_stream,
                                failure_of(result),
                            )
                        },
                }
            },
    {
        if self.read_stream.num_queued() == 0 {
            return Ok(Step::Idle);
        }
        match self.read_stream.try_read() {
            None => Ok(Step::Idle),
            Some(Message::ProgressMarker(time)) => match self.on_marker(time) {
                Ok(()) => Ok(Step::Processed),
                Err(error) => Err(error),
            },
            Some(Message::Payload(data)) => {
                let produced = self.operator.on_data(&mut self.state, &data);
                match self.conclude(produced) {
                    Ok(()) => Ok(Step::Processed),
                    Err(error) => Err(error),
                }
            },
        }
    }
}

/// What a stream holds after what a callback returned was written to it
/// follows what it held by some payloads, and by none if the stream is
/// closed.
pub proof fn lemma_payloads_follow<V>(
    after: WriteStream<V>,
    before: WriteStream<V>,
    produced: Result<Vec<V>, CallbackError>,
    failure: Option<ExecutionError>,
)
    requires
        delivered(before, produced, after, failure),
    ensures
        exists|outputs: Seq<V>| #[trigger]
            after.follows(&before, payloads(outputs)) && (before.is_closed() ==> outputs.len()
                == 0),
{
    assert(payloads(Seq::<V>::empty()) =~= Seq::<Message<V>>::empty());
    match produced {
        Ok(all) => {
            let sent = choose|sent: Result<(), SendError>| #[trigger]
                after.forwarded(&before, all@, sent) && failure == send_failure(sent);
            if before.is_closed() {
                assert(after.pending() =~= before.pending() + payloads(Seq::<V>::empty()));
                assert(after.follows(&before, payloads(Seq::<V>::empty())));
            } else if before.codec() is None {
                assert(after.follows(&before, payloads(all@)));
            } else {
                let codec = before.codec().unwrap();
                let encoded = choose|encoded: Seq<crate::wire::Encoded>|
                    {
                        &&& encoded.len() <= all@.len()
                        &&& after.pending() == before.pending() + payloads(
                            all@.take(encoded.len() as int),
                        )
                        &&& #[trigger] after.frames_follow(&before, encoded)
                    };
                assert(after.follows(&before, payloads(all@.take(encoded.len() as int))));
            }
        },
        Err(_) => {
            assert(after.pending() =~= before.pending() + payloads(Seq::<V>::empty()));
            assert(after.follows(&before, payloads(Seq::<V>::empty())));
        },
    }
}

} // verus!
