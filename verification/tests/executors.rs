use erdos::channel_manager::ChannelManager;
use erdos::config::OperatorConfig;
use erdos::connect::{
    connect_one_in_one_out, connect_one_in_two_out, connect_sink, connect_source,
    connect_two_in_one_out,
};
use erdos::executors::{
    ExecutionError, OneInExecutor, OneInOneOutMessageProcessor, OneInTwoOutExecutor,
    SinkMessageProcessor, SourceExecutor, Step, TwoInOneOutExecutor,
};
use erdos::graph::Graph;
use erdos::ids::Uuid;
use erdos::operator::{CallbackError, OneInOneOut, OneInTwoOut, Sink, Source, TwoInOneOut};
use erdos::progress::Side;
use erdos::stream::{Message, ReadStream, SendError, WriteStream, WriteStreamT};

struct Numbers {
    upto: u64,
}

impl Source<u64, u64> for Numbers {
    fn run(&mut self, sent: &mut u64, out: &mut WriteStream<u64>) -> Result<(), CallbackError> {
        for value in 1..=self.upto {
            out.send(Message::Payload(value))
                .map_err(|_| CallbackError { message: String::from("closed") })?;
            *sent += 1;
        }
        Ok(())
    }
}

struct Doubler;

impl OneInOneOut<(), u64, u64> for Doubler {
    fn on_data(&mut self, _: &mut (), data: &u64) -> Result<Vec<u64>, CallbackError> {
        Ok(vec![2 * data])
    }
}

struct Summer;

impl Sink<u64, u64> for Summer {
    fn on_data(&mut self, sum: &mut u64, data: &u64) -> Result<(), CallbackError> {
        *sum += data;
        Ok(())
    }
}

struct Picky;

impl Sink<u64, u64> for Picky {
    fn on_data(&mut self, seen: &mut u64, data: &u64) -> Result<(), CallbackError> {
        if *data == 13 {
            return Err(CallbackError { message: String::from("unlucky") });
        }
        *seen += 1;
        Ok(())
    }
}

impl OneInOneOut<u64, u64, u64> for Picky {
    fn on_data(&mut self, seen: &mut u64, data: &u64) -> Result<Vec<u64>, CallbackError> {
        if *data == 13 {
            return Err(CallbackError { message: String::from("unlucky") });
        }
        *seen += 1;
        Ok(vec![*data, *data])
    }
}

struct Tagger;

impl TwoInOneOut<u64, u64, char, String> for Tagger {
    fn on_left_data(&mut self, count: &mut u64, data: &u64) -> Result<Vec<String>, CallbackError> {
        *count += 1;
        Ok(vec![format!("L{}", data)])
    }

    fn on_right_data(&mut self, count: &mut u64, data: &char) -> Result<Vec<String>, CallbackError> {
        *count += 1;
        Ok(vec![format!("R{}", data)])
    }
}

struct Parity;

impl OneInTwoOut<(), u64, u64, u64> for Parity {
    fn on_data(&mut self, _: &mut (), data: &u64) -> Result<(Vec<u64>, Vec<u64>), CallbackError> {
        if *data == 0 {
            Err(CallbackError { message: String::from("zero") })
        } else if data % 2 == 0 {
            Ok((vec![*data], Vec::new()))
        } else {
            Ok((Vec::new(), vec![*data]))
        }
    }
}

fn id(value: u128) -> Uuid {
    Uuid::new(value)
}

fn drain<D>(stream: &mut WriteStream<D>) -> Vec<Message<D>> {
    let mut all = Vec::new();
    while let Some(msg) = stream.take_next() {
        all.push(msg);
    }
    all
}

#[test]
fn source_runs_once() {
    let mut source =
        SourceExecutor::new(OperatorConfig::new(), || Numbers { upto: 3 }, || 0u64, WriteStream::new(id(1)));
    assert!(!source.executed);
    assert_eq!(source.execute(), Ok(true));
    assert!(source.executed);
    assert_eq!(source.state, 3);
    assert_eq!(source.execute(), Ok(false));
    assert_eq!(source.state, 3);
    assert_eq!(
        drain(&mut source.write_stream),
        vec![Message::Payload(1), Message::Payload(2), Message::Payload(3)]
    );
}

#[test]
fn source_failure_is_reported() {
    let mut stream = WriteStream::new(id(1));
    stream.close();
    let mut source = SourceExecutor::new(OperatorConfig::new(), || Numbers { upto: 3 }, || 0u64, stream);
    assert_eq!(
        source.execute(),
        Err(ExecutionError::Callback(CallbackError { message: String::from("closed") }))
    );
    assert!(source.executed);
    assert_eq!(source.execute(), Ok(false));
}

#[test]
fn sink_handles_payloads_and_ignores_markers() {
    let processor = SinkMessageProcessor::new(OperatorConfig::new(), || Summer, || 0u64);
    let mut sink = OneInExecutor::new(OperatorConfig::new(), processor, ReadStream::new(id(1), 8));
    assert_eq!(sink.step(), Ok(Step::Idle));
    sink.read_stream.accept(Message::Payload(4)).unwrap();
    sink.read_stream.accept(Message::ProgressMarker(1)).unwrap();
    sink.read_stream.accept(Message::Payload(6)).unwrap();
    assert_eq!(sink.step(), Ok(Step::Processed));
    assert_eq!(sink.processor.state, 4);
    assert_eq!(sink.step(), Ok(Step::Processed));
    assert_eq!(sink.processor.state, 4);
    assert_eq!(sink.step(), Ok(Step::Processed));
    assert_eq!(sink.processor.state, 10);
    assert_eq!(sink.step(), Ok(Step::Idle));
}

#[test]
fn sink_callback_failure_stops_the_step() {
    let processor = SinkMessageProcessor::new(OperatorConfig::new(), || Picky, || 0u64);
    let mut sink = OneInExecutor::new(OperatorConfig::new(), processor, ReadStream::new(id(1), 8));
    sink.read_stream.accept(Message::Payload(12)).unwrap();
    sink.read_stream.accept(Message::Payload(13)).unwrap();
    assert_eq!(sink.step(), Ok(Step::Processed));
    assert_eq!(
        sink.step(),
        Err(ExecutionError::Callback(CallbackError { message: String::from("unlucky") }))
    );
    assert_eq!(sink.processor.state, 1);
    assert_eq!(sink.read_stream.num_queued(), 0);
}

#[test]
fn one_in_one_out_writes_what_the_callback_returns() {
    let processor =
        OneInOneOutMessageProcessor::new(OperatorConfig::new(), || Picky, || 0u64, WriteStream::new(id(2)));
    let mut executor = OneInExecutor::new(OperatorConfig::new(), processor, ReadStream::new(id(1), 8));
    executor.read_stream.accept(Message::Payload(5)).unwrap();
    executor.read_stream.accept(Message::ProgressMarker(7)).unwrap();
    executor.read_stream.accept(Message::Payload(6)).unwrap();
    while executor.step() == Ok(Step::Processed) {}
    assert_eq!(executor.processor.state, 2);
    assert_eq!(
        drain(&mut executor.processor.write_stream),
        vec![
            Message::Payload(5),
            Message::Payload(5),
            Message::ProgressMarker(7),
            Message::Payload(6),
            Message::Payload(6),
        ]
    );
}

#[test]
fn one_in_one_out_failure_sends_nothing() {
    let processor =
        OneInOneOutMessageProcessor::new(OperatorConfig::new(), || Picky, || 0u64, WriteStream::new(id(2)));
    let mut executor = OneInExecutor::new(OperatorConfig::new(), processor, ReadStream::new(id(1), 8));
    executor.read_stream.accept(Message::Payload(13)).unwrap();
    assert_eq!(
        executor.step(),
        Err(ExecutionError::Callback(CallbackError { message: String::from("unlucky") }))
    );
    assert_eq!(executor.processor.write_stream.num_pending(), 0);
}

#[test]
fn one_in_one_out_reports_a_closed_output() {
    let mut stream = WriteStream::new(id(2));
    stream.close();
    let processor = OneInOneOutMessageProcessor::new(OperatorConfig::new(), || Doubler, || (), stream);
    let mut executor = OneInExecutor::new(OperatorConfig::new(), processor, ReadStream::new(id(1), 8));
    executor.read_stream.accept(Message::Payload(1)).unwrap();
    executor.read_stream.accept(Message::ProgressMarker(1)).unwrap();
    assert_eq!(executor.step(), Err(ExecutionError::Send(SendError::Closed)));
    assert_eq!(executor.step(), Err(ExecutionError::Send(SendError::Closed)));
    assert_eq!(executor.processor.write_stream.num_pending(), 0);
}

#[test]
fn conclude_writes_outputs_or_reports_the_failure() {
    let mut processor =
        OneInOneOutMessageProcessor::new(OperatorConfig::new(), || Doubler, || (), WriteStream::new(id(2)));
    assert_eq!(processor.conclude(Ok(vec![1, 2])), Ok(()));
    let failure = CallbackError { message: String::from("no") };
    assert_eq!(processor.conclude(Err(failure.clone())), Err(ExecutionError::Callback(failure)));
    assert_eq!(
        drain(&mut processor.write_stream),
        vec![Message::Payload(1), Message::Payload(2)]
    );
}

fn tagger() -> TwoInOneOutExecutor<Tagger, u64, u64, char, String> {
    TwoInOneOutExecutor::new(
        OperatorConfig::new(),
        || Tagger,
        || 0u64,
        ReadStream::new(id(1), 8),
        ReadStream::new(id(2), 8),
        WriteStream::new(id(3)),
    )
}

#[test]
fn marker_on_the_left_alone_is_not_forwarded() {
    let mut join = tagger();
    join.left_read_stream.accept(Message::ProgressMarker(5)).unwrap();
    assert_eq!(join.step(), Ok(Step::Processed));
    assert_eq!(join.write_stream.num_pending(), 0);
    assert_eq!(join.progress.latest(Side::Left), Some(5));
    assert_eq!(join.progress.latest(Side::Right), None);
    assert_eq!(join.progress.forwarded(), None);
}

#[test]
fn marker_goes_out_once_both_inputs_have_passed_it() {
    let mut join = tagger();
    join.left_read_stream.accept(Message::ProgressMarker(5)).unwrap();
    assert_eq!(join.step(), Ok(Step::Processed));
    assert_eq!(join.write_stream.num_pending(), 0);
    join.right_read_stream.accept(Message::ProgressMarker(5)).unwrap();
    assert_eq!(join.step(), Ok(Step::Processed));
    assert_eq!(drain(&mut join.write_stream), vec![Message::ProgressMarker(5)]);
    assert_eq!(join.progress.forwarded(), Some(5));
}

#[test]
fn marker_on_the_right_alone_is_not_forwarded() {
    let mut join = tagger();
    join.right_read_stream.accept(Message::ProgressMarker(9)).unwrap();
    join.right_read_stream.accept(Message::ProgressMarker(11)).unwrap();
    assert_eq!(join.step(), Ok(Step::Processed));
    assert_eq!(join.step(), Ok(Step::Processed));
    assert_eq!(join.write_stream.num_pending(), 0);
}

#[test]
fn joined_marker_is_the_earlier_of_the_two() {
    let mut join = tagger();
    assert_eq!(join.on_marker(Side::Left, 10), Ok(()));
    assert_eq!(join.on_marker(Side::Right, 4), Ok(()));
    assert_eq!(join.on_marker(Side::Right, 7), Ok(()));
    assert_eq!(join.on_marker(Side::Right, 12), Ok(()));
    assert_eq!(join.on_marker(Side::Right, 15), Ok(()));
    assert_eq!(join.on_marker(Side::Left, 15), Ok(()));
    assert_eq!(
        drain(&mut join.write_stream),
        vec![
            Message::ProgressMarker(4),
            Message::ProgressMarker(7),
            Message::ProgressMarker(10),
            Message::ProgressMarker(15),
        ]
    );
}

#[test]
fn two_in_one_out_takes_turns() {
    let mut join = tagger();
    for value in 1..=3u64 {
        join.left_read_stream.accept(Message::Payload(value)).unwrap();
    }
    for value in ['a', 'b'] {
        join.right_read_stream.accept(Message::Payload(value)).unwrap();
    }
    assert_eq!(join.turn, Side::Left);
    while join.step() == Ok(Step::Processed) {}
    assert_eq!(join.state, 5);
    let sent: Vec<String> = drain(&mut join.write_stream)
        .into_iter()
        .map(|msg| match msg {
            Message::Payload(text) => text,
            Message::ProgressMarker(_) => String::from("marker"),
        })
        .collect();
    assert_eq!(sent, vec!["L1", "Ra", "L2", "Rb", "L3"]);
    assert_eq!(join.step(), Ok(Step::Idle));
}

#[test]
fn two_in_one_out_reads_the_other_input_when_one_is_empty() {
    let mut join = tagger();
    join.right_read_stream.accept(Message::Payload('x')).unwrap();
    join.right_read_stream.accept(Message::Payload('y')).unwrap();
    assert_eq!(join.step(), Ok(Step::Processed));
    assert_eq!(join.turn, Side::Left);
    assert_eq!(join.step(), Ok(Step::Processed));
    assert_eq!(join.right_read_stream.num_queued(), 0);
}

#[test]
fn two_in_one_out_reports_a_closed_output() {
    let mut join = tagger();
    join.write_stream.close();
    assert_eq!(join.on_marker(Side::Left, 3), Ok(()));
    assert_eq!(join.on_marker(Side::Right, 3), Err(ExecutionError::Send(SendError::Closed)));
    join.left_read_stream.accept(Message::Payload(1)).unwrap();
    assert_eq!(join.step(), Err(ExecutionError::Send(SendError::Closed)));
}

fn parity() -> OneInTwoOutExecutor<Parity, (), u64, u64, u64> {
    OneInTwoOutExecutor::new(
        OperatorConfig::new(),
        || Parity,
        || (),
        ReadStream::new(id(1), 8),
        WriteStream::new(id(2)),
        WriteStream::new(id(3)),
    )
}

#[test]
fn one_in_two_out_writes_to_either_output() {
    let mut split = parity();
    for value in 1..=4u64 {
        split.read_stream.accept(Message::Payload(value)).unwrap();
    }
    split.read_stream.accept(Message::ProgressMarker(4)).unwrap();
    while split.step() == Ok(Step::Processed) {}
    assert_eq!(
        drain(&mut split.left_write_stream),
        vec![Message::Payload(2), Message::Payload(4), Message::ProgressMarker(4)]
    );
    assert_eq!(
        drain(&mut split.right_write_stream),
        vec![Message::Payload(1), Message::Payload(3), Message::ProgressMarker(4)]
    );
}

#[test]
fn one_in_two_out_callback_failure_sends_nothing() {
    let mut split = parity();
    split.read_stream.accept(Message::Payload(0)).unwrap();
    assert_eq!(
        split.step(),
        Err(ExecutionError::Callback(CallbackError { message: String::from("zero") }))
    );
    assert_eq!(split.left_write_stream.num_pending(), 0);
    assert_eq!(split.right_write_stream.num_pending(), 0);
}

#[test]
fn one_in_two_out_marker_needs_both_outputs_open() {
    let mut split = parity();
    split.right_write_stream.close();
    assert_eq!(split.on_marker(2), Err(ExecutionError::Send(SendError::Closed)));
    assert_eq!(split.left_write_stream.num_pending(), 0);
    assert_eq!(split.conclude(Ok((vec![2], Vec::new()))), Ok(()));
    assert_eq!(split.conclude(Ok((vec![4], vec![5]))), Err(ExecutionError::Send(SendError::Closed)));
    assert_eq!(
        drain(&mut split.left_write_stream),
        vec![Message::Payload(2), Message::Payload(4)]
    );
}

#[test]
fn one_in_two_out_stops_at_a_closed_left_output() {
    let mut split = parity();
    split.left_write_stream.close();
    assert_eq!(split.conclude(Ok((vec![2], vec![3]))), Err(ExecutionError::Send(SendError::Closed)));
    assert_eq!(split.right_write_stream.num_pending(), 0);
    assert_eq!(split.conclude(Ok((Vec::new(), vec![3]))), Ok(()));
    assert_eq!(drain(&mut split.right_write_stream), vec![Message::Payload(3)]);
}

#[test]
fn doubled_numbers_sum_to_thirty() {
    let mut graph = Graph::new();
    let (numbers, source) =
        connect_source(&mut graph, || Numbers { upto: 5 }, || 0u64, OperatorConfig::new().name("numbers"));
    let (doubled, doubler) =
        connect_one_in_one_out(&mut graph, || Doubler, || (), OperatorConfig::new().name("double"), &numbers);
    let sink = connect_sink(&mut graph, || Summer, || 0u64, OperatorConfig::new().name("sum"), &doubled);
    assert_eq!(graph.validate(), Ok(()));

    let mut manager = ChannelManager::new(&graph, 0, 2);
    let mut source = source.run(&mut manager, None).unwrap();
    let mut doubler = doubler.run(&mut manager, None).unwrap();
    let mut sink = sink.run(&mut manager).unwrap();

    assert_eq!(source.execute(), Ok(true));
    loop {
        let moved = source.write_stream.deliver(&mut doubler.read_stream)
            + doubler.processor.write_stream.deliver(&mut sink.read_stream);
        let worked = doubler.step().unwrap() == Step::Processed;
        let summed = sink.step().unwrap() == Step::Processed;
        if moved == 0 && !worked && !summed {
            break;
        }
    }
    assert_eq!(sink.processor.state, 30);
    assert_eq!(source.state, 5);
}

#[test]
fn a_graph_over_two_inputs_and_two_outputs_runs() {
    let mut graph = Graph::new();
    let (numbers, source) =
        connect_source(&mut graph, || Numbers { upto: 4 }, || 0u64, OperatorConfig::new());
    let (even, odd, split) =
        connect_one_in_two_out(&mut graph, || Parity, || (), OperatorConfig::new(), &numbers);
    let (both, join) = connect_two_in_one_out(
        &mut graph,
        || Sum2,
        || 0u64,
        OperatorConfig::new(),
        &even,
        &odd,
    );
    let sink = connect_sink(&mut graph, || Summer, || 0u64, OperatorConfig::new(), &both);
    assert_eq!(graph.validate(), Ok(()));

    let mut manager = ChannelManager::new(&graph, 0, 16);
    let mut source = source.run(&mut manager, None).unwrap();
    let mut split = split.run(&mut manager, None, None).unwrap();
    let mut join = join.run(&mut manager, None).unwrap();
    let mut sink = sink.run(&mut manager).unwrap();

    source.execute().unwrap();
    source.write_stream.deliver(&mut split.read_stream);
    while split.step() == Ok(Step::Processed) {}
    split.left_write_stream.deliver(&mut join.left_read_stream);
    split.right_write_stream.deliver(&mut join.right_read_stream);
    while join.step() == Ok(Step::Processed) {}
    join.write_stream.deliver(&mut sink.read_stream);
    while sink.step() == Ok(Step::Processed) {}
    assert_eq!(sink.processor.state, 10);
    assert_eq!(join.state, 4);
}

struct Sum2;

impl TwoInOneOut<u64, u64, u64, u64> for Sum2 {
    fn on_left_data(&mut self, count: &mut u64, data: &u64) -> Result<Vec<u64>, CallbackError> {
        *count += 1;
        Ok(vec![*data])
    }

    fn on_right_data(&mut self, count: &mut u64, data: &u64) -> Result<Vec<u64>, CallbackError> {
        *count += 1;
        Ok(vec![*data])
    }
}

struct Closer;

impl Source<(), u64> for Closer {
    fn run(&mut self, _: &mut (), out: &mut WriteStream<u64>) -> Result<(), CallbackError> {
        let _ = out.take_next();
        out.send(Message::Payload(7)).unwrap();
        out.close();
        Ok(())
    }
}

#[test]
fn a_source_adds_to_its_output_and_nothing_else() {
    let mut stream = WriteStream::new(id(1));
    stream.send(Message::Payload(1)).unwrap();
    let mut source = SourceExecutor::new(OperatorConfig::new(), || Closer, || (), stream);
    assert_eq!(source.execute(), Ok(true));
    assert!(source.write_stream.closed());
    assert_eq!(
        drain(&mut source.write_stream),
        vec![Message::Payload(1), Message::Payload(7)]
    );
}

#[test]
fn take_over_appends_what_the_other_stream_holds() {
    let mut first: WriteStream<u8> = WriteStream::new(id(1));
    let mut second: WriteStream<u8> = WriteStream::new(id(2));
    first.send(Message::Payload(1)).unwrap();
    second.send(Message::Payload(2)).unwrap();
    second.send(Message::ProgressMarker(3)).unwrap();
    first.take_over(second);
    assert_eq!(first.id(), id(1));
    assert!(!first.closed());
    let mut third: WriteStream<u8> = WriteStream::new(id(3));
    third.send(Message::Payload(4)).unwrap();
    third.close();
    first.take_over(third);
    assert!(first.closed());
    let mut fourth: WriteStream<u8> = WriteStream::new(id(4));
    fourth.send(Message::Payload(5)).unwrap();
    first.take_over(fourth);
    assert_eq!(
        drain(&mut first),
        vec![
            Message::Payload(1),
            Message::Payload(2),
            Message::ProgressMarker(3),
            Message::Payload(4),
        ]
    );
}

/// Encodes numbers below 100 only.
struct Small;

impl erdos::wire::PayloadCodec<u64> for Small {
    fn encode_fast(&self, _: &u64) -> Option<Vec<u8>> {
        None
    }

    fn encode_general(&self, data: &u64) -> Option<Vec<u8>> {
        if *data < 100 {
            Some(vec![*data as u8])
        } else {
            None
        }
    }

    fn decode_fast(&self, _: &Vec<u8>) -> Option<u64> {
        None
    }

    fn decode_general(&self, bytes: &Vec<u8>) -> Option<u64> {
        match bytes.as_slice() {
            [value] => Some(*value as u64),
            _ => None,
        }
    }
}

struct Careful {
    values: Vec<u64>,
}

impl Source<Vec<Result<(), SendError>>, u64> for Careful {
    fn run(
        &mut self,
        results: &mut Vec<Result<(), SendError>>,
        out: &mut WriteStream<u64>,
    ) -> Result<(), CallbackError> {
        for value in self.values.iter() {
            results.push(out.send(Message::Payload(*value)));
        }
        Ok(())
    }
}

fn remote_stream() -> WriteStream<u64> {
    WriteStream::with_codec(id(1), Some(Box::new(Small)))
}

#[test]
fn a_source_is_told_that_a_payload_cannot_be_encoded() {
    let mut source = SourceExecutor::new(
        OperatorConfig::new(),
        || Careful { values: vec![1, 500, 2] },
        Vec::new,
        remote_stream(),
    );
    assert_eq!(source.execute(), Ok(true));
    assert_eq!(source.state, vec![Ok(()), Err(SendError::Encoding), Ok(())]);
    assert!(source.write_stream.encodes());
    assert_eq!(
        drain(&mut source.write_stream),
        vec![Message::Payload(1), Message::Payload(2)]
    );
    assert_eq!(source.write_stream.take_frame(), Some(vec![2, 1]));
    assert_eq!(source.write_stream.take_frame(), Some(vec![2, 2]));
    assert_eq!(source.write_stream.take_frame(), None);
}

#[test]
fn a_source_is_told_that_its_output_is_closed() {
    let mut stream = remote_stream();
    stream.close();
    let mut source =
        SourceExecutor::new(OperatorConfig::new(), || Careful { values: vec![1] }, Vec::new, stream);
    assert_eq!(source.execute(), Ok(true));
    assert_eq!(source.state, vec![Err(SendError::Closed)]);
    assert_eq!(source.write_stream.num_pending(), 0);
    assert_eq!(source.write_stream.num_frames(), 0);
}

#[test]
fn a_source_on_a_local_stream_sends_anything() {
    let mut source = SourceExecutor::new(
        OperatorConfig::new(),
        || Careful { values: vec![1, 500, 2] },
        Vec::new,
        WriteStream::new(id(1)),
    );
    assert_eq!(source.execute(), Ok(true));
    assert_eq!(source.state, vec![Ok(()), Ok(()), Ok(())]);
    assert_eq!(source.write_stream.num_frames(), 0);
    assert_eq!(source.write_stream.num_pending(), 3);
}

struct Hundredfold;

impl OneInOneOut<(), u64, u64> for Hundredfold {
    fn on_data(&mut self, _: &mut (), data: &u64) -> Result<Vec<u64>, CallbackError> {
        Ok(vec![*data, 100 * data, 2 * data])
    }
}

#[test]
fn a_step_fails_at_the_first_output_that_cannot_be_encoded() {
    let processor =
        OneInOneOutMessageProcessor::new(OperatorConfig::new(), || Hundredfold, || (), remote_stream());
    let mut executor = OneInExecutor::new(OperatorConfig::new(), processor, ReadStream::new(id(9), 8));
    executor.read_stream.accept(Message::Payload(0)).unwrap();
    executor.read_stream.accept(Message::Payload(3)).unwrap();
    executor.read_stream.accept(Message::ProgressMarker(7)).unwrap();
    assert_eq!(executor.step(), Ok(Step::Processed));
    assert_eq!(executor.step(), Err(ExecutionError::Send(SendError::Encoding)));
    assert_eq!(executor.step(), Ok(Step::Processed));
    assert_eq!(
        drain(&mut executor.processor.write_stream),
        vec![
            Message::Payload(0),
            Message::Payload(0),
            Message::Payload(0),
            Message::Payload(3),
            Message::ProgressMarker(7),
        ]
    );
    assert_eq!(executor.processor.write_stream.num_frames(), 5);
    assert_eq!(executor.processor.write_stream.take_frame(), Some(vec![2, 0]));
}

#[test]
fn one_in_two_out_stops_at_an_output_that_cannot_be_encoded() {
    let mut split: OneInTwoOutExecutor<Parity, (), u64, u64, u64> = OneInTwoOutExecutor::new(
        OperatorConfig::new(),
        || Parity,
        || (),
        ReadStream::new(id(1), 8),
        remote_stream(),
        WriteStream::new(id(3)),
    );
    assert_eq!(
        split.conclude(Ok((vec![2, 400, 4], vec![5]))),
        Err(ExecutionError::Send(SendError::Encoding))
    );
    assert_eq!(drain(&mut split.left_write_stream), vec![Message::Payload(2)]);
    assert_eq!(split.right_write_stream.num_pending(), 0);
    assert_eq!(split.conclude(Ok((vec![6], vec![700]))), Ok(()));
    assert_eq!(drain(&mut split.right_write_stream), vec![Message::Payload(700)]);
}

#[test]
fn the_sum_is_thirty_with_the_doubler_on_another_node() {
    let mut graph = Graph::new();
    let (numbers, source) =
        connect_source(&mut graph, || Numbers { upto: 5 }, || 0u64, OperatorConfig::new());
    let (doubled, doubler) =
        connect_one_in_one_out(&mut graph, || Doubler, || (), OperatorConfig::new().node(1), &numbers);
    let sink = connect_sink(&mut graph, || Summer, || 0u64, OperatorConfig::new(), &doubled);
    assert_eq!(graph.validate(), Ok(()));

    let mut here = ChannelManager::new(&graph, 0, 16);
    let mut there = ChannelManager::new(&graph, 1, 16);
    let mut source = source.run(&mut here, Some(Box::new(Small))).unwrap();
    let mut doubler = doubler.run(&mut there, Some(Box::new(Small))).unwrap();
    let mut sink = sink.run(&mut here).unwrap();

    assert_eq!(source.execute(), Ok(true));
    while let Some(frame) = source.write_stream.take_frame() {
        assert_eq!(erdos::wire::receive(&frame, &Small, &mut doubler.read_stream), Ok(()));
    }
    while doubler.step() == Ok(Step::Processed) {}
    while let Some(frame) = doubler.processor.write_stream.take_frame() {
        assert_eq!(erdos::wire::receive(&frame, &Small, &mut sink.read_stream), Ok(()));
    }
    while sink.step() == Ok(Step::Processed) {}
    assert_eq!(sink.processor.state, 30);
}

#[test]
fn a_source_into_a_sink_leaves_what_was_sent_in_order() {
    struct Keep;
    impl Sink<Vec<u64>, u64> for Keep {
        fn on_data(&mut self, seen: &mut Vec<u64>, data: &u64) -> Result<(), CallbackError> {
            seen.push(*data);
            Ok(())
        }
    }
    let mut graph = Graph::new();
    let (numbers, source) =
        connect_source(&mut graph, || Numbers { upto: 3 }, || 0u64, OperatorConfig::new());
    let sink = connect_sink(&mut graph, || Keep, Vec::new, OperatorConfig::new(), &numbers);
    let mut manager = ChannelManager::new(&graph, 0, 16);
    let mut source = source.run(&mut manager, None).unwrap();
    let mut sink = sink.run(&mut manager).unwrap();
    assert_eq!(source.execute(), Ok(true));
    source.write_stream.deliver(&mut sink.read_stream);
    while sink.step() == Ok(Step::Processed) {}
    assert_eq!(sink.processor.state, vec![1, 2, 3]);
}
