use erdos::config::OperatorConfig;
use erdos::connect::{
    connect_one_in_one_out, connect_one_in_two_out, connect_parallel_only_one_in_one_out,
    connect_parallel_sink, connect_sink, connect_source, connect_two_in_one_out,
};
use erdos::graph::{Graph, GraphConstructionError, StreamSource, Topology};
use erdos::ids::Uuid;
use erdos::operator::{
    CallbackError, OneInOneOut, OneInTwoOut, ParallelOneInOneOut, ParallelSink, Sink, Source,
    TwoInOneOut,
};
use erdos::state::AppendableState;
use erdos::stream::{ExtractStream, IngestStream, LoopStream, OperatorStream, Stream, WriteStream};

struct Idle;

impl Source<(), u64> for Idle {
    fn run(&mut self, _: &mut (), _: &mut WriteStream<u64>) -> Result<(), CallbackError> {
        Ok(())
    }
}

impl Sink<(), u64> for Idle {
    fn on_data(&mut self, _: &mut (), _: &u64) -> Result<(), CallbackError> {
        Ok(())
    }
}

impl ParallelSink<u64, u64> for Idle {
    fn on_data(&self, data: &u64) -> Result<u64, CallbackError> {
        Ok(*data)
    }
}

impl OneInOneOut<(), u64, u64> for Idle {
    fn on_data(&mut self, _: &mut (), data: &u64) -> Result<Vec<u64>, CallbackError> {
        Ok(vec![*data])
    }
}

impl ParallelOneInOneOut<u64, u64, u64> for Idle {
    fn on_data(&self, data: &u64) -> Result<(Vec<u64>, u64), CallbackError> {
        Ok((vec![*data], *data))
    }
}

impl TwoInOneOut<(), u64, u64, u64> for Idle {
    fn on_left_data(&mut self, _: &mut (), data: &u64) -> Result<Vec<u64>, CallbackError> {
        Ok(vec![*data])
    }

    fn on_right_data(&mut self, _: &mut (), data: &u64) -> Result<Vec<u64>, CallbackError> {
        Ok(vec![*data])
    }
}

impl OneInTwoOut<(), u64, u64, u64> for Idle {
    fn on_data(&mut self, _: &mut (), data: &u64) -> Result<(Vec<u64>, Vec<u64>), CallbackError> {
        Ok((vec![*data], vec![*data]))
    }
}

fn sum(a: &u64, b: &u64) -> u64 {
    a + b
}

fn total() -> AppendableState<u64, fn(&u64, &u64) -> u64> {
    AppendableState::new(0, sum as fn(&u64, &u64) -> u64)
}

#[test]
fn topologies_have_the_arities_of_the_table() {
    let table = [
        (Topology::Source, 0, 1, false),
        (Topology::Sink, 1, 0, false),
        (Topology::ParallelSink, 1, 0, true),
        (Topology::OneInOneOut, 1, 1, false),
        (Topology::ParallelOneInOneOut, 1, 1, true),
        (Topology::TwoInOneOut, 2, 1, false),
        (Topology::OneInTwoOut, 1, 2, false),
    ];
    for (topology, inputs, outputs, appendable) in table {
        assert_eq!(topology.num_inputs(), inputs);
        assert_eq!(topology.num_outputs(), outputs);
        assert_eq!(topology.has_appendable_state(), appendable);
    }
}

#[test]
fn empty_graph_is_complete() {
    let graph = Graph::new();
    assert_eq!(graph.num_operators(), 0);
    assert_eq!(graph.num_streams(), 0);
    assert_eq!(graph.validate(), Ok(()));
}

#[test]
fn connect_source_registers_operator_and_stream() {
    let mut graph = Graph::new();
    let config = OperatorConfig::new().name("numbers").node(2);
    let (stream, runner) = connect_source(&mut graph, || Idle, || (), config);
    assert_eq!(stream.id(), Uuid::new(1));
    assert_eq!(runner.config.id, Uuid::new(0));
    assert_eq!(runner.write_stream_id, Uuid::new(1));
    assert_eq!(graph.num_operators(), 1);
    let operator = graph.operator(0);
    assert_eq!(operator.id, Uuid::new(0));
    assert_eq!(operator.name.as_deref(), Some("numbers"));
    assert_eq!(operator.node_id, 2);
    assert_eq!(operator.topology, Topology::Source);
    assert!(operator.read_stream_ids.is_empty());
    assert_eq!(operator.write_stream_ids, vec![Uuid::new(1)]);
    assert_eq!(graph.num_streams(), 1);
    assert_eq!(graph.stream(0).id, Uuid::new(1));
    assert_eq!(graph.stream(0).source, StreamSource::Operator(Uuid::new(0)));
}

#[test]
fn connect_ignores_the_identity_in_the_config() {
    let mut graph = Graph::new();
    let mut config = OperatorConfig::new();
    config.id = Uuid::new(77);
    let (_, runner) = connect_source(&mut graph, || Idle, || (), config);
    assert_eq!(runner.config.id, Uuid::new(0));
    assert_eq!(graph.operator(0).id, Uuid::new(0));
}

#[test]
fn every_connect_function_wires_its_arity() {
    let mut graph = Graph::new();
    let (a, _) = connect_source(&mut graph, || Idle, || (), OperatorConfig::new());
    let (b, _) = connect_one_in_one_out(&mut graph, || Idle, || (), OperatorConfig::new(), &a);
    let (c, _) = connect_parallel_only_one_in_one_out(
        &mut graph,
        || Idle,
        total,
        OperatorConfig::new().workers(3),
        &b,
    );
    let (d, _) = connect_two_in_one_out(&mut graph, || Idle, || (), OperatorConfig::new(), &b, &c);
    let (e, f, _) = connect_one_in_two_out(&mut graph, || Idle, || (), OperatorConfig::new(), &d);
    let _ = connect_sink(&mut graph, || Idle, || (), OperatorConfig::new(), &e);
    let _ = connect_parallel_sink(&mut graph, || Idle, total, OperatorConfig::new(), &f);

    assert_eq!(graph.num_operators(), 7);
    let shapes: Vec<Topology> = (0..7).map(|i| graph.operator(i).topology).collect();
    assert_eq!(
        shapes,
        vec![
            Topology::Source,
            Topology::OneInOneOut,
            Topology::ParallelOneInOneOut,
            Topology::TwoInOneOut,
            Topology::OneInTwoOut,
            Topology::Sink,
            Topology::ParallelSink,
        ]
    );
    for i in 0..7 {
        let operator = graph.operator(i);
        assert_eq!(operator.read_stream_ids.len(), operator.topology.num_inputs());
        assert_eq!(operator.write_stream_ids.len(), operator.topology.num_outputs());
    }
    assert_eq!(graph.operator(3).read_stream_ids, vec![b.id(), c.id()]);
    assert_eq!(graph.operator(4).write_stream_ids, vec![e.id(), f.id()]);
    assert_eq!(graph.operator(2).num_workers, Some(3));
    assert_eq!(graph.num_streams(), 6);
    assert_eq!(graph.validate(), Ok(()));
}

#[test]
fn connected_streams_get_identities_never_used_before() {
    let mut graph = Graph::new();
    let mut seen: Vec<Uuid> = Vec::new();
    let ingest: IngestStream<u64> = IngestStream::new(&mut graph);
    seen.push(ingest.id());
    let (first, _) = connect_source(&mut graph, || Idle, || (), OperatorConfig::new());
    assert!(!seen.contains(&first.id()));
    seen.push(first.id());
    let mut last = first;
    for _ in 0..20 {
        let (left, right, _) =
            connect_one_in_two_out(&mut graph, || Idle, || (), OperatorConfig::new(), &last);
        assert!(!seen.contains(&left.id()));
        seen.push(left.id());
        assert!(!seen.contains(&right.id()));
        seen.push(right.id());
        let (joined, _) =
            connect_two_in_one_out(&mut graph, || Idle, || (), OperatorConfig::new(), &left, &right);
        assert!(!seen.contains(&joined.id()));
        seen.push(joined.id());
        last = joined;
    }
    for i in 0..graph.num_operators() {
        assert!(!seen.contains(&graph.operator(i).id));
    }
}

#[test]
fn the_same_calls_build_the_same_graph() {
    fn build() -> Vec<(Uuid, Vec<Uuid>, Vec<Uuid>)> {
        let mut graph = Graph::new();
        let (a, _) = connect_source(&mut graph, || Idle, || (), OperatorConfig::new());
        let (b, _) = connect_one_in_one_out(&mut graph, || Idle, || (), OperatorConfig::new(), &a);
        let _ = connect_sink(&mut graph, || Idle, || (), OperatorConfig::new(), &b);
        (0..graph.num_operators())
            .map(|i| {
                let operator = graph.operator(i);
                (operator.id, operator.read_stream_ids.clone(), operator.write_stream_ids.clone())
            })
            .collect()
    }
    assert_eq!(build(), build());
}

#[test]
fn each_input_has_one_producer() {
    let mut graph = Graph::new();
    let ingest: IngestStream<u64> = IngestStream::new(&mut graph);
    let (a, _) = connect_source(&mut graph, || Idle, || (), OperatorConfig::new());
    let (b, _) = connect_two_in_one_out(&mut graph, || Idle, || (), OperatorConfig::new(), &a, &ingest);
    let (c, d, _) = connect_one_in_two_out(&mut graph, || Idle, || (), OperatorConfig::new(), &b);
    let _ = connect_sink(&mut graph, || Idle, || (), OperatorConfig::new(), &c);
    let _ = connect_sink(&mut graph, || Idle, || (), OperatorConfig::new(), &d);
    assert_eq!(graph.validate(), Ok(()));
    for i in 0..graph.num_operators() {
        for input in graph.operator(i).read_stream_ids.iter() {
            let stream = graph.resolve(*input);
            let producers: usize = (0..graph.num_operators())
                .map(|p| graph.operator(p).write_stream_ids.iter().filter(|w| **w == stream).count())
                .sum();
            if stream == ingest.id() {
                assert_eq!(producers, 0);
                assert_eq!(graph.stream_source(stream), Some(StreamSource::Ingest));
            } else {
                assert_eq!(producers, 1);
            }
        }
    }
}

#[test]
fn reading_a_stream_outside_the_graph_fails_validation() {
    let mut graph = Graph::new();
    let stray: OperatorStream<u64> = OperatorStream::new(&mut graph);
    let _ = connect_sink(&mut graph, || Idle, || (), OperatorConfig::new(), &stray);
    assert_eq!(
        graph.validate(),
        Err(GraphConstructionError::UnknownStream { consumer: Uuid::new(1), stream: stray.id() })
    );
}

#[test]
fn validation_names_the_first_missing_input() {
    let mut graph = Graph::new();
    let first: OperatorStream<u64> = OperatorStream::new(&mut graph);
    let second: OperatorStream<u64> = OperatorStream::new(&mut graph);
    let (_, runner) =
        connect_two_in_one_out(&mut graph, || Idle, || (), OperatorConfig::new(), &second, &first);
    assert_eq!(
        graph.validate(),
        Err(GraphConstructionError::UnknownStream {
            consumer: runner.config.id,
            stream: second.id()
        })
    );
}

#[test]
fn unbound_loop_is_reported_before_missing_inputs() {
    let mut graph = Graph::new();
    let stray: OperatorStream<u64> = OperatorStream::new(&mut graph);
    let _ = connect_sink(&mut graph, || Idle, || (), OperatorConfig::new(), &stray);
    let first: LoopStream<u64> = LoopStream::new(&mut graph);
    let _second: LoopStream<u64> = LoopStream::new(&mut graph);
    assert_eq!(
        graph.validate(),
        Err(GraphConstructionError::UnboundLoop { stream: first.id() })
    );
}

#[test]
fn a_loop_closes_a_cycle() {
    let mut graph = Graph::new();
    let (numbers, _) = connect_source(&mut graph, || Idle, || (), OperatorConfig::new());
    let feedback: LoopStream<u64> = LoopStream::new(&mut graph);
    let (joined, _) =
        connect_two_in_one_out(&mut graph, || Idle, || (), OperatorConfig::new(), &numbers, &feedback);
    assert_eq!(
        graph.validate(),
        Err(GraphConstructionError::UnboundLoop { stream: feedback.id() })
    );
    assert_eq!(feedback.connect_loop(&mut graph, &joined), Ok(()));
    assert_eq!(graph.stream_source(feedback.id()), Some(StreamSource::Loop(Some(joined.id()))));
    assert_eq!(graph.resolve(feedback.id()), joined.id());
    assert_eq!(graph.resolve(joined.id()), joined.id());
    assert_eq!(graph.validate(), Ok(()));
}

#[test]
fn a_loop_is_bound_once() {
    let mut graph = Graph::new();
    let (numbers, _) = connect_source(&mut graph, || Idle, || (), OperatorConfig::new());
    let feedback: LoopStream<u64> = LoopStream::new(&mut graph);
    assert_eq!(feedback.connect_loop(&mut graph, &numbers), Ok(()));
    assert_eq!(
        feedback.connect_loop(&mut graph, &numbers),
        Err(GraphConstructionError::AlreadyBound { stream: feedback.id() })
    );
}

#[test]
fn only_a_loop_stream_can_be_bound() {
    let mut graph = Graph::new();
    let (numbers, _) = connect_source(&mut graph, || Idle, || (), OperatorConfig::new());
    let ingest: IngestStream<u64> = IngestStream::new(&mut graph);
    assert_eq!(
        graph.connect_loop(ingest.id(), numbers.id()),
        Err(GraphConstructionError::NotALoop { stream: ingest.id() })
    );
    assert_eq!(
        graph.connect_loop(Uuid::new(1000), numbers.id()),
        Err(GraphConstructionError::NotALoop { stream: Uuid::new(1000) })
    );
}

#[test]
fn a_loop_is_bound_to_an_operator_stream_only() {
    let mut graph = Graph::new();
    let ingest: IngestStream<u64> = IngestStream::new(&mut graph);
    let feedback: LoopStream<u64> = LoopStream::new(&mut graph);
    let stray: OperatorStream<u64> = OperatorStream::new(&mut graph);
    assert_eq!(
        graph.connect_loop(feedback.id(), ingest.id()),
        Err(GraphConstructionError::NotAnOperatorStream { stream: ingest.id() })
    );
    assert_eq!(
        feedback.connect_loop(&mut graph, &stray),
        Err(GraphConstructionError::NotAnOperatorStream { stream: stray.id() })
    );
    assert_eq!(graph.stream_source(feedback.id()), Some(StreamSource::Loop(None)));
}

#[test]
fn feeding_node_follows_producer_driver_and_loop() {
    let mut graph = Graph::new();
    let ingest: IngestStream<u64> = IngestStream::new(&mut graph);
    let (numbers, _) = connect_source(&mut graph, || Idle, || (), OperatorConfig::new().node(4));
    let feedback: LoopStream<u64> = LoopStream::new(&mut graph);
    let stray: OperatorStream<u64> = OperatorStream::new(&mut graph);
    assert_eq!(graph.feeding_node(ingest.id()), Some(0));
    assert_eq!(graph.feeding_node(numbers.id()), Some(4));
    assert_eq!(graph.feeding_node(feedback.id()), None);
    assert_eq!(graph.feeding_node(stray.id()), None);
    feedback.connect_loop(&mut graph, &numbers).unwrap();
    assert_eq!(graph.feeding_node(feedback.id()), Some(4));
}

#[test]
fn lookups_find_what_the_graph_holds() {
    let mut graph = Graph::new();
    let (numbers, runner) = connect_source(&mut graph, || Idle, || (), OperatorConfig::new());
    assert_eq!(graph.find_stream(numbers.id()), Some(0));
    assert_eq!(graph.find_stream(runner.config.id), None);
    assert_eq!(graph.find_operator(runner.config.id), Some(0));
    assert_eq!(graph.find_operator(numbers.id()), None);
    assert_eq!(graph.stream_source(Uuid::new(50)), None);
}

#[test]
fn the_driver_reads_under_an_identity_of_its_own() {
    let mut graph = Graph::new();
    let (numbers, _) = connect_source(&mut graph, || Idle, || (), OperatorConfig::new());
    let first: ExtractStream<u64> = ExtractStream::new(&mut graph, &numbers);
    let second: ExtractStream<u64> = ExtractStream::new(&mut graph, &numbers);
    assert_eq!(first.id(), numbers.id());
    assert_eq!(second.id(), numbers.id());
    assert_eq!(first.reader(), Uuid::new(2));
    assert_eq!(second.reader(), Uuid::new(3));
    assert_eq!(graph.num_extracts(), 2);
    assert_eq!(graph.extract(0).id, first.reader());
    assert_eq!(graph.extract(1).stream, numbers.id());
    assert_eq!(graph.num_streams(), 1);
    assert_eq!(graph.validate(), Ok(()));
}

#[test]
fn the_driver_cannot_read_a_stream_outside_the_graph() {
    let mut graph = Graph::new();
    let stray: OperatorStream<u64> = OperatorStream::new(&mut graph);
    let extract: ExtractStream<u64> = ExtractStream::new(&mut graph, &stray);
    assert_eq!(
        graph.validate(),
        Err(GraphConstructionError::UnknownStream {
            consumer: extract.reader(),
            stream: stray.id()
        })
    );
}

#[test]
fn a_missing_operator_input_is_reported_before_a_missing_extract() {
    let mut graph = Graph::new();
    let stray: OperatorStream<u64> = OperatorStream::new(&mut graph);
    let _extract: ExtractStream<u64> = ExtractStream::new(&mut graph, &stray);
    let sink = connect_sink(&mut graph, || Idle, || (), OperatorConfig::new(), &stray);
    assert_eq!(
        graph.validate(),
        Err(GraphConstructionError::UnknownStream {
            consumer: sink.config.id,
            stream: stray.id()
        })
    );
}
