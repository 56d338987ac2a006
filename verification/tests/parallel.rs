use erdos::config::OperatorConfig;
use erdos::executors::{
    ExecutionError, OneInExecutor, OneInMessageProcessorT, ParallelOneInOneOutMessageProcessor,
    ParallelSinkMessageProcessor, Step,
};
use erdos::ids::Uuid;
use erdos::operator::{CallbackError, ParallelOneInOneOut, ParallelSink};
use erdos::pool::{merge_in_order, DispatchPolicy, WorkerPool};
use erdos::state::AppendableState;
use erdos::stream::{Message, ReadStream, SendError, WriteStream};

struct Square;

impl ParallelSink<u64, u64> for Square {
    fn on_data(&self, data: &u64) -> Result<u64, CallbackError> {
        if *data == 0 {
            Err(CallbackError { message: String::from("zero") })
        } else {
            Ok(data * data)
        }
    }
}

impl ParallelOneInOneOut<u64, String, u64> for Square {
    fn on_data(&self, data: &u64) -> Result<(Vec<String>, u64), CallbackError> {
        if *data == 0 {
            Err(CallbackError { message: String::from("zero") })
        } else {
            Ok((vec![format!("{}", data * data)], *data))
        }
    }
}

fn add(a: &u64, b: &u64) -> u64 {
    a + b
}

fn total() -> AppendableState<u64, fn(&u64, &u64) -> u64> {
    AppendableState::new(0, add as fn(&u64, &u64) -> u64)
}

#[test]
fn appendable_state_merges_partial_results() {
    let mut state = AppendableState::new(10u64, |a: &u64, b: &u64| a.max(b).clone());
    assert_eq!(*state.get(), 10);
    state.append(3);
    assert_eq!(*state.get(), 10);
    state.append(12);
    assert_eq!(*state.get(), 12);
}

#[test]
fn appendable_state_merges_in_the_order_given() {
    let mut state = AppendableState::new(String::new(), |a: &String, b: &String| format!("{}{}", a, b));
    state.append(String::from("a"));
    state.append(String::from("b"));
    state.append(String::from("c"));
    assert_eq!(state.get(), "abc");
}

#[test]
fn pool_has_at_least_one_worker() {
    assert_eq!(WorkerPool::<u64>::new(0, DispatchPolicy::RoundRobin).num_workers(), 1);
    assert_eq!(WorkerPool::<u64>::new(1, DispatchPolicy::RoundRobin).num_workers(), 1);
    assert_eq!(WorkerPool::<u64>::new(5, DispatchPolicy::LeastLoaded).num_workers(), 5);
}

#[test]
fn round_robin_takes_turns() {
    let mut pool: WorkerPool<u64> = WorkerPool::new(3, DispatchPolicy::RoundRobin);
    let order: Vec<usize> = (0..7).map(|_| pool.assign()).collect();
    assert_eq!(order, vec![0, 1, 2, 0, 1, 2, 0]);
}

#[test]
fn least_loaded_picks_the_first_of_the_idlest() {
    let mut pool: WorkerPool<u64> = WorkerPool::new(3, DispatchPolicy::LeastLoaded);
    assert_eq!(pool.assign(), 0);
    pool.finish(0, 1);
    assert_eq!(pool.assign(), 1);
    pool.finish(1, 2);
    pool.finish(1, 3);
    assert_eq!(pool.assign(), 2);
    pool.finish(2, 4);
    pool.finish(2, 5);
    assert_eq!(pool.assign(), 0);
    pool.finish(0, 6);
    assert_eq!(pool.assign(), 0);
    assert_eq!(pool.complete(1), Some(2));
    assert_eq!(pool.assign(), 1);
}

#[test]
fn pool_hands_out_each_workers_results_in_order() {
    let mut pool: WorkerPool<u64> = WorkerPool::new(2, DispatchPolicy::RoundRobin);
    pool.finish(0, 10);
    pool.finish(1, 20);
    pool.finish(0, 11);
    assert_eq!(pool.num_waiting(0), 2);
    assert_eq!(pool.num_waiting(1), 1);
    assert_eq!(pool.complete(0), Some(10));
    assert_eq!(pool.complete(0), Some(11));
    assert_eq!(pool.complete(0), None);
    assert_eq!(pool.complete(1), Some(20));
    assert_eq!(pool.complete(1), None);
    assert_eq!(pool.complete(7), None);
}

fn squares(workers: usize) -> ParallelSinkMessageProcessor<Square, u64, fn(&u64, &u64) -> u64> {
    ParallelSinkMessageProcessor::new(OperatorConfig::new().workers(workers), || Square, total)
}

/// Feeds 1..=6 and merges in the order `schedule`.
fn merged_under(workers: usize, schedule: &[usize]) -> u64 {
    let mut processor = squares(workers);
    for value in 1..=6u64 {
        assert_eq!(processor.process(Message::Payload(value)), Ok(()));
    }
    assert_eq!(*processor.state.get(), 0);
    let mut merged = 0;
    for worker in schedule {
        if processor.complete(*worker) {
            merged += 1;
        }
    }
    assert_eq!(merged, 6);
    for worker in 0..workers {
        assert!(!processor.complete(worker));
    }
    *processor.state.get()
}

#[test]
fn merged_state_does_not_depend_on_the_schedule() {
    let expected = 1 + 4 + 9 + 16 + 25 + 36;
    assert_eq!(merged_under(3, &[0, 0, 1, 1, 2, 2]), expected);
    assert_eq!(merged_under(3, &[2, 1, 0, 2, 1, 0]), expected);
    assert_eq!(merged_under(3, &[1, 2, 2, 0, 1, 0]), expected);
    assert_eq!(merged_under(3, &[0, 1, 2, 0, 1, 2, 0, 1, 2]), expected);
    assert_eq!(merged_under(2, &[1, 1, 1, 0, 0, 0]), expected);
    assert_eq!(merged_under(1, &[0, 0, 0, 0, 0, 0]), expected);
    assert_eq!(merged_under(6, &[5, 3, 1, 0, 2, 4]), expected);
}

#[test]
fn merged_state_does_not_depend_on_the_number_of_workers() {
    for workers in 1..=8 {
        let mut schedule = Vec::new();
        for _ in 0..6 {
            for worker in (0..workers).rev() {
                schedule.push(worker);
            }
        }
        assert_eq!(merged_under(workers, &schedule), 91);
    }
}

#[test]
fn parallel_sink_without_workers_named_has_one() {
    let processor = ParallelSinkMessageProcessor::new(OperatorConfig::new(), || Square, total);
    assert_eq!(processor.pool.num_workers(), 1);
    let processor = ParallelSinkMessageProcessor::new(OperatorConfig::new().workers(0), || Square, total);
    assert_eq!(processor.pool.num_workers(), 1);
}

#[test]
fn parallel_sink_keeps_results_until_they_are_merged() {
    let mut processor = squares(2);
    assert_eq!(processor.process(Message::Payload(3)), Ok(()));
    assert_eq!(processor.process(Message::ProgressMarker(1)), Ok(()));
    assert_eq!(processor.process(Message::Payload(4)), Ok(()));
    assert_eq!(processor.pool.num_waiting(0), 1);
    assert_eq!(processor.pool.num_waiting(1), 1);
    assert_eq!(*processor.state.get(), 0);
    assert!(processor.complete(1));
    assert_eq!(*processor.state.get(), 16);
    assert!(!processor.complete(1));
    assert!(processor.complete(0));
    assert_eq!(*processor.state.get(), 25);
}

#[test]
fn parallel_sink_failure_keeps_nothing() {
    let mut processor = squares(2);
    assert_eq!(
        processor.process(Message::Payload(0)),
        Err(ExecutionError::Callback(CallbackError { message: String::from("zero") }))
    );
    assert_eq!(processor.pool.num_waiting(0), 0);
    assert_eq!(processor.process(Message::Payload(2)), Ok(()));
    assert_eq!(processor.pool.num_waiting(0), 1);
}

#[test]
fn parallel_one_in_one_out_sends_at_once_and_merges_later() {
    let processor = ParallelOneInOneOutMessageProcessor::new(
        OperatorConfig::new().workers(2),
        || Square,
        total,
        WriteStream::new(Uuid::new(2)),
    );
    let mut executor = OneInExecutor::new(OperatorConfig::new(), processor, ReadStream::new(Uuid::new(1), 8));
    for value in [2u64, 3, 4] {
        executor.read_stream.accept(Message::Payload(value)).unwrap();
    }
    executor.read_stream.accept(Message::ProgressMarker(9)).unwrap();
    while executor.step() == Ok(Step::Processed) {}
    let mut sent = Vec::new();
    while let Some(msg) = executor.processor.write_stream.take_next() {
        sent.push(msg);
    }
    assert_eq!(
        sent,
        vec![
            Message::Payload(String::from("4")),
            Message::Payload(String::from("9")),
            Message::Payload(String::from("16")),
            Message::ProgressMarker(9),
        ]
    );
    assert_eq!(*executor.processor.state.get(), 0);
    assert!(executor.processor.complete(1));
    assert!(executor.processor.complete(0));
    assert!(executor.processor.complete(0));
    assert!(!executor.processor.complete(0));
    assert_eq!(*executor.processor.state.get(), 9);
}

#[test]
fn parallel_one_in_one_out_reports_failures() {
    let mut stream = WriteStream::new(Uuid::new(2));
    stream.close();
    let mut processor = ParallelOneInOneOutMessageProcessor::new(
        OperatorConfig::new().workers(2),
        || Square,
        total,
        stream,
    );
    assert_eq!(
        processor.process(Message::Payload(0)),
        Err(ExecutionError::Callback(CallbackError { message: String::from("zero") }))
    );
    assert_eq!(processor.pool.num_waiting(0), 0);
    assert_eq!(processor.process(Message::Payload(5)), Err(ExecutionError::Send(SendError::Closed)));
    assert_eq!(processor.pool.num_waiting(0), 1);
    assert_eq!(processor.process(Message::ProgressMarker(1)), Err(ExecutionError::Send(SendError::Closed)));
    assert_eq!(processor.conclude(Ok((Vec::new(), 7))), Ok(()));
    assert_eq!(processor.pool.num_waiting(1), 1);
}

#[test]
fn changing_the_policy_keeps_what_waits() {
    let mut pool: WorkerPool<u64> = WorkerPool::new(3, DispatchPolicy::RoundRobin);
    assert_eq!(pool.assign(), 0);
    pool.finish(0, 1);
    pool.finish(1, 2);
    pool.set_policy(DispatchPolicy::LeastLoaded);
    assert_eq!(pool.assign(), 2);
    assert_eq!(pool.num_waiting(0), 1);
    pool.set_policy(DispatchPolicy::RoundRobin);
    assert_eq!(pool.assign(), 1);
    assert_eq!(pool.complete(1), Some(2));
}

#[test]
fn a_schedule_merges_in_its_order() {
    let mut state = AppendableState::new(String::new(), |a: &String, b: &String| format!("{}{}", a, b));
    let mut pool: WorkerPool<String> = WorkerPool::new(2, DispatchPolicy::RoundRobin);
    pool.finish(0, String::from("a"));
    pool.finish(0, String::from("b"));
    pool.finish(1, String::from("x"));
    assert_eq!(merge_in_order(&mut state, &mut pool, &vec![1, 0, 1, 5, 0]), 3);
    assert_eq!(state.get(), "xab");
    assert_eq!(merge_in_order(&mut state, &mut pool, &vec![0, 1]), 0);
    assert_eq!(state.get(), "xab");
}

#[test]
fn every_complete_schedule_gives_the_same_sum() {
    let schedules: Vec<Vec<usize>> = vec![
        vec![0, 1, 2, 0, 1, 2],
        vec![2, 2, 1, 1, 0, 0],
        vec![0, 0, 0, 1, 1, 1, 2, 2, 2],
        vec![1, 0, 2, 2, 0, 1],
        vec![9, 2, 1, 0, 9, 0, 1, 2],
    ];
    for schedule in schedules {
        let mut processor = squares(3);
        for value in 1..=6u64 {
            processor.process(Message::Payload(value)).unwrap();
        }
        assert_eq!(processor.complete_in_order(&schedule), 6);
        assert_eq!(*processor.state.get(), 91);
        for worker in 0..3 {
            assert_eq!(processor.pool.num_waiting(worker), 0);
        }
    }
}

#[test]
fn an_incomplete_schedule_merges_part() {
    let mut processor = squares(2);
    for value in 1..=4u64 {
        processor.process(Message::Payload(value)).unwrap();
    }
    assert_eq!(processor.complete_in_order(&vec![1, 1, 1]), 2);
    assert_eq!(*processor.state.get(), 4 + 16);
    assert_eq!(processor.complete_in_order(&Vec::new()), 0);
    assert_eq!(processor.complete_in_order(&vec![0, 0]), 2);
    assert_eq!(*processor.state.get(), 30);
}

#[test]
fn parallel_one_in_one_out_merges_by_schedule() {
    let mut first = ParallelOneInOneOutMessageProcessor::new(
        OperatorConfig::new().workers(3),
        || Square,
        total,
        WriteStream::new(Uuid::new(2)),
    );
    let mut second = ParallelOneInOneOutMessageProcessor::new(
        OperatorConfig::new().workers(3),
        || Square,
        total,
        WriteStream::new(Uuid::new(2)),
    );
    for value in 1..=5u64 {
        first.process(Message::Payload(value)).unwrap();
        second.process(Message::Payload(value)).unwrap();
    }
    assert_eq!(first.complete_in_order(&vec![0, 1, 2, 0, 1]), 5);
    assert_eq!(second.complete_in_order(&vec![1, 1, 2, 0, 0]), 5);
    assert_eq!(*first.state.get(), 15);
    assert_eq!(*second.state.get(), 15);
}
