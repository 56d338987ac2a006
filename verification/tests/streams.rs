use erdos::graph::{Graph, GraphConstructionError, StreamSource};
use erdos::ids::Uuid;
use erdos::stream::{movable, 
    IngestStream, LoopStream, Message, OperatorStream, ReadStream, SendError, Stream, WriteStream,
    WriteStreamT,
};

struct Fixed(u128);

impl Stream<u64> for Fixed {
    fn id(&self) -> Uuid {
        Uuid::new(self.0)
    }
}

#[test]
fn operator_streams_get_consecutive_ids() {
    let mut graph = Graph::new();
    let a: OperatorStream<u64> = OperatorStream::new(&mut graph);
    let b: OperatorStream<u64> = OperatorStream::new(&mut graph);
    assert_eq!(a.id().value, 0);
    assert_eq!(b.id().value, 1);
    assert_eq!(graph.num_streams(), 0);
    assert_eq!(graph.remaining_ids(), u128::MAX - 2);
}

#[test]
fn cloned_handle_has_the_same_identity() {
    let mut graph = Graph::new();
    let a: OperatorStream<u64> = OperatorStream::new(&mut graph);
    let b = a.clone();
    assert_eq!(a.id(), b.id());
}

#[test]
fn stream_name_defaults_to_identity_text() {
    let mut graph = Graph::new();
    let stream: IngestStream<u64> = IngestStream::new(&mut graph);
    assert_eq!(stream.name(&graph), "00000000-0000-0000-0000-000000000000");
}

#[test]
fn renaming_is_seen_through_every_handle() {
    let mut graph = Graph::new();
    let mut a: OperatorStream<u64> = OperatorStream::new(&mut graph);
    let b = a.clone();
    a.set_name(&mut graph, "numbers");
    assert_eq!(a.name(&graph), "numbers");
    assert_eq!(b.name(&graph), "numbers");
    a.set_name(&mut graph, "integers");
    assert_eq!(b.name(&graph), "integers");
}

#[test]
fn renaming_one_stream_leaves_the_others() {
    let mut graph = Graph::new();
    let mut a: OperatorStream<u64> = OperatorStream::new(&mut graph);
    let b: OperatorStream<u64> = OperatorStream::new(&mut graph);
    a.set_name(&mut graph, "left");
    assert_eq!(b.name(&graph), "00000000-0000-0000-0000-000000000001");
}

#[test]
fn a_stream_of_the_caller_is_named_through_the_graph() {
    let mut graph = Graph::new();
    let mut stream = Fixed(9);
    assert_eq!(stream.name(&graph), "00000000-0000-0000-0000-000000000009");
    stream.set_name(&mut graph, "mine");
    assert_eq!(stream.name(&graph), "mine");
    assert_eq!(graph.get_stream_name(&Uuid::new(9)), "mine");
}

#[test]
fn ingest_stream_is_held_by_the_graph() {
    let mut graph = Graph::new();
    let stream: IngestStream<u64> = IngestStream::new(&mut graph);
    assert_eq!(graph.num_streams(), 1);
    assert!(matches!(graph.stream_source(stream.id()), Some(StreamSource::Ingest)));
}

#[test]
fn loop_stream_starts_unbound() {
    let mut graph = Graph::new();
    let stream: LoopStream<u64> = LoopStream::new(&mut graph);
    assert!(matches!(graph.stream_source(stream.id()), Some(StreamSource::Loop(None))));
    assert_eq!(
        graph.validate(),
        Err(GraphConstructionError::UnboundLoop { stream: stream.id() })
    );
}

#[test]
fn local_delivery_keeps_order() {
    let mut write: WriteStream<char> = WriteStream::new(Uuid::new(7));
    let mut read: ReadStream<char> = ReadStream::new(Uuid::new(7), 16);
    assert!(write.send(Message::Payload('A')).is_ok());
    assert!(write.send(Message::Payload('B')).is_ok());
    assert!(write.send(Message::Payload('C')).is_ok());
    assert_eq!(write.num_pending(), 3);
    assert_eq!(write.deliver(&mut read), 3);
    assert_eq!(write.num_pending(), 0);
    assert_eq!(read.try_read(), Some(Message::Payload('A')));
    assert_eq!(read.try_read(), Some(Message::Payload('B')));
    assert_eq!(read.try_read(), Some(Message::Payload('C')));
    assert_eq!(read.try_read(), None);
}

#[test]
fn delivery_between_sends_keeps_order() {
    let mut write: WriteStream<u32> = WriteStream::new(Uuid::new(1));
    let mut read: ReadStream<u32> = ReadStream::new(Uuid::new(1), 2);
    let mut observed = Vec::new();
    for value in 0..10u32 {
        write.send(Message::Payload(value)).unwrap();
        if value % 3 == 0 {
            write.deliver(&mut read);
        }
        if value % 2 == 0 {
            if let Some(Message::Payload(seen)) = read.try_read() {
                observed.push(seen);
            }
        }
    }
    loop {
        write.deliver(&mut read);
        match read.try_read() {
            Some(Message::Payload(seen)) => observed.push(seen),
            Some(Message::ProgressMarker(_)) => panic!("no marker was sent"),
            None => break,
        }
    }
    assert_eq!(observed, (0..10).collect::<Vec<u32>>());
}

#[test]
fn markers_keep_their_place_among_payloads() {
    let mut write: WriteStream<u8> = WriteStream::new(Uuid::new(1));
    let mut read: ReadStream<u8> = ReadStream::new(Uuid::new(1), 8);
    write.send(Message::Payload(1)).unwrap();
    write.send(Message::ProgressMarker(5)).unwrap();
    write.send(Message::Payload(2)).unwrap();
    write.deliver(&mut read);
    assert_eq!(read.try_read(), Some(Message::Payload(1)));
    assert_eq!(read.try_read(), Some(Message::ProgressMarker(5)));
    assert_eq!(read.try_read(), Some(Message::Payload(2)));
}

#[test]
fn full_reader_makes_delivery_wait() {
    let mut write: WriteStream<u8> = WriteStream::new(Uuid::new(1));
    let mut read: ReadStream<u8> = ReadStream::new(Uuid::new(1), 2);
    for value in 1..=5u8 {
        write.send(Message::Payload(value)).unwrap();
    }
    assert_eq!(write.deliver(&mut read), 2);
    assert_eq!(read.num_queued(), 2);
    assert_eq!(write.num_pending(), 3);
    assert_eq!(write.deliver(&mut read), 0);
    assert_eq!(read.try_read(), Some(Message::Payload(1)));
    assert_eq!(write.deliver(&mut read), 1);
    assert_eq!(read.try_read(), Some(Message::Payload(2)));
    assert_eq!(read.try_read(), Some(Message::Payload(3)));
    assert_eq!(write.deliver(&mut read), 2);
    assert_eq!(read.try_read(), Some(Message::Payload(4)));
    assert_eq!(read.try_read(), Some(Message::Payload(5)));
    assert_eq!(read.try_read(), None);
}

#[test]
fn reader_without_room_takes_nothing() {
    let mut write: WriteStream<u8> = WriteStream::new(Uuid::new(1));
    let mut read: ReadStream<u8> = ReadStream::new(Uuid::new(1), 0);
    write.send(Message::Payload(1)).unwrap();
    assert_eq!(write.deliver(&mut read), 0);
    assert_eq!(write.num_pending(), 1);
    assert_eq!(read.accept(Message::Payload(9)), Err(Message::Payload(9)));
}

#[test]
fn closed_stream_refuses_to_send() {
    let mut write: WriteStream<u8> = WriteStream::new(Uuid::new(1));
    write.send(Message::Payload(1)).unwrap();
    assert!(!write.closed());
    write.close();
    assert!(write.closed());
    assert_eq!(write.send(Message::Payload(2)), Err(SendError::Closed));
    assert_eq!(write.forward_marker(3), Err(SendError::Closed));
    assert_eq!(write.forward(vec![4, 5]), Err(SendError::Closed));
    assert_eq!(write.forward(Vec::new()), Ok(()));
    assert_eq!(write.num_pending(), 1);
    assert_eq!(write.take_next(), Some(Message::Payload(1)));
    assert_eq!(write.take_next(), None);
}

#[test]
fn forward_sends_outputs_in_order() {
    let mut write: WriteStream<u8> = WriteStream::new(Uuid::new(1));
    assert_eq!(write.forward(vec![3, 1, 2]), Ok(()));
    assert_eq!(write.forward_marker(9), Ok(()));
    assert_eq!(write.take_next(), Some(Message::Payload(3)));
    assert_eq!(write.take_next(), Some(Message::Payload(1)));
    assert_eq!(write.take_next(), Some(Message::Payload(2)));
    assert_eq!(write.take_next(), Some(Message::ProgressMarker(9)));
    assert_eq!(write.take_next(), None);
}

#[test]
fn accept_queues_behind_what_waits() {
    let mut read: ReadStream<u8> = ReadStream::new(Uuid::new(4), 2);
    assert_eq!(read.id(), Uuid::new(4));
    assert_eq!(read.accept(Message::Payload(1)), Ok(()));
    assert_eq!(read.accept(Message::ProgressMarker(2)), Ok(()));
    assert_eq!(read.accept(Message::Payload(3)), Err(Message::Payload(3)));
    assert_eq!(read.try_read(), Some(Message::Payload(1)));
    assert_eq!(read.try_read(), Some(Message::ProgressMarker(2)));
}

#[test]
fn broadcast_gives_every_reader_every_message() {
    let mut write: WriteStream<String> = WriteStream::new(Uuid::new(1));
    let mut readers: Vec<ReadStream<String>> =
        (0..3).map(|_| ReadStream::new(Uuid::new(1), 8)).collect();
    for text in ["a", "b", "c"] {
        write.send(Message::Payload(String::from(text))).unwrap();
    }
    write.send(Message::ProgressMarker(3)).unwrap();
    assert_eq!(write.broadcast(&mut readers), 4);
    assert_eq!(write.num_pending(), 0);
    for reader in readers.iter_mut() {
        assert_eq!(reader.try_read(), Some(Message::Payload(String::from("a"))));
        assert_eq!(reader.try_read(), Some(Message::Payload(String::from("b"))));
        assert_eq!(reader.try_read(), Some(Message::Payload(String::from("c"))));
        assert_eq!(reader.try_read(), Some(Message::ProgressMarker(3)));
        assert_eq!(reader.try_read(), None);
    }
}

#[test]
fn broadcast_waits_for_the_fullest_reader() {
    let mut write: WriteStream<u8> = WriteStream::new(Uuid::new(1));
    let mut readers: Vec<ReadStream<u8>> =
        vec![ReadStream::new(Uuid::new(1), 5), ReadStream::new(Uuid::new(1), 2), ReadStream::new(Uuid::new(1), 9)];
    readers[1].accept(Message::Payload(100)).unwrap();
    for value in 1..=4u8 {
        write.send(Message::Payload(value)).unwrap();
    }
    assert_eq!(write.broadcast(&mut readers), 1);
    assert_eq!(write.num_pending(), 3);
    assert_eq!(readers[0].num_queued(), 1);
    assert_eq!(readers[1].num_queued(), 2);
    assert_eq!(readers[2].num_queued(), 1);
    assert_eq!(write.broadcast(&mut readers), 0);
    assert_eq!(readers[1].try_read(), Some(Message::Payload(100)));
    assert_eq!(readers[1].try_read(), Some(Message::Payload(1)));
    assert_eq!(write.broadcast(&mut readers), 2);
    assert_eq!(write.broadcast(&mut readers), 0);
    assert_eq!(readers[1].try_read(), Some(Message::Payload(2)));
    assert_eq!(write.broadcast(&mut readers), 1);
    for reader in readers.iter_mut() {
        let mut seen = Vec::new();
        while let Some(Message::Payload(value)) = reader.try_read() {
            seen.push(value);
        }
        assert_eq!(*seen.last().unwrap(), 4);
        assert!(seen.windows(2).all(|pair| pair[0] < pair[1]));
    }
}

#[test]
fn broadcast_without_readers_moves_nothing() {
    let mut write: WriteStream<u8> = WriteStream::new(Uuid::new(1));
    write.send(Message::Payload(1)).unwrap();
    let mut readers: Vec<ReadStream<u8>> = Vec::new();
    assert_eq!(write.broadcast(&mut readers), 0);
    assert_eq!(write.num_pending(), 1);
}

#[test]
fn broadcast_to_one_reader_is_delivery() {
    let mut write: WriteStream<u8> = WriteStream::new(Uuid::new(1));
    for value in 1..=3u8 {
        write.send(Message::Payload(value)).unwrap();
    }
    let mut readers = vec![ReadStream::new(Uuid::new(1), 2)];
    assert_eq!(write.broadcast(&mut readers), 2);
    assert_eq!(readers[0].try_read(), Some(Message::Payload(1)));
    assert_eq!(readers[0].try_read(), Some(Message::Payload(2)));
    assert_eq!(readers[0].capacity(), 2);
    assert!(readers[0].has_room());
}

#[test]
fn a_copy_of_a_message_equals_it() {
    let payload = Message::Payload(vec![1u8, 2, 3]);
    assert_eq!(payload.clone(), payload);
    let marker: Message<Vec<u8>> = Message::ProgressMarker(9);
    assert_eq!(marker.clone(), marker);
}

#[test]
fn as_many_messages_move_as_every_reader_has_room_for() {
    assert_eq!(movable(5, &vec![3, 7, 4]), 3);
    assert_eq!(movable(2, &vec![3, 7, 4]), 2);
    assert_eq!(movable(5, &vec![3, 0, 4]), 0);
    assert_eq!(movable(5, &vec![9]), 5);
    assert_eq!(movable(5, &Vec::new()), 0);
    assert_eq!(movable(0, &vec![1]), 0);
}

#[test]
fn room_is_what_is_left_of_the_capacity() {
    let mut read: ReadStream<u8> = ReadStream::new(Uuid::new(1), 2);
    assert_eq!(read.room(), 2);
    read.accept(Message::Payload(1)).unwrap();
    assert_eq!(read.room(), 1);
    read.accept(Message::Payload(2)).unwrap();
    assert_eq!(read.room(), 0);
    assert_eq!(ReadStream::<u8>::new(Uuid::new(1), 0).room(), 0);
}
