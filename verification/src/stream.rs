//! Streams carry messages between operators.
//!
//! The driver composes a graph from stream handles: an [`OperatorStream`] is
//! what a connect call returns, an [`IngestStream`] is fed by the driver, an
//! [`ExtractStream`] is read by the driver, and a [`LoopStream`] stands for
//! a stream that is connected later. A handle holds identities and nothing
//! else.
//!
//! While the graph runs, an operator writes to a [`WriteStream`] and reads
//! from a [`ReadStream`]. A write stream keeps what was sent until it is
//! delivered; delivery moves the messages, in order and without copying
//! them, into the read stream of a consumer on the same node. A write
//! stream with a reader on another node also encodes what is sent, when it
//! is sent, and keeps the frames for the transport.
use crate::graph::{Graph, GraphConstructionError, StreamSource};
use crate::ids::{StreamId, Uuid};
use crate::wire::{encode_frame, encode_payload, encoded_by, frame_of, Encoded, PayloadCodec};
use std::collections::VecDeque;
use std::marker::PhantomData;
use vstd::prelude::*;

verus! {

/// A logical time.
pub type Timestamp = u64;

/// What travels on a stream.
#[derive(Debug, PartialEq, Eq)]
pub enum Message<D> {
    /// A data item.
    Payload(D),
    /// No payload of a logical time below this one follows on the stream.
    ProgressMarker(Timestamp),
}

/// Whether `copy` is a copy of `original`: the same progress marker, or a
/// payload that is a clone of the original's.
pub open spec fn copy_of<D: Clone>(original: Message<D>, copy: Message<D>) -> bool {
    match (original, copy) {
        (Message::Payload(data), Message::Payload(clone)) => cloned(data, clone),
        (Message::ProgressMarker(time), Message::ProgressMarker(same)) => time == same,
        _ => false,
    }
}

impl<D: Clone> Clone for Message<D> {
    fn clone(&self) -> (copy: Self)
        ensures
            copy_of(*self, copy),
    {
        match self {
            Message::Payload(data) => Message::Payload(data.clone()),
            Message::ProgressMarker(time) => Message::ProgressMarker(*time),
        }
    }
}

/// Why a message could not be sent.
#[derive(Clone, Copy, Debug, PartialEq, Eq, Structural)]
pub enum SendError {
    /// The write stream is closed.
    Closed,
    /// The payload could not be encoded for another node.
    Encoding,
}

/// The write end of a stream.
pub trait WriteStreamT<D> {
    /// Sends a message on the stream.
    fn send(&mut self, msg: Message<D>) -> Result<(), SendError>;
}

/// A handle to a stream of the graph.
pub trait Stream<D> {
    /// The identity of the stream.
    open spec fn stream_id(&self) -> StreamId {
        arbitrary()
    }

    fn id(&self) -> (id: StreamId)
        ensures
            id == self.stream_id(),
    ;

    /// The name of the stream in `graph`.
    fn name(&self, graph: &Graph) -> (name: String)
        ensures
            name@ == graph@.stream_name(self.stream_id()),
    {
        graph.get_stream_name(&self.id())
    }

    /// Names the stream in `graph`. Every handle to the stream sees the name.
    fn set_name(&mut self, graph: &mut Graph, name: &str)
        ensures
            final(graph)@ == old(graph)@.rename(old(self).stream_id(), name@),
            old(graph).wf() ==> final(graph).wf(),
            final(self).stream_id() == old(self).stream_id(),
    {
        graph.set_stream_name(&self.id(), name)
    }
}

/// The stream that a connected operator writes.
pub struct OperatorStream<D> {
    id: StreamId,
    phantom: PhantomData<D>,
}

impl<D> OperatorStream<D> {
    /// A stream under the next identity of `graph`. The graph does not hold
    /// it until an operator is connected that writes it.
    pub fn new(graph: &mut Graph) -> (stream: Self)
        requires
            old(graph).wf(),
            old(graph).can_issue(1),
        ensures
            final(graph).wf(),
            final(graph)@ == old(graph)@.issue(1),
            stream.stream_id().value == old(graph)@.issued,
            final(graph)@.is_unused(stream.stream_id()),
    {
        let id = graph.issue_id();
        OperatorStream { id, phantom: PhantomData }
    }
}

impl<D> Clone for OperatorStream<D> {
    fn clone(&self) -> (copy: Self)
        ensures
            copy == *self,
    {
        OperatorStream { id: self.id, phantom: PhantomData }
    }
}

impl<D> Stream<D> for OperatorStream<D> {
    closed spec fn stream_id(&self) -> StreamId {
        self.id
    }

    fn id(&self) -> (id: StreamId) {
        self.id
    }
}

/// A stream that the driver feeds.
pub struct IngestStream<D> {
    id: StreamId,
    phantom: PhantomData<D>,
}

impl<D> IngestStream<D> {
    /// Adds a stream to `graph` that the driver feeds.
    pub fn new(graph: &mut Graph) -> (stream: Self)
        requires
            old(graph).wf(),
            old(graph).can_issue(1),
        ensures
            final(graph).wf(),
            final(graph)@ == old(graph)@.add_stream(StreamSource::Ingest),
            stream.stream_id().value == old(graph)@.issued,
            !old(graph)@.has_stream(stream.stream_id()),
            final(graph)@.has_stream(stream.stream_id()),
    {
        let id = graph.add_stream(StreamSource::Ingest);
        IngestStream { id, phantom: PhantomData }
    }
}

impl<D> Stream<D> for IngestStream<D> {
    closed spec fn stream_id(&self) -> StreamId {
        self.id
    }

    fn id(&self) -> (id: StreamId) {
        self.id
    }
}

/// A stream that stands for one that is connected later. It is how a graph
/// gets a cycle: an operator reads the loop stream, and the loop stream is
/// then bound to a stream further down.
pub struct LoopStream<D> {
    id: StreamId,
    phantom: PhantomData<D>,
}

impl<D> LoopStream<D> {
    /// Adds a loop stream to `graph`. It is not bound.
    pub fn new(graph: &mut Graph) -> (stream: Self)
        requires
            old(graph).wf(),
            old(graph).can_issue(1),
        ensures
            final(graph).wf(),
            final(graph)@ == old(graph)@.add_stream(StreamSource::Loop(None)),
            stream.stream_id().value == old(graph)@.issued,
            !old(graph)@.has_stream(stream.stream_id()),
            final(graph)@.has_stream(stream.stream_id()),
    {
        let id = graph.add_stream(StreamSource::Loop(None));
        LoopStream { id, phantom: PhantomData }
    }

    /// Binds this loop stream to `stream`.
    pub fn connect_loop(&self, graph: &mut Graph, stream: &OperatorStream<D>) -> (result: Result<
        (),
        GraphConstructionError,
    >)
        requires
            old(graph).wf(),
        ensures
            final(graph).wf(),
            match result {
                Ok(()) => exists|k: int|
                    {
                        &&& old(graph)@.unbound_at(k)
                        &&& old(graph)@.streams[k].id == self.stream_id()
                        &&& old(graph)@.is_operator_stream(stream.stream_id())
                        &&& final(graph)@ == old(graph)@.bind_loop(k, stream.stream_id())
                    },
                Err(error) => {
                    &&& final(graph)@ == old(graph)@
                    &&& error == old(graph)@.why_not_bound(self.stream_id(), stream.stream_id())
                },
            },
            result is Ok <==> old(graph)@.can_bind(self.stream_id(), stream.stream_id()),
    {
        graph.connect_loop(self.id, stream.id())
    }
}

impl<D> Stream<D> for LoopStream<D> {
    closed spec fn stream_id(&self) -> StreamId {
        self.id
    }

    fn id(&self) -> (id: StreamId) {
        self.id
    }
}

/// A stream that the driver reads.
pub struct ExtractStream<D> {
    id: StreamId,
    reader: Uuid,
    phantom: PhantomData<D>,
}

impl<D> ExtractStream<D> {
    /// The identity under which the driver reads the stream. The read end
    /// of the stream for the driver is resolved under it.
    pub closed spec fn reader_id(&self) -> Uuid {
        self.reader
    }

    /// Adds a place to `graph` at which the driver reads `stream`.
    pub fn new<R: Stream<D>>(graph: &mut Graph, stream: &R) -> (extract: Self)
        requires
            old(graph).wf(),
            old(graph).can_issue(1),
        ensures
            final(graph).wf(),
            final(graph)@ == old(graph)@.add_extract(stream.stream_id()),
            extract.stream_id() == stream.stream_id(),
            extract.reader_id().value == old(graph)@.issued,
    {
        let id = stream.id();
        let reader = graph.add_extract(id);
        ExtractStream { id, reader, phantom: PhantomData }
    }

    /// The identity under which the driver reads the stream.
    pub fn reader(&self) -> (reader: Uuid)
        ensures
            reader == self.reader_id(),
    {
        self.reader
    }
}

impl<D> Stream<D> for ExtractStream<D> {
    closed spec fn stream_id(&self) -> StreamId {
        self.id
    }

    fn id(&self) -> (id: StreamId) {
        self.id
    }
}

/// The write end of a stream on the node of its producer. It has a codec
/// where the stream has a reader on another node.
#[verifier::reject_recursive_types(D)]
pub struct WriteStream<D> {
    id: StreamId,
    closed: bool,
    pending: VecDeque<Message<D>>,
    codec: Option<Box<dyn PayloadCodec<D>>>,
    frames: VecDeque<Vec<u8>>,
}

impl<D> WriteStream<D> {
    /// The identity of the stream.
    pub closed spec fn stream_id(&self) -> StreamId {
        self.id
    }

    /// Whether the stream is closed.
    pub closed spec fn is_closed(&self) -> bool {
        self.closed
    }

    /// The messages sent and not yet delivered, oldest first.
    pub closed spec fn pending(&self) -> Seq<Message<D>> {
        self.pending@
    }

    /// The codec that encodes what is sent, where the stream has a reader
    /// on another node.
    pub closed spec fn codec(&self) -> Option<Box<dyn PayloadCodec<D>>> {
        self.codec
    }

    /// Whether the stream encodes what is sent.
    pub open spec fn is_remote(&self) -> bool {
        self.codec() is Some
    }

    /// The frames of what was sent, for the transport to take, oldest
    /// first.
    pub closed spec fn frames(&self) -> Seq<Seq<u8>> {
        self.frames@.map_values(|frame: Vec<u8>| frame@)
    }

    /// This is an open write end of the stream `id` with nothing pending
    /// and no frame.
    pub open spec fn is_new(&self, id: StreamId) -> bool {
        &&& self.stream_id() == id
        &&& !self.is_closed()
        &&& self.pending() == Seq::<Message<D>>::empty()
        &&& self.frames() == Seq::<Seq<u8>>::empty()
    }

    /// An open write stream with nothing pending, for a stream whose
    /// readers are all on this node.
    pub fn new(id: StreamId) -> (stream: Self)
        ensures
            stream.is_new(id),
            !stream.is_remote(),
    {
        let stream = WriteStream {
            id,
            closed: false,
            pending: VecDeque::new(),
            codec: None,
            frames: VecDeque::new(),
        };
        assert(stream.frames() =~= Seq::<Seq<u8>>::empty());
        stream
    }

    /// An open write stream with nothing pending. With a codec it is for a
    /// stream with a reader on another node: what is sent is encoded with
    /// the codec. Without one it is for a stream whose readers are all on
    /// this node.
    pub fn with_codec(id: StreamId, codec: Option<Box<dyn PayloadCodec<D>>>) -> (stream: Self)
        ensures
            stream.is_new(id),
            stream.codec() == codec,
    {
        let stream = WriteStream {
            id,
            closed: false,
            pending: VecDeque::new(),
            codec,
            frames: VecDeque::new(),
        };
        assert(stream.frames() =~= Seq::<Seq<u8>>::empty());
        stream
    }

    /// Whether the stream encodes what is sent.
    pub fn encodes(&self) -> (remote: bool)
        ensures
            remote == self.is_remote(),
    {
        self.codec.is_some()
    }

    /// The number of frames that wait for the transport.
    pub fn num_frames(&self) -> (n: usize)
        ensures
            n == self.frames().len(),
    {
        self.frames.len()
    }

    /// Takes the oldest frame, for the transport to carry.
    pub fn take_frame(&mut self) -> (frame: Option<Vec<u8>>)
        ensures
            final(self).unchanged_but_frames(old(self)),
            match frame {
                Some(frame) => old(self).frames().len() > 0 && frame@ == old(self).frames()[0]
                    && final(self).frames() == old(self).frames().skip(1),
                None => old(self).frames().len() == 0 && final(self).frames() == old(
                    self,
                ).frames(),
            },
    {
        let frame = self.frames.pop_front();
        proof {
            if frame is Some {
                assert(self.frames() =~= old(self).frames().skip(1));
            } else {
                assert(self.frames() =~= old(self).frames());
            }
        }
        frame
    }

    /// This is the stream `before` but for its frames.
    pub open spec fn unchanged_but_frames(&self, before: &Self) -> bool {
        &&& self.stream_id() == before.stream_id()
        &&& self.is_closed() == before.is_closed()
        &&& self.codec() == before.codec()
        &&& self.pending() == before.pending()
    }

    /// This is the stream `before` but for what is pending.
    pub open spec fn unchanged_but_pending(&self, before: &Self) -> bool {
        &&& self.stream_id() == before.stream_id()
        &&& self.is_closed() == before.is_closed()
        &&& self.codec() == before.codec()
        &&& self.frames() == before.frames()
    }

    pub fn id(&self) -> (id: StreamId)
        ensures
            id == self.stream_id(),
    {
        self.id
    }

    pub fn closed(&self) -> (closed: bool)
        ensures
            closed == self.is_closed(),
    {
        self.closed
    }

    /// The number of messages sent and not yet delivered.
    pub fn num_pending(&self) -> (n: usize)
        ensures
            n == self.pending().len(),
    {
        self.pending.len()
    }

    /// Closes the stream. What is pending can still be delivered.
    pub fn close(&mut self)
        ensures
            final(self).is_closed(),
            final(self).stream_id() == old(self).stream_id(),
            final(self).pending() == old(self).pending(),
            final(self).frames() == old(self).frames(),
            final(self).codec() == old(self).codec(),
    {
        self.closed = true;
    }

    /// Hands out a write end of the same stream with nothing pending and no
    /// frame, open if this one is open and closed if it is closed. The
    /// codec goes with it, until [`WriteStream::take_over`] brings it back.
    pub fn fork(&mut self) -> (other: Self)
        ensures
            other.is_new_like(*old(self)),
            final(self).stream_id() == old(self).stream_id(),
            final(self).is_closed() == old(self).is_closed(),
            final(self).pending() == old(self).pending(),
            final(self).frames() == old(self).frames(),
            final(self).codec() is None,
    {
        let other = WriteStream {
            id: self.id,
            closed: self.closed,
            pending: VecDeque::new(),
            codec: self.codec.take(),
            frames: VecDeque::new(),
        };
        assert(other.frames() =~= Seq::<Seq<u8>>::empty());
        other
    }

    /// This is a write end of the same stream as `other` with nothing
    /// pending, open if `other` is open and closed if it is closed.
    pub open spec fn is_new_like(&self, other: Self) -> bool {
        &&& self.stream_id() == other.stream_id()
        &&& self.is_closed() == other.is_closed()
        &&& self.codec() == other.codec()
        &&& self.pending() == Seq::<Message<D>>::empty()
        &&& self.frames() == Seq::<Seq<u8>>::empty()
    }

    /// This is the stream `before` after it took over what `other` held:
    /// what was pending there is behind what was pending here, in order,
    /// and so are the frames; the stream is closed if `other` was, and it
    /// has the codec of `other`. A stream that was closed already took
    /// nothing over but the codec.
    pub open spec fn took_over(&self, before: Self, other: Self) -> bool {
        &&& self.stream_id() == before.stream_id()
        &&& self.is_closed() == (before.is_closed() || other.is_closed())
        &&& self.codec() == other.codec()
        &&& self.pending() == if before.is_closed() {
            before.pending()
        } else {
            before.pending() + other.pending()
        }
        &&& self.frames() == if before.is_closed() {
            before.frames()
        } else {
            before.frames() + other.frames()
        }
    }

    /// Takes over what `other` holds: what is pending there goes behind what
    /// is pending here, in order, and so do the frames; this stream is
    /// closed if `other` is, and it gets the codec of `other`. A stream
    /// that is closed already takes nothing over but the codec.
    pub fn take_over(&mut self, other: WriteStream<D>)
        ensures
            final(self).took_over(*old(self), other),
    {
        let ghost given = other;
        let mut other = other;
        if !self.closed {
            self.pending.append(&mut other.pending);
            self.frames.append(&mut other.frames);
            self.closed = other.closed;
            assert(self.frames() =~= old(self).frames() + given.frames());
        }
        self.codec = other.codec;
    }

    /// Takes the oldest pending message off the stream, to carry it to
    /// another node.
    pub fn take_next(&mut self) -> (msg: Option<Message<D>>)
        ensures
            final(self).unchanged_but_pending(old(self)),
            match msg {
                Some(msg) => old(self).pending().len() > 0 && msg == old(self).pending()[0]
                    && final(self).pending() == old(self).pending().skip(1),
                None => old(self).pending().len() == 0 && final(self).pending() == old(
                    self,
                ).pending(),
            },
    {
        let msg = self.pending.pop_front();
        proof {
            if msg is Some {
                assert(self.pending@ =~= old(self).pending@.skip(1));
            }
        }
        msg
    }

    /// Moves pending messages into `reader`, oldest first, as many as it has
    /// room for. Nothing is copied and nothing is dropped: what does not fit
    /// stays pending, in order.
    pub fn deliver(&mut self, reader: &mut ReadStream<D>) -> (moved: usize)
        ensures
            moved == deliverable(old(self).pending(), old(reader).queued(), old(reader).limit()),
            final(reader).queued() == old(reader).queued() + old(self).pending().take(moved as int),
            final(self).pending() == old(self).pending().skip(moved as int),
            final(self).unchanged_but_pending(old(self)),
            final(reader).stream_id() == old(reader).stream_id(),
            final(reader).limit() == old(reader).limit(),
    {
        let mut moved: usize = 0;
        while self.pending.len() > 0 && reader.queue.len() < reader.capacity
            invariant
                moved <= old(self).pending@.len(),
                self.id == old(self).id,
                self.closed == old(self).closed,
                self.codec == old(self).codec,
                self.frames == old(self).frames,
                reader.id == old(reader).id,
                reader.capacity == old(reader).capacity,
                self.pending@ == old(self).pending@.skip(moved as int),
                reader.queue@ == old(reader).queue@ + old(self).pending@.take(moved as int),
                old(reader).queue@.len() >= old(reader).capacity ==> moved == 0,
                old(reader).queue@.len() < old(reader).capacity ==> reader.queue@.len() <= old(
                    reader,
                ).capacity,
            decreases self.pending@.len(),
        {
            let ghost before = self.pending@;
            let ghost queued = reader.queue@;
            match self.pending.pop_front() {
                Some(msg) => {
                    reader.queue.push_back(msg);
                    proof {
                        let all = old(self).pending@;
                        assert(msg == all[moved as int]);
                        assert(all.take(moved + 1) =~= all.take(moved as int).push(msg));
                        assert(self.pending@ =~= all.skip(moved + 1));
                        assert(reader.queue@ =~= old(reader).queue@ + all.take(moved + 1));
                    }
                    moved = moved + 1;
                },
                None => {},
            }
        }
        moved
    }
}

/// The least of `rooms`, and 0 if there are none.
pub open spec fn least_room(rooms: Seq<usize>) -> nat
    decreases rooms.len(),
{
    if rooms.len() == 0 {
        0
    } else if rooms.len() == 1 || rooms.last() < least_room(rooms.drop_last()) {
        rooms.last() as nat
    } else {
        least_room(rooms.drop_last())
    }
}

/// How many of `pending` messages move to readers with the room `rooms`:
/// as many as are pending, but no more than every reader has room for.
/// Without readers none moves.
pub open spec fn can_move(pending: nat, rooms: Seq<usize>) -> nat {
    if pending <= least_room(rooms) {
        pending
    } else {
        least_room(rooms)
    }
}

/// How many of `pending` messages can move to readers that have the room
/// `rooms`, one entry for each reader: what a broadcast to those readers
/// moves.
pub fn movable(pending: usize, rooms: &Vec<usize>) -> (moved: usize)
    ensures
        moved == can_move(pending as nat, rooms@),
{
    let mut least: usize = 0;
    let mut r: usize = 0;
    while r < rooms.len()
        invariant
            r <= rooms@.len(),
            least == least_room(rooms@.take(r as int)),
        decreases rooms@.len() - r,
    {
        proof {
            assert(rooms@.take(r + 1).drop_last() =~= rooms@.take(r as int));
            assert(rooms@.take(r + 1).last() == rooms@[r as int]);
        }
        if r == 0 || rooms[r] < least {
            least = rooms[r];
        }
        r = r + 1;
    }
    proof {
        assert(rooms@.take(rooms@.len() as int) =~= rooms@);
    }
    if pending <= least {
        pending
    } else {
        least
    }
}

/// The room of each of `readers`.
pub open spec fn rooms_of<D>(readers: Seq<ReadStream<D>>) -> Seq<usize> {
    readers.map_values(
        |reader: ReadStream<D>|
            if reader.queued().len() < reader.limit() {
                (reader.limit() - reader.queued().len()) as usize
            } else {
                0usize
            },
    )
}

/// A broadcast moves as many messages as [`movable`] says for the room of
/// its readers.
pub proof fn lemma_broadcast_moves_what_can_move<D>(
    pending: Seq<Message<D>>,
    readers: Seq<ReadStream<D>>,
)
    ensures
        broadcastable(pending, readers) == can_move(pending.len(), rooms_of(readers)),
{
    lemma_common_room(readers);
}

proof fn lemma_common_room<D>(readers: Seq<ReadStream<D>>)
    ensures
        common_room(readers) == least_room(rooms_of(readers)),
    decreases readers.len(),
{
    if readers.len() > 0 {
        lemma_common_room(readers.drop_last());
        assert(rooms_of(readers).drop_last() =~= rooms_of(readers.drop_last()));
    }
}

/// The room that all of `readers` have: the least number of messages that
/// one of them can still take.
pub open spec fn common_room<D>(readers: Seq<ReadStream<D>>) -> nat
    decreases readers.len(),
{
    if readers.len() == 0 {
        0
    } else {
        let last = readers.last();
        let room = if last.queued().len() < last.limit() {
            (last.limit() - last.queued().len()) as nat
        } else {
            0
        };
        if readers.len() == 1 || room < common_room(readers.drop_last()) {
            room
        } else {
            common_room(readers.drop_last())
        }
    }
}

/// How many pending messages a broadcast moves: as many as are pending, but
/// no more than every reader has room for. Without readers none moves.
pub open spec fn broadcastable<D>(pending: Seq<Message<D>>, readers: Seq<ReadStream<D>>) -> nat {
    if pending.len() <= common_room(readers) {
        pending.len()
    } else {
        common_room(readers)
    }
}

/// `after` is the reader `before` with a copy of each of `messages` queued
/// behind what waited.
pub open spec fn received<D: Clone>(
    after: ReadStream<D>,
    before: ReadStream<D>,
    messages: Seq<Message<D>>,
) -> bool {
    &&& after.stream_id() == before.stream_id()
    &&& after.limit() == before.limit()
    &&& after.queued().len() == before.queued().len() + messages.len()
    &&& forall|i: int| 0 <= i < before.queued().len() ==> after.queued()[i] == before.queued()[i]
    &&& forall|i: int|
        0 <= i < messages.len() ==> copy_of(
            messages[i],
            #[trigger] after.queued()[before.queued().len() + i],
        )
}

fn room_for_all<D>(readers: &Vec<ReadStream<D>>) -> (room: usize)
    ensures
        room == common_room(readers@),
{
    let mut room: usize = 0;
    let mut r: usize = 0;
    while r < readers.len()
        invariant
            r <= readers@.len(),
            room == common_room(readers@.take(r as int)),
        decreases readers@.len() - r,
    {
        let reader = &readers[r];
        let free = if reader.queue.len() < reader.capacity {
            reader.capacity - reader.queue.len()
        } else {
            0
        };
        proof {
            assert(readers@.take(r + 1).drop_last() =~= readers@.take(r as int));
            assert(readers@.take(r + 1).last() == readers@[r as int]);
        }
        if r == 0 || free < room {
            room = free;
        }
        r = r + 1;
    }
    proof {
        assert(readers@.take(readers@.len() as int) =~= readers@);
    }
    room
}

/// Queues `copy`, a copy of `original`, at reader `r`.
fn hand_over<D: Clone>(
    readers: &mut Vec<ReadStream<D>>,
    r: usize,
    copy: Message<D>,
    Ghost(start): Ghost<ReadStream<D>>,
    Ghost(sent): Ghost<Seq<Message<D>>>,
    Ghost(original): Ghost<Message<D>>,
)
    requires
        r < old(readers)@.len(),
        received(old(readers)@[r as int], start, sent),
        copy_of(original, copy),
        old(readers)@[r as int].queued().len() < old(readers)@[r as int].limit(),
    ensures
        final(readers)@.len() == old(readers)@.len(),
        forall|k: int|
            0 <= k < old(readers)@.len() && k != r ==> final(readers)@[k] == old(readers)@[k],
        received(final(readers)@[r as int], start, sent.push(original)),
{
    let ghost reader = readers@[r as int];
    let accepted = readers[r].accept(copy);
    proof {
        let now = readers@[r as int];
        let all = sent.push(original);
        assert(now.queued() == reader.queued().push(copy));
        assert forall|i: int| 0 <= i < start.queued().len() implies now.queued()[i]
            == start.queued()[i] by {
            assert(reader.queued()[i] == start.queued()[i]);
        }
        assert forall|i: int| 0 <= i < all.len() implies copy_of(
            all[i],
            #[trigger] now.queued()[start.queued().len() + i],
        ) by {
            if i < sent.len() {
                assert(copy_of(sent[i], reader.queued()[start.queued().len() + i]));
            }
        }
    }
}

impl<D: Clone> WriteStream<D> {
    /// Moves pending messages to all of `readers`, oldest first, as many as
    /// every reader has room for: each reader gets each message that moves,
    /// in order, the last reader the message itself and the others a copy
    /// of it. What does not fit stays pending, in order, and without
    /// readers everything stays pending.
    pub fn broadcast(&mut self, readers: &mut Vec<ReadStream<D>>) -> (moved: usize)
        ensures
            moved == broadcastable(old(self).pending(), old(readers)@),
            final(self).pending() == old(self).pending().skip(moved as int),
            final(self).unchanged_but_pending(old(self)),
            final(readers)@.len() == old(readers)@.len(),
            forall|r: int|
                0 <= r < old(readers)@.len() ==> received(
                    #[trigger] final(readers)@[r],
                    old(readers)@[r],
                    old(self).pending().take(moved as int),
                ),
    {
        let room = room_for_all(readers);
        let count = if self.pending.len() <= room {
            self.pending.len()
        } else {
            room
        };
        let ghost all = self.pending@;
        let mut moved: usize = 0;
        while moved < count
            invariant
                moved <= count <= all.len(),
                count <= common_room(old(readers)@),
                all == old(self).pending@,
                self.id == old(self).id,
                self.closed == old(self).closed,
                self.codec == old(self).codec,
                self.frames == old(self).frames,
                self.pending@ == all.skip(moved as int),
                readers@.len() == old(readers)@.len(),
                forall|r: int|
                    0 <= r < readers@.len() ==> received(
                        #[trigger] readers@[r],
                        old(readers)@[r],
                        all.take(moved as int),
                    ),
            decreases count - moved,
        {
            let oldest = self.pending.pop_front();
            let msg = oldest.unwrap();
            assert(msg == all[moved as int]);
            assert(self.pending@ =~= all.skip(moved + 1));
            assert(all.take(moved + 1) =~= all.take(moved as int).push(msg));
            let ghost before = readers@;
            let last = readers.len() - 1;
            let mut r: usize = 0;
            while r < last
                invariant
                    r <= last,
                    last + 1 == readers@.len(),
                    readers@.len() == before.len(),
                    before.len() == old(readers)@.len(),
                    moved < count <= common_room(old(readers)@),
                    moved < all.len(),
                    forall|k: int|
                        0 <= k < before.len() ==> received(
                            #[trigger] before[k],
                            old(readers)@[k],
                            all.take(moved as int),
                        ),
                    forall|k: int| r <= k < readers@.len() ==> readers@[k] == before[k],
                    forall|k: int|
                        0 <= k < r ==> received(
                            #[trigger] readers@[k],
                            old(readers)@[k],
                            all.take(moved as int).push(msg),
                        ),
                decreases last - r,
            {
                let copy = msg.clone();
                proof {
                    lemma_room(old(readers)@, r as int);
                    assert(readers@[r as int] == before[r as int]);
                    assert(received(before[r as int], old(readers)@[r as int], all.take(moved as int)));
                }
                hand_over(
                    readers,
                    r,
                    copy,
                    Ghost(old(readers)@[r as int]),
                    Ghost(all.take(moved as int)),
                    Ghost(msg),
                );
                r = r + 1;
            }
            proof {
                lemma_room(old(readers)@, last as int);
                assert(readers@[last as int] == before[last as int]);
                assert(received(
                    before[last as int],
                    old(readers)@[last as int],
                    all.take(moved as int),
                ));
            }
            hand_over(
                readers,
                last,
                msg,
                Ghost(old(readers)@[last as int]),
                Ghost(all.take(moved as int)),
                Ghost(msg),
            );
            moved = moved + 1;
        }
        moved
    }
}

/// Each reader has at least the room that all have.
proof fn lemma_room<D>(readers: Seq<ReadStream<D>>, r: int)
    requires
        0 <= r < readers.len(),
    ensures
        common_room(readers) > 0 ==> readers[r].queued().len() + common_room(readers)
            <= readers[r].limit(),
    decreases readers.len(),
{
    if r < readers.len() - 1 {
        lemma_room(readers.drop_last(), r);
    }
}

/// The frame of a payload that was encoded as `encoded`.
pub open spec fn payload_frame(encoded: Encoded) -> Seq<u8> {
    frame_of(Message::Payload(encoded@))
}

impl<D> WriteStream<D> {
    /// This is the stream `before` after `msg` was sent on it with the
    /// result `result`.
    ///
    /// A closed stream takes nothing and the result is the error that it is
    /// closed. An open stream whose readers are all on this node takes the
    /// message as it is. An open stream with a reader on another node takes
    /// a progress marker with its frame, and it encodes a payload with its
    /// codec: if the codec gives bytes, the stream takes the message with
    /// the frame of those bytes; if it gives none, the stream takes nothing
    /// and the result is the error that the payload cannot be encoded.
    pub open spec fn accepted(
        &self,
        before: &Self,
        msg: Message<D>,
        result: Result<(), SendError>,
    ) -> bool {
        &&& self.stream_id() == before.stream_id()
        &&& self.is_closed() == before.is_closed()
        &&& self.codec() == before.codec()
        &&& if before.is_closed() {
            &&& result == Err::<(), SendError>(SendError::Closed)
            &&& self.pending() == before.pending()
            &&& self.frames() == before.frames()
        } else {
            match before.codec() {
                None => {
                    &&& result is Ok
                    &&& self.pending() == before.pending().push(msg)
                    &&& self.frames() == before.frames()
                },
                Some(codec) => match msg {
                    Message::ProgressMarker(time) => {
                        &&& result is Ok
                        &&& self.pending() == before.pending().push(msg)
                        &&& self.frames() == before.frames().push(
                            frame_of(Message::ProgressMarker(time)),
                        )
                    },
                    Message::Payload(data) => exists|encoded: Result<Encoded, SendError>|
                        {
                            &&& #[trigger] encoded_by::<D, dyn PayloadCodec<D>>(
                                &*codec,
                                &data,
                                encoded,
                            )
                            &&& match encoded {
                                Ok(done) => {
                                    &&& result is Ok
                                    &&& self.pending() == before.pending().push(msg)
                                    &&& self.frames() == before.frames().push(payload_frame(done))
                                },
                                Err(error) => {
                                    &&& result == Err::<(), SendError>(error)
                                    &&& self.pending() == before.pending()
                                    &&& self.frames() == before.frames()
                                },
                            }
                        },
                },
            }
        }
    }

    /// This is the stream `before` after `outputs` were sent on it as
    /// payloads, first to last, with the result `result`.
    ///
    /// A closed stream takes nothing, and that is an error if there was
    /// something to send. An open stream whose readers are all on this node
    /// takes all outputs. An open stream with a reader on another node
    /// encodes each output with its codec and takes it with its frame, up
    /// to the first output that the codec cannot encode; that output and
    /// those behind it are not sent, and the result is the error that the
    /// payload cannot be encoded.
    pub open spec fn forwarded(
        &self,
        before: &Self,
        outputs: Seq<D>,
        result: Result<(), SendError>,
    ) -> bool {
        &&& self.stream_id() == before.stream_id()
        &&& self.is_closed() == before.is_closed()
        &&& self.codec() == before.codec()
        &&& if before.is_closed() {
            &&& self.pending() == before.pending()
            &&& self.frames() == before.frames()
            &&& if outputs.len() > 0 {
                result == Err::<(), SendError>(SendError::Closed)
            } else {
                result is Ok
            }
        } else {
            match before.codec() {
                None => {
                    &&& result is Ok
                    &&& self.pending() == before.pending() + payloads(outputs)
                    &&& self.frames() == before.frames()
                },
                Some(codec) => exists|encoded: Seq<Encoded>|
                    {
                        &&& encoded.len() <= outputs.len()
                        &&& forall|i: int|
                            0 <= i < encoded.len() ==> encoded_by::<D, dyn PayloadCodec<D>>(
                                &*codec,
                                &outputs[i],
                                Ok(#[trigger] encoded[i]),
                            )
                        &&& self.pending() == before.pending() + payloads(
                            outputs.take(encoded.len() as int),
                        )
                        &&& #[trigger] self.frames_follow(before, encoded)
                        &&& if encoded.len() == outputs.len() {
                            result is Ok
                        } else {
                            &&& result == Err::<(), SendError>(SendError::Encoding)
                            &&& encoded_by::<D, dyn PayloadCodec<D>>(
                                &*codec,
                                &outputs[encoded.len() as int],
                                Err(SendError::Encoding),
                            )
                        }
                    },
            }
        }
    }

    /// The frames of this stream are those of `before` and then the frames
    /// of the payloads `encoded`.
    pub open spec fn frames_follow(&self, before: &Self, encoded: Seq<Encoded>) -> bool {
        self.frames() == before.frames() + encoded.map_values(|done: Encoded| payload_frame(done))
    }
}

impl<D> WriteStreamT<D> for WriteStream<D> {
    /// Appends `msg` to what is pending, unless the stream is closed. Where
    /// the stream has a reader on another node, the message is encoded
    /// first, and a payload that cannot be encoded is not sent.
    fn send(&mut self, msg: Message<D>) -> (result: Result<(), SendError>)
        ensures
            final(self).accepted(old(self), msg, result),
    {
        if self.closed {
            return Err(SendError::Closed);
        }
        let frame: Option<Vec<u8>> = match &self.codec {
            None => None,
            Some(codec) => match &msg {
                Message::ProgressMarker(time) => {
                    let marker: Message<Encoded> = Message::ProgressMarker(*time);
                    Some(encode_frame(&marker))
                },
                Message::Payload(data) => {
                    let encoded = encode_payload::<D, dyn PayloadCodec<D>>(data, &**codec);
                    match encoded {
                        Ok(done) => {
                            let payload: Message<Encoded> = Message::Payload(done);
                            Some(encode_frame(&payload))
                        },
                        Err(error) => {
                            return Err(error);
                        },
                    }
                },
            },
        };
        self.pending.push_back(msg);
        match frame {
            Some(frame) => {
                self.frames.push_back(frame);
                proof {
                    assert(self.frames() =~= old(self).frames().push(frame@));
                }
            },
            None => {
                proof {
                    assert(self.frames() =~= old(self).frames());
                }
            },
        }
        Ok(())
    }
}

/// The payload messages that carry `outputs`, in order.
pub open spec fn payloads<D>(outputs: Seq<D>) -> Seq<Message<D>> {
    outputs.map_values(|output: D| Message::Payload(output))
}

impl<D> WriteStream<D> {
    /// This is the stream `before` with `added` sent on it: the same end of
    /// the same stream, with `added` behind what was pending.
    pub open spec fn follows(&self, before: &Self, added: Seq<Message<D>>) -> bool {
        &&& self.stream_id() == before.stream_id()
        &&& self.is_closed() == before.is_closed()
        &&& self.codec() == before.codec()
        &&& self.pending() == before.pending() + added
    }

    /// Sends `outputs` as payload messages, first to last, and stops at the
    /// first that cannot be sent. On a closed stream nothing is sent, and
    /// that is an error if there was something to send.
    pub fn forward(&mut self, outputs: Vec<D>) -> (result: Result<(), SendError>)
        ensures
            final(self).forwarded(old(self), outputs@, result),
    {
        if self.closed {
            return if outputs.len() > 0 {
                Err(SendError::Closed)
            } else {
                Ok(())
            };
        }
        let ghost all = outputs@;
        let ghost mut encoded: Seq<Encoded> = Seq::empty();
        proof {
            assert(self.frames() =~= old(self).frames() + encoded.map_values(
                |done: Encoded| payload_frame(done),
            ));
        }
        for output in it: outputs
            invariant
                it.seq() == all,
                self.id == old(self).id,
                self.closed == old(self).closed,
                !self.closed,
                self.codec == old(self).codec,
                self.pending@ == old(self).pending@ + payloads(all.take(it.index() as int)),
                self.codec is None ==> self.frames == old(self).frames,
                self.codec is Some ==> encoded.len() == it.index(),
                self.frames_follow(old(self), encoded),
                forall|i: int|
                    0 <= i < encoded.len() && self.codec is Some ==> encoded_by::<
                        D,
                        dyn PayloadCodec<D>,
                    >(&*self.codec.unwrap(), &all[i], Ok(#[trigger] encoded[i])),
        {
            let ghost done = it.index() as int;
            let ghost frames_before = self.frames();
            match &self.codec {
                None => {},
                Some(codec) => {
                    match encode_payload::<D, dyn PayloadCodec<D>>(&output, &**codec) {
                        Ok(bytes) => {
                            proof {
                                encoded = encoded.push(bytes);
                            }
                            let payload: Message<Encoded> = Message::Payload(bytes);
                            let frame = encode_frame(&payload);
                            self.frames.push_back(frame);
                            proof {
                                assert(self.frames() =~= frames_before.push(frame@));
                                assert(self.frames() =~= old(self).frames() + encoded.map_values(
                                    |done: Encoded| payload_frame(done),
                                ));
                            }
                        },
                        Err(error) => {
                            proof {
                                assert(all.take(done) =~= all.take(encoded.len() as int));
                            }
                            return Err(error);
                        },
                    }
                },
            }
            self.pending.push_back(Message::Payload(output));
            proof {
                assert(all.take(done + 1) =~= all.take(done).push(output));
                assert(payloads(all.take(done + 1)) =~= payloads(all.take(done)).push(
                    Message::Payload(output),
                ));
                assert(self.pending@ =~= old(self).pending@ + payloads(all.take(done + 1)));
            }
        }
        proof {
            assert(all.take(all.len() as int) =~= all);
        }
        Ok(())
    }

    /// Sends a progress marker at `time`, unless the stream is closed.
    pub fn forward_marker(&mut self, time: Timestamp) -> (result: Result<(), SendError>)
        ensures
            result == if old(self).is_closed() {
                Err::<(), SendError>(SendError::Closed)
            } else {
                Ok::<(), SendError>(())
            },
            final(self).accepted(old(self), Message::ProgressMarker(time), result),
            final(self).follows(
                old(self),
                if old(self).is_closed() {
                    Seq::empty()
                } else {
                    seq![Message::ProgressMarker(time)]
                },
            ),
    {
        let result = self.send(Message::ProgressMarker(time));
        proof {
            if old(self).is_closed() {
                assert(self.pending() =~= old(self).pending() + Seq::<Message<D>>::empty());
            } else {
                assert(self.pending() =~= old(self).pending() + seq![
                    Message::<D>::ProgressMarker(time),
                ]);
            }
        }
        match result {
            Ok(()) => Ok(()),
            Err(error) => Err(error),
        }
    }
}

/// How many pending messages a delivery moves: as many as are pending, but
/// no more than the reader has room for.
pub open spec fn deliverable<D>(pending: Seq<Message<D>>, queued: Seq<Message<D>>, limit: usize) -> nat {
    if queued.len() >= limit {
        0
    } else if pending.len() <= limit - queued.len() {
        pending.len()
    } else {
        (limit - queued.len()) as nat
    }
}

/// The read end of a stream, owned by one consumer.
pub struct ReadStream<D> {
    id: StreamId,
    capacity: usize,
    queue: VecDeque<Message<D>>,
}

impl<D> ReadStream<D> {
    /// The identity of the stream.
    pub closed spec fn stream_id(&self) -> StreamId {
        self.id
    }

    /// The messages delivered and not yet read, oldest first.
    pub closed spec fn queued(&self) -> Seq<Message<D>> {
        self.queue@
    }

    /// How many messages the stream holds at most before delivery waits.
    pub closed spec fn limit(&self) -> usize {
        self.capacity
    }

    /// This is an empty read end of the stream `id` that holds up to
    /// `capacity` messages.
    pub open spec fn is_new(&self, id: StreamId, capacity: usize) -> bool {
        &&& self.stream_id() == id
        &&& self.limit() == capacity
        &&& self.queued() == Seq::<Message<D>>::empty()
    }

    /// An empty read stream that holds up to `capacity` messages.
    pub fn new(id: StreamId, capacity: usize) -> (stream: Self)
        ensures
            stream.is_new(id, capacity),
    {
        ReadStream { id, capacity, queue: VecDeque::new() }
    }

    pub fn id(&self) -> (id: StreamId)
        ensures
            id == self.stream_id(),
    {
        self.id
    }

    /// The number of messages delivered and not yet read.
    pub fn num_queued(&self) -> (n: usize)
        ensures
            n == self.queued().len(),
    {
        self.queue.len()
    }

    /// How many messages the stream holds at most.
    pub fn capacity(&self) -> (capacity: usize)
        ensures
            capacity == self.limit(),
    {
        self.capacity
    }

    /// How many more messages the stream has room for.
    pub fn room(&self) -> (room: usize)
        ensures
            room == if self.queued().len() < self.limit() {
                self.limit() - self.queued().len()
            } else {
                0
            },
    {
        if self.queue.len() < self.capacity {
            self.capacity - self.queue.len()
        } else {
            0
        }
    }

    /// Whether the stream has room for one more message.
    pub fn has_room(&self) -> (room: bool)
        ensures
            room == (self.queued().len() < self.limit()),
    {
        self.queue.len() < self.capacity
    }

    /// Takes in a message that arrived from another node. A full stream
    /// hands the message back.
    pub fn accept(&mut self, msg: Message<D>) -> (result: Result<(), Message<D>>)
        ensures
            final(self).stream_id() == old(self).stream_id(),
            final(self).limit() == old(self).limit(),
            result == if old(self).queued().len() < old(self).limit() {
                Ok::<(), Message<D>>(())
            } else {
                Err::<(), Message<D>>(msg)
            },
            final(self).queued() == if old(self).queued().len() < old(self).limit() {
                old(self).queued().push(msg)
            } else {
                old(self).queued()
            },
    {
        if self.queue.len() < self.capacity {
            self.queue.push_back(msg);
            Ok(())
        } else {
            Err(msg)
        }
    }

    /// The oldest message that was delivered and not yet read, if there is
    /// one.
    pub fn try_read(&mut self) -> (msg: Option<Message<D>>)
        ensures
            final(self).stream_id() == old(self).stream_id(),
            final(self).limit() == old(self).limit(),
            match msg {
                Some(msg) => old(self).queued().len() > 0 && msg == old(self).queued()[0]
                    && final(self).queued() == old(self).queued().skip(1),
                None => old(self).queued().len() == 0 && final(self).queued() == old(
                    self,
                ).queued(),
            },
    {
        let msg = self.queue.pop_front();
        proof {
            if msg is Some {
                assert(self.queue@ =~= old(self).queue@.skip(1));
            }
        }
        msg
    }
}

/// What can happen on a stream between its producer and one consumer on
/// the same node.
pub enum ChannelStep<D> {
    /// The producer sends a message.
    Send(Message<D>),
    /// Pending messages are delivered to the consumer.
    Deliver,
    /// The consumer reads a message, if one was delivered.
    Read,
}

/// A stream between its producer and one consumer on the same node, with
/// what was sent on it and what the consumer has read so far.
pub struct ChannelView<D> {
    /// What [`WriteStream::pending`] holds.
    pub pending: Seq<Message<D>>,
    /// What [`ReadStream::queued`] holds.
    pub queued: Seq<Message<D>>,
    /// The read stream's limit.
    pub limit: usize,
    /// Every message sent, oldest first.
    pub sent: Seq<Message<D>>,
    /// Every message read, oldest first.
    pub observed: Seq<Message<D>>,
}

impl<D> ChannelView<D> {
    /// A stream on which nothing happened yet.
    pub open spec fn start(limit: usize) -> Self {
        ChannelView {
            pending: Seq::empty(),
            queued: Seq::empty(),
            limit,
            sent: Seq::empty(),
            observed: Seq::empty(),
        }
    }

    /// The stream after `step`, as [`WriteStreamT::send`] on an open write
    /// stream, [`WriteStream::deliver`] and [`ReadStream::try_read`] change
    /// it.
    pub open spec fn step(self, step: ChannelStep<D>) -> Self {
        match step {
            ChannelStep::Send(msg) => ChannelView {
                pending: self.pending.push(msg),
                sent: self.sent.push(msg),
                ..self
            },
            ChannelStep::Deliver => {
                let moved = deliverable(self.pending, self.queued, self.limit) as int;
                ChannelView {
                    pending: self.pending.skip(moved),
                    queued: self.queued + self.pending.take(moved),
                    ..self
                }
            },
            ChannelStep::Read => if self.queued.len() > 0 {
                ChannelView {
                    queued: self.queued.skip(1),
                    observed: self.observed.push(self.queued[0]),
                    ..self
                }
            } else {
                self
            },
        }
    }

    /// The stream after `steps`, taken in order.
    pub open spec fn run(self, steps: Seq<ChannelStep<D>>) -> Self
        decreases steps.len(),
    {
        if steps.len() == 0 {
            self
        } else {
            self.run(steps.drop_last()).step(steps.last())
        }
    }

    /// What was read, then what waits to be read, then what waits to be
    /// delivered, is what was sent, in the order in which it was sent.
    pub open spec fn in_order(self) -> bool {
        self.observed + self.queued + self.pending == self.sent
    }
}

/// Delivery on one node keeps the order of the producer: whatever is sent,
/// delivered and read, and however these steps alternate, the consumer has
/// read a prefix of what was sent, in the order in which it was sent, and
/// what it has not read yet still waits in that order.
pub proof fn lemma_delivery_keeps_order<D>(limit: usize, steps: Seq<ChannelStep<D>>)
    ensures
        ChannelView::<D>::start(limit).run(steps).in_order(),
        ChannelView::<D>::start(limit).run(steps).observed.is_prefix_of(
            ChannelView::<D>::start(limit).run(steps).sent,
        ),
    decreases steps.len(),
{
    let start = ChannelView::<D>::start(limit);
    if steps.len() == 0 {
        assert(start.observed + start.queued + start.pending =~= start.sent);
    } else {
        lemma_delivery_keeps_order::<D>(limit, steps.drop_last());
        let before = start.run(steps.drop_last());
        let after = before.step(steps.last());
        assert(after == start.run(steps));
        match steps.last() {
            ChannelStep::Send(msg) => {
                assert(after.observed + after.queued + after.pending =~= (before.observed
                    + before.queued + before.pending).push(msg));
            },
            ChannelStep::Deliver => {
                let moved = deliverable(before.pending, before.queued, before.limit) as int;
                assert(before.pending =~= before.pending.take(moved) + before.pending.skip(moved));
                assert(after.observed + after.queued + after.pending =~= before.observed
                    + before.queued + before.pending);
            },
            ChannelStep::Read => {
                if before.queued.len() > 0 {
                    assert(before.queued =~= seq![before.queued[0]] + before.queued.skip(1));
                    assert(after.observed + after.queued + after.pending =~= before.observed
                        + before.queued + before.pending);
                }
            },
        }
    }
    let end = start.run(steps);
    assert(end.observed =~= end.sent.subrange(0, end.observed.len() as int));
}

/// The progress markers in `messages` do not go back in time: none is
/// earlier than one before it.
pub open spec fn markers_in_order<D>(messages: Seq<Message<D>>) -> bool {
    forall|i: int, j: int|
        0 <= i <= j < messages.len() ==> match (#[trigger] messages[i], #[trigger] messages[j]) {
            (Message::ProgressMarker(first), Message::ProgressMarker(second)) => first <= second,
            _ => true,
        }
}

/// A consumer sees progress only go forward: if the progress markers that
/// the producer sends do not go back in time, neither do those that the
/// consumer reads.
pub proof fn lemma_markers_stay_in_order<D>(limit: usize, steps: Seq<ChannelStep<D>>)
    requires
        markers_in_order(ChannelView::<D>::start(limit).run(steps).sent),
    ensures
        markers_in_order(ChannelView::<D>::start(limit).run(steps).observed),
{
    lemma_delivery_keeps_order::<D>(limit, steps);
    let end = ChannelView::<D>::start(limit).run(steps);
    assert forall|i: int, j: int| 0 <= i <= j < end.observed.len() implies match (
        #[trigger] end.observed[i],
        #[trigger] end.observed[j],
    ) {
        (Message::ProgressMarker(first), Message::ProgressMarker(second)) => first <= second,
        _ => true,
    } by {
        assert(end.observed[i] == end.sent[i]);
        assert(end.observed[j] == end.sent[j]);
    }
}

} // verus!
