//! Messages between nodes.
//!
//! A stream whose consumer runs on another node carries its messages as
//! frames of bytes. The write end of the stream makes the frame when the
//! message is sent. The payload of a message is encoded by the fast encoder
//! of its type, if the type has one that takes the value, and by the
//! general encoder otherwise; the frame says which it was, so that the read
//! side decodes with the matching decoder. The encoders and decoders are the
//! caller's. Framing loses nothing: a frame decodes to the message that it
//! was made from.
use crate::stream::{Message, ReadStream, SendError};
use vstd::bytes::{
    lemma_auto_spec_u64_to_from_le_bytes, spec_u64_from_le_bytes, spec_u64_to_le_bytes,
    u64_from_le_bytes, u64_to_le_bytes,
};
use vstd::prelude::*;
use vstd::slice::slice_subrange;

verus! {

/// How a payload was encoded.
#[derive(Clone, Copy, Debug, PartialEq, Eq, Structural)]
pub enum Encoding {
    /// By the fast encoder of the payload's type.
    Fast,
    /// By the general encoder.
    General,
}

/// An encoded payload.
#[derive(Debug, PartialEq, Eq)]
pub struct Encoded {
    pub encoding: Encoding,
    pub bytes: Vec<u8>,
}

impl Clone for Encoded {
    fn clone(&self) -> (copy: Self)
        ensures
            copy@ == self@,
    {
        let copy = Encoded { encoding: self.encoding, bytes: self.bytes.clone() };
        assert(copy.bytes@ =~= self.bytes@);
        copy
    }
}

/// The mathematical value of an [`Encoded`].
pub struct EncodedView {
    pub encoding: Encoding,
    pub bytes: Seq<u8>,
}

impl View for Encoded {
    type V = EncodedView;

    open spec fn view(&self) -> EncodedView {
        EncodedView { encoding: self.encoding, bytes: self.bytes@ }
    }
}

/// The mathematical value of a message with an encoded payload.
pub open spec fn wire_view(msg: Message<Encoded>) -> Message<EncodedView> {
    match msg {
        Message::Payload(encoded) => Message::Payload(encoded@),
        Message::ProgressMarker(time) => Message::ProgressMarker(time),
    }
}

/// Why a frame is no message.
#[derive(Clone, Copy, Debug, PartialEq, Eq)]
pub enum DecodeError {
    /// The frame has no bytes.
    Empty,
    /// The first byte is no kind of message.
    UnknownTag(u8),
    /// The frame of a progress marker does not hold a time of 8 bytes.
    BadMarker,
}

/// The first byte of the frame of a progress marker.
pub const MARKER_TAG: u8 = 0;

/// The first byte of the frame of a payload that the fast encoder encoded.
pub const FAST_TAG: u8 = 1;

/// The first byte of the frame of a payload that the general encoder
/// encoded.
pub const GENERAL_TAG: u8 = 2;

/// The first byte of the frame of a payload.
pub open spec fn tag_of(encoding: Encoding) -> u8 {
    match encoding {
        Encoding::Fast => FAST_TAG,
        Encoding::General => GENERAL_TAG,
    }
}

/// The frame of a message: a byte that says what it is, then the time of a
/// progress marker in 8 bytes, lowest first, or the bytes of a payload.
pub open spec fn frame_of(msg: Message<EncodedView>) -> Seq<u8> {
    match msg {
        Message::ProgressMarker(time) => seq![MARKER_TAG] + spec_u64_to_le_bytes(time),
        Message::Payload(encoded) => seq![tag_of(encoded.encoding)] + encoded.bytes,
    }
}

/// The message that a frame holds.
pub open spec fn parse(frame: Seq<u8>) -> Result<Message<EncodedView>, DecodeError> {
    if frame.len() == 0 {
        Err(DecodeError::Empty)
    } else if frame[0] == MARKER_TAG {
        if frame.len() == 9 {
            Ok(Message::ProgressMarker(spec_u64_from_le_bytes(frame.skip(1))))
        } else {
            Err(DecodeError::BadMarker)
        }
    } else if frame[0] == FAST_TAG {
        Ok(Message::Payload(EncodedView { encoding: Encoding::Fast, bytes: frame.skip(1) }))
    } else if frame[0] == GENERAL_TAG {
        Ok(Message::Payload(EncodedView { encoding: Encoding::General, bytes: frame.skip(1) }))
    } else {
        Err(DecodeError::UnknownTag(frame[0]))
    }
}

/// Decoding the frame of a message gives the message back.
pub proof fn lemma_round_trip(msg: Message<EncodedView>)
    ensures
        parse(frame_of(msg)) == Ok::<Message<EncodedView>, DecodeError>(msg),
{
    lemma_auto_spec_u64_to_from_le_bytes();
    match msg {
        Message::ProgressMarker(time) => {
            let frame = frame_of(msg);
            assert(frame.skip(1) =~= spec_u64_to_le_bytes(time));
        },
        Message::Payload(encoded) => {
            let frame = frame_of(msg);
            assert(frame.skip(1) =~= encoded.bytes);
        },
    }
}

/// A frame that holds a message is the frame of that message: no two frames
/// hold the same message.
pub proof fn lemma_one_frame(frame: Seq<u8>)
    ensures
        match parse(frame) {
            Ok(msg) => frame_of(msg) == frame,
            Err(_) => true,
        },
{
    lemma_auto_spec_u64_to_from_le_bytes();
    if let Ok(msg) = parse(frame) {
        assert(frame =~= seq![frame[0]] + frame.skip(1));
        if frame[0] == MARKER_TAG {
            assert(frame.skip(1).len() == 8);
        }
    }
}

fn append_bytes(frame: &mut Vec<u8>, bytes: &Vec<u8>)
    ensures
        final(frame)@ == old(frame)@ + bytes@,
{
    let mut i: usize = 0;
    while i < bytes.len()
        invariant
            i <= bytes@.len(),
            frame@ == old(frame)@ + bytes@.take(i as int),
        decreases bytes@.len() - i,
    {
        frame.push(bytes[i]);
        proof {
            assert(bytes@.take(i + 1) =~= bytes@.take(i as int).push(bytes@[i as int]));
            assert(frame@ =~= old(frame)@ + bytes@.take(i + 1));
        }
        i = i + 1;
    }
    proof {
        assert(bytes@.take(bytes@.len() as int) =~= bytes@);
    }
}

/// Makes the frame of a message.
pub fn encode_frame(msg: &Message<Encoded>) -> (frame: Vec<u8>)
    ensures
        frame@ == frame_of(wire_view(*msg)),
{
    let mut frame: Vec<u8> = Vec::new();
    match msg {
        Message::ProgressMarker(time) => {
            frame.push(MARKER_TAG);
            let bytes = u64_to_le_bytes(*time);
            append_bytes(&mut frame, &bytes);
            assert(frame@ =~= frame_of(wire_view(*msg)));
        },
        Message::Payload(encoded) => {
            let tag = match encoded.encoding {
                Encoding::Fast => FAST_TAG,
                Encoding::General => GENERAL_TAG,
            };
            frame.push(tag);
            append_bytes(&mut frame, &encoded.bytes);
            assert(frame@ =~= frame_of(wire_view(*msg)));
        },
    }
    frame
}

fn copy_tail(frame: &[u8]) -> (bytes: Vec<u8>)
    requires
        frame@.len() > 0,
    ensures
        bytes@ == frame@.skip(1),
{
    let mut bytes: Vec<u8> = Vec::new();
    let mut i: usize = 1;
    while i < frame.len()
        invariant
            1 <= i <= frame@.len(),
            bytes@ == frame@.subrange(1, i as int),
        decreases frame@.len() - i,
    {
        bytes.push(frame[i]);
        proof {
            assert(bytes@ =~= frame@.subrange(1, i + 1));
        }
        i = i + 1;
    }
    proof {
        assert(frame@.subrange(1, frame@.len() as int) =~= frame@.skip(1));
    }
    bytes
}

/// Reads the message that a frame holds.
pub fn decode_frame(frame: &[u8]) -> (result: Result<Message<Encoded>, DecodeError>)
    ensures
        match result {
            Ok(msg) => parse(frame@) == Ok::<Message<EncodedView>, DecodeError>(wire_view(msg)),
            Err(error) => parse(frame@) == Err::<Message<EncodedView>, DecodeError>(error),
        },
{
    if frame.len() == 0 {
        return Err(DecodeError::Empty);
    }
    let tag = frame[0];
    if tag == MARKER_TAG {
        if frame.len() == 9 {
            let time = u64_from_le_bytes(slice_subrange(frame, 1, 9));
            proof {
                assert(frame@.subrange(1, 9) =~= frame@.skip(1));
            }
            Ok(Message::ProgressMarker(time))
        } else {
            Err(DecodeError::BadMarker)
        }
    } else if tag == FAST_TAG {
        Ok(Message::Payload(Encoded { encoding: Encoding::Fast, bytes: copy_tail(frame) }))
    } else if tag == GENERAL_TAG {
        Ok(Message::Payload(Encoded { encoding: Encoding::General, bytes: copy_tail(frame) }))
    } else {
        Err(DecodeError::UnknownTag(tag))
    }
}

/// Turns payloads of type `D` into bytes and back. A type has a fast
/// encoding or it has none; every type should have a general one.
pub trait PayloadCodec<D> {
    /// The fast encoding of `data`, if its type has one.
    fn encode_fast(&self, data: &D) -> Option<Vec<u8>>;

    /// The general encoding of `data`, if it can be encoded.
    fn encode_general(&self, data: &D) -> Option<Vec<u8>>;

    /// The value that `bytes` are the fast encoding of, if they are one.
    fn decode_fast(&self, bytes: &Vec<u8>) -> Option<D>;

    /// The value that `bytes` are the general encoding of, if they are one.
    fn decode_general(&self, bytes: &Vec<u8>) -> Option<D>;
}

/// The encoded payload to send, given what the encoders returned: the fast
/// encoding if there is one, else the general one.
pub open spec fn preferred(fast: Option<Vec<u8>>, general: Option<Vec<u8>>) -> Result<
    Encoded,
    SendError,
> {
    match fast {
        Some(bytes) => Ok(Encoded { encoding: Encoding::Fast, bytes }),
        None => match general {
            Some(bytes) => Ok(Encoded { encoding: Encoding::General, bytes }),
            None => Err(SendError::Encoding),
        },
    }
}

/// Chooses between the encodings of a payload.
pub fn prefer(fast: Option<Vec<u8>>, general: Option<Vec<u8>>) -> (result: Result<
    Encoded,
    SendError,
>)
    ensures
        result == preferred(fast, general),
{
    match fast {
        Some(bytes) => Ok(Encoded { encoding: Encoding::Fast, bytes }),
        None => match general {
            Some(bytes) => Ok(Encoded { encoding: Encoding::General, bytes }),
            None => Err(SendError::Encoding),
        },
    }
}

/// Encodes a payload: with the fast encoder if it takes the value, else
/// with the general one. Fails if neither takes it.
pub fn encode_payload<D, C: PayloadCodec<D> + ?Sized>(data: &D, codec: &C) -> (result: Result<
    Encoded,
    SendError,
>)
    ensures
        encoded_by(codec, data, result),
{
    match codec.encode_fast(data) {
        Some(bytes) => prefer(Some(bytes), None),
        None => prefer(None, codec.encode_general(data)),
    }
}

/// Decodes a payload with the decoder that matches its encoding.
pub fn decode_payload<D, C: PayloadCodec<D>>(encoded: &Encoded, codec: &C) -> (data: Option<D>)
    ensures
        decoded_by(codec, encoded, data),
{
    match encoded.encoding {
        Encoding::Fast => codec.decode_fast(&encoded.bytes),
        Encoding::General => codec.decode_general(&encoded.bytes),
    }
}

/// Whether encoding `data` with `codec` can give `result`: the bytes that
/// the fast encoder returns, marked as fast; or, where the fast encoder
/// returns none, the bytes that the general encoder returns, marked as
/// general; or, where that returns none either, the error that the payload
/// cannot be encoded.
pub open spec fn encoded_by<D, C: PayloadCodec<D> + ?Sized>(
    codec: &C,
    data: &D,
    result: Result<Encoded, SendError>,
) -> bool {
    match result {
        Ok(encoded) => match encoded.encoding {
            Encoding::Fast => call_ensures(C::encode_fast, (codec, data), Some(encoded.bytes)),
            Encoding::General => {
                &&& call_ensures(C::encode_fast, (codec, data), None::<Vec<u8>>)
                &&& call_ensures(C::encode_general, (codec, data), Some(encoded.bytes))
            },
        },
        Err(error) => {
            &&& error == SendError::Encoding
            &&& call_ensures(C::encode_fast, (codec, data), None::<Vec<u8>>)
            &&& call_ensures(C::encode_general, (codec, data), None::<Vec<u8>>)
        },
    }
}

/// Whether decoding `encoded` with `codec` can give `data`: what the fast
/// decoder returns for the bytes if they are marked as fast, and else what
/// the general decoder returns for them.
pub open spec fn decoded_by<D, C: PayloadCodec<D>>(
    codec: &C,
    encoded: &Encoded,
    data: Option<D>,
) -> bool {
    match encoded.encoding {
        Encoding::Fast => call_ensures(C::decode_fast, (codec, &encoded.bytes), data),
        Encoding::General => call_ensures(C::decode_general, (codec, &encoded.bytes), data),
    }
}

/// Why a frame that arrived was not taken in.
#[derive(Clone, Copy, Debug, PartialEq, Eq)]
pub enum ReceiveError {
    /// The frame is no message.
    Frame(DecodeError),
    /// The decoder did not take the payload.
    Payload,
    /// The read stream is full.
    Full,
}

/// Whether `reader` has room for one more message.
pub open spec fn has_room<D>(reader: &ReadStream<D>) -> bool {
    reader.queued().len() < reader.limit()
}

/// Takes in a message that arrived decoded, if there is one and the reader
/// has room for it.
pub fn take_in<D>(reader: &mut ReadStream<D>, msg: Option<Message<D>>) -> (result: Result<
    (),
    ReceiveError,
>)
    ensures
        taken_in(*old(reader), msg, *final(reader), result),
{
    match msg {
        Some(msg) => match reader.accept(msg) {
            Ok(()) => Ok(()),
            Err(_) => Err(ReceiveError::Full),
        },
        None => Err(ReceiveError::Payload),
    }
}

/// Whether taking in `msg` turns the reader `before` into `after` with the
/// result `result`: a message is queued if the reader has room, and is an
/// error if it has none; no message, which is what a decoder gives that
/// does not take the payload, is an error.
pub open spec fn taken_in<D>(
    before: ReadStream<D>,
    msg: Option<Message<D>>,
    after: ReadStream<D>,
    result: Result<(), ReceiveError>,
) -> bool {
    &&& after.stream_id() == before.stream_id()
    &&& after.limit() == before.limit()
    &&& match msg {
        Some(msg) => if has_room(&before) {
            result is Ok && after.queued() == before.queued().push(msg)
        } else {
            result == Err::<(), ReceiveError>(ReceiveError::Full) && after.queued()
                == before.queued()
        },
        None => result == Err::<(), ReceiveError>(ReceiveError::Payload) && after.queued()
            == before.queued(),
    }
}

/// The message to queue for a payload that the decoder gave as `data`.
pub open spec fn as_payload<D>(data: Option<D>) -> Option<Message<D>> {
    match data {
        Some(data) => Some(Message::Payload(data)),
        None => None,
    }
}

/// Takes in a frame that arrived from another node: reads the message that
/// it holds, decodes its payload with the decoder that matches its
/// encoding, and queues the message for the consumer. A payload is decoded
/// once, and what the decoder gives is taken in as [`take_in`] takes it.
pub fn receive<D, C: PayloadCodec<D>>(frame: &[u8], codec: &C, reader: &mut ReadStream<D>) -> (result:
    Result<(), ReceiveError>)
    ensures
        final(reader).stream_id() == old(reader).stream_id(),
        final(reader).limit() == old(reader).limit(),
        match parse(frame@) {
            Err(error) => {
                &&& result == Err::<(), ReceiveError>(ReceiveError::Frame(error))
                &&& final(reader).queued() == old(reader).queued()
            },
            Ok(Message::ProgressMarker(time)) => taken_in(
                *old(reader),
                Some(Message::ProgressMarker(time)),
                *final(reader),
                result,
            ),
            Ok(Message::Payload(payload)) => exists|encoded: Encoded, data: Option<D>|
                {
                    &&& encoded@ == payload
                    &&& #[trigger] decoded_by(codec, &encoded, data)
                    &&& taken_in(*old(reader), as_payload(data), *final(reader), result)
                },
        },
{
    let msg = match decode_frame(frame) {
        Ok(msg) => msg,
        Err(error) => {
            return Err(ReceiveError::Frame(error));
        },
    };
    match msg {
        Message::ProgressMarker(time) => take_in(reader, Some(Message::ProgressMarker(time))),
        Message::Payload(encoded) => {
            let decoded = match decode_payload(&encoded, codec) {
                Some(data) => Some(Message::Payload(data)),
                None => None,
            };
            take_in(reader, decoded)
        },
    }
}

/// Whether the decoders of `codec` undo its encoders: whenever an encoder
/// gives bytes for a value, the matching decoder gives that value back for
/// those bytes.
pub open spec fn is_faithful<D, C: PayloadCodec<D>>(codec: &C) -> bool {
    &&& forall|data: D, sent: Vec<u8>, got: Vec<u8>, back: Option<D>|
        #![trigger
            call_ensures(C::encode_fast, (codec, &data), Some(sent)),
            call_ensures(C::decode_fast, (codec, &got), back)
        ]
        call_ensures(C::encode_fast, (codec, &data), Some(sent)) && got@ == sent@ && call_ensures(
            C::decode_fast,
            (codec, &got),
            back,
        ) ==> back == Some(data)
    &&& forall|data: D, sent: Vec<u8>, got: Vec<u8>, back: Option<D>|
        #![trigger
            call_ensures(C::encode_general, (codec, &data), Some(sent)),
            call_ensures(C::decode_general, (codec, &got), back)
        ]
        call_ensures(C::encode_general, (codec, &data), Some(sent)) && got@ == sent@
            && call_ensures(C::decode_general, (codec, &got), back) ==> back == Some(data)
}

/// A payload comes out of another node as it went in: with a codec whose
/// decoders undo its encoders, encoding a value, framing it, reading the
/// frame and decoding what it holds gives the value back.
pub proof fn lemma_payload_round_trip<D, C: PayloadCodec<D>>(
    codec: &C,
    data: D,
    encoded: Encoded,
    arrived: Encoded,
    back: Option<D>,
)
    requires
        is_faithful(codec),
        encoded_by(codec, &data, Ok(encoded)),
        parse(frame_of(Message::Payload(encoded@))) == Ok::<Message<EncodedView>, DecodeError>(
            Message::Payload(arrived@),
        ),
        decoded_by(codec, &arrived, back),
    ensures
        back == Some(data),
{
    lemma_round_trip(Message::Payload(encoded@));
    assert(arrived@ == encoded@);
    assert(arrived.bytes@ == encoded.bytes@);
}

} // verus!
