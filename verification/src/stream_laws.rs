//! What holds of two message socket threads at the ends of one stream.

use vstd::prelude::*;

use crate::framing::{
    first_body, frame, lemma_frame_roundtrip, lemma_length_digits, lemma_length_roundtrip,
    length_bytes, length_of, SocketError, LENGTH_SIZE, MAX_BODY,
};
use crate::message_socket::{
    read_result, reader_step, writer_step, ReadError, Reader, ReaderAction, ReaderEvent, Writer,
    WriterAction, WriterEvent,
};

verus! {

/// What a stream that holds `stream` and then ends has to deliver: its messages, up to
/// the first error, and that error.
pub open spec fn deliveries<Message>(
    stream: Seq<u8>,
    decode: spec_fn(Seq<u8>) -> Option<Message>,
) -> Seq<Result<Message, SocketError>>
    decreases stream.len(),
{
    match first_body(stream) {
        Err(error) => seq![Err(error)],
        Ok(body) => match decode(body) {
            None => seq![Err(SocketError::BodyUndecodable)],
            Some(message) => seq![Ok(message)] + deliveries(
                stream.skip(LENGTH_SIZE + body.len()),
                decode,
            ),
        },
    }
}

/// How many steps the reading thread has before it, at most, until it reads the next
/// length or stops.
pub open spec fn reader_rank(reader: Reader) -> nat {
    match reader {
        Reader::Stopped => 0,
        Reader::Delivering { last: true } => 1,
        Reader::Length => 2,
        Reader::Delivering { last: false } => 3,
        Reader::Decoding => 4,
        Reader::Body { length } => 5,
    }
}

/// What the reading thread delivers from `reader` and `action` on, where `stream` is
/// what is left of its stream, and the receiver takes everything.
pub open spec fn reader_run<Message>(
    reader: Reader,
    action: ReaderAction<Seq<u8>, Message>,
    stream: Seq<u8>,
    decode: spec_fn(Seq<u8>) -> Option<Message>,
) -> Seq<Result<Message, SocketError>>
    decreases stream.len(), reader_rank(reader),
{
    if reader is Stopped {
        seq![]
    } else {
        match action {
            ReaderAction::Read(count) => if count <= stream.len() {
                let (next, then) = reader_step::<Message>(
                    reader,
                    ReaderEvent::Read(stream.take(count as int)),
                );
                reader_run(next, then, stream.skip(count as int), decode)
            } else {
                let (next, then) = reader_step::<Message>(reader, ReaderEvent::ReadFailed);
                reader_run(next, then, stream, decode)
            },
            ReaderAction::Decode(body) => {
                let event = match decode(body) {
                    Some(message) => ReaderEvent::Decoded(message),
                    None => ReaderEvent::DecodeFailed,
                };
                let (next, then) = reader_step(reader, event);
                reader_run(next, then, stream, decode)
            },
            ReaderAction::Deliver(result) => {
                let (next, then) = reader_step::<Message>(reader, ReaderEvent::Delivered);
                seq![result] + reader_run(next, then, stream, decode)
            },
            ReaderAction::Stop => seq![],
        }
    }
}

/// What is on the stream once the writing thread has gone through `queue`: the frames of
/// the bodies, up to the first one whose length cannot be written down.
pub open spec fn written(queue: Seq<Seq<u8>>) -> Seq<u8>
    decreases queue.len(),
{
    if queue.len() == 0 || queue[0].len() > MAX_BODY {
        seq![]
    } else {
        frame(queue[0]) + written(queue.drop_first())
    }
}

/// How many steps the writing thread has before it, at most, until it takes the next
/// message or stops.
pub open spec fn writer_rank(writer: Writer<Seq<u8>>) -> nat {
    match writer {
        Writer::Stopped => 0,
        Writer::Idle => 1,
        Writer::Flushing => 2,
        Writer::Body => 3,
        Writer::Length { body } => 4,
    }
}

/// What the writing thread does from `writer` and `action` on, where `queue` is what waits
/// to be sent before the sender goes, and every write succeeds.
pub open spec fn writer_run(
    writer: Writer<Seq<u8>>,
    action: WriterAction<Seq<u8>>,
    queue: Seq<Seq<u8>>,
) -> Seq<WriterAction<Seq<u8>>>
    decreases queue.len(), writer_rank(writer),
{
    if writer is Stopped {
        seq![action]
    } else {
        match action {
            WriterAction::Receive => if queue.len() > 0 {
                let (next, then) = writer_step(writer, WriterEvent::Received(queue[0]));
                seq![action] + writer_run(next, then, queue.drop_first())
            } else {
                let (next, then) = writer_step(writer, WriterEvent::SenderGone);
                seq![action] + writer_run(next, then, queue)
            },
            WriterAction::Stop => seq![action],
            _ => {
                let (next, then) = writer_step(writer, WriterEvent::Written);
                seq![action] + writer_run(next, then, queue)
            },
        }
    }
}

/// The bytes that `actions` put on the stream.
pub open spec fn bytes_written(actions: Seq<WriterAction<Seq<u8>>>) -> Seq<u8>
    decreases actions.len(),
{
    if actions.len() == 0 {
        seq![]
    } else {
        bytes_written(actions.drop_last()) + match actions.last() {
            WriterAction::Write(bytes) => bytes,
            _ => seq![],
        }
    }
}

/// Those of them that are sure to be sent: what was written when the last flush was done.
pub open spec fn bytes_flushed(actions: Seq<WriterAction<Seq<u8>>>) -> Seq<u8>
    decreases actions.len(),
{
    if actions.len() == 0 {
        seq![]
    } else if actions.last() is Flush {
        bytes_written(actions.drop_last())
    } else {
        bytes_flushed(actions.drop_last())
    }
}

/// What there is to do about `queue`: each body is taken, its length and then the body are
/// written, and the frame is flushed, before the next body is taken; a body whose length
/// cannot be written down is the last one taken.
pub open spec fn frame_actions(queue: Seq<Seq<u8>>) -> Seq<WriterAction<Seq<u8>>>
    decreases queue.len(),
{
    if queue.len() == 0 || queue[0].len() > MAX_BODY {
        seq![WriterAction::Receive, WriterAction::Stop]
    } else {
        seq![
            WriterAction::Receive,
            WriterAction::Write(length_bytes(queue[0].len() as int)),
            WriterAction::Write(queue[0]),
            WriterAction::Flush,
        ] + frame_actions(queue.drop_first())
    }
}

/// The reading thread delivers exactly what its stream has to deliver.
pub proof fn lemma_reader_delivers<Message>(
    stream: Seq<u8>,
    decode: spec_fn(Seq<u8>) -> Option<Message>,
)
    ensures
        reader_run(Reader::Length, ReaderAction::Read(LENGTH_SIZE), stream, decode) == deliveries(
            stream,
            decode,
        ),
    decreases stream.len(),
{
    reveal_with_fuel(reader_run, 6);
    if LENGTH_SIZE <= stream.len() {
        let rest = stream.skip(LENGTH_SIZE as int);
        let length = length_of(stream);
        assert(length_of(stream.take(LENGTH_SIZE as int)) == length);
        assert(0 <= length <= MAX_BODY);
        assert(length as usize == length);
        if length <= rest.len() {
            let body = rest.take(length);
            assert(body =~= first_body(stream)->Ok_0);
            assert(rest.skip(length) =~= stream.skip(LENGTH_SIZE + body.len()));
            lemma_reader_delivers(stream.skip(LENGTH_SIZE + body.len()), decode);
        }
    }
    assert(reader_run(Reader::Length, ReaderAction::Read(LENGTH_SIZE), stream, decode)
        =~= deliveries(stream, decode));
}

/// The writing thread does exactly what there is to do about its queue.
pub proof fn lemma_writer_acts(queue: Seq<Seq<u8>>)
    ensures
        writer_run(Writer::Idle, WriterAction::Receive, queue) == frame_actions(queue),
    decreases queue.len(),
{
    reveal_with_fuel(writer_run, 5);
    if queue.len() > 0 {
        lemma_writer_acts(queue.drop_first());
    }
    assert(writer_run(Writer::Idle, WriterAction::Receive, queue) =~= frame_actions(queue));
}

/// What is written by some actions and then others.
proof fn lemma_bytes_of_both(
    first: Seq<WriterAction<Seq<u8>>>,
    second: Seq<WriterAction<Seq<u8>>>,
)
    ensures
        bytes_written(first + second) == bytes_written(first) + bytes_written(second),
        bytes_written(first) == bytes_flushed(first) ==> bytes_flushed(first + second)
            == bytes_written(first) + bytes_flushed(second),
    decreases second.len(),
{
    if second.len() == 0 {
        assert(first + second =~= first);
        assert(bytes_written(first) + bytes_written(second) =~= bytes_written(first));
        assert(bytes_written(first) + bytes_flushed(second) =~= bytes_written(first));
    } else {
        lemma_bytes_of_both(first, second.drop_last());
        assert((first + second).drop_last() =~= first + second.drop_last());
        assert((first + second).last() == second.last());
        assert(bytes_written(first + second) =~= bytes_written(first) + bytes_written(second));
    }
}

/// What is done about one body writes its frame, and flushes it.
proof fn lemma_bytes_of_frame(body: Seq<u8>)
    ensures
        ({
            let actions = seq![
                WriterAction::Receive,
                WriterAction::Write(length_bytes(body.len() as int)),
                WriterAction::Write(body),
                WriterAction::Flush,
            ];
            bytes_written(actions) == frame(body) && bytes_flushed(actions) == frame(body)
        }),
{
    let length = length_bytes(body.len() as int);
    let one = seq![WriterAction::<Seq<u8>>::Receive];
    let two = seq![WriterAction::Receive, WriterAction::Write(length)];
    let three = seq![WriterAction::Receive, WriterAction::Write(length), WriterAction::Write(body)];
    let four = seq![
        WriterAction::Receive,
        WriterAction::Write(length),
        WriterAction::Write(body),
        WriterAction::Flush,
    ];
    assert(four.drop_last() =~= three && three.drop_last() =~= two && two.drop_last() =~= one);
    assert(one.drop_last() =~= seq![]);
    reveal_with_fuel(bytes_written, 2);
    assert(bytes_written(one) =~= seq![]);
    assert(bytes_written(two) =~= length);
    assert(bytes_written(three) =~= frame(body));
    assert(bytes_written(four) =~= frame(body));
}

/// The writing thread puts the frames of the queued bodies on its stream, in their
/// order, and nothing else, and all of it is flushed.
pub proof fn lemma_writer_writes(queue: Seq<Seq<u8>>)
    ensures
        bytes_written(writer_run(Writer::Idle, WriterAction::Receive, queue)) == written(queue),
        bytes_flushed(writer_run(Writer::Idle, WriterAction::Receive, queue)) == written(queue),
    decreases queue.len(),
{
    lemma_writer_acts(queue);
    if queue.len() == 0 || queue[0].len() > MAX_BODY {
        let actions = frame_actions(queue);
        assert(actions.drop_last() =~= seq![WriterAction::Receive]);
        assert(actions.drop_last().drop_last() =~= seq![]);
        reveal_with_fuel(bytes_written, 3);
        reveal_with_fuel(bytes_flushed, 3);
        assert(bytes_written(actions) =~= seq![]);
        assert(bytes_flushed(actions) =~= seq![]);
    } else {
        let rest = queue.drop_first();
        lemma_writer_acts(rest);
        lemma_writer_writes(rest);
        lemma_bytes_of_frame(queue[0]);
        lemma_bytes_of_both(
            seq![
                WriterAction::Receive,
                WriterAction::Write(length_bytes(queue[0].len() as int)),
                WriterAction::Write(queue[0]),
                WriterAction::Flush,
            ],
            frame_actions(rest),
        );
    }
}

/// Each frame is flushed without waiting for another message: whenever the writing thread
/// takes the next message, what it wrote for those before is flushed, and is exactly their
/// frames.
pub proof fn lemma_flushed_before_next(queue: Seq<Seq<u8>>, count: int)
    requires
        0 <= count <= queue.len(),
        all_sendable(queue.take(count)),
    ensures
        ({
            let actions = writer_run(Writer::Idle, WriterAction::Receive, queue);
            &&& 4 * count < actions.len()
            &&& actions[4 * count] is Receive
            &&& bytes_written(actions.take(4 * count)) == written(queue.take(count))
            &&& bytes_flushed(actions.take(4 * count)) == written(queue.take(count))
        }),
    decreases count,
{
    lemma_writer_acts(queue);
    let actions = frame_actions(queue);
    if count == 0 {
        assert(actions.take(0) =~= seq![]);
    } else {
        let rest = queue.drop_first();
        assert(queue.take(count)[0] == queue[0]);
        assert(rest.take(count - 1) =~= queue.take(count).drop_first());
        assert forall|i: int| 0 <= i < count - 1 implies (#[trigger] rest.take(count - 1)[i]).len()
            <= MAX_BODY by {
            assert(rest.take(count - 1)[i] == queue.take(count)[i + 1]);
        }
        lemma_writer_acts(rest);
        lemma_flushed_before_next(rest, count - 1);
        let first = seq![
            WriterAction::Receive,
            WriterAction::Write(length_bytes(queue[0].len() as int)),
            WriterAction::Write(queue[0]),
            WriterAction::Flush,
        ];
        let second = frame_actions(rest).take(4 * (count - 1));
        assert(actions.take(4 * count) =~= first + second);
        assert(actions[4 * count] == frame_actions(rest)[4 * (count - 1)]);
        lemma_bytes_of_frame(queue[0]);
        lemma_bytes_of_both(first, second);
    }
}

/// Whether the length of every body can be written down.
pub open spec fn all_sendable(bodies: Seq<Seq<u8>>) -> bool {
    forall|i: int| 0 <= i < bodies.len() ==> (#[trigger] bodies[i]).len() <= MAX_BODY
}

/// Whether every body is an encoded message.
pub open spec fn all_decodable<Message>(
    bodies: Seq<Seq<u8>>,
    decode: spec_fn(Seq<u8>) -> Option<Message>,
) -> bool {
    forall|i: int| 0 <= i < bodies.len() ==> decode(#[trigger] bodies[i]) is Some
}

/// The first `count` of the messages that `bodies` encode.
pub open spec fn messages_in<Message>(
    bodies: Seq<Seq<u8>>,
    decode: spec_fn(Seq<u8>) -> Option<Message>,
    count: int,
) -> Seq<Result<Message, SocketError>> {
    Seq::new(count as nat, |i: int| Ok(decode(bodies[i])->0))
}

/// Wherever a stream of frames is cut off, what has to be delivered is a number of the
/// messages from the first on, in their order, and then one error: that the length or
/// the body of the next message is missing.
///
/// A stream that is not cut off delivers every message before that.
pub proof fn lemma_cut_stream<Message>(
    bodies: Seq<Seq<u8>>,
    decode: spec_fn(Seq<u8>) -> Option<Message>,
    cut: int,
) -> (count: int)
    requires
        all_sendable(bodies),
        all_decodable(bodies, decode),
        0 <= cut <= written(bodies).len(),
    ensures
        0 <= count <= bodies.len(),
        ({
            let delivered = deliveries(written(bodies).take(cut), decode);
            ||| delivered == messages_in(bodies, decode, count).push(
                Err(SocketError::LengthMissing),
            )
            ||| count < bodies.len() && delivered == messages_in(bodies, decode, count).push(
                Err(SocketError::BodyMissing),
            )
        }),
        cut == written(bodies).len() ==> count == bodies.len(),
    decreases bodies.len(),
{
    let stream = written(bodies).take(cut);
    let delivered = deliveries(stream, decode);
    if bodies.len() == 0 {
        assert(delivered =~= messages_in(bodies, decode, 0).push(Err(SocketError::LengthMissing)));
        0
    } else {
        let body = bodies[0];
        let rest = bodies.drop_first();
        assert(body.len() <= MAX_BODY);
        if cut < LENGTH_SIZE {
            assert(delivered =~= messages_in(bodies, decode, 0).push(
                Err(SocketError::LengthMissing),
            ));
            0
        } else if cut < LENGTH_SIZE + body.len() {
            lemma_length_roundtrip(body.len() as int, body + written(rest));
            assert(written(bodies) =~= length_bytes(body.len() as int) + (body + written(rest)));
            assert(length_of(stream) == length_of(written(bodies)));
            assert(delivered =~= messages_in(bodies, decode, 0).push(
                Err(SocketError::BodyMissing),
            ));
            0
        } else {
            let rest_cut = cut - LENGTH_SIZE - body.len();
            assert(stream =~= frame(body) + written(rest).take(rest_cut));
            lemma_frame_roundtrip(body, written(rest).take(rest_cut));
            assert forall|i: int| 0 <= i < rest.len() implies (#[trigger] rest[i]).len()
                <= MAX_BODY && decode(rest[i]) is Some by {
                assert(rest[i] == bodies[i + 1]);
            }
            let count = lemma_cut_stream(rest, decode, rest_cut);
            assert(decode(bodies[0]) is Some);
            let tail = messages_in(rest, decode, count);
            let error = deliveries(written(rest).take(rest_cut), decode).last();
            assert(delivered =~= messages_in(bodies, decode, count + 1).push(error)) by {
                assert(deliveries(written(rest).take(rest_cut), decode) == tail.push(error));
                assert forall|i: int| 0 <= i < count implies messages_in(
                    bodies,
                    decode,
                    count + 1,
                )[i + 1] == #[trigger] tail[i] by {
                    assert(rest[i] == bodies[i + 1]);
                }
            }
            count + 1
        }
    }
}

/// What one socket sends, the other reads: the messages come out as they went in, all of
/// them and in their order, and after them the reading thread reports that the stream
/// has ended.
///
/// `encode` and `decode` stand for a codec that decodes what it encodes.
pub proof fn lemma_messages_arrive<Message>(
    messages: Seq<Message>,
    encode: spec_fn(Message) -> Seq<u8>,
    decode: spec_fn(Seq<u8>) -> Option<Message>,
)
    requires
        forall|i: int|
            0 <= i < messages.len() ==> decode(encode(#[trigger] messages[i])) == Some(messages[i])
                && encode(messages[i]).len() <= MAX_BODY,
    ensures
        reader_run(
            Reader::Length,
            ReaderAction::Read(LENGTH_SIZE),
            bytes_flushed(
                writer_run(Writer::Idle, WriterAction::Receive, messages.map_values(encode)),
            ),
            decode,
        ) == messages.map_values(
            |message: Message| Ok::<Message, SocketError>(message),
        ).push(Err(SocketError::LengthMissing)),
{
    let bodies = messages.map_values(encode);
    lemma_writer_writes(bodies);
    lemma_reader_delivers(written(bodies), decode);
    assert forall|i: int| 0 <= i < bodies.len() implies (#[trigger] bodies[i]).len() <= MAX_BODY
        && decode(bodies[i]) == Some(messages[i]) by {
        assert(bodies[i] == encode(messages[i]));
    }
    let count = lemma_cut_stream(bodies, decode, written(bodies).len() as int);
    assert(written(bodies).take(written(bodies).len() as int) =~= written(bodies));
    assert(messages_in(bodies, decode, count) =~= messages.map_values(
        |message: Message| Ok::<Message, SocketError>(message),
    ));
}

/// Everything that is delivered but the last is a message, and the last is an error.
pub proof fn lemma_error_comes_last<Message>(
    stream: Seq<u8>,
    decode: spec_fn(Seq<u8>) -> Option<Message>,
)
    ensures
        deliveries(stream, decode).len() > 0,
        deliveries(stream, decode).last() is Err,
        forall|i: int|
            0 <= i < deliveries(stream, decode).len() - 1 ==> (#[trigger] deliveries(
                stream,
                decode,
            )[i]) is Ok,
    decreases stream.len(),
{
    if let Ok(body) = first_body(stream) {
        if decode(body) is Some {
            let rest = stream.skip(LENGTH_SIZE + body.len());
            lemma_error_comes_last(rest, decode);
            assert forall|i: int| 0 <= i < deliveries(stream, decode).len() - 1 implies (
            #[trigger] deliveries(stream, decode)[i]) is Ok by {
                if i > 0 {
                    assert(deliveries(stream, decode)[i] == deliveries(rest, decode)[i - 1]);
                }
            }
        }
    }
}

/// What the receiver finds after it has taken `taken` deliveries: the next one, or nothing
/// once the reading thread, which was to deliver `delivered`, has stopped.
pub open spec fn received<Message>(
    delivered: Seq<Result<Message, SocketError>>,
    taken: int,
) -> Option<Result<Message, SocketError>> {
    if 0 <= taken < delivered.len() {
        Some(delivered[taken])
    } else {
        None
    }
}

/// Reading from a socket again and again gives the messages of its stream in their order,
/// then the one error that ended it, and from then on that the channel is disconnected.
pub proof fn lemma_reads_in_order<Message>(
    stream: Seq<u8>,
    decode: spec_fn(Seq<u8>) -> Option<Message>,
    taken: int,
)
    requires
        0 <= taken,
    ensures
        ({
            let delivered = deliveries(stream, decode);
            let run = reader_run(Reader::Length, ReaderAction::Read(LENGTH_SIZE), stream, decode);
            let read = read_result(received(run, taken));
            &&& taken < delivered.len() - 1 ==> read == Ok::<Message, ReadError<SocketError>>(
                delivered[taken]->Ok_0,
            )
            &&& taken == delivered.len() - 1 ==> read == Err::<Message, ReadError<SocketError>>(
                ReadError::Failed(delivered[taken]->Err_0),
            )
            &&& taken >= delivered.len() ==> read == Err::<Message, ReadError<SocketError>>(
                ReadError::Socket(SocketError::ChannelDisconnected),
            )
        }),
{
    lemma_reader_delivers(stream, decode);
    lemma_error_comes_last(stream, decode);
    let delivered = deliveries(stream, decode);
    if taken < delivered.len() - 1 {
        assert(delivered[taken] is Ok);
    }
}

/// The reading thread, on any stream. Four bytes, the lowest first, say how long the body is
/// that follows. A stream that ends before them delivers that the length is missing; one that
/// ends before the end of the body, that the body is missing; and one whose body is no encoded
/// message, that it cannot be decoded; each of these ends the reading. Otherwise the message
/// is delivered, and the reading goes on behind the body.
pub proof fn lemma_reading<Message>(
    stream: Seq<u8>,
    decode: spec_fn(Seq<u8>) -> Option<Message>,
)
    ensures
        ({
            let delivered = reader_run(Reader::Length, ReaderAction::Read(4), stream, decode);
            let length = stream[0] + 256 * stream[1] + 65536 * stream[2] + 16777216 * stream[3];
            let body = stream.subrange(4, 4 + length);
            let rest = stream.skip(4 + length);
            &&& stream.len() < 4 ==> delivered == seq![
                Err::<Message, SocketError>(SocketError::LengthMissing),
            ]
            &&& 4 <= stream.len() < 4 + length ==> delivered == seq![
                Err::<Message, SocketError>(SocketError::BodyMissing),
            ]
            &&& stream.len() >= 4 && stream.len() >= 4 + length && decode(body) is None
                ==> delivered == seq![Err::<Message, SocketError>(SocketError::BodyUndecodable)]
            &&& stream.len() >= 4 && stream.len() >= 4 + length && decode(body) is Some
                ==> delivered == seq![Ok::<Message, SocketError>(decode(body)->0)] + reader_run(
                Reader::Length,
                ReaderAction::Read(4),
                rest,
                decode,
            )
        }),
{
    lemma_reader_delivers(stream, decode);
    if stream.len() >= 4 {
        let length = length_of(stream);
        if stream.len() >= 4 + length {
            lemma_reader_delivers(stream.skip(4 + length), decode);
        }
    }
}

/// The writing thread, on any queue. For each body that it takes it writes its length, in four
/// bytes with the lowest first, and the body, and flushes them, before it takes the next one.
/// It stops where there is none, or where the length does not go into four bytes.
pub proof fn lemma_writing(queue: Seq<Seq<u8>>)
    ensures
        ({
            let actions = writer_run(Writer::Idle, WriterAction::Receive, queue);
            let rest = writer_run(Writer::Idle, WriterAction::Receive, queue.drop_first());
            let ends = queue.len() == 0 || queue[0].len() > 0xffff_ffff;
            &&& ends ==> actions.len() == 2 && actions[0] is Receive && actions[1] is Stop
            &&& !ends ==> {
                let length = actions[1]->Write_0;
                &&& actions.len() == 4 + rest.len()
                &&& actions[0] is Receive
                &&& actions[1] is Write
                &&& length.len() == 4
                &&& length[0] + 256 * length[1] + 65536 * length[2] + 16777216 * length[3]
                    == queue[0].len()
                &&& actions[2] == WriterAction::Write(queue[0])
                &&& actions[3] is Flush
                &&& actions.skip(4) == rest
            }
        }),
{
    lemma_writer_acts(queue);
    if queue.len() > 0 {
        lemma_writer_acts(queue.drop_first());
        if queue[0].len() <= 0xffff_ffff {
            lemma_length_digits(queue[0].len() as int);
            assert(frame_actions(queue).skip(4) =~= frame_actions(queue.drop_first()));
        }
    }
}

} // verus!
