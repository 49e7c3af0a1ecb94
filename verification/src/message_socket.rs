//! What a message socket decides: which messages it takes for sending, what its
//! reading and its writing thread do next, and what its user is told.
//!
//! A thread performs the action that it was given, and hands in what came of it.

use vstd::prelude::*;

use crate::framing::{
    decode_length, encode_length, length_bytes, length_of, sendable_length, SocketError,
    LENGTH_SIZE, MAX_BODY,
};
use crate::stream_laws::{
    bytes_flushed, deliveries, frame_actions, lemma_reader_delivers, lemma_writer_acts,
    lemma_writer_writes, reader_run, writer_run, written,
};

verus! {

/// How many messages may wait to be sent.
pub const OUTBOUND_QUEUE: usize = 4096;

/// After how many seconds a write that makes no progress fails.
pub const WRITE_TIMEOUT_SECS: u64 = 10;

/// After how many seconds an attempt to connect fails.
pub const CONNECT_TIMEOUT_SECS: u64 = 1;

/// Where the reading thread stands.
#[derive(Debug, Clone, Copy, PartialEq, Eq, Structural)]
pub enum Reader {
    /// It waits for the length of a body.
    Length,
    /// It waits for a body.
    Body { length: usize },
    /// It waits for a body to be decoded.
    Decoding,
    /// It delivers a message, or, as its last act, an error.
    Delivering { last: bool },
    /// It is done.
    Stopped,
}

/// What came of an action of the reading thread.
#[derive(Debug)]
pub enum ReaderEvent<Bytes, Message> {
    /// As many bytes were read as were asked for.
    Read(Bytes),
    /// The stream ended or failed first.
    ReadFailed,
    /// The body was decoded.
    Decoded(Message),
    /// The body is no encoded message.
    DecodeFailed,
    /// The receiver has what was delivered.
    Delivered,
    /// There is no receiver any more.
    ReceiverGone,
}

/// What the reading thread is to do.
#[derive(Debug)]
pub enum ReaderAction<Bytes, Message> {
    /// Read exactly this many bytes.
    Read(usize),
    /// Decode a body.
    Decode(Bytes),
    /// Hand a message or an error to the receiver.
    Deliver(Result<Message, SocketError>),
    /// End the thread.
    Stop,
}

impl<Message> ReaderEvent<Vec<u8>, Message> {
    /// The event with its bytes as a sequence.
    pub open spec fn view(&self) -> ReaderEvent<Seq<u8>, Message> {
        match *self {
            ReaderEvent::Read(bytes) => ReaderEvent::Read(bytes@),
            ReaderEvent::ReadFailed => ReaderEvent::ReadFailed,
            ReaderEvent::Decoded(message) => ReaderEvent::Decoded(message),
            ReaderEvent::DecodeFailed => ReaderEvent::DecodeFailed,
            ReaderEvent::Delivered => ReaderEvent::Delivered,
            ReaderEvent::ReceiverGone => ReaderEvent::ReceiverGone,
        }
    }
}

impl<Message> ReaderAction<Vec<u8>, Message> {
    /// The action with its bytes as a sequence.
    pub open spec fn view(&self) -> ReaderAction<Seq<u8>, Message> {
        match *self {
            ReaderAction::Read(count) => ReaderAction::Read(count),
            ReaderAction::Decode(bytes) => ReaderAction::Decode(bytes@),
            ReaderAction::Deliver(result) => ReaderAction::Deliver(result),
            ReaderAction::Stop => ReaderAction::Stop,
        }
    }
}

/// Where the reading thread stands after `event`, and what it does next. Any error is
/// delivered, and nothing after it. An event that cannot follow the last action ends
/// the thread.
pub open spec fn reader_step<Message>(
    reader: Reader,
    event: ReaderEvent<Seq<u8>, Message>,
) -> (Reader, ReaderAction<Seq<u8>, Message>) {
    match (reader, event) {
        (Reader::Length, ReaderEvent::Read(bytes)) if bytes.len() == LENGTH_SIZE => {
            let length = length_of(bytes) as usize;
            (Reader::Body { length }, ReaderAction::Read(length))
        },
        (Reader::Length, ReaderEvent::ReadFailed) => (
            Reader::Delivering { last: true },
            ReaderAction::Deliver(Err(SocketError::LengthMissing)),
        ),
        (Reader::Body { length }, ReaderEvent::Read(bytes)) if bytes.len() == length => (
            Reader::Decoding,
            ReaderAction::Decode(bytes),
        ),
        (Reader::Body { length }, ReaderEvent::ReadFailed) => (
            Reader::Delivering { last: true },
            ReaderAction::Deliver(Err(SocketError::BodyMissing)),
        ),
        (Reader::Decoding, ReaderEvent::Decoded(message)) => (
            Reader::Delivering { last: false },
            ReaderAction::Deliver(Ok(message)),
        ),
        (Reader::Decoding, ReaderEvent::DecodeFailed) => (
            Reader::Delivering { last: true },
            ReaderAction::Deliver(Err(SocketError::BodyUndecodable)),
        ),
        (Reader::Delivering { last }, ReaderEvent::Delivered) if !last => (
            Reader::Length,
            ReaderAction::Read(LENGTH_SIZE),
        ),
        _ => (Reader::Stopped, ReaderAction::Stop),
    }
}

impl Reader {
    /// Where the reading thread starts, and what it does first.
    pub fn start<Message>() -> (started: (Reader, ReaderAction<Vec<u8>, Message>))
        ensures
            started.0 is Length,
            started.1 is Read && started.1->Read_0 == 4,
            started.1@ == (ReaderAction::<Seq<u8>, Message>::Read(LENGTH_SIZE)),
    {
        (Reader::Length, ReaderAction::Read(LENGTH_SIZE))
    }

    /// Takes in what came of the last action, and decides on the next one.
    pub fn step<Message>(self, event: ReaderEvent<Vec<u8>, Message>) -> (next: (
        Reader,
        ReaderAction<Vec<u8>, Message>,
    ))
        ensures
            (next.0, next.1@) == reader_step(self, event@),
            event is ReceiverGone ==> next.0 is Stopped && next.1 is Stop,
            self is Stopped ==> next.0 is Stopped && next.1 is Stop,
            self is Length ==> match event {
                ReaderEvent::Read(bytes) => if bytes@.len() == 4 {
                    next.0 is Body && next.0->length == bytes@[0] + 256 * bytes@[1] + 65536
                        * bytes@[2] + 16777216 * bytes@[3] && next.1 is Read && next.1->Read_0
                        == next.0->length
                } else {
                    next.0 is Stopped && next.1 is Stop
                },
                ReaderEvent::ReadFailed => next.0 == (Reader::Delivering { last: true })
                    && next.1 == ReaderAction::<Vec<u8>, Message>::Deliver(
                    Err(SocketError::LengthMissing),
                ),
                _ => next.0 is Stopped && next.1 is Stop,
            },
            self is Body ==> match event {
                ReaderEvent::Read(bytes) => if bytes@.len() == self->length {
                    next.0 is Decoding && next.1 is Decode && next.1->Decode_0@ == bytes@
                } else {
                    next.0 is Stopped && next.1 is Stop
                },
                ReaderEvent::ReadFailed => next.0 == (Reader::Delivering { last: true })
                    && next.1 == ReaderAction::<Vec<u8>, Message>::Deliver(
                    Err(SocketError::BodyMissing),
                ),
                _ => next.0 is Stopped && next.1 is Stop,
            },
            self is Decoding ==> match event {
                ReaderEvent::Decoded(message) => next.0 == (Reader::Delivering { last: false })
                    && next.1 == ReaderAction::<Vec<u8>, Message>::Deliver(Ok(message)),
                ReaderEvent::DecodeFailed => next.0 == (Reader::Delivering { last: true })
                    && next.1 == ReaderAction::<Vec<u8>, Message>::Deliver(
                    Err(SocketError::BodyUndecodable),
                ),
                _ => next.0 is Stopped && next.1 is Stop,
            },
            self is Delivering ==> if event is Delivered && !self->last {
                next.0 is Length && next.1 is Read && next.1->Read_0 == 4
            } else {
                next.0 is Stopped && next.1 is Stop
            },
    {
        match (self, event) {
            (Reader::Length, ReaderEvent::Read(bytes)) => {
                if bytes.len() != LENGTH_SIZE {
                    return (Reader::Stopped, ReaderAction::Stop);
                }
                let length = decode_length(bytes.as_slice()) as usize;
                (Reader::Body { length }, ReaderAction::Read(length))
            },
            (Reader::Length, ReaderEvent::ReadFailed) => (
                Reader::Delivering { last: true },
                ReaderAction::Deliver(Err(SocketError::LengthMissing)),
            ),
            (Reader::Body { length }, ReaderEvent::Read(bytes)) => {
                if bytes.len() != length {
                    return (Reader::Stopped, ReaderAction::Stop);
                }
                (Reader::Decoding, ReaderAction::Decode(bytes))
            },
            (Reader::Body { length: _ }, ReaderEvent::ReadFailed) => (
                Reader::Delivering { last: true },
                ReaderAction::Deliver(Err(SocketError::BodyMissing)),
            ),
            (Reader::Decoding, ReaderEvent::Decoded(message)) => (
                Reader::Delivering { last: false },
                ReaderAction::Deliver(Ok(message)),
            ),
            (Reader::Decoding, ReaderEvent::DecodeFailed) => (
                Reader::Delivering { last: true },
                ReaderAction::Deliver(Err(SocketError::BodyUndecodable)),
            ),
            (Reader::Delivering { last: false }, ReaderEvent::Delivered) => (
                Reader::Length,
                ReaderAction::Read(LENGTH_SIZE),
            ),
            _ => (Reader::Stopped, ReaderAction::Stop),
        }
    }
}

/// Where the writing thread stands.
#[derive(Debug)]
pub enum Writer<Bytes> {
    /// It waits for an encoded message.
    Idle,
    /// It writes the length of a body, which comes next.
    Length { body: Bytes },
    /// It writes a body.
    Body,
    /// It flushes what it wrote.
    Flushing,
    /// It is done.
    Stopped,
}

/// What came of an action of the writing thread.
#[derive(Debug)]
pub enum WriterEvent<Bytes> {
    /// There is a message to be sent.
    Received(Bytes),
    /// There will be no more messages.
    SenderGone,
    /// The bytes were written, or flushed.
    Written,
    /// They were not.
    WriteFailed,
}

/// What the writing thread is to do.
#[derive(Debug)]
pub enum WriterAction<Bytes> {
    /// Wait for a message to be sent.
    Receive,
    /// Write all of these bytes.
    Write(Bytes),
    /// Flush what was written.
    Flush,
    /// End the thread.
    Stop,
}

impl Writer<Vec<u8>> {
    /// The state with its bytes as a sequence.
    pub open spec fn view(&self) -> Writer<Seq<u8>> {
        match *self {
            Writer::Idle => Writer::Idle,
            Writer::Length { body } => Writer::Length { body: body@ },
            Writer::Body => Writer::Body,
            Writer::Flushing => Writer::Flushing,
            Writer::Stopped => Writer::Stopped,
        }
    }
}

impl WriterEvent<Vec<u8>> {
    /// The event with its bytes as a sequence.
    pub open spec fn view(&self) -> WriterEvent<Seq<u8>> {
        match *self {
            WriterEvent::Received(bytes) => WriterEvent::Received(bytes@),
            WriterEvent::SenderGone => WriterEvent::SenderGone,
            WriterEvent::Written => WriterEvent::Written,
            WriterEvent::WriteFailed => WriterEvent::WriteFailed,
        }
    }
}

impl WriterAction<Vec<u8>> {
    /// The action with its bytes as a sequence.
    pub open spec fn view(&self) -> WriterAction<Seq<u8>> {
        match *self {
            WriterAction::Receive => WriterAction::Receive,
            WriterAction::Write(bytes) => WriterAction::Write(bytes@),
            WriterAction::Flush => WriterAction::Flush,
            WriterAction::Stop => WriterAction::Stop,
        }
    }
}

/// Where the writing thread stands after `event`, and what it does next. A body whose
/// length cannot be written down ends the thread, and so does a failure, and an event
/// that cannot follow the last action.
pub open spec fn writer_step(
    writer: Writer<Seq<u8>>,
    event: WriterEvent<Seq<u8>>,
) -> (Writer<Seq<u8>>, WriterAction<Seq<u8>>) {
    match (writer, event) {
        (Writer::Idle, WriterEvent::Received(body)) if body.len() <= MAX_BODY => (
            Writer::Length { body },
            WriterAction::Write(length_bytes(body.len() as int)),
        ),
        (Writer::Length { body }, WriterEvent::Written) => (
            Writer::Body,
            WriterAction::Write(body),
        ),
        (Writer::Body, WriterEvent::Written) => (Writer::Flushing, WriterAction::Flush),
        (Writer::Flushing, WriterEvent::Written) => (Writer::Idle, WriterAction::Receive),
        _ => (Writer::Stopped, WriterAction::Stop),
    }
}

impl Writer<Vec<u8>> {
    /// Where the writing thread starts, and what it does first.
    pub fn start() -> (started: (Writer<Vec<u8>>, WriterAction<Vec<u8>>))
        ensures
            started.0 is Idle,
            started.1 is Receive,
            started.0@ == Writer::<Seq<u8>>::Idle,
            started.1@ == WriterAction::<Seq<u8>>::Receive,
    {
        (Writer::Idle, WriterAction::Receive)
    }

    /// Takes in what came of the last action, and decides on the next one.
    pub fn step(self, event: WriterEvent<Vec<u8>>) -> (next: (
        Writer<Vec<u8>>,
        WriterAction<Vec<u8>>,
    ))
        ensures
            (next.0@, next.1@) == writer_step(self@, event@),
            event is SenderGone || event is WriteFailed || self is Stopped ==> next.0 is Stopped
                && next.1 is Stop,
            self is Idle ==> match event {
                WriterEvent::Received(body) => if body@.len() <= 0xffff_ffff {
                    next.0 is Length && next.0->body@ == body@ && next.1 is Write && {
                        let bytes = next.1->Write_0@;
                        bytes.len() == 4 && bytes[0] + 256 * bytes[1] + 65536 * bytes[2] + 16777216
                            * bytes[3] == body@.len()
                    }
                } else {
                    next.0 is Stopped && next.1 is Stop
                },
                _ => next.0 is Stopped && next.1 is Stop,
            },
            self is Length && event is Written ==> next.0 is Body && next.1 is Write
                && next.1->Write_0@ == self->body@,
            self is Body && event is Written ==> next.0 is Flushing && next.1 is Flush,
            self is Flushing && event is Written ==> next.0 is Idle && next.1 is Receive,
            !(self is Idle) && !(event is Written) ==> next.0 is Stopped && next.1 is Stop,
    {
        match (self, event) {
            (Writer::Idle, WriterEvent::Received(body)) => {
                let Ok(length) = sendable_length(body.len()) else {
                    return (Writer::Stopped, WriterAction::Stop);
                };
                (Writer::Length { body }, WriterAction::Write(encode_length(length)))
            },
            (Writer::Length { body }, WriterEvent::Written) => (
                Writer::Body,
                WriterAction::Write(body),
            ),
            (Writer::Body, WriterEvent::Written) => (Writer::Flushing, WriterAction::Flush),
            (Writer::Flushing, WriterEvent::Written) => (Writer::Idle, WriterAction::Receive),
            _ => (Writer::Stopped, WriterAction::Stop),
        }
    }
}

/// What the queue to the writing thread did with a message.
#[derive(Debug, Clone, Copy, PartialEq, Eq, Structural)]
pub enum QueueOutcome {
    Queued,
    Full,
    Disconnected,
}

/// What the queue from the reading thread holds.
#[derive(Debug)]
pub enum Inbox<Message, Failure> {
    /// The next message, or the failure that ended the reading.
    Next(Result<Message, Failure>),
    /// Nothing yet.
    Empty,
    /// Nothing, and nothing to come.
    Disconnected,
}

/// Why no message could be read.
#[derive(Debug)]
pub enum ReadError<Failure> {
    /// The reading thread failed.
    Failed(Failure),
    /// The socket cannot deliver.
    Socket(SocketError),
}

/// What reading gives out where `received` is what was waited for; nothing comes where the
/// reading thread is gone and nothing of it is left.
pub open spec fn read_result<Message, Failure>(received: Option<Result<Message, Failure>>) -> Result<
    Message,
    ReadError<Failure>,
> {
    match received {
        Some(Ok(message)) => Ok(message),
        Some(Err(failure)) => Err(ReadError::Failed(failure)),
        None => Err(ReadError::Socket(SocketError::ChannelDisconnected)),
    }
}

/// What reading without waiting gives out where `inbox` is what is there.
pub open spec fn try_read_result<Message, Failure>(inbox: Inbox<Message, Failure>) -> Result<
    Option<Message>,
    ReadError<Failure>,
> {
    match inbox {
        Inbox::Next(Ok(message)) => Ok(Some(message)),
        Inbox::Next(Err(failure)) => Err(ReadError::Failed(failure)),
        Inbox::Empty => Ok(None),
        Inbox::Disconnected => Err(ReadError::Socket(SocketError::ChannelDisconnected)),
    }
}

/// A socket that was just opened, and what its two threads start with.
#[derive(Debug)]
pub struct Opened<Message> {
    pub socket: MessageSocket,
    pub reader: (Reader, ReaderAction<Vec<u8>, Message>),
    pub writer: (Writer<Vec<u8>>, WriterAction<Vec<u8>>),
}

/// The side of a message socket that its user talks to.
#[derive(Debug)]
pub struct MessageSocket {
    writer_connected: bool,
}

impl MessageSocket {
    /// Whether messages are still taken for sending.
    pub closed spec fn is_open(self) -> bool {
        self.writer_connected
    }

    /// Opens a socket, which takes messages for sending.
    ///
    /// Its reading thread delivers what its stream has to deliver, up to the first error,
    /// and then stops. Its writing thread takes one message after the other, and writes and
    /// flushes the frame of each before it takes the next.
    pub fn new<Message>() -> (opened: Opened<Message>)
        ensures
            opened.socket.is_open(),
            opened.reader.0 is Length,
            opened.reader.1 is Read && opened.reader.1->Read_0 == 4,
            opened.writer.0 is Idle,
            opened.writer.1 is Receive,
            opened.reader.1@ == (ReaderAction::<Seq<u8>, Message>::Read(LENGTH_SIZE)),
            opened.writer.0@ == Writer::<Seq<u8>>::Idle,
            opened.writer.1@ == WriterAction::<Seq<u8>>::Receive,
            forall|stream: Seq<u8>, decode: spec_fn(Seq<u8>) -> Option<Message>| #[trigger]
                reader_run(opened.reader.0, opened.reader.1@, stream, decode) == deliveries(
                    stream,
                    decode,
                ),
            forall|queue: Seq<Seq<u8>>| #[trigger]
                writer_run(opened.writer.0@, opened.writer.1@, queue) == frame_actions(queue),
            forall|queue: Seq<Seq<u8>>|
                bytes_flushed(#[trigger] writer_run(opened.writer.0@, opened.writer.1@, queue))
                    == written(queue),
    {
        let opened = Opened {
            socket: MessageSocket { writer_connected: true },
            reader: Reader::start(),
            writer: Writer::start(),
        };
        proof {
            assert forall|stream: Seq<u8>, decode: spec_fn(Seq<u8>) -> Option<Message>| #[trigger]
                reader_run(opened.reader.0, opened.reader.1@, stream, decode) == deliveries(
                    stream,
                    decode,
                ) by {
                lemma_reader_delivers(stream, decode);
            }
            assert forall|queue: Seq<Seq<u8>>| #[trigger]
                writer_run(opened.writer.0@, opened.writer.1@, queue) == frame_actions(queue)
                && bytes_flushed(writer_run(opened.writer.0@, opened.writer.1@, queue))
                    == written(queue) by {
                lemma_writer_acts(queue);
                lemma_writer_writes(queue);
            }
        }
        opened
    }

    /// Takes no more messages for sending.
    pub fn close(&mut self)
        ensures
            !final(self).is_open(),
    {
        self.writer_connected = false;
    }

    /// Decides whether an encoded message goes to the queue of the writing thread.
    pub fn write(&self, encoded: Vec<u8>) -> (admitted: Result<Vec<u8>, SocketError>)
        ensures
            encoded@.len() > MAX_BODY ==> admitted == Err::<Vec<u8>, SocketError>(
                SocketError::MessageTooLarge,
            ),
            encoded@.len() <= MAX_BODY && !self.is_open() ==> admitted == Err::<
                Vec<u8>,
                SocketError,
            >(SocketError::WriterDisconnected),
            encoded@.len() <= MAX_BODY && self.is_open() ==> admitted == Ok::<
                Vec<u8>,
                SocketError,
            >(encoded),
    {
        if let Err(error) = sendable_length(encoded.len()) {
            return Err(error);
        }
        if !self.writer_connected {
            return Err(SocketError::WriterDisconnected);
        }
        Ok(encoded)
    }

    /// Tells what became of a message that was put to the queue of the writing thread.
    pub fn queued(outcome: QueueOutcome) -> (written: Result<(), SocketError>)
        ensures
            written == (match outcome {
                QueueOutcome::Queued => Ok::<(), SocketError>(()),
                QueueOutcome::Full => Err(SocketError::QueueFull),
                QueueOutcome::Disconnected => Err(SocketError::WriterDisconnected),
            }),
    {
        match outcome {
            QueueOutcome::Queued => Ok(()),
            QueueOutcome::Full => Err(SocketError::QueueFull),
            QueueOutcome::Disconnected => Err(SocketError::WriterDisconnected),
        }
    }

    /// Gives out what was waited for; nothing comes where the reading thread is gone.
    pub fn read<Message, Failure>(received: Option<Result<Message, Failure>>) -> (read: Result<
        Message,
        ReadError<Failure>,
    >)
        ensures
            read == read_result(received),
            received matches Some(Ok(message)) ==> read == Ok::<Message, ReadError<Failure>>(
                message,
            ),
            received matches Some(Err(failure)) ==> read == Err::<Message, ReadError<Failure>>(
                ReadError::Failed(failure),
            ),
            received is None ==> read == Err::<Message, ReadError<Failure>>(
                ReadError::Socket(SocketError::ChannelDisconnected),
            ),
    {
        match received {
            Some(Ok(message)) => Ok(message),
            Some(Err(failure)) => Err(ReadError::Failed(failure)),
            None => Err(ReadError::Socket(SocketError::ChannelDisconnected)),
        }
    }

    /// Gives out what is there, without waiting for it.
    pub fn try_read<Message, Failure>(inbox: Inbox<Message, Failure>) -> (read: Result<
        Option<Message>,
        ReadError<Failure>,
    >)
        ensures
            read == try_read_result(inbox),
            inbox matches Inbox::Next(Ok(message)) ==> read == Ok::<
                Option<Message>,
                ReadError<Failure>,
            >(Some(message)),
            inbox matches Inbox::Next(Err(failure)) ==> read == Err::<
                Option<Message>,
                ReadError<Failure>,
            >(ReadError::Failed(failure)),
            inbox is Empty ==> read == Ok::<Option<Message>, ReadError<Failure>>(None),
            inbox is Disconnected ==> read == Err::<Option<Message>, ReadError<Failure>>(
                ReadError::Socket(SocketError::ChannelDisconnected),
            ),
    {
        match inbox {
            Inbox::Next(Ok(message)) => Ok(Some(message)),
            Inbox::Next(Err(failure)) => Err(ReadError::Failed(failure)),
            Inbox::Empty => Ok(None),
            Inbox::Disconnected => Err(ReadError::Socket(SocketError::ChannelDisconnected)),
        }
    }

    /// Every message is flushed as it is written, so there is nothing left to do.
    pub fn flush(&self) -> (flushed: Result<(), SocketError>)
        ensures
            flushed is Ok,
    {
        Ok(())
    }
}

} // verus!
