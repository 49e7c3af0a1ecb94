//! How a message lies on a stream: the length of its body in four bytes, the lowest
//! first, and then the body.

use vstd::prelude::*;

verus! {

/// How many bytes the length of a body takes.
pub const LENGTH_SIZE: usize = 4;

/// The longest body whose length can be written down.
pub const MAX_BODY: usize = 0xffff_ffff;

/// Why a message could not be taken from a stream or handed to one.
#[derive(Debug, Clone, Copy, PartialEq, Eq, Structural)]
pub enum SocketError {
    /// The stream ended or failed before the length of the next body was there.
    LengthMissing,
    /// The stream ended or failed before the whole body was there.
    BodyMissing,
    /// The body is no encoded message.
    BodyUndecodable,
    /// Nobody delivers messages any more.
    ChannelDisconnected,
    /// The length of the encoded message cannot be written down.
    MessageTooLarge,
    /// Nobody takes messages for sending any more.
    WriterDisconnected,
    /// Too many messages are waiting to be sent.
    QueueFull,
}

impl SocketError {
    /// What the error is reported as.
    pub open spec fn text(self) -> Seq<char> {
        match self {
            SocketError::LengthMissing => "Couldn't receive the length from stream"@,
            SocketError::BodyMissing => "Couldn't read message body"@,
            SocketError::BodyUndecodable => "Failed to decode message body"@,
            SocketError::ChannelDisconnected => "Channel disconnected"@,
            SocketError::MessageTooLarge => "Message too large to be sent"@,
            SocketError::WriterDisconnected => "Message socket writer disconnected"@,
            SocketError::QueueFull => "Message socket outbound queue is full"@,
        }
    }

    /// Gives the text that the error is reported as.
    pub fn message(&self) -> (message: &'static str)
        ensures
            message@ == self.text(),
    {
        match self {
            SocketError::LengthMissing => "Couldn't receive the length from stream",
            SocketError::BodyMissing => "Couldn't read message body",
            SocketError::BodyUndecodable => "Failed to decode message body",
            SocketError::ChannelDisconnected => "Channel disconnected",
            SocketError::MessageTooLarge => "Message too large to be sent",
            SocketError::WriterDisconnected => "Message socket writer disconnected",
            SocketError::QueueFull => "Message socket outbound queue is full",
        }
    }
}

/// A number below two to the thirty-second in four bytes, the lowest first.
pub open spec fn length_bytes(length: int) -> Seq<u8> {
    seq![
        (length % 256) as u8,
        (length / 256 % 256) as u8,
        (length / 65536 % 256) as u8,
        (length / 16777216 % 256) as u8,
    ]
}

/// The number that four bytes stand for, the lowest first.
pub open spec fn length_of(bytes: Seq<u8>) -> int {
    bytes[0] + 256 * bytes[1] + 65536 * bytes[2] + 16777216 * bytes[3]
}

/// A body as it lies on a stream.
pub open spec fn frame(body: Seq<u8>) -> Seq<u8> {
    length_bytes(body.len() as int) + body
}

/// The body at the start of a stream that holds `stream` and then ends, or what keeps
/// it from being read.
pub open spec fn first_body(stream: Seq<u8>) -> Result<Seq<u8>, SocketError> {
    if stream.len() < LENGTH_SIZE {
        Err(SocketError::LengthMissing)
    } else if stream.len() < LENGTH_SIZE + length_of(stream) {
        Err(SocketError::BodyMissing)
    } else {
        Ok(stream.subrange(LENGTH_SIZE as int, LENGTH_SIZE + length_of(stream)))
    }
}

/// Checks that the length of a body can be written down.
pub fn sendable_length(length: usize) -> (checked: Result<u32, SocketError>)
    ensures
        checked == (if length <= MAX_BODY {
            Ok::<u32, SocketError>(length as u32)
        } else {
            Err(SocketError::MessageTooLarge)
        }),
        length <= 0xffff_ffff ==> checked is Ok && checked->Ok_0 == length,
        length > 0xffff_ffff ==> checked is Err,
{
    if length <= MAX_BODY {
        Ok(length as u32)
    } else {
        Err(SocketError::MessageTooLarge)
    }
}

/// Writes down the length of a body.
pub fn encode_length(length: u32) -> (bytes: Vec<u8>)
    ensures
        bytes@ == length_bytes(length as int),
        bytes@.len() == 4,
        bytes@[0] + 256 * bytes@[1] + 65536 * bytes@[2] + 16777216 * bytes@[3] == length,
{
    let bytes: Vec<u8> = vec![
        (length % 256) as u8,
        (length / 256 % 256) as u8,
        (length / 65536 % 256) as u8,
        (length / 16777216 % 256) as u8,
    ];
    assert(bytes@ =~= length_bytes(length as int));
    bytes
}

/// Reads the length of a body.
pub fn decode_length(bytes: &[u8]) -> (length: u32)
    requires
        bytes@.len() == LENGTH_SIZE,
    ensures
        length == length_of(bytes@),
        length == bytes@[0] + 256 * bytes@[1] + 65536 * bytes@[2] + 16777216 * bytes@[3],
{
    bytes[0] as u32 + 256 * bytes[1] as u32 + 65536 * bytes[2] as u32 + 16777216 * bytes[3] as u32
}

/// A length that is written down is read back, whatever follows it.
pub proof fn lemma_length_roundtrip(length: int, rest: Seq<u8>)
    requires
        0 <= length <= MAX_BODY,
    ensures
        length_of(length_bytes(length) + rest) == length,
{
}

/// Four bytes are what is written down for the number that they stand for.
pub proof fn lemma_length_bytes_roundtrip(bytes: Seq<u8>)
    requires
        bytes.len() == LENGTH_SIZE,
    ensures
        0 <= length_of(bytes) <= MAX_BODY,
        length_bytes(length_of(bytes)) == bytes,
{
    let length = length_of(bytes);
    let second = bytes[1] + 256 * bytes[2] + 65536 * bytes[3];
    let third = bytes[2] + 256 * bytes[3];
    assert(length % 256 == bytes[0] && length / 256 == second);
    assert(second % 256 == bytes[1] && second / 256 == third);
    assert(length / 65536 == third);
    assert(third % 256 == bytes[2] && third / 256 == bytes[3]);
    assert(length / 16777216 == bytes[3]);
    assert(length_bytes(length) =~= bytes);
}

/// The body of a frame is read back, whatever follows the frame.
pub proof fn lemma_frame_roundtrip(body: Seq<u8>, rest: Seq<u8>)
    requires
        body.len() <= MAX_BODY,
    ensures
        first_body(frame(body) + rest) == Ok::<Seq<u8>, SocketError>(body),
        (frame(body) + rest).skip(LENGTH_SIZE + body.len()) == rest,
{
    lemma_length_roundtrip(body.len() as int, body + rest);
    assert(frame(body) + rest =~= length_bytes(body.len() as int) + (body + rest));
    assert((frame(body) + rest).subrange(
        LENGTH_SIZE as int,
        LENGTH_SIZE + body.len() as int,
    ) =~= body);
    assert((frame(body) + rest).skip(LENGTH_SIZE + body.len()) =~= rest);
}

/// What a body is read from is the frame of that body.
pub proof fn lemma_read_body_is_framed(stream: Seq<u8>)
    requires
        first_body(stream) is Ok,
    ensures
        (first_body(stream)->Ok_0).len() <= MAX_BODY,
        stream == frame(first_body(stream)->Ok_0) + stream.skip(
            LENGTH_SIZE + (first_body(stream)->Ok_0).len(),
        ),
{
    let body = first_body(stream)->Ok_0;
    lemma_length_bytes_roundtrip(stream.take(4));
    assert(length_of(stream.take(4)) == length_of(stream));
    assert(stream =~= frame(body) + stream.skip(LENGTH_SIZE + body.len()));
}

/// The four bytes of a length are its digits to the base 256, the lowest first.
pub proof fn lemma_length_digits(length: int)
    requires
        0 <= length <= 0xffff_ffff,
    ensures
        length_bytes(length).len() == 4,
        length_bytes(length)[0] + 256 * length_bytes(length)[1] + 65536 * length_bytes(length)[2]
            + 16777216 * length_bytes(length)[3] == length,
{
}

/// Bytes are read as digits to the base 256, the lowest first; only the first four count.
pub proof fn lemma_length_value(bytes: Seq<u8>)
    requires
        bytes.len() >= 4,
    ensures
        length_of(bytes) == bytes[0] + 256 * bytes[1] + 65536 * bytes[2] + 16777216 * bytes[3],
{
}

/// A frame has four bytes of length, with the lowest digit first, and then the body.
pub proof fn lemma_frame_layout(body: Seq<u8>)
    requires
        body.len() <= 0xffff_ffff,
    ensures
        frame(body).len() == 4 + body.len(),
        frame(body)[0] + 256 * frame(body)[1] + 65536 * frame(body)[2] + 16777216 * frame(body)[3]
            == body.len(),
        forall|i: int| 0 <= i < body.len() ==> frame(body)[4 + i] == #[trigger] body[i],
{
    lemma_length_digits(body.len() as int);
}

/// What is reported of each error.
pub proof fn lemma_error_texts(error: SocketError)
    ensures
        error is LengthMissing ==> error.text() == "Couldn't receive the length from stream"@,
        error is BodyMissing ==> error.text() == "Couldn't read message body"@,
        error is BodyUndecodable ==> error.text() == "Failed to decode message body"@,
        error is ChannelDisconnected ==> error.text() == "Channel disconnected"@,
        error is MessageTooLarge ==> error.text() == "Message too large to be sent"@,
        error is WriterDisconnected ==> error.text() == "Message socket writer disconnected"@,
        error is QueueFull ==> error.text() == "Message socket outbound queue is full"@,
{
}

} // verus!
