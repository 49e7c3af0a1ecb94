use entangled_net::framing::{
    decode_length, encode_length, sendable_length, SocketError, MAX_BODY,
};
use entangled_net::message_socket::{
    Inbox, MessageSocket, QueueOutcome, ReadError, Reader, ReaderAction, ReaderEvent, Writer,
    WriterAction, WriterEvent, OUTBOUND_QUEUE,
};

/// Runs a writing thread over a queue, and gives what is on the stream afterwards.
fn written(queue: Vec<Vec<u8>>) -> Vec<u8> {
    let mut stream = Vec::new();
    let mut queue = queue.into_iter();
    let (mut writer, mut action) = Writer::start();
    loop {
        let event = match action {
            WriterAction::Receive => match queue.next() {
                Some(body) => WriterEvent::Received(body),
                None => WriterEvent::SenderGone,
            },
            WriterAction::Write(bytes) => {
                stream.extend(bytes);
                WriterEvent::Written
            }
            WriterAction::Flush => WriterEvent::Written,
            WriterAction::Stop => return stream,
        };
        (writer, action) = writer.step(event);
    }
}

/// Runs a reading thread over a stream, with texts for messages, and gives what it
/// delivers.
fn delivered(stream: &[u8]) -> Vec<Result<String, SocketError>> {
    let mut results = Vec::new();
    let mut at = 0;
    let (mut reader, mut action) = Reader::start::<String>();
    loop {
        let event = match action {
            ReaderAction::Read(count) => {
                if count <= stream.len() - at {
                    at += count;
                    ReaderEvent::Read(stream[at - count..at].to_vec())
                } else {
                    ReaderEvent::ReadFailed
                }
            }
            ReaderAction::Decode(body) => match String::from_utf8(body) {
                Ok(message) => ReaderEvent::Decoded(message),
                Err(_) => ReaderEvent::DecodeFailed,
            },
            ReaderAction::Deliver(result) => {
                results.push(result);
                ReaderEvent::Delivered
            }
            ReaderAction::Stop => return results,
        };
        (reader, action) = reader.step(event);
    }
}

#[test]
fn writes_lengths_lowest_byte_first() {
    assert_eq!(encode_length(0), vec![0, 0, 0, 0]);
    assert_eq!(encode_length(0x0403_0201), vec![1, 2, 3, 4]);
    assert_eq!(encode_length(u32::MAX), vec![255, 255, 255, 255]);
    assert_eq!(decode_length(&[1, 2, 3, 4]), 0x0403_0201);
    assert_eq!(decode_length(&[255, 255, 255, 255]), u32::MAX);
    for length in [0, 1, 255, 256, 65535, 65536, 16777215, 16777216, u32::MAX] {
        assert_eq!(decode_length(&encode_length(length)), length);
        assert_eq!(encode_length(length), length.to_le_bytes().to_vec());
    }
}

#[test]
fn frames_a_body_with_its_length() {
    assert_eq!(written(vec![b"hey".to_vec()]), vec![3, 0, 0, 0, b'h', b'e', b'y']);
    assert_eq!(written(vec![vec![], vec![7]]), vec![0, 0, 0, 0, 1, 0, 0, 0, 7]);
    assert_eq!(written(vec![]), Vec::<u8>::new());
}

#[test]
fn reads_back_what_was_written() {
    let stream = written(vec![b"one".to_vec(), vec![], b"three".to_vec()]);
    assert_eq!(
        delivered(&stream),
        vec![
            Ok("one".to_string()),
            Ok(String::new()),
            Ok("three".to_string()),
            Err(SocketError::LengthMissing),
        ]
    );
}

#[test]
fn a_cut_stream_ends_in_one_error() {
    let stream = written(vec![b"one".to_vec(), b"two".to_vec()]);
    for cut in 0..=stream.len() {
        let whole = cut / 7;
        let error = if cut % 7 < 4 {
            SocketError::LengthMissing
        } else {
            SocketError::BodyMissing
        };
        let mut expected = vec![Ok("one".to_string()), Ok("two".to_string())];
        expected.truncate(whole);
        expected.push(Err(error));
        assert_eq!(delivered(&stream[..cut]), expected);
    }
}

#[test]
fn stops_at_a_body_that_is_no_message() {
    let stream = written(vec![b"one".to_vec(), vec![0xff], b"two".to_vec()]);
    assert_eq!(
        delivered(&stream),
        vec![Ok("one".to_string()), Err(SocketError::BodyUndecodable)]
    );
}

#[test]
fn a_reader_without_receiver_stops() {
    let reader = Reader::Delivering { last: false };
    let (reader, action) = reader.step::<u8>(ReaderEvent::ReceiverGone);
    assert_eq!(reader, Reader::Stopped);
    assert!(matches!(action, ReaderAction::Stop));
    let (reader, _) = Reader::Length.step::<u8>(ReaderEvent::Read(vec![1, 2, 3]));
    assert_eq!(reader, Reader::Stopped);
}

#[test]
fn a_writer_stops_at_a_failure() {
    let (writer, _) = Writer::start();
    let (writer, action) = writer.step(WriterEvent::Received(vec![9, 8]));
    assert!(matches!(action, WriterAction::Write(bytes) if bytes == vec![2, 0, 0, 0]));
    let (writer, action) = writer.step(WriterEvent::Written);
    assert!(matches!(action, WriterAction::Write(bytes) if bytes == vec![9, 8]));
    let (writer, action) = writer.step(WriterEvent::WriteFailed);
    assert!(matches!(writer, Writer::Stopped));
    assert!(matches!(action, WriterAction::Stop));
}

#[test]
fn takes_messages_until_it_is_closed() {
    let mut socket = MessageSocket::new::<String>().socket;
    assert_eq!(socket.write(vec![1, 2]), Ok(vec![1, 2]));
    assert_eq!(socket.flush(), Ok(()));
    socket.close();
    assert_eq!(socket.write(vec![1, 2]), Err(SocketError::WriterDisconnected));
    assert_eq!(OUTBOUND_QUEUE, 4096);
    assert_eq!(MAX_BODY, u32::MAX as usize);
}

#[test]
fn refuses_a_message_whose_length_cannot_be_written_down() {
    assert_eq!(sendable_length(0), Ok(0));
    assert_eq!(sendable_length(MAX_BODY), Ok(u32::MAX));
    assert_eq!(
        sendable_length(MAX_BODY + 1),
        Err(SocketError::MessageTooLarge)
    );
    assert_eq!(
        sendable_length(usize::MAX),
        Err(SocketError::MessageTooLarge)
    );
}

#[test]
fn tells_what_became_of_a_queued_message() {
    assert_eq!(MessageSocket::queued(QueueOutcome::Queued), Ok(()));
    assert_eq!(
        MessageSocket::queued(QueueOutcome::Full),
        Err(SocketError::QueueFull)
    );
    assert_eq!(
        MessageSocket::queued(QueueOutcome::Disconnected),
        Err(SocketError::WriterDisconnected)
    );
}

#[test]
fn gives_out_what_was_received() {
    assert!(matches!(MessageSocket::read::<u8, u8>(Some(Ok(4))), Ok(4)));
    assert!(matches!(
        MessageSocket::read::<u8, u8>(Some(Err(5))),
        Err(ReadError::Failed(5))
    ));
    assert!(matches!(
        MessageSocket::read::<u8, u8>(None),
        Err(ReadError::Socket(SocketError::ChannelDisconnected))
    ));
    assert!(matches!(
        MessageSocket::try_read::<u8, u8>(Inbox::Next(Ok(4))),
        Ok(Some(4))
    ));
    assert!(matches!(
        MessageSocket::try_read::<u8, u8>(Inbox::Next(Err(5))),
        Err(ReadError::Failed(5))
    ));
    assert!(matches!(
        MessageSocket::try_read::<u8, u8>(Inbox::Empty),
        Ok(None)
    ));
    assert!(matches!(
        MessageSocket::try_read::<u8, u8>(Inbox::Disconnected),
        Err(ReadError::Socket(SocketError::ChannelDisconnected))
    ));
}

#[test]
fn reports_each_error_in_words() {
    let reported = [
        (SocketError::LengthMissing, "Couldn't receive the length from stream"),
        (SocketError::BodyMissing, "Couldn't read message body"),
        (SocketError::BodyUndecodable, "Failed to decode message body"),
        (SocketError::ChannelDisconnected, "Channel disconnected"),
        (SocketError::MessageTooLarge, "Message too large to be sent"),
        (SocketError::WriterDisconnected, "Message socket writer disconnected"),
        (SocketError::QueueFull, "Message socket outbound queue is full"),
    ];
    for (error, message) in reported {
        assert_eq!(error.message(), message);
    }
}

#[test]
fn flushes_each_frame_before_the_next_message_is_taken() {
    let opened = MessageSocket::new::<String>();
    assert_eq!(opened.reader.0, Reader::Length);
    assert!(matches!(opened.reader.1, ReaderAction::Read(4)));
    let (mut writer, mut action) = opened.writer;
    let mut queue = vec![b"one".to_vec(), b"two!".to_vec()].into_iter();
    let mut stream: Vec<u8> = Vec::new();
    let mut flushed: Vec<Vec<u8>> = Vec::new();
    loop {
        let event = match action {
            WriterAction::Receive => {
                assert_eq!(flushed.concat(), stream);
                match queue.next() {
                    Some(body) => WriterEvent::Received(body),
                    None => WriterEvent::SenderGone,
                }
            }
            WriterAction::Write(bytes) => {
                stream.extend(bytes);
                WriterEvent::Written
            }
            WriterAction::Flush => {
                flushed.push(stream[flushed.concat().len()..].to_vec());
                WriterEvent::Written
            }
            WriterAction::Stop => break,
        };
        (writer, action) = writer.step(event);
    }
    assert_eq!(
        flushed,
        vec![b"\x03\0\0\0one".to_vec(), b"\x04\0\0\0two!".to_vec()]
    );
}
