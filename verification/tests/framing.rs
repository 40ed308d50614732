use cli_proxy::framing::{
    would_block, FramedError, FramedStream, RecvEvent, RecvStep, RxState, WriteEvent, WriteStep,
    MAX_FRAME_BYTES,
};

/// Send a frame in writes of at most `most` bytes.
fn sent(data: &[u8], most: usize) -> Vec<u8> {
    let stream = FramedStream::new(());
    let mut writer = stream.send(data).unwrap();
    let mut out: Vec<u8> = Vec::new();
    let mut event = WriteEvent::Start;
    loop {
        assert!(writer.is_expected(&event));
        match writer.write_all(event) {
            WriteStep::Write => {
                let offered = writer.offered();
                let n = offered.len().min(most);
                out.extend_from_slice(&offered[..n]);
                event = WriteEvent::Wrote(n as u32);
            }
            WriteStep::Done(result) => {
                assert_eq!(result, Ok(()));
                return out;
            }
        }
    }
}

/// One receive on `wire`, in reads of at most `most` bytes; where the bytes run
/// out, the read fails with `end`.
fn receive(
    stream: &mut FramedStream<()>,
    wire: &mut Vec<u8>,
    most: usize,
    end: &str,
) -> Result<Option<Vec<u8>>, FramedError> {
    let mut event = RecvEvent::Start;
    loop {
        assert!(stream.is_expected(&event));
        match stream.try_recv(event) {
            RecvStep::InstallTimeout => event = RecvEvent::TimeoutInstalled,
            RecvStep::Read(want) => {
                let n = (want as usize).min(most).min(wire.len());
                if n == 0 {
                    event = RecvEvent::ReadFailed(end.to_string());
                } else {
                    event = RecvEvent::Chunk(wire.drain(..n).collect());
                }
            }
            RecvStep::Done(result) => return result,
        }
    }
}

#[test]
fn frame_is_prefix_and_payload() {
    assert_eq!(sent(b"abc", 100), b"\x00\x00\x00\x03abc");
    assert_eq!(sent(b"", 100), b"\x00\x00\x00\x00");
    let data = vec![7u8; 0x01_02_03];
    assert_eq!(sent(&data, 1 << 20)[..5], [0, 1, 2, 3, 7]);
}

#[test]
fn short_writes_write_the_whole_frame() {
    for most in 1..9 {
        assert_eq!(sent(b"hello", most), b"\x00\x00\x00\x05hello");
    }
}

#[test]
fn prefix_and_payload_are_offered_apart() {
    let stream = FramedStream::new(());
    let mut writer = stream.send(b"xy").unwrap();
    assert!(matches!(writer.write_all(WriteEvent::Start), WriteStep::Write));
    assert_eq!(writer.offered(), [0, 0, 0, 2]);
    assert!(matches!(writer.write_all(WriteEvent::Wrote(3)), WriteStep::Write));
    assert_eq!(writer.offered(), [2]);
    assert!(!writer.is_expected(&WriteEvent::Wrote(2)));
    assert!(matches!(writer.write_all(WriteEvent::Wrote(1)), WriteStep::Write));
    assert_eq!(writer.offered(), b"xy");
    assert!(matches!(writer.write_all(WriteEvent::Wrote(2)), WriteStep::Done(Ok(()))));
    assert!(writer.is_finished());
}

#[test]
fn write_of_nothing_means_closed() {
    let stream = FramedStream::new(());
    let mut writer = stream.send(b"xy").unwrap();
    writer.write_all(WriteEvent::Start);
    match writer.write_all(WriteEvent::Wrote(0)) {
        WriteStep::Done(Err(error)) => assert_eq!(error, FramedError::Closed),
        _ => panic!("not closed"),
    }
}

#[test]
fn failed_write_is_reported() {
    let stream = FramedStream::new(());
    let mut writer = stream.send(b"xy").unwrap();
    writer.write_all(WriteEvent::Start);
    match writer.write_all(WriteEvent::Failed("broken pipe".to_string())) {
        WriteStep::Done(Err(error)) => {
            assert_eq!(error, FramedError::Io("broken pipe".to_string()))
        }
        _ => panic!("no error"),
    }
}

#[test]
fn what_is_sent_is_received_however_it_is_cut() {
    let frames: [&[u8]; 4] = [b"first", b"", b"x", b"the last one"];
    for most in 1..20 {
        let mut wire: Vec<u8> = Vec::new();
        for frame in frames {
            wire.extend(sent(frame, most));
        }
        let mut stream = FramedStream::new(());
        for frame in frames {
            assert_eq!(
                receive(&mut stream, &mut wire, most, "would block"),
                Ok(Some(frame.to_vec()))
            );
        }
        assert_eq!(receive(&mut stream, &mut wire, most, "would block"), Ok(None));
    }
}

#[test]
fn partial_frame_is_resumed() {
    let mut stream = FramedStream::new(());
    let whole = sent(b"resume", 100);
    for cut in 0..whole.len() {
        let mut head = whole[..cut].to_vec();
        let mut tail = whole[cut..].to_vec();
        assert_eq!(
            receive(&mut stream, &mut head, 100, "Host: would block."),
            Ok(None)
        );
        assert_eq!(
            receive(&mut stream, &mut tail, 100, "would block"),
            Ok(Some(b"resume".to_vec()))
        );
    }
}

#[test]
fn would_block_between_any_two_bytes_loses_nothing() {
    let frames: [&[u8]; 4] = [b"first", b"", b"x", b"the last one"];
    let mut wire: Vec<u8> = Vec::new();
    for frame in frames {
        wire.extend(sent(frame, 100));
    }
    let mut stream = FramedStream::new(());
    let mut got: Vec<Vec<u8>> = Vec::new();
    for byte in wire {
        // Two receives that find nothing, then one with a single byte.
        assert_eq!(receive(&mut stream, &mut Vec::new(), 1, "would block"), Ok(None));
        assert_eq!(receive(&mut stream, &mut Vec::new(), 1, "would block"), Ok(None));
        if let Some(frame) = receive(&mut stream, &mut vec![byte], 1, "would block").unwrap() {
            got.push(frame);
        }
    }
    assert_eq!(got, frames.map(|frame| frame.to_vec()));
    assert!(matches!(stream.try_recv(RecvEvent::Start), RecvStep::Read(4)));
}

#[test]
fn failed_receives_between_bytes_lose_nothing() {
    let mut stream = FramedStream::new(());
    let whole = sent(b"go on", 100);
    for byte in &whole[..whole.len() - 1] {
        assert_eq!(
            receive(&mut stream, &mut Vec::new(), 1, "reset"),
            Err(FramedError::Io("reset".to_string()))
        );
        assert_eq!(receive(&mut stream, &mut vec![*byte], 1, "would block"), Ok(None));
    }
    let mut last = whole[whole.len() - 1..].to_vec();
    assert_eq!(
        receive(&mut stream, &mut last, 1, "would block"),
        Ok(Some(b"go on".to_vec()))
    );
}

#[test]
fn other_read_errors_are_reported() {
    let mut stream = FramedStream::new(());
    assert_eq!(
        receive(&mut stream, &mut Vec::new(), 100, "reset"),
        Err(FramedError::Io("reset".to_string()))
    );
}

#[test]
fn empty_read_means_closed() {
    let mut stream = FramedStream::new(());
    stream.try_recv(RecvEvent::Start);
    stream.try_recv(RecvEvent::TimeoutInstalled);
    assert!(matches!(
        stream.try_recv(RecvEvent::Chunk(vec![])),
        RecvStep::Done(Err(FramedError::Closed))
    ));
}

#[test]
fn timeout_is_installed_once_and_first() {
    let mut stream = FramedStream::new(());
    assert!(matches!(stream.try_recv(RecvEvent::Start), RecvStep::InstallTimeout));
    assert!(!stream.is_expected(&RecvEvent::Chunk(vec![0])));
    match stream.try_recv(RecvEvent::TimeoutFailed("denied".to_string())) {
        RecvStep::Done(Err(error)) => {
            assert_eq!(error, FramedError::Io("set_read_timeout: denied".to_string()))
        }
        _ => panic!("no error"),
    }
    assert!(matches!(stream.try_recv(RecvEvent::Start), RecvStep::InstallTimeout));
    assert!(matches!(stream.try_recv(RecvEvent::TimeoutInstalled), RecvStep::Read(4)));
    assert!(matches!(stream.try_recv(RecvEvent::Start), RecvStep::Read(4)));
    assert!(!stream.is_expected(&RecvEvent::TimeoutInstalled));
    assert!(!stream.is_expected(&RecvEvent::Chunk(vec![0; 5])));
}

#[test]
fn oversized_frame_ends_the_stream() {
    let mut stream = FramedStream::new(());
    let mut wire = vec![0x00, 0xa0, 0x00, 0x01, 1, 2, 3];
    let error = receive(&mut stream, &mut wire, 100, "would block").unwrap_err();
    assert_eq!(
        error,
        FramedError::Io("frame too large: 10485761 bytes (max 10485760)".to_string())
    );
    assert!(matches!(stream.try_recv(RecvEvent::Start), RecvStep::Read(0)));
    assert!(!stream.is_expected(&RecvEvent::Chunk(vec![1])));
    assert!(matches!(
        stream.try_recv(RecvEvent::Chunk(vec![])),
        RecvStep::Done(Err(FramedError::Closed))
    ));
}

#[test]
fn frame_at_the_cap_is_accepted() {
    let data = vec![9u8; MAX_FRAME_BYTES];
    let mut wire = sent(&data, MAX_FRAME_BYTES);
    let mut stream = FramedStream::new(());
    let frame = receive(&mut stream, &mut wire, MAX_FRAME_BYTES, "would block")
        .unwrap()
        .unwrap();
    assert!(frame == data);
}

#[test]
fn receive_state_asks_for_what_is_missing() {
    let state = RxState::new();
    assert_eq!(state.want(), 4);
    let (state, _) = state.feed(vec![0, 0, 1]);
    assert_eq!(state.want(), 1);
    let (state, step) = state.feed(vec![2]);
    assert!(matches!(step, RecvStep::Read(258)));
    let (state, _) = state.feed(vec![5; 200]);
    assert_eq!(state.want(), 58);
}

#[test]
fn error_texts() {
    assert_eq!(FramedError::Closed.message(), "stream closed");
    assert_eq!(FramedError::Io("reset".to_string()).message(), "reset");
    assert!(would_block("Host function call failed: would block"));
    assert!(!would_block("timeout"));
}
