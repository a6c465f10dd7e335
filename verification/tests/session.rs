use rtsp_client::rtsp::auth::{Authorizer, Basic};
use rtsp_client::rtsp::channel::Lifecycle;
use rtsp_client::rtsp::buffer::Buffer;
use rtsp_client::rtsp::channel::{Channel, Output};
use rtsp_client::rtsp::command::{Command, CommandError, Ctrl, Describe, Request};
use rtsp_client::rtsp::method::Method;
use rtsp_client::rtsp::uri::Uri;

fn describe(target: &[u8], id: u64) -> Command {
    Command::Request(Request::Describe(Describe::new(Uri::parse(target.to_vec()), id)))
}

#[test]
fn test_basic_authorizer() {
    let mut authorizer = Authorizer::Basic(Basic::new(b"user", b"pass"));
    let url = Uri::parse(b"rtsp://localhost:554/test".to_vec());
    let answer = authorizer.answer(Method::Options, &url).unwrap();
    assert_eq!(answer, b"Basic dXNlcjpwYXNz".to_vec());
}

#[test]
fn test_buffer() {
    let mut buffer = Buffer::new(10);
    buffer.write_bytes(&[1, 2, 3, 4, 5]).unwrap();
    buffer.write_bytes(&[6, 7, 8, 9, 10]).unwrap();
    let slice = buffer.get_read_slice();
    assert_eq!(slice, &[1, 2, 3, 4, 5, 6, 7, 8, 9, 10]);
    buffer.notify_read(10);
    buffer.write_bytes(&[11, 12, 13, 14, 15]).unwrap();
    let slice = buffer.get_read_slice();
    assert_eq!(slice, &[11, 12, 13, 14, 15]);
}

#[test]
fn buffer_returns_to_fresh_state_after_full_consume() {
    let mut buffer = Buffer::new(64);
    buffer.write_bytes(&[9, 8, 7]).unwrap();
    buffer.notify_read(3);
    // both cursors reset: the whole space is writable again, in order
    buffer.write_bytes(&[1, 2]).unwrap();
    assert_eq!(buffer.get_read_slice(), &[1, 2]);
}

#[test]
fn buffer_refuses_beyond_ceiling() {
    let mut buffer = Buffer::new(4);
    assert!(buffer.write_bytes(&[1, 2, 3, 4]).is_ok());
    assert!(buffer.write_bytes(&[5]).is_err());
    assert_eq!(buffer.get_read_slice(), &[1, 2, 3, 4]);
}

#[test]
fn test_channel() {
    let mut outputs: Vec<Output> = Vec::new();
    let mut channel = Channel::new();
    channel.handle_command(describe(b"rtsp://test.com", 1), &mut outputs);
    let tx = channel.take_transmit();
    assert_eq!(
        std::str::from_utf8(&tx).unwrap(),
        "DESCRIBE rtsp://test.com RTSP/1.0\r\nCSeq: 1\r\nUser-Agent: rs-streamer\r\n\r\n"
    );
    assert!(channel.push_received(
        b"RTSP/1.0 200 OK\r\nCSeq: 1\r\nContent-Length: 4\r\n\r\ntest",
        &mut outputs,
    ));
    channel.handle_data(&mut outputs);
    assert_eq!(outputs.len(), 1);
    match &outputs[0] {
        Output::Reply { id, result } => {
            assert_eq!(*id, 1);
            assert_eq!(result.as_ref().unwrap().as_bytes(), b"test");
        }
        Output::Media(_) => panic!("unexpected media output"),
    }
}

#[test]
fn channel_digest_challenge_and_retry() {
    let mut outputs: Vec<Output> = Vec::new();
    let mut channel = Channel::new().user(b"admin").pass(b"secret");
    channel.handle_command(describe(b"rtsp://cam.example/stream", 7), &mut outputs);
    let first = channel.take_transmit();
    assert!(first.starts_with(b"DESCRIBE rtsp://cam.example/stream RTSP/1.0\r\nCSeq: 1\r\n"));
    assert!(channel.push_received(
        b"RTSP/1.0 401 Unauthorized\r\nCSeq: 1\r\nWWW-Authenticate: Digest realm=\"R\", nonce=\"N\"\r\n\r\n",
        &mut outputs,
    ));
    channel.handle_data(&mut outputs);
    // no reply yet: the command went to the retry queue
    assert!(outputs.is_empty());
    channel.handle_retry_cmds(&mut outputs);
    let second = channel.take_transmit();
    let text = String::from_utf8(second).unwrap();
    assert!(text.starts_with("DESCRIBE rtsp://cam.example/stream RTSP/1.0\r\nCSeq: 2\r\n"));
    assert!(text.contains("Authorization: Digest "));
    assert!(text.contains("username=\"admin\""));
    assert!(text.contains("realm=\"R\""));
    assert!(channel.push_received(
        b"RTSP/1.0 200 OK\r\nCSeq: 2\r\nContent-Length: 2\r\n\r\nok",
        &mut outputs,
    ));
    channel.handle_data(&mut outputs);
    assert_eq!(outputs.len(), 1);
    match &outputs[0] {
        Output::Reply { id, result } => {
            assert_eq!(*id, 7);
            assert_eq!(result.as_ref().unwrap().as_bytes(), b"ok");
        }
        Output::Media(_) => panic!("unexpected media output"),
    }
}

#[test]
fn channel_second_challenge_fails_the_command() {
    let mut outputs: Vec<Output> = Vec::new();
    let mut channel = Channel::new().user(b"admin").pass(b"secret");
    channel.handle_command(describe(b"rtsp://cam.example/stream", 3), &mut outputs);
    channel.take_transmit();
    assert!(channel.push_received(
        b"RTSP/1.0 401 Unauthorized\r\nCSeq: 1\r\nWWW-Authenticate: Digest realm=\"R\", nonce=\"N\"\r\n\r\n",
        &mut outputs,
    ));
    channel.handle_data(&mut outputs);
    channel.handle_retry_cmds(&mut outputs);
    channel.take_transmit();
    assert!(channel.push_received(
        b"RTSP/1.0 401 Unauthorized\r\nCSeq: 2\r\nWWW-Authenticate: Digest realm=\"R\", nonce=\"N2\"\r\n\r\n",
        &mut outputs,
    ));
    channel.handle_data(&mut outputs);
    assert_eq!(outputs.len(), 1);
    match &outputs[0] {
        Output::Reply { id, result } => {
            assert_eq!(*id, 3);
            assert!(matches!(result, Err(CommandError::Unauthorized)));
        }
        Output::Media(_) => panic!("unexpected media output"),
    }
}

#[test]
fn channel_matches_pipelined_responses_out_of_order() {
    let mut outputs: Vec<Output> = Vec::new();
    let mut channel = Channel::new();
    channel.handle_command(describe(b"rtsp://host/a", 10), &mut outputs);
    channel.handle_command(describe(b"rtsp://host/b", 20), &mut outputs);
    channel.take_transmit();
    assert!(channel.push_received(
        b"RTSP/1.0 200 OK\r\nCSeq: 2\r\nContent-Length: 1\r\n\r\nb",
        &mut outputs,
    ));
    channel.handle_data(&mut outputs);
    assert!(channel.push_received(
        b"RTSP/1.0 200 OK\r\nCSeq: 1\r\nContent-Length: 1\r\n\r\na",
        &mut outputs,
    ));
    channel.handle_data(&mut outputs);
    assert_eq!(outputs.len(), 2);
    match &outputs[0] {
        Output::Reply { id, result } => {
            assert_eq!(*id, 20);
            assert_eq!(result.as_ref().unwrap().as_bytes(), b"b");
        }
        Output::Media(_) => panic!("unexpected media output"),
    }
    match &outputs[1] {
        Output::Reply { id, result } => {
            assert_eq!(*id, 10);
            assert_eq!(result.as_ref().unwrap().as_bytes(), b"a");
        }
        Output::Media(_) => panic!("unexpected media output"),
    }
}

#[test]
fn channel_shutdown_cancels_pending_command() {
    let mut outputs: Vec<Output> = Vec::new();
    let mut channel = Channel::new();
    channel.handle_command(describe(b"rtsp://host/path", 5), &mut outputs);
    channel.take_transmit();
    channel.handle_command(Command::Ctrl(Ctrl::Shutdown), &mut outputs);
    assert_eq!(outputs.len(), 1);
    match &outputs[0] {
        Output::Reply { id, result } => {
            assert_eq!(*id, 5);
            assert!(matches!(result, Err(CommandError::Cancelled)));
        }
        Output::Media(_) => panic!("unexpected media output"),
    }
}

#[test]
fn channel_unexpected_status_fails_only_that_command() {
    let mut outputs: Vec<Output> = Vec::new();
    let mut channel = Channel::new();
    channel.handle_command(describe(b"rtsp://host/path", 4), &mut outputs);
    channel.take_transmit();
    assert!(channel.push_received(b"RTSP/1.0 404 Stream Not Found\r\nCSeq: 1\r\n\r\n", &mut outputs));
    channel.handle_data(&mut outputs);
    assert_eq!(outputs.len(), 1);
    match &outputs[0] {
        Output::Reply { id, result } => {
            assert_eq!(*id, 4);
            assert!(matches!(
                result,
                Err(CommandError::UnexpectedStatus(rtsp_client::rtsp::status::Status::NotFound))
            ));
        }
        Output::Media(_) => panic!("unexpected media output"),
    }
}

#[test]
fn channel_routes_interleaved_rtp_to_media_output() {
    let mut outputs: Vec<Output> = Vec::new();
    let mut channel = Channel::new();
    // two interleaved frames, sequence numbers 23 then 24
    let mut wire: Vec<u8> = Vec::new();
    for seq in [23u16, 24] {
        let mut rtp = vec![0x80, 0x60, 0, 0, 0, 0, 0, 0, 0, 0, 0, 0];
        rtp[2] = (seq >> 8) as u8;
        rtp[3] = (seq & 0xff) as u8;
        wire.push(0x24);
        wire.push(0);
        wire.extend_from_slice(&(rtp.len() as u16).to_be_bytes());
        wire.extend_from_slice(&rtp);
    }
    assert!(channel.push_received(&wire, &mut outputs));
    channel.handle_data(&mut outputs);
    let seqs: Vec<u16> = outputs
        .iter()
        .map(|o| match o {
            Output::Media(p) => p.sequence_number(),
            Output::Reply { .. } => panic!("unexpected reply"),
        })
        .collect();
    assert_eq!(seqs, vec![23, 24]);
}

#[test]
fn channel_missing_cseq_cancels_pending() {
    let mut outputs: Vec<Output> = Vec::new();
    let mut channel = Channel::new();
    channel.handle_command(describe(b"rtsp://host/path", 9), &mut outputs);
    channel.take_transmit();
    // a response without CSeq is fatal: the channel shuts down
    assert!(channel.push_received(b"RTSP/1.0 200 OK\r\nContent-Length: 0\r\n\r\n", &mut outputs));
    channel.handle_data(&mut outputs);
    assert_eq!(outputs.len(), 1);
    match &outputs[0] {
        Output::Reply { id, result } => {
            assert_eq!(*id, 9);
            assert!(matches!(result, Err(CommandError::Cancelled)));
        }
        Output::Media(_) => panic!("unexpected media output"),
    }
}

#[test]
fn channel_challenge_without_header_is_bad_response() {
    let mut outputs: Vec<Output> = Vec::new();
    let mut channel = Channel::new().user(b"admin").pass(b"secret");
    channel.handle_command(describe(b"rtsp://host/x", 2), &mut outputs);
    channel.take_transmit();
    // a 401 with no WWW-Authenticate value fails the one command
    assert!(channel.push_received(b"RTSP/1.0 401 Unauthorized\r\nCSeq: 1\r\n\r\n", &mut outputs));
    channel.handle_data(&mut outputs);
    assert_eq!(outputs.len(), 1);
    match &outputs[0] {
        Output::Reply { id, result } => {
            assert_eq!(*id, 2);
            assert!(matches!(result, Err(CommandError::BadResponse)));
        }
        Output::Media(_) => panic!("unexpected media output"),
    }
}

#[test]
fn channel_challenge_without_user_is_refused() {
    let mut outputs: Vec<Output> = Vec::new();
    let mut channel = Channel::new();
    channel.handle_command(describe(b"rtsp://host/x", 6), &mut outputs);
    channel.take_transmit();
    assert!(channel.push_received(
        b"RTSP/1.0 401 Unauthorized\r\nCSeq: 1\r\nWWW-Authenticate: Digest realm=\"R\", nonce=\"N\"\r\n\r\n",
        &mut outputs,
    ));
    channel.handle_data(&mut outputs);
    assert_eq!(outputs.len(), 1);
    match &outputs[0] {
        Output::Reply { id, result } => {
            assert_eq!(*id, 6);
            assert!(matches!(result, Err(CommandError::Unauthorized)));
        }
        Output::Media(_) => panic!("unexpected media output"),
    }
}

#[test]
fn basic_challenge_installs_basic_answer() {
    let mut outputs: Vec<Output> = Vec::new();
    let mut channel = Channel::new().user(b"user").pass(b"pass");
    channel.handle_command(describe(b"rtsp://host/x", 8), &mut outputs);
    channel.take_transmit();
    assert!(channel.push_received(
        b"RTSP/1.0 401 Unauthorized\r\nCSeq: 1\r\nWWW-Authenticate: Basic realm=\"R\"\r\n\r\n",
        &mut outputs,
    ));
    channel.handle_data(&mut outputs);
    channel.handle_retry_cmds(&mut outputs);
    let second = String::from_utf8(channel.take_transmit()).unwrap();
    assert!(second.contains("Authorization: Basic dXNlcjpwYXNz\r\n"));
}

#[test]
fn channel_lifecycle_follows_use() {
    let mut outputs: Vec<Output> = Vec::new();
    let mut channel = Channel::new();
    assert_eq!(channel.lifecycle(), Lifecycle::Idle);
    channel.handle_command(describe(b"rtsp://host/x", 1), &mut outputs);
    assert_eq!(channel.lifecycle(), Lifecycle::Active);
    channel.handle_command(Command::Ctrl(Ctrl::Shutdown), &mut outputs);
    assert_eq!(channel.lifecycle(), Lifecycle::Draining);
    channel.take_transmit();
    assert_eq!(channel.lifecycle(), Lifecycle::Closed);
}

#[test]
fn buffer_compacts_whenever_compaction_frees_enough() {
    let mut buffer = Buffer::new(8);
    buffer.write_bytes(&[1, 2, 3, 4, 5, 6]).unwrap();
    buffer.notify_read(4);
    buffer.write_bytes(&[7, 8]).unwrap();
    buffer.notify_read(3);
    // read cursor 3, tail 2: five bytes fit only by compacting first
    assert!(buffer.get_write_slice(5).is_ok());
    assert_eq!(buffer.get_read_slice(), &[8]);
}
