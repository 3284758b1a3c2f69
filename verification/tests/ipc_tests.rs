use rusttracker::ipc::{encode_forward_request, is_ok_reply, ok_reply, IpcReceiver, ReceiveStage};

fn deliver(message: &str) -> IpcReceiver {
    let mut rx = IpcReceiver::new();
    let mut rest = message;
    while !rx.is_finished() {
        let (line, next) = match rest.find('\n') {
            Some(k) => (&rest[..k + 1], &rest[k + 1..]),
            None => (rest, ""),
        };
        rx.receive_line(Some(line));
        rest = next;
    }
    rx
}

#[test]
fn forward_request_round_trip() {
    let files = vec!["/tmp/sample1.mp3".to_string(), "/tmp/sample2.flac".to_string()];
    let msg = encode_forward_request(&files);
    assert_eq!(msg, "RUSTTRACKER_IPC_V1\n2\n/tmp/sample1.mp3\n/tmp/sample2.flac\n");
    let rx = deliver(&msg);
    assert_eq!(rx.stage, ReceiveStage::Complete);
    assert_eq!(rx.received, files);
    assert!(is_ok_reply(&ok_reply()));
    assert!(is_ok_reply(" OK \r\n"));
    assert!(!is_ok_reply("NO\n"));
}

#[test]
fn forward_request_rejects_and_trims() {
    let rx = deliver("HELLO\n1\n/x\n");
    assert_eq!(rx.stage, ReceiveStage::Rejected);
    let rx = deliver("RUSTTRACKER_IPC_V1\r\n+3\n/a\r\n\n/b\n");
    assert_eq!(rx.stage, ReceiveStage::Complete);
    assert_eq!(rx.received, vec!["/a".to_string(), "/b".to_string()]);
    let rx = deliver("RUSTTRACKER_IPC_V1\nmany\n/a\n");
    assert_eq!(rx.stage, ReceiveStage::Complete);
    assert!(rx.received.is_empty());
    let empty: Vec<String> = vec![];
    assert_eq!(encode_forward_request(&empty), "RUSTTRACKER_IPC_V1\n0\n");
    let mut rx = IpcReceiver::new();
    rx.receive_line(None);
    assert_eq!(rx.stage, ReceiveStage::Rejected);
}

#[test]
fn paths_keep_their_inner_spaces() {
    let files = vec!["/music/My Song .mp3".to_string(), " lead.wav".to_string()];
    let rx = deliver(&encode_forward_request(&files));
    assert_eq!(rx.stage, ReceiveStage::Complete);
    assert_eq!(rx.received, files);
}

#[test]
fn failed_reads_use_up_a_path_line() {
    let mut rx = IpcReceiver::new();
    rx.receive_line(Some("RUSTTRACKER_IPC_V1\n"));
    assert_eq!(rx.stage, ReceiveStage::Count);
    rx.receive_line(Some("2\n"));
    assert_eq!(rx.stage, ReceiveStage::Paths);
    assert_eq!(rx.remaining, 2);
    rx.receive_line(None);
    assert_eq!(rx.stage, ReceiveStage::Paths);
    assert_eq!(rx.remaining, 1);
    rx.receive_line(Some("/only\n"));
    assert!(rx.is_finished());
    assert_eq!(rx.stage, ReceiveStage::Complete);
    assert_eq!(rx.received, vec!["/only".to_string()]);
    rx.receive_line(Some("/ignored\n"));
    assert_eq!(rx.received, vec!["/only".to_string()]);
}

#[test]
fn the_reply_is_ok_and_a_newline() {
    assert_eq!(ok_reply(), "OK\n");
    assert!(is_ok_reply("OK"));
    assert!(!is_ok_reply("OKAY\n"));
    assert!(!is_ok_reply(""));
}

#[test]
fn a_session_delivers_the_announced_lines_and_ignores_the_rest() {
    let rx = deliver("RUSTTRACKER_IPC_V1\n3\n/a\r\n\n/c\n/late\n");
    assert_eq!(rx.stage, ReceiveStage::Complete);
    assert_eq!(rx.received, vec!["/a".to_string(), "/c".to_string()]);
    let rx = deliver("  RUSTTRACKER_IPC_V1  \n0\n/x\n");
    assert!(rx.received.is_empty());
    assert_eq!(rx.stage, ReceiveStage::Complete);
    let rx = deliver("RUSTTRACKER_IPC_V2\n1\n/x\n");
    assert_eq!(rx.stage, ReceiveStage::Rejected);
    assert!(rx.received.is_empty());
}
