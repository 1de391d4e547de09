use dualserve::receiver::Receiver;
use dualserve::session::{Action, Phase, Session, ILLEGAL_OPERATION, NOT_DEFINED};

fn file_of(n: usize) -> Vec<u8> {
    (0..n).map(|i| (i * 7 + 3) as u8).collect()
}

/// Runs a whole download, each DATA packet delivered `copies` times.
fn download(file: &[u8], copies: u8) -> (Vec<u8>, usize) {
    let mut s = Session::new(file.len(), 512, 10, copies);
    let mut r = Receiver::new(512);
    let mut action = s.current_data();
    let mut packets = 0;
    loop {
        match action {
            Action::SendData { block, start, end, copies } => {
                let mut acks = Vec::new();
                for _ in 0..copies {
                    packets += 1;
                    let a = r.on_data(block, &file[start..end]);
                    assert_eq!(a, Some(block));
                    acks.push(a.unwrap());
                }
                action = s.on_ack(acks[0]);
                for &n in &acks[1..] {
                    assert_eq!(s.on_ack(n), Action::Idle);
                }
            }
            Action::Done => break,
            other => panic!("unexpected {:?}", other),
        }
    }
    assert!(r.done);
    assert_eq!(s.phase, Phase::Completed);
    (r.data, packets)
}

#[test]
fn download_reproduces_files_at_block_edges() {
    for n in [0usize, 1, 511, 512, 513, 10000] {
        let file = file_of(n);
        let (got, packets) = download(&file, 1);
        assert_eq!(got, file, "size {}", n);
        assert_eq!(packets, n / 512 + 1, "size {}", n);
    }
}

#[test]
fn tripled_packets_reassemble_once() {
    for n in [0usize, 1, 511, 512, 513, 10000] {
        let file = file_of(n);
        let (got, packets) = download(&file, 3);
        assert_eq!(got, file, "size {}", n);
        assert_eq!(packets, 3 * (n / 512 + 1));
    }
}

#[test]
fn silent_peer_gets_exactly_max_retries_resends() {
    let mut s = Session::new(2000, 512, 10, 1);
    let first = s.current_data();
    for i in 0..10 {
        assert_eq!(s.on_timeout(), first, "timeout {}", i);
        assert_eq!(s.phase, Phase::Sending);
    }
    assert_eq!(s.on_timeout(), Action::SendError { code: NOT_DEFINED });
    assert_eq!(s.phase, Phase::Failed);
    assert_eq!(s.on_timeout(), Action::Idle);
}

#[test]
fn ack_resets_retry_count() {
    let mut s = Session::new(2000, 512, 2, 1);
    s.on_timeout();
    s.on_timeout();
    assert_eq!(s.retries, 2);
    assert_eq!(
        s.on_ack(1),
        Action::SendData { block: 2, start: 512, end: 1024, copies: 1 }
    );
    assert_eq!(s.retries, 0);
}

#[test]
fn stale_ack_ignored_and_future_ack_fails() {
    let mut s = Session::new(2000, 512, 5, 1);
    s.on_ack(1);
    assert_eq!(s.on_ack(1), Action::Idle);
    assert_eq!(s.block, 2);
    assert_eq!(s.on_ack(7), Action::SendError { code: ILLEGAL_OPERATION });
    assert_eq!(s.phase, Phase::Failed);
}

#[test]
fn peer_error_ends_transfer() {
    let mut s = Session::new(10, 512, 5, 1);
    s.on_error();
    assert_eq!(s.phase, Phase::Failed);
    assert_eq!(s.on_ack(1), Action::Idle);
}

#[test]
fn last_block_end_and_duplicates() {
    let s = Session::new(513, 512, 5, 3);
    assert_eq!(s.current_data(), Action::SendData { block: 1, start: 0, end: 512, copies: 3 });
    let mut s = s;
    assert_eq!(s.on_ack(1), Action::SendData { block: 2, start: 512, end: 513, copies: 3 });
    assert_eq!(s.on_ack(2), Action::Done);
}

#[test]
fn receiver_ignores_out_of_order_block() {
    let mut r = Receiver::new(512);
    assert_eq!(r.on_data(2, &[1, 2]), None);
    assert_eq!(r.data, Vec::<u8>::new());
    assert_eq!(r.on_data(1, &[5; 512]), Some(1));
    assert_eq!(r.on_data(1, &[5; 512]), Some(1));
    assert_eq!(r.data.len(), 512);
    assert!(!r.done);
    assert_eq!(r.on_data(2, &[6]), Some(2));
    assert!(r.done);
    assert_eq!(r.data.len(), 513);
}

#[test]
fn repeated_acks_across_block_wrap_are_stale() {
    let mut s = Session {
        file_len: 65537 * 512,
        block_size: 512,
        offset: 65534 * 512,
        block: 65535,
        retries: 0,
        max_retries: 10,
        duplicates: 3,
        phase: Phase::Sending,
    };
    assert_eq!(
        s.on_ack(65535),
        Action::SendData { block: 0, start: 65535 * 512, end: 65536 * 512, copies: 3 }
    );
    assert_eq!(s.on_ack(65535), Action::Idle);
    assert_eq!(s.on_ack(65535), Action::Idle);
    assert_eq!(s.phase, Phase::Sending);
    assert_eq!(s.block, 0);
    assert_eq!(
        s.on_ack(0),
        Action::SendData { block: 1, start: 65536 * 512, end: 65537 * 512, copies: 3 }
    );
    assert_eq!(s.on_ack(0), Action::Idle);
    assert_eq!(s.on_ack(3), Action::SendError { code: ILLEGAL_OPERATION });
}

#[test]
fn receiver_follows_block_wrap() {
    let mut r = Receiver::new(4);
    r.expected = 65535;
    assert_eq!(r.on_data(65535, &[1, 2, 3, 4]), Some(65535));
    assert_eq!(r.on_data(65535, &[1, 2, 3, 4]), Some(65535));
    assert_eq!(r.expected, 0);
    assert_eq!(r.on_data(0, &[5]), Some(0));
    assert_eq!(r.data, vec![1, 2, 3, 4, 5]);
    assert!(r.done);
}
