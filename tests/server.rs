use dualserve::options::negotiate_block_size;
use dualserve::packet::{TftpMessage, TransferOption};
use dualserve::path::{resolve_request, PathError};
use dualserve::request::{
    error_message, judge_request, open_transfer, option_ack, Verdict, ACCESS_VIOLATION, FILE_NOT_FOUND,
    UNKNOWN_TRANSFER_ID,
};
use dualserve::service::{plan_services, tftp_settings, PlanError, TFTP_MAX_RETRIES};
use dualserve::session::{Action, Phase, Session};
use dualserve::table::{ClientKey, SessionTable};

fn rrq(name: &str) -> TftpMessage {
    TftpMessage::ReadRequest {
        filename: name.as_bytes().to_vec(),
        mode: b"octet".to_vec(),
        options: vec![],
    }
}

#[test]
fn paths_resolve_inside_root() {
    assert_eq!(resolve_request(b"/testfile.txt"), Ok(b"testfile.txt".to_vec()));
    assert_eq!(resolve_request(b"//a/b"), Ok(b"a/b".to_vec()));
    assert_eq!(resolve_request(b"a..b/c...txt"), Ok(b"a..b/c...txt".to_vec()));
    assert_eq!(resolve_request(b"/"), Err(PathError::Empty));
    assert_eq!(resolve_request(b""), Err(PathError::Empty));
}

#[test]
fn parent_segments_are_refused() {
    for p in [
        "../etc/passwd", "/../x", "a/../b", "a/..", "..", "/a/b/../../..", ".../x", "a/.../b",
        "x../y", "...", "/a/..hidden",
    ] {
        assert_eq!(resolve_request(p.as_bytes()), Err(PathError::Traversal), "{}", p);
    }
}

#[test]
fn both_ports_zero_ends_at_once() {
    assert_eq!(plan_services(0, 0, 1), Err(PlanError::NothingToServe));
    assert_eq!(plan_services(69, 0, 0), Err(PlanError::NoPacketCopies));
    let p = plan_services(0, 8080, 0).unwrap();
    assert_eq!(p.tftp, None);
    assert_eq!(p.http_port, Some(8080));
    let p = plan_services(6969, 0, 3).unwrap();
    assert_eq!(p.tftp, Some(tftp_settings(6969, 3)));
    assert_eq!(p.http_port, None);
}

#[test]
fn tftp_settings_are_read_only_single_port() {
    let t = tftp_settings(69, 2);
    assert!(t.read_only && t.single_port && !t.overwrite && t.clean_on_error);
    assert_eq!(t.duplicate_packets, 2);
    assert_eq!(t.max_retries, TFTP_MAX_RETRIES);
    assert_eq!(TFTP_MAX_RETRIES, 10);
}

#[test]
fn requests_are_judged() {
    assert_eq!(judge_request(&rrq("/testfile.txt")), Verdict::Serve { path: b"testfile.txt".to_vec() });
    assert_eq!(judge_request(&rrq("../secret")), Verdict::Refuse { code: ACCESS_VIOLATION });
    assert_eq!(judge_request(&rrq(".../x")), Verdict::Refuse { code: ACCESS_VIOLATION });
    assert_eq!(judge_request(&rrq("/")), Verdict::Refuse { code: FILE_NOT_FOUND });
    let w = TftpMessage::WriteRequest { filename: b"x".to_vec(), mode: b"octet".to_vec(), options: vec![] };
    assert_eq!(judge_request(&w), Verdict::Refuse { code: ACCESS_VIOLATION });
    assert_eq!(judge_request(&TftpMessage::Ack { block: 1 }), Verdict::Refuse { code: UNKNOWN_TRANSFER_ID });
}

#[test]
fn missing_file_is_file_not_found() {
    let t = tftp_settings(69, 1);
    assert_eq!(open_transfer(None, &vec![], &t), Err(FILE_NOT_FOUND));
    let s = open_transfer(Some(12), &vec![], &t).unwrap();
    assert_eq!(s, Session::new(12, 512, 10, 1));
    match error_message(FILE_NOT_FOUND) {
        TftpMessage::Error { code, message } => {
            assert_eq!(code, 1);
            assert_eq!(message, b"File not found".to_vec());
        }
        other => panic!("unexpected {:?}", other),
    }
    for (code, text) in [
        (ACCESS_VIOLATION, "Access violation"),
        (UNKNOWN_TRANSFER_ID, "Unknown transfer ID"),
        (4, "Illegal TFTP operation"),
        (0, "Transfer abandoned"),
    ] {
        assert_eq!(error_message(code), TftpMessage::Error { code, message: text.as_bytes().to_vec() });
    }
    match error_message(FILE_NOT_FOUND) {
        TftpMessage::Error { code, .. } => {
            assert_eq!(code, FILE_NOT_FOUND);
        }
        other => panic!("unexpected {:?}", other),
    }
}

#[test]
fn concurrent_clients_stay_apart() {
    let a = ClientKey { addr: 0x7f000001, port: 5000 };
    let b = ClientKey { addr: 0x7f000001, port: 5001 };
    let fa: Vec<u8> = (0..1500u32).map(|i| i as u8).collect();
    let fb: Vec<u8> = (0..700u32).map(|i| (i * 3) as u8).collect();
    let mut t = SessionTable::new();
    assert!(t.open(a, Session::new(fa.len(), 512, 10, 1)));
    assert!(t.open(b, Session::new(fb.len(), 512, 10, 1)));
    assert!(!t.open(a, Session::new(1, 512, 10, 1)));
    assert_eq!(t.len(), 2);
    let mut got_a = Vec::new();
    let mut got_b = Vec::new();
    let mut next_a = t.get(a).unwrap().current_data();
    let mut next_b = t.get(b).unwrap().current_data();
    let mut done = (false, false);
    while !(done.0 && done.1) {
        if let Action::SendData { block, start, end, .. } = next_a {
            got_a.extend_from_slice(&fa[start..end]);
            let before_b = t.get(b);
            next_a = t.on_ack(a, block).unwrap();
            assert_eq!(t.get(b), before_b);
        } else {
            done.0 = true;
        }
        if let Action::SendData { block, start, end, .. } = next_b {
            got_b.extend_from_slice(&fb[start..end]);
            next_b = t.on_ack(b, block).unwrap();
        } else {
            done.1 = true;
        }
    }
    assert_eq!(got_a, fa);
    assert_eq!(got_b, fb);
    assert_eq!(t.len(), 0);
    assert_eq!(t.on_ack(a, 1), None);
}

#[test]
fn table_timeouts_and_errors() {
    let a = ClientKey { addr: 1, port: 2 };
    let mut t = SessionTable::new();
    t.open(a, Session::new(100, 512, 1, 1));
    assert!(matches!(t.on_timeout(a), Some(Action::SendData { .. })));
    assert_eq!(t.get(a).unwrap().retries, 1);
    assert!(matches!(t.on_timeout(a), Some(Action::SendError { .. })));
    assert_eq!(t.get(a), None);
    assert_eq!(t.on_timeout(a), None);
    t.open(a, Session::new(100, 512, 1, 1));
    assert!(t.on_error(a));
    assert!(!t.on_error(a));
    assert_eq!(t.get(a).map(|s| s.phase), None::<Phase>);
}

fn opt(name: &str, value: &str) -> TransferOption {
    TransferOption { name: name.as_bytes().to_vec(), value: value.as_bytes().to_vec() }
}

#[test]
fn blksize_is_negotiated() {
    let o = vec![opt("tsize", "0"), opt("BlkSize", "1428")];
    assert_eq!(negotiate_block_size(&o), Some((1428, 1)));
    assert_eq!(negotiate_block_size(&vec![opt("blksize", "8")]), Some((8, 0)));
    assert_eq!(negotiate_block_size(&vec![opt("blksize", "65464")]), Some((65464, 0)));
    for bad in ["7", "65465", "", "12a", "99999999999999999999", "-5"] {
        assert_eq!(negotiate_block_size(&vec![opt("blksize", bad)]), None, "{}", bad);
    }
    assert_eq!(negotiate_block_size(&vec![opt("blksizes", "512")]), None);
    assert_eq!(negotiate_block_size(&vec![]), None);
}

#[test]
fn negotiated_transfer_waits_for_ack_zero() {
    let t = tftp_settings(69, 1);
    let o = vec![opt("blksize", "1024"), opt("timeout", "3")];
    let mut s = open_transfer(Some(3000), &o, &t).unwrap();
    assert_eq!(s.phase, Phase::Negotiating);
    assert_eq!(s.block_size, 1024);
    assert_eq!(s.first_action(), Action::SendOptionAck { copies: 1 });
    assert_eq!(s.on_timeout(), Action::SendOptionAck { copies: 1 });
    assert_eq!(s.on_ack(0), Action::SendData { block: 1, start: 0, end: 1024, copies: 1 });
    assert_eq!(s.phase, Phase::Sending);
    assert_eq!(s.retries, 0);
    assert_eq!(
        option_ack(&o),
        Some(TftpMessage::OptionAck { options: vec![opt("blksize", "1024")] })
    );
    assert_eq!(option_ack(&vec![opt("timeout", "3")]), None);
}

#[test]
fn wrong_ack_during_negotiation_fails() {
    let t = tftp_settings(69, 1);
    let mut s = open_transfer(Some(10), &vec![opt("blksize", "512")], &t).unwrap();
    assert_eq!(s.on_ack(1), Action::SendError { code: 4 });
    assert_eq!(s.phase, Phase::Failed);
}
