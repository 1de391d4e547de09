use dualserve::manager::{dispatch, Reply};
use dualserve::packet::{encode, TftpMessage, TransferOption};
use dualserve::request::{
    error_message, open_transfer, ACCESS_VIOLATION, FILE_NOT_FOUND, UNKNOWN_TRANSFER_ID,
};
use dualserve::service::tftp_settings;
use dualserve::session::Action;
use dualserve::table::{ClientKey, SessionTable};

fn wire(m: &TftpMessage) -> Vec<u8> {
    encode(m, 65464).unwrap()
}

fn rrq(name: &str, options: Vec<TransferOption>) -> Vec<u8> {
    wire(&TftpMessage::ReadRequest {
        filename: name.as_bytes().to_vec(),
        mode: b"octet".to_vec(),
        options,
    })
}

#[test]
fn read_request_leads_to_lookup_then_transfer() {
    let c = ClientKey { addr: 0x0a000001, port: 40000 };
    let mut t = SessionTable::new();
    let reply = dispatch(&mut t, c, &rrq("/testfile.txt", vec![]));
    let (path, options) = match reply {
        Reply::Lookup { path, options } => (path, options),
        other => panic!("unexpected {:?}", other),
    };
    assert_eq!(path, b"testfile.txt".to_vec());
    let contents = b"Hello, TFTP!";
    let s = open_transfer(Some(contents.len()), &options, &tftp_settings(69, 1)).unwrap();
    assert!(t.open(c, s));
    assert_eq!(
        t.get(c).unwrap().first_action(),
        Action::SendData { block: 1, start: 0, end: 12, copies: 1 }
    );
    assert_eq!(dispatch(&mut t, c, &rrq("/testfile.txt", vec![])), Reply::Drop);
    let ack = wire(&TftpMessage::Ack { block: 1 });
    assert_eq!(dispatch(&mut t, c, &ack), Reply::Act(Action::Done));
    assert_eq!(t.len(), 0);
}

#[test]
fn missing_or_escaping_paths_are_refused() {
    let c = ClientKey { addr: 1, port: 1 };
    let mut t = SessionTable::new();
    assert_eq!(dispatch(&mut t, c, &rrq("../etc/passwd", vec![])), Reply::Refuse { code: ACCESS_VIOLATION });
    assert_eq!(dispatch(&mut t, c, &rrq("/", vec![])), Reply::Refuse { code: FILE_NOT_FOUND });
    let wrq = wire(&TftpMessage::WriteRequest { filename: b"a".to_vec(), mode: b"octet".to_vec(), options: vec![] });
    assert_eq!(dispatch(&mut t, c, &wrq), Reply::Refuse { code: ACCESS_VIOLATION });
    let ack = wire(&TftpMessage::Ack { block: 1 });
    assert_eq!(dispatch(&mut t, c, &ack), Reply::Refuse { code: UNKNOWN_TRANSFER_ID });
    assert_eq!(t.len(), 0);
    let settings = tftp_settings(69, 1);
    assert_eq!(open_transfer(None, &vec![], &settings), Err(FILE_NOT_FOUND));
    let err = wire(&error_message(FILE_NOT_FOUND));
    assert_eq!(err[..4], [0, 5, 0, 1]);
}

#[test]
fn malformed_datagram_touches_nothing() {
    let c = ClientKey { addr: 2, port: 2 };
    let mut t = SessionTable::new();
    t.open(c, open_transfer(Some(600), &vec![], &tftp_settings(69, 1)).unwrap());
    let before = t.get(c);
    assert_eq!(dispatch(&mut t, c, &[0, 4, 0]), Reply::Drop);
    assert_eq!(dispatch(&mut t, c, &[0, 42]), Reply::Drop);
    assert_eq!(t.get(c), before);
}

#[test]
fn client_error_ends_only_its_session() {
    let a = ClientKey { addr: 3, port: 1 };
    let b = ClientKey { addr: 3, port: 2 };
    let settings = tftp_settings(69, 1);
    let mut t = SessionTable::new();
    t.open(a, open_transfer(Some(600), &vec![], &settings).unwrap());
    t.open(b, open_transfer(Some(600), &vec![], &settings).unwrap());
    let before_b = t.get(b);
    let err = wire(&TftpMessage::Error { code: 0, message: b"bye".to_vec() });
    assert_eq!(dispatch(&mut t, a, &err), Reply::Drop);
    assert_eq!(t.get(a), None);
    assert_eq!(t.get(b), before_b);
    let ack = wire(&TftpMessage::Ack { block: 1 });
    assert_eq!(
        dispatch(&mut t, b, &ack),
        Reply::Act(Action::SendData { block: 2, start: 512, end: 600, copies: 1 })
    );
}

#[test]
fn exhausted_session_leaves_server_open_to_others() {
    let a = ClientKey { addr: 4, port: 1 };
    let b = ClientKey { addr: 4, port: 2 };
    let mut t = SessionTable::new();
    t.open(a, open_transfer(Some(600), &vec![], &tftp_settings(69, 1)).unwrap());
    for _ in 0..10 {
        assert!(matches!(t.on_timeout(a), Some(Action::SendData { .. })));
    }
    assert!(matches!(t.on_timeout(a), Some(Action::SendError { .. })));
    assert_eq!(t.len(), 0);
    match dispatch(&mut t, b, &rrq("/other.bin", vec![])) {
        Reply::Lookup { path, .. } => assert_eq!(path, b"other.bin".to_vec()),
        other => panic!("unexpected {:?}", other),
    }
    match dispatch(&mut t, a, &rrq("/again.bin", vec![])) {
        Reply::Lookup { path, .. } => assert_eq!(path, b"again.bin".to_vec()),
        other => panic!("unexpected {:?}", other),
    }
}
