use smtp_relay::dots::{data_payload, ends_message, unstuff};

#[test]
fn payload_stuffs_dots_and_ends_with_a_dot() {
    assert_eq!(data_payload(b"a\r\n.b\r\n..\r\n"), b"a\r\n..b\r\n...\r\n.\r\n".to_vec());
    assert_eq!(data_payload(b".x"), b"..x\r\n.\r\n".to_vec());
    assert_eq!(data_payload(b""), b"\r\n.\r\n".to_vec());
    assert_eq!(data_payload(b"x\n"), b"x\n\r\n.\r\n".to_vec());
    assert_eq!(data_payload(b"x\r"), b"x\r\r\n.\r\n".to_vec());
}

#[test]
fn only_a_lone_dot_ends_a_message() {
    assert!(ends_message(b".\r\n"));
    assert!(ends_message(b".\n"));
    assert!(!ends_message(b"."));
    assert!(!ends_message(b"..\r\n"));
    assert!(!ends_message(b". \r\n"));
    assert!(!ends_message(b""));
}

#[test]
fn one_of_two_dots_is_dropped() {
    assert_eq!(unstuff(b"..a\r\n"), b".a\r\n".to_vec());
    assert_eq!(unstuff(b".a\r\n"), b".a\r\n".to_vec());
    assert_eq!(unstuff(b"a..\r\n"), b"a..\r\n".to_vec());
}

#[test]
fn payloads_read_back() {
    let message = b".one\r\n\r\n..two\r\nthree";
    let sent = data_payload(message);
    let mut got: Vec<u8> = Vec::new();
    let mut ended = false;
    for line in sent.split_inclusive(|b| *b == b'\n') {
        if ends_message(line) {
            ended = true;
        } else {
            assert!(!ended);
            got.extend(unstuff(line));
        }
    }
    assert!(ended);
    assert_eq!(got, b".one\r\n\r\n..two\r\nthree\r\n".to_vec());
}

#[test]
fn every_payload_ends_with_crlf_dot_crlf() {
    let messages: [&[u8]; 8] = [b"", b"\n", b"\r", b"\r\n", b"x", b"x\n", b".\n", b"..\r\n"];
    for message in messages {
        assert!(data_payload(message).ends_with(b"\r\n.\r\n"));
    }
}
