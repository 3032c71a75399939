use acme_dns::dns::{process, MESSAGE_MAX_BYTES, PROOF_MAX_BYTES, QUESTION_CLASS_IN, QUESTION_TYPE_TXT};
use acme_dns::error::Error;
use acme_dns::name::{extract_labels, put_labels};
use acme_dns::wire::{Header, QuestionInfo, ResourceInfo};

fn request(id: u16, rd: bool, labels: &[&str], kind: u16, class: u16, size: usize) -> Vec<u8> {
    let header = Header {
        id,
        qr: false,
        opcode: 0,
        aa: false,
        tc: false,
        rd,
        ra: false,
        z: 0,
        rcode: 0,
        qdcount: 1,
        ancount: 0,
        nscount: 0,
        arcount: 0,
    };
    let mut buf = vec![0u8; size];
    buf[..12].copy_from_slice(&header.encode());
    let owned: Vec<String> = labels.iter().map(|l| l.to_string()).collect();
    let next = put_labels(&mut buf, 12, &owned);
    buf[next..next + 4].copy_from_slice(&QuestionInfo { kind, class }.encode());
    buf
}

fn name_len(labels: &[&str]) -> usize {
    labels.iter().map(|l| 1 + l.len()).sum::<usize>() + 1
}

fn check_response(labels: &[&str], proof: &str, id: u16, rd: bool) {
    let mut buf = request(id, rd, labels, 16, 1, 1024);
    let before = buf.clone();
    let sent = process(&mut buf, proof).unwrap().to_vec();
    let n = name_len(labels);
    assert_eq!(sent.len(), 12 + n + 4 + n + 10 + 1 + proof.len());
    let header = Header::decode(&sent).unwrap();
    assert_eq!(
        header,
        Header {
            id,
            qr: true,
            opcode: 0,
            aa: true,
            tc: false,
            rd,
            ra: false,
            z: 0,
            rcode: 0,
            qdcount: 1,
            ancount: 1,
            nscount: 0,
            arcount: 0,
        }
    );
    let owned: Vec<String> = labels.iter().map(|l| l.to_string()).collect();
    assert_eq!(&sent[12..12 + n + 4], &before[12..12 + n + 4]);
    let (asked, at) = extract_labels(&sent, 12).unwrap();
    assert_eq!(asked, owned);
    assert_eq!(QuestionInfo::decode(&sent[at..]), Ok(QuestionInfo { kind: 16, class: 1 }));
    let (owner, at) = extract_labels(&sent, at + 4).unwrap();
    assert_eq!(owner, owned);
    assert_eq!(
        ResourceInfo::decode(&sent[at..]),
        Ok(ResourceInfo { kind: 16, class: 1, ttl: 0, rdlength: 1 + proof.len() as u16 })
    );
    assert_eq!(sent[at + 10] as usize, proof.len());
    assert_eq!(&sent[at + 11..], proof.as_bytes());
    assert_eq!(&buf[..sent.len()], &sent[..]);
    assert_eq!(&buf[sent.len()..], &before[sent.len()..]);
}

#[test]
fn acme_challenge_query_is_answered_with_the_proof() {
    let labels = ["_acme-challenge", "example", "com"];
    let mut buf = request(0x1234, true, &labels, 16, 1, MESSAGE_MAX_BYTES);
    let sent = process(&mut buf, "abc123").unwrap();
    let mut expected: Vec<u8> = vec![0x12, 0x34, 0x85, 0x00, 0, 1, 0, 1, 0, 0, 0, 0];
    let name = b"\x0f_acme-challenge\x07example\x03com\x00";
    expected.extend_from_slice(name);
    expected.extend_from_slice(&[0, 16, 0, 1]);
    expected.extend_from_slice(name);
    expected.extend_from_slice(&[0, 16, 0, 1, 0, 0, 0, 0, 0, 7]);
    expected.extend_from_slice(b"\x06abc123");
    assert_eq!(sent, &expected[..]);
    let header = Header::decode(sent).unwrap();
    assert_eq!(header.id, 0x1234);
    assert!(header.qr && header.aa && header.rd);
    assert_eq!(header.ancount, 1);
    assert_eq!(
        ResourceInfo::decode(&sent[12 + 29 + 4 + 29..]),
        Ok(ResourceInfo { kind: 16, class: 1, ttl: 0, rdlength: 7 })
    );
}

#[test]
fn txt_queries_of_one_to_four_labels_are_answered() {
    let long = "l".repeat(63);
    check_response(&["a"], "", 0, false);
    check_response(&["a", "bc"], "p", 1, true);
    check_response(&["_acme-challenge", "example", "com"], "abc123", 0xffff, false);
    check_response(&[&long, &long, &long, &long], &"q".repeat(255), 0x8001, true);
    check_response(&["x", &long, "y", "z"], &"0123456789".repeat(20), 77, true);
}

#[test]
fn the_root_name_and_text_labels_are_answered_too() {
    check_response(&[], "proof", 5, false);
    check_response(&["bücher", "example"], "prüf", 6, true);
}

#[test]
fn request_flags_other_than_rd_are_not_echoed() {
    let mut buf = request(9, false, &["a"], 16, 1, 64);
    buf[2] = 0b0111_1110;
    buf[3] = 0xff;
    buf[4..12].copy_from_slice(&[0, 7, 0, 7, 0, 7, 0, 7]);
    let sent = process(&mut buf, "p").unwrap();
    assert_eq!(&sent[..12], &[0, 9, 0x84, 0x00, 0, 1, 0, 1, 0, 0, 0, 0]);
}

#[test]
fn other_record_types_and_classes_are_refused() {
    for (kind, class) in [(1u16, 1u16), (16, 3), (255, 255), (28, 1), (16, 0), (0, 1), (16, 257), (272, 1)] {
        let mut buf = request(7, true, &["example", "com"], kind, class, MESSAGE_MAX_BYTES);
        let before = buf.clone();
        assert_eq!(process(&mut buf, "abc123"), Err(Error::RequestError));
        assert_eq!(buf, before);
    }
    assert_eq!(QUESTION_TYPE_TXT, 16);
    assert_eq!(QUESTION_CLASS_IN, 1);
}

#[test]
fn a_question_that_is_refused_is_refused_before_room_is_looked_for() {
    let mut buf = request(7, true, &["a"], 1, 1, 19);
    assert_eq!(process(&mut buf, "abc123"), Err(Error::RequestError));
}

#[test]
fn a_buffer_shorter_than_a_header_is_malformed() {
    for size in 0..12 {
        let mut buf = vec![0u8; size];
        assert_eq!(process(&mut buf, "abc123"), Err(Error::PackingError));
        assert_eq!(buf, vec![0u8; size]);
    }
}

#[test]
fn a_label_that_claims_more_than_remains_is_malformed() {
    let mut buf = request(7, true, &["example", "com"], 16, 1, 64);
    buf[12] = 60;
    let before = buf.clone();
    assert_eq!(process(&mut buf, "abc123"), Err(Error::PackingError));
    assert_eq!(buf, before);
    let mut cut = request(7, true, &["example", "com"], 16, 1, 64);
    cut.truncate(12 + 8 + 2);
    assert_eq!(process(&mut cut, "abc123"), Err(Error::PackingError));
}

#[test]
fn a_name_without_its_end_is_malformed() {
    let mut buf = request(7, true, &["example", "com"], 16, 1, 64);
    buf.truncate(12 + 8 + 4);
    assert_eq!(process(&mut buf, "abc123"), Err(Error::PackingError));
    let mut only_header = vec![0u8; 12];
    assert_eq!(process(&mut only_header, "abc123"), Err(Error::PackingError));
}

#[test]
fn a_question_cut_short_is_malformed() {
    for missing in 1..=4 {
        let mut buf = request(7, true, &["a"], 16, 1, 64);
        buf.truncate(12 + 3 + 4 - missing);
        let before = buf.clone();
        assert_eq!(process(&mut buf, "abc123"), Err(Error::PackingError));
        assert_eq!(buf, before);
    }
}

#[test]
fn a_label_that_is_not_text_is_refused_as_such() {
    let mut buf = request(7, true, &["example", "com"], 16, 1, 64);
    buf[14] = 0xff;
    let before = buf.clone();
    assert_eq!(process(&mut buf, "abc123"), Err(Error::Utf8Error));
    assert_eq!(buf, before);
}

#[test]
fn a_buffer_without_room_for_the_answer_is_malformed() {
    let labels = ["example", "com"];
    let needed = 12 + 13 + 4 + 13 + 10 + 1 + 6;
    let mut tight = request(7, true, &labels, 16, 1, needed);
    assert_eq!(process(&mut tight, "abc123").map(|s| s.len()), Ok(needed));
    let mut short = request(7, true, &labels, 16, 1, needed - 1);
    let before = short.clone();
    assert_eq!(process(&mut short, "abc123"), Err(Error::PackingError));
    assert_eq!(short, before);
    let mut bare = request(7, true, &labels, 16, 1, 12 + 13 + 4);
    assert_eq!(process(&mut bare, ""), Err(Error::PackingError));
}

#[test]
fn four_longest_labels_do_not_fit_a_udp_message() {
    let long = "l".repeat(63);
    let mut buf = request(7, true, &[&long, &long, &long, &long], 16, 1, MESSAGE_MAX_BYTES);
    let before = buf.clone();
    assert_eq!(process(&mut buf, &"q".repeat(PROOF_MAX_BYTES)), Err(Error::PackingError));
    assert_eq!(buf, before);
}

#[test]
fn bytes_behind_the_question_are_overwritten_only_by_the_answer() {
    let mut buf = request(7, true, &["a"], 16, 1, 40);
    for b in buf[19..].iter_mut() {
        *b = 0xcc;
    }
    let sent_len = process(&mut buf, "xy").unwrap().len();
    assert_eq!(sent_len, 19 + 3 + 10 + 3);
    assert_eq!(&buf[19..22], &[1, b'a', 0]);
    assert_eq!(&buf[32..35], &[2, b'x', b'y']);
    assert_eq!(&buf[35..], &[0xcc; 5]);
}

#[test]
fn error_messages() {
    assert_eq!(Error::RequestError.message(), "request error");
    assert_eq!(Error::PackingError.message(), "malformed message");
    assert_eq!(Error::Utf8Error.message(), "label is not valid UTF-8");
    assert_eq!(Error::IoError.message(), "socket failure");
}
