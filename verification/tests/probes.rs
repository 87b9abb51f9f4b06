use pi_watcher::binary64::Binary64;
use pi_watcher::probes::{
    encode_query, judge_event, judge_reply, Heard, IpAddr, ProbeResult, Reply,
};

const SERVER: IpAddr = IpAddr::V4(0x0808_0808);

fn reply(id: u16, flags: u8, rcode: u8, answers: u16) -> Vec<u8> {
    let mut r = vec![0u8; 12];
    r[0] = (id >> 8) as u8;
    r[1] = (id & 0xff) as u8;
    r[2] = flags;
    r[3] = rcode;
    r[6] = (answers >> 8) as u8;
    r[7] = (answers & 0xff) as u8;
    r
}

fn failure(r: Reply) -> String {
    match r {
        Reply::Failed(e) => e,
        Reply::Answered => "answered".to_string(),
        Reply::Stray => "stray".to_string(),
    }
}

#[test]
fn queries_are_encoded_label_by_label() {
    let expected: Vec<u8> = vec![
        0x12, 0x34, 0x01, 0x00, 0x00, 0x01, 0x00, 0x00, 0x00, 0x00, 0x00, 0x00, 3, b'w', b'w', b'w',
        6, b'g', b'o', b'o', b'g', b'l', b'e', 3, b'c', b'o', b'm', 0x00, 0x00, 0x01, 0x00, 0x01,
    ];
    assert_eq!(encode_query(0x1234, "www.google.com").unwrap(), expected);
    // A trailing dot is the root, not a label.
    assert_eq!(encode_query(0x1234, "www.google.com...").unwrap(), expected);
}

#[test]
fn labels_beyond_ascii_count_their_bytes() {
    let msg = encode_query(0, "\u{e9}.fr").unwrap();
    assert_eq!(&msg[12..18], &[2, 0xc3, 0xa9, 2, b'f', b'r']);
}

#[test]
fn bad_query_names_are_refused() {
    for name in ["", ".", "a..b", ".a"] {
        assert_eq!(encode_query(1, name).unwrap_err(), format!("bad query name '{name}'"));
    }
    let long = "x".repeat(64);
    assert_eq!(encode_query(1, &long).unwrap_err(), format!("bad query name '{long}'"));
    assert!(encode_query(1, &"x".repeat(63)).is_ok());
}

#[test]
fn answers_are_told_from_strays() {
    let good = reply(0xbeef, 0x81, 0x80, 1);
    assert!(matches!(judge_reply(&good, SERVER, SERVER, 0xbeef), Reply::Answered));
    let other = IpAddr::V4(0x0101_0101);
    assert!(matches!(judge_reply(&good, other, SERVER, 0xbeef), Reply::Stray));
    assert!(matches!(judge_reply(&good, SERVER, SERVER, 0xbeee), Reply::Stray));
    assert!(matches!(judge_reply(&good[..11], SERVER, SERVER, 0xbeef), Reply::Stray));
    // An echo of the query is no answer.
    let echo = reply(0xbeef, 0x01, 0x00, 0);
    assert!(matches!(judge_reply(&echo, SERVER, SERVER, 0xbeef), Reply::Stray));
    let query = encode_query(0xbeef, "example.org").unwrap();
    assert!(matches!(judge_reply(&query, SERVER, SERVER, 0xbeef), Reply::Stray));
}

#[test]
fn refusals_and_empty_answers_fail() {
    assert_eq!(failure(judge_reply(&reply(1, 0x81, 0x83, 1), SERVER, SERVER, 1)), "dns rcode 3");
    assert_eq!(failure(judge_reply(&reply(1, 0x81, 0x8f, 0), SERVER, SERVER, 1)), "dns rcode 15");
    assert_eq!(failure(judge_reply(&reply(1, 0x81, 0x80, 0), SERVER, SERVER, 1)), "no answers");
    assert_eq!(failure(judge_reply(&reply(1, 0x81, 0x80, 256), SERVER, SERVER, 1)), "answered");
}

#[test]
fn a_wait_ends_with_the_first_answer_or_the_deadline() {
    let datagram = |bytes: Vec<u8>| Heard::Datagram { bytes, from: SERVER };
    let events = vec![
        datagram(reply(6, 0x81, 0x80, 1)),
        datagram(vec![1, 2, 3]),
        datagram(reply(7, 0x81, 0x82, 1)),
        datagram(reply(7, 0x81, 0x80, 1)),
    ];
    let waited = |events: &[Heard]| {
        events
            .iter()
            .map(|e| judge_event(e, SERVER, 7))
            .find(|r| !matches!(r, Reply::Stray))
            .map(failure)
    };
    assert_eq!(waited(&events), Some("dns rcode 2".to_string()));
    assert_eq!(waited(&events[..2]), None);
    assert_eq!(waited(&events[3..]), Some("answered".to_string()));
    assert_eq!(failure(judge_event(&Heard::Deadline, SERVER, 7)), "timeout");
    let broken = Heard::Broken("connection refused".to_string());
    assert_eq!(failure(judge_event(&broken, SERVER, 7)), "recv: connection refused");
}

#[test]
fn outcomes_become_results() {
    let ms = Binary64::from_bits(12.5f64.to_bits());
    let good = ProbeResult::from_outcome(Ok(ms));
    assert!(good.ok && good.error.is_none());
    assert_eq!(good.latency_ms, Some(ms));
    let bad = ProbeResult::from_outcome(Err("timeout".to_string()));
    assert!(!bad.ok && bad.latency_ms.is_none());
    assert_eq!(bad.error.as_deref(), Some("timeout"));
}
