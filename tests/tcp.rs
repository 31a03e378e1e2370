use usertcp::tcp::Connection;
use usertcp::tcp::RecvSequenceSpace;
use usertcp::tcp::Segment;
use usertcp::tcp::State;
use usertcp::tcp::Violation;

const CLIENT: [u8; 4] = [10, 0, 0, 2];
const SERVER: [u8; 4] = [10, 0, 0, 1];

fn segment(seq: u32, ack: u32, syn: bool, fin: bool) -> Segment {
    Segment {
        source: CLIENT,
        destination: SERVER,
        source_port: 40000,
        destination_port: 80,
        sequence_number: seq,
        acknowledgment_number: ack,
        window_size: 64240,
        syn,
        ack: !syn,
        fin,
        rst: false,
    }
}

fn be32(b: &[u8]) -> u32 {
    u32::from_be_bytes([b[0], b[1], b[2], b[3]])
}

fn be16(b: &[u8]) -> u16 {
    u16::from_be_bytes([b[0], b[1]])
}

fn ones_complement_sum(words: &[u8]) -> u16 {
    let mut sum: u32 = 0;
    let mut i = 0;
    while i < words.len() {
        let hi = words[i] as u32;
        let lo = if i + 1 < words.len() { words[i + 1] as u32 } else { 0 };
        sum += (hi << 8) | lo;
        i += 2;
    }
    while sum > 0xffff {
        sum = (sum & 0xffff) + (sum >> 16);
    }
    sum as u16
}

fn opened(out: &mut Vec<Vec<u8>>) -> Connection {
    Connection::accept(&segment(1000, 0, true, false), &[], out).expect("a SYN opens a connection")
}

#[test]
fn handshake_answers_syn_with_syn_ack() {
    let mut out = Vec::new();
    let c = opened(&mut out);
    assert_eq!(c.recv.nxt, 1001);
    assert_eq!(c.recv.irs, 1000);
    assert_eq!(c.recv.wnd, 64240);
    assert_eq!(c.state, State::SynRcvd);
    assert_eq!(c.send.iss, 0);
    assert_eq!(c.send.una, 0);
    // `send.nxt` starts at iss + 1 and the SYN it sends takes one more
    assert_eq!(c.send.nxt, 2);
    assert!(!c.tcp.syn);
    assert_eq!(out.len(), 1);
    let f = &out[0];
    assert_eq!(f.len(), 40);
    // TCP header starts after the 20-byte IPv4 header
    assert_eq!(be16(&f[20..22]), 80);
    assert_eq!(be16(&f[22..24]), 40000);
    assert_eq!(be32(&f[24..28]), 1);
    assert_eq!(be32(&f[28..32]), 1001);
    assert_eq!(f[33], 0x12);
    assert_eq!(be16(&f[34..36]), 10);
}

#[test]
fn syn_ack_frame_addresses_and_lengths() {
    let mut out = Vec::new();
    opened(&mut out);
    let f = &out[0];
    assert_eq!(f[0], 0x45);
    assert_eq!(be16(&f[2..4]), 40);
    assert_eq!(f[8], 64);
    assert_eq!(f[9], 6);
    assert_eq!(&f[12..16], &SERVER);
    assert_eq!(&f[16..20], &CLIENT);
    assert_eq!(f[32], 0x50);
}

#[test]
fn syn_ack_checksums_verify() {
    let mut out = Vec::new();
    opened(&mut out);
    let f = &out[0];
    // IPv4 header checksum
    assert_eq!(ones_complement_sum(&f[0..20]), 0xffff);
    // TCP checksum over the pseudo-header and the segment
    let mut pseudo = Vec::new();
    pseudo.extend_from_slice(&f[12..20]);
    pseudo.extend_from_slice(&[0, 6, 0, 20]);
    pseudo.extend_from_slice(&f[20..40]);
    assert_ne!(be16(&f[36..38]), 0);
    assert_eq!(ones_complement_sum(&pseudo), 0xffff);
}

#[test]
fn segment_without_syn_opens_nothing() {
    let mut out = Vec::new();
    let c = Connection::accept(&segment(1000, 0, false, false), &[], &mut out);
    assert!(c.is_none());
    assert!(out.is_empty());
}

#[test]
fn ack_completes_handshake_and_starts_close() {
    let mut out = Vec::new();
    let mut c = opened(&mut out);
    let iss = c.send.iss;
    let r = c.on_packet(&segment(1001, iss + 1, false, false), &[], &mut out);
    assert_eq!(r, Ok(()));
    assert_eq!(c.state, State::FinWait1);
    assert_eq!(c.send.una, iss + 1);
    assert_eq!(c.send.nxt, iss + 3);
    assert_eq!(out.len(), 2);
    let f = &out[1];
    assert_eq!(f[33], 0x11);
    assert_eq!(be32(&f[24..28]), iss + 2);
    assert_eq!(be32(&f[28..32]), 1001);
}

#[test]
fn fin_acknowledged_moves_to_fin_wait2() {
    let mut out = Vec::new();
    let mut c = opened(&mut out);
    let iss = c.send.iss;
    c.on_packet(&segment(1001, iss + 1, false, false), &[], &mut out).unwrap();
    let r = c.on_packet(&segment(1001, iss + 2, false, false), &[], &mut out);
    assert_eq!(r, Ok(()));
    assert_eq!(c.send.una, iss + 2);
    assert_eq!(c.state, State::FinWait2);
    assert_eq!(out.len(), 2);
}

#[test]
fn peer_fin_acking_nothing_new_is_dropped() {
    let mut out = Vec::new();
    let mut c = opened(&mut out);
    let iss = c.send.iss;
    c.on_packet(&segment(1001, iss + 1, false, false), &[], &mut out).unwrap();
    c.on_packet(&segment(1001, iss + 2, false, false), &[], &mut out).unwrap();
    let r = c.on_packet(&segment(1001, iss + 2, false, true), &[], &mut out);
    assert_eq!(r, Ok(()));
    assert_eq!(c.state, State::FinWait2);
    assert_eq!(c.recv.nxt, 1002);
    assert_eq!(out.len(), 2);
}

#[test]
fn peer_fin_in_fin_wait2_reenters_fin_wait1() {
    let mut out = Vec::new();
    let mut c = opened(&mut out);
    let iss = c.send.iss;
    c.on_packet(&segment(1001, iss + 1, false, false), &[], &mut out).unwrap();
    c.on_packet(&segment(1001, iss + 2, false, false), &[], &mut out).unwrap();
    let r = c.on_packet(&segment(1001, iss + 3, false, true), &[], &mut out);
    assert_eq!(r, Ok(()));
    assert_eq!(c.state, State::FinWait1);
    assert_eq!(c.send.una, iss + 3);
    assert_eq!(c.recv.nxt, 1002);
    assert_eq!(c.send.nxt, iss + 4);
    assert_eq!(out.len(), 3);
    let f = &out[2];
    assert_eq!(f[33], 0x11);
    assert_eq!(be32(&f[24..28]), iss + 3);
    assert_eq!(be32(&f[28..32]), 1002);
}

#[test]
fn pure_ack_at_rcv_nxt_is_accepted_again() {
    let mut out = Vec::new();
    let mut c = opened(&mut out);
    let nxt = c.recv.nxt;
    assert!(c.recv.accepts(nxt, 0));
    // an acknowledgment of nothing we sent: accepted, leaves the state alone
    let seg = segment(nxt, 77, false, false);
    assert_eq!(c.on_packet(&seg, &[], &mut out), Ok(()));
    assert_eq!(c.recv.nxt, nxt);
    assert!(c.recv.accepts(nxt, 0));
    assert_eq!(c.on_packet(&seg, &[], &mut out), Ok(()));
    assert_eq!(c.recv.nxt, nxt);
    assert_eq!(c.state, State::SynRcvd);
    assert_eq!(out.len(), 1);
}

#[test]
fn zero_window_accepts_only_exact_pure_ack() {
    let r = RecvSequenceSpace { nxt: 500, wnd: 0, up: false, irs: 499 };
    assert!(r.accepts(500, 0));
    assert!(!r.accepts(501, 0));
    assert!(!r.accepts(499, 0));
}

#[test]
fn zero_window_rejects_payload() {
    let r = RecvSequenceSpace { nxt: 500, wnd: 0, up: false, irs: 499 };
    for seqn in [0u32, 499, 500, 501, u32::MAX] {
        assert!(!r.accepts(seqn, 1));
        assert!(!r.accepts(seqn, 100));
    }
    let mut out = Vec::new();
    let mut c = opened(&mut out);
    c.recv.wnd = 0;
    let before_nxt = c.recv.nxt;
    let r = c.on_packet(&segment(before_nxt, 1, false, false), &[1, 2, 3], &mut out);
    assert_eq!(r, Ok(()));
    assert_eq!(c.recv.nxt, before_nxt);
    assert_eq!(c.state, State::SynRcvd);
    assert_eq!(out.len(), 1);
}

#[test]
fn acceptance_window_edges() {
    let r = RecvSequenceSpace { nxt: 100, wnd: 10, up: false, irs: 99 };
    assert!(r.accepts(100, 0));
    assert!(r.accepts(109, 0));
    assert!(!r.accepts(110, 0));
    assert!(!r.accepts(99, 0));
    // a segment that ends inside the window is accepted
    assert!(r.accepts(95, 10));
    assert!(!r.accepts(80, 10));
    // wrapping window
    let w = RecvSequenceSpace { nxt: u32::MAX - 2, wnd: 10, up: false, irs: 0 };
    assert!(w.accepts(3, 0));
    assert!(!w.accepts(7, 0));
}

#[test]
fn out_of_window_segment_is_dropped() {
    let mut out = Vec::new();
    let mut c = opened(&mut out);
    let r = c.on_packet(&segment(1001 + 70000, 1, false, false), &[], &mut out);
    assert_eq!(r, Ok(()));
    assert_eq!(c.recv.nxt, 1001);
    assert_eq!(c.state, State::SynRcvd);
    assert_eq!(out.len(), 1);
}

#[test]
fn stale_ack_in_established_is_dropped() {
    let mut out = Vec::new();
    let mut c = opened(&mut out);
    // acknowledges our ISS itself: handshake completes, the ACK gate drops it
    let r = c.on_packet(&segment(1001, 0, false, false), &[], &mut out);
    assert_eq!(r, Ok(()));
    assert_eq!(c.state, State::Estab);
    assert_eq!(c.send.una, 0);
    assert_eq!(out.len(), 1);
}

#[test]
fn payload_at_close_is_a_violation() {
    let mut out = Vec::new();
    let mut c = opened(&mut out);
    let r = c.on_packet(&segment(1001, 1, false, false), &[9, 9], &mut out);
    assert_eq!(r, Err(Violation::DataAtClose));
    assert_eq!(out.len(), 1);
}

#[test]
fn fin_before_fin_wait2_is_a_violation() {
    let mut out = Vec::new();
    let mut c = opened(&mut out);
    let r = c.on_packet(&segment(1001, 77, false, true), &[], &mut out);
    assert_eq!(r, Err(Violation::UnexpectedFin));
    assert_eq!(c.state, State::SynRcvd);
}

#[test]
fn write_truncates_to_one_frame() {
    let mut out = Vec::new();
    let mut c = opened(&mut out);
    let before = c.send.nxt;
    let payload = vec![7u8; 2000];
    let n = c.write(&payload, &mut out);
    assert_eq!(n, 1460);
    assert_eq!(c.send.nxt, before + 1460);
    let f = &out[1];
    assert_eq!(f.len(), 1500);
    assert_eq!(be16(&f[2..4]), 1500);
    assert_eq!(be32(&f[24..28]), before);
    assert!(f[40..].iter().all(|&b| b == 7));
}

#[test]
fn short_write_sends_whole_payload() {
    let mut out = Vec::new();
    let mut c = opened(&mut out);
    let before = c.send.nxt;
    let n = c.write(b"hello", &mut out);
    assert_eq!(n, 5);
    assert_eq!(c.send.nxt, before + 5);
    let f = &out[1];
    assert_eq!(f.len(), 45);
    assert_eq!(&f[40..], b"hello");
    let mut pseudo = Vec::new();
    pseudo.extend_from_slice(&f[12..20]);
    pseudo.extend_from_slice(&[0, 6, 0, 25]);
    pseudo.extend_from_slice(&f[20..45]);
    assert_eq!(ones_complement_sum(&pseudo), 0xffff);
}

#[test]
fn reset_carries_zero_numbers() {
    let mut out = Vec::new();
    let mut c = opened(&mut out);
    c.send_rst(&mut out);
    assert!(c.tcp.rst);
    let f = &out[1];
    assert_eq!(be32(&f[24..28]), 0);
    assert_eq!(be32(&f[28..32]), 0);
    assert_eq!(f[33] & 0x04, 0x04);
}

#[test]
fn synchronized_states() {
    assert!(!State::SynRcvd.is_synchoronized());
    assert!(State::Estab.is_synchoronized());
    assert!(State::FinWait1.is_synchoronized());
    assert!(State::FinWait2.is_synchoronized());
    assert!(State::TimeWait.is_synchoronized());
}
