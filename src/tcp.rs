//! One TCP connection: its sequence spaces, the acceptance test for incoming
//! segments, the state machine for handshake and close, and the framing of
//! outgoing segments.
use crate::seq::is_between_wrapped;
use crate::seq::seq_add;
use crate::seq::seq_minus;
use crate::seq::seq_plus;
use crate::seq::ring_offset;
use crate::seq::strictly_between;
use vstd::prelude::*;
use vstd::slice::slice_subrange;

verus! {

/// Largest frame handed to the device, headers included.
pub const MAX_FRAME_LEN: usize = 1500;

/// Bytes taken by an IPv4 header and a TCP header, neither with options.
pub const HEADERS_LEN: usize = 40;

/// Length of an IPv4 header without options.
pub const IPV4_HEADER_LEN: usize = 20;

/// Protocol number of TCP in the IPv4 header.
pub const PROTOCOL_TCP: u8 = 6;

/// Time to live of outgoing datagrams.
pub const TIME_TO_LIVE: u8 = 64;

/// Initial send sequence number of every connection.
pub const INITIAL_SEND_SEQUENCE: u32 = 0;

/// Window advertised to the peer.
pub const SEND_WINDOW: u16 = 10;

/// Protocol state of a connection.
#[derive(Clone, Copy, Debug, PartialEq, Eq, Structural)]
pub enum State {
    SynRcvd,
    Estab,
    FinWait1,
    FinWait2,
    TimeWait,
}

impl State {
    /// Every state but `SynRcvd` has completed the handshake.
    pub open spec fn synchronized(self) -> bool {
        self != State::SynRcvd
    }

    pub fn is_synchoronized(&self) -> (r: bool)
        ensures
            r == self.synchronized(),
    {
        match *self {
            State::SynRcvd => false,
            State::Estab | State::FinWait1 | State::FinWait2 | State::TimeWait => true,
        }
    }
}

/// Send sequence space (RFC 793, section 3.2).
#[derive(Clone, Copy, Debug)]
pub struct SendSequenceSpace {
    /// oldest unacknowledged sequence number
    pub una: u32,
    /// next sequence number to send
    pub nxt: u32,
    /// send window
    pub wnd: u16,
    /// send urgent pointer
    pub up: bool,
    /// segment sequence number used for the last window update
    pub wl1: usize,
    /// segment acknowledgment number used for the last window update
    pub wl2: usize,
    /// initial send sequence number
    pub iss: u32,
}

/// Receive sequence space (RFC 793, section 3.2).
#[derive(Clone, Copy, Debug)]
pub struct RecvSequenceSpace {
    /// next sequence number expected
    pub nxt: u32,
    /// receive window
    pub wnd: u16,
    /// receive urgent pointer
    pub up: bool,
    /// initial receive sequence number
    pub irs: u32,
}

/// Addressing of outgoing IPv4 datagrams.
#[derive(Clone, Copy, Debug)]
pub struct IpTemplate {
    pub source: [u8; 4],
    pub destination: [u8; 4],
    pub time_to_live: u8,
    pub protocol: u8,
}

/// Fields of the next outgoing TCP header.
#[derive(Clone, Copy, Debug)]
pub struct TcpTemplate {
    pub source_port: u16,
    pub destination_port: u16,
    pub sequence_number: u32,
    pub acknowledgment_number: u32,
    pub window_size: u16,
    pub syn: bool,
    pub ack: bool,
    pub fin: bool,
    pub rst: bool,
}

/// What the engine reads of an incoming IPv4 datagram carrying TCP.
#[derive(Clone, Copy, Debug)]
pub struct Segment {
    pub source: [u8; 4],
    pub destination: [u8; 4],
    pub source_port: u16,
    pub destination_port: u16,
    pub sequence_number: u32,
    pub acknowledgment_number: u32,
    pub window_size: u16,
    pub syn: bool,
    pub ack: bool,
    pub fin: bool,
    pub rst: bool,
}

/// Big-endian bytes of a 16-bit value.
pub open spec fn be16(v: u16) -> Seq<u8> {
    seq![(v as int / 0x100) as u8, (v as int % 0x100) as u8]
}

/// Big-endian bytes of a 32-bit value.
pub open spec fn be32(v: u32) -> Seq<u8> {
    be16((v as int / 0x1_0000) as u16) + be16((v as int % 0x1_0000) as u16)
}

/// The flags byte of a TCP header.
pub open spec fn flag_byte(t: TcpTemplate) -> u8 {
    ((if t.fin { 1int } else { 0 }) + (if t.syn { 2int } else { 0 }) + (if t.rst { 4int } else { 0 })
        + (if t.ack { 16int } else { 0 })) as u8
}

/// A TCP header without options, in wire order, carrying `checksum`.
pub open spec fn tcp_header_wire(t: TcpTemplate, checksum: u16) -> Seq<u8> {
    be16(t.source_port) + be16(t.destination_port) + be32(t.sequence_number) + be32(
        t.acknowledgment_number,
    ) + seq![0x50u8, flag_byte(t)] + be16(t.window_size) + be16(checksum) + seq![0u8, 0u8]
}

/// The TCP checksum over the IPv4 pseudo-header of `source` and
/// `destination` and over `segment`, the header (checksum field zero)
/// followed by the payload.
pub uninterp spec fn tcp_checksum_of(source: Seq<u8>, destination: Seq<u8>, segment: Seq<u8>) -> u16;

/// An IPv4 header without options, in wire order, with its header checksum.
pub uninterp spec fn ipv4_header_of(
    source: Seq<u8>,
    destination: Seq<u8>,
    time_to_live: u8,
    protocol: u8,
    payload_len: u16,
) -> Seq<u8>;

/// Relies on etherparse's `TcpHeader::write`: a header whose data offset is
/// five (as `TcpHeader::new` leaves it) is written as twenty bytes in
/// network order, with the checksum field as given.
#[verifier::external_body]
fn tcp_header_bytes(t: &TcpTemplate, checksum: u16) -> (r: Vec<u8>)
    ensures
        r@ == tcp_header_wire(*t, checksum),
{
    let mut h = etherparse::TcpHeader::new(t.source_port, t.destination_port, t.sequence_number, t.window_size);
    h.acknowledgment_number = t.acknowledgment_number;
    h.syn = t.syn;
    h.ack = t.ack;
    h.fin = t.fin;
    h.rst = t.rst;
    h.checksum = checksum;
    let mut out: Vec<u8> = Vec::new();
    let _ = h.write(&mut out);
    out
}

/// Relies on etherparse's `TcpHeader::calc_checksum_ipv4_raw`: the checksum
/// depends on the addresses, the header without its checksum field and the
/// payload; it fails only when header and payload exceed 65535 bytes.
#[verifier::external_body]
fn tcp_checksum(source: [u8; 4], destination: [u8; 4], t: &TcpTemplate, payload: &[u8]) -> (r: u16)
    requires
        payload@.len() <= 0xffff - 20,
    ensures
        r == tcp_checksum_of(source@, destination@, tcp_header_wire(*t, 0) + payload@),
{
    let mut h = etherparse::TcpHeader::new(t.source_port, t.destination_port, t.sequence_number, t.window_size);
    h.acknowledgment_number = t.acknowledgment_number;
    h.syn = t.syn;
    h.ack = t.ack;
    h.fin = t.fin;
    h.rst = t.rst;
    h.calc_checksum_ipv4_raw(source, destination, payload).unwrap()
}

/// Relies on etherparse's `Ipv4Header::write`: a header made by
/// `Ipv4Header::new` has no options and is written as twenty bytes with the
/// version and length byte 0x45, the total length, the don't-fragment flag,
/// the time to live, the protocol, the header checksum and the two addresses;
/// it fails only when the payload length passes 65515.
#[verifier::external_body]
fn ipv4_header_bytes(source: [u8; 4], destination: [u8; 4], time_to_live: u8, protocol: u8, payload_len: u16) -> (r: Vec<u8>)
    requires
        payload_len <= 0xffff - 20,
    ensures
        r@ == ipv4_header_of(source@, destination@, time_to_live, protocol, payload_len),
        r@.len() == 20,
        r@.subrange(0, 10) == seq![0x45u8, 0u8] + be16((payload_len + 20) as u16) + seq![0u8, 0u8, 0x40u8, 0u8, time_to_live, protocol],
        r@.subrange(12, 20) == source@ + destination@,
{
    let h = etherparse::Ipv4Header::new(payload_len, time_to_live, protocol, source, destination);
    let mut out: Vec<u8> = Vec::new();
    let _ = h.write(&mut out);
    out
}

impl RecvSequenceSpace {
    /// First sequence number past the receive window.
    pub open spec fn window_end(self) -> u32 {
        seq_add(self.nxt, self.wnd as int)
    }

    /// The acceptance test of RFC 793 for a segment starting at `seqn` that
    /// occupies `slen` sequence numbers.
    pub open spec fn admits(self, seqn: u32, slen: int) -> bool {
        let before = seq_add(self.nxt, -1);
        if slen == 0 {
            if self.wnd == 0 {
                seqn == self.nxt
            } else {
                strictly_between(before as int, seqn as int, self.window_end() as int)
            }
        } else if self.wnd == 0 {
            false
        } else {
            strictly_between(before as int, seqn as int, self.window_end() as int)
                || strictly_between(
                before as int,
                seq_add(seqn, slen - 1) as int,
                self.window_end() as int,
            )
        }
    }

    /// Whether a segment starting at `seqn` and occupying `slen` sequence
    /// numbers falls within the receive window.
    pub fn accepts(&self, seqn: u32, slen: u32) -> (r: bool)
        ensures
            r == self.admits(seqn, slen as int),
    {
        let wend = seq_plus(self.nxt, self.wnd as u32);
        let before = seq_minus(self.nxt, 1);
        assert(wend == self.window_end());
        assert(before == seq_add(self.nxt, -1));
        if slen == 0 {
            if self.wnd == 0 {
                seqn == self.nxt
            } else {
                is_between_wrapped(before, seqn, wend)
            }
        } else if self.wnd == 0 {
            false
        } else {
            let last = seq_plus(seqn, slen - 1);
            assert(last == seq_add(seqn, slen - 1));
            let first_in = is_between_wrapped(before, seqn, wend);
            let last_in = is_between_wrapped(before, last, wend);
            first_in || last_in
        }
    }
}


/// One TCP connection.
#[derive(Clone, Copy, Debug)]
pub struct Connection {
    pub state: State,
    pub send: SendSequenceSpace,
    pub recv: RecvSequenceSpace,
    pub ip: IpTemplate,
    pub tcp: TcpTemplate,
}

/// Payload bytes of a frame that carries `len` requested bytes: as many as
/// fit beside the headers in one frame.
pub open spec fn payload_fit(len: int) -> int {
    if len < MAX_FRAME_LEN - HEADERS_LEN {
        len
    } else {
        MAX_FRAME_LEN - HEADERS_LEN
    }
}

/// The frame that carries header fields `t`, stamped with `seq` and `ack`,
/// and `payload`, from and to the addresses of `ip`.
#[verifier::opaque]
pub open spec fn frame_of(ip: IpTemplate, t: TcpTemplate, payload: Seq<u8>) -> Seq<u8> {
    ipv4_header_of(
        ip.source@,
        ip.destination@,
        ip.time_to_live,
        ip.protocol,
        (20 + payload.len()) as u16,
    ) + tcp_header_wire(
        t,
        tcp_checksum_of(ip.source@, ip.destination@, tcp_header_wire(t, 0) + payload),
    ) + payload
}

/// Header fields `t` stamped with sequence number `seq` and acknowledgment
/// number `ack`.
pub open spec fn stamped(t: TcpTemplate, seq: u32, ack: u32) -> TcpTemplate {
    TcpTemplate { sequence_number: seq, acknowledgment_number: ack, ..t }
}

/// Appends `frame` to the frames of `out`.
fn push_frame(out: &mut Vec<Vec<u8>>, frame: Vec<u8>)
    ensures
        final(out).deep_view() == old(out).deep_view().push(frame@),
{
    let ghost sent = frame@;
    proof {
        assert(frame.deep_view() =~= sent);
    }
    out.push(frame);
    assert(out.deep_view() =~= old(out).deep_view().push(sent));
}

impl Connection {
    /// The frame sent with numbers `seq` and `ack` and `payload`.
    pub open spec fn frame_with(self, seq: u32, ack: u32, payload: Seq<u8>) -> Seq<u8> {
        frame_of(self.ip, stamped(self.tcp, seq, ack), payload)
    }

    /// The connection after a segment stamped with `seq` and `ack` and
    /// carrying `n` payload bytes went out: SYN and FIN each take one
    /// sequence number and are sent once.
    pub open spec fn after_emit(self, seq: u32, ack: u32, n: int) -> Connection {
        let nxt0 = seq_add(self.send.nxt, n);
        let nxt1 = if self.tcp.syn { seq_add(nxt0, 1) } else { nxt0 };
        let nxt2 = if self.tcp.fin { seq_add(nxt1, 1) } else { nxt1 };
        Connection {
            send: SendSequenceSpace { nxt: nxt2, ..self.send },
            tcp: TcpTemplate { syn: false, fin: false, ..stamped(self.tcp, seq, ack) },
            ..self
        }
    }

    /// The frame sent by `write` with an empty payload.
    pub open spec fn control_frame(self) -> Seq<u8> {
        self.frame_with(self.send.nxt, self.recv.nxt, Seq::empty())
    }

    /// The connection after `write` sent an empty payload.
    pub open spec fn after_control(self) -> Connection {
        self.after_emit(self.send.nxt, self.recv.nxt, 0)
    }

    /// Frames one segment stamped with `seq` and `ack` and appends it to `out`.
    fn emit(&mut self, seq: u32, ack: u32, payload: &[u8], out: &mut Vec<Vec<u8>>) -> (n: usize)
        ensures
            n == payload_fit(payload@.len() as int),
            *final(self) == old(self).after_emit(seq, ack, n as int),
            final(out).deep_view() == old(out).deep_view().push(
                old(self).frame_with(seq, ack, payload@.subrange(0, n as int)),
            ),
    {
        reveal(frame_of);
        self.tcp.sequence_number = seq;
        self.tcp.acknowledgment_number = ack;
        let room: usize = MAX_FRAME_LEN - HEADERS_LEN;
        let n: usize = if payload.len() < room { payload.len() } else { room };
        let body = slice_subrange(payload, 0, n);
        let checksum = tcp_checksum(self.ip.source, self.ip.destination, &self.tcp, body);
        let mut frame = ipv4_header_bytes(
            self.ip.source,
            self.ip.destination,
            self.ip.time_to_live,
            self.ip.protocol,
            (IPV4_HEADER_LEN + n) as u16,
        );
        let mut header = tcp_header_bytes(&self.tcp, checksum);
        frame.append(&mut header);
        let mut i: usize = 0;
        while i < n
            invariant
                i <= n,
                n == body@.len(),
                frame@ == ipv4_header_of(
                    self.ip.source@,
                    self.ip.destination@,
                    self.ip.time_to_live,
                    self.ip.protocol,
                    (IPV4_HEADER_LEN + n) as u16,
                ) + tcp_header_wire(self.tcp, checksum) + body@.subrange(0, i as int),
            decreases n - i,
        {
            frame.push(body[i]);
            proof {
                assert(body@.subrange(0, i + 1) == body@.subrange(0, i as int).push(body@[i as int]));
            }
            i = i + 1;
        }
        proof {
            assert(body@.subrange(0, n as int) == body@);
        }
        self.send.nxt = seq_plus(self.send.nxt, n as u32);
        if self.tcp.syn {
            self.send.nxt = seq_plus(self.send.nxt, 1);
            self.tcp.syn = false;
        }
        if self.tcp.fin {
            self.send.nxt = seq_plus(self.send.nxt, 1);
            self.tcp.fin = false;
        }
        push_frame(out, frame);
        n
    }
}


/// The connection that a SYN `seg` opens, before its SYN+ACK is sent.
pub open spec fn opened_by(seg: Segment) -> Connection {
    let iss = INITIAL_SEND_SEQUENCE;
    Connection {
        state: State::SynRcvd,
        send: SendSequenceSpace {
            una: iss,
            nxt: seq_add(iss, 1),
            wnd: SEND_WINDOW,
            up: false,
            wl1: 0,
            wl2: 0,
            iss,
        },
        recv: RecvSequenceSpace {
            nxt: seq_add(seg.sequence_number, 1),
            wnd: seg.window_size,
            up: false,
            irs: seg.sequence_number,
        },
        ip: IpTemplate {
            source: seg.destination,
            destination: seg.source,
            time_to_live: TIME_TO_LIVE,
            protocol: PROTOCOL_TCP,
        },
        tcp: TcpTemplate {
            source_port: seg.destination_port,
            destination_port: seg.source_port,
            sequence_number: iss,
            acknowledgment_number: 0,
            window_size: SEND_WINDOW,
            syn: true,
            ack: true,
            fin: false,
            rst: false,
        },
    }
}

impl Connection {
    /// The connection with the RST flag raised.
    pub open spec fn with_rst(self) -> Connection {
        Connection { tcp: TcpTemplate { rst: true, ..self.tcp }, ..self }
    }

    /// The connection with the FIN flag raised.
    pub open spec fn with_fin(self) -> Connection {
        Connection { tcp: TcpTemplate { fin: true, ..self.tcp }, ..self }
    }

    /// Opens a connection for an incoming SYN and appends its SYN+ACK to
    /// `out`; a segment without SYN opens nothing and sends nothing.
    pub fn accept(seg: &Segment, _data: &[u8], out: &mut Vec<Vec<u8>>) -> (r: Option<Connection>)
        ensures
            !seg.syn ==> r is None && final(out).deep_view() == old(out).deep_view(),
            seg.syn ==> r == Some(opened_by(*seg).after_control()),
            seg.syn ==> final(out).deep_view() == old(out).deep_view().push(
                opened_by(*seg).control_frame(),
            ),
    {
        if !seg.syn {
            None
        } else {
            Some(Self::open(seg, out))
        }
    }

    /// Builds the connection for a SYN and sends its SYN+ACK.
    fn open(seg: &Segment, out: &mut Vec<Vec<u8>>) -> (c: Connection)
        ensures
            c == opened_by(*seg).after_control(),
            final(out).deep_view() == old(out).deep_view().push(opened_by(*seg).control_frame()),
    {
        let iss = INITIAL_SEND_SEQUENCE;
        let wnd = SEND_WINDOW;
        let mut c = Connection {
            state: State::SynRcvd,
            send: SendSequenceSpace {
                una: iss,
                nxt: seq_plus(iss, 1),
                wnd,
                up: false,
                wl1: 0,
                wl2: 0,
                iss,
            },
            recv: RecvSequenceSpace {
                nxt: seq_plus(seg.sequence_number, 1),
                wnd: seg.window_size,
                up: false,
                irs: seg.sequence_number,
            },
            ip: IpTemplate {
                source: seg.destination,
                destination: seg.source,
                time_to_live: TIME_TO_LIVE,
                protocol: PROTOCOL_TCP,
            },
            tcp: TcpTemplate {
                source_port: seg.destination_port,
                destination_port: seg.source_port,
                sequence_number: iss,
                acknowledgment_number: 0,
                window_size: wnd,
                syn: false,
                ack: false,
                fin: false,
                rst: false,
            },
        };
        c.tcp.syn = true;
        c.tcp.ack = true;
        assert(c == opened_by(*seg));
        c.write_control(out);
        c
    }

    /// Sends `payload`, as much of it as fits in one frame, stamped with the
    /// next send sequence number and the next expected receive sequence
    /// number; returns how many payload bytes went out.
    pub fn write(&mut self, payload: &[u8], out: &mut Vec<Vec<u8>>) -> (n: usize)
        ensures
            n == payload_fit(payload@.len() as int),
            *final(self) == old(self).after_emit(old(self).send.nxt, old(self).recv.nxt, n as int),
            final(out).deep_view() == old(out).deep_view().push(
                old(self).frame_with(
                    old(self).send.nxt,
                    old(self).recv.nxt,
                    payload@.subrange(0, n as int),
                ),
            ),
    {
        let seq = self.send.nxt;
        let ack = self.recv.nxt;
        self.emit(seq, ack, payload, out)
    }

    /// Sends a segment without payload, as `write` does.
    fn write_control(&mut self, out: &mut Vec<Vec<u8>>)
        ensures
            *final(self) == old(self).after_control(),
            final(out).deep_view() == old(out).deep_view().push(old(self).control_frame()),
    {
        let empty: [u8; 0] = [];
        self.write(&empty, out);
        proof {
            assert(empty@.subrange(0, 0) =~= Seq::<u8>::empty());
        }
    }

    /// Sends a reset segment whose sequence and acknowledgment numbers are
    /// zero; the RST flag stays raised.
    pub fn send_rst(&mut self, out: &mut Vec<Vec<u8>>)
        ensures
            *final(self) == old(self).with_rst().after_emit(0, 0, 0),
            final(out).deep_view() == old(out).deep_view().push(
                old(self).with_rst().frame_with(0, 0, Seq::empty()),
            ),
    {
        self.tcp.rst = true;
        let empty: [u8; 0] = [];
        self.emit(0, 0, &empty, out);
        proof {
            assert(empty@.subrange(0, 0) =~= Seq::<u8>::empty());
        }
    }
}


/// Why a segment cannot be processed: the connection reached a state that
/// this engine does not handle, and must not be used further.
#[derive(Clone, Copy, Debug, PartialEq, Eq, Structural)]
pub enum Violation {
    /// The segment that opens the connection fully carries payload, while
    /// the engine closes at once.
    DataAtClose,
    /// A FIN arrived in a state other than `FinWait2`.
    UnexpectedFin,
}

/// Sequence numbers occupied by `seg` with `data_len` payload bytes: one
/// each for SYN and FIN.
pub open spec fn seg_len(seg: Segment, data_len: int) -> int {
    data_len + (if seg.fin { 1int } else { 0 }) + (if seg.syn { 1int } else { 0 })
}

/// `Ok` without a violation, else the violation as the error.
pub open spec fn outcome_result(v: Option<Violation>) -> Result<(), Violation> {
    match v {
        Some(e) => Err(e),
        None => Ok(()),
    }
}

impl Connection {
    /// States in which incoming acknowledgments are checked and taken.
    pub open spec fn takes_acks(self) -> bool {
        self.state == State::Estab || self.state == State::FinWait1 || self.state
            == State::FinWait2
    }

    /// `ackn` acknowledges something sent and nothing unsent.
    pub open spec fn acknowledges(self, ackn: u32) -> bool {
        strictly_between(self.send.una as int, ackn as int, seq_add(self.send.nxt, 1) as int)
    }

    /// In `SynRcvd`, an acknowledgment of our SYN completes the handshake.
    pub open spec fn handshake_step(self, ackn: u32) -> Connection {
        if self.state == State::SynRcvd && strictly_between(
            seq_add(self.send.una, -1) as int,
            ackn as int,
            seq_add(self.send.nxt, 1) as int,
        ) {
            Connection { state: State::Estab, ..self }
        } else {
            self
        }
    }

    /// The connection after our FIN went out, in `FinWait1`.
    pub open spec fn after_fin(self) -> Connection {
        Connection { state: State::FinWait1, ..self.with_fin().after_control() }
    }

    /// The effect of an incoming segment `seg` with `data_len` payload bytes:
    /// the connection after it, the frames sent in order, and the violation
    /// that stopped processing, if any.
    pub open spec fn on_segment(self, seg: Segment, data_len: int) -> (
        Connection,
        Seq<Seq<u8>>,
        Option<Violation>,
    ) {
        let slen = seg_len(seg, data_len);
        let ackn = seg.acknowledgment_number;
        if !self.recv.admits(seg.sequence_number, slen) {
            (self, seq![], None)
        } else {
            let c = self.received(seg.sequence_number, slen).handshake_step(ackn);
            if c.takes_acks() && !c.acknowledges(ackn) {
                (c, seq![], None)
            } else {
                c.took_ack(ackn).close_stage(seg, data_len)
            }
        }
    }

    /// `recv.nxt` moved past a segment at `seqn` occupying `slen` numbers;
    /// a segment that only overlaps the window still moves it past its end.
    pub open spec fn received(self, seqn: u32, slen: int) -> Connection {
        Connection { recv: RecvSequenceSpace { nxt: seq_add(seqn, slen), ..self.recv }, ..self }
    }

    /// `send.una` moved to a valid `ackn`, in the states that take acknowledgments.
    pub open spec fn took_ack(self, ackn: u32) -> Connection {
        if self.takes_acks() {
            Connection { send: SendSequenceSpace { una: ackn, ..self.send }, ..self }
        } else {
            self
        }
    }

    /// An established connection starts to close at once.
    pub open spec fn close_stage(self, seg: Segment, data_len: int) -> (
        Connection,
        Seq<Seq<u8>>,
        Option<Violation>,
    ) {
        if self.state == State::Estab && data_len != 0 {
            (self, seq![], Some(Violation::DataAtClose))
        } else if self.state == State::Estab {
            let (c, frames, v) = self.after_fin().fin_stage(seg);
            (c, seq![self.with_fin().control_frame()] + frames, v)
        } else {
            self.fin_stage(seg)
        }
    }

    /// `FinWait1` moves on once our SYN and FIN are both acknowledged.
    pub open spec fn fin_acked_step(self) -> Connection {
        if self.state == State::FinWait1 && self.send.una == seq_add(self.send.iss, 2) {
            Connection { state: State::FinWait2, ..self }
        } else {
            self
        }
    }

    /// The peer's FIN is answered in `FinWait2`. The connection then goes
    /// back to `FinWait1`, not on to `TimeWait`: this is kept as the engine
    /// has always behaved, and `TimeWait` is never reached.
    pub open spec fn fin_stage(self, seg: Segment) -> (
        Connection,
        Seq<Seq<u8>>,
        Option<Violation>,
    ) {
        let c = self.fin_acked_step();
        if !seg.fin {
            (c, seq![], None)
        } else if c.state == State::FinWait2 {
            (c.after_fin(), seq![c.with_fin().control_frame()], None)
        } else {
            (c, seq![], Some(Violation::UnexpectedFin))
        }
    }

    /// Processes an incoming segment `seg` with payload `data`: drops it when
    /// it falls outside the receive window or acknowledges nothing valid,
    /// else advances the sequence spaces and the state machine, appending
    /// the frames to send to `out`.
    pub fn on_packet(&mut self, seg: &Segment, data: &[u8], out: &mut Vec<Vec<u8>>) -> (r: Result<
        (),
        Violation,
    >)
        requires
            data@.len() <= 0xffff,
        ensures
            *final(self) == old(self).on_segment(*seg, data@.len() as int).0,
            final(out).deep_view() == old(out).deep_view() + old(self).on_segment(
                *seg,
                data@.len() as int,
            ).1,
            r == outcome_result(old(self).on_segment(*seg, data@.len() as int).2),
    {
        let ghost start = out.deep_view();
        let ghost c0 = *self;
        let ghost n = data@.len() as int;
        let seqn = seg.sequence_number;
        let mut slen: u32 = data.len() as u32;
        if seg.fin {
            slen = slen + 1;
        }
        if seg.syn {
            slen = slen + 1;
        }
        assert(slen as int == seg_len(*seg, n));
        if !self.recv.accepts(seqn, slen) {
            assert(out.deep_view() =~= start + seq![]);
            return Ok(());
        }
        self.recv.nxt = seq_plus(seqn, slen);
        assert(*self == c0.received(seqn, slen as int));
        let ackn = seg.acknowledgment_number;
        let ghost c1 = *self;
        if let State::SynRcvd = self.state {
            let lo = seq_minus(self.send.una, 1);
            let hi = seq_plus(self.send.nxt, 1);
            assert(lo == seq_add(self.send.una, -1));
            if is_between_wrapped(lo, ackn, hi) {
                self.state = State::Estab;
            }
        }
        assert(*self == c1.handshake_step(ackn));
        let ghost c2 = *self;
        let takes_acks = match self.state {
            State::Estab | State::FinWait1 | State::FinWait2 => true,
            _ => false,
        };
        assert(takes_acks == c2.takes_acks());
        if takes_acks {
            if !is_between_wrapped(self.send.una, ackn, seq_plus(self.send.nxt, 1)) {
                assert(out.deep_view() =~= start + seq![]);
                return Ok(());
            }
            self.send.una = ackn;
        }
        assert(*self == c2.took_ack(ackn));
        self.close_phase(seg, data.len(), out)
    }

    /// The part of `on_packet` after the acknowledgment was taken.
    fn close_phase(&mut self, seg: &Segment, data_len: usize, out: &mut Vec<Vec<u8>>) -> (r: Result<
        (),
        Violation,
    >)
        ensures
            *final(self) == old(self).close_stage(*seg, data_len as int).0,
            final(out).deep_view() == old(out).deep_view() + old(self).close_stage(
                *seg,
                data_len as int,
            ).1,
            r == outcome_result(old(self).close_stage(*seg, data_len as int).2),
    {
        let ghost start = out.deep_view();
        let ghost c3 = *self;
        if let State::Estab = self.state {
            if data_len != 0 {
                assert(out.deep_view() =~= start + seq![]);
                return Err(Violation::DataAtClose);
            }
            self.tcp.fin = true;
            self.write_control(out);
            self.state = State::FinWait1;
            assert(*self == c3.after_fin());
            let r = self.fin_phase(seg, out);
            assert(out.deep_view() =~= start + (seq![c3.with_fin().control_frame()]
                + c3.after_fin().fin_stage(*seg).1));
            r
        } else {
            self.fin_phase(seg, out)
        }
    }

    /// The part of `on_packet` that follows the close: our FIN acknowledged,
    /// the peer's FIN answered.
    fn fin_phase(&mut self, seg: &Segment, out: &mut Vec<Vec<u8>>) -> (r: Result<(), Violation>)
        ensures
            *final(self) == old(self).fin_stage(*seg).0,
            final(out).deep_view() == old(out).deep_view() + old(self).fin_stage(*seg).1,
            r == outcome_result(old(self).fin_stage(*seg).2),
    {
        let ghost start = out.deep_view();
        let ghost c4 = *self;
        if let State::FinWait1 = self.state {
            if self.send.una == seq_plus(self.send.iss, 2) {
                self.state = State::FinWait2;
            }
        }
        assert(*self == c4.fin_acked_step());
        if seg.fin {
            match self.state {
                State::FinWait2 => {
                    let ghost c5 = *self;
                    self.tcp.fin = true;
                    self.write_control(out);
                    self.state = State::FinWait1;
                    assert(*self == c5.after_fin());
                    assert(out.deep_view() =~= start + seq![c5.with_fin().control_frame()]);
                    Ok(())
                },
                _ => {
                    assert(out.deep_view() =~= start + seq![]);
                    Err(Violation::UnexpectedFin)
                },
            }
        } else {
            assert(out.deep_view() =~= start + seq![]);
            Ok(())
        }
    }
}


/// A segment that occupies no sequence numbers and starts exactly at
/// `recv.nxt` passes the acceptance test, and processing it leaves the
/// receive sequence space as it was, so the same segment delivered again
/// passes the test again.
pub proof fn lemma_pure_ack_accepted_again(c: Connection, seg: Segment)
    requires
        !seg.syn,
        !seg.fin,
        seg.sequence_number == c.recv.nxt,
    ensures
        c.recv.admits(seg.sequence_number, seg_len(seg, 0)),
        c.on_segment(seg, 0).0.recv == c.recv,
        c.on_segment(seg, 0).0.recv.admits(seg.sequence_number, seg_len(seg, 0)),
{
    lemma_admits_at_nxt(c.recv);
    lemma_add_zero(c.recv.nxt);
    assert(seg_len(seg, 0) == 0);
}

proof fn lemma_add_zero(a: u32)
    ensures
        seq_add(a, 0) == a,
{
    reveal(seq_add);
}

proof fn lemma_admits_at_nxt(r: RecvSequenceSpace)
    ensures
        r.admits(r.nxt, 0),
{
    reveal(seq_add);
    reveal(strictly_between);
    let n = r.nxt as int;
    let before = seq_add(r.nxt, -1) as int;
    let wend = r.window_end() as int;
    if r.wnd != 0 {
        if n == 0 {
            assert(before == 0xffff_ffff);
            assert(wend == r.wnd);
        } else {
            assert(before == n - 1);
        }
        assert(ring_offset(before, n) == 1);
        assert(ring_offset(before, wend) == r.wnd + 1);
    }
}

/// With a zero receive window, a segment that occupies sequence numbers is
/// dropped whatever its sequence number: the connection stays as it was and
/// nothing is sent.
pub proof fn lemma_zero_window_drops_payload(c: Connection, seg: Segment, data_len: int)
    requires
        c.recv.wnd == 0,
        data_len >= 0,
        seg_len(seg, data_len) > 0,
    ensures
        !c.recv.admits(seg.sequence_number, seg_len(seg, data_len)),
        c.on_segment(seg, data_len) == (c, Seq::<Seq<u8>>::empty(), None::<Violation>),
{
}

/// Processing a segment never changes the initial send and receive
/// sequence numbers.
pub proof fn lemma_initial_numbers_fixed(c: Connection, seg: Segment, data_len: int)
    ensures
        c.on_segment(seg, data_len).0.send.iss == c.send.iss,
        c.on_segment(seg, data_len).0.recv.irs == c.recv.irs,
{
}

} // verus!
