//! The wire protocol between nodes: how frames are laid out, how a server
//! decodes an incoming connection, and how a remote node is judged down.
//!
//! A connection opens with one protocol-version byte. Then come frames, each
//! led by a type byte:
//! * user message: `0`, the target pid (u64, big endian), the payload length
//!   (u32, big endian), the payload;
//! * resolve request: `1`, the name length (u32, big endian), the UTF-8 name;
//!   the server answers with the pid (u64, big endian; 0 when not found);
//! * ping: `2`; the server answers with the single byte `3`.
use crate::pid::Pid;
use vstd::prelude::*;
use vstd::utf8::{decode_utf8, encode_utf8, valid_utf8};

verus! {

/// Current binary protocol version. Peers must match or the connection is
/// immediately dropped.
pub const PROTOCOL_VERSION: u8 = 1;

/// How large a single user payload can be before the connection is torn down (1 MiB).
pub const MAX_PAYLOAD_LEN: usize = 1048576;

/// How many bytes a service name may contain when doing a remote resolve.
pub const MAX_NAME_LEN: usize = 1024;

/// The byte a server answers a ping with.
pub const PONG: u8 = 3;

/// Types of frames that can appear on the wire.
#[derive(Debug, Copy, Clone, PartialEq, Eq, Structural)]
pub enum MessageType {
    User,
    Resolve,
    Ping,
}

/// The type byte of each frame type.
pub open spec fn type_code(t: MessageType) -> u8 {
    match t {
        MessageType::User => 0,
        MessageType::Resolve => 1,
        MessageType::Ping => 2,
    }
}

impl MessageType {
    /// The frame type a type byte stands for, if any.
    pub fn from_byte(b: u8) -> (t: Option<MessageType>)
        ensures
            t matches Some(m) ==> type_code(m) == b,
            t is None <==> b > 2,
    {
        match b {
            0 => Some(MessageType::User),
            1 => Some(MessageType::Resolve),
            2 => Some(MessageType::Ping),
            _ => None,
        }
    }

    /// The type byte of this frame type.
    pub fn code(self) -> (b: u8)
        ensures
            b == type_code(self),
    {
        match self {
            MessageType::User => 0,
            MessageType::Resolve => 1,
            MessageType::Ping => 2,
        }
    }
}

/// The big-endian bytes of `x`.
pub open spec fn be_bytes_u64(x: u64) -> Seq<u8> {
    seq![
        (x >> 56u64) as u8,
        (x >> 48u64) as u8,
        (x >> 40u64) as u8,
        (x >> 32u64) as u8,
        (x >> 24u64) as u8,
        (x >> 16u64) as u8,
        (x >> 8u64) as u8,
        x as u8,
    ]
}

/// The big-endian bytes of `x`.
pub open spec fn be_bytes_u32(x: u32) -> Seq<u8> {
    seq![(x >> 24u32) as u8, (x >> 16u32) as u8, (x >> 8u32) as u8, x as u8]
}

/// The number whose big-endian bytes are the first eight of `b`.
pub open spec fn u64_from_be(b: Seq<u8>) -> u64 {
    ((b[0] as u64) << 56u64) | ((b[1] as u64) << 48u64) | ((b[2] as u64) << 40u64) | ((
    b[3] as u64) << 32u64) | ((b[4] as u64) << 24u64) | ((b[5] as u64) << 16u64) | ((b[6] as u64)
        << 8u64) | (b[7] as u64)
}

/// The number whose big-endian bytes are the first four of `b`.
pub open spec fn u32_from_be(b: Seq<u8>) -> u32 {
    ((b[0] as u32) << 24u32) | ((b[1] as u32) << 16u32) | ((b[2] as u32) << 8u32) | (b[3] as u32)
}

/// A user-message frame for `pid` carrying `payload` (the length field holds
/// the payload length truncated to 32 bits).
pub open spec fn user_frame(pid: Pid, payload: Seq<u8>) -> Seq<u8> {
    seq![0u8] + be_bytes_u64(pid) + be_bytes_u32(payload.len() as u32) + payload
}

/// A resolve request for the name with UTF-8 bytes `name`, opening its own connection.
pub open spec fn resolve_request(name: Seq<u8>) -> Seq<u8> {
    seq![PROTOCOL_VERSION, 1u8] + be_bytes_u32(name.len() as u32) + name
}

/// A ping, opening its own connection.
pub open spec fn ping_request() -> Seq<u8> {
    seq![PROTOCOL_VERSION, 2u8]
}

fn push_u64_be(out: &mut Vec<u8>, x: u64)
    ensures
        final(out)@ == old(out)@ + be_bytes_u64(x),
{
    out.push((x >> 56u64) as u8);
    out.push((x >> 48u64) as u8);
    out.push((x >> 40u64) as u8);
    out.push((x >> 32u64) as u8);
    out.push((x >> 24u64) as u8);
    out.push((x >> 16u64) as u8);
    out.push((x >> 8u64) as u8);
    out.push(x as u8);
    assert(out@ =~= old(out)@ + be_bytes_u64(x));
}

fn push_u32_be(out: &mut Vec<u8>, x: u32)
    ensures
        final(out)@ == old(out)@ + be_bytes_u32(x),
{
    out.push((x >> 24u32) as u8);
    out.push((x >> 16u32) as u8);
    out.push((x >> 8u32) as u8);
    out.push(x as u8);
    assert(out@ =~= old(out)@ + be_bytes_u32(x));
}

fn push_all(out: &mut Vec<u8>, bytes: &[u8])
    ensures
        final(out)@ == old(out)@ + bytes@,
{
    let mut i: usize = 0;
    while i < bytes.len()
        invariant
            i <= bytes.len(),
            out@ == old(out)@ + bytes@.take(i as int),
        decreases bytes.len() - i,
    {
        out.push(bytes[i]);
        i = i + 1;
        assert(out@ =~= old(out)@ + bytes@.take(i as int));
    }
    assert(bytes@.take(i as int) =~= bytes@);
}

/// The number held big-endian in the eight bytes of `b` from `at`.
pub fn read_u64_be(b: &[u8], at: usize) -> (x: u64)
    requires
        at + 8 <= b.len(),
    ensures
        x == u64_from_be(b@.subrange(at as int, at + 8)),
{
    ((b[at] as u64) << 56u64) | ((b[at + 1] as u64) << 48u64) | ((b[at + 2] as u64) << 40u64) | ((
    b[at + 3] as u64) << 32u64) | ((b[at + 4] as u64) << 24u64) | ((b[at + 5] as u64) << 16u64)
        | ((b[at + 6] as u64) << 8u64) | (b[at + 7] as u64)
}

/// The number held big-endian in the four bytes of `b` from `at`.
pub fn read_u32_be(b: &[u8], at: usize) -> (x: u32)
    requires
        at + 4 <= b.len(),
    ensures
        x == u32_from_be(b@.subrange(at as int, at + 4)),
{
    ((b[at] as u32) << 24u32) | ((b[at + 1] as u32) << 16u32) | ((b[at + 2] as u32) << 8u32) | (
    b[at + 3] as u32)
}

/// Frame a user payload for `pid`. A payload longer than `max_payload` is
/// refused (`None`), as the receiving side would drop the connection.
pub fn encode_user_frame(pid: Pid, payload: &[u8], max_payload: usize) -> (frame: Option<Vec<u8>>)
    ensures
        frame is None <==> payload@.len() > max_payload,
        frame matches Some(f) ==> f@ == user_frame(pid, payload@),
{
    if payload.len() > max_payload {
        return None;
    }
    let mut out: Vec<u8> = Vec::new();
    out.push(0u8);
    push_u64_be(&mut out, pid);
    push_u32_be(&mut out, payload.len() as u32);
    push_all(&mut out, payload);
    assert(out@ =~= user_frame(pid, payload@));
    Some(out)
}

/// A resolve request for `name`, version byte first. A name whose UTF-8 form
/// is longer than `max_name_len` bytes is refused (`None`).
pub fn encode_resolve_request(name: &str, max_name_len: usize) -> (req: Option<Vec<u8>>)
    ensures
        req is None <==> encode_utf8(name@).len() > max_name_len,
        req matches Some(r) ==> r@ == resolve_request(encode_utf8(name@)),
{
    let bytes = name.as_bytes();
    if bytes.len() > max_name_len {
        return None;
    }
    let mut out: Vec<u8> = Vec::new();
    out.push(PROTOCOL_VERSION);
    out.push(1u8);
    push_u32_be(&mut out, bytes.len() as u32);
    push_all(&mut out, bytes);
    assert(out@ =~= resolve_request(encode_utf8(name@)));
    Some(out)
}

/// A ping, version byte first.
pub fn encode_ping() -> (req: Vec<u8>)
    ensures
        req@ == ping_request(),
{
    let mut out: Vec<u8> = Vec::new();
    out.push(PROTOCOL_VERSION);
    out.push(2u8);
    assert(out@ =~= ping_request());
    out
}

/// The server's answer to a resolve request: the pid, big endian.
pub fn encode_pid_reply(pid: Pid) -> (reply: Vec<u8>)
    ensures
        reply@ == be_bytes_u64(pid),
{
    let mut out: Vec<u8> = Vec::new();
    push_u64_be(&mut out, pid);
    assert(out@ =~= be_bytes_u64(pid));
    out
}

/// What a resolve answer means: pid 0 stands for "not found".
pub fn remote_resolution(reply: &[u8]) -> (pid: Option<Pid>)
    requires
        reply.len() == 8,
    ensures
        pid == (if u64_from_be(reply@) == 0 {
            None
        } else {
            Some(u64_from_be(reply@))
        }),
{
    let p = read_u64_be(reply, 0);
    assert(reply@.subrange(0, 8) =~= reply@);
    if p == 0 {
        None
    } else {
        Some(p)
    }
}

/// Whether a ping answer says the node is up.
pub fn is_pong(reply: u8) -> (up: bool)
    ensures
        up == (reply == PONG),
{
    reply == PONG
}

/// `String::from_utf8`: a string exactly when the bytes are valid UTF-8,
/// holding the characters those bytes encode.
#[verifier::external_body]
fn string_from_utf8(bytes: Vec<u8>) -> (s: Option<String>)
    ensures
        s is Some <==> valid_utf8(bytes@),
        s matches Some(t) ==> t@ == decode_utf8(bytes@),
{
    match String::from_utf8(bytes) {
        Ok(t) => Some(t),
        Err(_) => None,
    }
}

/// Why a server drops a connection.
#[derive(Debug, Clone, Copy, PartialEq, Eq, Structural)]
pub enum ProtocolError {
    VersionMismatch,
    UnknownMessageType,
    PayloadTooLarge,
    NameTooLong,
    InvalidUtf8,
}

/// Where a server is in reading a connection.
#[derive(Debug, Clone, Copy, PartialEq, Eq, Structural)]
pub enum ConnPhase {
    /// Expecting the version byte.
    Version,
    /// Expecting a frame's type byte.
    Header,
    /// Expecting a user frame's pid and length.
    UserMeta,
    /// Expecting a user frame's payload.
    UserData { pid: Pid, len: usize },
    /// Expecting a resolve request's name length.
    NameLen,
    /// Expecting a resolve request's name.
    Name { len: usize },
    /// The connection was dropped.
    Closed,
}

/// How many bytes the server reads next in `phase`.
pub open spec fn bytes_needed_in(phase: ConnPhase) -> usize {
    match phase {
        ConnPhase::Version => 1,
        ConnPhase::Header => 1,
        ConnPhase::UserMeta => 12,
        ConnPhase::UserData { pid, len } => len,
        ConnPhase::NameLen => 4,
        ConnPhase::Name { len } => len,
        ConnPhase::Closed => 0,
    }
}

/// What the server does after a read.
pub enum Reaction {
    /// Read on.
    Continue,
    /// Deliver `payload` to the local actor `pid`.
    Deliver { pid: Pid, payload: Seq<u8> },
    /// Look `name` up and answer with its pid.
    Resolve { name: Seq<char> },
    /// Answer a ping.
    Pong,
    /// Drop the connection.
    Close { error: ProtocolError },
}

/// One step of the server: the phase and reaction after reading `chunk`
/// (of `bytes_needed_in(phase)` bytes) in `phase`, under the current limits.
pub open spec fn conn_step(phase: ConnPhase, chunk: Seq<u8>, max_payload: usize, max_name_len: usize) -> (
    ConnPhase,
    Reaction,
) {
    match phase {
        ConnPhase::Version => if chunk[0] == PROTOCOL_VERSION {
            (ConnPhase::Header, Reaction::Continue)
        } else {
            (ConnPhase::Closed, Reaction::Close { error: ProtocolError::VersionMismatch })
        },
        ConnPhase::Header => if chunk[0] == 0 {
            (ConnPhase::UserMeta, Reaction::Continue)
        } else if chunk[0] == 1 {
            (ConnPhase::NameLen, Reaction::Continue)
        } else if chunk[0] == 2 {
            (ConnPhase::Header, Reaction::Pong)
        } else {
            (ConnPhase::Closed, Reaction::Close { error: ProtocolError::UnknownMessageType })
        },
        ConnPhase::UserMeta => {
            let pid = u64_from_be(chunk.subrange(0, 8));
            let len = u32_from_be(chunk.subrange(8, 12));
            if len > max_payload {
                (ConnPhase::Closed, Reaction::Close { error: ProtocolError::PayloadTooLarge })
            } else {
                (ConnPhase::UserData { pid, len: len as usize }, Reaction::Continue)
            }
        },
        ConnPhase::UserData { pid, len } => (
            ConnPhase::Header,
            Reaction::Deliver { pid, payload: chunk },
        ),
        ConnPhase::NameLen => {
            let len = u32_from_be(chunk);
            if len > max_name_len {
                (ConnPhase::Closed, Reaction::Close { error: ProtocolError::NameTooLong })
            } else {
                (ConnPhase::Name { len: len as usize }, Reaction::Continue)
            }
        },
        ConnPhase::Name { len } => if valid_utf8(chunk) {
            (ConnPhase::Header, Reaction::Resolve { name: decode_utf8(chunk) })
        } else {
            (ConnPhase::Closed, Reaction::Close { error: ProtocolError::InvalidUtf8 })
        },
        ConnPhase::Closed => (ConnPhase::Closed, Reaction::Continue),
    }
}

/// What the server does after a read, with the values it hands over.
pub enum ConnAction {
    Continue,
    Deliver { pid: Pid, payload: Vec<u8> },
    Resolve { name: String },
    Pong,
    Close { error: ProtocolError },
}

impl View for ConnAction {
    type V = Reaction;

    open spec fn view(&self) -> Reaction {
        match self {
            ConnAction::Continue => Reaction::Continue,
            ConnAction::Deliver { pid, payload } => Reaction::Deliver { pid: *pid, payload: payload@ },
            ConnAction::Resolve { name } => Reaction::Resolve { name: name@ },
            ConnAction::Pong => Reaction::Pong,
            ConnAction::Close { error } => Reaction::Close { error: *error },
        }
    }
}

/// The server side of one connection: says how many bytes to read next and
/// what to do with them.
pub struct ConnDecoder {
    phase: ConnPhase,
}

impl View for ConnDecoder {
    type V = ConnPhase;

    closed spec fn view(&self) -> ConnPhase {
        self.phase
    }
}

impl ConnDecoder {
    /// A fresh connection, expecting the version byte.
    pub fn new() -> (d: Self)
        ensures
            d@ == ConnPhase::Version,
    {
        ConnDecoder { phase: ConnPhase::Version }
    }

    /// How many bytes to read next.
    pub fn bytes_needed(&self) -> (n: usize)
        ensures
            n == bytes_needed_in(self@),
    {
        match self.phase {
            ConnPhase::Version => 1,
            ConnPhase::Header => 1,
            ConnPhase::UserMeta => 12,
            ConnPhase::UserData { pid, len } => len,
            ConnPhase::NameLen => 4,
            ConnPhase::Name { len } => len,
            ConnPhase::Closed => 0,
        }
    }

    /// Whether the connection is between frames: running out of input here
    /// ends it cleanly, anywhere else it is an error.
    pub fn between_frames(&self) -> (b: bool)
        ensures
            b == (self@ == ConnPhase::Header),
    {
        match self.phase {
            ConnPhase::Header => true,
            _ => false,
        }
    }

    /// Take in the bytes just read and say what to do.
    pub fn feed(&mut self, chunk: Vec<u8>, max_payload: usize, max_name_len: usize) -> (action:
        ConnAction)
        requires
            chunk@.len() == bytes_needed_in(old(self)@),
        ensures
            (final(self)@, action@) == conn_step(old(self)@, chunk@, max_payload, max_name_len),
    {
        match self.phase {
            ConnPhase::Version => {
                if chunk[0] == PROTOCOL_VERSION {
                    self.phase = ConnPhase::Header;
                    ConnAction::Continue
                } else {
                    self.phase = ConnPhase::Closed;
                    ConnAction::Close { error: ProtocolError::VersionMismatch }
                }
            },
            ConnPhase::Header => {
                match MessageType::from_byte(chunk[0]) {
                    Some(MessageType::User) => {
                        self.phase = ConnPhase::UserMeta;
                        ConnAction::Continue
                    },
                    Some(MessageType::Resolve) => {
                        self.phase = ConnPhase::NameLen;
                        ConnAction::Continue
                    },
                    Some(MessageType::Ping) => ConnAction::Pong,
                    None => {
                        self.phase = ConnPhase::Closed;
                        ConnAction::Close { error: ProtocolError::UnknownMessageType }
                    },
                }
            },
            ConnPhase::UserMeta => {
                let pid = read_u64_be(chunk.as_slice(), 0);
                let len = read_u32_be(chunk.as_slice(), 8);
                if len as usize > max_payload {
                    self.phase = ConnPhase::Closed;
                    ConnAction::Close { error: ProtocolError::PayloadTooLarge }
                } else {
                    self.phase = ConnPhase::UserData { pid, len: len as usize };
                    ConnAction::Continue
                }
            },
            ConnPhase::UserData { pid, len } => {
                self.phase = ConnPhase::Header;
                ConnAction::Deliver { pid, payload: chunk }
            },
            ConnPhase::NameLen => {
                let len = read_u32_be(chunk.as_slice(), 0);
                assert(chunk@.subrange(0, 4) =~= chunk@);
                if len as usize > max_name_len {
                    self.phase = ConnPhase::Closed;
                    ConnAction::Close { error: ProtocolError::NameTooLong }
                } else {
                    self.phase = ConnPhase::Name { len: len as usize };
                    ConnAction::Continue
                }
            },
            ConnPhase::Name { len } => {
                match string_from_utf8(chunk) {
                    Some(name) => {
                        self.phase = ConnPhase::Header;
                        ConnAction::Resolve { name }
                    },
                    None => {
                        self.phase = ConnPhase::Closed;
                        ConnAction::Close { error: ProtocolError::InvalidUtf8 }
                    },
                }
            },
            ConnPhase::Closed => ConnAction::Continue,
        }
    }
}

/// What a remote monitor does after a probe.
#[derive(Debug, Clone, Copy, PartialEq, Eq, Structural)]
pub enum ProbeVerdict {
    /// The node answered: probe again after the base interval.
    Healthy,
    /// The node did not answer: probe again after a longer wait.
    Retry,
    /// Enough probes failed in a row: the node is down.
    Down,
}

/// One probe: the failure count and verdict after a probe that found the
/// node `up` or not, with `failures` failed probes in a row before it.
pub open spec fn probe_step(failures: usize, threshold: usize, up: bool) -> (usize, ProbeVerdict) {
    if up {
        (0, ProbeVerdict::Healthy)
    } else if failures + 1 >= threshold {
        (0, ProbeVerdict::Down)
    } else {
        ((failures + 1) as usize, ProbeVerdict::Retry)
    }
}

/// Counts consecutive failed probes of a remote node against a threshold.
pub struct MonitorState {
    failures: usize,
    threshold: usize,
}

impl MonitorState {
    /// Consecutive failed probes so far.
    pub closed spec fn failures(&self) -> usize {
        self.failures
    }

    /// Failed probes in a row that mean the node is down.
    pub closed spec fn threshold(&self) -> usize {
        self.threshold
    }

    /// The counter never passes the threshold while the monitor runs.
    #[verifier::type_invariant]
    spec fn wf(&self) -> bool {
        self.failures == 0 || self.failures < self.threshold
    }

    /// Start monitoring with the given failure threshold.
    pub fn new(threshold: usize) -> (m: Self)
        ensures
            m.failures() == 0,
            m.threshold() == threshold,
    {
        MonitorState { failures: 0, threshold }
    }

    /// Take in the result of one probe.
    pub fn on_probe(&mut self, up: bool) -> (v: ProbeVerdict)
        ensures
            final(self).threshold() == old(self).threshold(),
            (final(self).failures(), v) == probe_step(old(self).failures(), old(self).threshold(), up),
    {
        proof {
            use_type_invariant(&*self);
        }
        if up {
            self.failures = 0;
            ProbeVerdict::Healthy
        } else {
            let f = self.failures + 1;
            if f >= self.threshold {
                self.failures = 0;
                ProbeVerdict::Down
            } else {
                self.failures = f;
                ProbeVerdict::Retry
            }
        }
    }
}

/// Big-endian bytes of a u64 read back give the same number.
pub proof fn lemma_be_u64_roundtrip(x: u64)
    ensures
        u64_from_be(be_bytes_u64(x)) == x,
{
    let b = be_bytes_u64(x);
    let (b0, b1, b2, b3, b4, b5, b6, b7) = (b[0], b[1], b[2], b[3], b[4], b[5], b[6], b[7]);
    assert(((b0 as u64) << 56u64) | ((b1 as u64) << 48u64) | ((b2 as u64) << 40u64) | ((b3 as u64)
        << 32u64) | ((b4 as u64) << 24u64) | ((b5 as u64) << 16u64) | ((b6 as u64) << 8u64) | (
    b7 as u64) == x) by (bit_vector)
        requires
            b0 == (x >> 56u64) as u8,
            b1 == (x >> 48u64) as u8,
            b2 == (x >> 40u64) as u8,
            b3 == (x >> 32u64) as u8,
            b4 == (x >> 24u64) as u8,
            b5 == (x >> 16u64) as u8,
            b6 == (x >> 8u64) as u8,
            b7 == x as u8,
    ;
}

/// Big-endian bytes of a u32 read back give the same number.
pub proof fn lemma_be_u32_roundtrip(x: u32)
    ensures
        u32_from_be(be_bytes_u32(x)) == x,
{
    let b = be_bytes_u32(x);
    let (b0, b1, b2, b3) = (b[0], b[1], b[2], b[3]);
    assert(((b0 as u32) << 24u32) | ((b1 as u32) << 16u32) | ((b2 as u32) << 8u32) | (b3 as u32)
        == x) by (bit_vector)
        requires
            b0 == (x >> 24u32) as u8,
            b1 == (x >> 16u32) as u8,
            b2 == (x >> 8u32) as u8,
            b3 == x as u8,
    ;
}

/// A user frame within the payload limit, read by a server between frames,
/// delivers its payload to its pid and leaves the server between frames.
pub proof fn lemma_user_frame_delivered(pid: Pid, payload: Seq<u8>, max_payload: usize, max_name_len: usize)
    requires
        payload.len() <= max_payload,
        payload.len() <= u32::MAX,
    ensures
        ({
            let f = user_frame(pid, payload);
            let len = payload.len() as usize;
            &&& f.subrange(0, 1).len() == bytes_needed_in(ConnPhase::Header)
            &&& conn_step(ConnPhase::Header, f.subrange(0, 1), max_payload, max_name_len) == (
                ConnPhase::UserMeta,
                Reaction::Continue,
            )
            &&& f.subrange(1, 13).len() == bytes_needed_in(ConnPhase::UserMeta)
            &&& conn_step(ConnPhase::UserMeta, f.subrange(1, 13), max_payload, max_name_len) == (
                ConnPhase::UserData { pid, len },
                Reaction::Continue,
            )
            &&& f.subrange(13, f.len() as int).len() == bytes_needed_in(ConnPhase::UserData { pid, len })
            &&& conn_step(ConnPhase::UserData { pid, len }, f.subrange(13, f.len() as int), max_payload, max_name_len)
                == (ConnPhase::Header, Reaction::Deliver { pid, payload })
        }),
{
    let f = user_frame(pid, payload);
    lemma_be_u64_roundtrip(pid);
    lemma_be_u32_roundtrip(payload.len() as u32);
    assert(f.subrange(1, 13).subrange(0, 8) =~= be_bytes_u64(pid));
    assert(f.subrange(1, 13).subrange(8, 12) =~= be_bytes_u32(payload.len() as u32));
    assert(f.subrange(13, f.len() as int) =~= payload);
}

/// A user frame over the payload limit makes the server drop the connection
/// once it has read the frame's length, before any payload is delivered.
pub proof fn lemma_oversized_frame_dropped(pid: Pid, payload: Seq<u8>, max_payload: usize, max_name_len: usize)
    requires
        payload.len() > max_payload,
        payload.len() <= u32::MAX,
    ensures
        conn_step(ConnPhase::UserMeta, user_frame(pid, payload).subrange(1, 13), max_payload, max_name_len)
            == (ConnPhase::Closed, Reaction::Close { error: ProtocolError::PayloadTooLarge }),
{
    let f = user_frame(pid, payload);
    lemma_be_u32_roundtrip(payload.len() as u32);
    assert(f.subrange(1, 13).subrange(8, 12) =~= be_bytes_u32(payload.len() as u32));
}

/// A connection that opens with another protocol version is dropped at once.
pub proof fn lemma_version_mismatch_dropped(b: u8, max_payload: usize, max_name_len: usize)
    requires
        b != PROTOCOL_VERSION,
    ensures
        conn_step(ConnPhase::Version, seq![b], max_payload, max_name_len) == (
            ConnPhase::Closed,
            Reaction::Close { error: ProtocolError::VersionMismatch },
        ),
{
}

/// A resolve request for a name within the length limit makes the server look
/// up exactly that name.
pub proof fn lemma_resolve_request_answered(name: Seq<char>, max_payload: usize, max_name_len: usize)
    requires
        encode_utf8(name).len() <= max_name_len,
        encode_utf8(name).len() <= u32::MAX,
    ensures
        ({
            let bytes = encode_utf8(name);
            let r = resolve_request(bytes);
            let len = bytes.len() as usize;
            &&& conn_step(ConnPhase::Version, r.subrange(0, 1), max_payload, max_name_len) == (
                ConnPhase::Header,
                Reaction::Continue,
            )
            &&& conn_step(ConnPhase::Header, r.subrange(1, 2), max_payload, max_name_len) == (
                ConnPhase::NameLen,
                Reaction::Continue,
            )
            &&& r.subrange(2, 6).len() == bytes_needed_in(ConnPhase::NameLen)
            &&& conn_step(ConnPhase::NameLen, r.subrange(2, 6), max_payload, max_name_len) == (
                ConnPhase::Name { len },
                Reaction::Continue,
            )
            &&& r.subrange(6, r.len() as int).len() == bytes_needed_in(ConnPhase::Name { len })
            &&& conn_step(ConnPhase::Name { len }, r.subrange(6, r.len() as int), max_payload, max_name_len)
                == (ConnPhase::Header, Reaction::Resolve { name })
        }),
{
    let bytes = encode_utf8(name);
    let r = resolve_request(bytes);
    lemma_be_u32_roundtrip(bytes.len() as u32);
    assert(r.subrange(2, 6) =~= be_bytes_u32(bytes.len() as u32));
    assert(r.subrange(6, r.len() as int) =~= bytes);
    vstd::utf8::encode_utf8_valid_utf8(name);
    vstd::utf8::encode_utf8_decode_utf8(name);
}

/// A ping makes the server answer `PONG` and stay between frames.
pub proof fn lemma_ping_answered(max_payload: usize, max_name_len: usize)
    ensures
        conn_step(ConnPhase::Version, ping_request().subrange(0, 1), max_payload, max_name_len) == (
            ConnPhase::Header,
            Reaction::Continue,
        ),
        conn_step(ConnPhase::Header, ping_request().subrange(1, 2), max_payload, max_name_len) == (
            ConnPhase::Header,
            Reaction::Pong,
        ),
{
}

/// A node is declared down after exactly `threshold` failed probes in a row
/// (at the first one when the threshold is 0), and any answered probe starts
/// the count again.
pub proof fn lemma_down_after_threshold(threshold: usize, failures: usize)
    ensures
        failures + 1 < threshold ==> probe_step(failures, threshold, false) == (
            (failures + 1) as usize,
            ProbeVerdict::Retry,
        ),
        failures + 1 == threshold ==> probe_step(failures, threshold, false).1 == ProbeVerdict::Down,
        threshold == 0 ==> probe_step(0, threshold, false).1 == ProbeVerdict::Down,
        probe_step(failures, threshold, true) == (0usize, ProbeVerdict::Healthy),
{
}

} // verus!
