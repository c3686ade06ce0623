//! The frames exchanged on the carrier, their byte layout, and the codecs that
//! write and read them.
//!
//! Every frame starts with a one-byte opcode; integers are big-endian and a
//! connection id is its 16 bytes in network order:
//!
//! | op | frame            | body                                           |
//! |----|------------------|------------------------------------------------|
//! | 1  | AddPorts         | `u16 n`, `n × u16`                             |
//! | 2  | HostConnect      | `u16 host_len`, `u128 id`, `u16 port`, host    |
//! | 3  | BytesClient      | `u128 id`, `u32 len`, `len` bytes              |
//! | 4  | BytesHost        | `u128 id`, `u32 len`, `len` bytes              |
//! | 5  | Connected        | `u128 id`                                      |
//! | 6  | DisconnectHost   | `u128 id`                                      |
//! | 7  | DisconnectClient | `u128 id`                                      |
//! | 8  | ConnectFailure   | `u128 id`                                      |

use crate::buffer::{buffer_advance, buffer_bytes, buffer_extend, buffer_slice, utf8_text};
use crate::endian::{
    be_bytes, be_value, lemma_be_bytes_injective, lemma_be_bytes_len, lemma_be_bytes_of_value,
    lemma_be_value_bound, lemma_be_value_of_bytes, lemma_radix_values, push_be, read_be,
};
use bytes::BytesMut;
use vstd::prelude::*;
use vstd::slice::{slice_subrange, slice_to_vec};
use vstd::utf8::{
    decode_utf8, decode_utf8_encode_utf8, encode_scalar, encode_utf8, encode_utf8_decode_utf8,
    encode_utf8_valid_utf8, valid_utf8,
};

verus! {

/// A frame of the carrier protocol.
#[derive(Debug, Clone, PartialEq, Eq)]
pub enum TcpWarpMessage {
    /// The ports the server advertises; its first frame on every carrier.
    AddPorts(Vec<u16>),
    /// Asks the server to dial `host` (or its default address) on `port`.
    HostConnect { connection_id: u128, host: Option<String>, port: u16 },
    /// Bytes that a client-side user sent on a logical connection.
    BytesClient { connection_id: u128, data: Vec<u8> },
    /// Bytes that a server-side target sent on a logical connection.
    BytesHost { connection_id: u128, data: Vec<u8> },
    /// The server reached the target of a logical connection.
    Connected { connection_id: u128 },
    /// The target side of a logical connection closed.
    DisconnectHost { connection_id: u128 },
    /// The user side of a logical connection closed.
    DisconnectClient { connection_id: u128 },
    /// The server could not reach the target of a logical connection.
    ConnectFailure { connection_id: u128 },
}

/// The mathematical value of a frame.
pub enum Frame {
    AddPorts(Seq<u16>),
    HostConnect { connection_id: u128, host: Option<Seq<char>>, port: u16 },
    BytesClient { connection_id: u128, data: Seq<u8> },
    BytesHost { connection_id: u128, data: Seq<u8> },
    Connected { connection_id: u128 },
    DisconnectHost { connection_id: u128 },
    DisconnectClient { connection_id: u128 },
    ConnectFailure { connection_id: u128 },
}

impl View for TcpWarpMessage {
    type V = Frame;

    open spec fn view(&self) -> Frame {
        match self {
            TcpWarpMessage::AddPorts(p) => Frame::AddPorts(p@),
            TcpWarpMessage::HostConnect { connection_id, host, port } => Frame::HostConnect {
                connection_id: *connection_id,
                host: match host {
                    Some(h) => Some(h@),
                    None => None,
                },
                port: *port,
            },
            TcpWarpMessage::BytesClient { connection_id, data } => Frame::BytesClient {
                connection_id: *connection_id,
                data: data@,
            },
            TcpWarpMessage::BytesHost { connection_id, data } => Frame::BytesHost {
                connection_id: *connection_id,
                data: data@,
            },
            TcpWarpMessage::Connected { connection_id } => Frame::Connected {
                connection_id: *connection_id,
            },
            TcpWarpMessage::DisconnectHost { connection_id } => Frame::DisconnectHost {
                connection_id: *connection_id,
            },
            TcpWarpMessage::DisconnectClient { connection_id } => Frame::DisconnectClient {
                connection_id: *connection_id,
            },
            TcpWarpMessage::ConnectFailure { connection_id } => Frame::ConnectFailure {
                connection_id: *connection_id,
            },
        }
    }
}

/// Why the carrier codec refused bytes or a frame.
#[derive(Debug, Clone, Copy, PartialEq, Eq)]
pub enum ProtoError {
    /// The first byte of the buffer is no opcode.
    UnknownOpcode(u8),
    /// A complete `HostConnect` frame whose host bytes are not UTF-8.
    InvalidHost,
    /// A frame whose count or length does not fit its length field.
    FrameTooLarge,
}

/// The bytes of a host field: its UTF-8 encoding, or nothing.
pub open spec fn host_bytes(host: Option<Seq<char>>) -> Seq<u8> {
    match host {
        Some(h) => encode_utf8(h),
        None => Seq::empty(),
    }
}

/// The ports of an `AddPorts` frame, two bytes each.
pub open spec fn ports_bytes(p: Seq<u16>) -> Seq<u8>
    decreases p.len(),
{
    if p.len() == 0 {
        Seq::empty()
    } else {
        ports_bytes(p.drop_last()) + be_bytes(p.last() as nat, 2)
    }
}

/// The 16 bytes of a connection id.
pub open spec fn id_bytes(id: u128) -> Seq<u8> {
    be_bytes(id as nat, 16)
}

impl Frame {
    /// The bytes that stand for the frame on the carrier.
    pub open spec fn encode(self) -> Seq<u8> {
        match self {
            Frame::AddPorts(p) => seq![1u8] + be_bytes(p.len(), 2) + ports_bytes(p),
            Frame::HostConnect { connection_id, host, port } => seq![2u8] + be_bytes(
                host_bytes(host).len(),
                2,
            ) + id_bytes(connection_id) + be_bytes(port as nat, 2) + host_bytes(host),
            Frame::BytesClient { connection_id, data } => seq![3u8] + id_bytes(connection_id)
                + be_bytes(data.len(), 4) + data,
            Frame::BytesHost { connection_id, data } => seq![4u8] + id_bytes(connection_id)
                + be_bytes(data.len(), 4) + data,
            Frame::Connected { connection_id } => seq![5u8] + id_bytes(connection_id),
            Frame::DisconnectHost { connection_id } => seq![6u8] + id_bytes(connection_id),
            Frame::DisconnectClient { connection_id } => seq![7u8] + id_bytes(connection_id),
            Frame::ConnectFailure { connection_id } => seq![8u8] + id_bytes(connection_id),
        }
    }

    /// Every count and length of the frame fits its length field.
    pub open spec fn fits(self) -> bool {
        match self {
            Frame::AddPorts(p) => p.len() <= 0xffff,
            Frame::HostConnect { host, .. } => host_bytes(host).len() <= 0xffff,
            Frame::BytesClient { data, .. } => data.len() <= 0xffff_ffff,
            Frame::BytesHost { data, .. } => data.len() <= 0xffff_ffff,
            _ => true,
        }
    }

    /// The frame is the one that decoding yields: an empty host is written
    /// as no host.
    pub open spec fn is_canonical(self) -> bool {
        match self {
            Frame::HostConnect { host: Some(h), .. } => h.len() > 0,
            _ => true,
        }
    }

    /// The logical connection the frame belongs to (none for `AddPorts`).
    pub open spec fn connection_id(self) -> u128 {
        match self {
            Frame::AddPorts(_) => 0,
            Frame::HostConnect { connection_id, .. } => connection_id,
            Frame::BytesClient { connection_id, .. } => connection_id,
            Frame::BytesHost { connection_id, .. } => connection_id,
            Frame::Connected { connection_id } => connection_id,
            Frame::DisconnectHost { connection_id } => connection_id,
            Frame::DisconnectClient { connection_id } => connection_id,
            Frame::ConnectFailure { connection_id } => connection_id,
        }
    }
}

/// The byte is the opcode of some frame.
pub open spec fn is_opcode(b: u8) -> bool {
    1 <= b <= 8
}

/// The length of the frame at the head of `s`, once its header is there.
pub open spec fn frame_len(s: Seq<u8>) -> Option<nat> {
    if s.len() == 0 {
        None
    } else if s[0] == 1 && s.len() >= 3 {
        Some(3 + 2 * be_value(s.subrange(1, 3)))
    } else if s[0] == 2 && s.len() >= 3 {
        Some(21 + be_value(s.subrange(1, 3)))
    } else if (s[0] == 3 || s[0] == 4) && s.len() >= 21 {
        Some(21 + be_value(s.subrange(17, 21)))
    } else if 5 <= s[0] <= 8 {
        Some(17)
    } else {
        None
    }
}

/// `s` starts with a whole frame.
pub open spec fn frame_complete(s: Seq<u8>) -> bool {
    match frame_len(s) {
        Some(n) => n <= s.len(),
        None => false,
    }
}

/// The frame at the head of `s` is no `HostConnect`, or its host bytes are
/// UTF-8.
pub open spec fn host_is_valid(s: Seq<u8>) -> bool {
    s[0] == 2 ==> valid_utf8(s.subrange(21, 21 + be_value(s.subrange(1, 3)) as int))
}

/// `s` holds the start of a frame but not all of it (or nothing at all).
pub open spec fn needs_more(s: Seq<u8>) -> bool {
    (s.len() == 0 || is_opcode(s[0])) && !frame_complete(s)
}

/// `s` starts with the whole frame `m`, and `t` is what follows it.
pub open spec fn decodes_to(s: Seq<u8>, m: Frame, t: Seq<u8>) -> bool {
    &&& frame_complete(s)
    &&& host_is_valid(s)
    &&& m.is_canonical()
    &&& m.fits()
    &&& s == m.encode() + t
}

proof fn lemma_ports_bytes_push(p: Seq<u16>, x: u16)
    ensures
        ports_bytes(p.push(x)) == ports_bytes(p) + be_bytes(x as nat, 2),
{
    assert(p.push(x).drop_last() =~= p);
}

proof fn lemma_ports_bytes_len(p: Seq<u16>)
    ensures
        ports_bytes(p).len() == 2 * p.len(),
    decreases p.len(),
{
    if p.len() > 0 {
        lemma_ports_bytes_len(p.drop_last());
        lemma_be_bytes_len(p.last() as nat, 2);
    }
}

proof fn lemma_ports_bytes_injective(p: Seq<u16>, q: Seq<u16>)
    requires
        p.len() == q.len(),
        ports_bytes(p) == ports_bytes(q),
    ensures
        p == q,
    decreases p.len(),
{
    if p.len() > 0 {
        let (a, b) = (p.drop_last(), q.drop_last());
        lemma_ports_bytes_len(a);
        lemma_ports_bytes_len(b);
        lemma_be_bytes_len(p.last() as nat, 2);
        lemma_be_bytes_len(q.last() as nat, 2);
        let n = 2 * a.len();
        assert(ports_bytes(a) =~= ports_bytes(p).subrange(0, n as int));
        assert(ports_bytes(b) =~= ports_bytes(q).subrange(0, n as int));
        assert(be_bytes(p.last() as nat, 2) =~= ports_bytes(p).subrange(n as int, n + 2int));
        assert(be_bytes(q.last() as nat, 2) =~= ports_bytes(q).subrange(n as int, n + 2int));
        lemma_ports_bytes_injective(a, b);
        lemma_radix_values();
        lemma_be_bytes_injective(p.last() as nat, q.last() as nat, 2);
        assert(p =~= a.push(p.last()));
        assert(q =~= b.push(q.last()));
    }
}

/// The lengths of the fields of an encoded frame.
proof fn lemma_encode_lengths(m: Frame)
    ensures
        m matches Frame::AddPorts(p) ==> ports_bytes(p).len() == 2 * p.len(),
        forall|x: nat| #[trigger] be_bytes(x, 2).len() == 2,
        forall|x: nat| #[trigger] be_bytes(x, 4).len() == 4,
        forall|x: nat| #[trigger] be_bytes(x, 16).len() == 16,
{
    if let Frame::AddPorts(p) = m {
        lemma_ports_bytes_len(p);
    }
    assert forall|x: nat| #[trigger] be_bytes(x, 2).len() == 2 by {
        lemma_be_bytes_len(x, 2);
    }
    assert forall|x: nat| #[trigger] be_bytes(x, 4).len() == 4 by {
        lemma_be_bytes_len(x, 4);
    }
    assert forall|x: nat| #[trigger] be_bytes(x, 16).len() == 16 by {
        lemma_be_bytes_len(x, 16);
    }
}

/// The header of an encoded frame tells its length, and the frame is
/// complete; its host field, if any, is UTF-8.
pub proof fn lemma_encoded_frame_complete(m: Frame, rest: Seq<u8>)
    requires
        m.fits(),
    ensures
        frame_complete(m.encode() + rest),
        frame_len(m.encode() + rest) == Some(m.encode().len()),
        host_is_valid(m.encode() + rest),
        is_opcode((m.encode() + rest)[0]),
{
    lemma_encode_lengths(m);
    lemma_radix_values();
    let e = m.encode();
    let s = e + rest;
    match m {
        Frame::AddPorts(p) => {
            assert(s.subrange(1, 3) =~= be_bytes(p.len(), 2));
            lemma_be_value_of_bytes(p.len(), 2);
        },
        Frame::HostConnect { connection_id, host, port } => {
            let h = host_bytes(host);
            assert(s.subrange(1, 3) =~= be_bytes(h.len(), 2));
            lemma_be_value_of_bytes(h.len(), 2);
            assert(s.subrange(21, 21 + h.len() as int) =~= h);
            if let Some(c) = host {
                encode_utf8_valid_utf8(c);
            } else {
                assert(valid_utf8(Seq::<u8>::empty()));
            }
        },
        Frame::BytesClient { connection_id, data } => {
            assert(s.subrange(17, 21) =~= be_bytes(data.len(), 4));
            lemma_be_value_of_bytes(data.len(), 4);
        },
        Frame::BytesHost { connection_id, data } => {
            assert(s.subrange(17, 21) =~= be_bytes(data.len(), 4));
            lemma_be_value_of_bytes(data.len(), 4);
        },
        _ => {},
    }
}

/// Two frames that fit and are canonical have the same bytes only when they
/// are the same frame.
pub proof fn lemma_encode_injective(m1: Frame, m2: Frame, r1: Seq<u8>, r2: Seq<u8>)
    requires
        m1.fits(),
        m2.fits(),
        m1.is_canonical(),
        m2.is_canonical(),
        m1.encode() + r1 == m2.encode() + r2,
    ensures
        m1 == m2,
        r1 == r2,
{
    let s = m1.encode() + r1;
    lemma_encoded_frame_complete(m1, r1);
    lemma_encoded_frame_complete(m2, r2);
    lemma_encode_lengths(m1);
    lemma_encode_lengths(m2);
    lemma_radix_values();
    let n = m1.encode().len();
    assert(m1.encode() =~= s.subrange(0, n as int));
    assert(m2.encode() =~= s.subrange(0, n as int));
    assert(r1 =~= s.skip(n as int));
    assert(r2 =~= s.skip(n as int));
    let e = m1.encode();
    assert(e[0] == m2.encode()[0]);
    match m1 {
        Frame::AddPorts(p) => {
            if let Frame::AddPorts(q) = m2 {
                lemma_ports_bytes_len(q);
                assert(ports_bytes(p) =~= e.skip(3));
                assert(ports_bytes(q) =~= e.skip(3));
                lemma_ports_bytes_injective(p, q);
            }
        },
        Frame::HostConnect { connection_id: c1, host: h1, port: port_a } => {
            if let Frame::HostConnect { connection_id: c2, host: h2, port: port_b } = m2 {
                assert(id_bytes(c1) =~= e.subrange(3, 19));
                assert(id_bytes(c2) =~= e.subrange(3, 19));
                assert(be_bytes(port_a as nat, 2) =~= e.subrange(19, 21));
                assert(be_bytes(port_b as nat, 2) =~= e.subrange(19, 21));
                assert(host_bytes(h1) =~= e.skip(21));
                assert(host_bytes(h2) =~= e.skip(21));
                lemma_be_bytes_injective(c1 as nat, c2 as nat, 16);
                lemma_be_bytes_injective(port_a as nat, port_b as nat, 2);
                match (h1, h2) {
                    (Some(a), Some(b)) => {
                        encode_utf8_decode_utf8(a);
                        encode_utf8_decode_utf8(b);
                    },
                    (Some(a), None) => {
                        assert(encode_utf8(a).len() > 0) by {
                            assert(encode_utf8(a) == encode_scalar(a[0] as u32) + encode_utf8(
                                a.drop_first(),
                            ));
                        }
                    },
                    (None, Some(b)) => {
                        assert(encode_utf8(b).len() > 0) by {
                            assert(encode_utf8(b) == encode_scalar(b[0] as u32) + encode_utf8(
                                b.drop_first(),
                            ));
                        }
                    },
                    (None, None) => {},
                }
            }
        },
        Frame::BytesClient { connection_id: c1, data: d1 } => {
            if let Frame::BytesClient { connection_id: c2, data: d2 } = m2 {
                assert(id_bytes(c1) =~= e.subrange(1, 17));
                assert(id_bytes(c2) =~= e.subrange(1, 17));
                lemma_be_bytes_injective(c1 as nat, c2 as nat, 16);
                assert(d1 =~= e.skip(21));
                assert(d2 =~= e.skip(21));
            }
        },
        Frame::BytesHost { connection_id: c1, data: d1 } => {
            if let Frame::BytesHost { connection_id: c2, data: d2 } = m2 {
                assert(id_bytes(c1) =~= e.subrange(1, 17));
                assert(id_bytes(c2) =~= e.subrange(1, 17));
                lemma_be_bytes_injective(c1 as nat, c2 as nat, 16);
                assert(d1 =~= e.skip(21));
                assert(d2 =~= e.skip(21));
            }
        },
        _ => {
            assert(e.subrange(1, 17) =~= id_bytes(m1.connection_id()));
            assert(m2.encode().subrange(1, 17) =~= id_bytes(m2.connection_id()));
            lemma_be_bytes_injective(m1.connection_id() as nat, m2.connection_id() as nat, 16);
        },
    }
}

proof fn lemma_ports_prefix(ports: Seq<u16>, i: int)
    requires
        0 <= i < ports.len(),
    ensures
        ports_bytes(ports.take(i + 1)) == ports_bytes(ports.take(i)) + be_bytes(
            ports[i] as nat,
            2,
        ),
{
    assert(ports.take(i + 1) =~= ports.take(i).push(ports[i]));
    lemma_ports_bytes_push(ports.take(i), ports[i]);
}

/// Appends all of `b` to `out`.
fn append_bytes(out: &mut Vec<u8>, b: &[u8])
    ensures
        final(out)@ == old(out)@ + b@,
{
    let mut tail = slice_to_vec(b);
    out.append(&mut tail);
}

impl TcpWarpMessage {
    /// Every count and length of the frame fits its length field.
    pub fn fits(&self) -> (r: bool)
        ensures
            r == self@.fits(),
    {
        match self {
            TcpWarpMessage::AddPorts(ports) => ports.len() <= 0xffff,
            TcpWarpMessage::HostConnect { host, .. } => match host {
                Some(h) => h.as_str().as_bytes().len() <= 0xffff,
                None => true,
            },
            TcpWarpMessage::BytesClient { data, .. } => data.len() as u128 <= 0xffff_ffff,
            TcpWarpMessage::BytesHost { data, .. } => data.len() as u128 <= 0xffff_ffff,
            _ => true,
        }
    }

    /// The bytes that stand for the frame on the carrier.
    pub fn to_bytes(&self) -> (r: Vec<u8>)
        requires
            self@.fits(),
        ensures
            r@ == self@.encode(),
    {
        let mut out: Vec<u8> = Vec::new();
        match self {
            TcpWarpMessage::AddPorts(ports) => {
                out.push(1);
                push_be(&mut out, ports.len() as u128, 2);
                let mut i: usize = 0;
                while i < ports.len()
                    invariant
                        i <= ports@.len(),
                        out@ == seq![1u8] + be_bytes(ports@.len(), 2) + ports_bytes(
                            ports@.take(i as int),
                        ),
                    decreases ports@.len() - i,
                {
                    proof {
                        lemma_ports_prefix(ports@, i as int);
                    }
                    push_be(&mut out, ports[i] as u128, 2);
                    i = i + 1;
                }
                assert(ports@.take(ports@.len() as int) =~= ports@);
            },
            TcpWarpMessage::HostConnect { connection_id, host, port } => {
                out.push(2);
                match host {
                    Some(h) => {
                        let b = h.as_str().as_bytes();
                        push_be(&mut out, b.len() as u128, 2);
                        push_be(&mut out, *connection_id, 16);
                        push_be(&mut out, *port as u128, 2);
                        append_bytes(&mut out, b);
                    },
                    None => {
                        push_be(&mut out, 0, 2);
                        push_be(&mut out, *connection_id, 16);
                        push_be(&mut out, *port as u128, 2);
                    },
                }
            },
            TcpWarpMessage::BytesClient { connection_id, data } => {
                out.push(3);
                push_be(&mut out, *connection_id, 16);
                push_be(&mut out, data.len() as u128, 4);
                append_bytes(&mut out, data.as_slice());
            },
            TcpWarpMessage::BytesHost { connection_id, data } => {
                out.push(4);
                push_be(&mut out, *connection_id, 16);
                push_be(&mut out, data.len() as u128, 4);
                append_bytes(&mut out, data.as_slice());
            },
            TcpWarpMessage::Connected { connection_id } => {
                out.push(5);
                push_be(&mut out, *connection_id, 16);
            },
            TcpWarpMessage::DisconnectHost { connection_id } => {
                out.push(6);
                push_be(&mut out, *connection_id, 16);
            },
            TcpWarpMessage::DisconnectClient { connection_id } => {
                out.push(7);
                push_be(&mut out, *connection_id, 16);
            },
            TcpWarpMessage::ConnectFailure { connection_id } => {
                out.push(8);
                push_be(&mut out, *connection_id, 16);
            },
        }
        proof {
            assert(out@ =~= self@.encode());
        }
        out
    }
}

/// The codec of the carrier: whole frames in both directions.
pub struct TcpWarpProto;

impl TcpWarpProto {
    /// Appends the bytes of `item` to `dst`; a frame whose counts or lengths
    /// do not fit its length fields is refused and nothing is written.
    pub fn encode(&mut self, item: TcpWarpMessage, dst: &mut BytesMut) -> (r: Result<
        (),
        ProtoError,
    >)
        ensures
            r is Ok <==> item@.fits(),
            r is Ok ==> buffer_bytes(*final(dst)) == buffer_bytes(*old(dst)) + item@.encode(),
            r is Err ==> r == Err::<(), ProtoError>(ProtoError::FrameTooLarge) && buffer_bytes(
                *final(dst),
            ) == buffer_bytes(*old(dst)),
    {
        if !item.fits() {
            return Err(ProtoError::FrameTooLarge);
        }
        let bytes = item.to_bytes();
        buffer_extend(dst, bytes.as_slice());
        Ok(())
    }

    /// Takes the frame at the head of `src` off it, once the whole frame is
    /// there. On a partial frame it returns `Ok(None)` and consumes nothing;
    /// on an unknown opcode, or a host field that is not UTF-8, it fails and
    /// consumes nothing.
    pub fn decode(&mut self, src: &mut BytesMut) -> (r: Result<Option<TcpWarpMessage>, ProtoError>)
        ensures
            ({
                let s = buffer_bytes(*old(src));
                let t = buffer_bytes(*final(src));
                match r {
                    Ok(None) => needs_more(s) && t == s,
                    Ok(Some(m)) => decodes_to(s, m@, t),
                    Err(ProtoError::UnknownOpcode(b)) => s.len() > 0 && !is_opcode(s[0]) && b
                        == s[0] && t == s,
                    Err(ProtoError::InvalidHost) => frame_complete(s) && !host_is_valid(s) && t
                        == s,
                    Err(ProtoError::FrameTooLarge) => false,
                }
            }),
    {
        let s = buffer_slice(src);
        let n = s.len();
        let ghost sq = s@;
        proof {
            lemma_radix_values();
        }
        if n == 0 {
            return Ok(None);
        }
        let op = s[0];
        let (m, total) = if op == 1 {
            if n < 3 {
                return Ok(None);
            }
            let count = read_be(s, 1, 2);
            proof {
                lemma_be_value_bound(sq.subrange(1, 3));
            }
            let total: u128 = 3 + 2 * count;
            if (n as u128) < total {
                return Ok(None);
            }
            let count = count as usize;
            let mut ports: Vec<u16> = Vec::new();
            let mut i: usize = 0;
            while i < count
                invariant
                    i <= count,
                    3 + 2 * count <= n,
                    n == sq.len(),
                    s@ == sq,
                    ports@.len() == i,
                    ports_bytes(ports@) == sq.subrange(3, 3 + 2 * i),
                decreases count - i,
            {
                let v = read_be(s, 3 + 2 * i, 2);
                proof {
                    let piece = sq.subrange(3 + 2 * i, 3 + 2 * i + 2);
                    lemma_radix_values();
                    lemma_be_value_bound(piece);
                    lemma_be_bytes_of_value(piece);
                    lemma_ports_bytes_push(ports@, v as u16);
                    assert(sq.subrange(3, 3 + 2 * i + 2) =~= sq.subrange(3, 3 + 2 * i) + piece);
                }
                ports.push(v as u16);
                i = i + 1;
            }
            proof {
                let m = Frame::AddPorts(ports@);
                lemma_be_bytes_of_value(sq.subrange(1, 3));
                assert(sq.subrange(0, total as int) =~= m.encode());
            }
            (TcpWarpMessage::AddPorts(ports), total as usize)
        } else if op == 2 {
            if n < 3 {
                return Ok(None);
            }
            let len = read_be(s, 1, 2);
            proof {
                lemma_be_value_bound(sq.subrange(1, 3));
            }
            let total: u128 = 21 + len;
            if (n as u128) < total {
                return Ok(None);
            }
            let connection_id = read_be(s, 3, 16);
            let port = read_be(s, 19, 2);
            proof {
                lemma_be_value_bound(sq.subrange(19, 21));
            }
            let field = slice_subrange(s, 21, total as usize);
            let host = if len == 0 {
                None
            } else {
                match utf8_text(field) {
                    Some(text) => Some(text.to_owned()),
                    None => {
                        return Err(ProtoError::InvalidHost);
                    },
                }
            };
            let m = TcpWarpMessage::HostConnect { connection_id, host, port: port as u16 };
            proof {
                lemma_be_bytes_of_value(sq.subrange(1, 3));
                lemma_be_bytes_of_value(sq.subrange(3, 19));
                lemma_be_bytes_of_value(sq.subrange(19, 21));
                if len > 0 {
                    decode_utf8_encode_utf8(field@);
                    assert(m@.is_canonical()) by {
                        if decode_utf8(field@).len() == 0 {
                            assert(encode_utf8(decode_utf8(field@)) =~= Seq::<u8>::empty());
                        }
                    }
                } else {
                    assert(valid_utf8(field@));
                    assert(field@ =~= Seq::<u8>::empty());
                }
                assert(sq.subrange(0, total as int) =~= m@.encode());
            }
            (m, total as usize)
        } else if op == 3 || op == 4 {
            if n < 21 {
                return Ok(None);
            }
            let len = read_be(s, 17, 4);
            proof {
                lemma_be_value_bound(sq.subrange(17, 21));
            }
            let total: u128 = 21 + len;
            if (n as u128) < total {
                return Ok(None);
            }
            let connection_id = read_be(s, 1, 16);
            let data = slice_to_vec(slice_subrange(s, 21, total as usize));
            let m = if op == 3 {
                TcpWarpMessage::BytesClient { connection_id, data }
            } else {
                TcpWarpMessage::BytesHost { connection_id, data }
            };
            proof {
                lemma_be_bytes_of_value(sq.subrange(1, 17));
                lemma_be_bytes_of_value(sq.subrange(17, 21));
                assert(sq.subrange(0, total as int) =~= m@.encode());
            }
            (m, total as usize)
        } else if 5 <= op && op <= 8 {
            if n < 17 {
                return Ok(None);
            }
            let connection_id = read_be(s, 1, 16);
            let m = if op == 5 {
                TcpWarpMessage::Connected { connection_id }
            } else if op == 6 {
                TcpWarpMessage::DisconnectHost { connection_id }
            } else if op == 7 {
                TcpWarpMessage::DisconnectClient { connection_id }
            } else {
                TcpWarpMessage::ConnectFailure { connection_id }
            };
            proof {
                lemma_be_bytes_of_value(sq.subrange(1, 17));
                assert(sq.subrange(0, 17) =~= m@.encode());
            }
            (m, 17)
        } else {
            return Err(ProtoError::UnknownOpcode(op));
        };
        buffer_advance(src, total);
        proof {
            assert(sq =~= sq.subrange(0, total as int) + sq.skip(total as int));
            lemma_encoded_frame_complete(m@, Seq::empty());
            assert(m@.encode() + Seq::<u8>::empty() =~= m@.encode());
        }
        Ok(Some(m))
    }
}

/// Decoding the bytes of a frame, whatever follows them, yields exactly that
/// frame and leaves exactly what followed.
pub proof fn lemma_codec_round_trip(m: Frame, rest: Seq<u8>)
    requires
        m.fits(),
        m.is_canonical(),
    ensures
        decodes_to(m.encode() + rest, m, rest),
        forall|d: Frame, t: Seq<u8>|
            #[trigger] decodes_to(m.encode() + rest, d, t) ==> d == m && t == rest,
{
    lemma_encoded_frame_complete(m, rest);
    assert forall|d: Frame, t: Seq<u8>| #[trigger]
        decodes_to(m.encode() + rest, d, t) implies d == m && t == rest by {
        lemma_encode_injective(m, d, rest, t);
    }
}

/// A frame cut short anywhere asks for more bytes: the decoder consumes
/// nothing of it.
pub proof fn lemma_partial_frame_needs_more(m: Frame, k: int)
    requires
        m.fits(),
        0 <= k < m.encode().len(),
    ensures
        needs_more(m.encode().take(k)),
{
    let e = m.encode();
    let s = e.take(k);
    lemma_encoded_frame_complete(m, Seq::empty());
    assert(e + Seq::<u8>::empty() =~= e);
    if k > 0 {
        assert(s[0] == e[0]);
        if k >= 3 {
            assert(s.subrange(1, 3) =~= e.subrange(1, 3));
        }
        if k >= 21 {
            assert(s.subrange(17, 21) =~= e.subrange(17, 21));
        }
    }
}

/// Cutting a stream that starts with the frame `m` anywhere: before the end
/// of `m` the decoder asks for more bytes, and from there on it yields `m`
/// and leaves the rest of the cut.
pub proof fn lemma_truncated_stream(m: Frame, rest: Seq<u8>, k: int)
    requires
        m.fits(),
        m.is_canonical(),
        0 <= k <= m.encode().len() + rest.len(),
    ensures
        k < m.encode().len() ==> needs_more((m.encode() + rest).take(k)),
        k >= m.encode().len() ==> decodes_to(
            (m.encode() + rest).take(k),
            m,
            rest.take(k - m.encode().len()),
        ),
{
    let e = m.encode();
    if k < e.len() {
        assert((e + rest).take(k) =~= e.take(k));
        lemma_partial_frame_needs_more(m, k);
    } else {
        let r = rest.take(k - e.len());
        assert((e + rest).take(k) =~= e + r);
        lemma_encoded_frame_complete(m, r);
    }
}

/// The bytes of frames, one after the other.
pub open spec fn encode_all(ms: Seq<Frame>) -> Seq<u8>
    decreases ms.len(),
{
    if ms.len() == 0 {
        Seq::empty()
    } else {
        ms[0].encode() + encode_all(ms.drop_first())
    }
}

/// A stream of whole frames followed by a frame cut short: decoding it again
/// and again yields the whole frames in their order, each time leaving
/// exactly what follows that frame, and then asks for more bytes with only
/// the cut frame left in the buffer.
pub proof fn lemma_frame_stream_decodes_in_order(ms: Seq<Frame>, last: Frame, cut: int)
    requires
        forall|i: int| 0 <= i < ms.len() ==> (#[trigger] ms[i]).fits() && ms[i].is_canonical(),
        last.fits(),
        0 <= cut < last.encode().len(),
    ensures
        forall|i: int|
            0 <= i < ms.len() ==> decodes_to(
                encode_all(ms.skip(i)) + last.encode().take(cut),
                #[trigger] ms[i],
                encode_all(ms.skip(i + 1)) + last.encode().take(cut),
            ),
        forall|i: int, d: Frame, t: Seq<u8>|
            0 <= i < ms.len() && #[trigger] decodes_to(
                encode_all(ms.skip(i)) + last.encode().take(cut),
                d,
                t,
            ) ==> d == ms[i] && t == encode_all(ms.skip(i + 1)) + last.encode().take(cut),
        encode_all(ms.skip(ms.len() as int)) + last.encode().take(cut) == last.encode().take(
            cut,
        ),
        needs_more(last.encode().take(cut)),
{
    let p = last.encode().take(cut);
    assert forall|i: int| 0 <= i < ms.len() implies encode_all(ms.skip(i)) + p == ms[i].encode()
        + (encode_all(ms.skip(i + 1)) + p) by {
        assert(ms.skip(i)[0] == ms[i]);
        assert(ms.skip(i).drop_first() =~= ms.skip(i + 1));
        assert(encode_all(ms.skip(i)) == ms[i].encode() + encode_all(ms.skip(i + 1)));
        assert(encode_all(ms.skip(i)) + p =~= ms[i].encode() + (encode_all(ms.skip(i + 1)) + p));
    }
    assert forall|i: int| 0 <= i < ms.len() implies decodes_to(
        encode_all(ms.skip(i)) + p,
        #[trigger] ms[i],
        encode_all(ms.skip(i + 1)) + p,
    ) by {
        lemma_codec_round_trip(ms[i], encode_all(ms.skip(i + 1)) + p);
    }
    assert forall|i: int, d: Frame, t: Seq<u8>|
        0 <= i < ms.len() && #[trigger] decodes_to(encode_all(ms.skip(i)) + p, d, t) implies d
        == ms[i] && t == encode_all(ms.skip(i + 1)) + p by {
        lemma_codec_round_trip(ms[i], encode_all(ms.skip(i + 1)) + p);
    }
    assert(ms.skip(ms.len() as int) =~= Seq::<Frame>::empty());
    assert(Seq::<u8>::empty() + p =~= p);
    lemma_partial_frame_needs_more(last, cut);
}

/// The codec of a client-side user socket: every read becomes a
/// `BytesClient` frame of the connection, and bytes to write pass unchanged.
pub struct TcpWarpProtoClient {
    pub connection_id: u128,
}

impl TcpWarpProtoClient {
    /// Appends `item` to `dst` as it is.
    pub fn encode(&mut self, item: Vec<u8>, dst: &mut BytesMut) -> (r: Result<(), ProtoError>)
        ensures
            r is Ok,
            *final(self) == *old(self),
            buffer_bytes(*final(dst)) == buffer_bytes(*old(dst)) + item@,
    {
        buffer_extend(dst, item.as_slice());
        Ok(())
    }

    /// Takes all bytes of `src` as one `BytesClient` frame of the connection,
    /// or `None` when there are none.
    pub fn decode(&mut self, src: &mut BytesMut) -> (r: Result<Option<TcpWarpMessage>, ProtoError>)
        ensures
            *final(self) == *old(self),
            buffer_bytes(*old(src)).len() == 0 ==> r == Ok::<Option<TcpWarpMessage>, ProtoError>(
                None,
            ) && buffer_bytes(*final(src)) == buffer_bytes(*old(src)),
            buffer_bytes(*old(src)).len() > 0 ==> (r matches Ok(Some(m)) && m@ == (
            Frame::BytesClient {
                connection_id: old(self).connection_id,
                data: buffer_bytes(*old(src)),
            })) && buffer_bytes(*final(src)).len() == 0,
    {
        let s = buffer_slice(src);
        let n = s.len();
        if n == 0 {
            return Ok(None);
        }
        let data = slice_to_vec(s);
        buffer_advance(src, n);
        Ok(Some(TcpWarpMessage::BytesClient { connection_id: self.connection_id, data }))
    }
}

/// The codec of a server-side target socket: every read becomes a
/// `BytesHost` frame of the connection, and bytes to write pass unchanged.
pub struct TcpWarpProtoHost {
    pub connection_id: u128,
}

impl TcpWarpProtoHost {
    /// Appends `item` to `dst` as it is.
    pub fn encode(&mut self, item: Vec<u8>, dst: &mut BytesMut) -> (r: Result<(), ProtoError>)
        ensures
            r is Ok,
            *final(self) == *old(self),
            buffer_bytes(*final(dst)) == buffer_bytes(*old(dst)) + item@,
    {
        buffer_extend(dst, item.as_slice());
        Ok(())
    }

    /// Takes all bytes of `src` as one `BytesHost` frame of the connection,
    /// or `None` when there are none.
    pub fn decode(&mut self, src: &mut BytesMut) -> (r: Result<Option<TcpWarpMessage>, ProtoError>)
        ensures
            *final(self) == *old(self),
            buffer_bytes(*old(src)).len() == 0 ==> r == Ok::<Option<TcpWarpMessage>, ProtoError>(
                None,
            ) && buffer_bytes(*final(src)) == buffer_bytes(*old(src)),
            buffer_bytes(*old(src)).len() > 0 ==> (r matches Ok(Some(m)) && m@ == (
            Frame::BytesHost {
                connection_id: old(self).connection_id,
                data: buffer_bytes(*old(src)),
            })) && buffer_bytes(*final(src)).len() == 0,
    {
        let s = buffer_slice(src);
        let n = s.len();
        if n == 0 {
            return Ok(None);
        }
        let data = slice_to_vec(s);
        buffer_advance(src, n);
        Ok(Some(TcpWarpMessage::BytesHost { connection_id: self.connection_id, data }))
    }
}

} // verus!
