use bytes::BytesMut;
use tcpwarp::proto::ProtoError;
use tcpwarp::{TcpWarpMessage, TcpWarpProto, TcpWarpProtoClient, TcpWarpProtoHost};

const ID: u128 = 0x0102_0304_0506_0708_090a_0b0c_0d0e_0f10;

fn id_bytes() -> Vec<u8> {
    (1u8..=16).collect()
}

fn encode(m: TcpWarpMessage) -> Vec<u8> {
    let mut dst = BytesMut::new();
    TcpWarpProto.encode(m, &mut dst).unwrap();
    dst.to_vec()
}

fn samples() -> Vec<TcpWarpMessage> {
    vec![
        TcpWarpMessage::AddPorts(vec![]),
        TcpWarpMessage::AddPorts(vec![8080, 1, 65535]),
        TcpWarpMessage::HostConnect { connection_id: ID, host: None, port: 80 },
        TcpWarpMessage::HostConnect {
            connection_id: 7,
            host: Some("example.internal".to_string()),
            port: 443,
        },
        TcpWarpMessage::HostConnect { connection_id: 8, host: Some("hôte".to_string()), port: 1 },
        TcpWarpMessage::BytesClient { connection_id: ID, data: b"ping\n".to_vec() },
        TcpWarpMessage::BytesClient { connection_id: 0, data: vec![] },
        TcpWarpMessage::BytesHost { connection_id: u128::MAX, data: vec![0, 255, 7] },
        TcpWarpMessage::Connected { connection_id: ID },
        TcpWarpMessage::DisconnectHost { connection_id: 3 },
        TcpWarpMessage::DisconnectClient { connection_id: 4 },
        TcpWarpMessage::ConnectFailure { connection_id: 5 },
    ]
}

#[test]
fn add_ports_layout() {
    assert_eq!(
        encode(TcpWarpMessage::AddPorts(vec![8080, 2])),
        vec![1, 0, 2, 0x1f, 0x90, 0, 2]
    );
    assert_eq!(encode(TcpWarpMessage::AddPorts(vec![])), vec![1, 0, 0]);
}

#[test]
fn host_connect_layout() {
    let mut want = vec![2, 0, 2];
    want.extend(id_bytes());
    want.extend([0x01, 0xbb, b'h', b'i']);
    assert_eq!(
        encode(TcpWarpMessage::HostConnect {
            connection_id: ID,
            host: Some("hi".to_string()),
            port: 443
        }),
        want
    );
}

#[test]
fn bytes_frames_layout() {
    let mut want = vec![3];
    want.extend(id_bytes());
    want.extend([0, 0, 0, 5]);
    want.extend(b"ping\n");
    assert_eq!(
        encode(TcpWarpMessage::BytesClient { connection_id: ID, data: b"ping\n".to_vec() }),
        want
    );
    want[0] = 4;
    assert_eq!(
        encode(TcpWarpMessage::BytesHost { connection_id: ID, data: b"ping\n".to_vec() }),
        want
    );
}

#[test]
fn short_frames_layout() {
    for (op, m) in [
        (5u8, TcpWarpMessage::Connected { connection_id: ID }),
        (6, TcpWarpMessage::DisconnectHost { connection_id: ID }),
        (7, TcpWarpMessage::DisconnectClient { connection_id: ID }),
        (8, TcpWarpMessage::ConnectFailure { connection_id: ID }),
    ] {
        let mut want = vec![op];
        want.extend(id_bytes());
        assert_eq!(encode(m), want);
    }
}

#[test]
fn encode_appends_to_what_is_there() {
    let mut dst = BytesMut::from(&[9u8, 9][..]);
    TcpWarpProto
        .encode(TcpWarpMessage::Connected { connection_id: 1 }, &mut dst)
        .unwrap();
    assert_eq!(dst.len(), 2 + 17);
    assert_eq!(&dst[..3], &[9, 9, 5]);
}

#[test]
fn too_many_ports_are_refused() {
    let mut dst = BytesMut::new();
    let r = TcpWarpProto.encode(TcpWarpMessage::AddPorts(vec![1; 65536]), &mut dst);
    assert_eq!(r, Err(ProtoError::FrameTooLarge));
    assert!(dst.is_empty());
    assert!(TcpWarpMessage::AddPorts(vec![1; 65535]).fits());
}

#[test]
fn decode_returns_every_variant() {
    for m in samples() {
        let mut src = BytesMut::from(&encode(m.clone())[..]);
        src.extend_from_slice(&[5, 1]);
        assert_eq!(TcpWarpProto.decode(&mut src), Ok(Some(m)));
        assert_eq!(&src[..], &[5, 1]);
    }
}

#[test]
fn frame_of_exact_size_decodes() {
    let bytes = encode(TcpWarpMessage::BytesHost { connection_id: 9, data: b"abc".to_vec() });
    let mut src = BytesMut::from(&bytes[..]);
    assert_eq!(
        TcpWarpProto.decode(&mut src),
        Ok(Some(TcpWarpMessage::BytesHost { connection_id: 9, data: b"abc".to_vec() }))
    );
    assert!(src.is_empty());
    let mut empty_ports = BytesMut::from(&[1u8, 0, 0][..]);
    assert_eq!(
        TcpWarpProto.decode(&mut empty_ports),
        Ok(Some(TcpWarpMessage::AddPorts(vec![])))
    );
    assert!(empty_ports.is_empty());
}

#[test]
fn partial_frames_need_more_and_consume_nothing() {
    for m in samples() {
        let bytes = encode(m);
        for k in 0..bytes.len() {
            let mut src = BytesMut::from(&bytes[..k]);
            assert_eq!(TcpWarpProto.decode(&mut src), Ok(None));
            assert_eq!(&src[..], &bytes[..k]);
        }
    }
}

#[test]
fn unknown_opcode_is_an_error() {
    for op in [0u8, 9, 255] {
        let mut src = BytesMut::from(&[op, 1, 2][..]);
        assert_eq!(TcpWarpProto.decode(&mut src), Err(ProtoError::UnknownOpcode(op)));
        assert_eq!(src.len(), 3);
    }
}

#[test]
fn host_that_is_not_utf8_is_an_error() {
    let mut bytes = vec![2, 0, 2];
    bytes.extend(id_bytes());
    bytes.extend([0, 80, 0xff, 0xfe]);
    let mut src = BytesMut::from(&bytes[..]);
    assert_eq!(TcpWarpProto.decode(&mut src), Err(ProtoError::InvalidHost));
    assert_eq!(src.len(), bytes.len());
}

#[test]
fn empty_host_reads_back_as_no_host() {
    let bytes = encode(TcpWarpMessage::HostConnect {
        connection_id: 1,
        host: Some(String::new()),
        port: 22,
    });
    let mut src = BytesMut::from(&bytes[..]);
    assert_eq!(
        TcpWarpProto.decode(&mut src),
        Ok(Some(TcpWarpMessage::HostConnect { connection_id: 1, host: None, port: 22 }))
    );
}

#[test]
fn stream_of_frames_decodes_in_order() {
    let mut src = BytesMut::new();
    for m in samples() {
        TcpWarpProto.encode(m, &mut src).unwrap();
    }
    let mut out = vec![];
    while let Some(m) = TcpWarpProto.decode(&mut src).unwrap() {
        out.push(m);
    }
    assert_eq!(out, samples());
    assert!(src.is_empty());
}

/// Every cut of a stream of frames: the decoder yields exactly the frames
/// that lie wholly before the cut, and keeps the rest untouched.
#[test]
fn truncated_streams_never_yield_partial_frames() {
    let frames = samples();
    let mut stream = vec![];
    let mut ends = vec![];
    for m in frames.iter() {
        stream.extend(encode(m.clone()));
        ends.push(stream.len());
    }
    // a small linear congruential generator picks the cuts
    let mut seed: u64 = 0x2545_f491_4f6c_dd1d;
    let mut cuts: Vec<usize> = (0..=stream.len()).collect();
    for _ in 0..200 {
        seed = seed.wrapping_mul(6364136223846793005).wrapping_add(1442695040888963407);
        cuts.push((seed >> 33) as usize % (stream.len() + 1));
    }
    for k in cuts {
        let mut src = BytesMut::from(&stream[..k]);
        let mut out = vec![];
        while let Some(m) = TcpWarpProto.decode(&mut src).unwrap() {
            out.push(m);
        }
        let whole = ends.iter().filter(|&&e| e <= k).count();
        assert_eq!(out, frames[..whole].to_vec());
        let start = if whole == 0 { 0 } else { ends[whole - 1] };
        assert_eq!(&src[..], &stream[start..k]);
    }
}

#[test]
fn to_bytes_matches_encode() {
    for m in samples() {
        assert_eq!(m.to_bytes(), encode(m.clone()));
    }
}

#[test]
fn client_socket_codec_wraps_reads() {
    let mut codec = TcpWarpProtoClient { connection_id: 42 };
    let mut src = BytesMut::new();
    assert_eq!(codec.decode(&mut src), Ok(None));
    src.extend_from_slice(b"hello");
    assert_eq!(
        codec.decode(&mut src),
        Ok(Some(TcpWarpMessage::BytesClient { connection_id: 42, data: b"hello".to_vec() }))
    );
    assert!(src.is_empty());
    let mut dst = BytesMut::from(&b">"[..]);
    codec.encode(b"abc".to_vec(), &mut dst).unwrap();
    assert_eq!(&dst[..], b">abc");
}

#[test]
fn host_socket_codec_wraps_reads() {
    let mut codec = TcpWarpProtoHost { connection_id: 43 };
    let mut src = BytesMut::from(&b"world"[..]);
    assert_eq!(
        codec.decode(&mut src),
        Ok(Some(TcpWarpMessage::BytesHost { connection_id: 43, data: b"world".to_vec() }))
    );
    assert!(src.is_empty());
    assert_eq!(codec.decode(&mut src), Ok(None));
    let mut dst = BytesMut::new();
    codec.encode(b"xyz".to_vec(), &mut dst).unwrap();
    assert_eq!(&dst[..], b"xyz");
}
