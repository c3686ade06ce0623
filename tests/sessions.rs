use bytes::BytesMut;
use std::collections::HashMap;
use tcpwarp::address::{IpAddress, SocketAddress};
use tcpwarp::client::{host_to_client, next_session_table, ClientAction, ClientEvent, ClientIngress, ClientSession, ClientWorker};
use tcpwarp::port_mapping::parse_port_mapping;
use tcpwarp::server::{after_dial, DialTarget, HostWorker, ServerAction, ServerEvent, ServerIngress, ServerSession};
use tcpwarp::session::TcpWarpConnection;
use tcpwarp::{TcpWarpClient, TcpWarpMessage, TcpWarpProto, TcpWarpServer};

type Client = ClientSession<u32, &'static str, u8>;

fn localhost() -> IpAddress {
    IpAddress::V4([127, 0, 0, 1])
}

fn server() -> TcpWarpServer {
    TcpWarpServer::new(SocketAddress { ip: localhost(), port: 18000 }, localhost(), vec![])
}

/// Carries a frame over the wire: encode, then decode.
fn wire(m: TcpWarpMessage) -> TcpWarpMessage {
    let mut buf = BytesMut::new();
    TcpWarpProto.encode(m, &mut buf).unwrap();
    let got = TcpWarpProto.decode(&mut buf).unwrap().unwrap();
    assert!(buf.is_empty());
    got
}

fn client_frame(session: &mut Client, m: TcpWarpMessage) -> ClientAction<u32, &'static str, u8> {
    match host_to_client(wire(m)) {
        ClientIngress::Forward(f) => session.on_event(ClientEvent::Frame(f)),
        _ => panic!("frame not forwarded"),
    }
}

fn connect(session: &mut Client, id: u128, mapping: &str, sender: u32) -> TcpWarpMessage {
    let connection = parse_port_mapping(mapping).unwrap();
    match session.on_event(ClientEvent::Connect {
        connection_id: id,
        connection,
        sender,
        connected_sender: "armed",
    }) {
        ClientAction::Send(f) => f,
        _ => panic!("no HostConnect"),
    }
}

#[test]
fn single_redirect_round_trip() {
    let srv = server();
    let announcement = srv.announcement();
    assert_eq!(announcement, TcpWarpMessage::AddPorts(vec![]));
    assert!(matches!(host_to_client(wire(announcement)), ClientIngress::OpenListeners));

    let client = TcpWarpClient::new(
        IpAddress::V4([0, 0, 0, 0]),
        SocketAddress { ip: localhost(), port: 18000 },
    );
    let mapping = parse_port_mapping("8080:127.0.0.1:7").unwrap();
    let at = client.listen_address(&mapping);
    assert_eq!(at, SocketAddress { ip: IpAddress::V4([0, 0, 0, 0]), port: 8080 });

    let mut cs: Client = ClientSession::new(HashMap::new());
    let mut ss: ServerSession<u32> = ServerSession::new();
    let id = 77;
    let hc = connect(&mut cs, id, "8080:127.0.0.1:7", 1);
    assert_eq!(
        hc,
        TcpWarpMessage::HostConnect { connection_id: id, host: Some("127.0.0.1".into()), port: 7 }
    );
    let target = match srv.client_to_host(wire(hc)) {
        ServerIngress::Dial { connection_id, target } => {
            assert_eq!(connection_id, id);
            target
        }
        _ => panic!("no dial"),
    };
    assert_eq!(target, DialTarget::Host { host: "127.0.0.1".into(), port: 7 });

    let confirmed = match ss.on_event(after_dial(id, Some((10u32, "ok")))) {
        ServerAction::Confirm { connected_sender, frame } => {
            assert_eq!(connected_sender, "ok");
            frame
        }
        _ => panic!("no confirm"),
    };
    assert!(matches!(
        client_frame(&mut cs, confirmed),
        ClientAction::Signal { connection_id: 77, connected_sender: "armed" }
    ));

    let mut worker_codec = ClientWorker { connection_id: id }.codec();
    let mut read = BytesMut::from(&b"ping\n"[..]);
    let up = worker_codec.decode(&mut read).unwrap().unwrap();
    let up = match cs.on_event(ClientEvent::Frame(up)) {
        ClientAction::Send(f) => f,
        _ => panic!("bytes not sent"),
    };
    match srv.client_to_host(wire(up)) {
        ServerIngress::Forward(f) => match ss.on_event::<&str>(ServerEvent::Frame(f)) {
            ServerAction::Deliver { connection_id, sender, data } => {
                assert_eq!((connection_id, sender, data), (id, 10, b"ping\n".to_vec()));
            }
            _ => panic!("not delivered"),
        },
        _ => panic!("not forwarded"),
    }

    let mut host_codec = HostWorker { connection_id: id }.codec();
    let mut echo = BytesMut::from(&b"ping\n"[..]);
    let down = host_codec.decode(&mut echo).unwrap().unwrap();
    let down = match ss.on_event::<&str>(ServerEvent::Frame(down)) {
        ServerAction::Send(f) => f,
        _ => panic!("bytes not sent"),
    };
    match client_frame(&mut cs, down) {
        ClientAction::Deliver { connection_id, sender, data } => {
            assert_eq!((connection_id, sender, data), (id, 1, b"ping\n".to_vec()));
        }
        _ => panic!("not delivered"),
    }

    // the user closes; the server closes its side and reports it
    let bye = match cs.on_event(ClientWorker { connection_id: id }.disconnect()) {
        ClientAction::Send(f) => f,
        _ => panic!("no disconnect"),
    };
    match srv.client_to_host(wire(bye)) {
        ServerIngress::Forward(f) => {
            assert!(matches!(
                ss.on_event::<&str>(ServerEvent::Frame(f)),
                ServerAction::Close { connection_id: 77, sender: 10 }
            ));
        }
        _ => panic!("not forwarded"),
    }
    assert!(ss.connections.is_empty());
    let gone = match ss.on_event::<&str>(HostWorker { connection_id: id }.disconnect()) {
        ServerAction::Send(f) => f,
        _ => panic!("no disconnect host"),
    };
    assert!(matches!(
        client_frame(&mut cs, gone),
        ClientAction::Close { connection_id: 77, sender: 1 }
    ));
    assert_eq!(cs.connections.len(), 0);
}

#[test]
fn multiplexed_streams_stay_apart_and_in_order() {
    let mut cs: Client = ClientSession::new(HashMap::new());
    connect(&mut cs, 1, "8080:127.0.0.1:7", 100);
    connect(&mut cs, 2, "8080:127.0.0.1:7", 200);
    let mut got: HashMap<u32, Vec<u8>> = HashMap::new();
    let a: Vec<u8> = (0..4096u32).map(|i| (i * 7 % 251) as u8).collect();
    let b: Vec<u8> = (0..4096u32).map(|i| (i * 13 % 241) as u8).collect();
    for k in 0..64 {
        for (id, src) in [(1u128, &a), (2u128, &b)] {
            let chunk = src[k * 64..(k + 1) * 64].to_vec();
            let f = TcpWarpMessage::BytesHost { connection_id: id, data: chunk };
            match client_frame(&mut cs, f) {
                ClientAction::Deliver { connection_id, sender, data } => {
                    assert_eq!(connection_id, id);
                    got.entry(sender).or_default().extend(data);
                }
                _ => panic!("not delivered"),
            }
        }
    }
    assert_eq!(got[&100], a);
    assert_eq!(got[&200], b);
}

#[test]
fn server_keeps_streams_apart() {
    let mut ss: ServerSession<u32> = ServerSession::new();
    ss.on_event(after_dial(5, Some((50u32, ()))));
    ss.on_event(after_dial(6, Some((60u32, ()))));
    let mut out: Vec<(u32, Vec<u8>)> = vec![];
    for (id, d) in [(5u128, b"ab"), (6, b"cd"), (5, b"ef")] {
        match ss.on_event::<()>(ServerEvent::Frame(TcpWarpMessage::BytesClient {
            connection_id: id,
            data: d.to_vec(),
        })) {
            ServerAction::Deliver { sender, data, .. } => out.push((sender, data)),
            _ => panic!("not delivered"),
        }
    }
    assert_eq!(out, vec![(50, b"ab".to_vec()), (60, b"cd".to_vec()), (50, b"ef".to_vec())]);
}

#[test]
fn host_field_reaches_the_server() {
    let mut cs: Client = ClientSession::new(HashMap::new());
    let hc = connect(&mut cs, 9, "9000:example.internal:80", 1);
    match server().client_to_host(wire(hc)) {
        ServerIngress::Dial { connection_id, target } => {
            assert_eq!(connection_id, 9);
            assert_eq!(target, DialTarget::Host { host: "example.internal".into(), port: 80 });
        }
        _ => panic!("no dial"),
    }
}

#[test]
fn missing_host_dials_the_default_address() {
    let srv = server();
    let hc = TcpWarpMessage::HostConnect { connection_id: 3, host: None, port: 2375 };
    match srv.client_to_host(wire(hc)) {
        ServerIngress::Dial { target, .. } => assert_eq!(
            target,
            DialTarget::Address(SocketAddress { ip: localhost(), port: 2375 })
        ),
        _ => panic!("no dial"),
    }
}

#[test]
fn refused_target_closes_only_that_connection() {
    let mut cs: Client = ClientSession::new(HashMap::new());
    connect(&mut cs, 1, "8080:127.0.0.1:1", 11);
    connect(&mut cs, 2, "8081:127.0.0.1:7", 22);
    let mut ss: ServerSession<u32> = ServerSession::new();
    let failure = match ss.on_event(after_dial::<u32, ()>(1, None)) {
        ServerAction::Send(f) => f,
        _ => panic!("failure not sent"),
    };
    assert_eq!(failure, TcpWarpMessage::ConnectFailure { connection_id: 1 });
    assert!(matches!(
        client_frame(&mut cs, failure),
        ClientAction::Close { connection_id: 1, sender: 11 }
    ));
    assert!(!cs.connections.contains_key(&1));
    assert!(cs.connections.contains_key(&2));
    // the carrier goes on: a new connection is accepted
    let hc = connect(&mut cs, 3, "8080:127.0.0.1:1", 33);
    assert!(matches!(hc, TcpWarpMessage::HostConnect { connection_id: 3, .. }));
}

#[test]
fn connected_signal_fires_once() {
    let mut cs: Client = ClientSession::new(HashMap::new());
    connect(&mut cs, 4, "8080", 1);
    let c = TcpWarpMessage::Connected { connection_id: 4 };
    assert!(matches!(client_frame(&mut cs, c.clone()), ClientAction::Signal { connection_id: 4, .. }));
    assert!(matches!(client_frame(&mut cs, c.clone()), ClientAction::Nothing));
    assert!(cs.connections[&4].connected_sender.is_none());
    assert!(matches!(
        client_frame(&mut cs, TcpWarpMessage::Connected { connection_id: 5 }),
        ClientAction::Unknown { connection_id: 5 }
    ));
}

#[test]
fn session_end_aborts_every_listener() {
    let mut cs: Client = ClientSession::new(HashMap::new());
    for l in [1u8, 2, 3] {
        assert!(matches!(cs.on_event(ClientEvent::Listener(l)), ClientAction::Nothing));
    }
    connect(&mut cs, 8, "8080", 1);
    match cs.on_event(ClientEvent::Disconnect) {
        ClientAction::Stop(ls) => assert_eq!(ls, vec![1, 2, 3]),
        _ => panic!("no stop"),
    }
    assert!(cs.listeners.is_empty());
    assert_eq!(cs.connections.len(), 1);
    let left = cs.into_connections(false);
    assert_eq!(left.len(), 0);
}

#[test]
fn retry_with_reuse_keeps_the_table() {
    let mut cs: Client = ClientSession::new(HashMap::new());
    connect(&mut cs, 12, "8080:127.0.0.1:7", 1);
    assert!(matches!(cs.on_event(ClientEvent::Disconnect), ClientAction::Stop(_)));
    let kept = cs.into_connections(true);
    assert_eq!(kept.len(), 1);
    let mut next: Client = ClientSession::new(kept);
    assert!(next.connections.contains_key(&12));
    // the new server does not know the connection and answers its bytes
    // with a disconnect, which drains it from the client
    let mut ss: ServerSession<u32> = ServerSession::new();
    let answer = match ss.on_event::<()>(ServerEvent::Frame(TcpWarpMessage::BytesClient {
        connection_id: 12,
        data: b"late".to_vec(),
    })) {
        ServerAction::Send(f) => f,
        _ => panic!("no answer"),
    };
    assert_eq!(answer, TcpWarpMessage::DisconnectHost { connection_id: 12 });
    assert!(matches!(client_frame(&mut next, answer), ClientAction::Close { connection_id: 12, .. }));
    assert_eq!(next.connections.len(), 0);
}

#[test]
fn unknown_connection_bytes_are_dropped_by_the_client() {
    let mut cs: Client = ClientSession::new(HashMap::new());
    let f = TcpWarpMessage::BytesHost { connection_id: 99, data: b"x".to_vec() };
    assert!(matches!(client_frame(&mut cs, f), ClientAction::Unknown { connection_id: 99 }));
    let d = TcpWarpMessage::DisconnectHost { connection_id: 99 };
    assert!(matches!(client_frame(&mut cs, d), ClientAction::Unknown { connection_id: 99 }));
}

#[test]
fn ingress_ignores_frames_of_the_wrong_direction() {
    let to_client = TcpWarpMessage::BytesClient { connection_id: 1, data: vec![] };
    assert!(matches!(host_to_client(to_client), ClientIngress::Ignore(_)));
    let to_server = TcpWarpMessage::Connected { connection_id: 1 };
    assert!(matches!(server().client_to_host(to_server), ServerIngress::Ignore(_)));
}

#[test]
fn fresh_workers_get_distinct_ids() {
    let a = ClientWorker::new();
    let b = ClientWorker::new();
    assert_ne!(a.connection_id, b.connection_id);
    for id in [a.connection_id, b.connection_id] {
        assert_eq!((id >> 76) & 0xf, 4);
        assert_eq!((id >> 62) & 0x3, 2);
    }
    assert_eq!(a.codec().connection_id, a.connection_id);
}

#[test]
fn connect_entry_holds_the_handles() {
    let mut cs: Client = ClientSession::new(HashMap::new());
    let w = ClientWorker { connection_id: 31 };
    let ev = w.connect(parse_port_mapping("7000").unwrap(), 5u32, "sig");
    match cs.on_event(ev) {
        ClientAction::Send(f) => assert_eq!(
            f,
            TcpWarpMessage::HostConnect { connection_id: 31, host: None, port: 7000 }
        ),
        _ => panic!("no HostConnect"),
    }
    let e: &TcpWarpConnection<u32, &str> = &cs.connections[&31];
    assert_eq!(e.sender, 5);
    assert_eq!(e.connected_sender, Some("sig"));
}

#[test]
fn connect_with_a_known_id_replaces_the_entry() {
    let mut cs: Client = ClientSession::new(HashMap::new());
    connect(&mut cs, 21, "8080", 1);
    connect(&mut cs, 21, "8081", 2);
    assert_eq!(cs.connections.len(), 1);
    assert_eq!(cs.connections[&21].sender, 2);
}

#[test]
fn server_drops_disconnect_of_unknown_connection() {
    let mut ss: ServerSession<u32> = ServerSession::new();
    let f = TcpWarpMessage::DisconnectClient { connection_id: 8 };
    assert!(matches!(
        ss.on_event::<()>(ServerEvent::Frame(f)),
        ServerAction::Unknown { connection_id: 8 }
    ));
    let passthrough = TcpWarpMessage::DisconnectHost { connection_id: 8 };
    match ss.on_event::<()>(ServerEvent::Frame(passthrough.clone())) {
        ServerAction::Send(f) => assert_eq!(f, passthrough),
        _ => panic!("not passed through"),
    }
}

#[test]
fn announcement_lists_advertised_ports() {
    let srv = TcpWarpServer::new(
        SocketAddress { ip: localhost(), port: 18000 },
        localhost(),
        vec![8080, 2375],
    );
    assert_eq!(srv.announcement(), TcpWarpMessage::AddPorts(vec![8080, 2375]));
}

#[test]
fn next_session_table_after_end_or_failure() {
    let mut cs: Client = ClientSession::new(HashMap::new());
    connect(&mut cs, 40, "8080", 1);
    let kept = next_session_table(Some(cs), true);
    assert!(kept.contains_key(&40));
    let mut cs2: Client = ClientSession::new(kept);
    connect(&mut cs2, 41, "8081", 2);
    assert_eq!(next_session_table(Some(cs2), false).len(), 0);
    assert_eq!(next_session_table::<u32, &str, u8>(None, true).len(), 0);
}
