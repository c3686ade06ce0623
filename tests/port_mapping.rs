use tcpwarp::port_mapping::{parse_port_mapping, PortMappingError};
use tcpwarp::TcpWarpPortConnection;

#[test]
fn connection_from_str() {
    assert_eq!(
        Ok(TcpWarpPortConnection {
            client_port: None,
            host: None,
            port: 8080
        }),
        "8080".parse().map_err(|_| ())
    );
    assert_eq!(
        Ok(TcpWarpPortConnection {
            client_port: Some(8081),
            host: None,
            port: 8080
        }),
        "8081:8080".parse().map_err(|_| ())
    );
    assert_eq!(
        Ok(TcpWarpPortConnection {
            client_port: Some(8081),
            host: Some("localhost".into()),
            port: 8080
        }),
        "8081:localhost:8080".parse().map_err(|_| ())
    );
}

#[test]
fn normal_forms_parse_to_their_fields() {
    let a: TcpWarpPortConnection = "8080".parse().unwrap();
    assert_eq!((a.client_port, a.host.clone(), a.port), (None, None, 8080));
    let b: TcpWarpPortConnection = "18081:8081".parse().unwrap();
    assert_eq!((b.client_port, b.host.clone(), b.port), (Some(18081), None, 8081));
    let c: TcpWarpPortConnection = "10001:172.18.0.1:2375".parse().unwrap();
    assert_eq!(
        (c.client_port, c.host.clone(), c.port),
        (Some(10001), Some("172.18.0.1".to_string()), 2375)
    );
}

#[test]
fn host_and_port_without_client_port() {
    let m = parse_port_mapping("example.internal:80").unwrap();
    assert_eq!(m.client_port, None);
    assert_eq!(m.host, Some("example.internal".to_string()));
    assert_eq!(m.port, 80);
    assert_eq!(m.listen_port(), 80);
    let n = parse_port_mapping("99999:80").unwrap();
    assert_eq!(n.host, Some("99999".to_string()));
}

#[test]
fn listen_port_prefers_client_port() {
    let m = parse_port_mapping("9000:example.internal:80").unwrap();
    assert_eq!(m.listen_port(), 9000);
    assert_eq!(m.port, 80);
}

#[test]
fn plus_sign_and_largest_port_are_accepted() {
    assert_eq!(parse_port_mapping("+80").unwrap().port, 80);
    assert_eq!(parse_port_mapping("65535").unwrap().port, 65535);
    assert_eq!(parse_port_mapping("0").unwrap().port, 0);
}

#[test]
fn malformed_mappings_are_refused() {
    for s in [
        "", ":", "abc", "65536", "-1", "+", "80:", "a:b:80", "1:2:3:4", "80:host",
        "8081:host:x", "99999:x:80",
    ] {
        assert_eq!(parse_port_mapping(s), Err(PortMappingError), "{:?}", s);
    }
    assert_eq!(
        "x".parse::<TcpWarpPortConnection>(),
        Err(PortMappingError)
    );
}

#[test]
fn three_pieces_keep_an_empty_host() {
    let m = parse_port_mapping("8081::8080").unwrap();
    assert_eq!(m.host, Some(String::new()));
}

#[test]
fn empty_host_before_port_is_a_host() {
    let m = parse_port_mapping(":80").unwrap();
    assert_eq!(m.client_port, None);
    assert_eq!(m.host, Some(String::new()));
    assert_eq!(m.port, 80);
}

#[test]
fn unicode_host_is_kept() {
    let m = parse_port_mapping("hôte:443").unwrap();
    assert_eq!(m.host, Some("hôte".to_string()));
    assert_eq!(m.port, 443);
}

#[test]
fn error_message_text() {
    assert_eq!(PortMappingError.message(), "cannot parse port mapping");
}
