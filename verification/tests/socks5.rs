use kenkoterminal::socks5::{
    host_text, ipv4_text, reply, socks5_on_bytes, socks5_on_connect, socks5_wants, Socks5Error, Socks5Host,
    Socks5Phase,
};

fn run(phase: Socks5Phase, data: &[u8]) -> (Socks5Phase, Option<Vec<u8>>) {
    assert_eq!(socks5_wants(&phase), Some(data.len()));
    socks5_on_bytes(phase, data.to_vec())
}

#[test]
fn connect_to_domain() {
    let (p, r) = run(Socks5Phase::Greeting, &[5, 2]);
    assert!(r.is_none());
    let (p, r) = run(p, &[0, 2]);
    assert_eq!(r, Some(vec![5, 0]));
    let (p, r) = run(p, &[5, 1, 0, 3]);
    assert!(r.is_none());
    let (p, _) = run(p, &[11]);
    let (p, _) = run(p, b"example.com");
    let (p, _) = run(p, &[0x01, 0xbb]);
    match p {
        Socks5Phase::Connect(t) => {
            assert_eq!(t.port, 443);
            match t.host {
                Socks5Host::Domain(d) => assert_eq!(d, b"example.com".to_vec()),
                _ => panic!("expected a domain"),
            }
        }
        _ => panic!("expected connect"),
    }
    let (p, r) = socks5_on_connect(true);
    assert!(matches!(p, Socks5Phase::Relay));
    assert_eq!(r, vec![5, 0, 0, 1, 0, 0, 0, 0, 0, 0]);
    let (p, r) = socks5_on_connect(false);
    assert!(matches!(p, Socks5Phase::Done));
    assert_eq!(r, vec![5, 5, 0, 1, 0, 0, 0, 0, 0, 0]);
}

#[test]
fn ipv4_and_ipv6_targets() {
    let (p, _) = run(Socks5Phase::Request, &[5, 1, 0, 1]);
    let (p, _) = run(p, &[192, 168, 0, 10]);
    let (p, _) = run(p, &[0, 22]);
    match p {
        Socks5Phase::Connect(t) => {
            assert_eq!(t.port, 22);
            match t.host {
                Socks5Host::Ipv4(a) => assert_eq!(ipv4_text(&a), "192.168.0.10"),
                _ => panic!("expected ipv4"),
            }
        }
        _ => panic!("expected connect"),
    }
    let (p, _) = run(Socks5Phase::Request, &[5, 1, 0, 4]);
    assert_eq!(socks5_wants(&p), Some(16));
    assert_eq!(ipv4_text(&[0, 9, 99, 255]), "0.9.99.255");
}

#[test]
fn protocol_errors() {
    let (p, r) = run(Socks5Phase::Greeting, &[4, 1]);
    assert!(matches!(p, Socks5Phase::Failed(Socks5Error::NotSocks5)));
    assert!(r.is_none());
    let (p, r) = run(Socks5Phase::Request, &[5, 2, 0, 1]);
    assert!(matches!(p, Socks5Phase::Failed(Socks5Error::OnlyConnect)));
    assert_eq!(r, Some(vec![5, 7, 0, 1, 0, 0, 0, 0, 0, 0]));
    let (p, r) = run(Socks5Phase::Request, &[5, 1, 0, 9]);
    assert!(matches!(p, Socks5Phase::Failed(Socks5Error::BadAddressType)));
    assert_eq!(r, Some(vec![5, 8, 0, 1, 0, 0, 0, 0, 0, 0]));
    assert_eq!(reply(7), vec![5, 7, 0, 1, 0, 0, 0, 0, 0, 0]);
    assert_eq!(socks5_wants(&Socks5Phase::Relay), None);
    // zero methods offered: nothing to read, still answered
    let (p, _) = run(Socks5Phase::Greeting, &[5, 0]);
    let (_, r) = run(p, &[]);
    assert_eq!(r, Some(vec![5, 0]));
}

#[test]
fn target_host_texts() {
    assert_eq!(host_text(&Socks5Host::Ipv4(vec![127, 0, 0, 1])).as_deref(), Some("127.0.0.1"));
    assert_eq!(host_text(&Socks5Host::Ipv4(vec![1, 2, 3])), None);
    assert_eq!(host_text(&Socks5Host::Domain(b"db.internal".to_vec())).as_deref(), Some("db.internal"));
    assert_eq!(host_text(&Socks5Host::Domain(vec![b'a', 0xff, b'b'])).as_deref(), Some("a\u{fffd}b"));
    assert_eq!(host_text(&Socks5Host::Ipv6(vec![0; 16])), None);
}
