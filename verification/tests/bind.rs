use omp_deck::bind::{
    choose_bind, first_tailscale_ip, parse_explicit, tailscale_output, IpAddr, SocketAddr,
};

fn v4(octets: [u8; 4], port: u16) -> SocketAddr {
    SocketAddr {
        ip: IpAddr::V4(octets),
        port,
        scope_id: 0,
    }
}

fn v6(segments: [u16; 8], port: u16) -> SocketAddr {
    SocketAddr {
        ip: IpAddr::V6(segments),
        port,
        scope_id: 0,
    }
}

#[test]
fn uses_first_tailscale_ipv4_with_os_chosen_port() {
    let b = choose_bind(None, Some("100.64.0.7\n100.64.0.8\n")).unwrap();
    assert_eq!(b.addr, v4([100, 64, 0, 7], 0));
    assert!(b.warning.is_none());
}

#[test]
fn skips_ipv6_and_junk_lines() {
    let b = choose_bind(None, Some("fd7a:115c::1\nnope\n100.100.1.2\n")).unwrap();
    assert_eq!(b.addr.ip, IpAddr::V4([100, 100, 1, 2]));
}

#[test]
fn default_is_never_unspecified() {
    let inputs = [
        None,
        Some(""),
        Some("garbage"),
        Some("0.0.0.0\n"),
        Some("::\n"),
        Some("127.0.0.1\n"),
        Some("100.1.2.3\n"),
    ];
    for input in inputs {
        let b = choose_bind(None, input).unwrap();
        assert_ne!(b.addr.ip, IpAddr::V4([0, 0, 0, 0]), "input {input:?}");
        assert_ne!(
            b.addr.ip,
            IpAddr::V6([0, 0, 0, 0, 0, 0, 0, 0]),
            "input {input:?}"
        );
        assert_eq!(b.addr.port, 0, "input {input:?}");
    }
}

#[test]
fn falls_back_to_loopback_with_warning() {
    let b = choose_bind(None, None).unwrap();
    assert_eq!(b.addr, v4([127, 0, 0, 1], 0));
    assert!(b.warning.unwrap().contains("127.0.0.1"));
}

#[test]
fn explicit_port_is_used_as_given() {
    let b = choose_bind(Some("100.64.0.7:9999"), Some("100.1.1.1")).unwrap();
    assert_eq!(b.addr, v4([100, 64, 0, 7], 9999));
    let b = choose_bind(Some("127.0.0.1"), None).unwrap();
    assert_eq!(b.addr, v4([127, 0, 0, 1], 0));
    assert!(choose_bind(Some("bogus"), None).is_err());
}

#[test]
fn fallback_warning_text() {
    let b = choose_bind(None, Some("nope")).unwrap();
    assert_eq!(
        b.warning.unwrap(),
        "could not detect a Tailscale IPv4 address (`tailscale ip -4`); falling back to 127.0.0.1"
    );
}

#[test]
fn invalid_bind_is_quoted() {
    assert_eq!(
        choose_bind(Some(" a\"b\n "), None).unwrap_err(),
        "invalid --bind \"a\\\"b\", expected ADDR:PORT"
    );
}

#[test]
fn explicit_ipv4_grammar() {
    assert_eq!(parse_explicit(" 1.2.3.4:65535\n"), Ok(v4([1, 2, 3, 4], 65535)));
    assert_eq!(parse_explicit("0.0.0.0:80"), Ok(v4([0, 0, 0, 0], 80)));
    for bad in [
        "1.2.3",
        "1.2.3.4.5",
        "1.2.3.256",
        "01.2.3.4",
        "1.2.3.4:65536",
        "1.2.3.4:",
        "+1.2.3.4",
        "1.2.3.4:+80",
        "1. 2.3.4",
        "",
        ":80",
    ] {
        assert!(parse_explicit(bad).is_err(), "{bad}");
    }
}

#[test]
fn explicit_ipv6_grammar() {
    assert_eq!(parse_explicit("::1"), Ok(v6([0, 0, 0, 0, 0, 0, 0, 1], 0)));
    assert_eq!(
        parse_explicit("[fd7a:115c::1]:8080"),
        Ok(v6([0xfd7a, 0x115c, 0, 0, 0, 0, 0, 1], 8080))
    );
    assert_eq!(
        parse_explicit("1:2:3:4:5:6:7:8"),
        Ok(v6([1, 2, 3, 4, 5, 6, 7, 8], 0))
    );
    assert_eq!(
        parse_explicit("::ffff:1.2.3.4"),
        Ok(v6([0, 0, 0, 0, 0, 0xffff, 0x0102, 0x0304], 0))
    );
    assert_eq!(
        parse_explicit("[fe80::1%7]:1"),
        Ok(SocketAddr {
            ip: IpAddr::V6([0xfe80, 0, 0, 0, 0, 0, 0, 1]),
            port: 1,
            scope_id: 7,
        })
    );
    for bad in [
        "1:2:3:4:5:6:7",
        "1:2:3:4:5:6:7:8:9",
        "1::2::3",
        "12345::",
        "[::1]",
        "::1:80:",
        "fe80::1%7",
        "[::g]:1",
    ] {
        assert!(parse_explicit(bad).is_err(), "{bad}");
    }
}

#[test]
fn tailscale_lines() {
    assert_eq!(
        first_tailscale_ip("0.0.0.0\r\n127.9.9.9\r\n 100.64.0.1 \r\n"),
        Some([100, 64, 0, 1])
    );
    assert_eq!(first_tailscale_ip("100.64.0.1:80"), None);
    assert_eq!(first_tailscale_ip(""), None);
}

#[test]
fn tailscale_output_is_decoded_leniently() {
    assert_eq!(
        tailscale_output(true, &vec![b'1', 0xff, b'2']),
        Some("1\u{fffd}2".to_string())
    );
    assert_eq!(tailscale_output(false, &vec![b'1']), None);
}
