use usbip_tools::client::discovery;
use usbip_tools::client::discovery::{DiscoverResp, Discovery, DiscoveryCfg, DiscoveryEvent, IfAddr};
use usbip_tools::net;
use usbip_tools::net::{IpAddr, SocketAddr};
use usbip_tools::protocol;
use usbip_tools::server::discovery_udp;

fn v4(a: u8, b: u8, c: u8, d: u8) -> u32 {
    u32::from_be_bytes([a, b, c, d])
}

fn info(name: &str) -> DiscoverResp {
    DiscoverResp { server_name: Some(name.to_string()), web_url: None, version: None }
}

fn addr(ip: u32, port: u16) -> SocketAddr {
    SocketAddr { ip: IpAddr::V4(ip), port }
}

#[test]
fn the_request_is_a_line() {
    assert_eq!(&protocol::MAGIC, b"USBIP_DISCOVER\n");
    assert_eq!(protocol::DISCOVERY_PORT, 3240);
    assert!(discovery_udp::is_discover_request(&protocol::MAGIC));
    assert!(!discovery_udp::is_discover_request(b"USBIP_DISCOVER"));
    assert!(!discovery_udp::is_discover_request(b"USBIP_DISCOVER\n\n"));
    assert!(!discovery_udp::is_discover_request(b"USBIP_DISCOVER "));
    assert!(!discovery_udp::is_discover_request(b""));
}

#[test]
fn broadcast_addresses() {
    assert_eq!(discovery::ipv4_broadcast(v4(192, 168, 1, 7), v4(255, 255, 255, 0)), v4(192, 168, 1, 255));
    assert_eq!(discovery::ipv4_broadcast(v4(10, 1, 2, 3), v4(255, 0, 0, 0)), v4(10, 255, 255, 255));
    assert_eq!(discovery::ipv4_broadcast(v4(10, 1, 2, 3), 0), 0);
    assert_eq!(discovery::ipv4_broadcast(v4(10, 1, 2, 3), 0xffff_ffff), v4(10, 1, 2, 3));
}

#[test]
fn interfaces_are_asked() {
    let ifs = vec![
        IfAddr::V4 { ip: v4(127, 0, 0, 1), netmask: v4(255, 0, 0, 0) },
        IfAddr::V4 { ip: v4(192, 168, 1, 7), netmask: v4(255, 255, 255, 0) },
        IfAddr::V6,
        IfAddr::V4 { ip: v4(10, 0, 0, 1), netmask: 0 },
        IfAddr::V4 { ip: v4(10, 0, 0, 2), netmask: v4(255, 255, 0, 0) },
        IfAddr::V4 { ip: v4(192, 168, 1, 9), netmask: v4(255, 255, 255, 0) },
    ];
    assert_eq!(
        discovery::compute_ipv4_broadcast_targets(&ifs, 5),
        vec![addr(v4(192, 168, 1, 255), 5), addr(v4(10, 0, 255, 255), 5), addr(v4(192, 168, 1, 255), 5)]
    );
    let cfg = DiscoveryCfg::for_interfaces(&ifs);
    assert_eq!(
        cfg.targets,
        vec![
            addr(v4(10, 0, 255, 255), 3240),
            addr(v4(192, 168, 1, 255), 3240),
            addr(v4(255, 255, 255, 255), 3240),
        ]
    );
    assert_eq!((cfg.timeout_ms, cfg.max_replies), (900, 64));
    let none = DiscoveryCfg::for_interfaces(&vec![]).clone();
    assert_eq!(none.targets, vec![addr(0xffff_ffff, 3240)]);
}

#[test]
fn targets_are_in_the_order_of_their_texts() {
    let ifs = vec![
        IfAddr::V4 { ip: v4(9, 0, 0, 0), netmask: v4(255, 255, 255, 254) },
        IfAddr::V4 { ip: v4(10, 0, 0, 0), netmask: v4(255, 255, 255, 254) },
    ];
    let cfg = DiscoveryCfg::for_interfaces(&ifs);
    let texts: Vec<String> = cfg.targets.iter().map(net::addr_string).collect();
    assert_eq!(texts, vec!["10.0.0.1:3240", "255.255.255.255:3240", "9.0.0.1:3240"]);
}

#[test]
fn replies_are_collected_by_address() {
    let mut d = Discovery::new(2);
    assert!(d.wants_more(false));
    assert!(!d.wants_more(true));
    let packet = |ip, name: &str| DiscoveryEvent::Packet { len: 9, peer: addr(ip, 1), info: Some(info(name)) };
    assert!(d.on_event(packet(5, "five")));
    assert!(d.on_event(DiscoveryEvent::Packet { len: 0, peer: addr(1, 1), info: Some(info("none")) }));
    assert!(d.on_event(DiscoveryEvent::Packet { len: 3, peer: addr(1, 1), info: None }));
    assert!(d.wants_more(false));
    assert!(d.on_event(packet(5, "five again")));
    assert!(d.wants_more(false));
    assert!(d.on_event(packet(2, "two")));
    assert!(!d.wants_more(false));
    assert!(!d.on_event(DiscoveryEvent::ReceiveFailed));
    assert!(!d.on_event(DiscoveryEvent::DeadlinePassed));
    let got: Vec<_> = d.finish().into_iter().map(|s| (s.addr, s.info.server_name.unwrap())).collect();
    assert_eq!(got, vec![(addr(2, 1), "two".to_string()), (addr(5, 1), "five again".to_string())]);
}

#[test]
fn the_server_answers() {
    let cfg = discovery_udp::DiscoveryCfg {
        bind: addr(0, 3240),
        web_listen: addr(0, 8080),
    };
    let r = discovery_udp::reply(&cfg, "desk", &IpAddr::V4(v4(192, 168, 1, 2)), "0.1.0");
    assert_eq!((r.server_name.as_str(), r.web_url.as_str(), r.version.as_str()), ("desk", "http://192.168.1.2:8080/", "0.1.0"));
    let r = discovery_udp::reply(&cfg, "desk", &IpAddr::V6(1), "0.1.0");
    assert_eq!(r.web_url, "http://::1:8080/");
    assert_eq!(discovery_udp::server_name(Some("a".to_string())), "a");
    assert_eq!(discovery_udp::server_name(None), "usbip-server");
    assert_eq!(discovery_udp::probe_addr(&addr(7, 9)), addr(0, 0));
    let six = SocketAddr { ip: IpAddr::V6(7), port: 9 };
    assert_eq!(discovery_udp::probe_addr(&six), SocketAddr { ip: IpAddr::V6(0), port: 0 });
}
