use devo_core::capture::{
    summarize, IpInfo, LinkInfo, PacketSummary, PortEntry, TransportInfo, ETHER_TYPE_ARP,
};

fn table() -> Vec<PortEntry> {
    vec![
        PortEntry {
            proto: 6,
            port: 443,
            name: String::from("nginx"),
            pid: 812,
            user: String::from("www"),
        },
        PortEntry {
            proto: 17,
            port: 53,
            name: String::from("dnsmasq"),
            pid: 99,
            user: String::from("root"),
        },
    ]
}

fn v4(src: &str, dst: &str) -> Option<IpInfo> {
    Some(IpInfo {
        v6: false,
        src_addr: String::from(src),
        dst_addr: String::from(dst),
    })
}

#[test]
fn tcp_packet_summary() {
    let s: PacketSummary = summarize(
        1,
        String::from("12:00:00.000"),
        1514,
        None,
        v4("10.0.0.2", "10.0.0.9"),
        Some(TransportInfo::Tcp {
            src_port: 443,
            dst_port: 51812,
        }),
        &table(),
    );
    assert_eq!(s.protocol, "TCP");
    assert_eq!(s.src, "10.0.0.2");
    assert_eq!(s.dst, "10.0.0.9");
    assert_eq!(s.info, "443 -> 51812");
    assert_eq!(s.src_port, 443);
    assert_eq!(s.dst_port, 51812);
    assert_eq!(s.process_name.as_deref(), Some("nginx"));
    assert_eq!(s.pid, Some(812));
    assert_eq!(s.user.as_deref(), Some("www"));
}

#[test]
fn udp_lookup_falls_back_to_destination_port() {
    let s = summarize(
        2,
        String::from("12:00:01.000"),
        90,
        None,
        v4("10.0.0.2", "10.0.0.1"),
        Some(TransportInfo::Udp {
            src_port: 40000,
            dst_port: 53,
        }),
        &table(),
    );
    assert_eq!(s.protocol, "UDP");
    assert_eq!(s.info, "40000 -> 53");
    assert_eq!(s.process_name.as_deref(), Some("dnsmasq"));
    assert_eq!(s.pid, Some(99));
}

#[test]
fn icmp_packet_shows_type_and_code() {
    let s = summarize(
        3,
        String::from("12:00:02.000"),
        98,
        None,
        v4("10.0.0.2", "10.0.0.1"),
        Some(TransportInfo::Icmp {
            icmp_type: 3,
            icmp_code: 1,
        }),
        &table(),
    );
    assert_eq!(s.protocol, "ICMP");
    assert_eq!(s.info, "Type: 3 Code: 1");
    assert_eq!(s.src_port, 0);
    assert!(s.process_name.is_none());
    assert!(s.pid.is_none());
    assert!(s.user.is_none());
}

#[test]
fn arp_frame_uses_hardware_addresses() {
    let link = Some(LinkInfo {
        ether_type: ETHER_TYPE_ARP,
        src_mac: String::from("aa:bb:cc:dd:ee:ff"),
        dst_mac: String::from("ff:ff:ff:ff:ff:ff"),
    });
    let s = summarize(4, String::from("12:00:03.000"), 60, link, None, None, &table());
    assert_eq!(s.protocol, "ARP");
    assert_eq!(s.src, "aa:bb:cc:dd:ee:ff");
    assert_eq!(s.dst, "ff:ff:ff:ff:ff:ff");
    assert_eq!(s.info, "ARP Request/Reply");
}

#[test]
fn bare_frame_is_raw() {
    let link = Some(LinkInfo {
        ether_type: 0x0800,
        src_mac: String::from("aa:aa:aa:aa:aa:aa"),
        dst_mac: String::from("bb:bb:bb:bb:bb:bb"),
    });
    let s = summarize(5, String::from("12:00:04.000"), 60, link, None, None, &table());
    assert_eq!(s.protocol, "RAW");
    assert_eq!(s.src, "?");
    assert_eq!(s.dst, "?");
    assert_eq!(s.info, "");
}

#[test]
fn ipv6_without_transport() {
    let s = summarize(
        6,
        String::from("12:00:05.000"),
        120,
        None,
        Some(IpInfo {
            v6: true,
            src_addr: String::from("fe80::1"),
            dst_addr: String::from("fe80::2"),
        }),
        Some(TransportInfo::OtherTransport),
        &table(),
    );
    assert_eq!(s.protocol, "IPv6");
    assert_eq!(s.src, "fe80::1");
    assert!(s.process_name.is_none());
}
