//! Classification of one captured packet into a display summary.
//!
//! The capture engine slices each frame's link, network and transport
//! headers at the edge and hands their plain fields over; everything that
//! is decided about a packet - its protocol label, the address and info
//! columns, and which local process owns one of its ports - happens here.

use vstd::prelude::*;
use crate::text::{append_u64, dec};

verus! {

/// One row of the packet table.
pub struct PacketSummary {
    /// Ordinal of the packet in the capture, starting at one.
    pub id: usize,
    pub timestamp: String,
    pub src: String,
    pub dst: String,
    pub protocol: String,
    pub length: usize,
    /// Short summary: ports, or the ICMP type, or the ARP note.
    pub info: String,
    pub src_port: u16,
    pub dst_port: u16,
    pub process_name: Option<String>,
    pub pid: Option<u32>,
    pub user: Option<String>,
}

/// The plain fields read from the link header.
pub struct LinkInfo {
    pub ether_type: u16,
    pub src_mac: String,
    pub dst_mac: String,
}

/// The plain fields read from the network header.
pub struct IpInfo {
    pub v6: bool,
    pub src_addr: String,
    pub dst_addr: String,
}

/// The plain fields read from the transport header.
#[derive(Clone, Copy, Debug, PartialEq, Eq, Structural)]
pub enum TransportInfo {
    Tcp { src_port: u16, dst_port: u16 },
    Udp { src_port: u16, dst_port: u16 },
    Icmp { icmp_type: u8, icmp_code: u8 },
    Icmpv6 { icmp_type: u8, icmp_code: u8 },
    OtherTransport,
}

/// One socket known to belong to a local process.
pub struct PortEntry {
    pub proto: u8,
    pub port: u16,
    pub name: String,
    pub pid: u32,
    pub user: String,
}

/// The ethertype of an ARP frame.
pub const ETHER_TYPE_ARP: u16 = 0x0806;

/// The source and destination ports of the packet (zero without TCP/UDP).
pub open spec fn ports_of(tr: Option<TransportInfo>) -> (u16, u16) {
    match tr {
        Some(TransportInfo::Tcp { src_port, dst_port }) => (src_port, dst_port),
        Some(TransportInfo::Udp { src_port, dst_port }) => (src_port, dst_port),
        _ => (0u16, 0u16),
    }
}

/// The IP protocol number used for the socket lookup (zero without
/// TCP/UDP).
pub open spec fn proto_num_of(tr: Option<TransportInfo>) -> u8 {
    match tr {
        Some(TransportInfo::Tcp { .. }) => 6u8,
        Some(TransportInfo::Udp { .. }) => 17u8,
        _ => 0u8,
    }
}

/// Whether the frame is an ARP frame.
pub open spec fn is_arp(link: Option<LinkInfo>) -> bool {
    match link {
        Some(l) => l.ether_type == ETHER_TYPE_ARP,
        None => false,
    }
}

/// The protocol column: the transport protocol when one was sliced, else
/// the network layer, else ARP, else a raw frame.
pub open spec fn protocol_name_spec(
    link: Option<LinkInfo>,
    ip: Option<IpInfo>,
    tr: Option<TransportInfo>,
) -> Seq<char> {
    match tr {
        Some(TransportInfo::Tcp { .. }) => "TCP"@,
        Some(TransportInfo::Udp { .. }) => "UDP"@,
        Some(TransportInfo::Icmp { .. }) => "ICMP"@,
        Some(TransportInfo::Icmpv6 { .. }) => "ICMPv6"@,
        _ => match ip {
            Some(i) => if i.v6 {
                "IPv6"@
            } else {
                "IPv4"@
            },
            None => if is_arp(link) {
                "ARP"@
            } else {
                "RAW"@
            },
        },
    }
}

/// The source column: the IP source, else the ARP source hardware
/// address, else unknown.
pub open spec fn src_spec(link: Option<LinkInfo>, ip: Option<IpInfo>) -> Seq<char> {
    match ip {
        Some(i) => i.src_addr@,
        None => if is_arp(link) {
            link->0.src_mac@
        } else {
            "?"@
        },
    }
}

/// The destination column, chosen like the source column.
pub open spec fn dst_spec(link: Option<LinkInfo>, ip: Option<IpInfo>) -> Seq<char> {
    match ip {
        Some(i) => i.dst_addr@,
        None => if is_arp(link) {
            link->0.dst_mac@
        } else {
            "?"@
        },
    }
}

/// The info column: the port pair when a source port is known, else the
/// ICMP type and code, else the ARP note, else empty.
pub open spec fn info_spec(link: Option<LinkInfo>, tr: Option<TransportInfo>) -> Seq<char> {
    if ports_of(tr).0 != 0 {
        dec(ports_of(tr).0 as nat) + " -> "@ + dec(ports_of(tr).1 as nat)
    } else {
        match tr {
            Some(TransportInfo::Icmp { icmp_type, icmp_code }) => "Type: "@ + dec(
                icmp_type as nat,
            ) + " Code: "@ + dec(icmp_code as nat),
            Some(TransportInfo::Icmpv6 { icmp_type, icmp_code }) => "Type: "@ + dec(
                icmp_type as nat,
            ) + " Code: "@ + dec(icmp_code as nat),
            _ => if is_arp(link) {
                "ARP Request/Reply"@
            } else {
                Seq::empty()
            },
        }
    }
}

/// The first socket-table entry for a protocol and port.
pub open spec fn lookup_spec(t: Seq<PortEntry>, proto: u8, port: u16) -> Option<
    (Seq<char>, u32, Seq<char>),
>
    decreases t.len(),
{
    if t.len() == 0 {
        None
    } else if t[0].proto == proto && t[0].port == port {
        Some((t[0].name@, t[0].pid, t[0].user@))
    } else {
        lookup_spec(t.drop_first(), proto, port)
    }
}

/// The process charged with the packet: the owner of the source port,
/// else of the destination port; none without TCP/UDP.
pub open spec fn process_of(t: Seq<PortEntry>, tr: Option<TransportInfo>) -> Option<
    (Seq<char>, u32, Seq<char>),
> {
    if proto_num_of(tr) == 0 {
        None
    } else {
        match lookup_spec(t, proto_num_of(tr), ports_of(tr).0) {
            Some(e) => Some(e),
            None => lookup_spec(t, proto_num_of(tr), ports_of(tr).1),
        }
    }
}

/// Finds the first entry of the socket table for a protocol and port.
fn lookup(table: &Vec<PortEntry>, proto: u8, port: u16) -> (r: Option<(String, u32, String)>)
    ensures
        match r {
            Some(e) => lookup_spec(table@, proto, port) == Some((e.0@, e.1, e.2@)),
            None => lookup_spec(table@, proto, port) is None,
        },
{
    let mut i: usize = 0;
    proof {
        assert(table@.skip(0) =~= table@);
    }
    while i < table.len()
        invariant
            i <= table@.len(),
            lookup_spec(table@, proto, port) == lookup_spec(
                table@.skip(i as int),
                proto,
                port,
            ),
        decreases table@.len() - i,
    {
        proof {
            assert(table@.skip(i as int)[0] == table@[i as int]);
            assert(table@.skip(i as int).drop_first() =~= table@.skip(i + 1));
        }
        let e = &table[i];
        if e.proto == proto && e.port == port {
            return Some((e.name.clone(), e.pid, e.user.clone()));
        }
        i = i + 1;
    }
    proof {
        assert(table@.skip(i as int).len() == 0);
    }
    None
}

/// Builds the display row of one packet from its sliced header fields and
/// the socket table.
pub fn summarize(
    id: usize,
    timestamp: String,
    length: usize,
    link: Option<LinkInfo>,
    ip: Option<IpInfo>,
    transport: Option<TransportInfo>,
    table: &Vec<PortEntry>,
) -> (r: PacketSummary)
    ensures
        r.id == id,
        r.timestamp == timestamp,
        r.length == length,
        r.src_port == ports_of(transport).0,
        r.dst_port == ports_of(transport).1,
        r.protocol@ == protocol_name_spec(link, ip, transport),
        r.src@ == src_spec(link, ip),
        r.dst@ == dst_spec(link, ip),
        r.info@ == info_spec(link, transport),
        match process_of(table@, transport) {
            Some(e) => {
                &&& r.process_name matches Some(n) && n@ == e.0
                &&& r.pid == Some(e.1)
                &&& r.user matches Some(u) && u@ == e.2
            },
            None => r.process_name is None && r.pid is None && r.user is None,
        },
{
    let arp = match &link {
        Some(l) => l.ether_type == ETHER_TYPE_ARP,
        None => false,
    };
    let (src_port, dst_port) = match &transport {
        Some(TransportInfo::Tcp { src_port, dst_port }) => (*src_port, *dst_port),
        Some(TransportInfo::Udp { src_port, dst_port }) => (*src_port, *dst_port),
        _ => (0u16, 0u16),
    };
    let proto_num: u8 = match &transport {
        Some(TransportInfo::Tcp { .. }) => 6,
        Some(TransportInfo::Udp { .. }) => 17,
        _ => 0,
    };
    let protocol = match &transport {
        Some(TransportInfo::Tcp { .. }) => String::from_str("TCP"),
        Some(TransportInfo::Udp { .. }) => String::from_str("UDP"),
        Some(TransportInfo::Icmp { .. }) => String::from_str("ICMP"),
        Some(TransportInfo::Icmpv6 { .. }) => String::from_str("ICMPv6"),
        _ => match &ip {
            Some(i) => if i.v6 {
                String::from_str("IPv6")
            } else {
                String::from_str("IPv4")
            },
            None => if arp {
                String::from_str("ARP")
            } else {
                String::from_str("RAW")
            },
        },
    };
    let mut info = String::new();
    if src_port != 0 {
        append_u64(&mut info, src_port as u64);
        info.append(" -> ");
        append_u64(&mut info, dst_port as u64);
    } else {
        match &transport {
            Some(TransportInfo::Icmp { icmp_type, icmp_code }) => {
                info.append("Type: ");
                append_u64(&mut info, *icmp_type as u64);
                info.append(" Code: ");
                append_u64(&mut info, *icmp_code as u64);
            },
            Some(TransportInfo::Icmpv6 { icmp_type, icmp_code }) => {
                info.append("Type: ");
                append_u64(&mut info, *icmp_type as u64);
                info.append(" Code: ");
                append_u64(&mut info, *icmp_code as u64);
            },
            _ => {
                if arp {
                    info.append("ARP Request/Reply");
                }
            },
        }
    }
    let (src, dst) = match ip {
        Some(i) => (i.src_addr, i.dst_addr),
        None => match link {
            Some(l) => if l.ether_type == ETHER_TYPE_ARP {
                (l.src_mac, l.dst_mac)
            } else {
                (String::from_str("?"), String::from_str("?"))
            },
            None => (String::from_str("?"), String::from_str("?")),
        },
    };
    let owner = if proto_num != 0 {
        match lookup(table, proto_num, src_port) {
            Some(e) => Some(e),
            None => lookup(table, proto_num, dst_port),
        }
    } else {
        None
    };
    let (process_name, pid, user) = match owner {
        Some(e) => (Some(e.0), Some(e.1), Some(e.2)),
        None => (None, None, None),
    };
    PacketSummary {
        id,
        timestamp,
        src,
        dst,
        protocol,
        length,
        info,
        src_port,
        dst_port,
        process_name,
        pid,
        user,
    }
}

} // verus!
