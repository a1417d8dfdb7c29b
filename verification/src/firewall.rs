//! The packet-filter rules the console can apply to a suspicious peer.
//!
//! Blocking is a one-way door: the library fixes the exact rule to insert,
//! and the unverified shell runs the packet-filter tool with precisely
//! these arguments.

use vstd::prelude::*;

verus! {

/// Builder of the packet-filter rules: block a source address, or a
/// destination port.
pub struct Firewall;

impl Firewall {
    /// The arguments of the rule dropping all inbound traffic from `ip`.
    pub fn block_ip_args(ip: &str) -> (r: Vec<String>)
        ensures
            r@.len() == 9,
            r@[0]@ == "add"@,
            r@[1]@ == "rule"@,
            r@[2]@ == "inet"@,
            r@[3]@ == "filter"@,
            r@[4]@ == "input"@,
            r@[5]@ == "ip"@,
            r@[6]@ == "saddr"@,
            r@[7]@ == ip@,
            r@[8]@ == "drop"@,
    {
        let mut args: Vec<String> = Vec::new();
        args.push(String::from_str("add"));
        args.push(String::from_str("rule"));
        args.push(String::from_str("inet"));
        args.push(String::from_str("filter"));
        args.push(String::from_str("input"));
        args.push(String::from_str("ip"));
        args.push(String::from_str("saddr"));
        args.push(ip.to_owned());
        args.push(String::from_str("drop"));
        args
    }

    /// The arguments of the rule dropping all inbound TCP traffic to
    /// `port`.
    pub fn block_port_args(port: &str) -> (r: Vec<String>)
        ensures
            r@.len() == 9,
            r@[0]@ == "add"@,
            r@[1]@ == "rule"@,
            r@[2]@ == "inet"@,
            r@[3]@ == "filter"@,
            r@[4]@ == "input"@,
            r@[5]@ == "tcp"@,
            r@[6]@ == "dport"@,
            r@[7]@ == port@,
            r@[8]@ == "drop"@,
    {
        let mut args: Vec<String> = Vec::new();
        args.push(String::from_str("add"));
        args.push(String::from_str("rule"));
        args.push(String::from_str("inet"));
        args.push(String::from_str("filter"));
        args.push(String::from_str("input"));
        args.push(String::from_str("tcp"));
        args.push(String::from_str("dport"));
        args.push(port.to_owned());
        args.push(String::from_str("drop"));
        args
    }
}

} // verus!
