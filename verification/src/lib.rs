//! The verified core of a small host-security lab: a ransomware
//! detection-and-response agent, and the decision logic of its companion
//! capture console.
//!
//! For the agent, the library holds the honeypot tripwire test, the
//! entropy-based content classifier, the one-shot response state machine,
//! the snapshot/restore model of the protected directory, and the codec of
//! the distress-alert wire protocol. For the console it holds the packet
//! summary rules, the protocol-tree flattening and the selection state.
//! All I/O (file system, sockets, process control, capture) lives in the
//! unverified shells around the library, which feed plain values in and
//! carry the decisions out.

pub mod capture;
pub mod coordinator;
pub mod entropy;
pub mod firewall;
pub mod grid;
pub mod honeypot;
pub mod monitor;
pub mod panel;
pub mod ptree;
pub mod snapshot;
pub mod text;
