//! A small userspace TCP/IP stack: packet parsers, reply builders, the
//! internet checksum and the TCP connection state machine.

pub mod checksum;
pub mod connection;
pub mod ethernet;
pub mod http;
pub mod icmp;
pub mod ipv4;
pub mod reply;
pub mod stack;
pub mod tcp;
pub mod text;
pub mod udp;
pub mod wire;
