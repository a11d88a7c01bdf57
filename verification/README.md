# mininetstack

A userspace TCP/IP stack behind a Linux TUN interface, verified with Verus.

- `src/` is the verified library: the internet checksum, parsers for
  Ethernet, IPv4, ICMP, UDP and TCP, the builders of reply packets, the
  minimal HTTP server, the TCP connection state machine and the handling of
  one packet read from the device.
- `app/main.rs` opens the TUN device, reads packets, hands them to
  `stack::process_packet`, writes the replies back and prints what happened.
- `tests/` runs the library on concrete packets.
