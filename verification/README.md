# vigil-ids

A network intrusion detection library whose logic is verified with Verus,
and the `vigil-ids` command built on it.

## Layout

- `src/parser.rs`: decoding of Ethernet frames (IPv4, IPv6, TCP/UDP ports).
- `src/text.rs`: dotted-quad and RFC 5952 address texts.
- `src/capture/`: the pcap file format (`pcap_file.rs`), the decisions of
  live capture (`pcap_ffi.rs`: which interface names pass, how many packets
  are taken, when a capture stops, which error it reports), and the loop
  that runs the engine over packets.
- `src/rules/`: rules (`schema.rs`) and what a condition says of one packet.
- `src/engine/`: the detection engine (`mod.rs`), single-rule matching
  (`matcher.rs`) and the per-source port history (`history.rs`).
- `src/alerts/`: alert records and their JSON-lines and syslog framing.
- `src/cli.rs`: the command-line options.
- `app/`: the command: option parsing (clap), YAML rules files (serde_yaml),
  file and socket I/O, JSON serialisation (serde_json), and the libpcap
  calls, driven by the library's live-capture steps.

Every function of `src/` carries a contract. Verus proves all of them but
two trusted wrappers, whose contracts restate what the called code does:
`text::push_char` (std's `String::push`) and the private
`engine::par_stateless_detections` (rayon's parallel filter and collect). The laws of
the library (each port-scan rule judged on its own sliding window, per-source isolation, event
order, address texts, capture-file framing) are proof functions next to the
code they speak of.
