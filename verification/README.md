# netflow_agent

A host flow-export agent: it captures IPv4 traffic on a local interface,
aggregates TCP/UDP packets into flows, and exports expired flows to a
collector as IPFIX (RFC 7011) or NetFlow v9 (RFC 3954) over UDP.

The library under `src/` is verified with Verus:

- `parse` — extraction of flow keys from Ethernet frames (optional 802.1Q tag);
- `flow` — the flow table: counting packets into flows and expiring them on
  the active and inactive timeouts;
- `ipfix`, `netflow_v9`, `export` — byte-exact message encoding and the state
  each exporter keeps between datagrams (sequence numbers, template refresh,
  splitting a batch into datagrams below the MTU);
- `config` — validation of the configuration;
- `capture` — choice of the capture device;
- `service` — decisions of the Windows service wrapper;
- `bytes` — big-endian encodings, written through `byteorder`.

Time enters the library as plain numbers: monotonic nanoseconds for flow
timestamps and wall-clock nanoseconds since the Unix epoch for export times.

`app/` holds the program around the library: command line, logging, pcap
capture, UDP sockets, reading the TOML file, and the Windows service glue.
