# sitepi

The client-side logic of the SitePi SD-WAN site agent for Windows, written in
Verus and verified against its contracts.

- `src/` is the verified library: configuration resolution, the interface key
  file, the authorization request and its answers, the control-stream message
  format, the peer list and the routes installed through peers, the rows handed
  to the Windows forwarding table, and the reconnect schedule. Base64 decoding,
  network text (`ipnet`) and random numbers come from the `base64`, `ipnet`,
  `rand` and `x25519-dalek` crates through a few trusted wrappers in
  `src/codec.rs`, `src/addr.rs` and `src/text.rs`; base64 encoding is stated
  in full and decoding is proved to be its inverse.
- `app/` is the program around it: command line, configuration file, logging,
  the WireGuard NT adapter, HTTP, the connection loop and the Win32 routing
  calls. It builds on Windows only.
- `tests/` runs the library on concrete values.
