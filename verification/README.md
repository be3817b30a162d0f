# speedtest

A small self-hosted network speed test: an HTTP server for a browser test
(latency, download and upload), and an iperf3-compatible TCP server.

- `src/` is the verified library. Every decision the server takes is made
  there and proved against its contract: reading request heads and lines
  within their limits, decoding chunked uploads, routing, response bytes,
  asset fingerprints and page rendering, the iperf3 parameter JSON, the
  control protocol's state machine, its frames and its results.
- `app/` is the program around it: arguments, sockets, threads, deadlines,
  and the clock. It reads the web interface's files from `web/` at start.
- `tests/` runs the library on concrete inputs.
