//! Size limits of the HTTP server.
use vstd::prelude::*;

verus! {

/// Largest request head (request line and headers), and largest chunked trailer section.
pub const MAX_HEADER: usize = 32768;

/// Largest upload body: 2 GiB.
pub const MAX_UPLOAD: u64 = 2147483648;

/// Largest download: 512 MiB.
pub const MAX_DOWNLOAD: usize = 536870912;

/// Download size when the query names none: 32 MiB.
pub const DEFAULT_DOWNLOAD: usize = 33554432;

/// Size of the blocks in which bodies are read and written: 128 KiB.
pub const BLOCK: usize = 131072;

/// Longest chunk-size line of a chunked body.
pub const MAX_CHUNK_LINE: usize = 128;

} // verus!
