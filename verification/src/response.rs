//! HTTP responses: the bytes written for each reply.
use vstd::prelude::*;
use vstd::string::StringSliceAdditionalSpecFns;
use crate::chunked::ChunkError;
use crate::limits::BLOCK;
use crate::hash::{content_hash, fnv1a, hex16};
use crate::query::{query_position, query_value_spec};
use crate::text::{ascii_text, bytes_eq, dec, lemma_ascii_utf8, push_bytes, push_decimal};

verus! {

broadcast use vstd::utf8::encode_utf8_decode_utf8;

/// The reason phrase of a status code.
pub open spec fn reason_spec(status: u16) -> Seq<u8> {
    if status == 200 {
        "OK".spec_bytes()
    } else if status == 400 {
        "Bad Request".spec_bytes()
    } else if status == 404 {
        "Not Found".spec_bytes()
    } else if status == 417 {
        "Expectation Failed".spec_bytes()
    } else if status == 413 {
        "Payload Too Large".spec_bytes()
    } else if status == 431 {
        "Request Header Fields Too Large".spec_bytes()
    } else {
        "Error".spec_bytes()
    }
}

/// The `Cache-Control` value: a year and immutable for fingerprinted assets, else `no-store`.
pub open spec fn caching_spec(cache: bool) -> Seq<u8> {
    if cache {
        "public, max-age=31536000, immutable".spec_bytes()
    } else {
        "no-store".spec_bytes()
    }
}

/// The bytes of a complete response: status line, `Content-Type`, a
/// `Content-Length` equal to the body's length, `Cache-Control`,
/// `X-Content-Type-Options: nosniff`, `Connection: close`, a blank line, and the body.
#[verifier::opaque]
pub open spec fn response_spec(status: u16, kind: Seq<u8>, body: Seq<u8>, cache: bool) -> Seq<u8> {
    "HTTP/1.1 ".spec_bytes() + dec(status as nat) + " ".spec_bytes() + reason_spec(status)
        + "\r\nContent-Type: ".spec_bytes() + kind + "\r\nContent-Length: ".spec_bytes() + dec(body.len())
        + "\r\nCache-Control: ".spec_bytes() + caching_spec(cache)
        + "\r\nX-Content-Type-Options: nosniff\r\nConnection: close\r\n\r\n".spec_bytes() + body
}

fn reason(status: u16) -> (r: &'static str)
    ensures
        r.spec_bytes() == reason_spec(status),
{
    if status == 200 {
        "OK"
    } else if status == 400 {
        "Bad Request"
    } else if status == 404 {
        "Not Found"
    } else if status == 417 {
        "Expectation Failed"
    } else if status == 413 {
        "Payload Too Large"
    } else if status == 431 {
        "Request Header Fields Too Large"
    } else {
        "Error"
    }
}

/// The complete response with `status`, content type `kind` and `body`,
/// cached for a year when `cache`.
pub fn response(status: u16, kind: &str, body: &[u8], cache: bool) -> (r: Vec<u8>)
    ensures
        r@ == response_spec(status, kind.spec_bytes(), body@, cache),
{
    let mut out: Vec<u8> = Vec::new();
    push_bytes(&mut out, "HTTP/1.1 ".as_bytes());
    push_decimal(&mut out, status as u64);
    push_bytes(&mut out, " ".as_bytes());
    push_bytes(&mut out, reason(status).as_bytes());
    push_bytes(&mut out, "\r\nContent-Type: ".as_bytes());
    push_bytes(&mut out, kind.as_bytes());
    push_bytes(&mut out, "\r\nContent-Length: ".as_bytes());
    push_decimal(&mut out, body.len() as u64);
    push_bytes(&mut out, "\r\nCache-Control: ".as_bytes());
    let caching = if cache {
        "public, max-age=31536000, immutable"
    } else {
        "no-store"
    };
    push_bytes(&mut out, caching.as_bytes());
    push_bytes(&mut out, "\r\nX-Content-Type-Options: nosniff\r\nConnection: close\r\n\r\n".as_bytes());
    push_bytes(&mut out, body);
    proof {
        reveal(response_spec);
    }
    out
}

/// The head of a download response of `size` bytes.
pub open spec fn download_spec(size: nat) -> Seq<u8> {
    "HTTP/1.1 200 OK\r\nContent-Type: application/octet-stream\r\nContent-Length: ".spec_bytes() + dec(size)
        + "\r\nCache-Control: no-store\r\nContent-Encoding: identity\r\nConnection: close\r\n\r\n".spec_bytes()
}

/// The head of a download response whose body is `size` bytes (the body
/// itself is `size` bytes of 0x5a, written in blocks).
pub fn download(size: usize) -> (r: Vec<u8>)
    ensures
        r@ == download_spec(size as nat),
{
    let mut out: Vec<u8> = Vec::new();
    push_bytes(&mut out, "HTTP/1.1 200 OK\r\nContent-Type: application/octet-stream\r\nContent-Length: ".as_bytes());
    push_decimal(&mut out, size as u64);
    push_bytes(&mut out, "\r\nCache-Control: no-store\r\nContent-Encoding: identity\r\nConnection: close\r\n\r\n".as_bytes());
    out
}

/// The body of a download of `size` bytes: that many bytes `0x5a`.
pub open spec fn download_body(size: nat) -> Seq<u8> {
    Seq::new(size, |i: int| 0x5au8)
}

/// A whole download response: the head, then exactly the `size` bytes its
/// `Content-Length` announces.
pub open spec fn download_response(size: nat) -> Seq<u8> {
    download_spec(size) + download_body(size)
}

/// How many body bytes to write next when `sent` of `size` are written: a
/// block of at most [`BLOCK`] bytes, or 0 when all are written.
pub open spec fn download_block_spec(size: nat, sent: nat) -> nat {
    if sent >= size {
        0
    } else if size - sent < BLOCK {
        (size - sent) as nat
    } else {
        BLOCK as nat
    }
}

/// The size of the next block of a download of `size` bytes, `sent` of them written.
pub fn download_block(size: usize, sent: usize) -> (r: usize)
    ensures
        r == download_block_spec(size as nat, sent as nat),
{
    if sent >= size {
        0
    } else if size - sent < BLOCK {
        size - sent
    } else {
        BLOCK
    }
}

/// `count` body bytes of a download.
pub fn download_fill(count: usize) -> (r: Vec<u8>)
    ensures
        r@ == download_body(count as nat),
{
    let mut out: Vec<u8> = Vec::new();
    let mut i: usize = 0;
    while i < count
        invariant
            i <= count,
            out@ == download_body(i as nat),
        decreases count - i,
    {
        out.push(0x5a);
        i = i + 1;
        assert(out@ =~= download_body(i as nat));
    }
    out
}

/// The body bytes written from `sent` on, block after block.
pub open spec fn blocks_from(size: nat, sent: nat) -> Seq<u8>
    decreases size - sent,
{
    if sent >= size {
        seq![]
    } else {
        download_body(download_block_spec(size, sent)) + blocks_from(size, sent + download_block_spec(size, sent))
    }
}

proof fn lemma_blocks_from(size: nat, sent: nat)
    requires
        sent <= size,
    ensures
        blocks_from(size, sent) == download_body((size - sent) as nat),
    decreases size - sent,
{
    if sent < size {
        let b = download_block_spec(size, sent);
        lemma_blocks_from(size, sent + b);
        assert(download_body(b) + download_body((size - sent - b) as nat) =~= download_body((size - sent) as nat));
    } else {
        assert(download_body(0) =~= seq![]);
    }
}

/// A download writes its head and then blocks of 1 to [`BLOCK`] bytes until
/// none is left: they total exactly the `size` bytes the head announces.
pub proof fn lemma_download_blocks(size: nat)
    ensures
        forall|sent: nat| sent < size ==> 0 < #[trigger] download_block_spec(size, sent) <= BLOCK,
        download_spec(size) + blocks_from(size, 0) == download_response(size),
{
    lemma_blocks_from(size, 0);
}

/// The reply to a request for a static asset at `target`: the asset, cached
/// for a year when the target's `hash` query value is the asset's content
/// hash; uncached when it has no `hash`; 404 when the hash is another.
pub open spec fn asset_spec(target: Seq<u8>, kind: Seq<u8>, content: Seq<u8>) -> Seq<u8> {
    match query_value_spec(target, "hash".spec_bytes()) {
        Some(h) => if h == hex16(fnv1a(content)) {
            response_spec(200, kind, content, true)
        } else {
            response_spec(404, "text/plain".spec_bytes(), "asset not found".spec_bytes(), false)
        },
        None => response_spec(200, kind, content, false),
    }
}

/// The reply to a request for the asset `content` of type `kind` at `target`.
pub fn asset(target: &[u8], kind: &str, content: &[u8]) -> (r: Vec<u8>)
    ensures
        r@ == asset_spec(target@, kind.spec_bytes(), content@),
{
    match query_position(target, "hash".as_bytes()) {
        Some((a, b)) => {
            let hash = content_hash(content);
            let hash_bytes = hash.as_str().as_bytes();
            proof {
                crate::hash::lemma_hex16_ascii(fnv1a(content@));
                lemma_ascii_utf8(hex16(fnv1a(content@)));
                assert(hash_bytes@ == hex16(fnv1a(content@)));
            }
            if bytes_eq(&target[a..b], hash_bytes) {
                response(200, kind, content, true)
            } else {
                response(404, "text/plain", "asset not found".as_bytes(), false)
            }
        },
        None => response(200, kind, content, false),
    }
}

/// The reply to a chunked upload that was refused: 413 when too large, 400 otherwise.
pub fn upload_chunked(error: ChunkError) -> (r: Vec<u8>)
    ensures
        r@ == (if error == ChunkError::TooLarge {
            response_spec(413, "text/plain".spec_bytes(), "upload too large".spec_bytes(), false)
        } else {
            response_spec(400, "text/plain".spec_bytes(), "invalid chunked upload".spec_bytes(), false)
        }),
{
    match error {
        ChunkError::TooLarge => response(413, "text/plain", "upload too large".as_bytes(), false),
        _ => response(400, "text/plain", "invalid chunked upload".as_bytes(), false),
    }
}

/// The report of a completed upload: the bytes received and the seconds it
/// took, `seconds` being that duration already written as text.
pub open spec fn upload_json(received: u64, seconds: Seq<u8>) -> Seq<u8> {
    "{\"bytes\":".spec_bytes() + dec(received as nat) + ",\"seconds\":".spec_bytes() + seconds + "}".spec_bytes()
}

/// The reply to a completed upload of `received` bytes that took `seconds`
/// (as text): a JSON report.
pub fn upload_response(received: u64, seconds: &[u8]) -> (r: Vec<u8>)
    ensures
        r@ == response_spec(200, "application/json".spec_bytes(), upload_json(received, seconds@), false),
{
    let mut json: Vec<u8> = Vec::new();
    push_bytes(&mut json, "{\"bytes\":".as_bytes());
    push_decimal(&mut json, received);
    push_bytes(&mut json, ",\"seconds\":".as_bytes());
    push_bytes(&mut json, seconds);
    push_bytes(&mut json, "}".as_bytes());
    response(200, "application/json", json.as_slice(), false)
}

/// The reply to a chunked upload, from what decoding its body gave: the JSON
/// report of the bytes received and the seconds taken; 413 when the body was
/// too large; 400 when it was malformed or ended early.
pub open spec fn chunked_reply_spec(result: Result<u64, ChunkError>, seconds: Seq<u8>) -> Seq<u8> {
    match result {
        Ok(n) => response_spec(200, "application/json".spec_bytes(), upload_json(n, seconds), false),
        Err(e) => if e == ChunkError::TooLarge {
            response_spec(413, "text/plain".spec_bytes(), "upload too large".spec_bytes(), false)
        } else {
            response_spec(400, "text/plain".spec_bytes(), "invalid chunked upload".spec_bytes(), false)
        },
    }
}

/// The reply to a chunked upload whose decoding gave `result`, `seconds`
/// being the time it took, as text.
pub fn chunked_reply(result: Result<u64, ChunkError>, seconds: &[u8]) -> (r: Vec<u8>)
    ensures
        r@ == chunked_reply_spec(result, seconds@),
{
    match result {
        Ok(n) => upload_response(n, seconds),
        Err(e) => upload_chunked(e),
    }
}

} // verus!
