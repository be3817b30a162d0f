//! Routing a request to what answers it, and the pages the server serves.
use vstd::prelude::*;
use vstd::string::StringSliceAdditionalSpecFns;
use crate::limits::{BLOCK, MAX_DOWNLOAD, MAX_UPLOAD};
use crate::query::{query_size_of, query_size_spec};
use crate::render::{Assets, rendered_index, rendered_index_spec, rendered_results_index, rendered_results_index_spec};
use crate::request::{Framing, Method};
use crate::response::{asset, asset_spec, response, response_spec, upload_json, upload_response};
use crate::text::{bytes_eq, find, find_byte, lemma_find_byte};

verus! {

/// The static assets, besides the pages.
#[derive(PartialEq, Eq, Debug, Clone, Copy, Structural)]
pub enum AssetKind {
    Style,
    LocaleEn,
    LocaleLv,
    I18n,
    Chart,
    App,
    ResultsApp,
}

/// The fixed replies.
#[derive(PartialEq, Eq, Debug, Clone, Copy, Structural)]
pub enum Page {
    Index,
    Results,
    Asset(AssetKind),
    Ping,
    Health,
    NotFound,
    UploadTooLarge,
}

/// What answers a request.
#[derive(PartialEq, Eq, Debug, Clone, Copy, Structural)]
pub enum Plan {
    /// A fixed reply.
    Page(Page),
    /// A download of `size` bytes.
    Download { size: usize },
    /// An upload of `length` bytes; `100 Continue` is sent first when `expect_continue`.
    Upload { length: u64, expect_continue: bool },
    /// A chunked upload; `100 Continue` is sent first when `expect_continue`.
    UploadChunked { expect_continue: bool },
}

/// The path of a target: the part before the first `?`.
pub open spec fn path_of(t: Seq<u8>) -> Seq<u8> {
    t.subrange(0, find_byte(t, 0x3f, 0))
}

/// The route of a request: `GET` for the pages, the assets, `/api/ping`,
/// `/health` and `/api/download` (of the size the query asks, at most
/// 512 MiB); `POST /api/upload`, chunked, or of a `Content-Length` of at most
/// 2 GiB, or else refused as too large; anything else is not found.
pub open spec fn route_spec(method: Method, target: Seq<u8>, f: Framing) -> Plan {
    let p = path_of(target);
    if method == Method::Get {
        if p == "/".spec_bytes() {
            Plan::Page(Page::Index)
        } else if p == "/results".spec_bytes() || p == "/results/".spec_bytes() {
            Plan::Page(Page::Results)
        } else if p == "/style.css".spec_bytes() {
            Plan::Page(Page::Asset(AssetKind::Style))
        } else if p == "/locales/en.js".spec_bytes() {
            Plan::Page(Page::Asset(AssetKind::LocaleEn))
        } else if p == "/locales/lv.js".spec_bytes() {
            Plan::Page(Page::Asset(AssetKind::LocaleLv))
        } else if p == "/i18n.js".spec_bytes() {
            Plan::Page(Page::Asset(AssetKind::I18n))
        } else if p == "/chart.js".spec_bytes() {
            Plan::Page(Page::Asset(AssetKind::Chart))
        } else if p == "/app.js".spec_bytes() {
            Plan::Page(Page::Asset(AssetKind::App))
        } else if p == "/results.js".spec_bytes() {
            Plan::Page(Page::Asset(AssetKind::ResultsApp))
        } else if p == "/api/ping".spec_bytes() {
            Plan::Page(Page::Ping)
        } else if p == "/health".spec_bytes() {
            Plan::Page(Page::Health)
        } else if p == "/api/download".spec_bytes() {
            let q = query_size_spec(target);
            Plan::Download { size: if q < MAX_DOWNLOAD { q as usize } else { MAX_DOWNLOAD } }
        } else {
            Plan::Page(Page::NotFound)
        }
    } else if method == Method::Post && p == "/api/upload".spec_bytes() {
        if f.chunked {
            Plan::UploadChunked { expect_continue: f.expect_continue }
        } else if f.content_length <= MAX_UPLOAD {
            Plan::Upload { length: f.content_length, expect_continue: f.expect_continue }
        } else {
            Plan::Page(Page::UploadTooLarge)
        }
    } else {
        Plan::Page(Page::NotFound)
    }
}

/// Routes a request with `method`, `target` and body framing `f`.
pub fn route(method: Method, target: &[u8], f: Framing) -> (r: Plan)
    ensures
        r == route_spec(method, target@, f),
        method == Method::Get && (path_of(target@) == "/results".spec_bytes() || path_of(target@) == "/results/".spec_bytes())
            ==> r == Plan::Page(Page::Results),
{
    proof {
        lemma_routes(target@, f);
    }
    let q = find(target, 0x3f, 0);
    proof {
        lemma_find_byte(target@, 0x3f, 0);
    }
    let p = &target[0..q];
    assert(p@ == path_of(target@));
    if method == Method::Get {
        if bytes_eq(p, "/".as_bytes()) {
            Plan::Page(Page::Index)
        } else if bytes_eq(p, "/results".as_bytes()) || bytes_eq(p, "/results/".as_bytes()) {
            Plan::Page(Page::Results)
        } else if bytes_eq(p, "/style.css".as_bytes()) {
            Plan::Page(Page::Asset(AssetKind::Style))
        } else if bytes_eq(p, "/locales/en.js".as_bytes()) {
            Plan::Page(Page::Asset(AssetKind::LocaleEn))
        } else if bytes_eq(p, "/locales/lv.js".as_bytes()) {
            Plan::Page(Page::Asset(AssetKind::LocaleLv))
        } else if bytes_eq(p, "/i18n.js".as_bytes()) {
            Plan::Page(Page::Asset(AssetKind::I18n))
        } else if bytes_eq(p, "/chart.js".as_bytes()) {
            Plan::Page(Page::Asset(AssetKind::Chart))
        } else if bytes_eq(p, "/app.js".as_bytes()) {
            Plan::Page(Page::Asset(AssetKind::App))
        } else if bytes_eq(p, "/results.js".as_bytes()) {
            Plan::Page(Page::Asset(AssetKind::ResultsApp))
        } else if bytes_eq(p, "/api/ping".as_bytes()) {
            Plan::Page(Page::Ping)
        } else if bytes_eq(p, "/health".as_bytes()) {
            Plan::Page(Page::Health)
        } else if bytes_eq(p, "/api/download".as_bytes()) {
            let q = query_size_of(target);
            Plan::Download { size: if q < MAX_DOWNLOAD { q } else { MAX_DOWNLOAD } }
        } else {
            Plan::Page(Page::NotFound)
        }
    } else if method == Method::Post && bytes_eq(p, "/api/upload".as_bytes()) {
        if f.chunked {
            Plan::UploadChunked { expect_continue: f.expect_continue }
        } else if f.content_length <= MAX_UPLOAD {
            Plan::Upload { length: f.content_length, expect_continue: f.expect_continue }
        } else {
            Plan::Page(Page::UploadTooLarge)
        }
    } else {
        Plan::Page(Page::NotFound)
    }
}

/// The assets and the two rendered pages.
pub struct Site {
    pub assets: Assets,
    pub index_page: Vec<u8>,
    pub results_page: Vec<u8>,
}

impl Site {
    /// The pages are the templates with the asset fingerprints filled in.
    pub open spec fn wf(&self) -> bool {
        &&& self.index_page@ == rendered_index_spec(&self.assets)
        &&& self.results_page@ == rendered_results_index_spec(&self.assets)
    }

    /// The site of `assets`, its pages rendered once.
    pub fn new(assets: Assets) -> (r: Site)
        ensures
            r.wf(),
            r.assets == assets,
    {
        let index_page = rendered_index(&assets);
        let results_page = rendered_results_index(&assets);
        Site { assets, index_page, results_page }
    }
}

/// The content of an asset.
pub open spec fn asset_content(a: &Assets, k: AssetKind) -> Seq<u8> {
    match k {
        AssetKind::Style => a.style@,
        AssetKind::LocaleEn => a.locale_en@,
        AssetKind::LocaleLv => a.locale_lv@,
        AssetKind::I18n => a.i18n@,
        AssetKind::Chart => a.chart@,
        AssetKind::App => a.app@,
        AssetKind::ResultsApp => a.results_app@,
    }
}

/// The content type of an asset.
pub open spec fn asset_type(k: AssetKind) -> Seq<u8> {
    match k {
        AssetKind::Style => "text/css; charset=utf-8".spec_bytes(),
        _ => "text/javascript; charset=utf-8".spec_bytes(),
    }
}

/// The reply a fixed page gives to a request for `target`.
pub open spec fn page_spec(site: &Site, page: Page, target: Seq<u8>) -> Seq<u8> {
    match page {
        Page::Index => response_spec(200, "text/html; charset=utf-8".spec_bytes(), site.index_page@, false),
        Page::Results => response_spec(200, "text/html; charset=utf-8".spec_bytes(), site.results_page@, false),
        Page::Asset(k) => asset_spec(target, asset_type(k), asset_content(&site.assets, k)),
        Page::Ping => response_spec(200, "application/json".spec_bytes(), "{\"ok\":true}".spec_bytes(), false),
        Page::Health => response_spec(200, "application/json".spec_bytes(), "{\"status\":\"ok\"}".spec_bytes(), false),
        Page::NotFound => response_spec(404, "text/plain; charset=utf-8".spec_bytes(), "not found".spec_bytes(), false),
        Page::UploadTooLarge => response_spec(413, "text/plain".spec_bytes(), "upload too large".spec_bytes(), false),
    }
}

/// The reply of a fixed page to a request for `target`.
pub fn page(site: &Site, which: Page, target: &[u8]) -> (r: Vec<u8>)
    ensures
        r@ == page_spec(site, which, target@),
{
    match which {
        Page::Index => response(200, "text/html; charset=utf-8", site.index_page.as_slice(), false),
        Page::Results => response(200, "text/html; charset=utf-8", site.results_page.as_slice(), false),
        Page::Asset(k) => {
            let (kind, content): (&str, &[u8]) = match k {
                AssetKind::Style => ("text/css; charset=utf-8", site.assets.style.as_slice()),
                AssetKind::LocaleEn => ("text/javascript; charset=utf-8", site.assets.locale_en.as_slice()),
                AssetKind::LocaleLv => ("text/javascript; charset=utf-8", site.assets.locale_lv.as_slice()),
                AssetKind::I18n => ("text/javascript; charset=utf-8", site.assets.i18n.as_slice()),
                AssetKind::Chart => ("text/javascript; charset=utf-8", site.assets.chart.as_slice()),
                AssetKind::App => ("text/javascript; charset=utf-8", site.assets.app.as_slice()),
                AssetKind::ResultsApp => ("text/javascript; charset=utf-8", site.assets.results_app.as_slice()),
            };
            asset(target, kind, content)
        },
        Page::Ping => response(200, "application/json", "{\"ok\":true}".as_bytes(), false),
        Page::Health => response(200, "application/json", "{\"status\":\"ok\"}".as_bytes(), false),
        Page::NotFound => response(404, "text/plain; charset=utf-8", "not found".as_bytes(), false),
        Page::UploadTooLarge => response(413, "text/plain", "upload too large".as_bytes(), false),
    }
}

/// A fixed-length upload of `size` bytes, `received` of them read: how many
/// bytes to read next, at most a block, or `None` when all were read.
pub fn upload(size: u64, received: u64) -> (r: Option<usize>)
    ensures
        received >= size ==> r is None,
        received < size ==> r == Some(if size - received < BLOCK { (size - received) as usize } else { BLOCK }),
{
    if received >= size {
        None
    } else if size - received < BLOCK as u64 {
        Some((size - received) as usize)
    } else {
        Some(BLOCK)
    }
}

/// A fixed-length upload being read: its declared size, the bytes received
/// so far, and whether the body ended before all of them came.
pub struct FixedUpload {
    pub size: u64,
    pub received: u64,
    pub ended_early: bool,
}

/// What a fixed-length upload needs next.
#[derive(PartialEq, Eq, Debug, Clone, Copy, Structural)]
pub enum UploadAction {
    /// Read at most `count` bytes (1 to [`BLOCK`]).
    Read { count: usize },
    /// All `received` bytes came: report them.
    Finished { received: u64 },
    /// The body ended early: answer 400.
    Incomplete,
}

impl FixedUpload {
    /// Never more bytes received than declared.
    pub open spec fn wf(&self) -> bool {
        self.received <= self.size
    }

    pub open spec fn action_spec(&self) -> UploadAction {
        if self.ended_early {
            UploadAction::Incomplete
        } else if self.received >= self.size {
            UploadAction::Finished { received: self.received }
        } else {
            UploadAction::Read {
                count: (if self.size - self.received < BLOCK { self.size - self.received } else { BLOCK as int }) as usize,
            }
        }
    }

    /// The state after a read that gave `n` bytes: none means the body ended.
    pub open spec fn after_read(self, n: nat) -> FixedUpload {
        if n == 0 {
            FixedUpload { ended_early: true, ..self }
        } else {
            FixedUpload { received: (self.received + n) as u64, ..self }
        }
    }

    /// An upload of `size` bytes, none received yet.
    pub fn new(size: u64) -> (r: FixedUpload)
        ensures
            r.wf(),
            r.size == size,
            r.received == 0,
            !r.ended_early,
    {
        FixedUpload { size, received: 0, ended_early: false }
    }

    /// The next step: a read of the bytes still missing, at most a block; or the outcome.
    pub fn action(&self) -> (r: UploadAction)
        requires
            self.wf(),
        ensures
            r == self.action_spec(),
    {
        if self.ended_early {
            UploadAction::Incomplete
        } else {
            match upload(self.size, self.received) {
                Some(count) => UploadAction::Read { count },
                None => UploadAction::Finished { received: self.received },
            }
        }
    }

    /// Takes the result of the read that [`FixedUpload::action`] asked for:
    /// `n` bytes, 0 when the body ended.
    pub fn on_read(&mut self, n: usize)
        requires
            old(self).wf(),
            old(self).action_spec() matches UploadAction::Read { count } && n <= count,
        ensures
            final(self).wf(),
            *final(self) == old(self).after_read(n as nat),
    {
        if n == 0 {
            self.ended_early = true;
        } else {
            self.received = self.received + n as u64;
        }
    }

    /// The reply once the upload is over: the JSON report of the bytes and
    /// the `seconds` taken (as text), or 400 when the body ended early.
    pub fn reply(&self, seconds: &[u8]) -> (r: Vec<u8>)
        requires
            self.wf(),
            !(self.action_spec() is Read),
        ensures
            self.action_spec() matches UploadAction::Finished { received } ==> r@ == response_spec(
                200,
                "application/json".spec_bytes(),
                upload_json(received, seconds@),
                false,
            ),
            self.action_spec() is Incomplete ==> r@ == response_spec(
                400,
                "text/plain".spec_bytes(),
                "incomplete upload".spec_bytes(),
                false,
            ),
    {
        if self.ended_early {
            incomplete_upload()
        } else {
            upload_response(self.received, seconds)
        }
    }
}

/// The outcome of an upload in state `u` when the rest of the body is `k`
/// bytes and each read gives all it may of them.
pub open spec fn upload_outcome(u: FixedUpload, k: nat) -> UploadAction
    decreases u.size - u.received, (if u.ended_early { 0int } else { 1int }),
{
    if !u.wf() {
        UploadAction::Incomplete
    } else {
        match u.action_spec() {
            UploadAction::Read { count } => {
                let n = if k < count { k } else { count as nat };
                upload_outcome(u.after_read(n), (k - n) as nat)
            },
            other => other,
        }
    }
}

/// An upload of `size` bytes whose body holds `k` bytes: finished with
/// exactly `size` bytes received when `k` is at least `size`, refused as
/// incomplete otherwise. Each read takes at most the bytes still missing, so
/// no byte past the declared size is read.
pub proof fn lemma_upload_outcome(u: FixedUpload, k: nat)
    requires
        u.wf(),
        !u.ended_early,
    ensures
        upload_outcome(u, k) == (if u.received + k >= u.size {
            UploadAction::Finished { received: u.size }
        } else {
            UploadAction::Incomplete
        }),
    decreases u.size - u.received,
{
    if u.received < u.size {
        let count: nat = (if u.size - u.received < BLOCK { u.size - u.received } else { BLOCK as int }) as nat;
        let n = if k < count { k } else { count };
        if n > 0 {
            lemma_upload_outcome(u.after_read(n), (k - n) as nat);
        } else {
            assert(upload_outcome(u.after_read(0), k) == UploadAction::Incomplete);
        }
    }
}

/// The reply when the body of a fixed-length upload ended early.
pub fn incomplete_upload() -> (r: Vec<u8>)
    ensures
        r@ == response_spec(400, "text/plain".spec_bytes(), "incomplete upload".spec_bytes(), false),
{
    response(400, "text/plain", "incomplete upload".as_bytes(), false)
}

/// The interim reply to `Expect: 100-continue`.
pub fn continue_response() -> (r: Vec<u8>)
    ensures
        r@ == "HTTP/1.1 100 Continue\r\n\r\n".spec_bytes(),
{
    let mut out: Vec<u8> = Vec::new();
    crate::text::push_bytes(&mut out, "HTTP/1.1 100 Continue\r\n\r\n".as_bytes());
    assert(out@ =~= "HTTP/1.1 100 Continue\r\n\r\n".spec_bytes());
    out
}

/// The number of HTTP worker threads: four per available core, from 4 to 64.
pub fn http_workers(parallelism: usize) -> (r: usize)
    ensures
        r == (if parallelism >= 16 { 64 } else if parallelism <= 1 { 4 } else { parallelism * 4 }),
{
    if parallelism >= 16 {
        64
    } else if parallelism <= 1 {
        4
    } else {
        parallelism * 4
    }
}


/// A download never exceeds [`MAX_DOWNLOAD`] bytes, and an upload of a
/// declared length is only accepted up to [`MAX_UPLOAD`] bytes.
pub proof fn lemma_route_limits(method: Method, target: Seq<u8>, f: Framing)
    ensures
        route_spec(method, target, f) matches Plan::Download { size } ==> size <= MAX_DOWNLOAD,
        route_spec(method, target, f) matches Plan::Upload { length, expect_continue } ==> length <= MAX_UPLOAD,
{
}


/// Every `GET` path the server knows leads to its own page or asset, the
/// results page under `/results` with or without the trailing slash, and
/// `POST /api/upload` to an upload; whatever query follows the path.
pub proof fn lemma_routes(target: Seq<u8>, f: Framing)
    ensures
        path_of(target) == "/".spec_bytes() ==> route_spec(Method::Get, target, f) == Plan::Page(Page::Index),
        path_of(target) == "/results".spec_bytes() || path_of(target) == "/results/".spec_bytes()
            ==> route_spec(Method::Get, target, f) == Plan::Page(Page::Results),
        path_of(target) == "/style.css".spec_bytes() ==> route_spec(Method::Get, target, f) == Plan::Page(
            Page::Asset(AssetKind::Style),
        ),
        path_of(target) == "/locales/en.js".spec_bytes() ==> route_spec(Method::Get, target, f) == Plan::Page(
            Page::Asset(AssetKind::LocaleEn),
        ),
        path_of(target) == "/locales/lv.js".spec_bytes() ==> route_spec(Method::Get, target, f) == Plan::Page(
            Page::Asset(AssetKind::LocaleLv),
        ),
        path_of(target) == "/i18n.js".spec_bytes() ==> route_spec(Method::Get, target, f) == Plan::Page(
            Page::Asset(AssetKind::I18n),
        ),
        path_of(target) == "/chart.js".spec_bytes() ==> route_spec(Method::Get, target, f) == Plan::Page(
            Page::Asset(AssetKind::Chart),
        ),
        path_of(target) == "/app.js".spec_bytes() ==> route_spec(Method::Get, target, f) == Plan::Page(
            Page::Asset(AssetKind::App),
        ),
        path_of(target) == "/results.js".spec_bytes() ==> route_spec(Method::Get, target, f) == Plan::Page(
            Page::Asset(AssetKind::ResultsApp),
        ),
        path_of(target) == "/api/ping".spec_bytes() ==> route_spec(Method::Get, target, f) == Plan::Page(Page::Ping),
        path_of(target) == "/health".spec_bytes() ==> route_spec(Method::Get, target, f) == Plan::Page(Page::Health),
        path_of(target) == "/api/download".spec_bytes() ==> route_spec(Method::Get, target, f) is Download,
        path_of(target) == "/api/upload".spec_bytes() ==> route_spec(Method::Post, target, f) == (if f.chunked {
            Plan::UploadChunked { expect_continue: f.expect_continue }
        } else if f.content_length <= MAX_UPLOAD {
            Plan::Upload { length: f.content_length, expect_continue: f.expect_continue }
        } else {
            Plan::Page(Page::UploadTooLarge)
        }),
        route_spec(Method::Other, target, f) == Plan::Page(Page::NotFound),
{
    reveal_strlit("/");
    vstd::string::is_ascii_spec_bytes("/");
    reveal_strlit("/results");
    vstd::string::is_ascii_spec_bytes("/results");
    reveal_strlit("/results/");
    vstd::string::is_ascii_spec_bytes("/results/");
    reveal_strlit("/style.css");
    vstd::string::is_ascii_spec_bytes("/style.css");
    reveal_strlit("/locales/en.js");
    vstd::string::is_ascii_spec_bytes("/locales/en.js");
    reveal_strlit("/locales/lv.js");
    vstd::string::is_ascii_spec_bytes("/locales/lv.js");
    reveal_strlit("/i18n.js");
    vstd::string::is_ascii_spec_bytes("/i18n.js");
    reveal_strlit("/chart.js");
    vstd::string::is_ascii_spec_bytes("/chart.js");
    reveal_strlit("/app.js");
    vstd::string::is_ascii_spec_bytes("/app.js");
    reveal_strlit("/results.js");
    vstd::string::is_ascii_spec_bytes("/results.js");
    reveal_strlit("/api/ping");
    vstd::string::is_ascii_spec_bytes("/api/ping");
    reveal_strlit("/health");
    vstd::string::is_ascii_spec_bytes("/health");
    reveal_strlit("/api/download");
    vstd::string::is_ascii_spec_bytes("/api/download");
    reveal_strlit("/api/upload");
    vstd::string::is_ascii_spec_bytes("/api/upload");
    assert("/results".spec_bytes()[1] != "/i18n.js".spec_bytes()[1]);
    assert("/results/".spec_bytes()[1] != "/chart.js".spec_bytes()[1]);
    assert("/results/".spec_bytes()[1] != "/api/ping".spec_bytes()[1]);
    assert("/chart.js".spec_bytes()[1] != "/api/ping".spec_bytes()[1]);
    assert("/locales/en.js".spec_bytes()[9] != "/locales/lv.js".spec_bytes()[9]);
    assert("/app.js".spec_bytes()[1] != "/health".spec_bytes()[1]);
}

} // verus!
