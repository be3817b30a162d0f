use speedtest::chunked::{read_chunked_body, ChunkError};
use speedtest::hash::content_hash;
use speedtest::limits::{MAX_DOWNLOAD, MAX_HEADER};
use speedtest::line::{read_line_limited, LineError};
use speedtest::query::{query_size, query_value};
use speedtest::render::{rendered_index, rendered_results_index, Assets};
use speedtest::request::{header_failed, request_line_failed, HeadParser, HeaderStep};
use speedtest::response::chunked_reply;
use speedtest::site::{page, route, FixedUpload, Plan, Site, UploadAction};

fn assets() -> Assets {
    Assets {
        index: b"<link href=\"style.css?hash=__STYLE_HASH__\"><script src=\"locales/en.js?hash=__LOCALE_EN_HASH__\"></script><script src=\"locales/lv.js?hash=__LOCALE_LV_HASH__\"></script><script src=\"i18n.js?hash=__I18N_HASH__\"></script><script src=\"chart.js?hash=__CHART_HASH__\"></script><script src=\"app.js?hash=__APP_HASH__\"></script>".to_vec(),
        results_index: b"<link href=\"style.css?hash=__STYLE_HASH__\"><script src=\"locales/en.js?hash=__LOCALE_EN_HASH__\"></script><script src=\"locales/lv.js?hash=__LOCALE_LV_HASH__\"></script><script src=\"i18n.js?hash=__I18N_HASH__\"></script><script src=\"chart.js?hash=__CHART_HASH__\"></script><script src=\"results.js?hash=__RESULTS_HASH__\"></script>".to_vec(),
        style: b"body { margin: 0 }".to_vec(),
        locale_en: b"export default { start: 'Start' };".to_vec(),
        locale_lv: b"export default { start: 'Sakt' };".to_vec(),
        i18n: b"export function t(key) { return key; }".to_vec(),
        chart: b"export function draw() {}".to_vec(),
        app: b"import './chart.js';".to_vec(),
        results_app: b"import './i18n.js';".to_vec(),
    }
}

/// Answers a request held in memory the way the server answers one read
/// from a connection.
fn request(raw: &[u8]) -> String {
    let site = Site::new(assets());
    let mut pos = 0;
    let line = match read_line_limited(&raw[pos..], MAX_HEADER) {
        Ok(line) => line,
        Err(e) => return String::from_utf8_lossy(&request_line_failed(e).reply()).into_owned(),
    };
    pos += line.len();
    let (request_line, mut head) = match HeadParser::start(line) {
        Ok(started) => started,
        Err(r) => return String::from_utf8_lossy(&r.reply()).into_owned(),
    };
    loop {
        let line = match read_line_limited(&raw[pos..], head.line_limit()) {
            Ok(line) => line,
            Err(e) => return String::from_utf8_lossy(&header_failed(e).reply()).into_owned(),
        };
        pos += line.len();
        match head.accept(line) {
            HeaderStep::More => {}
            HeaderStep::End => break,
            HeaderStep::Reject(r) => return String::from_utf8_lossy(&r.reply()).into_owned(),
        }
    }
    let framing = match head.finish() {
        Ok(framing) => framing,
        Err(r) => return String::from_utf8_lossy(&r.reply()).into_owned(),
    };
    let body = &raw[pos..];
    let seconds = format!("{:.6}", 0.0);
    match route(request_line.method, &request_line.target, framing) {
        Plan::Page(p) => String::from_utf8_lossy(&page(&site, p, &request_line.target)).into_owned(),
        Plan::Download { size } => format!("download {size}"),
        Plan::UploadChunked { .. } => {
            String::from_utf8_lossy(&chunked_reply(read_chunked_body(body), seconds.as_bytes())).into_owned()
        }
        Plan::Upload { length, .. } => {
            let mut upload = FixedUpload::new(length);
            let mut at = 0usize;
            while let UploadAction::Read { count } = upload.action() {
                let read = count.min(body.len() - at);
                at += read;
                upload.on_read(read);
            }
            String::from_utf8_lossy(&upload.reply(seconds.as_bytes())).into_owned()
        }
    }
}

#[test]
fn rejects_ambiguous_and_invalid_request_framing() {
    for headers in [
        "Content-Length: 1\r\nContent-Length: 2",
        "Content-Length: 0\r\nTransfer-Encoding: chunked",
        "Content-Length: +1",
        "Content-Length: nope",
        "Content-Length : 0",
        "Transfer-Encoding: chunked, gzip",
        "Transfer-Encoding: chunked\r\nTransfer-Encoding: chunked",
        "Invalid header",
    ] {
        let raw = format!("POST /api/upload HTTP/1.1\r\n{headers}\r\n\r\n");
        assert!(request(raw.as_bytes()).starts_with("HTTP/1.1 400"), "{headers}");
    }
    assert!(request(b"GET /health\r\n\r\n").starts_with("HTTP/1.1 400"));
    assert!(request(b"GET /health HTTP/1.1\r\n").starts_with("HTTP/1.1 400"));
}

#[test]
fn only_complete_uploads_succeed() {
    assert!(
        request(b"POST /api/upload HTTP/1.1\r\nContent-Length: 5\r\n\r\nabc").starts_with("HTTP/1.1 400")
    );
    let fixed = request(b"POST /api/upload HTTP/1.1\r\nContent-Length: 3\r\n\r\nabc");
    assert!(fixed.starts_with("HTTP/1.1 200"));
    assert!(fixed.contains("\"bytes\":3"));
    let chunked = request(
        b"POST /api/upload HTTP/1.1\r\nTransfer-Encoding: chunked\r\n\r\n3\r\nabc\r\n0\r\n\r\n",
    );
    assert!(chunked.starts_with("HTTP/1.1 200"));
    assert!(chunked.contains("\"bytes\":3"));
}

#[test]
fn chunked_trailers_are_bounded_and_must_terminate() {
    for raw in [b"0\r\n".as_slice(), b"0\r\nX-Test: yes\r\n", b"3\r\nab"] {
        assert!(read_chunked_body(raw).is_err());
    }
    let raw = format!("0\r\n{}\r\n", "X-Test: value\r\n".repeat(MAX_HEADER / 10));
    assert_eq!(read_chunked_body(raw.as_bytes()).unwrap_err(), ChunkError::TooLarge);
}

#[test]
fn header_line_limit_is_enforced_during_read() {
    assert_eq!(read_line_limited(b"123456789\n", 10).unwrap(), "123456789\n");
    assert_eq!(read_line_limited(b"1234567890\n", 10).unwrap_err(), LineError::TooLarge);
}

#[test]
fn rendered_index_contains_content_hashes() {
    let a = assets();
    let index = String::from_utf8(rendered_index(&a)).unwrap();
    assert!(!index.contains("__STYLE_HASH__"));
    assert!(!index.contains("__LOCALE_EN_HASH__"));
    assert!(!index.contains("__LOCALE_LV_HASH__"));
    assert!(!index.contains("__I18N_HASH__"));
    assert!(!index.contains("__CHART_HASH__"));
    assert!(!index.contains("__APP_HASH__"));
    assert!(index.contains(&format!("style.css?hash={}", content_hash(&a.style))));
    assert!(index.contains(&format!("locales/en.js?hash={}", content_hash(&a.locale_en))));
    assert!(index.contains(&format!("locales/lv.js?hash={}", content_hash(&a.locale_lv))));
    assert!(index.contains(&format!("i18n.js?hash={}", content_hash(&a.i18n))));
    assert!(index.contains(&format!("chart.js?hash={}", content_hash(&a.chart))));
    assert!(index.contains(&format!("app.js?hash={}", content_hash(&a.app))));

    let results = String::from_utf8(rendered_results_index(&a)).unwrap();
    assert!(!results.contains("__STYLE_HASH__"));
    assert!(!results.contains("__LOCALE_EN_HASH__"));
    assert!(!results.contains("__LOCALE_LV_HASH__"));
    assert!(!results.contains("__I18N_HASH__"));
    assert!(!results.contains("__CHART_HASH__"));
    assert!(!results.contains("__RESULTS_HASH__"));
    assert!(results.contains(&format!("locales/en.js?hash={}", content_hash(&a.locale_en))));
    assert!(results.contains(&format!("locales/lv.js?hash={}", content_hash(&a.locale_lv))));
    assert!(results.contains(&format!("i18n.js?hash={}", content_hash(&a.i18n))));
    assert!(results.contains(&format!("chart.js?hash={}", content_hash(&a.chart))));
    assert!(results.contains(&format!("results.js?hash={}", content_hash(&a.results_app))));
}

#[test]
fn query_values_are_parsed_without_affecting_defaults() {
    assert_eq!(query_size("/api/download?size=42&n=x"), 42);
    assert_eq!(query_size("/api/download?size=bad"), 32 * 1024 * 1024);
    assert_eq!(query_value("/style.css?hash=abc", "hash"), Some("abc"));
}

#[test]
fn content_hash_is_stable_and_content_sensitive() {
    assert_eq!(content_hash(b"speedtest"), "ce343323f90e7164");
    assert_ne!(content_hash(b"speedtest"), content_hash(b"Speedtest"));
}

#[test]
fn decodes_chunked_upload_bodies() {
    let body = b"4\r\ntest\r\n6;extension=yes\r\nstream\r\n0\r\nX-Test: yes\r\n\r\n";
    assert_eq!(read_chunked_body(body).unwrap(), 10);

    assert!(read_chunked_body(b"4\r\ntestXX0\r\n\r\n").is_err());
}

#[test]
fn download_size_is_capped() {
    assert!(request(b"GET /api/download?size=999999999999 HTTP/1.1\r\n\r\n") == format!("download {MAX_DOWNLOAD}"));
    assert_eq!(request(b"GET /api/download HTTP/1.1\r\n\r\n"), "download 33554432");
}
