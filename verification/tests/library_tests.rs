use speedtest::args::{classify, parse_port, value, Flag};
use speedtest::chunked::{read_chunked_body, ChunkAction, ChunkError, ChunkedBody};
use speedtest::hash::content_hash;
use speedtest::iperf::{
    admission, json_frame, json_frame_length, json_text, results_json, server_error_frame, transfer_step, Admission,
    FrameError, Session, SessionError, SessionPhase, Transfer, CREATE_STREAMS, DISPLAY_RESULTS,
    EXCHANGE_RESULTS, IPERF_DONE, PARAM_EXCHANGE, SERVER_ERROR, TEST_END, TEST_RUNNING, TEST_START,
};
use speedtest::json::{is_float, parse_object_fields, skip_json_value};
use speedtest::limits::{BLOCK, MAX_HEADER};
use speedtest::line::{finish_line, line_step, read_line_limited, LineError, LineStep};
use speedtest::params::{parse_parameters, Param, ParamError};
use speedtest::query::{query_size, query_value};
use speedtest::render::{rendered_index, replace_bytes, Assets};
use speedtest::request::{parse_request_line, HeadParser, HeaderStep, Method, Rejection};
use speedtest::response::{asset, chunked_reply, download, download_block, download_fill, response, upload_chunked, upload_response};
use speedtest::site::{continue_response, http_workers, page, route, upload, FixedUpload, Page, Plan, Site, UploadAction};
use speedtest::text::{parse_i64, parse_unsigned, IntError};
use std::time::Duration;

fn assets(index: &[u8]) -> Assets {
    Assets {
        index: index.to_vec(),
        results_index: b"__RESULTS_HASH__".to_vec(),
        style: b"a".to_vec(),
        locale_en: b"b".to_vec(),
        locale_lv: b"c".to_vec(),
        i18n: b"d".to_vec(),
        chart: b"e".to_vec(),
        app: b"f".to_vec(),
        results_app: b"g".to_vec(),
    }
}

fn text(bytes: &[u8]) -> String {
    String::from_utf8(bytes.to_vec()).unwrap()
}

/// Feeds the header lines of `raw` (after the request line) to a head parser.
fn head(raw: &str) -> Result<speedtest::request::Framing, Rejection> {
    let mut lines = raw.split_inclusive('\n');
    let (_, mut parser) = HeadParser::start(lines.next().unwrap())?;
    for line in lines {
        match parser.accept(line) {
            HeaderStep::More => {}
            HeaderStep::End => return parser.finish(),
            HeaderStep::Reject(r) => return Err(r),
        }
    }
    panic!("the head did not end");
}

#[test]
fn response_bytes_are_exact() {
    assert_eq!(
        text(&response(200, "text/plain", b"hi", false)),
        "HTTP/1.1 200 OK\r\nContent-Type: text/plain\r\nContent-Length: 2\r\nCache-Control: no-store\r\n\
         X-Content-Type-Options: nosniff\r\nConnection: close\r\n\r\nhi"
    );
    assert!(text(&response(200, "text/css", b"", true))
        .contains("Content-Length: 0\r\nCache-Control: public, max-age=31536000, immutable\r\n"));
    assert!(text(&response(599, "text/plain", b"", false)).starts_with("HTTP/1.1 599 Error\r\n"));
    assert_eq!(
        text(&download(1234)),
        "HTTP/1.1 200 OK\r\nContent-Type: application/octet-stream\r\nContent-Length: 1234\r\n\
         Cache-Control: no-store\r\nContent-Encoding: identity\r\nConnection: close\r\n\r\n"
    );
    assert_eq!(text(&continue_response()), "HTTP/1.1 100 Continue\r\n\r\n");
    assert!(text(&upload_response(3, b"0.250000"))
        .ends_with("Content-Length: 30\r\nCache-Control: no-store\r\nX-Content-Type-Options: nosniff\r\nConnection: close\r\n\r\n{\"bytes\":3,\"seconds\":0.250000}"));
}

#[test]
fn rejections_carry_their_status() {
    let too_large = text(&Rejection::HeadersTooLarge.reply());
    assert!(too_large.starts_with("HTTP/1.1 431 Request Header Fields Too Large\r\n"));
    assert!(too_large.ends_with("\r\n\r\nheaders too large"));
    let expectation = text(&Rejection::UnsupportedExpectation.reply());
    assert!(expectation.starts_with("HTTP/1.1 417 Expectation Failed\r\n"));
    assert!(text(&Rejection::AmbiguousFraming.reply()).ends_with("ambiguous body framing"));
    assert!(text(&Rejection::InvalidRequest.reply()).starts_with("HTTP/1.1 400 Bad Request\r\n"));
}

#[test]
fn head_parser_reports_each_refusal() {
    assert_eq!(HeadParser::start("GET /\r\n").unwrap_err(), Rejection::InvalidRequestLine);
    assert_eq!(HeadParser::start("GET / HTTP/1.1 extra\r\n").unwrap_err(), Rejection::InvalidRequestLine);
    assert_eq!(head("POST / HTTP/1.1\r\nNoColon\r\n\r\n").unwrap_err(), Rejection::InvalidHeader);
    assert_eq!(head("POST / HTTP/1.1\r\nBad Name: x\r\n\r\n").unwrap_err(), Rejection::InvalidHeaderName);
    assert_eq!(head("POST / HTTP/1.1\r\n: x\r\n\r\n").unwrap_err(), Rejection::InvalidHeaderName);
    assert_eq!(head("POST / HTTP/1.1\r\nContent-Length: 1x\r\n\r\n").unwrap_err(), Rejection::InvalidContentLength);
    assert_eq!(
        head("POST / HTTP/1.1\r\nTransfer-Encoding: gzip\r\n\r\n").unwrap_err(),
        Rejection::UnsupportedTransferEncoding
    );
    assert_eq!(
        head("POST / HTTP/1.0\r\nTransfer-Encoding: chunked\r\n\r\n").unwrap_err(),
        Rejection::UnsupportedTransferEncoding
    );
    assert_eq!(head("POST / HTTP/1.1\r\nExpect: later\r\n\r\n").unwrap_err(), Rejection::UnsupportedExpectation);
    assert_eq!(
        head("POST / HTTP/1.1\r\nTransfer-Encoding: chunked\r\nContent-Length: 3\r\n\r\n").unwrap_err(),
        Rejection::AmbiguousFraming
    );
    let framing = head("POST / HTTP/1.1\r\ncontent-length:  12 \r\nEXPECT: 100-Continue\r\n\r\n").unwrap();
    assert_eq!(framing.content_length, 12);
    assert!(framing.expect_continue);
    assert!(!framing.chunked);
    let chunked = head("POST / HTTP/1.1\r\nTransfer-Encoding:  Chunked\r\n\r\n").unwrap();
    assert!(chunked.chunked);
    assert_eq!(chunked.content_length, 0);
}

#[test]
fn header_bytes_are_bounded() {
    let (_, mut parser) = HeadParser::start("GET / HTTP/1.1\r\n").unwrap();
    assert_eq!(parser.line_limit(), MAX_HEADER - "GET / HTTP/1.1\r\n".len());
    let filler = format!("X-Fill: {}\r\n", "a".repeat(1000));
    let mut rejected = false;
    for _ in 0..40 {
        let limit = parser.line_limit();
        match read_line_limited(filler.as_bytes(), limit) {
            Ok(line) => assert_eq!(parser.accept(line), HeaderStep::More),
            Err(e) => {
                assert_eq!(e, LineError::TooLarge);
                rejected = true;
                break;
            }
        }
    }
    assert!(rejected);
    assert!(parser.header_bytes <= MAX_HEADER);
}

#[test]
fn request_lines_are_split_on_whitespace() {
    let line = parse_request_line("GET  /a?b=c \t HTTP/1.1\r\n").unwrap();
    assert_eq!(line.method, Method::Get);
    assert_eq!(line.target, b"/a?b=c".to_vec());
    assert!(line.http11);
    let other = parse_request_line("PUT / HTTP/1.0\r\n").unwrap();
    assert_eq!(other.method, Method::Other);
    assert!(!other.http11);
    assert!(parse_request_line("GET\r\n").is_none());
}

#[test]
fn line_reading_reports_each_error() {
    assert_eq!(read_line_limited(b"abc", 10).unwrap_err(), LineError::UnexpectedEof);
    assert_eq!(read_line_limited(b"", 10).unwrap_err(), LineError::UnexpectedEof);
    assert_eq!(read_line_limited(b"abcdefghijkl", 10).unwrap_err(), LineError::TooLarge);
    assert_eq!(read_line_limited(b"a\xffb\n", 10).unwrap_err(), LineError::InvalidData);
    assert_eq!(read_line_limited("é\nrest".as_bytes(), 10).unwrap(), "é\n");
    assert_eq!(finish_line(b"ok\n").unwrap(), "ok\n");
    assert_eq!(finish_line(b"\xc3\n").unwrap_err(), LineError::InvalidData);
}

#[test]
fn a_line_read_in_pieces_is_the_line_read_at_once() {
    let input = b"GET / HTTP/1.1\r\nHost: x\r\n";
    let mut collected = 0usize;
    let mut line = Vec::new();
    for piece in [&input[0..3], &input[3..9], &input[9..]] {
        match line_step(collected, piece, 64) {
            LineStep::Take { count, complete } => {
                line.extend_from_slice(&piece[..count]);
                collected += count;
                if complete {
                    break;
                }
            }
            other => panic!("unexpected {other:?}"),
        }
    }
    assert_eq!(finish_line(&line).unwrap(), read_line_limited(input, 64).unwrap());
    assert_eq!(line_step(10, b"abcdef", 12), LineStep::TooLarge);
    assert_eq!(line_step(0, b"", 12), LineStep::Eof);
}

#[test]
fn chunked_errors_are_told_apart() {
    assert_eq!(read_chunked_body(b"zz\r\n").unwrap_err(), ChunkError::Invalid);
    assert_eq!(read_chunked_body(b"3\r\nabcXY").unwrap_err(), ChunkError::Invalid);
    assert_eq!(read_chunked_body(b"3\r\nab").unwrap_err(), ChunkError::UnexpectedEof);
    assert_eq!(read_chunked_body(b"0\r\n").unwrap_err(), ChunkError::UnexpectedEof);
    assert_eq!(read_chunked_body(b"80000001\r\n").unwrap_err(), ChunkError::TooLarge);
    let long = format!("{}1\r\n", "0".repeat(200));
    assert_eq!(read_chunked_body(long.as_bytes()).unwrap_err(), ChunkError::TooLarge);
    assert_eq!(read_chunked_body(b" A;x=y\r\n0123456789\r\n0\n\n").unwrap(), 10);
    assert_eq!(read_chunked_body(b"A ;x\r\n0123456789\r\n0\r\n\r\n").unwrap_err(), ChunkError::Invalid);
    assert_eq!(text(&upload_chunked(ChunkError::TooLarge))[..12].to_string(), "HTTP/1.1 413");
    assert_eq!(text(&upload_chunked(ChunkError::Invalid))[..12].to_string(), "HTTP/1.1 400");
}

/// Drives the chunked decoder over `input` one step at a time.
fn drive(input: &[u8]) -> Result<u64, ChunkError> {
    let mut body = ChunkedBody::new();
    let mut at = 0usize;
    loop {
        match body.action() {
            ChunkAction::ReadLine { limit } => body.on_line(read_line_limited(&input[at..], limit).map(|line| {
                at += line.len();
                line
            })),
            ChunkAction::ReadData { count } => {
                if input.len() - at < count {
                    body.on_eof();
                } else {
                    at += count;
                    body.on_data(count);
                }
            }
            ChunkAction::ReadTerminator => {
                if input.len() - at < 2 {
                    body.on_eof();
                } else {
                    body.on_terminator(&input[at..at + 2]);
                    at += 2;
                }
            }
            ChunkAction::Finished { received } => return Ok(received),
            ChunkAction::Failed { error } => return Err(error),
        }
    }
}

#[test]
fn stepwise_decoding_agrees_with_whole_decoding() {
    for input in [
        b"4\r\ntest\r\n6;extension=yes\r\nstream\r\n0\r\nX-Test: yes\r\n\r\n".as_slice(),
        b"4\r\ntestXX0\r\n\r\n",
        b"3\r\nab",
        b"0\r\n",
        b"zz\r\n",
        b"80000001\r\n",
        b"1\r\na\r\n1\r\nb\r\n0\r\n\r\n",
    ] {
        assert_eq!(drive(input), read_chunked_body(input));
    }
}

#[test]
fn parameter_errors_are_told_apart() {
    assert_eq!(parse_parameters("[]").unwrap_err(), ParamError::InvalidJson);
    assert_eq!(parse_parameters(r#"{"tcp":false}"#).unwrap_err(), ParamError::NotTcp);
    assert_eq!(parse_parameters(r#"{}"#).unwrap_err(), ParamError::NotTcp);
    assert_eq!(parse_parameters(r#"{"tcp":1}"#).unwrap_err(), ParamError::NotBoolean(Param::Tcp));
    assert_eq!(
        parse_parameters(r#"{"tcp":true,"bidirectional":true}"#).unwrap_err(),
        ParamError::Bidirectional
    );
    assert_eq!(
        parse_parameters(r#"{"tcp":true,"parallel":1.5}"#).unwrap_err(),
        ParamError::NotInteger(Param::Parallel)
    );
    assert_eq!(parse_parameters(r#"{"tcp":true,"parallel":0}"#).unwrap_err(), ParamError::InvalidStreams);
    assert_eq!(parse_parameters(r#"{"tcp":true,"parallel":129}"#).unwrap_err(), ParamError::InvalidStreams);
    assert_eq!(parse_parameters(r#"{"tcp":true,"len":0}"#).unwrap_err(), ParamError::InvalidBlockSize);
    assert_eq!(parse_parameters(r#"{"tcp":true,"time":86400,"omit":1}"#).unwrap_err(), ParamError::InvalidDuration);
    assert_eq!(
        parse_parameters(r#"{"tcp":true,"reverse":"yes"}"#).unwrap_err(),
        ParamError::NotBoolean(Param::Reverse)
    );
}

#[test]
fn parameters_are_clamped_and_defaulted() {
    let defaults = parse_parameters(r#"{"tcp":true}"#).unwrap();
    assert_eq!(defaults.streams, 1);
    assert!(!defaults.reverse);
    assert_eq!(defaults.block_size, 128 * 1024);
    assert_eq!(defaults.test_timeout, Duration::from_secs(120));
    let small = parse_parameters(r#"{ "tcp" : true , "parallel" : 128, "len": 1, "time": 0 }"#).unwrap();
    assert_eq!(small.streams, 128);
    assert_eq!(small.block_size, 1024);
    let large = parse_parameters(r#"{"tcp":true,"len":99999999,"time":86400}"#).unwrap();
    assert_eq!(large.block_size, 1024 * 1024);
    assert_eq!(large.test_timeout, Duration::from_secs(86430));
}

#[test]
fn json_values_are_skipped_whole() {
    let fields = parse_object_fields(r#"{"a":[1,{"b":"]"}],"c":-2.5e3,"d":null,"e":"x\"y"}"#).unwrap();
    assert_eq!(fields, vec![("a", r#"[1,{"b":"]"}]"#), ("c", "-2.5e3"), ("d", "null"), ("e", r#""x\"y""#)]);
    let spaced = parse_object_fields(" {\t\"a\" :  1 \n, \"b\": [ 2 ] } \r\n").unwrap();
    assert_eq!(spaced, vec![("a", "1"), ("b", "[ 2 ]")]);
    assert!(parse_object_fields("{\"a\":\u{a0}1}").is_err());
    assert!(parse_object_fields(r#"{"a":1"#).is_err());
    assert!(parse_object_fields(r#"{"a" 1}"#).is_err());
    assert!(parse_object_fields(r#"{"a":1} x"#).is_err());
    assert_eq!(skip_json_value(b"  true,", 2).unwrap(), 6);
    assert!(skip_json_value(b"  true,", 0).is_err());
    assert!(is_float(b"1e5"));
    assert!(is_float(b"-.5"));
    assert!(is_float(b"inf"));
    assert!(!is_float(b"1e"));
    assert!(!is_float(b"0x10"));
}

#[test]
fn integers_are_read_as_std_reads_them() {
    assert_eq!(parse_i64(b"-9223372036854775808").unwrap(), i64::MIN);
    assert_eq!(parse_i64(b"+42").unwrap(), 42);
    assert_eq!(parse_i64(b"9223372036854775808").unwrap_err(), IntError::PosOverflow);
    assert_eq!(parse_i64(b"-9223372036854775809").unwrap_err(), IntError::NegOverflow);
    assert_eq!(parse_i64(b"").unwrap_err(), IntError::Empty);
    assert_eq!(parse_i64(b"-").unwrap_err(), IntError::InvalidDigit);
    assert_eq!(parse_i64(b"1 ").unwrap_err(), IntError::InvalidDigit);
    assert_eq!(parse_unsigned(b"fF", 16, u64::MAX).unwrap(), 255);
    assert_eq!(parse_unsigned(b"65536", 10, 65535).unwrap_err(), IntError::PosOverflow);
    assert_eq!(parse_port("8080").unwrap(), 8080);
    assert_eq!(parse_port("65536").unwrap_err(), IntError::PosOverflow);
    assert_eq!(parse_port("").unwrap_err(), IntError::Empty);
    assert_eq!(parse_port("-1").unwrap_err(), IntError::InvalidDigit);
}

#[test]
fn command_line_flags_are_classified() {
    assert_eq!(classify("--bind"), Flag::Bind);
    assert_eq!(classify("--http-port"), Flag::HttpPort);
    assert_eq!(classify("--iperf-port"), Flag::IperfPort);
    assert_eq!(classify("--no-iperf"), Flag::NoIperf);
    assert_eq!(classify("-h"), Flag::Help);
    assert_eq!(classify("--help"), Flag::Help);
    assert_eq!(classify("--bind=x"), Flag::Unknown);
    assert_eq!(value(Some("1".to_string()), "--bind").unwrap(), "1");
    assert_eq!(value(None, "--http-port").unwrap_err(), "missing value for --http-port");
    assert_eq!(value(None, "--böx").unwrap_err(), "missing value for --böx");
}

#[test]
fn routes_and_limits() {
    let none = speedtest::request::Framing { content_length: 0, chunked: false, expect_continue: false };
    assert_eq!(route(Method::Get, b"/", none), Plan::Page(Page::Index));
    assert_eq!(route(Method::Get, b"/results/?x", none), Plan::Page(Page::Results));
    assert_eq!(route(Method::Post, b"/", none), Plan::Page(Page::NotFound));
    assert_eq!(route(Method::Get, b"/api/download?size=0", none), Plan::Download { size: 0 });
    let big = speedtest::request::Framing { content_length: (1 << 31) + 1, chunked: false, expect_continue: false };
    assert_eq!(route(Method::Post, b"/api/upload", big), Plan::Page(Page::UploadTooLarge));
    let limit = speedtest::request::Framing { content_length: 1 << 31, chunked: false, expect_continue: true };
    assert_eq!(
        route(Method::Post, b"/api/upload?a", limit),
        Plan::Upload { length: 1 << 31, expect_continue: true }
    );
    assert_eq!(upload(10, 10), None);
    assert_eq!(upload(10, 4), Some(6));
    assert_eq!(upload(1 << 31, 0), Some(BLOCK));
    assert_eq!(http_workers(0), 4);
    assert_eq!(http_workers(3), 12);
    assert_eq!(http_workers(100), 64);
    assert_eq!(query_size("/api/download?n=1&size=7"), 7);
    assert_eq!(query_size("/api/download?size=-7"), 32 * 1024 * 1024);
    assert_eq!(query_value("/x?a=1&b", "b"), None);
    assert_eq!(query_value("/x", "a"), None);
}

#[test]
fn assets_are_cached_only_under_their_hash() {
    let hash = content_hash(b"body");
    let cached = text(&asset(format!("/app.js?hash={hash}").as_bytes(), "text/javascript", b"body"));
    assert!(cached.starts_with("HTTP/1.1 200 OK\r\n"));
    assert!(cached.contains("immutable"));
    let plain = text(&asset(b"/app.js", "text/javascript", b"body"));
    assert!(plain.contains("no-store") && plain.ends_with("body"));
    let stale = text(&asset(b"/app.js?hash=0000000000000000", "text/javascript", b"body"));
    assert!(stale.starts_with("HTTP/1.1 404 Not Found\r\n") && stale.ends_with("asset not found"));
}

#[test]
fn placeholders_never_survive_rendering() {
    let a = assets(b"__STYLE_HASH____STYLE_HASH__ _____APP_HASH___ __I18N__I18N_HASH__HASH__ \xff");
    let page = String::from_utf8(rendered_index(&a)).unwrap();
    for p in ["__STYLE_HASH__", "__LOCALE_EN_HASH__", "__LOCALE_LV_HASH__", "__I18N_HASH__", "__CHART_HASH__", "__APP_HASH__"] {
        assert!(!page.contains(p), "{p}");
    }
    assert!(page.ends_with('\u{FFFD}'));
    let style = content_hash(b"a");
    assert!(page.starts_with(&format!("{style}{style} ___{}_", content_hash(b"f"))));
    let site = Site::new(a);
    let results = text(&page_bytes(&site, Page::Results));
    assert!(results.ends_with(&content_hash(b"g")));
}

#[test]
fn health_and_ping_answer_json() {
    let site = Site::new(assets(b""));
    let none = speedtest::request::Framing { content_length: 0, chunked: false, expect_continue: false };
    let Plan::Page(health) = route(Method::Get, b"/health", none) else { panic!("not a page") };
    let reply = text(&page(&site, health, b"/health"));
    assert!(reply.starts_with("HTTP/1.1 200 OK\r\nContent-Type: application/json\r\n"));
    assert!(reply.ends_with("\r\n\r\n{\"status\":\"ok\"}"));
    let Plan::Page(ping) = route(Method::Get, b"/api/ping", none) else { panic!("not a page") };
    assert!(text(&page(&site, ping, b"/api/ping")).ends_with("{\"ok\":true}"));
    let missing = text(&page(&site, Page::NotFound, b"/nope"));
    assert!(missing.starts_with("HTTP/1.1 404 Not Found\r\nContent-Type: text/plain; charset=utf-8\r\n"));
}

fn page_bytes(site: &Site, which: Page) -> Vec<u8> {
    page(site, which, b"/")
}

#[test]
fn replacement_is_left_to_right_without_overlap() {
    assert_eq!(replace_bytes(b"aaa", b"aa", b"b"), b"ba".to_vec());
    assert_eq!(replace_bytes(b"xyx", b"x", b""), b"y".to_vec());
    assert_eq!(replace_bytes(b"", b"x", b"yy"), b"".to_vec());
}

#[test]
fn admission_runs_one_test_at_a_time() {
    let cookie = [7u8; 37];
    let other = [8u8; 37];
    assert_eq!(admission(None, false, &cookie), Admission::NewSession);
    assert_eq!(admission(Some(&cookie), true, &cookie), Admission::JoinSession);
    assert_eq!(admission(Some(&cookie), false, &cookie), Admission::Deny);
    assert_eq!(admission(Some(&cookie), true, &other), Admission::Deny);
}

#[test]
fn frames_are_length_prefixed() {
    assert_eq!(json_frame_length(&[0, 0, 1, 0]).unwrap(), 256);
    assert_eq!(json_frame_length(&[0, 16, 0, 0]).unwrap(), 1 << 20);
    assert_eq!(json_frame_length(&[0, 16, 0, 1]).unwrap_err(), FrameError::InvalidLength);
    assert_eq!(json_frame_length(&[0, 0, 0, 0]).unwrap_err(), FrameError::InvalidLength);
    assert_eq!(json_frame(b"{}").unwrap(), vec![0, 0, 0, 2, b'{', b'}']);
    assert_eq!(json_text(b"{\"a\":\"\xc3\xa9\"}").unwrap(), "{\"a\":\"é\"}");
    assert_eq!(json_text(b"{\xc3}").unwrap_err(), FrameError::NotUtf8);
    assert_eq!(server_error_frame(13, 0), vec![SERVER_ERROR, 0, 0, 0, 13, 0, 0, 0, 0]);
    assert_eq!(server_error_frame(-1, 1), vec![SERVER_ERROR, 255, 255, 255, 255, 0, 0, 0, 1]);
}

#[test]
fn results_report_each_stream() {
    let json = text(&results_json(&[5], b"2.500000", true));
    assert_eq!(
        json,
        "{\"cpu_util_total\":0,\"cpu_util_user\":0,\"cpu_util_system\":0,\"sender_has_retransmits\":0,\"streams\":[\
         {\"id\":1,\"bytes\":5,\"retransmits\":0,\"jitter\":0,\"errors\":0,\"omitted_errors\":0,\"packets\":0,\
         \"omitted_packets\":0,\"start_time\":0,\"end_time\":2.500000}]}"
    );
    assert!(text(&results_json(&[], b"0", false)).ends_with("\"sender_has_retransmits\":-1,\"streams\":[]}"));
}

#[test]
fn a_session_walks_through_the_protocol() {
    let mut s = Session::new();
    assert_eq!(s.greet(), vec![PARAM_EXCHANGE]);
    let (p, m) = s.on_parameters(r#"{"tcp":true,"reverse":true,"parallel":2}"#).unwrap();
    assert_eq!(p.streams, 2);
    assert_eq!(m, vec![CREATE_STREAMS]);
    assert!(s.reverse);
    assert_eq!(s.streams_ready(), vec![TEST_START, TEST_RUNNING]);
    assert_eq!(s.on_test_state(TEST_END).unwrap(), vec![EXCHANGE_RESULTS]);
    let frame = s.results(&[10, 20], b"1.0").unwrap();
    assert_eq!(*frame.last().unwrap(), DISPLAY_RESULTS);
    let json = results_json(&[10, 20], b"1.0", true);
    assert_eq!(frame[..4], (json.len() as u32).to_be_bytes());
    assert_eq!(frame[4..frame.len() - 1], json[..]);
    assert_eq!(s.phase, SessionPhase::Display);
    assert!(s.on_final_state(IPERF_DONE).is_ok());
    assert_eq!(s.phase, SessionPhase::Done);
}

#[test]
fn a_session_fails_on_refusals_and_stray_states() {
    let mut s = Session::new();
    s.greet();
    let (e, m) = s.on_parameters(r#"{"tcp":false}"#).unwrap_err();
    assert_eq!(e, ParamError::NotTcp);
    assert_eq!(m, server_error_frame(13, 0));
    assert_eq!(s.phase, SessionPhase::Failed);

    let mut s = Session::new();
    s.greet();
    s.on_parameters(r#"{"tcp":true}"#).unwrap();
    s.streams_ready();
    assert_eq!(s.on_test_state(9).unwrap_err(), SessionError::UnexpectedState { expected: TEST_END, got: 9 });
    assert_eq!(s.phase, SessionPhase::Failed);
}

#[test]
fn transfers_count_until_the_stream_stops() {
    assert_eq!(transfer_step(5, Transfer::Moved(3)), Some(8));
    assert_eq!(transfer_step(u64::MAX - 1, Transfer::Moved(3)), Some(u64::MAX));
    assert_eq!(transfer_step(5, Transfer::Retry), Some(5));
    assert_eq!(transfer_step(5, Transfer::Closed), None);
    assert_eq!(transfer_step(5, Transfer::Failed), None);
}

#[test]
fn download_blocks_total_the_announced_size() {
    for size in [0usize, 1, 3, BLOCK - 1, BLOCK, BLOCK + 1, 3 * BLOCK + 5] {
        let mut sent = 0usize;
        let mut blocks = 0;
        loop {
            let count = download_block(size, sent);
            if count == 0 {
                break;
            }
            assert!(count <= BLOCK);
            sent += count;
            blocks += 1;
        }
        assert_eq!(sent, size);
        assert_eq!(blocks, size.div_ceil(BLOCK));
    }
    let mut whole = download(3);
    whole.extend_from_slice(&download_fill(download_block(3, 0)));
    assert_eq!(
        text(&whole),
        "HTTP/1.1 200 OK\r\nContent-Type: application/octet-stream\r\nContent-Length: 3\r\nCache-Control: no-store\r\n\
         Content-Encoding: identity\r\nConnection: close\r\n\r\nZZZ"
    );
}

/// Runs a fixed-length upload of `size` against a body of `k` bytes read in
/// pieces of at most `piece`.
fn fixed_upload(size: u64, k: usize, piece: usize) -> (String, usize) {
    let mut upload = FixedUpload::new(size);
    let mut left = k;
    let mut taken = 0;
    while let UploadAction::Read { count } = upload.action() {
        let read = count.min(left).min(piece);
        left -= read;
        taken += read;
        upload.on_read(read);
    }
    (text(&upload.reply(b"0.500000")), taken)
}

#[test]
fn fixed_uploads_take_exactly_their_size() {
    let (reply, taken) = fixed_upload(5, 9, 2);
    assert!(reply.starts_with("HTTP/1.1 200 OK\r\n") && reply.ends_with("{\"bytes\":5,\"seconds\":0.500000}"));
    assert_eq!(taken, 5);
    let (reply, taken) = fixed_upload(5, 3, 100);
    assert!(reply.starts_with("HTTP/1.1 400 Bad Request\r\n") && reply.ends_with("incomplete upload"));
    assert_eq!(taken, 3);
    let (reply, _) = fixed_upload(0, 0, 1);
    assert!(reply.ends_with("{\"bytes\":0,\"seconds\":0.500000}"));
    let (_, taken) = fixed_upload(BLOCK as u64 * 2 + 1, BLOCK * 3, usize::MAX);
    assert_eq!(taken, BLOCK * 2 + 1);
}

#[test]
fn chunked_replies_follow_the_decoder() {
    let ok = text(&chunked_reply(read_chunked_body(b"3\r\nabc\r\n0\r\n\r\n"), b"1.000000"));
    assert!(ok.starts_with("HTTP/1.1 200 OK\r\n") && ok.ends_with("{\"bytes\":3,\"seconds\":1.000000}"));
    let large = text(&chunked_reply(read_chunked_body(b"80000001\r\n"), b"1"));
    assert!(large.starts_with("HTTP/1.1 413 Payload Too Large\r\n") && large.ends_with("upload too large"));
    for body in [b"zz\r\n".as_slice(), b"3\r\nab"] {
        let bad = text(&chunked_reply(read_chunked_body(body), b"1"));
        assert!(bad.starts_with("HTTP/1.1 400 Bad Request\r\n") && bad.ends_with("invalid chunked upload"));
    }
}

#[test]
fn fingerprints_read_back_as_the_hash() {
    assert_eq!(content_hash(b""), "cbf29ce484222325");
    for content in [b"".as_slice(), b"speedtest", b"\xff\x00a"] {
        let hash = content_hash(content);
        assert_eq!(hash.len(), 16);
        assert!(hash.bytes().all(|b| b.is_ascii_digit() || (b'a'..=b'f').contains(&b)));
        let expected = content.iter().fold(0xcbf29ce484222325u64, |h, b| (h ^ *b as u64).wrapping_mul(0x100000001b3));
        assert_eq!(u64::from_str_radix(&hash, 16).unwrap(), expected);
        assert_eq!(parse_unsigned(hash.as_bytes(), 16, u64::MAX).unwrap(), expected);
    }
}

#[test]
fn a_whole_head_is_bounded() {
    let request_line = "GET / HTTP/1.1\r\n";
    for (n, accepted) in [(32, true), (33, false)] {
        let header = format!("X-Fill: {}\r\n", "a".repeat(1000));
        let mut lines: Vec<String> = vec![header; n];
        let used: usize = request_line.len() + lines.iter().map(String::len).sum::<usize>();
        lines.push(format!("X-Pad: {}\r\n", "b".repeat(MAX_HEADER.saturating_sub(used + 2 + 9))));
        lines.push("\r\n".to_string());
        let (_, mut parser) = HeadParser::start(request_line).unwrap();
        let mut last = HeaderStep::More;
        for line in &lines {
            last = parser.accept(line);
            if last != HeaderStep::More {
                break;
            }
        }
        let total = request_line.len() + lines.iter().map(String::len).sum::<usize>();
        assert_eq!(total <= MAX_HEADER, accepted);
        if accepted {
            assert_eq!(last, HeaderStep::End);
            assert_eq!(parser.header_bytes, total);
        } else {
            assert_eq!(last, HeaderStep::Reject(Rejection::HeadersTooLarge));
        }
    }
}
