use std::cell::{Cell, RefCell};

use nausicaa::context::CompiledContext;
use nausicaa::id::{ThreadId, TurnId};
use nausicaa::json::{parse, Json};
use nausicaa::keyed::Keyed;
use nausicaa::model::{ModelError, ModelRequest, RequestTimings};
use nausicaa::provider::{
    HttpControl, HttpRequest, HttpResponse, HttpTransport, OpenAiCompatibleAdapter, OpenAiConfig,
    RequestTokenCounter, TransportError,
};
use nausicaa::transport::{
    check_progress, curl_config_escape, record_timings, request_outcome, CurlExchange,
    CurlTransport,
};

fn request(url: &str) -> HttpRequest {
    let mut headers: Keyed<String> = Keyed::new();
    headers.insert("Content-Type".to_owned(), "application/json".to_owned());
    HttpRequest {
        url: url.to_owned(),
        headers,
        body: parse("{\"x\":\"a\\nb\"}").unwrap(),
        timeout_seconds: 0,
    }
}

#[test]
fn curl_config_escaping_preserves_json_backslashes() {
    assert_eq!(
        curl_config_escape("{\"x\":\"a\\nb\"}"),
        "{\\\"x\\\":\\\"a\\\\nb\\\"}"
    );
}

#[test]
fn escaped_values_stay_on_their_line() {
    assert_eq!(curl_config_escape("a\r\nb"), "a\\r\\nb");
}

#[test]
fn the_configuration_holds_the_whole_request() {
    let transport = CurlTransport::new();
    let marker = transport.marker(&TurnId::from_string("7".to_owned()));
    assert_eq!(marker, "__NAUSICAA_7__");
    assert_eq!(
        transport.config(&request("https://example.test/\"q"), &marker).unwrap(),
        "silent\nshow-error\nno-buffer\nrequest = \"POST\"\nproto = \"=http,https\"\nurl = \"https://example.test/\\\"q\"\nmax-time = \"1\"\nheader = \"Content-Type: application/json\"\ndata-binary = \"{\\\"x\\\":\\\"a\\\\nb\\\"}\"\nwrite-out = \"\\n__NAUSICAA_7__ %{http_code} %{time_namelookup} %{time_connect} %{time_appconnect} %{time_starttransfer}\\n\"\n"
    );
    assert_eq!(CurlTransport::default().binary(), "curl");
    assert_eq!(CurlTransport::new().with_binary("other".to_owned()).binary(), "other");
}

#[test]
fn unsafe_addresses_and_headers_are_refused() {
    let transport = CurlTransport::new();
    for url in ["file:///etc/passwd", "ftp://example.test", "example.test"] {
        assert!(transport.config(&request(url), "m").is_err(), "{url}");
    }
    let mut broken = request("https://example.test");
    broken.headers.insert("X".to_owned(), "a\r\nb".to_owned());
    assert!(transport.config(&broken, "m").is_err());
}

fn exchange(streaming: bool, body: &[u8]) -> CurlExchange {
    let mut exchange = CurlExchange::new(streaming);
    let mut texts: Vec<String> = Vec::new();
    exchange.receive(&body.to_vec(), &mut texts).unwrap();
    exchange
}

#[test]
fn the_report_is_told_from_the_response() {
    let exchange = exchange(false, b"{\"a\":\n1}\nM 200 0.1 0.2 0.3 0.4\n");
    let report = exchange.report("M").unwrap();
    assert_eq!(report.body, "{\"a\":\n1}");
    assert_eq!(report.status, 200);
    assert_eq!(
        (report.name_lookup.as_str(), report.start_transfer.as_str()),
        ("0.1", "0.4")
    );
    let response = exchange.conclude(report, true, "exit status: 0", &Vec::new()).unwrap();
    assert_eq!(response.body, parse("{\"a\":1}").unwrap());
}

#[test]
fn broken_reports_are_refused() {
    for (bytes, message) in [
        (&b"{}"[..], "missing curl metrics"),
        (&b"{}\nM 200 1 2 3\n"[..], "invalid curl metrics"),
        (&b"{}\nM x 1 2 3 4\n"[..], "invalid HTTP status"),
        (&b"\xff\nM 200 1 2 3 4\n"[..], "non-UTF-8 response"),
    ] {
        assert_eq!(
            exchange(false, bytes).report("M"),
            Err(TransportError::Protocol(message.to_owned()))
        );
    }
}

#[test]
fn failed_requests_are_answered_with_their_reason() {
    let failed = exchange(false, b"{}\nM 000 0 0 0 0\n");
    let report = failed.report("M").unwrap();
    let complaint = b" curl: (7) refused \xff\n".to_vec();
    assert_eq!(
        failed.conclude(report, false, "exit status: 7", &complaint),
        Err(TransportError::Io("curl exit status: 7: curl: (7) refused \u{fffd}".to_owned()))
    );
    let refused = exchange(false, b"no\nM 404 0 0 0 0\n");
    let report = refused.report("M").unwrap();
    assert_eq!(
        refused.conclude(report, true, "exit status: 0", &Vec::new()),
        Err(TransportError::Http { status: 404, body: "no".to_owned() })
    );
    let odd = exchange(false, b"no\nM 200 0 0 0 0\n");
    let report = odd.report("M").unwrap();
    assert!(matches!(
        odd.conclude(report, true, "exit status: 0", &Vec::new()),
        Err(TransportError::Protocol(_))
    ));
}

#[test]
fn completed_stream_records_network_phases_and_missing_done_fails() {
    let frame = "data: {\"choices\":[{\"index\":0,\"delta\":{\"content\":\"hello\"},\"finish_reason\":\"stop\"}]}\n\n";
    let whole = format!("{frame}data: [DONE]\n\n\nM 200 0.001 0.002 0.000 0.003\n");
    let mut exchange = CurlExchange::new(true);
    let mut texts: Vec<String> = Vec::new();
    for part in whole.as_bytes().chunks(5) {
        exchange.receive(&part.to_vec(), &mut texts).unwrap();
    }
    assert_eq!(texts.concat(), "hello");
    let report = exchange.report("M").unwrap();
    assert!(exchange.conclude(report, true, "exit status: 0", &Vec::new()).is_ok());
    let cut = format!("{frame}\nM 200 0.001 0.002 0.000 0.003\n");
    let mut exchange = CurlExchange::new(true);
    exchange.receive(&cut.as_bytes().to_vec(), &mut texts).unwrap();
    let report = exchange.report("M").unwrap();
    let result = exchange.conclude(report, true, "exit status: 0", &Vec::new());
    assert!(result.is_err(), "{result:?}");
}

#[test]
fn phases_are_differences_of_measurements() {
    let mut timings = RequestTimings {
        dns_ms: None,
        tcp_connect_ms: None,
        tls_ms: None,
        first_byte_ms: None,
        first_text_ms: Some(9),
        total_ms: 10,
    };
    record_timings(&mut timings, Some(1), Some(3), Some(0), Some(7));
    assert_eq!(timings.dns_ms, Some(1));
    assert_eq!(timings.tcp_connect_ms, Some(2));
    assert_eq!(timings.tls_ms, None);
    assert_eq!(timings.first_byte_ms, Some(7));
    assert_eq!(timings.first_text_ms, Some(9));
    record_timings(&mut timings, Some(5), Some(3), Some(8), Some(0));
    assert_eq!(timings.tcp_connect_ms, Some(0));
    assert_eq!(timings.tls_ms, Some(5));
    assert_eq!(timings.first_byte_ms, None);
}

#[test]
fn requests_end_when_cancelled_or_late() {
    let open = HttpControl { cancelled: false, abandoned: false };
    let cancelled = HttpControl { cancelled: true, abandoned: false };
    assert!(check_progress(&open, 1, 2).is_ok());
    assert_eq!(
        check_progress(&open, 1, 0),
        Err(TransportError::Io("request deadline exceeded".to_owned()))
    );
    assert_eq!(
        check_progress(&cancelled, 0, 9),
        Err(TransportError::Io("request cancelled".to_owned()))
    );
    assert_eq!(request_outcome(&cancelled, true), "cancelled");
    assert_eq!(request_outcome(&open, true), "completed");
    assert_eq!(request_outcome(&open, false), "failed");
}

#[test]
fn oversized_responses_are_refused() {
    let mut exchange = CurlExchange::new(false);
    let mut texts: Vec<String> = Vec::new();
    let half = vec![b'x'; nausicaa::transport::MAX_BODY];
    exchange.receive(&half, &mut texts).unwrap();
    assert_eq!(
        exchange.receive(&vec![b'x'], &mut texts),
        Err(TransportError::Protocol("response exceeds 8 MiB".to_owned()))
    );
}

const OPEN: HttpControl = HttpControl { cancelled: false, abandoned: false };

/// A transport whose endpoint sends one piece of a stream and then holds the socket open. The
/// host sees the request in another way as soon as a text was shown.
struct HeldStream {
    piece: &'static str,
    then: HttpControl,
    control: Cell<HttpControl>,
    preview: RefCell<String>,
    first_text_ms: Cell<Option<u64>>,
}

impl HeldStream {
    fn new(piece: &'static str, then: HttpControl) -> Self {
        HeldStream {
            piece,
            then,
            control: Cell::new(OPEN),
            preview: RefCell::new(String::new()),
            first_text_ms: Cell::new(None),
        }
    }
}

impl HttpTransport for HeldStream {
    fn post_json(&self, request: HttpRequest) -> Result<HttpResponse, TransportError> {
        let mut exchange = CurlExchange::new(request.is_streaming());
        check_progress(&self.control.get(), 0, request.timeout_seconds)?;
        let mut texts: Vec<String> = Vec::new();
        exchange.receive(&self.piece.as_bytes().to_vec(), &mut texts)?;
        for text in texts {
            self.preview.borrow_mut().push_str(&text);
            self.first_text_ms.set(Some(3));
            self.control.set(self.then);
        }
        // The host looks at the request while it waits for more.
        for elapsed in 0..request.timeout_seconds {
            check_progress(&self.control.get(), elapsed, request.timeout_seconds)?;
        }
        panic!("the request was not stopped");
    }
}

#[test]
fn streaming_delivers_preview_before_completion_and_cancels_open_socket() {
    let cancelled = HttpControl { cancelled: true, abandoned: false };
    let transport = HeldStream::new(
        "data: {\"choices\":[{\"index\":0,\"delta\":{\"content\":\"hello\"},\"finish_reason\":null}]}\n\n",
        cancelled,
    );
    let mut asked = request("http://example.test");
    asked.body = parse("{\"stream\":true}").unwrap();
    asked.timeout_seconds = 10;
    let result = transport.post_json(asked);
    assert!(result.is_err());
    assert_eq!(result, Err(TransportError::Io("request cancelled".to_owned())));
    assert_eq!(*transport.preview.borrow(), "hello");
}

struct NoCounter;

impl RequestTokenCounter for NoCounter {
    fn count_input_tokens(&self, _body: &Json) -> Result<u64, ModelError> {
        Ok(0)
    }
}

#[test]
fn dropping_pending_future_cancels_only_its_request_and_reports_timings() {
    // Nobody waits for the first request any more. The second one is not touched.
    let dropped = HttpControl { cancelled: false, abandoned: true };
    let transport = HeldStream::new(
        "data: {\"choices\":[{\"index\":0,\"delta\":{\"content\":\"draft\"},\"finish_reason\":null}]}\n\n",
        dropped,
    );
    let adapter = OpenAiCompatibleAdapter::new(OpenAiConfig::new(
        "http://example.test".to_owned(),
        "fixture".to_owned(),
    ))
    .with_streaming(true);
    let asked = ModelRequest {
        thread_id: ThreadId::from_string("thread".to_owned()),
        turn_id: TurnId::from_string("turn".to_owned()),
        iteration: 0,
        context: CompiledContext { prompt: vec![], messages: vec![] },
        tools: vec![],
    };
    let answer = adapter.complete_blocking(&asked, &transport, &NoCounter);
    assert!(answer.is_err());
    assert_eq!(*transport.preview.borrow(), "draft");
    let control = transport.control.get();
    assert_eq!(request_outcome(&control, answer.is_ok()), "cancelled");
    let mut timings = RequestTimings {
        dns_ms: None,
        tcp_connect_ms: None,
        tls_ms: None,
        first_byte_ms: None,
        first_text_ms: transport.first_text_ms.get(),
        total_ms: 12,
    };
    record_timings(&mut timings, None, None, None, None);
    assert!(timings.first_text_ms.is_some());
    assert!(timings.total_ms < 2000);
    assert!(!control.cancelled);
    assert!(check_progress(&OPEN, 0, 10).is_ok());
}
