//! Sending requests with curl: its configuration, and reading what it answers.
//! 
//! The host runs curl. The configuration, with the bearer token and the body, goes to
//! curl's standard input rather than its arguments.

use vstd::prelude::*;
use vstd::string::*;

use crate::datum::{done_view, res_view, views};
use crate::id::TurnId;
use crate::json::{json_parse, json_text, parse};
use crate::keyed::{ascending, keyed_view, Keyed};
use crate::model::{RequestTimings, RequestTimingsView};
use crate::provider::{
    HttpControl, HttpRequest, HttpRequestView, HttpResponse, HttpResponseView, TransportError,
    TransportErrorView,
};
use crate::stream::{
    bytes_step, failure_of, finished, new_decoder, Decoder, DecoderView,
};
use crate::text::{
    begins, chars_of, contains_char, decimal, decimal_of, fields, fields_of, last_index, number_of,
    parse_number, rsplit, rsplit_of, slice_text, stands_at, starts_with, trim, trim_of,
};
use crate::utf8::{append_capped, decode, decode_lossy, lossy_text};
use vstd::utf8::*;

verus! {

/// The greatest size of a response.
pub const MAX_BODY: usize = 8_388_608;

/// The greatest size of what curl's complaints are kept.
pub const MAX_COMPLAINT: usize = 16_384;

// ---------------------------------------------------------------------------
// Quoted values of curl's configuration
// ---------------------------------------------------------------------------

/// A character inside a quoted value.
pub open spec fn escaped_char(c: char) -> Seq<char> {
    if c == '\\' {
        seq!['\\', '\\']
    } else if c == '"' {
        seq!['\\', '"']
    } else if c == '\r' {
        seq!['\\', 'r']
    } else if c == '\n' {
        seq!['\\', 'n']
    } else {
        seq![c]
    }
}

/// A text inside a quoted value.
pub open spec fn escaped(text: Seq<char>) -> Seq<char>
    decreases text.len(),
{
    if text.len() == 0 {
        Seq::empty()
    } else {
        escaped(text.drop_last()) + escaped_char(text.last())
    }
}

/// Escapes a text for a quoted value.
pub fn curl_config_escape(value: &str) -> (text: String)
    ensures
        text@ == escaped(value@),
{
    let chars = chars_of(value);
    let mut text = String::new();
    let mut index: usize = 0;
    assert(value@.take(0) =~= Seq::empty());
    assert(text@ =~= Seq::<char>::empty());
    while index < chars.len()
        invariant
            index <= chars@.len(),
            chars@ == value@,
            text@ == escaped(value@.take(index as int)),
        decreases chars@.len() - index,
    {
        let c = chars[index];
        let ghost before = text@;
        proof {
            let grown = value@.take(index as int + 1);
            assert(grown.drop_last() =~= value@.take(index as int));
            assert(grown.last() == c);
        }
        if c == '\\' {
            text.push('\\');
            text.push('\\');
        } else if c == '"' {
            text.push('\\');
            text.push('"');
        } else if c == '\r' {
            text.push('\\');
            text.push('r');
        } else if c == '\n' {
            text.push('\\');
            text.push('n');
        } else {
            text.push(c);
        }
        assert(text@ =~= before + escaped_char(c));
        index = index + 1;
    }
    assert(value@.take(index as int) =~= value@);
    text
}

/// What a quoted value denotes, and what stands behind its closing quote. A backslash
/// quotes the next character; after it `t`, `n`, `r` and `v` stand for whitespace.
pub open spec fn read_quoted(text: Seq<char>) -> Option<(Seq<char>, Seq<char>)>
    decreases text.len(),
{
    if text.len() == 0 {
        None
    } else if text[0] == '"' {
        Some((Seq::empty(), text.skip(1)))
    } else if text[0] == '\\' {
        if text.len() < 2 {
            None
        } else {
            let c = if text[1] == 't' {
                '\t'
            } else if text[1] == 'n' {
                '\n'
            } else if text[1] == 'r' {
                '\r'
            } else if text[1] == 'v' {
                '\u{b}'
            } else {
                text[1]
            };
            match read_quoted(text.skip(2)) {
                Some((value, rest)) => Some((seq![c] + value, rest)),
                None => None,
            }
        }
    } else {
        match read_quoted(text.skip(1)) {
            Some((value, rest)) => Some((seq![text[0]] + value, rest)),
            None => None,
        }
    }
}

proof fn lemma_escaped_front(text: Seq<char>)
    requires
        text.len() > 0,
    ensures
        escaped(text) == escaped_char(text[0]) + escaped(text.skip(1)),
    decreases text.len(),
{
    if text.len() == 1 {
        assert(text.drop_last() =~= Seq::empty());
        assert(text.skip(1) =~= Seq::empty());
        assert(escaped(Seq::<char>::empty()) =~= Seq::empty());
        assert(escaped(text) =~= escaped_char(text[0]) + escaped(text.skip(1)));
    } else {
        lemma_escaped_front(text.drop_last());
        assert(text.drop_last().skip(1) =~= text.skip(1).drop_last());
        assert(text.skip(1).last() == text.last());
        assert(escaped_char(text[0]) + escaped(text.skip(1).drop_last()) + escaped_char(text.last())
            =~= escaped_char(text[0]) + (escaped(text.skip(1).drop_last()) + escaped_char(
            text.last(),
        )));
    }
}

/// An escaped value is read back as itself and ends at its own closing quote, so that no
/// value can add a line or an option to the configuration.
pub proof fn law_escaped_values_read_back(value: Seq<char>, rest: Seq<char>)
    ensures
        read_quoted(escaped(value) + seq!['"'] + rest) == Some((value, rest)),
    decreases value.len(),
{
    let text = escaped(value) + seq!['"'] + rest;
    if value.len() == 0 {
        assert(text =~= seq!['"'] + rest);
        assert(text.skip(1) =~= rest);
        assert(value =~= Seq::empty());
    } else {
        lemma_escaped_front(value);
        let c = value[0];
        let tail = value.skip(1);
        law_escaped_values_read_back(tail, rest);
        let after = escaped(tail) + seq!['"'] + rest;
        assert(text =~= escaped_char(c) + after);
        if escaped_char(c).len() == 2 {
            assert(text[0] == '\\');
            assert(text.skip(2) =~= after);
        } else {
            assert(text[0] == c);
            assert(text.skip(1) =~= after);
        }
        assert(seq![c] + tail =~= value);
    }
}

/// An escaped value stays on its line.
pub proof fn law_escaped_values_stay_on_their_line(value: Seq<char>)
    ensures
        !escaped(value).contains('\n'),
        !escaped(value).contains('\r'),
    decreases value.len(),
{
    if value.len() > 0 {
        law_escaped_values_stay_on_their_line(value.drop_last());
        let front = escaped(value.drop_last());
        let whole = escaped(value);
        assert forall|c: char| (c == '\n' || c == '\r') implies !whole.contains(c) by {
            if whole.contains(c) {
                let i = choose|i: int| 0 <= i < whole.len() && whole[i] == c;
                if i < front.len() {
                    assert(front[i] == c);
                } else {
                    assert(escaped_char(value.last())[i - front.len()] == c);
                }
            }
        }
    }
}

// ---------------------------------------------------------------------------
// The configuration of a request
// ---------------------------------------------------------------------------

/// Sends requests with curl.
#[derive(Debug)]
pub struct CurlTransport {
    binary: String,
}

impl Clone for CurlTransport {
    fn clone(&self) -> (copy: Self)
        ensures
            copy.program() == self.program(),
    {
        CurlTransport { binary: self.binary.clone() }
    }
}

impl Default for CurlTransport {
    fn default() -> (transport: Self)
        ensures
            transport.program() == "curl"@,
    {
        CurlTransport { binary: "curl".to_owned() }
    }
}

/// Whether a text holds a line break.
pub open spec fn breaks_line(text: Seq<char>) -> bool {
    text.contains('\r') || text.contains('\n')
}

/// Whether curl may be asked for an address.
pub open spec fn supported_url(url: Seq<char>) -> bool {
    begins(url, "https://"@) || begins(url, "http://"@)
}

/// A header in the configuration.
pub open spec fn header_line(name: Seq<char>, value: Seq<char>) -> Seq<char> {
    "header = \""@ + escaped(name + ": "@ + value) + "\"\n"@
}

/// Headers in the configuration.
pub open spec fn header_lines(names: Seq<Seq<char>>, headers: Map<Seq<char>, Seq<char>>) -> Seq<
    char,
>
    decreases names.len(),
{
    if names.len() == 0 {
        Seq::empty()
    } else {
        header_lines(names.drop_last(), headers) + header_line(names.last(), headers[names.last()])
    }
}

/// The time that a request may take.
pub open spec fn seconds_of(timeout_seconds: u64) -> u64 {
    if timeout_seconds == 0 {
        1
    } else {
        timeout_seconds
    }
}

/// The configuration of a request, with its headers in this order. The marker tells the
/// response from curl's report.
pub open spec fn config_of(
    request: HttpRequestView,
    names: Seq<Seq<char>>,
    marker: Seq<char>,
) -> Seq<char> {
    "silent\nshow-error\nno-buffer\nrequest = \"POST\"\nproto = \"=http,https\"\n"@ + "url = \""@
        + escaped(request.url) + "\"\nmax-time = \""@ + decimal_of(
        seconds_of(request.timeout_seconds) as nat,
    ) + "\"\n"@ + header_lines(names, request.headers) + "data-binary = \""@ + escaped(
        json_text(request.body),
    ) + "\"\n"@ + "write-out = \"\\n"@ + marker
        + " %{http_code} %{time_namelookup} %{time_connect} %{time_appconnect} %{time_starttransfer}\\n\"\n"@
}

/// Whether a header of a request holds a line break.
pub open spec fn broken_header(headers: Map<Seq<char>, Seq<char>>) -> bool {
    exists|name: Seq<char>| #[trigger]
        headers.contains_key(name) && (breaks_line(name) || breaks_line(headers[name]))
}

/// The marker of a request.
pub open spec fn marker_of(id: Seq<char>) -> Seq<char> {
    "__NAUSICAA_"@ + id + "__"@
}

fn holds_break(text: &str) -> (yes: bool)
    ensures
        yes == breaks_line(text@),
{
    contains_char(text, '\r') || contains_char(text, '\n')
}

impl CurlTransport {
    /// The program that is run.
    pub closed spec fn program(&self) -> Seq<char> {
        self.binary@
    }

    pub fn new() -> (transport: Self)
        ensures
            transport.program() == "curl"@,
    {
        CurlTransport { binary: "curl".to_owned() }
    }

    pub fn with_binary(self, binary: String) -> (transport: Self)
        ensures
            transport.program() == binary@,
    {
        CurlTransport { binary }
    }

    pub fn binary(&self) -> (binary: &str)
        ensures
            binary@ == self.program(),
    {
        self.binary.as_str()
    }

    /// The marker of a request, given an identifier that nothing else has.
    pub fn marker(&self, id: &TurnId) -> (marker: String)
        ensures
            marker@ == marker_of(id@),
    {
        "__NAUSICAA_".to_owned().concat(id.as_str()).concat("__")
    }

    /// The configuration of a request.
    pub fn config(&self, request: &HttpRequest, marker: &str) -> (config: Result<
        String,
        TransportError,
    >)
        ensures
            match config {
                Ok(text) => {
                    &&& supported_url(request@.url)
                    &&& !broken_header(request@.headers)
                    &&& exists|names: Seq<Seq<char>>| #[trigger]
                        ascending(names) && names.to_set() == request@.headers.dom() && text@
                            == config_of(request@, names, marker@)
                },
                Err(error) => if !supported_url(request@.url) {
                    error@ == TransportErrorView::Protocol(
                        "only http:// and https:// endpoints are supported"@,
                    )
                } else {
                    broken_header(request@.headers) && error@ == TransportErrorView::Protocol(
                        "HTTP headers cannot contain CR or LF"@,
                    )
                },
            },
    {
        if !(starts_with(request.url.as_str(), "https://") || starts_with(
            request.url.as_str(),
            "http://",
        )) {
            return Err(
                TransportError::Protocol(
                    "only http:// and https:// endpoints are supported".to_owned(),
                ),
            );
        }
        let headers = match write_headers(&request.headers) {
            Some(headers) => headers,
            None => {
                return Err(
                    TransportError::Protocol("HTTP headers cannot contain CR or LF".to_owned()),
                );
            },
        };
        let mut seconds: u64 = request.timeout_seconds;
        if seconds == 0 {
            seconds = 1;
        }
        let config =
            "silent\nshow-error\nno-buffer\nrequest = \"POST\"\nproto = \"=http,https\"\n".to_owned().concat(
        "url = \"").concat(curl_config_escape(request.url.as_str()).as_str()).concat(
            "\"\nmax-time = \"",
        ).concat(decimal(seconds).as_str()).concat("\"\n").concat(headers.as_str()).concat(
            "data-binary = \"",
        ).concat(curl_config_escape(request.body.to_text().as_str()).as_str()).concat(
            "\"\n",
        ).concat("write-out = \"\\n").concat(marker).concat(
            " %{http_code} %{time_namelookup} %{time_connect} %{time_appconnect} %{time_starttransfer}\\n\"\n",
        );
        proof {
            let names = request.headers.keys();
            assert(keyed_view(request.headers@).dom() =~= request.headers@.dom());
            assert(ascending(names));
            assert(names.to_set() =~= request@.headers.dom());
            assert(config@ == config_of(request@, names, marker@));
        }
        Ok(config)
    }
}

fn write_headers(headers: &Keyed<String>) -> (lines: Option<String>)
    ensures
        ascending(headers.keys()),
        headers@.dom() == headers.keys().to_set(),
        match lines {
            Some(text) => !broken_header(keyed_view(headers@)) && text@ == header_lines(
                headers.keys(),
                keyed_view(headers@),
            ),
            None => broken_header(keyed_view(headers@)),
        },
{
    let count: usize = headers.len();
    let ghost names = headers.keys();
    let ghost map = keyed_view(headers@);
    let mut lines = String::new();
    let mut at: usize = 0;
    assert(names.take(0) =~= Seq::empty());
    assert(lines@ =~= Seq::<char>::empty());
    while at < count
        invariant
            at <= count,
            count == names.len(),
            names == headers.keys(),
            ascending(names),
            headers@.dom() == names.to_set(),
            map == keyed_view(headers@),
            lines@ == header_lines(names.take(at as int), map),
            forall|i: int|
                0 <= i < at ==> !breaks_line(#[trigger] names[i]) && !breaks_line(map[names[i]]),
        decreases count - at,
    {
        let name = headers.key_at(at);
        let value = headers.value_at(at);
        assert(map.contains_key(name@) && map[name@] == value@);
        if holds_break(name.as_str()) || holds_break(value.as_str()) {
            return None;
        }
        let field = name.clone().concat(": ").concat(value.as_str());
        let line = "header = \"".to_owned().concat(
            curl_config_escape(field.as_str()).as_str(),
        ).concat("\"\n");
        proof {
            let grown = names.take(at as int + 1);
            assert(grown.drop_last() =~= names.take(at as int));
            assert(grown.last() == name@);
            assert(line@ == header_line(name@, value@));
        }
        lines.append(line.as_str());
        at = at + 1;
    }
    proof {
        assert(names.take(at as int) =~= names);
        assert forall|name: Seq<char>| #[trigger] map.contains_key(name) implies !(breaks_line(name)
            || breaks_line(map[name])) by {
            assert(headers@.dom().contains(name));
            assert(names.to_set().contains(name));
            let i = choose|i: int| 0 <= i < names.len() && names[i] == name;
            assert(!breaks_line(names[i]));
        }
    }
    Some(lines)
}

// ---------------------------------------------------------------------------
// The exchange
// ---------------------------------------------------------------------------

/// Whether a running request may go on, given the whole seconds that it has taken.
pub fn check_progress(control: &HttpControl, elapsed_seconds: u64, timeout_seconds: u64) -> (done:
    Result<(), TransportError>)
    ensures
        done_view(done) == (if control.cancelled || control.abandoned {
            Err(TransportErrorView::Io("request cancelled"@))
        } else if elapsed_seconds >= seconds_of(timeout_seconds) {
            Err(TransportErrorView::Io("request deadline exceeded"@))
        } else {
            Ok(())
        }),
{
    match control.check() {
        Ok(()) => {},
        Err(error) => {
            return Err(error);
        },
    }
    let mut seconds: u64 = timeout_seconds;
    if seconds == 0 {
        seconds = 1;
    }
    if elapsed_seconds >= seconds {
        return Err(TransportError::Io("request deadline exceeded".to_owned()));
    }
    Ok(())
}

/// What has arrived of a response.
#[verifier::ext_equal]
pub ghost struct ExchangeView {
    pub streaming: bool,
    pub bytes: Seq<u8>,
    pub decoder: DecoderView,
}

/// What has arrived of a response.
#[derive(Debug)]
pub struct CurlExchange {
    streaming: bool,
    bytes: Vec<u8>,
    decoder: Decoder,
}

impl View for CurlExchange {
    type V = ExchangeView;

    closed spec fn view(&self) -> ExchangeView {
        ExchangeView { streaming: self.streaming, bytes: self.bytes@, decoder: self.decoder@ }
    }
}

/// Curl's report behind a response.
#[derive(Debug, PartialEq, Eq)]
pub struct CurlReport {
    pub body: String,
    pub status: u16,
    pub name_lookup: String,
    pub connect: String,
    pub app_connect: String,
    pub start_transfer: String,
}

/// The model of [`CurlReport`].
#[verifier::ext_equal]
pub ghost struct CurlReportView {
    pub body: Seq<char>,
    pub status: u16,
    pub name_lookup: Seq<char>,
    pub connect: Seq<char>,
    pub app_connect: Seq<char>,
    pub start_transfer: Seq<char>,
}

impl View for CurlReport {
    type V = CurlReportView;

    open spec fn view(&self) -> CurlReportView {
        CurlReportView {
            body: self.body@,
            status: self.status,
            name_lookup: self.name_lookup@,
            connect: self.connect@,
            app_connect: self.app_connect@,
            start_transfer: self.start_transfer@,
        }
    }
}

/// The report that stands behind a response, or why there is none.
pub open spec fn report_of(bytes: Seq<u8>, marker: Seq<char>) -> Result<
    CurlReportView,
    TransportErrorView,
> {
    if !valid_utf8(bytes) {
        Err(TransportErrorView::Protocol("non-UTF-8 response"@))
    } else {
        match rsplit_of(decode_utf8(bytes), "\n"@ + marker + " "@) {
            None => Err(TransportErrorView::Protocol("missing curl metrics"@)),
            Some((body, metrics)) => {
                let values = fields_of(metrics);
                if values.len() != 5 {
                    Err(TransportErrorView::Protocol("invalid curl metrics"@))
                } else {
                    match number_of(values[0], u16::MAX as nat) {
                        None => Err(TransportErrorView::Protocol("invalid HTTP status"@)),
                        Some(status) => Ok(
                            CurlReportView {
                                body,
                                status: status as u16,
                                name_lookup: values[1],
                                connect: values[2],
                                app_connect: values[3],
                                start_transfer: values[4],
                            },
                        ),
                    }
                }
            },
        }
    }
}

/// The difference of two measurements, if both were made.
pub open spec fn phase(end: Option<u64>, start: Option<u64>) -> Option<u64> {
    match (end, start) {
        (Some(a), Some(b)) => Some(
            if a >= b {
                (a - b) as u64
            } else {
                0
            },
        ),
        _ => None,
    }
}

/// A measurement, unless it is zero.
pub open spec fn measured(value: Option<u64>) -> Option<u64> {
    match value {
        Some(n) => if n > 0 {
            Some(n)
        } else {
            None
        },
        None => None,
    }
}

/// The timings with curl's measurements, which count from the start of the request.
pub open spec fn timed(
    timings: RequestTimingsView,
    name_lookup: Option<u64>,
    connect: Option<u64>,
    app_connect: Option<u64>,
    start_transfer: Option<u64>,
) -> RequestTimingsView {
    RequestTimingsView {
        dns_ms: name_lookup,
        tcp_connect_ms: phase(connect, name_lookup),
        tls_ms: phase(measured(app_connect), connect),
        first_byte_ms: measured(start_transfer),
        ..timings
    }
}

fn difference(end: Option<u64>, start: Option<u64>) -> (found: Option<u64>)
    ensures
        found == phase(end, start),
{
    match (end, start) {
        (Some(a), Some(b)) => if a >= b {
            Some(a - b)
        } else {
            Some(0)
        },
        _ => None,
    }
}

fn nonzero(value: Option<u64>) -> (found: Option<u64>)
    ensures
        found == measured(value),
{
    match value {
        Some(n) => if n > 0 {
            Some(n)
        } else {
            None
        },
        None => None,
    }
}

/// Records curl's measurements in milliseconds.
pub fn record_timings(
    timings: &mut RequestTimings,
    name_lookup: Option<u64>,
    connect: Option<u64>,
    app_connect: Option<u64>,
    start_transfer: Option<u64>,
)
    ensures
        final(timings)@ == timed(
            old(timings)@,
            name_lookup,
            connect,
            app_connect,
            start_transfer,
        ),
{
    timings.dns_ms = name_lookup;
    timings.tcp_connect_ms = difference(connect, name_lookup);
    timings.tls_ms = difference(nonzero(app_connect), connect);
    timings.first_byte_ms = nonzero(start_transfer);
}

/// An exchange after a chunk arrived, the texts that it shows, and the answer.
pub open spec fn received(exchange: ExchangeView, chunk: Seq<u8>) -> (
    ExchangeView,
    Seq<Seq<char>>,
    Option<TransportErrorView>,
) {
    if exchange.bytes.len() + chunk.len() > MAX_BODY {
        (exchange, Seq::empty(), Some(TransportErrorView::Protocol("response exceeds 8 MiB"@)))
    } else if !exchange.streaming {
        (ExchangeView { bytes: exchange.bytes + chunk, ..exchange }, Seq::empty(), None)
    } else {
        let step = bytes_step(exchange.decoder, chunk);
        match step.failure {
            Some(message) => (
                ExchangeView { decoder: step.decoder, ..exchange },
                step.texts,
                Some(TransportErrorView::Protocol(message)),
            ),
            None => (
                ExchangeView {
                    bytes: exchange.bytes + chunk,
                    decoder: step.decoder,
                    ..exchange
                },
                step.texts,
                None,
            ),
        }
    }
}

/// The first characters of a text.
pub open spec fn excerpt(text: Seq<char>, limit: nat) -> Seq<char> {
    if text.len() > limit {
        text.take(limit as int)
    } else {
        text
    }
}

/// The answer to a request, once curl has ended and reported.
pub open spec fn exchanged(
    exchange: ExchangeView,
    report: CurlReportView,
    succeeded: bool,
    exit_status: Seq<char>,
    complaint: Seq<u8>,
) -> Result<HttpResponseView, TransportErrorView> {
    if !succeeded {
        Err(
            TransportErrorView::Io(
                "curl "@ + exit_status + ": "@ + trim_of(lossy_text(complaint)),
            ),
        )
    } else if !(200 <= report.status < 300) {
        Err(
            TransportErrorView::Http {
                status: report.status,
                body: excerpt(report.body, 4096),
            },
        )
    } else if exchange.streaming {
        match finished(exchange.decoder) {
            Ok(body) => Ok(HttpResponseView { status: report.status, body }),
            Err(error) => Err(error),
        }
    } else {
        match json_parse(report.body) {
            Ok(body) => Ok(HttpResponseView { status: report.status, body }),
            Err(message) => Err(TransportErrorView::Protocol(message)),
        }
    }
}

impl CurlExchange {
    pub fn new(streaming: bool) -> (exchange: Self)
        ensures
            exchange@ == (ExchangeView {
                streaming,
                bytes: Seq::empty(),
                decoder: new_decoder(),
            }),
    {
        let exchange = CurlExchange { streaming, bytes: Vec::new(), decoder: Decoder::new() };
        assert(exchange.bytes@ =~= Seq::empty());
        exchange
    }

    /// Takes what arrived, and adds the texts that it shows.
    pub fn receive(&mut self, chunk: &Vec<u8>, texts: &mut Vec<String>) -> (done: Result<
        (),
        TransportError,
    >)
        ensures
            ({
                let (after, shown, failure) = received(old(self)@, chunk@);
                &&& final(self)@ == after
                &&& views(final(texts)@) == views(old(texts)@) + shown
                &&& failure_of(done) == failure
            }),
    {
        let ghost shown = views(texts@);
        assert(shown + Seq::<Seq<char>>::empty() =~= shown);
        if self.bytes.len() > MAX_BODY || chunk.len() > MAX_BODY - self.bytes.len() {
            return Err(TransportError::Protocol("response exceeds 8 MiB".to_owned()));
        }
        if self.streaming {
            match self.decoder.push(chunk, texts) {
                Ok(()) => {},
                Err(error) => {
                    return Err(error);
                },
            }
        }
        let ghost before = self.bytes@;
        let limit: usize = self.bytes.len() + chunk.len();
        append_capped(&mut self.bytes, chunk, limit);
        assert(self.bytes@ =~= before + chunk@);
        Ok(())
    }

    /// Reads curl's report behind the response.
    pub fn report(&self, marker: &str) -> (report: Result<CurlReport, TransportError>)
        ensures
            res_view(report) == report_of(self@.bytes, marker@),
    {
        let output = match decode(&self.bytes) {
            Ok(output) => output,
            Err(_) => {
                return Err(TransportError::Protocol("non-UTF-8 response".to_owned()));
            },
        };
        let boundary = "\n".to_owned().concat(marker).concat(" ");
        let (body, metrics) = match rsplit(output.as_str(), boundary.as_str()) {
            Some(split) => split,
            None => {
                return Err(TransportError::Protocol("missing curl metrics".to_owned()));
            },
        };
        let values = fields(metrics.as_str());
        let ghost wanted = fields_of(metrics@);
        assert(wanted.len() == values@.len());
        if values.len() != 5 {
            return Err(TransportError::Protocol("invalid curl metrics".to_owned()));
        }
        assert(forall|i: int| 0 <= i < 5 ==> (#[trigger] wanted[i]) == values@[i]@);
        let status = match parse_number(values[0].as_str(), 65535) {
            Some(status) => status,
            None => {
                return Err(TransportError::Protocol("invalid HTTP status".to_owned()));
            },
        };
        Ok(
            CurlReport {
                body,
                status: status as u16,
                name_lookup: values[1].clone(),
                connect: values[2].clone(),
                app_connect: values[3].clone(),
                start_transfer: values[4].clone(),
            },
        )
    }

    /// The answer to the request, once curl has ended and reported.
    pub fn conclude(
        self,
        report: CurlReport,
        succeeded: bool,
        exit_status: &str,
        complaint: &Vec<u8>,
    ) -> (answer: Result<HttpResponse, TransportError>)
        ensures
            res_view(answer) == exchanged(
                self@,
                report@,
                succeeded,
                exit_status@,
                complaint@,
            ),
    {
        if !succeeded {
            let message = "curl ".to_owned().concat(exit_status).concat(": ").concat(
                trim(decode_lossy(complaint).as_str()).as_str(),
            );
            return Err(TransportError::Io(message));
        }
        if !(200 <= report.status && report.status < 300) {
            let chars = chars_of(report.body.as_str());
            let mut end: usize = chars.len();
            if end > 4096 {
                end = 4096;
            }
            let body = slice_text(&chars, 0, end);
            assert(body@ =~= excerpt(report@.body, 4096));
            return Err(TransportError::Http { status: report.status, body });
        }
        let body = if self.streaming {
            match self.decoder.finish() {
                Ok(body) => body,
                Err(error) => {
                    return Err(error);
                },
            }
        } else {
            match parse(report.body.as_str()) {
                Ok(body) => body,
                Err(message) => {
                    return Err(TransportError::Protocol(message));
                },
            }
        };
        Ok(HttpResponse { status: report.status, body })
    }
}

/// How a request ended, for those who watch it.
pub open spec fn outcome_of(cancelled: bool, succeeded: bool) -> Seq<char> {
    if cancelled {
        "cancelled"@
    } else if succeeded {
        "completed"@
    } else {
        "failed"@
    }
}

/// How a request ended, for those who watch it.
pub fn request_outcome(control: &HttpControl, succeeded: bool) -> (outcome: &'static str)
    ensures
        outcome@ == outcome_of(control.cancelled || control.abandoned, succeeded),
{
    if control.is_cancelled() {
        "cancelled"
    } else if succeeded {
        "completed"
    } else {
        "failed"
    }
}

/// The response and what curl reports behind it are told apart, whatever the response
/// holds, as long as the marker does not occur in the report itself.
pub proof fn law_report_is_told_from_the_response(
    text: Seq<char>,
    metrics: Seq<char>,
    boundary: Seq<char>,
)
    requires
        boundary.len() > 0,
        forall|at: int|
            text.len() < at ==> !stands_at(text + boundary + metrics, boundary, at),
    ensures
        rsplit_of(text + boundary + metrics, boundary) == Some((text, metrics)),
{
    let whole = text + boundary + metrics;
    let at = text.len() as int;
    assert(whole.subrange(at, at + boundary.len()) =~= boundary);
    assert(stands_at(whole, boundary, at));
    lemma_last_index_is(whole, boundary, whole.len() as int, at);
    assert(whole.take(at) =~= text);
    assert(whole.skip(at + boundary.len()) =~= metrics);
}

proof fn lemma_last_index_is(text: Seq<char>, part: Seq<char>, from: int, at: int)
    requires
        0 <= at <= from,
        stands_at(text, part, at),
        forall|i: int| at < i <= from ==> !stands_at(text, part, i),
    ensures
        last_index(text, part, from) == at,
    decreases from,
{
    if from > at {
        lemma_last_index_is(text, part, from - 1, at);
    }
}

} // verus!
