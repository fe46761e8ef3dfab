//! What curl is asked, and what is made of its answers; what a command line asks for.

use vstd::prelude::*;
use vstd::utf8::*;

use crate::json::{json_parse, json_text, JsonView};
use crate::model::RequestTimingsView;
use crate::options::{
    arguments_from, arguments_of, bounded_number, is_flag, options_of, provider_settings, setting,
    takes_value, usable_value, value_behind, ArgumentsView, OptionsView,
};
use crate::provider::{HttpRequestView, TransportErrorView};
use crate::stream::{bytes_step, finished};
use crate::text::{
    begins, blank, decimal_of, fields_of, number_of, occurs, rsplit_of, stands_at, trim_of,
};
use crate::text_laws::law_splits_are_at_the_last_place;
use crate::transport::{
    breaks_line, broken_header, config_of, escaped, exchanged, header_line, header_lines,
    marker_of, outcome_of, phase, received, report_of, seconds_of, supported_url, timed,
    CurlReportView, ExchangeView,
};
use crate::utf8::lossy_text;

verus! {

// ---------------------------------------------------------------------------
// Requests
// ---------------------------------------------------------------------------

proof fn lemma_stands_between(before: Seq<char>, part: Seq<char>, behind: Seq<char>)
    ensures
        occurs(before + part + behind, part),
{
    let whole = before + part + behind;
    assert(whole.subrange(before.len() as int, (before.len() + part.len()) as int) =~= part);
    assert(stands_at(whole, part, before.len() as int));
}

proof fn lemma_header_stands(
    names: Seq<Seq<char>>,
    headers: Map<Seq<char>, Seq<char>>,
    index: int,
) -> (around: (Seq<char>, Seq<char>))
    requires
        0 <= index < names.len(),
    ensures
        header_lines(names, headers) == around.0 + header_line(
            names[index],
            headers[names[index]],
        ) + around.1,
    decreases names.len(),
{
    let line = header_line(names[index], headers[names[index]]);
    if index == names.len() - 1 {
        let none = Seq::<char>::empty();
        let before = header_lines(names.drop_last(), headers);
        assert(header_lines(names, headers) =~= before + line + none);
        (before, none)
    } else {
        let (before, behind) = lemma_header_stands(names.drop_last(), headers, index);
        let last = header_line(names.last(), headers[names.last()]);
        assert(names.drop_last()[index] == names[index]);
        assert(header_lines(names, headers) =~= before + line + (behind + last));
        (before, behind + last)
    }
}

/// Curl is asked to post the body of the request to its address, with each of its headers and
/// within its time, and to tell its report from the response by the marker.
pub proof fn law_curl_is_asked_for_the_request(
    request: HttpRequestView,
    names: Seq<Seq<char>>,
    marker: Seq<char>,
    index: int,
)
    requires
        0 <= index < names.len(),
    ensures
        ({
            let config = config_of(request, names, marker);
            let time = if request.timeout_seconds == 0 {
                1
            } else {
                request.timeout_seconds as nat
            };
            &&& occurs(config, "url = \""@ + escaped(request.url) + "\"\nmax-time = \""@)
            &&& occurs(config, "\"\nmax-time = \""@ + decimal_of(time) + "\"\n"@)
            &&& occurs(
                config,
                "data-binary = \""@ + escaped(json_text(request.body)) + "\"\n"@,
            )
            &&& occurs(config, "write-out = \"\\n"@ + marker)
            &&& occurs(
                config,
                "header = \""@ + escaped(names[index] + ": "@ + request.headers[names[index]])
                    + "\"\n"@,
            )
        }),
{
    let config = config_of(request, names, marker);
    let start =
        "silent\nshow-error\nno-buffer\nrequest = \"POST\"\nproto = \"=http,https\"\n"@;
    let time = decimal_of(seconds_of(request.timeout_seconds) as nat);
    let headers = header_lines(names, request.headers);
    let data = "data-binary = \""@ + escaped(json_text(request.body)) + "\"\n"@;
    let out = "write-out = \"\\n"@ + marker;
    let end =
        " %{http_code} %{time_namelookup} %{time_connect} %{time_appconnect} %{time_starttransfer}\\n\"\n"@;
    let address = "url = \""@ + escaped(request.url) + "\"\nmax-time = \""@;
    let limit = "\"\nmax-time = \""@ + time + "\"\n"@;
    assert(config =~= start + address + (time + "\"\n"@ + headers + data + out + end));
    lemma_stands_between(start, address, time + "\"\n"@ + headers + data + out + end);
    assert(config =~= (start + "url = \""@ + escaped(request.url)) + limit + (headers + data + out
        + end));
    lemma_stands_between(
        start + "url = \""@ + escaped(request.url),
        limit,
        headers + data + out + end,
    );
    assert(config =~= (start + address + time + "\"\n"@ + headers) + data + (out + end));
    lemma_stands_between(start + address + time + "\"\n"@ + headers, data, out + end);
    assert(config =~= (start + address + time + "\"\n"@ + headers + data) + out + end);
    lemma_stands_between(start + address + time + "\"\n"@ + headers + data, out, end);
    let (before, behind) = lemma_header_stands(names, request.headers, index);
    let line = header_line(names[index], request.headers[names[index]]);
    assert(config =~= (start + address + time + "\"\n"@ + before) + line + (behind + data + out
        + end));
    lemma_stands_between(
        start + address + time + "\"\n"@ + before,
        line,
        behind + data + out + end,
    );
}

/// Only addresses of the two web protocols are asked for, and no header with a line break is sent.
pub proof fn law_only_web_addresses_are_asked(
    url: Seq<char>,
    headers: Map<Seq<char>, Seq<char>>,
    name: Seq<char>,
)
    ensures
        supported_url("https://"@ + url),
        supported_url("http://"@ + url),
        supported_url(url) ==> begins(url, "https://"@) || begins(url, "http://"@),
        headers.contains_key(name) && (name.contains('\n') || headers[name].contains('\n')
            || name.contains('\r') || headers[name].contains('\r')) ==> broken_header(headers),
        !broken_header(headers) && headers.contains_key(name) ==> !breaks_line(name)
            && !breaks_line(headers[name]),
{
    assert(("https://"@ + url).subrange(0, "https://"@.len() as int) =~= "https://"@);
    assert(("http://"@ + url).subrange(0, "http://"@.len() as int) =~= "http://"@);
}

/// Requests with different ids have different markers.
pub proof fn law_markers_tell_requests_apart(one: Seq<char>, other: Seq<char>)
    requires
        marker_of(one) == marker_of(other),
    ensures
        one == other,
{
    let head = "__NAUSICAA_"@;
    let tail = "__"@;
    assert(marker_of(one).len() == head.len() + one.len() + tail.len());
    assert(marker_of(other).len() == head.len() + other.len() + tail.len());
    assert(marker_of(one).subrange(head.len() as int, (head.len() + one.len()) as int) =~= one);
    assert(marker_of(other).subrange(head.len() as int, (head.len() + other.len()) as int)
        =~= other);
}

// ---------------------------------------------------------------------------
// Answers
// ---------------------------------------------------------------------------

/// A report is read from behind the last marker: the response is everything in front of it, and
/// the report has five values, the first of which is the status.
pub proof fn law_reports_are_read_from_behind_the_marker(bytes: Seq<u8>, marker: Seq<char>)
    ensures
        report_of(bytes, marker) matches Ok(report) ==> {
            &&& valid_utf8(bytes)
            &&& rsplit_of(decode_utf8(bytes), "\n"@ + marker + " "@) matches Some((_, metrics))
            &&& decode_utf8(bytes) == report.body + ("\n"@ + marker + " "@) + metrics
            &&& fields_of(metrics).len() == 5
            &&& number_of(fields_of(metrics)[0], u16::MAX as nat) == Some(report.status as nat)
            &&& report.name_lookup == fields_of(metrics)[1]
            &&& report.connect == fields_of(metrics)[2]
            &&& report.app_connect == fields_of(metrics)[3]
            &&& report.start_transfer == fields_of(metrics)[4]
        },
        report_of(bytes, marker) matches Err(error) ==> error is Protocol,
{
    law_splits_are_at_the_last_place(decode_utf8(bytes), "\n"@ + marker + " "@);
}

/// An exchange succeeds exactly where curl did, the status tells success, and the response is a
/// complete stream or JSON. Its body is then what the stream amounts to, or that JSON. A status
/// that tells no success is handed on with the start of the response.
pub proof fn law_exchanges_hand_on_the_response(
    exchange: ExchangeView,
    report: CurlReportView,
    succeeded: bool,
    exit_status: Seq<char>,
    complaint: Seq<u8>,
)
    ensures
        ({
            let answer = exchanged(exchange, report, succeeded, exit_status, complaint);
            let fine = 200 <= report.status <= 299;
            &&& answer is Ok <==> succeeded && fine && (if exchange.streaming {
                finished(exchange.decoder) is Ok
            } else {
                json_parse(report.body) is Ok
            })
            &&& answer matches Ok(response) ==> response.status == report.status
            &&& (answer is Ok && exchange.streaming) ==> finished(exchange.decoder) == Ok::<
                JsonView,
                TransportErrorView,
            >(answer->Ok_0.body)
            &&& (answer is Ok && !exchange.streaming) ==> json_parse(report.body) == Ok::<
                JsonView,
                Seq<char>,
            >(answer->Ok_0.body)
            &&& !succeeded ==> answer is Err && answer->Err_0 is Io
            &&& succeeded && !fine ==> {
                &&& answer matches Err(TransportErrorView::Http { status, body })
                &&& status == report.status
                &&& body.is_prefix_of(report.body)
                &&& report.body.len() <= 4096 ==> body == report.body
                &&& report.body.len() > 4096 ==> body.len() == 4096
            }
        }),
{
}

/// What arrives is added to what came before, up to eight mebibytes; a streamed response is decoded
/// as it arrives, and shows what the decoder shows.
pub proof fn law_chunks_are_added_up(exchange: ExchangeView, chunk: Seq<u8>)
    ensures
        ({
            let (after, texts, failure) = received(exchange, chunk);
            let step = bytes_step(exchange.decoder, chunk);
            let fits = exchange.bytes.len() + chunk.len() <= 8_388_608;
            &&& !fits ==> after == exchange && texts.len() == 0 && failure is Some
            &&& failure is None ==> fits && after.bytes == exchange.bytes + chunk
            &&& fits && !exchange.streaming ==> failure is None && texts.len() == 0
            &&& fits && exchange.streaming ==> texts == step.texts && after.decoder == step.decoder
                && (failure is None <==> step.failure is None)
            &&& after.streaming == exchange.streaming
        }),
{
}

/// Times are told phase by phase: the name first, then the connection since then, then the
/// encryption since the connection, and the first byte since the start. What was not measured is
/// not told.
pub proof fn law_times_are_told_by_phase(
    timings: RequestTimingsView,
    name_lookup: Option<u64>,
    connect: Option<u64>,
    app_connect: Option<u64>,
    start_transfer: Option<u64>,
)
    ensures
        ({
            let told = timed(timings, name_lookup, connect, app_connect, start_transfer);
            &&& told.dns_ms == name_lookup
            &&& (name_lookup is None || connect is None) ==> told.tcp_connect_ms is None
            &&& (name_lookup matches Some(a) ==> connect matches Some(b) ==> a <= b
                ==> told.tcp_connect_ms == Some((b - a) as u64))
            &&& (connect matches Some(b) ==> app_connect matches Some(c) ==> 0 < c && b <= c
                ==> told.tls_ms == Some((c - b) as u64))
            &&& app_connect == Some(0u64) ==> told.tls_ms is None
            &&& start_transfer == Some(0u64) ==> told.first_byte_ms is None
            &&& (start_transfer matches Some(d) ==> d > 0 ==> told.first_byte_ms == Some(d))
            &&& told.first_text_ms == timings.first_text_ms
            &&& told.total_ms == timings.total_ms
        }),
{
}

/// A request ends as cancelled where it was cancelled, else as completed or as failed.
pub proof fn law_outcomes_are_told_apart(cancelled: bool, succeeded: bool)
    ensures
        outcome_of(cancelled, succeeded) == "cancelled"@ <==> cancelled,
        outcome_of(cancelled, succeeded) == "completed"@ <==> !cancelled && succeeded,
        outcome_of(cancelled, succeeded) == "failed"@ <==> !cancelled && !succeeded,
{
    reveal_strlit("cancelled");
    reveal_strlit("completed");
    reveal_strlit("failed");
    assert("cancelled"@.len() == 9 && "completed"@.len() == 9 && "failed"@.len() == 6);
    assert("cancelled"@[1] != "completed"@[1]);
}

// ---------------------------------------------------------------------------
// Settings
// ---------------------------------------------------------------------------

proof fn lemma_arguments_go_on(
    args: Seq<Seq<char>>,
    more: Seq<Seq<char>>,
    at: int,
    read: ArgumentsView,
)
    requires
        0 <= at <= args.len(),
        arguments_from(args, at, read) is Ok,
    ensures
        arguments_from(args + more, at, read) == arguments_from(
            args + more,
            args.len() as int,
            arguments_from(args, at, read)->Ok_0,
        ),
    decreases args.len() - at,
{
    let all = args + more;
    if at < args.len() {
        assert(all[at] == args[at]);
        if is_flag(args[at]) {
            lemma_arguments_go_on(
                args,
                more,
                at + 1,
                ArgumentsView { flags: read.flags.insert(args[at]), ..read },
            );
        } else {
            assert(all[at + 1] == args[at + 1]);
            lemma_arguments_go_on(
                args,
                more,
                at + 2,
                ArgumentsView { values: read.values.insert(args[at], args[at + 1]), ..read },
            );
        }
    }
}

/// A flag is set and an option has the value that stands behind it, each once: one more of them
/// adds just that, a second one of the same name is refused, and so is a name that is not known
/// or an option without a value.
pub proof fn law_arguments_are_read_one_by_one(
    args: Seq<Seq<char>>,
    name: Seq<char>,
    value: Seq<char>,
)
    requires
        arguments_of(args) is Ok,
    ensures
        ({
            let read = arguments_of(args)->Ok_0;
            let flagged = arguments_of(args + seq![name]);
            let valued = arguments_of(args + seq![name, value]);
            &&& is_flag(name) && !read.flags.contains(name) ==> flagged == Ok::<
                ArgumentsView,
                Seq<char>,
            >(ArgumentsView { flags: read.flags.insert(name), values: read.values })
            &&& is_flag(name) && read.flags.contains(name) ==> flagged is Err
            &&& !is_flag(name) && takes_value(name) && usable_value(value)
                && !read.values.contains_key(name) ==> valued == Ok::<ArgumentsView, Seq<char>>(
                ArgumentsView { flags: read.flags, values: read.values.insert(name, value) },
            )
            &&& !is_flag(name) && takes_value(name) && read.values.contains_key(name) ==> valued
                is Err
            &&& !is_flag(name) && takes_value(name) ==> flagged is Err
            &&& !is_flag(name) && !takes_value(name) ==> flagged is Err
        }),
{
    let start = ArgumentsView { flags: Set::empty(), values: Map::empty() };
    let read = arguments_of(args)->Ok_0;
    let one = args + seq![name];
    let two = args + seq![name, value];
    let end = args.len() as int;
    lemma_arguments_go_on(args, seq![name], 0, start);
    lemma_arguments_go_on(args, seq![name, value], 0, start);
    assert(one[end] == name);
    assert(two[end] == name && two[end + 1] == value);
    reveal_with_fuel(arguments_from, 3);
}

/// Three options are flags, and eight take a value, which is neither blank nor an option itself.
pub proof fn law_options_are_known_by_name(name: Seq<char>)
    ensures
        is_flag(name) <==> name == "--demo"@ || name == "--no-tools"@ || name
            == "--unsafe-local-exec"@,
        takes_value(name) <==> name == "--workspace"@ || name == "--endpoint"@ || name
            == "--model"@ || name == "--request-timeout"@ || name == "--max-output-tokens"@ || name
            == "--temperature"@ || name == "--max-model-iterations"@ || name
            == "--history-groups"@,
        usable_value(name) <==> !blank(name) && !stands_at(name, "--"@, 0),
{
}

/// A setting is the value on the command line, or else the one of the environment, or else there
/// is none.
pub proof fn law_settings_come_from_the_right_place(
    values: Map<Seq<char>, Seq<char>>,
    environment: Map<Seq<char>, Seq<char>>,
    option: Seq<char>,
    variable: Seq<char>,
)
    ensures
        values.contains_key(option) ==> setting(values, environment, option, variable) == Some(
            values[option],
        ),
        !values.contains_key(option) && environment.contains_key(variable) ==> setting(
            values,
            environment,
            option,
            variable,
        ) == Some(environment[variable]),
        !values.contains_key(option) && !environment.contains_key(variable) ==> setting(
            values,
            environment,
            option,
            variable,
        ) is None,
{
}

/// A number is the one that was written, or the default where none was, and is accepted between one
/// and the maximum.
pub proof fn law_numbers_are_taken_as_written(
    text: Option<Seq<char>>,
    option: Seq<char>,
    default: nat,
    maximum: nat,
)
    ensures
        ({
            let value = bounded_number(text, option, default, maximum);
            &&& text is None && 1 <= default <= maximum ==> value == Ok::<nat, Seq<char>>(default)
            &&& (text matches Some(written) ==> match number_of(written, u64::MAX as nat) {
                Some(number) => (value is Ok <==> 1 <= number <= maximum) && (value is Ok
                    ==> value == Ok::<nat, Seq<char>>(number)),
                None => value is Err,
            })
        }),
{
}

/// The settings of a session are those that were asked for under their names: the flags, the
/// workspace, the endpoint, the model and the numbers, each with its default.
pub proof fn law_sessions_are_set_up_as_asked(
    arguments: ArgumentsView,
    environment: Map<Seq<char>, Seq<char>>,
    temperature: Option<JsonView>,
)
    requires
        options_of(arguments, environment, temperature) is Ok,
    ensures
        ({
            let options = options_of(arguments, environment, temperature)->Ok_0;
            let values = arguments.values;
            let given = |option: Seq<char>, variable: Seq<char>|
                if values.contains_key(option) {
                    Some(values[option])
                } else if environment.contains_key(variable) {
                    Some(environment[variable])
                } else {
                    None
                };
            &&& options.demo == arguments.flags.contains("--demo"@)
            &&& options.no_tools == arguments.flags.contains("--no-tools"@)
            &&& options.unsafe_local == arguments.flags.contains("--unsafe-local-exec"@)
            &&& options.workspace == (if values.contains_key("--workspace"@) {
                Some(values["--workspace"@])
            } else {
                None
            })
            &&& options.endpoint == (match given("--endpoint"@, "HARNESS_API_URL"@) {
                Some(endpoint) => endpoint,
                None => "https://api.openai.com/v1/chat/completions"@,
            })
            &&& (given("--model"@, "HARNESS_MODEL"@) matches Some(model) ==> options.model == (
            if blank(model) {
                None
            } else {
                Some(model)
            }))
            &&& given("--model"@, "HARNESS_MODEL"@) is None ==> options.model is None
            &&& !options.demo ==> options.model is Some
            &&& options.temperature == (if given("--temperature"@, "HARNESS_TEMPERATURE"@) is Some {
                temperature
            } else {
                None
            })
            &&& (given("--request-timeout"@, "HARNESS_REQUEST_TIMEOUT"@) matches Some(text)
                ==> number_of(text, u64::MAX as nat) == Some(options.request_timeout))
            &&& given("--request-timeout"@, "HARNESS_REQUEST_TIMEOUT"@) is None
                ==> options.request_timeout == 120
            &&& (given("--max-output-tokens"@, "HARNESS_MAX_OUTPUT_TOKENS"@) matches Some(text)
                ==> number_of(text, u64::MAX as nat) == Some(options.max_output_tokens))
            &&& given("--max-output-tokens"@, "HARNESS_MAX_OUTPUT_TOKENS"@) is None
                ==> options.max_output_tokens == 4096
            &&& (given("--max-model-iterations"@, "HARNESS_MAX_MODEL_ITERATIONS"@) matches Some(
                text,
            ) ==> number_of(text, u64::MAX as nat) == Some(options.max_model_iterations))
            &&& given("--max-model-iterations"@, "HARNESS_MAX_MODEL_ITERATIONS"@) is None
                ==> options.max_model_iterations == 32
            &&& (given("--history-groups"@, "HARNESS_HISTORY_GROUPS"@) matches Some(text)
                ==> number_of(text, u64::MAX as nat) == Some(options.history_groups))
            &&& given("--history-groups"@, "HARNESS_HISTORY_GROUPS"@) is None
                ==> options.history_groups == 200
        }),
{
}

/// The provider is asked at the endpoint of the settings, for their model, with the key, within
/// their time and for at most their tokens, and at their temperature where they have one.
pub proof fn law_providers_are_asked_as_set(options: OptionsView, api_key: Option<Seq<char>>)
    requires
        options.request_timeout <= u64::MAX,
    ensures
        ({
            let config = provider_settings(options, api_key);
            &&& config.endpoint == options.endpoint
            &&& (options.model matches Some(model) ==> config.model == model)
            &&& config.api_key == api_key
            &&& config.organization is None
            &&& config.timeout_seconds == options.request_timeout
            &&& config.extra_body.contains_key("max_completion_tokens"@)
            &&& config.extra_body["max_completion_tokens"@] == JsonView::Integer(
                options.max_output_tokens as int,
            )
            &&& config.extra_body.contains_key("temperature"@) <==> options.temperature is Some
            &&& (options.temperature matches Some(temperature)
                ==> config.extra_body["temperature"@] == temperature)
        }),
{
    reveal_strlit("temperature");
    reveal_strlit("max_completion_tokens");
    assert("temperature"@.len() == 11 && "max_completion_tokens"@.len() == 21);
}

/// The value behind a name is that of its first occurrence.
pub proof fn law_the_first_value_behind_a_name_counts(
    args: Seq<Seq<char>>,
    name: Seq<char>,
    at: int,
    place: int,
)
    requires
        0 <= at <= place,
        place + 1 < args.len(),
        args[place] == name,
        forall|i: int| at <= i < place ==> #[trigger] args[i] != name,
    ensures
        value_behind(args, name, at) == Some(args[place + 1]),
    decreases place - at,
{
    if at < place {
        assert(args[at] != name);
        law_the_first_value_behind_a_name_counts(args, name, at + 1, place);
    }
}

/// A failure of the program is told with its exit status and what it complained of, and a model
/// that was not named is that of the demo.
pub proof fn law_failed_programs_tell_why(
    exchange: ExchangeView,
    report: CurlReportView,
    exit_status: Seq<char>,
    complaint: Seq<u8>,
    options: OptionsView,
)
    ensures
        exchanged(exchange, report, false, exit_status, complaint) matches Err(
            TransportErrorView::Io(told),
        ) && occurs(told, exit_status) && occurs(told, trim_of(lossy_text(complaint))),
        options.model is None ==> provider_settings(options, None).model == "demo"@,
{
    let head = "curl "@ + exit_status;
    let reason = trim_of(lossy_text(complaint));
    let told = head + ": "@ + reason;
    let at = "curl "@.len() as int;
    let end = at + exit_status.len();
    assert(told.subrange(at, end) =~= exit_status);
    assert(stands_at(told, exit_status, at));
    let behind = (head + ": "@).len() as int;
    assert(told.subrange(behind, behind + reason.len()) =~= reason);
    assert(stands_at(told, reason, behind));
}

} // verus!
