use std::sync::Mutex;

use nausicaa::context::{CompiledContext, PromptLayer, PromptSegment};
use nausicaa::id::{ThreadId, TurnId};
use nausicaa::json::{parse, set_member, Json};
use nausicaa::model::{ModelError, ModelRequest, StopReason};
use nausicaa::protocol::TranscriptMessage;
use nausicaa::provider::{
    begin_plain_post, conclude_plain_post, parse_response, post_plainly, HttpControl, HttpRequest, HttpResponse,
    HttpTransport, OpenAiCompatibleAdapter, OpenAiConfig, RequestBudget, RequestTokenCounter,
    TransportError,
};
use nausicaa::tool::ToolDefinition;

fn json(text: &str) -> Json {
    parse(text).unwrap()
}

struct MockTransport {
    requests: Mutex<Vec<HttpRequest>>,
    response: Json,
}

impl HttpTransport for MockTransport {
    fn post_json(&self, request: HttpRequest) -> Result<HttpResponse, TransportError> {
        self.requests.lock().unwrap().push(request);
        Ok(HttpResponse { status: 200, body: self.response.clone() })
    }
}

struct NoCounter;

impl RequestTokenCounter for NoCounter {
    fn count_input_tokens(&self, _body: &Json) -> Result<u64, ModelError> {
        Ok(0)
    }
}

fn transport(response: &str) -> MockTransport {
    MockTransport { requests: Mutex::new(Vec::new()), response: json(response) }
}

fn empty_transport() -> MockTransport {
    transport("{\"choices\": [{\"message\": {\"content\": \"done\"}, \"finish_reason\": \"stop\"}]}")
}

fn config(model: &str) -> OpenAiConfig {
    OpenAiConfig::new("https://example.test".to_owned(), model.to_owned())
}

fn budget_request() -> ModelRequest {
    ModelRequest {
        thread_id: ThreadId::from_string("thread".to_owned()),
        turn_id: TurnId::from_string("turn".to_owned()),
        iteration: 0,
        context: CompiledContext {
            prompt: vec![],
            messages: vec![TranscriptMessage::User { content: "hello".to_owned() }],
        },
        tools: vec![],
    }
}

#[test]
fn maps_prompt_tools_and_tool_calls() {
    let transport = transport(
        "{\"choices\": [{
            \"message\": {
                \"content\": null,
                \"tool_calls\": [{
                    \"id\": \"call-1\",
                    \"type\": \"function\",
                    \"function\": { \"name\": \"read_file\", \"arguments\": \"{\\\"path\\\":\\\"a\\\"}\" }
                }]
            },
            \"finish_reason\": \"tool_calls\"
        }],
        \"usage\": { \"prompt_tokens\": 10, \"completion_tokens\": 4 }}",
    );
    let adapter = OpenAiCompatibleAdapter::new(OpenAiConfig::new(
        "https://example.test/v1/chat/completions".to_owned(),
        "model".to_owned(),
    ));
    let request = ModelRequest {
        context: CompiledContext {
            prompt: vec![PromptSegment::new(
                PromptLayer::Stable,
                "base".to_owned(),
                "system".to_owned(),
            )],
            messages: vec![TranscriptMessage::User { content: "read".to_owned() }],
        },
        tools: vec![ToolDefinition::new(
            "read_file".to_owned(),
            "read".to_owned(),
            json("{ \"type\": \"object\" }"),
        )],
        ..budget_request()
    };
    let response = adapter.complete_blocking(&request, &transport, &NoCounter).unwrap();

    assert_eq!(response.stop_reason, StopReason::ToolUse);
    assert_eq!(response.tool_calls[0].arguments, json("{ \"path\": \"a\" }"));
    assert_eq!(response.usage.input_tokens, 10);
    assert_eq!(response.usage.output_tokens, 4);
    let requests = transport.requests.lock().unwrap();
    let body = &requests[0].body;
    let messages = body.get("messages").unwrap().as_array().unwrap();
    assert_eq!(messages[0].get("role").unwrap().as_text().unwrap(), "system");
    let tools = body.get("tools").unwrap().as_array().unwrap();
    let function = tools[0].get("function").unwrap();
    assert_eq!(function.get("name").unwrap().as_text().unwrap(), "read_file");
}

// Byte counts are a deterministic test oracle, not a production tokenizer.
struct RecordingCounter(Mutex<Vec<Json>>);

impl RequestTokenCounter for RecordingCounter {
    fn count_input_tokens(&self, body: &Json) -> Result<u64, ModelError> {
        self.0.lock().unwrap().push(body.clone());
        Ok(body.to_text().len() as u64)
    }
}

#[test]
fn final_request_budget_counts_extensions_and_schemas_before_transport() {
    let transport = empty_transport();
    let counter = RecordingCounter(Mutex::new(vec![]));
    let mut config = config("pinned-model");
    set_member(&mut config.extra_body, "response_format", json("{\"type\": \"json_object\"}"));
    let adapter = OpenAiCompatibleAdapter::new(config)
        .with_request_budget(RequestBudget {
            context_window_tokens: 1024,
            reserved_output_tokens: 128,
        })
        .unwrap();
    adapter.complete_blocking(&budget_request(), &transport, &counter).unwrap();
    let sent = transport.requests.lock().unwrap()[0].body.clone();
    assert_eq!(sent, counter.0.lock().unwrap()[0]);
    assert_eq!(sent.get("max_completion_tokens"), Some(&Json::Unsigned(128)));
    assert!(sent.get("response_format").is_some());
    let mut large = budget_request();
    large.tools.push(ToolDefinition::new(
        "large".to_owned(),
        "schema".to_owned(),
        json(&format!("{{\"description\": \"{}\"}}", "x".repeat(2000))),
    ));
    let error = adapter.complete_blocking(&large, &transport, &counter).unwrap_err();
    assert!(!error.retryable);
    assert!(error.message.contains("final request exceeds"));
    assert_eq!(transport.requests.lock().unwrap().len(), 1);
}

struct FixedCounter(u64);

impl RequestTokenCounter for FixedCounter {
    fn count_input_tokens(&self, _body: &Json) -> Result<u64, ModelError> {
        Ok(self.0)
    }
}

#[test]
fn exact_budget_boundary_and_invalid_caps_fail_closed() {
    for (input, succeeds) in [(90, true), (91, false), (u64::MAX, false)] {
        let transport = empty_transport();
        let adapter = OpenAiCompatibleAdapter::new(config("model"))
            .with_request_budget(RequestBudget {
                context_window_tokens: 100,
                reserved_output_tokens: 10,
            })
            .unwrap();
        assert_eq!(
            adapter
                .complete_blocking(&budget_request(), &transport, &FixedCounter(input))
                .is_ok(),
            succeeds
        );
        assert_eq!(transport.requests.lock().unwrap().len(), usize::from(succeeds));
    }
    for fields in [
        "{\"max_tokens\": 11}",
        "{\"max_tokens\": 0}",
        "{\"max_tokens\": \"10\"}",
        "{\"max_tokens\": 5, \"max_completion_tokens\": 5}",
    ] {
        let transport = empty_transport();
        let mut config = config("model");
        if let Json::Object(members) = json(fields) {
            config.extra_body = members;
        }
        let adapter = OpenAiCompatibleAdapter::new(config)
            .with_request_budget(RequestBudget {
                context_window_tokens: 100,
                reserved_output_tokens: 10,
            })
            .unwrap();
        assert!(adapter
            .complete_blocking(&budget_request(), &transport, &FixedCounter(1))
            .is_err());
        assert!(transport.requests.lock().unwrap().is_empty());
    }
    let invalid = OpenAiCompatibleAdapter::new(config("model")).with_request_budget(
        RequestBudget { context_window_tokens: 10, reserved_output_tokens: 10 },
    );
    assert!(invalid.is_err());
}

struct FailedCounter;

impl RequestTokenCounter for FailedCounter {
    fn count_input_tokens(&self, _body: &Json) -> Result<u64, ModelError> {
        Err(ModelError::new("unknown model tokenizer".to_owned(), true))
    }
}

#[test]
fn counting_errors_never_send_or_request_retry() {
    let transport = empty_transport();
    let adapter = OpenAiCompatibleAdapter::new(config("model"))
        .with_request_budget(RequestBudget {
            context_window_tokens: 100,
            reserved_output_tokens: 10,
        })
        .unwrap();
    assert!(
        !adapter
            .complete_blocking(&budget_request(), &transport, &FailedCounter)
            .unwrap_err()
            .retryable
    );
    assert!(transport.requests.lock().unwrap().is_empty());
}

#[test]
fn extra_body_cannot_restore_policy_hidden_tools() {
    let transport = empty_transport();
    let mut config = config("model");
    if let Json::Object(members) = json(
        "{\"tools\": [{\"forbidden\": true}], \"functions\": [{\"name\": \"hidden\"}], \"function_call\": \"auto\", \"tool_choice\": \"required\"}",
    ) {
        config.extra_body = members;
    }
    let adapter = OpenAiCompatibleAdapter::new(config);
    adapter.complete_blocking(&budget_request(), &transport, &NoCounter).unwrap();
    let requests = transport.requests.lock().unwrap();
    for key in ["tools", "functions", "function_call", "tool_choice"] {
        assert!(requests[0].body.get(key).is_none());
    }
}

#[test]
fn extensions_cannot_change_the_model_or_the_messages() {
    let transport = empty_transport();
    let mut config = config("model");
    set_member(&mut config.extra_body, "model", json("\"other\""));
    set_member(&mut config.extra_body, "messages", json("[]"));
    set_member(&mut config.extra_body, "seed", json("7"));
    let adapter = OpenAiCompatibleAdapter::new(config);
    adapter.complete_blocking(&budget_request(), &transport, &NoCounter).unwrap();
    let requests = transport.requests.lock().unwrap();
    let body = &requests[0].body;
    assert_eq!(body.get("model").unwrap().as_text().unwrap(), "model");
    assert_eq!(body.get("messages").unwrap().as_array().unwrap().len(), 1);
    assert_eq!(body.get("seed"), Some(&Json::Unsigned(7)));
}

#[test]
fn keys_and_organizations_become_headers() {
    let transport = empty_transport();
    let mut config = config("model");
    config.api_key = Some("secret".to_owned());
    config.organization = Some("org".to_owned());
    let adapter = OpenAiCompatibleAdapter::new(config);
    adapter.complete_blocking(&budget_request(), &transport, &NoCounter).unwrap();
    let requests = transport.requests.lock().unwrap();
    let headers = &requests[0].headers;
    assert_eq!(headers.get("Authorization").unwrap(), "Bearer secret");
    assert_eq!(headers.get("OpenAI-Organization").unwrap(), "org");
    assert_eq!(headers.get("Content-Type").unwrap(), "application/json");
    assert_eq!(requests[0].timeout_seconds, 120);
    assert!(!requests[0].is_streaming());
}

#[test]
fn streaming_is_asked_for_in_the_body() {
    let transport = empty_transport();
    let adapter = OpenAiCompatibleAdapter::new(config("model")).with_streaming(true);
    adapter.complete_blocking(&budget_request(), &transport, &NoCounter).unwrap();
    let requests = transport.requests.lock().unwrap();
    assert!(requests[0].is_streaming());
}

struct Refusing(fn() -> TransportError);

impl HttpTransport for Refusing {
    fn post_json(&self, _request: HttpRequest) -> Result<HttpResponse, TransportError> {
        Err((self.0)())
    }
}

#[test]
fn transport_failures_may_be_tried_again() {
    let adapter = OpenAiCompatibleAdapter::new(config("model"));
    let failures: [(fn() -> TransportError, &str); 3] = [
        (
            || TransportError::Http { status: 429, body: "slow down".to_owned() },
            "HTTP endpoint returned status 429: slow down",
        ),
        (|| TransportError::Io("gone".to_owned()), "HTTP transport I/O error: gone"),
        (|| TransportError::Protocol("odd".to_owned()), "HTTP transport protocol error: odd"),
    ];
    for (failure, message) in failures {
        let error = adapter
            .complete_blocking(&budget_request(), &Refusing(failure), &NoCounter)
            .unwrap_err();
        assert!(error.retryable);
        assert_eq!(error.message, message);
    }
}

#[test]
fn broken_responses_are_refused() {
    for body in [
        "{}",
        "{\"choices\": []}",
        "{\"choices\": [{\"message\": {\"tool_calls\": [{\"id\": \"a\", \"function\": {\"name\": \"f\", \"arguments\": \"{\"}}]}}]}",
        "{\"choices\": [{\"message\": {\"tool_calls\": [{\"function\": {\"name\": \"f\", \"arguments\": \"{}\"}}]}}]}",
    ] {
        assert!(parse_response(&json(body)).is_err(), "{body}");
    }
}

#[test]
fn content_parts_are_joined() {
    let response = parse_response(&json(
        "{\"choices\": [{\"message\": {\"content\": [{\"type\": \"text\", \"text\": \"a\"}, \"b\", {\"x\": 1}]}, \"finish_reason\": \"length\"}]}",
    ))
    .unwrap();
    assert_eq!(response.content, "ab");
    assert_eq!(response.usage.input_tokens, 0);
    assert!(response.stop_reason == StopReason::MaxTokens);
}

fn plain_request(body: &str) -> HttpRequest {
    HttpRequest {
        url: "u".to_owned(),
        headers: nausicaa::keyed::Keyed::new(),
        body: json(body),
        timeout_seconds: 1,
    }
}

#[test]
fn cancelled_requests_are_not_posted() {
    let cancelled = HttpControl { cancelled: true, abandoned: false };
    let abandoned = HttpControl { cancelled: false, abandoned: true };
    let open = HttpControl { cancelled: false, abandoned: false };
    let refusal = || TransportError::Io("request cancelled".to_owned());
    assert!(abandoned.is_cancelled());
    assert_eq!(begin_plain_post(&cancelled, &plain_request("{}")), Err(refusal()));
    let transport = empty_transport();
    assert_eq!(
        post_plainly(&transport, plain_request("{}"), &|| cancelled),
        Err(refusal())
    );
    assert!(transport.requests.lock().unwrap().is_empty());
    // Abandoned while the request is out: the host only sees it afterwards.
    let seen = || {
        if transport.requests.lock().unwrap().is_empty() {
            open
        } else {
            abandoned
        }
    };
    assert_eq!(post_plainly(&transport, plain_request("{}"), &seen), Err(refusal()));
    assert_eq!(transport.requests.lock().unwrap().len(), 1);
    assert!(post_plainly(&transport, plain_request("{}"), &|| open).is_ok());
    let failure = || TransportError::Io("down".to_owned());
    assert_eq!(conclude_plain_post(&abandoned, Err(failure())), Err(failure()));
    assert_eq!(
        begin_plain_post(&open, &plain_request("{\"stream\": true}")),
        Err(TransportError::Protocol("transport does not support streaming".to_owned()))
    );
}
