use nausicaa::app_server::{
    read_line, reply, select_events, thread_started, AppServer, RpcError, RpcPlan, ServerError,
    ServerLine,
};
use nausicaa::event::{EventEnvelope, RuntimeEvent};
use nausicaa::id::{EventId, ThreadId, TurnId};
use nausicaa::json::{parse, Json};
use nausicaa::turn::{RuntimeError, TurnOutcome};

fn request(id: u64, method: &str, params: &str) -> Json {
    parse(&format!(
        "{{\"jsonrpc\": \"2.0\", \"id\": {id}, \"method\": \"{method}\", \"params\": {params}}}"
    ))
    .unwrap()
}

fn state(server: &AppServer, turn: &str) -> String {
    let asked = request(3, "turn/status", &format!("{{\"turn_id\": \"{turn}\"}}"));
    match server.dispatch(&asked).unwrap() {
        RpcPlan::Answer(answer) => {
            let response = reply(&asked, Ok(answer)).unwrap();
            response.get("result").unwrap().get("state").unwrap().to_text()
        }
        other => panic!("{other:?}"),
    }
}

fn start(server: &mut AppServer, turn: &str) {
    let asked = request(2, "turn/start", "{\"thread_id\": \"t\", \"input\": \"hi\"}");
    match server.dispatch(&asked).unwrap() {
        RpcPlan::StartTurn { thread_id, input } => {
            let turn_id = TurnId::from_string(turn.to_owned());
            let answer = server.start_turn(&thread_id, Ok(()), &input, &turn_id).unwrap();
            assert_eq!(answer.get("turn_id").unwrap().as_text().unwrap(), turn);
        }
        other => panic!("{other:?}"),
    }
}

#[test]
fn starts_thread_and_background_turn() {
    let mut server = AppServer::new();
    assert!(matches!(
        server.dispatch(&request(1, "thread/start", "{}")),
        Ok(RpcPlan::StartThread)
    ));
    let answer = thread_started(Ok(ThreadId::from_string("t".to_owned()))).unwrap();
    assert_eq!(answer.get("thread_id").unwrap().as_text().unwrap(), "t");
    start(&mut server, "turn");
    assert_eq!(state(&server, "turn"), "{\"status\":\"running\"}");
    server.end_turn(
        &TurnId::from_string("turn".to_owned()),
        Ok(TurnOutcome {
            thread_id: ThreadId::from_string("t".to_owned()),
            turn_id: TurnId::from_string("turn".to_owned()),
            content: "hello".to_owned(),
            model_iterations: 1,
        }),
    );
    assert_eq!(state(&server, "turn"), "{\"content\":\"hello\",\"status\":\"completed\"}");
}

#[test]
fn only_running_turns_are_cancelled() {
    let mut server = AppServer::new();
    start(&mut server, "turn");
    let cancel = request(4, "turn/cancel", "{\"turn_id\": \"turn\"}");
    assert!(matches!(server.dispatch(&cancel), Ok(RpcPlan::Cancel { .. })));
    let turn = TurnId::from_string("turn".to_owned());
    server.end_turn(&turn, Err(RuntimeError::Cancelled(turn.clone())));
    assert_eq!(state(&server, "turn"), "{\"status\":\"cancelled\"}");
    assert!(!matches!(server.dispatch(&cancel), Ok(RpcPlan::Cancel { .. })));
    start(&mut server, "failing");
    let failing = TurnId::from_string("failing".to_owned());
    server.end_turn(
        &failing,
        Err(RuntimeError::UnknownThread(ThreadId::from_string("t".to_owned()))),
    );
    assert!(state(&server, "failing").contains("\"failed\""));
}

#[test]
fn bad_requests_are_answered_with_their_code() {
    let server = AppServer::new();
    let code = |text: &str| server.dispatch(&parse(text).unwrap()).unwrap_err().code;
    assert_eq!(code("{\"method\": \"thread/start\"}"), -32600);
    assert_eq!(code("{\"jsonrpc\": \"2.0\"}"), -32600);
    assert_eq!(code("{\"jsonrpc\": \"2.0\", \"method\": \"nothing\"}"), -32601);
    assert_eq!(code("{\"jsonrpc\": \"2.0\", \"method\": \"turn/start\"}"), -32602);
    assert_eq!(
        code("{\"jsonrpc\": \"2.0\", \"method\": \"turn/status\", \"params\": {\"turn_id\": \"x\"}}"),
        -32602
    );
    assert_eq!(RpcError::internal("x".to_owned()).code, -32603);
}

#[test]
fn responses_carry_their_identifier() {
    let asked = request(9, "thread/start", "{}");
    let response = reply(&asked, Err(RpcError::invalid_params("no".to_owned()))).unwrap();
    assert_eq!(
        response,
        parse("{\"jsonrpc\":\"2.0\",\"id\":9,\"error\":{\"code\":-32602,\"message\":\"no\"}}").unwrap()
    );
    let silent = parse("{\"jsonrpc\": \"2.0\", \"method\": \"thread/start\"}").unwrap();
    assert!(reply(&silent, Ok(Json::Null)).is_none());
}

#[test]
fn lines_are_requests_or_answered_at_once() {
    assert!(matches!(read_line("  \t"), ServerLine::Blank));
    assert!(matches!(read_line("{}"), ServerLine::Request(_)));
    match read_line("{") {
        ServerLine::Malformed(response) => {
            assert_eq!(response.get("id"), Some(&Json::Null));
            assert_eq!(
                response.get("error").unwrap().get("code"),
                Some(&Json::Negative(-32700))
            );
        }
        other => panic!("{other:?}"),
    }
    assert_eq!(ServerError::Input("x".to_owned()).to_text(), "JSON-RPC input error: x");
}

#[test]
fn events_follow_a_number() {
    let events: Vec<EventEnvelope> = (0..3)
        .map(|sequence| EventEnvelope {
            id: EventId::from_string(format!("{sequence}")),
            sequence,
            at_unix_ms: 0,
            thread_id: ThreadId::from_string("t".to_owned()),
            turn_id: None,
            event: RuntimeEvent::TurnCancelled,
        })
        .collect();
    assert_eq!(select_events(&events, None).len(), 3);
    assert_eq!(select_events(&events, Some(1)).len(), 1);
    match AppServer::new()
        .dispatch(&request(
            1,
            "thread/events",
            "{\"thread_id\": \"t\", \"after_sequence\": 7}",
        ))
        .unwrap()
    {
        RpcPlan::Events { after_sequence, .. } => assert_eq!(after_sequence, Some(7)),
        other => panic!("{other:?}"),
    }
}
