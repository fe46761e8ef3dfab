use nausicaa::id::{ThreadId, TurnId};
use nausicaa::json::Json;
use nausicaa::model::{ModelProgress, ModelProgressEvent, RequestTimings};
use nausicaa::progress::{metrics_record, truncate, ModelProgressBuffer};

fn event(turn: &str, progress: ModelProgress) -> ModelProgressEvent {
    ModelProgressEvent {
        thread_id: ThreadId::from_string("thread".to_owned()),
        turn_id: TurnId::from_string(turn.to_owned()),
        iteration: 0,
        progress,
    }
}

fn delta(turn: &str, text: &str) -> ModelProgressEvent {
    event(turn, ModelProgress::TextDelta { text: text.to_owned() })
}

fn finished(turn: &str) -> ModelProgressEvent {
    let timings = RequestTimings {
        dns_ms: Some(1),
        tcp_connect_ms: None,
        tls_ms: None,
        first_byte_ms: None,
        first_text_ms: None,
        total_ms: 12,
    };
    event(turn, ModelProgress::Finished { timings, outcome: "cancelled".to_owned() })
}

fn draft(buffer: &mut ModelProgressBuffer) -> String {
    match buffer.take().draft.unwrap().progress {
        ModelProgress::TextDelta { text } => text,
        other => panic!("{other:?}"),
    }
}

#[test]
fn previews_are_bounded_and_metrics_never_store_text() {
    let mut buffer = ModelProgressBuffer::new();
    let mut file = String::new();
    buffer.on_progress(&event("turn", ModelProgress::Started), None);
    for _ in 0..100 {
        let event = delta("turn", &"秘密".repeat(1024));
        if let Some(record) = metrics_record(&event) {
            file.push_str(&record.to_text());
        }
        buffer.on_progress(&event, None);
    }
    let text = draft(&mut buffer);
    assert!(text.len() <= 65536);
    assert!(text.ends_with("秘密"));
    let done = finished("turn");
    file.push_str(&metrics_record(&done).unwrap().to_text());
    buffer.on_progress(&done, None);
    assert!(!file.contains("秘密"));
    let json = nausicaa::json::parse(file.trim()).unwrap();
    assert_eq!(json.get("version"), Some(&Json::Unsigned(1)));
    let progress = json.get("request").unwrap().get("progress").unwrap();
    assert_eq!(progress.get("outcome").unwrap().as_text().unwrap(), "cancelled");
}

#[test]
fn metrics_hold_the_timings() {
    assert_eq!(
        metrics_record(&finished("turn")).unwrap().to_text(),
        "{\"request\":{\"iteration\":0,\"progress\":{\"outcome\":\"cancelled\",\"timings\":{\"dns_ms\":1,\"first_byte_ms\":null,\"first_text_ms\":null,\"tcp_connect_ms\":null,\"tls_ms\":null,\"total_ms\":12},\"type\":\"finished\"},\"thread_id\":\"thread\",\"turn_id\":\"turn\"},\"version\":1}"
    );
}

#[test]
fn previews_of_another_request_are_replaced() {
    let mut buffer = ModelProgressBuffer::new();
    buffer.on_progress(&delta("one", "a"), None);
    buffer.on_progress(&delta("one", "b"), None);
    buffer.on_progress(&delta("two", "c"), None);
    assert_eq!(draft(&mut buffer), "c");
    buffer.on_progress(&delta("one", "a"), None);
    buffer.on_progress(&delta("one", "b"), None);
    assert_eq!(draft(&mut buffer), "ab");
    assert!(buffer.take().draft.is_none());
}

#[test]
fn the_last_completed_requests_are_kept() {
    let mut buffer = ModelProgressBuffer::new();
    for n in 0..20 {
        buffer.on_progress(&finished(&format!("{n}")), None);
    }
    buffer.on_progress(&finished("last"), Some("disk full".to_owned()));
    let snapshot = buffer.take();
    assert_eq!(snapshot.completed.len(), 16);
    assert_eq!(snapshot.completed[0].turn_id.as_str(), "5");
    assert_eq!(snapshot.completed[15].turn_id.as_str(), "last");
    assert_eq!(snapshot.error.unwrap(), "request metrics write failed: disk full");
}

#[test]
fn truncation_cuts_between_characters() {
    let text = format!("a{}", "€".repeat(21845));
    assert_eq!(text.len(), 65536);
    assert_eq!(truncate(&text), text);
    let longer = format!("{text}€");
    assert_eq!(truncate(&longer), "€".repeat(21845));
    assert_eq!(truncate(""), "");
}
