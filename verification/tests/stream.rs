use nausicaa::json::{parse, Json};
use nausicaa::provider::{parse_response, TransportError};
use nausicaa::stream::Decoder;

fn finish(stream: &str) -> Result<Json, TransportError> {
    let mut decoder = Decoder::new();
    let mut texts: Vec<String> = Vec::new();
    decoder.push(&stream.as_bytes().to_vec(), &mut texts)?;
    decoder.finish()
}

#[test]
fn byte_split_unicode_and_interleaved_tool_arguments_assemble_only_at_completion() {
    let frames = [
        "{\"choices\":[{\"index\":0,\"delta\":{\"content\":\"猫\",\"tool_calls\":[{\"index\":0,\"id\":\"a\",\"function\":{\"name\":\"write\",\"arguments\":\"{\\\"x\\\":\"}},{\"index\":1,\"id\":\"b\",\"function\":{\"name\":\"read\",\"arguments\":\"{\"}}]},\"finish_reason\":null}]}",
        "{\"choices\":[{\"index\":0,\"delta\":{\"tool_calls\":[{\"index\":1,\"function\":{\"arguments\":\"}\"}},{\"index\":0,\"function\":{\"arguments\":\"1}\"}}]},\"finish_reason\":\"tool_calls\"}]}",
        "{\"choices\":[],\"usage\":{\"prompt_tokens\":4,\"completion_tokens\":7}}",
    ];
    let stream = format!(
        ": keepalive\r\n\r\n{}data: [DONE]\r\n\r\n",
        frames.iter().map(|v| format!("data: {v}\r\n\r\n")).collect::<String>()
    );
    let mut decoder = Decoder::new();
    let mut draft: Vec<String> = Vec::new();
    for byte in stream.as_bytes() {
        decoder.push(&vec![*byte], &mut draft).unwrap();
    }
    assert_eq!(draft.concat(), "猫");
    let response = parse_response(&decoder.finish().unwrap()).unwrap();
    assert_eq!(response.tool_calls.len(), 2);
    assert_eq!(response.tool_calls[0].arguments, parse("{\"x\":1}").unwrap());
    assert_eq!(response.tool_calls[1].arguments, parse("{}").unwrap());
    assert_eq!(response.usage.output_tokens, 7);
}

#[test]
fn incomplete_or_conflicting_streams_never_become_a_model_response() {
    for stream in [
        "data: [DONE]\n\n",
        "data: {\"choices\":[{\"index\":0,\"delta\":{},\"finish_reason\":\"stop\"}]}\n\n",
        "data: {\"error\":{\"message\":\"failed\"}}\n\n",
        "data: {broken}\n\n",
        "data: {\"choices\":[{\"index\":1,\"delta\":{},\"finish_reason\":\"stop\"}]}\n\ndata: [DONE]\n\n",
        "data: {\"choices\":[{\"index\":0,\"delta\":{},\"finish_reason\":\"stop\"}]}\n\ndata: [DONE]\n\ndata: {}\n\n",
    ] {
        assert!(finish(stream).is_err(), "{stream}");
    }
}

#[test]
fn decoding_does_not_depend_on_how_bytes_arrive() {
    let stream = "data: {\"choices\":[{\"index\":0,\"delta\":{\"content\":\"a€b\"},\"finish_reason\":\"stop\"}]}\n\ndata: [DONE]\n\n".as_bytes().to_vec();
    for size in [1, 2, 3, 7, stream.len()] {
        let mut decoder = Decoder::new();
        let mut texts: Vec<String> = Vec::new();
        for part in stream.chunks(size) {
            decoder.push(&part.to_vec(), &mut texts).unwrap();
        }
        assert_eq!(texts.concat(), "a€b");
        let response = parse_response(&decoder.finish().unwrap()).unwrap();
        assert_eq!(response.content, "a€b");
    }
}

#[test]
fn previews_are_the_content() {
    let stream = "data: {\"choices\":[{\"index\":0,\"delta\":{\"content\":\"one \"}}]}\n\ndata: {\"choices\":[{\"index\":0,\"delta\":{\"content\":\"two\"},\"finish_reason\":\"stop\"}]}\n\ndata: [DONE]\n\n";
    let mut decoder = Decoder::new();
    let mut texts: Vec<String> = Vec::new();
    decoder.push(&stream.as_bytes().to_vec(), &mut texts).unwrap();
    assert_eq!(texts, vec!["one ".to_owned(), "two".to_owned()]);
    let response = parse_response(&decoder.finish().unwrap()).unwrap();
    assert_eq!(response.content, "one two");
}

#[test]
fn bytes_that_are_no_text_are_refused() {
    let mut decoder = Decoder::new();
    let mut texts: Vec<String> = Vec::new();
    let mut bytes = b"data: ".to_vec();
    bytes.push(0xff);
    bytes.push(b'\n');
    assert!(decoder.push(&bytes, &mut texts).is_err());
}

#[test]
fn oversized_lines_are_refused() {
    let mut decoder = Decoder::new();
    let mut texts: Vec<String> = Vec::new();
    let line = vec![b'x'; nausicaa::stream::MAX_FRAME + 1];
    assert!(decoder.push(&line, &mut texts).is_err());
}
