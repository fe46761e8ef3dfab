use nausicaa::id::CallId;
use nausicaa::json::{equal_json, parse, same_json, Json};
use nausicaa::keyed::Keyed;
use nausicaa::protocol::{
    CanonicalAction, EffectKind, RetrySafety, ToolCall, TranscriptMessage,
};
use nausicaa::text::{
    byte_len, contains_text, decimal, fields, is_blank, join, lines, parse_number, rsplit,
    strip_prefix, trim,
};
use nausicaa::utf8::{append_capped, bytes_of};
use nausicaa::wire::write_message;

#[test]
fn json_reads_back_what_it_writes() {
    for text in [
        "null",
        "true",
        "18446744073709551615",
        "-9223372036854775808",
        "1.5",
        "\"a\\n\\u0001é\"",
        "[1,[],{}]",
        "{\"a\":{\"b\":[null]},\"c\":-1}",
    ] {
        let value = parse(text).unwrap();
        assert_eq!(parse(&value.to_text()).unwrap(), value);
        assert_eq!(
            value.to_text(),
            serde_json::from_str::<serde_json::Value>(text).unwrap().to_string()
        );
    }
}

#[test]
fn json_errors_are_those_of_the_parser() {
    for text in ["", "{", "[1,]", "nul", "{\"a\" 1}"] {
        let expected = serde_json::from_str::<serde_json::Value>(text).unwrap_err().to_string();
        assert_eq!(parse(text).unwrap_err(), expected);
    }
}

#[test]
fn json_members_are_sorted_and_the_last_one_counts() {
    let value = parse("{\"b\":1,\"a\":2,\"b\":3}").unwrap();
    assert_eq!(value.to_text(), "{\"a\":2,\"b\":3}");
    assert_eq!(value.get("b"), Some(&Json::Unsigned(3)));
    assert!(value.get("c").is_none());
    assert_eq!(parse("-0").unwrap().to_text(), "-0.0");
    assert_eq!(parse("1.0").unwrap().as_unsigned(), None);
}

#[test]
fn maps_are_ordered_by_key() {
    let mut map: Keyed<u8> = Keyed::new();
    assert_eq!(map.insert("b".to_owned(), 1), None);
    assert_eq!(map.insert("a".to_owned(), 2), None);
    assert_eq!(map.insert("b".to_owned(), 3), Some(1));
    assert_eq!(map.len(), 2);
    assert_eq!((map.key_at(0).as_str(), *map.value_at(0)), ("a", 2));
    assert_eq!(map.get("b"), Some(&3));
    assert_eq!(map.remove("a"), Some(2));
    assert_eq!(map.remove("a"), None);
    assert!(!map.contains("a"));
}

#[test]
fn texts_are_cut_as_the_standard_library_cuts_them() {
    for text in ["", " a b ", "\u{3000}x\u{85}", "a\r\nb\n", "\n\na", "a\r", "x\u{200b}"] {
        assert_eq!(trim(text), text.trim());
        assert_eq!(is_blank(text), text.trim().is_empty());
        let expected: Vec<String> = text.lines().map(str::to_owned).collect();
        assert_eq!(lines(text), expected, "{text:?}");
        let words: Vec<String> = text.split_whitespace().map(str::to_owned).collect();
        assert_eq!(fields(text), words);
        assert_eq!(byte_len(text), text.len());
        assert_eq!(bytes_of(text), text.as_bytes());
    }
    assert_eq!(strip_prefix("name: x", "name:").unwrap(), " x");
    assert!(strip_prefix("x", "y").is_none());
    assert_eq!(rsplit("a-b-c", "-").unwrap(), ("a-b".to_owned(), "c".to_owned()));
    assert!(contains_text("abc", "bc") && contains_text("abc", "") && !contains_text("b", "ab"));
    assert_eq!(join(&vec!["a".to_owned(), "b".to_owned()], ", "), "a, b");
}

#[test]
fn numbers_are_read_as_the_standard_library_reads_them() {
    for text in ["0", "007", "+5", "-1", "", "+", "18446744073709551615", "18446744073709551616", "1x", " 1"] {
        assert_eq!(parse_number(text, u64::MAX), text.parse::<u64>().ok(), "{text:?}");
        assert_eq!(
            parse_number(text, u16::MAX as u64),
            text.parse::<u16>().ok().map(u64::from),
            "{text:?}"
        );
    }
    for value in [0, 9, 10, 1234567890, u64::MAX] {
        assert_eq!(decimal(value), value.to_string());
    }
}

#[test]
fn appended_bytes_are_capped() {
    let mut kept = vec![1, 2];
    append_capped(&mut kept, &vec![3, 4, 5], 4);
    assert_eq!(kept, vec![1, 2, 3, 4]);
    append_capped(&mut kept, &vec![6], 4);
    assert_eq!(kept, vec![1, 2, 3, 4]);
}

#[test]
fn messages_are_written_as_json() {
    let call = ToolCall::new(
        CallId::from_string("c".to_owned()),
        "read".to_owned(),
        parse("{\"a\":\"é\\n\"}").unwrap(),
    );
    let message = TranscriptMessage::Assistant {
        content: "say \"hi\"".to_owned(),
        tool_calls: vec![call],
    };
    let text = write_message(&message);
    assert_eq!(
        parse(&text).unwrap(),
        parse("{\"role\":\"assistant\",\"content\":\"say \\\"hi\\\"\",\"tool_calls\":[{\"id\":\"c\",\"name\":\"read\",\"arguments\":{\"a\":\"é\\n\"}}]}").unwrap()
    );
}

#[test]
fn json_values_are_equal_as_their_parser_has_it() {
    let texts = [
        "0.0", "-0.0", "-0", "0", "1.0", "1", "1e0", "1.5", "-1.5", "1e300", "1e-300", "\"0.0\"",
        "[0.0]", "[-0.0]", "[0.0,1]", "{\"a\":0.0}", "{\"a\":-0.0}", "{\"b\":0.0}",
        "18446744073709551616", "null",
    ];
    for left in texts {
        for right in texts {
            let expected = serde_json::from_str::<serde_json::Value>(left).unwrap()
                == serde_json::from_str::<serde_json::Value>(right).unwrap();
            let (a, b) = (parse(left).unwrap(), parse(right).unwrap());
            assert_eq!(equal_json(&a, &b), expected, "{left} {right}");
            assert_eq!(same_json(&a, &b), a.to_text() == b.to_text(), "{left} {right}");
        }
    }
}

#[test]
fn actions_match_with_either_zero() {
    let action = |arguments: &str| {
        CanonicalAction::new(
            "tool".to_owned(),
            parse(arguments).unwrap(),
            EffectKind::ReadOnly,
            RetrySafety::Safe,
        )
    };
    assert!(action("{\"x\":[0.0]}").equals(&action("{\"x\":[-0.0]}")));
    assert!(!action("{\"x\":[0.0]}").equals(&action("{\"x\":[0]}")));
    let mut scoped = action("{}");
    scoped.scope = Some("here".to_owned());
    assert!(!scoped.equals(&action("{}")));
}
