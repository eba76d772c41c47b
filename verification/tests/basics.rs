use llm_proxy::clock::whole_seconds;
use llm_proxy::entries::{find_entry, insert_entry};
use llm_proxy::ids::{id_of, make_id};
use llm_proxy::json::Json;
use llm_proxy::sse::{sse, LineBuffer};
use llm_proxy::text::{
    decimal_string, has_char, has_text, join, replace, split_once, str_eq, strip_prefix,
    to_ascii_lower, trim, trim_end, trim_end_char, trim_start,
};

#[test]
fn json_reads_and_writes() {
    let text = r#"{"a":[1,-2,2.5,"x\n",null,true],"b":{"c":{}}}"#;
    let v = Json::parse(text.as_bytes()).unwrap();
    assert_eq!(v.to_text(), text);
    assert_eq!(v.clone().to_bytes(), text.as_bytes().to_vec());
    assert_eq!(v.array_at("a").unwrap().len(), 6);
    assert_eq!(v.array_at("a").unwrap()[0].as_u64(), Some(1));
    assert_eq!(v.array_at("a").unwrap()[1].as_u64(), None);
    assert_eq!(v.array_at("a").unwrap()[2].as_u64(), None);
    assert!(v.get("b").unwrap().is_object());
    assert!(v.array_at("a").unwrap()[4].is_null());
    assert!(Json::parse(b"{\"a\":1,}").is_none());
    assert!(Json::parse(b"1 2").is_none());
}

#[test]
fn json_members_are_put_and_read() {
    let v = Json::object()
        .with("n", Json::number(7))
        .with("s", Json::string("x"))
        .with("n", Json::number(8));
    assert_eq!(v.count_at("n"), 8);
    assert_eq!(v.count_at("s"), 0);
    assert_eq!(v.text_at("s"), "x");
    assert_eq!(v.text_at("n"), "");
    assert_eq!(v.str_at("missing"), None);
    assert_eq!(v.to_text(), r#"{"n":8,"s":"x"}"#);
    assert_eq!(v.get_or("missing", Json::Null).to_text(), "null");
    assert_eq!(Json::Null.with("a", Json::Null).to_text(), "null");
}

#[test]
fn deep_values_can_be_written_and_read() {
    let mut v = Json::array();
    for _ in 0..126 {
        v = Json::Array(vec![v]);
    }
    assert!(Json::parse(v.to_text().as_bytes()).is_some());
    let deeper = Json::Array(vec![v]);
    assert!(Json::parse(deeper.to_text().as_bytes()).is_none());
}

#[test]
fn events_are_lines_of_data() {
    assert_eq!(sse(&Json::object()), "data: {}\n\n");
}

#[test]
fn lines_are_handed_out_when_complete() {
    let mut b = LineBuffer::new();
    assert!(b.push("a").is_empty());
    assert_eq!(b.push("b\nc\n\nd"), vec!["ab\n", "c\n", "\n"]);
    assert_eq!(b.rest, "d");
}

#[test]
fn parts_of_a_second_are_dropped() {
    assert_eq!(whole_seconds(0), 0);
    assert_eq!(whole_seconds(999), 0);
    assert_eq!(whole_seconds(1_999), 1);
    assert_eq!(whole_seconds(u64::MAX), u64::MAX / 1000);
}

#[test]
fn identifiers_have_a_prefix() {
    let id = make_id("msg");
    assert!(id.starts_with("msg_"));
    assert_eq!(id.len(), 28);
    assert_ne!(id, make_id("msg"));
}

#[test]
fn identifier_is_made_of_the_digits_of_a_uuid() {
    assert_eq!(
        id_of("resp", "01234567-89ab-4cde-8f01-23456789abcd"),
        "resp_0123456789ab4cde8f012345"
    );
}

#[test]
fn entries_are_found_by_name() {
    let mut list = vec![("a".to_string(), 1), ("b".to_string(), 2)];
    insert_entry(&mut list, "a".to_string(), 3);
    insert_entry(&mut list, "c".to_string(), 4);
    assert_eq!(
        list,
        vec![
            ("a".to_string(), 3),
            ("b".to_string(), 2),
            ("c".to_string(), 4)
        ]
    );
    assert_eq!(find_entry(&list, "b"), Some(1));
    assert_eq!(find_entry(&list, "d"), None);
}

#[test]
fn strings_are_taken_apart() {
    assert!(str_eq("é", "é"));
    assert!(!str_eq("a", "ab"));
    assert_eq!(strip_prefix("data: x", "data: "), Some("x"));
    assert_eq!(strip_prefix("dat", "data: "), None);
    assert_eq!(split_once("é/b/c", '/'), Some(("é", "b/c")));
    assert_eq!(split_once("ab", '/'), None);
    assert!(has_char("a/b", '/'));
    assert!(has_text("a text/event-stream", "text/event-stream"));
    assert!(!has_text("text/event", "text/event-stream"));
    assert!(has_text("x", ""));
    assert!(has_text("", ""));
}

#[test]
fn strings_are_trimmed() {
    assert_eq!(trim(" \t\u{3000}a b\r\n"), "a b");
    assert_eq!(trim_end(" a \n"), " a");
    assert_eq!(trim_start(" a "), "a ");
    assert_eq!(trim(" \u{a0}\u{85}"), "");
    assert_eq!(trim_end_char("a//", '/'), "a");
}

#[test]
fn white_space_is_that_of_unicode() {
    for n in 0..=0x10ffffu32 {
        if let Some(c) = char::from_u32(n) {
            assert_eq!(
                llm_proxy::text::is_white_space(c),
                c.is_whitespace(),
                "{:x}",
                n
            );
        }
    }
}

#[test]
fn strings_are_built() {
    assert_eq!(
        replace("a/responses/responses", "responses", "chat"),
        "a/chat/chat"
    );
    assert_eq!(replace("aaa", "aa", "b"), "ba");
    assert_eq!(join(&vec!["a".to_string(), "b".to_string()], ", "), "a, b");
    assert_eq!(join(&vec![], ", "), "");
    assert_eq!(decimal_string(0), "0");
    assert_eq!(decimal_string(u64::MAX), u64::MAX.to_string());
    assert_eq!(to_ascii_lower("Content-TYPE É"), "content-type É");
}
