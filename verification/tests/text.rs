use dlq::chunks::{split_chunks, Chunker};
use dlq::ids::{new_message_id, BatchId};
use dlq::json::Json;
use dlq::text::{
    blank, chars_of, decimal_i64, decimal_u64, has_text, joined, last_segment_of, same_text,
    white_space,
};

#[test]
fn numbers_are_written_in_decimal() {
    assert_eq!(decimal_u64(0), "0");
    assert_eq!(decimal_u64(7), "7");
    assert_eq!(decimal_u64(10), "10");
    assert_eq!(decimal_u64(1234567890), "1234567890");
    assert_eq!(decimal_u64(u64::MAX), u64::MAX.to_string());
    assert_eq!(decimal_i64(0), "0");
    assert_eq!(decimal_i64(-1), "-1");
    assert_eq!(decimal_i64(i64::MIN), i64::MIN.to_string());
    assert_eq!(decimal_i64(i64::MAX), i64::MAX.to_string());
}

#[test]
fn texts_are_compared_joined_and_searched() {
    assert!(same_text("json", "json"));
    assert!(!same_text("json", "Json"));
    assert_eq!(joined("a", "b"), "ab");
    assert_eq!(chars_of("aé✓"), vec!['a', 'é', '✓']);
    assert!(has_text("The queue does not exist.", "does not exist"));
    assert!(!has_text("The queue exists.", "does not exist"));
    assert!(has_text("abc", ""));
    assert!(has_text("", ""));
    assert!(!has_text("", "a"));
    assert!(has_text("aaab", "aab"));
}

#[test]
fn the_name_of_a_queue_follows_the_last_slash() {
    assert_eq!(last_segment_of("http://localhost:4566/000000000000/demo"), "demo");
    assert_eq!(last_segment_of("demo"), "demo");
    assert_eq!(last_segment_of("http://host/"), "");
    assert_eq!(last_segment_of(""), "");
}

#[test]
fn white_space_is_what_std_takes_for_it() {
    for n in 0u32..=0x10ffff {
        if let Some(c) = char::from_u32(n) {
            assert_eq!(white_space(c), c.is_whitespace(), "{:x}", n);
        }
    }
}

#[test]
fn blank_lines_are_told_from_others() {
    for line in ["", " ", "\t \r", "\u{3000}", "a", " a ", "\u{200b}"] {
        assert_eq!(blank(line), line.trim().is_empty(), "{:?}", line);
    }
}

#[test]
fn json_is_written_compactly() {
    let value = Json::Object(vec![
        ("index".to_string(), Json::Unsigned(7)),
        ("data".to_string(), Json::Text("item \"7\"\n".to_string())),
        ("list".to_string(), Json::Array(vec![Json::Null, Json::Bool(true), Json::Negative(-3)])),
        ("half".to_string(), Json::Decimal("0.5".to_string())),
    ]);
    let written: serde_json::Value = serde_json::from_str(&value.to_text()).unwrap();
    assert_eq!(written["index"], 7);
    assert_eq!(written["data"], "item \"7\"\n");
    assert_eq!(written["list"][2], -3);
    assert_eq!(written["half"], 0.5);
    assert_eq!(Json::Text("a".to_string()).to_text(), "\"a\"");
    assert_eq!(Json::Array(vec![]).to_text(), "[]");
    assert_eq!(Json::Decimal("none".to_string()).to_text(), "null");
}

#[test]
fn the_last_member_of_an_object_counts() {
    let value = Json::Object(vec![
        ("id".to_string(), Json::Unsigned(1)),
        ("id".to_string(), Json::Unsigned(2)),
    ]);
    assert!(matches!(value.get("id"), Some(Json::Unsigned(2))));
    assert!(value.get("other").is_none());
    assert!(Json::Null.get("id").is_none());
    assert_eq!(value.to_text(), "{\"id\":2}");
}

#[test]
fn batch_ids_are_checked() {
    assert_eq!(BatchId::new("a-b_9é".to_string()).unwrap().as_ref(), "a-b_9é");
    assert_eq!(BatchId::new(String::new()).unwrap_err(), "Batch ID cannot be empty");
    assert_eq!(
        BatchId::new("a".repeat(81)).unwrap_err(),
        "Batch ID exceeds maximum length: 81 > 80 characters"
    );
    assert!(BatchId::new("a".repeat(80)).is_ok());
    assert!(BatchId::new("é".repeat(40)).is_ok());
    assert_eq!(
        BatchId::new("é".repeat(41)).unwrap_err(),
        "Batch ID exceeds maximum length: 82 > 80 characters"
    );
    assert_eq!(
        BatchId::new("ab c!".to_string()).unwrap_err(),
        "Invalid character in Batch ID: ' '. Allowed: alphanumeric, '-', '_'"
    );
    assert_eq!(
        BatchId::new("ab✓".to_string()).unwrap_err(),
        "Invalid character in Batch ID: '✓'. Allowed: alphanumeric, '-', '_'"
    );
    let id = BatchId::new("kept".to_string()).unwrap();
    assert_eq!(id.clone().as_ref(), "kept");
}

#[test]
fn batch_ids_hold_what_std_takes_for_alphanumeric() {
    for n in 0u32..=0x10ffff {
        if let Some(c) = char::from_u32(n) {
            let expected = c.is_alphanumeric() || c == '-' || c == '_';
            assert_eq!(BatchId::new(c.to_string()).is_ok(), expected, "{:x}", n);
        }
    }
}

#[test]
fn fresh_ids_name_batch_entries() {
    let id = new_message_id();
    assert_eq!(uuid::Uuid::parse_str(&id).unwrap().get_version_num(), 4);
    assert_eq!(id.len(), 36);
    assert!(BatchId::new(id.clone()).is_ok());
    assert_ne!(id, new_message_id());
}

#[test]
fn batches_are_full_but_for_the_last() {
    let parts = split_chunks((0u32..25).collect(), 10);
    assert_eq!(parts.len(), 3);
    assert_eq!(parts[0], (0..10).collect::<Vec<u32>>());
    assert_eq!(parts[2], (20..25).collect::<Vec<u32>>());
    assert!(split_chunks(Vec::<u32>::new(), 10).is_empty());
    assert_eq!(split_chunks((0u32..20).collect(), 10).len(), 2);

    let mut chunker: Chunker<u32> = Chunker::new(2);
    assert_eq!(chunker.push(1), None);
    assert_eq!(chunker.push(2), Some(vec![1, 2]));
    assert_eq!(chunker.push(3), None);
    assert_eq!(chunker.finish(), Some(vec![3]));
    let chunker: Chunker<u32> = Chunker::new(2);
    assert_eq!(chunker.finish(), None);
}
