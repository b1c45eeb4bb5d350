use dlq::entry::{
    build_entry, entries_with, fresh_ids, line_entry, line_entry_with, plan_send_batch, SendError,
};
use dlq::failure::{format_sdk_error, queue_missing, request_error_line, SdkFailure};
use dlq::ids::{BatchId, IdSource};
use dlq::json::Json;
use dlq::settings::AwsSettings;
use dlq::sqs::{batch_outcome, DeadLetterQueue};
use dlq::worker::{
    collect_results, prepare_batch, prepare_with, transform_input, transform_with, FailedEntry,
    JobItem, PreparedBatch, SendReply, SentEntry,
};

fn text(s: &str) -> Json {
    Json::Text(s.to_string())
}

fn object(members: Vec<(&str, Json)>) -> Json {
    Json::Object(members.into_iter().map(|(k, v)| (k.to_string(), v)).collect())
}

fn parsed(v: &Json) -> serde_json::Value {
    serde_json::from_str(&v.to_text()).unwrap()
}

fn client() -> DeadLetterQueue {
    DeadLetterQueue::from_config(AwsSettings { endpoint: None, test_credentials: false })
}

#[test]
fn test_send_batch_success() {
    let messages: Vec<String> =
        vec!["message1".to_string(), "message2".to_string(), "message3".to_string()];
    let url = "http://localhost:4566/000000000000/test-batch";
    let result = client().send_batch(url, &messages, &mut IdSource::new());
    assert!(result.is_ok(), "send_batch should succeed");
    let request = result.unwrap().unwrap();
    assert_eq!(request.queue_url, "http://localhost:4566/000000000000/test-batch");
    assert_eq!(request.entries.len(), 3, "Should receive 3 messages");
    let bodies: Vec<&str> = request.entries.iter().map(|e| e.body.as_str()).collect();
    assert!(bodies.contains(&"message1"));
    assert!(bodies.contains(&"message2"));
    assert!(bodies.contains(&"message3"));
    for entry in &request.entries {
        assert!(BatchId::new(entry.id.clone()).is_ok());
    }
}

#[test]
fn test_send_batch_empty() {
    let messages: Vec<String> = vec![];
    let url = "http://localhost:4566/000000000000/test-empty";
    let result = client().send_batch(url, &messages, &mut IdSource::new());
    assert!(result.is_ok(), "send_batch should handle empty batch");
    assert!(result.unwrap().is_none());
}

#[test]
fn test_local() {
    let entries: Vec<_> = ["first line", "second line", "", "third"]
        .iter()
        .filter_map(|line| line_entry(line, &mut IdSource::new()))
        .collect();
    assert_eq!(entries.len(), 3);
    let bodies: Vec<&str> = entries.iter().map(|e| e.body.as_str()).collect();
    assert!(bodies.contains(&"first line"));
    assert!(bodies.contains(&"second line"));
    assert!(bodies.contains(&"third"));
}

#[test]
fn special_content_is_sent_unchanged() {
    let messages: Vec<String> = [" \t\n\r{}[]\"'\\", "日本語 ✓", "plain"]
        .iter()
        .map(|s| s.to_string())
        .collect();
    let entries = plan_send_batch(&messages, &mut IdSource::new()).unwrap().unwrap();
    let bodies: Vec<String> = entries.into_iter().map(|e| e.body).collect();
    assert_eq!(bodies, messages);
}

#[test]
fn entries_keep_their_identifiers_and_bodies() {
    let entry = build_entry("one", "body").unwrap();
    assert_eq!((entry.id.as_str(), entry.body.as_str()), ("one", "body"));
    let ids = vec!["a".to_string(), "b".to_string()];
    let bodies = vec!["x".to_string(), "y".to_string()];
    let entries = entries_with(&ids, &bodies).unwrap();
    assert_eq!(entries[1].id, "b");
    assert_eq!(entries[1].body, "y");
    assert_eq!(fresh_ids(&mut IdSource::new(), 3).len(), 3);
    assert!(line_entry_with("a", "").is_none());
    assert_eq!(line_entry_with("a", " ").unwrap().body, " ");
}

#[test]
fn send_errors_say_what_went_wrong() {
    assert_eq!(
        SendError::BuildEntryFailed("no id".to_string()).message(),
        "failed to build message entry: no id"
    );
    assert_eq!(SendError::AwsSdkError("timeout".to_string()).message(), "AWS SDK error: timeout");
}

#[test]
fn items_become_messages() {
    let fresh = "fresh";
    // Text mode: a text as it is, anything else as JSON.
    assert_eq!(transform_with(&text("hi"), "text", fresh), ("fresh".into(), "hi".into()));
    assert_eq!(transform_with(&Json::Unsigned(5), "text", fresh), ("fresh".into(), "5".into()));
    let full = object(vec![("id", text("one")), ("body", text("hello"))]);
    assert_eq!(
        transform_with(&full, "text", fresh),
        ("fresh".into(), "{\"body\":\"hello\",\"id\":\"one\"}".into())
    );
    // JSON mode: the members `id` and `body`.
    assert_eq!(transform_with(&full, "json", fresh), ("one".into(), "hello".into()));
    let nested = object(vec![("id", Json::Unsigned(1)), ("body", object(vec![("a", Json::Null)]))]);
    assert_eq!(transform_with(&nested, "json", fresh), ("fresh".into(), "{\"a\":null}".into()));
    let bodiless = object(vec![("id", text("one"))]);
    assert_eq!(transform_with(&bodiless, "json", fresh), ("one".into(), "{\"id\":\"one\"}".into()));
    // JSON mode, no object: JSON, even for a text.
    assert_eq!(transform_with(&text("hi"), "json", fresh), ("fresh".into(), "\"hi\"".into()));
}

#[test]
fn items_without_an_identifier_get_a_fresh_one() {
    let (id, body) = transform_input(&text("hi"), "text", &mut IdSource::new());
    assert!(uuid::Uuid::parse_str(&id).is_ok());
    assert_eq!(body, "hi");
    let named = object(vec![("id", text("mine"))]);
    let (id, _) = transform_input(&named, "json", &mut IdSource::new());
    assert_eq!(id, "mine");
    let (id, body) = transform_input(&named, "JSON", &mut IdSource::new());
    assert_ne!(id, "mine");
    assert_eq!(body, transform_input(&named, "text", &mut IdSource::new()).1);
}

fn items() -> Vec<JobItem> {
    vec![
        JobItem { db_id: 11, input: text("one") },
        JobItem { db_id: 12, input: text("two") },
        JobItem { db_id: 13, input: text("three") },
    ]
}

fn batch() -> PreparedBatch {
    let fresh = vec!["a".to_string(), "b".to_string(), "c".to_string()];
    prepare_with(&items(), "text", &fresh)
}

#[test]
fn batches_remember_their_items() {
    let batch = batch();
    assert_eq!(batch.entries.len(), 3);
    assert_eq!(batch.entries[2].id, "c");
    assert_eq!(batch.entries[2].body, "three");
    assert_eq!(batch.owners[1], ("b".to_string(), 12));
    let drawn = prepare_batch(&items(), "text", &mut IdSource::new());
    assert_eq!(drawn.entries[0].body, "one");
    assert_eq!(drawn.owners[0].0, drawn.entries[0].id);
    assert_eq!(drawn.owners[0].1, 11);
}

#[test]
fn a_full_reply_settles_every_item() {
    let reply = SendReply::Answered {
        successful: vec![
            SentEntry {
                id: "c".to_string(),
                message_id: "m-3".to_string(),
                md5_of_message_body: "d3".to_string(),
                sequence_number: None,
            },
            SentEntry {
                id: "a".to_string(),
                message_id: "m-1".to_string(),
                md5_of_message_body: "d1".to_string(),
                sequence_number: Some("9".to_string()),
            },
            SentEntry {
                id: "stranger".to_string(),
                message_id: "m-4".to_string(),
                md5_of_message_body: "d4".to_string(),
                sequence_number: None,
            },
        ],
        failed: vec![FailedEntry {
            id: "b".to_string(),
            code: "InternalError".to_string(),
            message: None,
            sender_fault: true,
        }],
    };
    let results = collect_results(&batch(), &reply, "batch-1");
    assert_eq!(results.len(), 3);
    assert_eq!((results[0].db_id, results[0].success), (13, true));
    assert_eq!((results[1].db_id, results[1].success), (11, true));
    assert_eq!((results[2].db_id, results[2].success), (12, false));
    assert!(results[0].error.is_none());
    assert_eq!(results[2].error.as_deref(), Some("InternalError: Unknown error"));
    assert_eq!(results[2].batch_id, "batch-1");
    let sent = parsed(results[1].output.as_ref().unwrap());
    assert_eq!(sent["message_id"], "m-1");
    assert_eq!(sent["md5_of_message_body"], "d1");
    assert_eq!(sent["sequence_number"], "9");
    assert_eq!(sent["batch_id"], "batch-1");
    assert!(parsed(results[0].output.as_ref().unwrap())["sequence_number"].is_null());
    let failed = parsed(results[2].output.as_ref().unwrap());
    assert_eq!(failed["code"], "InternalError");
    assert!(failed["message"].is_null());
    assert_eq!(failed["sender_fault"], true);
    assert_eq!(failed["batch_id"], "batch-1");
}

#[test]
fn a_failed_request_fails_every_item() {
    let reply = SendReply::Failed(SdkFailure::TimeoutError { debug: "slow".to_string() });
    let results = collect_results(&batch(), &reply, "batch-2");
    let keys: Vec<i64> = results.iter().map(|r| r.db_id).collect();
    assert_eq!(keys, vec![11, 12, 13]);
    for result in &results {
        assert!(!result.success);
        assert_eq!(result.error.as_deref(), Some("SQS TimeoutError: slow"));
        let output = parsed(result.output.as_ref().unwrap());
        assert_eq!(output["error_details"]["error_type"], "TimeoutError");
        assert_eq!(output["batch_id"], "batch-2");
    }
}

#[test]
fn entries_that_share_an_identifier_belong_to_the_last_item() {
    let shared = vec!["x".to_string(), "x".to_string(), "y".to_string()];
    let batch = prepare_with(&items(), "text", &shared);
    let reply = SendReply::Failed(SdkFailure::Unknown { debug: "?".to_string() });
    let keys: Vec<i64> = collect_results(&batch, &reply, "b").iter().map(|r| r.db_id).collect();
    assert_eq!(keys, vec![12, 12, 13]);
}

#[test]
fn failures_are_formatted() {
    let (message, details) = format_sdk_error(&SdkFailure::ServiceError {
        message: "denied".to_string(),
        status_code: 403,
        request_id: Some("r-1".to_string()),
    });
    assert_eq!(message, "SQS ServiceError: denied");
    let details = parsed(&details);
    assert_eq!(details["error_type"], "ServiceError");
    assert_eq!(details["message"], "denied");
    assert_eq!(details["status_code"], 403);
    assert_eq!(details["request_id"], "r-1");

    let (message, details) = format_sdk_error(&SdkFailure::DispatchFailure {
        debug: "refused".to_string(),
        is_io: true,
        is_timeout: false,
        is_user: false,
        connector_error: None,
    });
    assert_eq!(message, "SQS DispatchFailure: refused");
    let details = parsed(&details);
    assert_eq!(details["is_io"], true);
    assert_eq!(details["is_timeout"], false);
    assert_eq!(details["is_user"], false);
    assert!(details["connector_error"].is_null());

    let (message, details) = format_sdk_error(&SdkFailure::ResponseError {
        status_code: 502,
        debug: "bad".to_string(),
    });
    assert_eq!(message, "SQS ResponseError: status=502");
    assert_eq!(parsed(&details)["debug"], "bad");

    let (message, details) =
        format_sdk_error(&SdkFailure::ConstructionFailure { debug: "no url".to_string() });
    assert_eq!(message, "SQS ConstructionFailure: no url");
    assert_eq!(parsed(&details)["message"], "no url");

    let (message, details) = format_sdk_error(&SdkFailure::Unknown { debug: "odd".to_string() });
    assert_eq!(message, "SQS Error: odd");
    assert_eq!(parsed(&details)["error_type"], "Unknown");
}

#[test]
fn missing_queues_are_recognised() {
    let said = |message: &str| SdkFailure::ServiceError {
        message: message.to_string(),
        status_code: 400,
        request_id: None,
    };
    assert!(queue_missing(&said("AWS.SimpleQueueService.NonExistentQueue")));
    assert!(queue_missing(&said("QueueDoesNotExist: nothing there")));
    assert!(queue_missing(&said("The specified queue does not exist.")));
    assert!(!queue_missing(&said("AccessDenied")));
    assert!(!queue_missing(&SdkFailure::TimeoutError { debug: "does not exist".to_string() }));
}

#[test]
fn entries_get_identifiers_of_their_own() {
    let messages: Vec<String> = (0..10).map(|n| n.to_string()).collect();
    let mut ids = IdSource::new();
    let entries = plan_send_batch(&messages, &mut ids).unwrap().unwrap();
    let distinct: std::collections::HashSet<&str> =
        entries.iter().map(|e| e.id.as_str()).collect();
    assert_eq!(distinct.len(), 10);
    let drawn = prepare_batch(&items(), "text", &mut ids);
    assert_ne!(drawn.entries[0].id, drawn.entries[1].id);
    assert!(!distinct.contains(drawn.entries[0].id.as_str()));
}

#[test]
fn a_batch_succeeds_only_where_every_message_was_sent() {
    let refused = |id: &str, message: Option<&str>| FailedEntry {
        id: id.to_string(),
        code: "Busy".to_string(),
        message: message.map(|m| m.to_string()),
        sender_fault: false,
    };
    let all_sent = SendReply::Answered { successful: vec![], failed: vec![] };
    assert!(batch_outcome(&all_sent, "").is_ok());
    let one = SendReply::Answered { successful: vec![], failed: vec![refused("a", None)] };
    assert_eq!(
        batch_outcome(&one, "").unwrap_err().message(),
        "AWS SDK error: messages were refused: Busy: Unknown error"
    );
    let two = SendReply::Answered {
        successful: vec![],
        failed: vec![refused("a", Some("later")), refused("b", None)],
    };
    assert_eq!(
        batch_outcome(&two, "").unwrap_err().message(),
        "AWS SDK error: messages were refused: Busy: later, Busy: Unknown error"
    );
    let failed = SendReply::Failed(SdkFailure::TimeoutError { debug: "slow".to_string() });
    assert_eq!(
        batch_outcome(&failed, "request has timed out").unwrap_err().message(),
        "AWS SDK error: request has timed out"
    );
}

#[test]
fn failed_batches_are_reported() {
    let service = SdkFailure::ServiceError {
        message: "denied".to_string(),
        status_code: 403,
        request_id: None,
    };
    assert_eq!(request_error_line(&service, "service error"), "[AWS SDK ERROR] denied");
    let other = SdkFailure::Unknown { debug: "odd".to_string() };
    assert_eq!(request_error_line(&other, "dispatch failure"), "[AWS SDK ERROR] dispatch failure");
}
