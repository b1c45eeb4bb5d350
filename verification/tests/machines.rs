use dlq::json::Json;
use dlq::loader::{LoadAction, LoadEvent, Loader};
use dlq::reader::{next_read, ReadAction, ReadEvent};
use dlq::sqs::{
    receive, receive_outcome, DeadLetterQueue, MessageModel, Poller, ReceivedMessage,
    SystemAttributes,
};
use dlq::settings::AwsSettings;
use dlq::worker::{JobItem, SendResult};
use dlq::writer::{Writer, WriterAction, WriterEvent};

fn result(db_id: i64) -> SendResult {
    SendResult { db_id, success: true, output: None, error: None, batch_id: "b".to_string() }
}

fn item(db_id: i64) -> JobItem {
    JobItem { db_id, input: Json::Null }
}

fn keys(action: &WriterAction) -> Vec<i64> {
    match action {
        WriterAction::Write(batch) => batch.iter().map(|r| r.db_id).collect(),
        _ => panic!("nothing to write"),
    }
}

#[test]
fn the_writer_writes_full_batches() {
    let mut writer = Writer::new();
    for i in 0..99 {
        assert!(matches!(writer.step(WriterEvent::Received(result(i))), WriterAction::Wait));
    }
    let action = writer.step(WriterEvent::Received(result(99)));
    assert_eq!(keys(&action), (0..100).collect::<Vec<i64>>());
    assert!(matches!(writer.step(WriterEvent::Written { requeued: 3 }), WriterAction::Wait));
    assert_eq!(writer.completed(), 97);
    assert_eq!(writer.requeued(), 3);
}

#[test]
fn the_writer_is_caught_up_before_it_stages() {
    let mut writer = Writer::new();
    assert!(matches!(writer.step(WriterEvent::StageRequested(5)), WriterAction::Stage(5)));
    writer.step(WriterEvent::Received(result(1)));
    let action = writer.step(WriterEvent::StageRequested(7));
    assert_eq!(keys(&action), vec![1]);
    assert!(matches!(
        writer.step(WriterEvent::Written { requeued: 0 }),
        WriterAction::Stage(7)
    ));
    assert_eq!(writer.completed(), 1);
}

#[test]
fn the_writer_flushes_before_it_finishes() {
    let mut writer = Writer::new();
    writer.step(WriterEvent::Received(result(4)));
    assert_eq!(keys(&writer.step(WriterEvent::Closed)), vec![4]);
    assert!(matches!(writer.step(WriterEvent::WriteFailed), WriterAction::Finish));
    assert_eq!(writer.completed(), 0);
    let mut idle = Writer::new();
    assert!(matches!(idle.step(WriterEvent::Closed), WriterAction::Finish));
}

#[test]
fn the_loader_hands_items_over_one_by_one() {
    let mut loader = Loader::new(2, None);
    assert!(matches!(loader.step(LoadEvent::Begin), LoadAction::Ask(2)));
    match loader.step(LoadEvent::Staged(vec![item(1), item(2)])) {
        LoadAction::Deliver(i) => assert_eq!(i.db_id, 1),
        _ => panic!("no item"),
    }
    match loader.step(LoadEvent::Delivered) {
        LoadAction::Deliver(i) => assert_eq!(i.db_id, 2),
        _ => panic!("no item"),
    }
    assert!(matches!(loader.step(LoadEvent::Delivered), LoadAction::Ask(2)));
    assert_eq!(loader.loaded(), 2);
    assert!(matches!(loader.step(LoadEvent::Staged(vec![])), LoadAction::Stop));
}

#[test]
fn the_loader_keeps_to_the_limit() {
    let mut loader = Loader::new(2, Some(3));
    assert!(matches!(loader.step(LoadEvent::Begin), LoadAction::Ask(2)));
    loader.step(LoadEvent::Staged(vec![item(1), item(2)]));
    loader.step(LoadEvent::Delivered);
    assert!(matches!(loader.step(LoadEvent::Delivered), LoadAction::Ask(1)));
    loader.step(LoadEvent::Staged(vec![item(3)]));
    assert!(matches!(loader.step(LoadEvent::Delivered), LoadAction::Stop));
    assert_eq!(loader.loaded(), 3);
    let mut unbounded = Loader::new(-1, Some(4));
    assert!(matches!(unbounded.step(LoadEvent::Begin), LoadAction::Ask(4)));
    let mut nothing = Loader::new(2, Some(0));
    assert!(matches!(nothing.step(LoadEvent::Begin), LoadAction::Stop));
}

#[test]
fn the_loader_stops_when_something_is_gone() {
    for event in [LoadEvent::StageFailed, LoadEvent::WriterGone] {
        let mut loader = Loader::new(2, None);
        loader.step(LoadEvent::Begin);
        assert!(matches!(loader.step(event), LoadAction::Stop));
    }
    let mut loader = Loader::new(2, None);
    loader.step(LoadEvent::Begin);
    loader.step(LoadEvent::Staged(vec![item(1)]));
    assert!(matches!(loader.step(LoadEvent::SendersGone), LoadAction::Stop));
    assert_eq!(loader.loaded(), 0);
}

// Plays the reading task over what the input yields. Takes `room` lines at most.
fn read(input: Vec<ReadEvent>, room: usize) -> (Vec<String>, Result<(), String>) {
    let mut input = input.into_iter();
    let mut received = Vec::new();
    let mut action = ReadAction::Read;
    loop {
        let event = match action {
            ReadAction::Read => input.next().unwrap(),
            ReadAction::Send(line) => {
                if received.len() < room {
                    received.push(line);
                    ReadEvent::Sent
                } else {
                    ReadEvent::ReceiverGone
                }
            }
            ReadAction::Finish => return (received, Ok(())),
            ReadAction::Fail(reason) => return (received, Err(reason)),
        };
        action = next_read(event);
    }
}

fn line(s: &str) -> ReadEvent {
    ReadEvent::Line(s.to_string())
}

#[test]
fn reads_all_lines() {
    let input = vec![line("first line"), line("second line"), line("third"), ReadEvent::End];
    let (received, outcome) = read(input, 10);
    assert_eq!(
        received,
        vec!["first line".to_string(), "second line".to_string(), "third".to_string()]
    );
    assert!(outcome.is_ok());
}

#[test]
fn handles_empty_input() {
    let (received, outcome) = read(vec![ReadEvent::End], 1);
    assert!(received.is_empty());
    assert!(outcome.is_ok());
}

#[test]
fn propagates_io_error() {
    let input = vec![line("first line"), ReadEvent::Failed("mock error".to_string())];
    let (received, outcome) = read(input, 10);
    assert_eq!(received, vec!["first line".to_string()]);
    assert_eq!(outcome, Err("mock error".to_string()));
}

#[test]
fn aborts_on_receiver_drop() {
    let input = vec![line("line1"), line("line2"), ReadEvent::End];
    let (received, outcome) = read(input, 0);
    assert!(received.is_empty());
    assert!(outcome.is_ok());
}

fn message(n: usize) -> ReceivedMessage {
    ReceivedMessage {
        message_id: Some(format!("id-{}", n)),
        receipt_handle: Some(format!("handle-{}", n)),
        md5_of_body: Some(format!("digest-{}", n)),
        body: Some(format!("Test message {}", n)),
        md5_of_message_attributes: None,
    }
}

#[test]
fn poll_queue() {
    let client =
        DeadLetterQueue::from_config(AwsSettings { endpoint: None, test_credentials: true });
    let (mut poller, request) = client.poll("http://localhost:4566/000000000000/test-queue");
    assert_eq!(request.queue_url, "http://localhost:4566/000000000000/test-queue");
    assert_eq!(request.max_number_of_messages, 10);
    assert_eq!(request.visibility_timeout, 15);
    assert!(matches!(request.system_attributes, SystemAttributes::All));
    let replies = vec![
        Some((0..10).map(message).collect::<Vec<_>>()),
        Some(vec![message(10)]),
        None,
    ];
    let mut shown = Vec::new();
    let mut again = true;
    for reply in replies {
        assert!(again);
        let step = poller.step(reply);
        shown.extend(step.show.into_iter().map(|m| m.body));
        again = step.again;
    }
    assert!(!again);
    let expected: Vec<String> = (0..11).map(|n| format!("Test message {}", n)).collect();
    assert_eq!(shown, expected);
}

#[test]
fn a_poll_receives_ten_times_at_most() {
    let mut poller = Poller::new();
    for n in 1..=10 {
        let step = poller.step(Some(vec![message(n)]));
        assert_eq!(step.show.len(), 1);
        assert_eq!(step.again, n < 10);
    }
}

#[test]
fn a_poll_ends_with_an_empty_reply() {
    assert!(!Poller::new().step(Some(vec![])).again);
    assert!(!Poller::new().step(None).again);
}

#[test]
fn messages_before_an_incomplete_one_are_shown() {
    let mut incomplete = message(3);
    incomplete.body = None;
    let mut poller = Poller::new();
    let step = poller.step(Some(vec![message(1), message(2), incomplete, message(4)]));
    let shown: Vec<&str> = step.show.iter().map(|m| m.body.as_str()).collect();
    assert_eq!(shown, vec!["Test message 1", "Test message 2"]);
    assert_eq!(step.fault, Some("missing body"));
    assert!(!step.again);
    assert_eq!(Poller::new().step(Some(vec![message(1)])).fault, None);
}

#[test]
fn requests_for_messages_keep_what_went_wrong() {
    assert_eq!(receive("url").queue_url, "url");
    assert_eq!(receive_outcome::<u32, &str>(Ok(7)).unwrap(), 7);
    let e = receive_outcome::<u32, &str>(Err("refused")).unwrap_err();
    assert_eq!(e.message, "failed to receive messages");
    assert_eq!(e.source, "refused");
}

#[test]
fn messages_are_taken_over() {
    let mut received = message(1);
    received.md5_of_message_attributes = Some("attributes".to_string());
    assert!(received.missing().is_none());
    let shown = MessageModel::from_aws_message(received);
    assert_eq!(shown.message_id, "id-1");
    assert_eq!(shown.receipt_handle, "handle-1");
    assert_eq!(shown.md5_of_body, "digest-1");
    assert_eq!(shown.body, "Test message 1");
    assert_eq!(shown.md5_of_message_attributes.as_deref(), Some("attributes"));
    assert!(shown.attributes.is_none());
    assert!(shown.message_attributes.is_none());
    assert_eq!(format!("{:?}", shown.clone()), format!("{:?}", shown));
}

#[test]
fn incomplete_messages_are_told() {
    let mut m = message(1);
    m.body = None;
    assert_eq!(m.missing(), Some("missing body"));
    m.md5_of_body = None;
    assert_eq!(m.missing(), Some("missing md5_of_body"));
    m.receipt_handle = None;
    assert_eq!(m.missing(), Some("missing receipt_handle"));
    m.message_id = None;
    assert_eq!(m.missing(), Some("missing message_id"));
}
