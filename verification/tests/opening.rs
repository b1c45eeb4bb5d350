use dlq::database::{JobConfiguration, JobModel};
use dlq::failure::SdkFailure;
use dlq::opening::{next_opening, Opening, OpeningAction, OpeningEvent, SendRequest};

fn request(limit: Option<i64>, dry_run: bool) -> SendRequest {
    SendRequest {
        job_id: 4,
        queue_url: "http://h/x".to_string(),
        stage_size: None,
        limit,
        dry_run,
    }
}

fn job(name: &str) -> OpeningEvent {
    OpeningEvent::JobLookedUp(Some(JobModel {
        id: 4,
        name: name.to_string(),
        configuration: JobConfiguration { input_type: "json".to_string() },
        timestamp_start: 0,
        timestamp_end: None,
    }))
}

fn queue(failure: Option<SdkFailure>) -> OpeningEvent {
    OpeningEvent::QueueChecked { failure, account: "account".to_string() }
}

fn refused(action: OpeningAction) -> String {
    match action {
        OpeningAction::Refuse(message) => message,
        _ => panic!("not refused"),
    }
}

#[test]
fn a_job_that_cannot_be_sent_is_refused_first() {
    let r = request(None, false);
    let (state, action) = next_opening(&r, Opening::Job, OpeningEvent::JobLookedUp(None));
    assert!(matches!(state, Opening::Over));
    assert_eq!(refused(action), "Job 4 not found");
    let (state, action) = next_opening(&r, Opening::Job, job("other"));
    assert!(matches!(state, Opening::Over));
    assert_eq!(refused(action), "Job 4 has name 'other', expected 'send_batch'");
}

#[test]
fn a_missing_queue_is_refused_with_those_that_are_there() {
    let r = request(None, false);
    let missing = SdkFailure::ServiceError {
        message: "NonExistentQueue".to_string(),
        status_code: 400,
        request_id: None,
    };
    let (state, action) = next_opening(&r, Opening::Queue, queue(Some(missing)));
    assert!(matches!(state, Opening::Listing));
    assert!(matches!(action, OpeningAction::ListQueues));
    let listed = OpeningEvent::QueuesListed(vec!["http://h/a".to_string()]);
    let (state, action) = next_opening(&r, state, listed);
    assert!(matches!(state, Opening::Over));
    let message = refused(action);
    assert!(message.starts_with("Queue not found: http://h/x\n\nAvailable queues:\n  1. a "));
    let slow = SdkFailure::TimeoutError { debug: "slow".to_string() };
    let (_, action) = next_opening(&r, Opening::Queue, queue(Some(slow)));
    assert_eq!(refused(action), "Failed to verify queue: account");
}

#[test]
fn items_are_sent_after_all_checks() {
    let r = request(Some(100), false);
    let (state, action) = next_opening(&r, Opening::Job, job("send_batch"));
    assert!(matches!(action, OpeningAction::CheckQueue { input_type } if input_type == "json"));
    let (state, action) = next_opening(&r, state, queue(None));
    assert!(matches!(action, OpeningAction::CountPending));
    let (state, action) = next_opening(&r, state, OpeningEvent::Counted(7));
    assert!(matches!(state, Opening::Over));
    match action {
        OpeningAction::Send { plan, wanted } => {
            assert_eq!((plan.to_send, plan.stage_size, wanted), (7, 7, Some(7)));
        }
        _ => panic!("nothing is sent"),
    }
    let (_, action) =
        next_opening(&request(None, false), Opening::Count, OpeningEvent::Counted(0));
    assert!(matches!(
        action,
        OpeningAction::Stop(m) if m == "No pending items to process for job 4"
    ));
}

#[test]
fn a_dry_run_is_opened_with_a_preview() {
    let r = request(Some(3), true);
    let (_, action) = next_opening(&r, Opening::Count, OpeningEvent::Counted(7));
    assert!(matches!(action, OpeningAction::Preview(3)));
}
