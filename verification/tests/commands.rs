use dlq::cli::{Cli, Commands, DatabaseCommands, DatabaseStart, JobCommands};
use dlq::database::{JobConfiguration, JobModel};
use dlq::failure::SdkFailure;
use dlq::json::Json;
use dlq::plan::{
    capped_batch_size, channel_capacity, check_job, closing_line, next_pass, nothing_pending,
    opening_line, plan_run, preview, start_run, RunPlan, RunStart,
};
use dlq::queues::{
    missing_queue_message, render_queues, verify_queue_exists, QueueCheck, QueueListing, QueuePage,
};
use dlq::report::{
    cleanup_database, deleted_line, job_line_with, loaded_line, preloaded_line, reset_line,
    write_job_line, write_status,
};
use dlq::settings::{effective_region, load_aws_config, poll_url, SqsBatch};
use dlq::worker::JobItem;

const DEMO: &str = "http://sqs.us-east-1.localhost.localstack.cloud:4566/000000000000/demo";

fn job(name: &str, timestamp_start: i64) -> JobModel {
    JobModel {
        id: 4,
        name: name.to_string(),
        configuration: JobConfiguration { input_type: "json".to_string() },
        timestamp_start,
        timestamp_end: None,
    }
}

#[test]
fn only_send_jobs_are_sent() {
    assert_eq!(check_job(9, None).unwrap_err(), "Job 9 not found");
    assert_eq!(
        check_job(9, Some(job("other", 0))).unwrap_err(),
        "Job 9 has name 'other', expected 'send_batch'"
    );
    assert_eq!(check_job(9, Some(job("send_batch", 0))).unwrap().id, 4);
}

#[test]
fn runs_are_planned() {
    assert!(plan_run(0, None, None).is_none());
    assert!(plan_run(5, None, Some(0)).is_none());
    assert!(plan_run(5, None, Some(-1)).is_none());
    let plan = plan_run(999, None, None).unwrap();
    assert_eq!((plan.to_send, plan.stage_size), (999, 999));
    let plan = plan_run(1000, None, None).unwrap();
    assert_eq!((plan.to_send, plan.stage_size), (1000, 1000));
    let plan = plan_run(5000, None, None).unwrap();
    assert_eq!((plan.to_send, plan.stage_size), (5000, 1000));
    let plan = plan_run(5000, Some(20), Some(100)).unwrap();
    assert_eq!((plan.to_send, plan.stage_size), (100, 20));
    let plan = plan_run(50, None, Some(100)).unwrap();
    assert_eq!((plan.to_send, plan.stage_size), (50, 50));
}

#[test]
fn batches_are_capped() {
    assert_eq!(capped_batch_size(0), 0);
    assert_eq!(capped_batch_size(9), 9);
    assert_eq!(capped_batch_size(10), 10);
    assert_eq!(capped_batch_size(500), 10);
}

#[test]
fn two_batches_can_wait_for_each_sender() {
    assert_eq!(channel_capacity(10, 5), Some(100));
    assert_eq!(channel_capacity(0, 5), None);
    assert_eq!(channel_capacity(10, 0), None);
    assert_eq!(channel_capacity(10, usize::MAX), None);
    assert_eq!(channel_capacity(1, usize::MAX), None);
}

#[test]
fn items_that_were_put_back_get_another_pass() {
    assert_eq!(next_pass(None, 0), None);
    assert_eq!(next_pass(None, 3), Some(None));
    assert_eq!(next_pass(Some(100), 3), Some(Some(3)));
    assert_eq!(next_pass(Some(100), 0), None);
    assert_eq!(next_pass(Some(100), u64::MAX), Some(Some(i64::MAX)));
}

#[test]
fn runs_are_announced_and_summed_up() {
    let plan = RunPlan { to_send: 7, stage_size: 3 };
    assert_eq!(
        opening_line(2, &plan, 10, 5),
        "Processing job 2 (7 pending items, stage_size=3, batch_size=10, concurrency=5)\n"
    );
    assert_eq!(nothing_pending(2), "No pending items to process for job 2");
    assert_eq!(closing_line(2, None), "✓ Job 2 completed successfully");
    assert_eq!(closing_line(2, Some(3)), "Job 2 still has 3 items pending/processing");
}

#[test]
fn a_dry_run_never_sends() {
    let plan = RunPlan { to_send: 7, stage_size: 3 };
    for limit in [None, Some(7), Some(100)] {
        assert!(matches!(start_run(&plan, limit, true), RunStart::Preview(7)));
    }
    assert!(matches!(start_run(&plan, None, false), RunStart::Send(None)));
    assert!(matches!(start_run(&plan, Some(100), false), RunStart::Send(Some(7))));
}

#[test]
fn a_dry_run_shows_the_messages() {
    let items = vec![
        JobItem { db_id: 5, input: Json::Text("hi".to_string()) },
        JobItem { db_id: 6, input: Json::Unsigned(1) },
    ];
    assert_eq!(
        preview(2, "url", &items, "text"),
        "Dry run: 2 items of job 2 would be sent to url\n  #5: hi\n  #6: 1\n"
    );
}

#[test]
fn endpoints_are_chosen() {
    let custom = Some("http://custom:1".to_string());
    assert_eq!(load_aws_config(false, &None).endpoint, None);
    assert!(!load_aws_config(false, &None).test_credentials);
    assert_eq!(load_aws_config(true, &None).endpoint.as_deref(), Some("http://localhost:4566"));
    assert!(load_aws_config(true, &None).test_credentials);
    assert_eq!(load_aws_config(true, &custom).endpoint, custom);
    assert_eq!(load_aws_config(false, &custom).endpoint, custom);

    assert_eq!(load_aws_config(true, &custom).clone().endpoint, custom);

    let env = Some("http://env:2".to_string());
    let batch = SqsBatch::local(DEMO, &custom, &env);
    assert_eq!(batch.aws_sqs_queue_url, DEMO);
    assert_eq!(batch.aws_config.endpoint, custom);
    assert!(batch.aws_config.test_credentials);
    assert_eq!(SqsBatch::local(DEMO, &None, &env).aws_config.endpoint, env);
    assert_eq!(
        SqsBatch::local(DEMO, &None, &None).aws_config.endpoint.as_deref(),
        Some("http://localhost:4566")
    );
    assert_eq!(poll_url(custom.clone(), env.clone()), custom);
    assert_eq!(poll_url(None, env.clone()), env);
    assert_eq!(poll_url(None, None), None);
}

#[test]
fn list_queues() {
    let url = "http://sqs.us-east-1.localhost.localstack.cloud:4566/000000000000/test-queue";
    let text = render_queues(&vec![url.to_string(), DEMO.to_string()]);
    assert!(text.contains(url));
    assert!(text.contains("│ 1. test-queue\n│    http"));
    assert!(text.contains("│\n│ 2. demo\n│    http"));
    assert!(text.contains("/demo\n└─"));
    assert!(text.ends_with("┘\n\nTotal: 2 queue(s)\n"));
    let none = render_queues(&vec![]);
    assert!(none.starts_with("No queues found.\n\nTo create a new queue, use the AWS CLI:\n  aws sqs"));
    assert!(none.contains("Or with LocalStack:\n  aws --endpoint-url=http://localhost:4566 sqs"));
}

#[test]
fn all_pages_are_listed() {
    let mut listing = QueueListing::new();
    let next = listing.page(QueuePage {
        queue_urls: Some(vec!["a".to_string(), "b".to_string()]),
        next_token: Some("t".to_string()),
    });
    assert_eq!(next.as_deref(), Some("t"));
    let next = listing.page(QueuePage { queue_urls: None, next_token: Some("u".to_string()) });
    assert_eq!(next.as_deref(), Some("u"));
    let next = listing.page(QueuePage { queue_urls: Some(vec!["c".to_string()]), next_token: None });
    assert_eq!(next, None);
    assert_eq!(listing.finish(), vec!["a", "b", "c"]);
}

#[test]
fn queues_are_verified() {
    assert!(matches!(verify_queue_exists(&None, ""), QueueCheck::Exists));
    let missing = Some(SdkFailure::ServiceError {
        message: "QueueDoesNotExist".to_string(),
        status_code: 400,
        request_id: None,
    });
    assert!(matches!(verify_queue_exists(&missing, "x"), QueueCheck::Missing));
    let other = Some(SdkFailure::TimeoutError { debug: "slow".to_string() });
    match verify_queue_exists(&other, "TimeoutError(slow)") {
        QueueCheck::Failed(m) => assert_eq!(m, "Failed to verify queue: TimeoutError(slow)"),
        _ => panic!("not failed"),
    }
}

#[test]
fn missing_queues_come_with_suggestions() {
    assert_eq!(
        missing_queue_message("http://h/x", &vec!["http://h/1/a".to_string(), "http://h/1/b".to_string()]),
        "Queue not found: http://h/x\n\nAvailable queues:\n  1. a \n     http://h/1/a\n  2. b \n     http://h/1/b\n\nTo create a new queue, use the AWS CLI:\n  aws sqs create-queue --queue-name <your-queue-name>"
    );
    assert_eq!(
        missing_queue_message("http://h/x", &vec![]),
        "Queue not found: http://h/x\n\nNo queues are currently available.\n\nTo create a new queue, you can use the AWS CLI:\n  aws sqs create-queue --queue-name <your-queue-name>\n\nOr with LocalStack:\n  aws --endpoint-url=http://localhost:4566 sqs create-queue --queue-name <your-queue-name>"
    );
}

#[test]
fn jobs_are_listed_with_their_start() {
    assert_eq!(job_line_with(&job("j", 0), "now"), "[now] j #4 (input_type: json)");
    assert_eq!(
        write_job_line(&job("j", 1431648000)).unwrap(),
        "[2015-05-15 00:00:00] j #4 (input_type: json)"
    );
    assert!(write_job_line(&job("j", i64::MAX)).is_none());
}

#[test]
fn the_status_of_a_job_is_shown() {
    let counts = vec![("done".to_string(), 3), ("pending".to_string(), 4)];
    assert_eq!(
        write_status(8, &counts).unwrap(),
        "Job ID: 8\nTotal Items: 7\n\ndone: 3\npending: 4\n"
    );
    assert_eq!(write_status(8, &vec![]).unwrap(), "Job ID: 8\nTotal Items: 0\n\n");
    let huge = vec![("a".to_string(), i64::MAX), ("b".to_string(), 1)];
    assert!(write_status(8, &huge).is_none());
}

#[test]
fn commands_report_what_they_did() {
    assert_eq!(loaded_line(3, "j", 12), "✓ Created job #3 'j' with 12 items");
    assert_eq!(reset_line(5), "✓ Reset 5 items from 'processing' to 'pending'");
    assert_eq!(preloaded_line(3, 10, true), "✓ Preloaded job 3 with 10 items");
    assert_eq!(preloaded_line(3, 10, false), "Preloaded job 3 with 10 items.");
    assert_eq!(cleanup_database("sqs"), vec!["sqs.db", "sqs.db-wal", "sqs.db-shm"]);
    assert_eq!(deleted_line("sqs.db"), "✓ Deleted sqs.db");
}

#[test]
fn job_commands_start_with_a_statement() {
    assert!(JobCommands::List.run().sql.starts_with("SELECT id, name"));
    assert!(JobCommands::Status { id: 1 }.run().sql.contains("GROUP BY status"));
    let load = JobCommands::Load { file: None, name: "j".to_string() };
    assert!(load.run().sql.starts_with("INSERT INTO jobs"));
    assert!(JobCommands::Reset { id: 1 }.run().sql.contains("status = 'processing'"));
}

#[test]
fn database_commands_start_with_a_statement_or_files() {
    let seed = DatabaseCommands::Seed { name: "j".to_string(), items: 2, progress: false };
    assert!(matches!(seed.run(), DatabaseStart::Run(s) if s.sql.starts_with("INSERT INTO jobs")));
    match DatabaseCommands::Clean.run() {
        DatabaseStart::Delete(files) => assert_eq!(files.len(), 3),
        DatabaseStart::Run(_) => panic!("nothing to delete"),
    }
}

#[test]
fn the_command_line_caps_batches() {
    let cli = Cli {
        local: true,
        endpoint: None,
        command: Commands::SendBatch {
            job_id: 1,
            queue_url: DEMO.to_string(),
            batch_size: 25,
            stage_size: None,
            concurrency: 5,
            retry_limit: 0,
            limit: Some(3),
            dry_run: true,
        },
    };
    let (settings, command) = cli.run();
    assert_eq!(settings.endpoint.as_deref(), Some("http://localhost:4566"));
    match command {
        Commands::SendBatch { batch_size, limit, dry_run, queue_url, .. } => {
            assert_eq!(batch_size, 10);
            assert_eq!(limit, Some(3));
            assert!(dry_run);
            assert_eq!(queue_url, DEMO);
        }
        _ => panic!("another command"),
    }
    let (settings, command) =
        Cli { local: false, endpoint: None, command: Commands::List }.run();
    assert!(settings.endpoint.is_none());
    assert!(matches!(command, Commands::List));
}

#[test]
fn a_region_that_is_configured_is_kept() {
    assert_eq!(effective_region(Some("us-west-2".to_string())), "us-west-2");
    assert_eq!(effective_region(Some(String::new())), "");
    assert_eq!(effective_region(None), "us-east-1");
}
