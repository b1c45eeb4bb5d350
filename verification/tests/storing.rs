use dlq::database::{
    default_input_type, Claim, Closing, CompletionResult, Database, JobConfiguration, JobItemModel,
    CLOSE_JOB, COMPLETE_DONE, COMPLETE_FAILED, RECORD_RETRY, RESET_ITEM,
};
use dlq::ids::IdSource;
use dlq::json::Json;
use dlq::loading::{make_seed, LineLoader};
use dlq::settle::{needs_count, settle};
use dlq::statement::{write_placeholders, SqlValue, Statement};
use dlq::worker::{
    collect_results, prepare_batch, FailedEntry, JobItem, SendReply, SendResult, SentEntry,
};

fn binds(s: &Statement) -> Vec<String> {
    s.binds
        .iter()
        .map(|b| match b {
            SqlValue::Null => "NULL".to_string(),
            SqlValue::Int(n) => n.to_string(),
            SqlValue::Text(t) => t.clone(),
        })
        .collect()
}

#[test]
fn jobs_are_created_with_a_configuration() {
    assert_eq!(default_input_type(), "text");
    assert_eq!(JobConfiguration::default().clone().input_type, "text");
    let s = Database::create_job("send_batch");
    assert_eq!(s.sql, "INSERT INTO jobs (name, configuration) VALUES ($1, $2) RETURNING id");
    assert_eq!(binds(&s), vec!["send_batch", "{\"input_type\":\"text\"}"]);
    let config = JobConfiguration { input_type: "json".to_string() };
    let s = Database::create_job_with_config("j", &config);
    assert_eq!(binds(&s), vec!["j", "{\"input_type\":\"json\"}"]);
}

#[test]
fn queries_are_bound_to_their_keys() {
    assert!(binds(&Database::list_jobs()).is_empty());
    assert_eq!(binds(&Database::get_job(3)), vec!["3"]);
    assert_eq!(binds(&Database::count_pending_items(4)), vec!["4"]);
    assert_eq!(binds(&Database::check_job_status(5)), vec!["5"]);
    assert_eq!(binds(&Database::count_open_items(6)), vec!["6"]);
    assert_eq!(binds(&Database::get_retry_count(7)), vec!["7"]);
    assert_eq!(binds(&Database::reset_processing_items(8)), vec!["8"]);
    assert_eq!(binds(&Database::preview_pending_items(1, 9)), vec!["1", "9"]);
    assert_eq!(Database::schema().len(), 6);
    assert!(Database::schema()[1].sql.contains("'pending', 'processing', 'done', 'failed'"));
}

#[test]
fn items_are_inserted_as_pending() {
    assert!(Database::insert_job_items_batch(1, &vec![]).is_none());
    let items = vec![Json::Text("a".to_string()), Json::Unsigned(2)];
    let s = Database::insert_job_items_batch(7, &items).unwrap();
    assert_eq!(
        s.sql,
        "INSERT INTO job_items (job_id, input, status) VALUES (?, ?, ?), (?, ?, ?)"
    );
    assert_eq!(binds(&s), vec!["7", "\"a\"", "pending", "7", "2", "pending"]);
}

#[test]
fn items_are_enqueued_in_batches() {
    let items: Vec<JobItemModel> = (0..2001)
        .map(|n| JobItemModel {
            id: 0,
            job_id: 0,
            input: Json::Unsigned(n),
            output: None,
            error: None,
        })
        .collect();
    let statements = Database::enqueue_job_items(5, items);
    assert_eq!(statements.len(), 3);
    assert_eq!(statements[0].binds.len(), 3000);
    assert_eq!(binds(&statements[1])[..3], ["5", "1000", "pending"]);
    assert_eq!(binds(&statements[2]), vec!["5", "2000", "pending"]);
    assert!(Database::enqueue_job_items(5, vec![]).is_empty());
}

#[test]
fn items_are_claimed_by_key() {
    let s = Database::stage_pending_items(Some(4), 10);
    assert_eq!(binds(&s), vec!["4", "10"]);
    assert!(s.sql.contains("WHERE job_id = $1 AND status = 'pending' ORDER BY id LIMIT $2"));
    let s = Database::stage_pending_items(None, 10);
    assert_eq!(binds(&s), vec!["10"]);
    assert!(s.sql.contains("WHERE status = 'pending' ORDER BY id LIMIT $1"));
    assert!(matches!(Database::claim_items(&vec![]), Claim::Nothing));
    match Database::claim_items(&vec![3, 1, 2]) {
        Claim::Take { mark, fetch } => {
            assert_eq!(
                mark.sql,
                "UPDATE job_items SET status = 'processing', updated_at = CURRENT_TIMESTAMP WHERE id IN (?,?,?)"
            );
            assert_eq!(fetch.sql, "SELECT id, input FROM job_items WHERE id IN (?,?,?)");
            assert_eq!(binds(&mark), vec!["3", "1", "2"]);
            assert_eq!(binds(&fetch), vec!["3", "1", "2"]);
        }
        Claim::Nothing => panic!("nothing claimed"),
    }
    assert_eq!(write_placeholders(0), "");
    assert_eq!(write_placeholders(1), "?");
}

#[test]
fn items_are_completed() {
    let s = Database::complete_item(9, &Some(Json::Bool(true)), &None);
    assert_eq!(binds(&s), vec!["true", "done", "NULL", "9"]);
    let s = Database::complete_item(9, &None, &Some("bad".to_string()));
    assert_eq!(binds(&s), vec!["NULL", "failed", "bad", "9"]);
}

fn completion(id: i64, success: bool) -> CompletionResult {
    CompletionResult {
        id,
        output: Some(Json::Unsigned(1)),
        error: if success { None } else { Some("bad".to_string()) },
        success,
    }
}

#[test]
fn successes_are_completed_before_failures() {
    let results = vec![completion(1, false), completion(2, true), completion(3, false)];
    let statements = Database::complete_items_batch(&results);
    assert_eq!(statements.len(), 3);
    assert_eq!(statements[0].sql, COMPLETE_DONE);
    assert_eq!(binds(&statements[0]), vec!["1", "2"]);
    assert_eq!(statements[1].sql, COMPLETE_FAILED);
    assert_eq!(binds(&statements[1]), vec!["1", "bad", "1"]);
    assert_eq!(binds(&statements[2]), vec!["1", "bad", "3"]);
    assert!(Database::complete_items_batch(&vec![]).is_empty());
}

#[test]
fn a_job_is_closed_when_nothing_is_open() {
    assert!(matches!(Database::check_and_close_job(1, 4), Closing::Open(4)));
    match Database::check_and_close_job(1, 0) {
        Closing::Close(s) => {
            assert_eq!(s.sql, CLOSE_JOB);
            assert_eq!(binds(&s), vec!["1"]);
        }
        Closing::Open(_) => panic!("still open"),
    }
}

fn sent(db_id: i64, success: bool) -> SendResult {
    SendResult {
        db_id,
        success,
        output: Some(Json::Unsigned(7)),
        error: Some("why".to_string()),
        batch_id: "batch".to_string(),
    }
}

#[test]
fn failures_are_retried_up_to_the_limit() {
    let results = vec![sent(1, true), sent(2, false), sent(3, false)];
    let settlement = settle(results, &vec![0, 0, 2], 2);
    assert_eq!(settlement.completions.len(), 2);
    assert_eq!(settlement.completions[0].id, 1);
    assert!(settlement.completions[0].error.is_none());
    assert_eq!(settlement.completions[1].id, 3);
    assert_eq!(settlement.completions[1].error.as_deref(), Some("why"));
    assert_eq!(settlement.retries.len(), 1);
    assert_eq!(settlement.retries[0].item_id, 2);
    assert_eq!(settlement.retries[0].attempt_number, 1);
    let statements = settlement.statements();
    assert_eq!(statements.len(), 4);
    assert_eq!(statements[0].sql, COMPLETE_DONE);
    assert_eq!(statements[1].sql, COMPLETE_FAILED);
    assert_eq!(statements[2].sql, RECORD_RETRY);
    assert_eq!(binds(&statements[2]), vec!["2", "1", "why", "7", "batch", "NULL"]);
    assert_eq!(statements[3].sql, RESET_ITEM);
    assert_eq!(binds(&statements[3]), vec!["2"]);
}

#[test]
fn every_item_of_a_batch_is_settled_once() {
    let items: Vec<JobItem> = (1..=3)
        .map(|db_id| JobItem { db_id, input: Json::Text("m".to_string()) })
        .collect();
    let batch = prepare_batch(&items, "text", &mut IdSource::new());
    let reply = SendReply::Answered {
        successful: vec![SentEntry {
            id: batch.entries[1].id.clone(),
            message_id: "m".to_string(),
            md5_of_message_body: "d".to_string(),
            sequence_number: None,
        }],
        failed: [2, 0]
            .iter()
            .map(|i: &usize| FailedEntry {
                id: batch.entries[*i].id.clone(),
                code: "Busy".to_string(),
                message: Some("later".to_string()),
                sender_fault: false,
            })
            .collect(),
    };
    let settlement = settle(collect_results(&batch, &reply, "b"), &vec![0, 0, 1], 1);
    let ended: Vec<i64> = settlement.completions.iter().map(|c| c.id).collect();
    let again: Vec<i64> = settlement.retries.iter().map(|r| r.item_id).collect();
    assert_eq!(ended, vec![2, 1]);
    assert_eq!(again, vec![3]);
    assert_eq!(settlement.retries[0].error.as_deref(), Some("Busy: later"));
}

#[test]
fn nothing_is_retried_without_a_limit() {
    let settlement = settle(vec![sent(1, false), sent(2, true)], &vec![0, 0], 0);
    assert!(settlement.retries.is_empty());
    assert_eq!(settlement.completions.len(), 2);
}

#[test]
fn counts_are_asked_for_where_they_matter() {
    assert!(needs_count(&sent(1, false), 1));
    assert!(!needs_count(&sent(1, false), 0));
    assert!(!needs_count(&sent(1, true), 5));
    let with = |count: i32| settle(vec![sent(1, true), sent(2, false)], &vec![count, 0], 1);
    assert_eq!(format!("{:?}", with(0)), format!("{:?}", with(7)));
}

#[test]
fn an_item_that_keeps_failing_is_tried_as_often_as_allowed() {
    let mut count = 0;
    let mut tries = 0;
    loop {
        tries += 1;
        let settlement = settle(vec![sent(1, false)], &vec![count], 3);
        match settlement.retries.first() {
            Some(retry) => count = retry.attempt_number,
            None => break,
        }
    }
    assert_eq!(tries, 4);
    assert!(settle(vec![sent(1, false)], &vec![i32::MAX], u32::MAX).retries.is_empty());
}

#[test]
fn every_line_that_is_not_blank_is_loaded() {
    let mut loader = LineLoader::new();
    let mut batches = Vec::new();
    for n in 0..1003 {
        if let Some(batch) = loader.line(format!("line {}", n)) {
            batches.push(batch);
        }
        assert!(loader.line("  \t".to_string()).is_none());
    }
    assert_eq!(loader.count(), 1003);
    assert_eq!(batches.len(), 1);
    assert_eq!(batches[0].len(), 1000);
    assert!(matches!(&batches[0][999], Json::Text(t) if t == "line 999"));
    let rest = loader.finish();
    assert_eq!(rest.len(), 3);
    assert!(matches!(&rest[0], Json::Text(t) if t == "line 1000"));
    assert!(LineLoader::new().finish().is_empty());
}

#[test]
fn lines_are_kept_as_they_stand() {
    let mut loader = LineLoader::new();
    loader.line(" {\"a\": 1} ".to_string());
    assert!(matches!(&loader.finish()[0], Json::Text(t) if t == " {\"a\": 1} "));
}

#[test]
fn seeds_are_numbered_from_zero() {
    assert_eq!(make_seed(12).to_text(), "{\"data\":\"item_12\",\"index\":12}");
    let (end, s) = Database::preload_db(3, 0, 20001).unwrap();
    assert_eq!(end, 10000);
    assert_eq!(s.binds.len(), 30000);
    assert_eq!(
        binds(&s)[3..6],
        ["3", "{\"data\":\"item_1\",\"index\":1}", "pending"]
    );
    let (end, _) = Database::preload_db(3, end, 20001).unwrap();
    assert_eq!(end, 20000);
    let (end, s) = Database::preload_db(3, end, 20001).unwrap();
    assert_eq!(end, 20001);
    assert_eq!(binds(&s), vec!["3", "{\"data\":\"item_20000\",\"index\":20000}", "pending"]);
    assert!(Database::preload_db(3, end, 20001).is_none());
    assert!(Database::preload_db(3, 0, 0).is_none());
}

#[test]
fn statements_run_on_a_database() {
    let runtime = tokio::runtime::Builder::new_current_thread().enable_all().build().unwrap();
    runtime.block_on(async {
        let pool = sqlx::sqlite::SqlitePoolOptions::new()
            .max_connections(1)
            .connect("sqlite::memory:")
            .await
            .unwrap();
        let mut script = Database::schema();
        script.push(Database::create_job("send_batch"));
        let inputs = vec![Json::Text("a".to_string()), Json::Text("b".to_string())];
        script.push(Database::insert_job_items_batch(1, &inputs).unwrap());
        match Database::claim_items(&vec![1, 2]) {
            Claim::Take { mark, .. } => script.push(mark),
            Claim::Nothing => panic!("nothing claimed"),
        }
        script.extend(settle(vec![sent(1, true), sent(2, false)], &vec![0, 0], 1).statements());
        for s in &script {
            let mut query = sqlx::query(&s.sql);
            for b in &s.binds {
                query = match b {
                    SqlValue::Null => query.bind(None::<String>),
                    SqlValue::Int(n) => query.bind(*n),
                    SqlValue::Text(t) => query.bind(t.as_str()),
                };
            }
            query.execute(&pool).await.unwrap();
        }
        let rows: Vec<(i64, String, String)> =
            sqlx::query_as("SELECT id, status, input FROM job_items ORDER BY id")
                .fetch_all(&pool)
                .await
                .unwrap();
        assert_eq!(rows[0], (1, "done".to_string(), "\"a\"".to_string()));
        assert_eq!(rows[1], (2, "pending".to_string(), "\"b\"".to_string()));
        let (count,): (i64,) = sqlx::query_as(
            &Database::get_retry_count(2).sql,
        )
        .bind(2)
        .fetch_one(&pool)
        .await
        .unwrap();
        assert_eq!(count, 1);
        let (open,): (i64,) = sqlx::query_as(&Database::count_open_items(1).sql)
            .bind(1)
            .fetch_one(&pool)
            .await
            .unwrap();
        assert_eq!(open, 1);
    });
}
