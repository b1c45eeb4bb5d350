use dlq::database::{Claim, Closing, CompletionResult, Database, JobConfiguration};
use dlq::json::Json;
use dlq::loader::{LoadAction, LoadEvent, Loader};
use dlq::settle::settle;
use dlq::statement::{SqlValue, Statement};
use dlq::worker::{JobItem, SendResult};
use sqlx::sqlite::SqlitePool;

fn on_a_database<F: std::future::Future<Output = ()>>(test: impl FnOnce(SqlitePool) -> F) {
    let runtime = tokio::runtime::Builder::new_current_thread().enable_all().build().unwrap();
    runtime.block_on(async {
        let pool = sqlx::sqlite::SqlitePoolOptions::new()
            .max_connections(1)
            .connect("sqlite::memory:")
            .await
            .unwrap();
        for s in Database::schema() {
            run(&pool, &s).await.unwrap();
        }
        test(pool).await;
    });
}

fn bound(s: &Statement) -> sqlx::query::Query<'_, sqlx::Sqlite, sqlx::sqlite::SqliteArguments<'_>> {
    let mut query = sqlx::query(&s.sql);
    for b in &s.binds {
        query = match b {
            SqlValue::Null => query.bind(None::<String>),
            SqlValue::Int(n) => query.bind(*n),
            SqlValue::Text(t) => query.bind(t.as_str()),
        };
    }
    query
}

async fn run(pool: &SqlitePool, s: &Statement) -> Result<u64, sqlx::Error> {
    Ok(bound(s).execute(pool).await?.rows_affected())
}

async fn number(pool: &SqlitePool, s: &Statement) -> i64 {
    let row = bound(s).fetch_one(pool).await.unwrap();
    sqlx::Row::get(&row, 0)
}

async fn keys(pool: &SqlitePool, s: &Statement) -> Vec<i64> {
    let rows = bound(s).fetch_all(pool).await.unwrap();
    rows.iter().map(|row| sqlx::Row::get(row, 0)).collect()
}

async fn statuses(pool: &SqlitePool) -> Vec<String> {
    let rows: Vec<(String,)> =
        sqlx::query_as("SELECT status FROM job_items ORDER BY id").fetch_all(pool).await.unwrap();
    rows.into_iter().map(|row| row.0).collect()
}

async fn job_with_items(pool: &SqlitePool, items: u64) -> i64 {
    let job = number(pool, &Database::create_job("send_batch")).await;
    let inputs: Vec<Json> = (0..items).map(|n| Json::Text(n.to_string())).collect();
    run(pool, &Database::insert_job_items_batch(job, &inputs).unwrap()).await.unwrap();
    job
}

async fn stage(pool: &SqlitePool, job: Option<i64>, limit: i64) -> Vec<i64> {
    let ids = keys(pool, &Database::stage_pending_items(job, limit)).await;
    if let Claim::Take { mark, .. } = Database::claim_items(&ids) {
        assert_eq!(run(pool, &mark).await.unwrap(), ids.len() as u64);
    }
    ids
}

#[test]
fn setting_up_again_keeps_the_rows() {
    on_a_database(|pool| async move {
        let job = job_with_items(&pool, 2).await;
        for s in Database::schema() {
            run(&pool, &s).await.unwrap();
        }
        assert_eq!(number(&pool, &Database::count_pending_items(job)).await, 2);
        assert_eq!(keys(&pool, &Database::list_jobs()).await, vec![job]);
    });
}

#[test]
fn statuses_outside_the_four_are_rejected() {
    on_a_database(|pool| async move {
        job_with_items(&pool, 1).await;
        let mut s = Database::complete_item(1, &None, &None);
        s.binds[1] = SqlValue::Text("lost".to_string());
        assert!(run(&pool, &s).await.is_err());
        assert_eq!(statuses(&pool).await, vec!["pending"]);
        s.binds[3] = SqlValue::Int(99);
        assert_eq!(run(&pool, &s).await.unwrap(), 0);
    });
}

#[test]
fn items_need_a_job_and_retries_an_item() {
    on_a_database(|pool| async move {
        let orphan = Database::insert_job_items_batch(5, &vec![Json::Null]).unwrap();
        assert!(run(&pool, &orphan).await.is_err());
        assert!(run(&pool, &Database::record_retry(5, 1, &None, &None, &None, &None))
            .await
            .is_err());
    });
}

#[test]
fn an_item_is_staged_once_between_resets() {
    on_a_database(|pool| async move {
        let job = job_with_items(&pool, 5).await;
        let first = stage(&pool, Some(job), 2).await;
        assert_eq!(first, vec![1, 2]);
        assert_eq!(number(&pool, &Database::count_pending_items(job)).await, 3);
        assert_eq!(stage(&pool, Some(job), 2).await, vec![3, 4]);
        run(&pool, &Database::reset_item_for_retry(1)).await.unwrap();
        assert_eq!(stage(&pool, None, -1).await, vec![1, 5]);
        assert!(stage(&pool, Some(job), 9).await.is_empty());
    });
}

#[test]
fn closing_a_job_twice_keeps_its_end() {
    on_a_database(|pool| async move {
        let job = job_with_items(&pool, 1).await;
        let open = number(&pool, &Database::count_open_items(job)).await;
        assert!(matches!(Database::check_and_close_job(job, open), Closing::Open(1)));
        let done = CompletionResult { id: 1, output: None, error: None, success: true };
        run(&pool, &Database::complete_items_batch(&vec![done])[0]).await.unwrap();
        let open = number(&pool, &Database::count_open_items(job)).await;
        match Database::check_and_close_job(job, open) {
            Closing::Close(s) => {
                assert_eq!(run(&pool, &s).await.unwrap(), 1);
                assert_eq!(run(&pool, &s).await.unwrap(), 0);
            }
            Closing::Open(_) => panic!("still open"),
        }
    });
}

#[test]
fn created_jobs_are_read_back() {
    on_a_database(|pool| async move {
        let config = JobConfiguration { input_type: "json".to_string() };
        let first = number(&pool, &Database::create_job("a")).await;
        let second = number(&pool, &Database::create_job_with_config("b", &config)).await;
        assert!(second > first);
        let s = Database::get_job(second);
        let row = bound(&s).fetch_one(&pool).await.unwrap();
        let name: String = sqlx::Row::get(&row, "name");
        let configuration: String = sqlx::Row::get(&row, "configuration");
        let end: Option<String> = sqlx::Row::get(&row, "timestamp_end");
        assert_eq!((name.as_str(), configuration.as_str()), ("b", "{\"input_type\":\"json\"}"));
        assert!(end.is_none());
        assert!(bound(&Database::get_job(77)).fetch_optional(&pool).await.unwrap().is_none());
    });
}

#[test]
fn the_retry_count_is_the_largest_attempt() {
    on_a_database(|pool| async move {
        job_with_items(&pool, 2).await;
        assert_eq!(number(&pool, &Database::get_retry_count(1)).await, 0);
        for (item, attempt) in [(1, 1), (1, 3), (2, 9), (1, 2)] {
            let s = Database::record_retry(item, attempt, &None, &None, &None, &None);
            run(&pool, &s).await.unwrap();
        }
        assert_eq!(number(&pool, &Database::get_retry_count(1)).await, 3);
        assert_eq!(number(&pool, &Database::get_retry_count(2)).await, 9);
    });
}

#[test]
fn a_second_reset_finds_nothing() {
    on_a_database(|pool| async move {
        let job = job_with_items(&pool, 3).await;
        let other = job_with_items(&pool, 1).await;
        stage(&pool, Some(job), 2).await;
        stage(&pool, Some(other), 1).await;
        assert_eq!(run(&pool, &Database::reset_processing_items(job)).await.unwrap(), 2);
        assert_eq!(number(&pool, &Database::count_pending_items(job)).await, 3);
        assert_eq!(run(&pool, &Database::reset_processing_items(job)).await.unwrap(), 0);
        assert_eq!(statuses(&pool).await, vec!["pending", "pending", "pending", "processing"]);
    });
}

#[test]
fn completed_items_end_as_their_results_say() {
    on_a_database(|pool| async move {
        job_with_items(&pool, 3).await;
        let results = vec![
            CompletionResult {
                id: 2,
                output: None,
                error: Some("bad".to_string()),
                success: false,
            },
            CompletionResult { id: 1, output: Some(Json::Bool(true)), error: None, success: true },
        ];
        for s in Database::complete_items_batch(&results) {
            run(&pool, &s).await.unwrap();
        }
        assert_eq!(statuses(&pool).await, vec!["done", "failed", "pending"]);
    });
}

async fn rows(pool: &SqlitePool, s: &Statement) -> Vec<(i64, String)> {
    let rows = bound(s).fetch_all(pool).await.unwrap();
    rows.iter().map(|row| (sqlx::Row::get(row, 0), sqlx::Row::get(row, 1))).collect()
}

async fn status_counts(pool: &SqlitePool, job: i64) -> Vec<(String, i64)> {
    let s = Database::check_job_status(job);
    let rows = bound(&s).fetch_all(pool).await.unwrap();
    let mut counts: Vec<(String, i64)> =
        rows.iter().map(|row| (sqlx::Row::get(row, 0), sqlx::Row::get(row, 1))).collect();
    counts.sort();
    counts
}

fn result(db_id: i64, success: bool) -> SendResult {
    SendResult {
        db_id,
        success,
        output: None,
        error: if success { None } else { Some("refused".to_string()) },
        batch_id: "batch".to_string(),
    }
}

async fn write(pool: &SqlitePool, results: Vec<SendResult>, counts: Vec<i32>, limit: u32) {
    for s in settle(results, &counts, limit).statements() {
        run(pool, &s).await.unwrap();
    }
}

async fn send_in_rounds(
    pool: &SqlitePool,
    job: i64,
    stage_size: i64,
    limit: Option<i64>,
) -> (Vec<Vec<i64>>, Vec<i64>) {
    let mut loader = Loader::new(stage_size, limit);
    let mut rounds = Vec::new();
    let mut delivered = Vec::new();
    let mut action = loader.step(LoadEvent::Begin);
    loop {
        action = match action {
            LoadAction::Ask(n) => {
                let ids = stage(pool, Some(job), n).await;
                let items =
                    ids.iter().map(|id| JobItem { db_id: *id, input: Json::Null }).collect();
                rounds.push(ids);
                loader.step(LoadEvent::Staged(items))
            }
            LoadAction::Deliver(item) => {
                delivered.push(item.db_id);
                write(pool, vec![result(item.db_id, true)], vec![0], 0).await;
                loader.step(LoadEvent::Delivered)
            }
            LoadAction::Stop => return (rounds, delivered),
        };
    }
}

#[test]
fn rounds_stage_every_pending_item() {
    on_a_database(|pool| async move {
        let job = job_with_items(&pool, 5).await;
        let other = job_with_items(&pool, 1).await;
        stage(&pool, Some(job), 1).await;
        let (rounds, delivered) = send_in_rounds(&pool, job, 3, None).await;
        assert_eq!(rounds, vec![vec![2, 3, 4], vec![5], vec![]]);
        assert_eq!(delivered, vec![2, 3, 4, 5]);
        assert_eq!(
            statuses(&pool).await,
            vec!["processing", "done", "done", "done", "done", "pending"]
        );
        assert_eq!(number(&pool, &Database::count_pending_items(other)).await, 1);
    });
}

#[test]
fn with_a_limit_the_oldest_items_are_staged() {
    on_a_database(|pool| async move {
        let job = job_with_items(&pool, 5).await;
        let (rounds, delivered) = send_in_rounds(&pool, job, 2, Some(3)).await;
        assert_eq!(rounds, vec![vec![1, 2], vec![3]]);
        assert_eq!(delivered, vec![1, 2, 3]);
        assert_eq!(statuses(&pool).await, vec!["done", "done", "done", "pending", "pending"]);
        let (rounds, _) = send_in_rounds(&pool, job, 2, Some(-1)).await;
        assert!(rounds.is_empty());
        let (_, delivered) = send_in_rounds(&pool, job, -1, Some(9)).await;
        assert_eq!(delivered, vec![4, 5]);
    });
}

#[test]
fn no_staged_item_stays_processing() {
    on_a_database(|pool| async move {
        let job = job_with_items(&pool, 3).await;
        assert_eq!(stage(&pool, Some(job), -1).await, vec![1, 2, 3]);
        let results = vec![result(1, false), result(2, true), result(3, false)];
        write(&pool, results, vec![0, 0, 2], 2).await;
        assert_eq!(statuses(&pool).await, vec!["pending", "done", "failed"]);
        assert_eq!(number(&pool, &Database::get_retry_count(1)).await, 1);
        assert_eq!(stage(&pool, Some(job), -1).await, vec![1]);
        write(&pool, vec![result(1, true)], vec![1], 2).await;
        assert_eq!(statuses(&pool).await, vec!["done", "done", "failed"]);
    });
}

#[test]
fn the_status_counts_each_status_once() {
    on_a_database(|pool| async move {
        let job = job_with_items(&pool, 4).await;
        let other = job_with_items(&pool, 1).await;
        stage(&pool, Some(job), 2).await;
        write(&pool, vec![result(1, true)], vec![0], 0).await;
        let count = |s: &str, n: i64| (s.to_string(), n);
        assert_eq!(
            status_counts(&pool, job).await,
            vec![count("done", 1), count("pending", 2), count("processing", 1)]
        );
        assert_eq!(status_counts(&pool, other).await, vec![count("pending", 1)]);
        assert!(status_counts(&pool, 99).await.is_empty());
        assert_eq!(number(&pool, &Database::count_pending_items(job)).await, 2);
        assert_eq!(number(&pool, &Database::count_open_items(job)).await, 3);
    });
}

#[test]
fn a_preview_takes_nothing_and_shows_the_oldest() {
    on_a_database(|pool| async move {
        let job = job_with_items(&pool, 3).await;
        let shown = rows(&pool, &Database::preview_pending_items(job, 2)).await;
        assert_eq!(shown, vec![(1, "\"0\"".to_string()), (2, "\"1\"".to_string())]);
        let ids = keys(&pool, &Database::stage_pending_items(Some(job), 2)).await;
        assert_eq!(ids, vec![1, 2]);
        assert_eq!(rows(&pool, &Database::preview_pending_items(job, -1)).await.len(), 3);
        match Database::claim_items(&ids) {
            Claim::Take { mark, fetch } => {
                run(&pool, &mark).await.unwrap();
                let mut fetched = rows(&pool, &fetch).await;
                fetched.sort();
                assert_eq!(fetched, shown);
            }
            Claim::Nothing => panic!("nothing to take"),
        }
    });
}

#[test]
fn a_retried_item_that_is_sent_keeps_its_error() {
    on_a_database(|pool| async move {
        job_with_items(&pool, 1).await;
        run(&pool, &Database::complete_item(1, &None, &Some("first".to_string()))).await.unwrap();
        write(&pool, vec![result(1, true)], vec![0], 0).await;
        let row: (String, Option<String>) =
            sqlx::query_as("SELECT status, error FROM job_items").fetch_one(&pool).await.unwrap();
        assert_eq!(row, ("done".to_string(), Some("first".to_string())));
    });
}

#[test]
fn inserted_items_are_pending_and_keep_their_inputs() {
    on_a_database(|pool| async move {
        let job = job_with_items(&pool, 1).await;
        let inputs = vec![Json::Text("a".to_string()), Json::Bool(true)];
        let s = Database::insert_job_items_batch(job, &inputs).unwrap();
        assert_eq!(run(&pool, &s).await.unwrap(), 2);
        let texts = ["\"0\"", "\"a\"", "true"];
        let expected: Vec<(i64, String)> =
            (1..).zip(texts.iter().map(|text| text.to_string())).collect();
        assert_eq!(rows(&pool, &Database::preview_pending_items(job, -1)).await, expected);
        assert_eq!(statuses(&pool).await, vec!["pending", "pending", "pending"]);
    });
}
