//! The job database: what is asked of it, and what follows from its answers.

use vstd::prelude::*;
use vstd::string::*;
use crate::chunks::{chunks_make_up_the_list, chunks_of, concat, parts_view, split_chunks};
use crate::json::{json_text, member, Json, JsonView};
use crate::statement::{
    a_placeholder_stands_for_each_value, placeholders, row_list, text_or_sql_null, values_sql,
    write_placeholders, SqlValue, SqlView, Statement, StatementView,
};
use crate::tables::{set_up, Change, Query, SetUp};

verus! {

broadcast use vstd::string::group_string_axioms;

/// Sets the table of jobs up.
pub const CREATE_JOBS: &'static str = "CREATE TABLE IF NOT EXISTS jobs (id INTEGER PRIMARY KEY AUTOINCREMENT, name TEXT NOT NULL, configuration JSON DEFAULT '{}', timestamp_start DATETIME DEFAULT CURRENT_TIMESTAMP, timestamp_end DATETIME)";

/// Sets the table of items up.
pub const CREATE_JOB_ITEMS: &'static str = "CREATE TABLE IF NOT EXISTS job_items (id INTEGER PRIMARY KEY AUTOINCREMENT, job_id INTEGER NOT NULL REFERENCES jobs(id) ON DELETE CASCADE, input JSON NOT NULL, output JSON, status TEXT DEFAULT 'pending' CHECK (status IN ('pending', 'processing', 'done', 'failed')), error TEXT, created_at DATETIME DEFAULT CURRENT_TIMESTAMP, updated_at DATETIME DEFAULT CURRENT_TIMESTAMP)";

/// Indexes items by status and job.
pub const INDEX_JOB_ITEMS_STATUS: &'static str = "CREATE INDEX IF NOT EXISTS idx_job_items_status_job ON job_items(status, job_id)";

/// Indexes items by key.
pub const INDEX_JOB_ITEMS_ID: &'static str = "CREATE INDEX IF NOT EXISTS idx_job_items_id ON job_items(id)";

/// Sets the table of retries up.
pub const CREATE_RETRY_HISTORY: &'static str = "CREATE TABLE IF NOT EXISTS retry_history (id INTEGER PRIMARY KEY AUTOINCREMENT, item_id INTEGER NOT NULL REFERENCES job_items(id) ON DELETE CASCADE, attempt_number INTEGER NOT NULL, error TEXT, sqs_response JSON, batch_id TEXT, input_snapshot JSON, timestamp DATETIME DEFAULT CURRENT_TIMESTAMP)";

/// Indexes retries by item.
pub const INDEX_RETRY_HISTORY: &'static str = "CREATE INDEX IF NOT EXISTS idx_retry_history_item_id ON retry_history(item_id)";

/// Reads all jobs.
pub const LIST_JOBS: &'static str = "SELECT id, name, configuration, timestamp_start, timestamp_end FROM jobs";

/// Reads one job.
pub const GET_JOB: &'static str = "SELECT id, name, configuration, timestamp_start, timestamp_end FROM jobs WHERE id = $1";

/// Creates a job.
pub const CREATE_JOB: &'static str = "INSERT INTO jobs (name, configuration) VALUES ($1, $2) RETURNING id";

/// Inserts items; rows of placeholders follow.
pub const INSERT_ITEMS: &'static str = "INSERT INTO job_items (job_id, input, status) ";

/// Counts the pending items of a job.
pub const COUNT_PENDING: &'static str = "SELECT COUNT(*) as count FROM job_items WHERE job_id = $1 AND status = 'pending'";

/// Reads the keys of pending items of a job, oldest first.
pub const SELECT_PENDING_OF_JOB: &'static str = "SELECT id FROM job_items WHERE job_id = $1 AND status = 'pending' ORDER BY id LIMIT $2";

/// Reads the keys of pending items, oldest first.
pub const SELECT_PENDING: &'static str = "SELECT id FROM job_items WHERE status = 'pending' ORDER BY id LIMIT $1";

/// Marks items as processing; a placeholder for each and a closing bracket follow.
pub const MARK_PROCESSING: &'static str = "UPDATE job_items SET status = 'processing', updated_at = CURRENT_TIMESTAMP WHERE id IN (";

/// Reads the inputs of items; a placeholder for each and a closing bracket follow.
pub const FETCH_INPUTS: &'static str = "SELECT id, input FROM job_items WHERE id IN (";

/// Reads pending items of a job, oldest first.
pub const PREVIEW_PENDING: &'static str = "SELECT id, input FROM job_items WHERE job_id = $1 AND status = 'pending' ORDER BY id LIMIT $2";

/// Completes an item.
pub const COMPLETE_ITEM: &'static str = "UPDATE job_items SET output = $1, status = $2, error = $3, updated_at = CURRENT_TIMESTAMP WHERE id = $4";

/// Completes an item that is done.
pub const COMPLETE_DONE: &'static str = "UPDATE job_items SET output = $1, status = 'done', updated_at = CURRENT_TIMESTAMP WHERE id = $2";

/// Completes an item that failed.
pub const COMPLETE_FAILED: &'static str = "UPDATE job_items SET output = $1, status = 'failed', error = $2, updated_at = CURRENT_TIMESTAMP WHERE id = $3";

/// Counts the items of a job by status.
pub const JOB_STATUS: &'static str = "SELECT status, COUNT(*) as count FROM job_items WHERE job_id = $1 GROUP BY status";

/// Counts the items of a job that are pending or processing.
pub const COUNT_OPEN: &'static str = "SELECT COUNT(*) as pending_count FROM job_items WHERE job_id = $1 AND status IN ('pending', 'processing')";

/// Closes a job that is not closed.
pub const CLOSE_JOB: &'static str = "UPDATE jobs SET timestamp_end = CURRENT_TIMESTAMP WHERE id = $1 AND timestamp_end IS NULL";

/// Records a retry.
pub const RECORD_RETRY: &'static str = "INSERT INTO retry_history (item_id, attempt_number, error, sqs_response, batch_id, input_snapshot) VALUES ($1, $2, $3, $4, $5, $6)";

/// Reads the number of the last retry of an item.
pub const RETRY_COUNT: &'static str = "SELECT COALESCE(MAX(attempt_number), 0) as count FROM retry_history WHERE item_id = $1";

/// Puts the items of a job that are processing back to pending.
pub const RESET_PROCESSING: &'static str = "UPDATE job_items SET status = 'pending', updated_at = CURRENT_TIMESTAMP WHERE job_id = $1 AND status = 'processing'";

/// Puts an item back to pending.
pub const RESET_ITEM: &'static str = "UPDATE job_items SET status = 'pending', updated_at = CURRENT_TIMESTAMP WHERE id = $1";

/// As many items as are enqueued with one statement.
pub const ENQUEUE_BATCH_SIZE: usize = 1000;

/// The input type of a job that says nothing else.
pub fn default_input_type() -> (r: String)
    ensures
        r@ == "text"@,
{
    "text".to_string()
}

/// The job database: the statements that it is asked to run.
pub struct Database;

/// How the items of a job are to be read.
#[derive(Debug)]
pub struct JobConfiguration {
    /// `text` or `json`.
    pub input_type: String,
}

impl Default for JobConfiguration {
    fn default() -> (r: Self)
        ensures
            r.input_type@ == "text"@,
    {
        JobConfiguration { input_type: default_input_type() }
    }
}

impl Clone for JobConfiguration {
    fn clone(&self) -> (r: Self)
        ensures
            r.input_type@ == self.input_type@,
    {
        JobConfiguration { input_type: self.input_type.clone() }
    }
}

impl JobConfiguration {
    /// The configuration as it is stored.
    pub open spec fn stored(self) -> JsonView {
        JsonView::Object(seq![("input_type"@, JsonView::Text(self.input_type@))])
    }

    /// Turns the configuration into what is stored.
    pub fn to_json(&self) -> (r: Json)
        ensures
            r@ == self.stored(),
    {
        let members = vec![("input_type".to_string(), Json::text(self.input_type.as_str()))];
        assert(members.deep_view() =~= self.stored()->Object_0);
        Json::object(members)
    }
}

/// A job. Times are seconds since the Unix epoch.
#[derive(Debug)]
pub struct JobModel {
    pub id: i64,
    pub name: String,
    pub configuration: JobConfiguration,
    pub timestamp_start: i64,
    pub timestamp_end: Option<i64>,
}

/// An item of a job.
#[derive(Debug)]
pub struct JobItemModel {
    pub id: i64,
    pub job_id: i64,
    pub input: Json,
    pub output: Option<Json>,
    pub error: Option<String>,
}

impl Database {
    /// The statements that set the database up, in order.
    pub fn schema() -> (r: Vec<Statement>)
        ensures
            r.deep_view() == seq![
                StatementView { sql: CREATE_JOBS@, binds: Seq::empty() },
                StatementView { sql: CREATE_JOB_ITEMS@, binds: Seq::empty() },
                StatementView { sql: INDEX_JOB_ITEMS_STATUS@, binds: Seq::empty() },
                StatementView { sql: INDEX_JOB_ITEMS_ID@, binds: Seq::empty() },
                StatementView { sql: CREATE_RETRY_HISTORY@, binds: Seq::empty() },
                StatementView { sql: INDEX_RETRY_HISTORY@, binds: Seq::empty() },
            ],
            r.deep_view() == set_up().map_values(|step: SetUp| step.statement()),
    {
        let r = vec![
            bare(CREATE_JOBS),
            bare(CREATE_JOB_ITEMS),
            bare(INDEX_JOB_ITEMS_STATUS),
            bare(INDEX_JOB_ITEMS_ID),
            bare(CREATE_RETRY_HISTORY),
            bare(INDEX_RETRY_HISTORY),
        ];
        assert(r.deep_view() =~= set_up().map_values(|step: SetUp| step.statement()));
        r
    }
}

fn bare(sql: &str) -> (r: Statement)
    ensures
        r@ == (StatementView { sql: sql@, binds: Seq::empty() }),
{
    let binds: Vec<SqlValue> = Vec::new();
    assert(binds.deep_view() =~= Seq::empty());
    Statement::new(sql, binds)
}

fn keyed(sql: &str, id: i64) -> (r: Statement)
    ensures
        r@ == (StatementView { sql: sql@, binds: seq![SqlView::Int(id)] }),
{
    let binds = vec![SqlValue::Int(id)];
    assert(binds.deep_view() =~= seq![SqlView::Int(id)]);
    Statement::new(sql, binds)
}

impl Database {
    /// Asks for all jobs.
    pub fn list_jobs() -> (r: Statement)
        ensures
            r@ == (StatementView { sql: LIST_JOBS@, binds: Seq::empty() }),
            r@ == Query::ListJobs.statement(),
    {
        bare(LIST_JOBS)
    }

    /// Asks for one job.
    pub fn get_job(id: i64) -> (r: Statement)
        ensures
            r@ == (StatementView { sql: GET_JOB@, binds: seq![SqlView::Int(id)] }),
            r@ == (Query::GetJob { id }).statement(),
    {
        keyed(GET_JOB, id)
    }

    /// Creates a job with a configuration and asks for its key.
    pub fn create_job_with_config(name: &str, config: &JobConfiguration) -> (r: Statement)
        ensures
            r@ == (StatementView {
                sql: CREATE_JOB@,
                binds: seq![SqlView::Text(name@), SqlView::Text(json_text(config.stored()))],
            }),
            forall|key: i64|
                r@ == (#[trigger] creation(key, name@, config.stored())).statement(),
    {
        let binds = vec![SqlValue::text(name), SqlValue::Text(config.to_json().to_text())];
        assert(binds.deep_view() =~= seq![
            SqlView::Text(name@),
            SqlView::Text(json_text(config.stored())),
        ]);
        Statement::new(CREATE_JOB, binds)
    }
}

/// The creation of a job, where its key came out as `key`.
pub open spec fn creation(key: i64, name: Seq<char>, configuration: JsonView) -> Change {
    Change::CreateJob { key, name, configuration }
}

/// What is stored for a job that says nothing of its input.
pub open spec fn default_stored() -> JsonView {
    JsonView::Object(seq![("input_type"@, JsonView::Text("text"@))])
}

impl Database {
    /// Creates a job and asks for its key.
    pub fn create_job(name: &str) -> (r: Statement)
        ensures
            r@ == (StatementView {
                sql: CREATE_JOB@,
                binds: seq![SqlView::Text(name@), SqlView::Text(json_text(default_stored()))],
            }),
            forall|key: i64| r@ == (#[trigger] creation(key, name@, default_stored())).statement(),
    {
        Self::create_job_with_config(name, &JobConfiguration::default())
    }
}

/// The values of the rows that insert pending items.
pub open spec fn item_binds(job_id: i64, inputs: Seq<JsonView>) -> Seq<SqlView>
    decreases inputs.len(),
{
    if inputs.len() == 0 {
        Seq::empty()
    } else {
        item_binds(job_id, inputs.drop_last()) + seq![
            SqlView::Int(job_id),
            SqlView::Text(json_text(inputs.last())),
            SqlView::Text("pending"@),
        ]
    }
}

/// The statement that inserts pending items.
pub open spec fn insertion(job_id: i64, inputs: Seq<JsonView>) -> StatementView {
    StatementView {
        sql: INSERT_ITEMS@ + "VALUES "@ + row_list(inputs.len()),
        binds: item_binds(job_id, inputs),
    }
}

fn insert_items(job_id: i64, inputs: &Vec<Json>) -> (r: Statement)
    requires
        inputs@.len() > 0,
    ensures
        r@ == insertion(job_id, inputs.deep_view()),
{
    let mut rows: Vec<(i64, String, String)> = Vec::new();
    let mut binds: Vec<SqlValue> = Vec::new();
    let ghost views = inputs.deep_view();
    assert(binds.deep_view() =~= item_binds(job_id, views.take(0)));
    let mut i: usize = 0;
    while i < inputs.len()
        invariant
            i <= inputs@.len(),
            rows@.len() == i,
            views == inputs.deep_view(),
            binds.deep_view() == item_binds(job_id, views.take(i as int)),
        decreases inputs@.len() - i,
    {
        let ghost before = binds.deep_view();
        let text = inputs[i].to_text();
        binds.push(SqlValue::Int(job_id));
        binds.push(SqlValue::Text(text.clone()));
        binds.push(SqlValue::text("pending"));
        rows.push((job_id, text, "pending".to_string()));
        proof {
            assert(views.take(i + 1).drop_last() =~= views.take(i as int));
            assert(binds.deep_view() =~= before + seq![
                SqlView::Int(job_id),
                SqlView::Text(json_text(views[i as int])),
                SqlView::Text("pending"@),
            ]);
        }
        i += 1;
    }
    assert(views.take(views.len() as int) =~= views);
    Statement { sql: values_sql(INSERT_ITEMS, &rows), binds }
}

impl Database {
    /// Inserts pending items with one statement. There is nothing to do where there is no item.
    pub fn insert_job_items_batch(job_id: i64, inputs: &Vec<Json>) -> (r: Option<Statement>)
        ensures
            match r {
                Some(statement) => inputs@.len() > 0 && statement@ == insertion(
                    job_id,
                    inputs.deep_view(),
                ),
                None => inputs@.len() == 0,
            },
    {
        if inputs.len() == 0 {
            None
        } else {
            Some(insert_items(job_id, inputs))
        }
    }
}

/// The inputs of items.
pub open spec fn inputs_of(items: Seq<JobItemModel>) -> Seq<JsonView> {
    items.map_values(|item: JobItemModel| item.input@)
}

/// The statements that insert batches of items.
pub open spec fn insertions(job_id: i64, batches: Seq<Seq<JobItemModel>>) -> Seq<StatementView> {
    batches.map_values(|batch: Seq<JobItemModel>| insertion(job_id, inputs_of(batch)))
}

impl Database {
    /// Enqueues items as pending, in batches, each with a statement of its own. Only the inputs of
    /// the items count.
    pub fn enqueue_job_items(job_id: i64, items: Vec<JobItemModel>) -> (r: Vec<Statement>)
        ensures
            r.deep_view() == insertions(job_id, chunks_of(items@, ENQUEUE_BATCH_SIZE as nat)),
    {
        let parts = split_chunks(items, ENQUEUE_BATCH_SIZE);
        let ghost batches = parts_view(parts@);
        proof {
            chunks_make_up_the_list(items@, ENQUEUE_BATCH_SIZE as nat);
        }
        let mut statements: Vec<Statement> = Vec::new();
        for part in it: parts
            invariant
                parts_view(it.seq()) == batches,
                forall|k: int| 0 <= k < batches.len() ==> 0 < (#[trigger] batches[k]).len(),
                statements@.len() == it.index(),
                forall|k: int|
                    0 <= k < it.index() ==> #[trigger] statements@[k]@ == insertions(
                        job_id,
                        batches,
                    )[k],
        {
            assert(part@ == batches[it.index()]);
            let mut inputs: Vec<Json> = Vec::new();
            let ghost all = part@;
            for item in inner: part
                invariant
                    inner.seq() == all,
                    inputs@.len() == inner.index(),
                    forall|k: int| 0 <= k < inner.index() ==> #[trigger] inputs@[k] == all[k].input,
            {
                inputs.push(item.input);
            }
            assert(inputs.deep_view() =~= inputs_of(all));
            statements.push(insert_items(job_id, &inputs));
        }
        assert(statements.deep_view() =~= insertions(job_id, batches));
        statements
    }

    /// Counts the pending items of a job.
    pub fn count_pending_items(job_id: i64) -> (r: Statement)
        ensures
            r@ == (StatementView { sql: COUNT_PENDING@, binds: seq![SqlView::Int(job_id)] }),
            r@ == (Query::CountPending { job_id }).statement(),
    {
        keyed(COUNT_PENDING, job_id)
    }

    /// Asks for the keys of pending items, oldest first: those of one job where a job is given.
    pub fn stage_pending_items(job_id: Option<i64>, limit: i64) -> (r: Statement)
        ensures
            r@ == match job_id {
                Some(job) => StatementView {
                    sql: SELECT_PENDING_OF_JOB@,
                    binds: seq![SqlView::Int(job), SqlView::Int(limit)],
                },
                None => StatementView { sql: SELECT_PENDING@, binds: seq![SqlView::Int(limit)] },
            },
            r@ == (Query::SelectPending { job_id, limit }).statement(),
    {
        match job_id {
            Some(job) => {
                let binds = vec![SqlValue::Int(job), SqlValue::Int(limit)];
                assert(binds.deep_view() =~= seq![SqlView::Int(job), SqlView::Int(limit)]);
                Statement::new(SELECT_PENDING_OF_JOB, binds)
            },
            None => keyed(SELECT_PENDING, limit),
        }
    }

    /// Asks for pending items without taking them: what a dry run shows.
    pub fn preview_pending_items(job_id: i64, limit: i64) -> (r: Statement)
        ensures
            r@ == (StatementView {
                sql: PREVIEW_PENDING@,
                binds: seq![SqlView::Int(job_id), SqlView::Int(limit)],
            }),
            r@ == (Query::PreviewPending { job_id, limit }).statement(),
    {
        let binds = vec![SqlValue::Int(job_id), SqlValue::Int(limit)];
        assert(binds.deep_view() =~= seq![SqlView::Int(job_id), SqlView::Int(limit)]);
        Statement::new(PREVIEW_PENDING, binds)
    }
}

/// What to do with the keys of pending items.
#[derive(Debug)]
pub enum Claim {
    /// There is none: the transaction is given up.
    Nothing,
    /// Mark them within the transaction, commit it, and then fetch their inputs.
    Take { mark: Statement, fetch: Statement },
}

/// Keys as values.
pub open spec fn key_binds(ids: Seq<i64>) -> Seq<SqlView> {
    ids.map_values(|id: i64| SqlView::Int(id))
}

/// A statement about the items with the keys `ids`.
pub open spec fn about_items(head: Seq<char>, ids: Seq<i64>) -> StatementView {
    StatementView { sql: head + placeholders(ids.len()) + ")"@, binds: key_binds(ids) }
}

fn for_items(head: &str, ids: &Vec<i64>) -> (r: Statement)
    ensures
        r@ == about_items(head@, ids@),
{
    let mut sql = head.to_string();
    sql.append(write_placeholders(ids.len()).as_str());
    sql.append(")");
    let mut binds: Vec<SqlValue> = Vec::new();
    let mut i: usize = 0;
    while i < ids.len()
        invariant
            i <= ids@.len(),
            binds@.len() == i,
            forall|k: int| 0 <= k < i ==> #[trigger] binds@[k]@ == SqlView::Int(ids@[k]),
        decreases ids@.len() - i,
    {
        binds.push(SqlValue::Int(ids[i]));
        i += 1;
    }
    assert(binds.deep_view() =~= key_binds(ids@));
    Statement { sql, binds }
}

impl Database {
    /// Takes pending items: exactly those with the keys `ids`.
    pub fn claim_items(ids: &Vec<i64>) -> (r: Claim)
        ensures
            match r {
                Claim::Nothing => ids@.len() == 0,
                Claim::Take { mark, fetch } => {
                    &&& ids@.len() > 0
                    &&& mark@ == about_items(MARK_PROCESSING@, ids@)
                    &&& mark@ == (Change::MarkProcessing { ids: ids@ }).statement()
                    &&& fetch@ == about_items(FETCH_INPUTS@, ids@)
                    &&& fetch@ == (Query::FetchInputs { ids: ids@ }).statement()
                },
            },
    {
        if ids.len() == 0 {
            Claim::Nothing
        } else {
            Claim::Take { mark: for_items(MARK_PROCESSING, ids), fetch: for_items(FETCH_INPUTS, ids) }
        }
    }
}

/// A stored output: `NULL` where there is none.
pub open spec fn output_bind(output: Option<JsonView>) -> SqlView {
    match output {
        Some(v) => SqlView::Text(json_text(v)),
        None => SqlView::Null,
    }
}

fn output_value(output: &Option<Json>) -> (r: SqlValue)
    ensures
        r@ == output_bind(output.deep_view()),
{
    match output {
        Some(v) => SqlValue::Text(v.to_text()),
        None => SqlValue::Null,
    }
}

impl Database {
    /// Completes an item: it has failed where there is an error, and is done otherwise.
    pub fn complete_item(id: i64, output: &Option<Json>, error: &Option<String>) -> (r: Statement)
        ensures
            r@ == (StatementView {
                sql: COMPLETE_ITEM@,
                binds: seq![
                    output_bind(output.deep_view()),
                    SqlView::Text(
                        if error is Some {
                            "failed"@
                        } else {
                            "done"@
                        },
                    ),
                    text_or_sql_null(error.deep_view()),
                    SqlView::Int(id),
                ],
            }),
            r@ == (Change::CompleteItem {
                id,
                output: output.deep_view(),
                status: if error is Some {
                    "failed"@
                } else {
                    "done"@
                },
                error: error.deep_view(),
            }).statement(),
    {
        let status: &str = if error.is_some() {
            "failed"
        } else {
            "done"
        };
        let binds = vec![
            output_value(output),
            SqlValue::text(status),
            SqlValue::optional_text(error),
            SqlValue::Int(id),
        ];
        assert(binds.deep_view() =~= seq![
            output_bind(output.deep_view()),
            SqlView::Text(
                if error is Some {
                    "failed"@
                } else {
                    "done"@
                },
            ),
            text_or_sql_null(error.deep_view()),
            SqlView::Int(id),
        ]);
        Statement::new(COMPLETE_ITEM, binds)
    }
}

/// A try that failed and was followed by another. Times are seconds since the Unix epoch.
#[derive(Debug)]
pub struct RetryHistoryModel {
    pub id: i64,
    pub item_id: i64,
    pub attempt_number: i32,
    pub error: Option<String>,
    pub sqs_response: Option<Json>,
    pub batch_id: Option<String>,
    pub input_snapshot: Option<Json>,
    pub timestamp: i64,
}

/// How an item ended.
#[derive(Debug)]
pub struct CompletionResult {
    pub id: i64,
    pub output: Option<Json>,
    pub error: Option<String>,
    pub success: bool,
}

/// What a [`CompletionResult`] stands for.
pub struct CompletionView {
    pub id: i64,
    pub output: Option<JsonView>,
    pub error: Option<Seq<char>>,
    pub success: bool,
}

impl View for CompletionResult {
    type V = CompletionView;

    open spec fn view(&self) -> CompletionView {
        CompletionView {
            id: self.id,
            output: self.output.deep_view(),
            error: self.error.deep_view(),
            success: self.success,
        }
    }
}

impl DeepView for CompletionResult {
    type V = CompletionView;

    open spec fn deep_view(&self) -> CompletionView {
        self@
    }
}

/// The statement that stores how an item ended.
pub open spec fn completion_statement(c: CompletionView) -> StatementView {
    if c.success {
        StatementView { sql: COMPLETE_DONE@, binds: seq![output_bind(c.output), SqlView::Int(c.id)] }
    } else {
        StatementView {
            sql: COMPLETE_FAILED@,
            binds: seq![output_bind(c.output), text_or_sql_null(c.error), SqlView::Int(c.id)],
        }
    }
}

fn store_completion(c: &CompletionResult) -> (r: Statement)
    ensures
        r@ == completion_statement(c@),
{
    if c.success {
        let binds = vec![output_value(&c.output), SqlValue::Int(c.id)];
        assert(binds.deep_view() =~= completion_statement(c@).binds);
        Statement::new(COMPLETE_DONE, binds)
    } else {
        let binds = vec![
            output_value(&c.output),
            SqlValue::optional_text(&c.error),
            SqlValue::Int(c.id),
        ];
        assert(binds.deep_view() =~= completion_statement(c@).binds);
        Statement::new(COMPLETE_FAILED, binds)
    }
}

/// The statements for the results that succeeded, or for those that did not, in order.
pub open spec fn completions_where(results: Seq<CompletionView>, success: bool) -> Seq<StatementView>
    decreases results.len(),
{
    if results.len() == 0 {
        Seq::empty()
    } else {
        let before = completions_where(results.drop_last(), success);
        if results.last().success == success {
            before.push(completion_statement(results.last()))
        } else {
            before
        }
    }
}

fn store_completions(results: &Vec<CompletionResult>, success: bool) -> (r: Vec<Statement>)
    ensures
        r.deep_view() == completions_where(results.deep_view(), success),
{
    let mut statements: Vec<Statement> = Vec::new();
    let ghost views = results.deep_view();
    assert(statements.deep_view() =~= completions_where(views.take(0), success));
    let mut i: usize = 0;
    while i < results.len()
        invariant
            i <= results@.len(),
            views == results.deep_view(),
            statements.deep_view() == completions_where(views.take(i as int), success),
        decreases results@.len() - i,
    {
        let ghost before = statements.deep_view();
        proof {
            assert(views.take(i + 1).drop_last() =~= views.take(i as int));
            assert(views.take(i + 1).last() == results@[i as int]@);
        }
        if results[i].success == success {
            statements.push(store_completion(&results[i]));
            assert(statements.deep_view() =~= before.push(
                completion_statement(results@[i as int]@),
            ));
        }
        i += 1;
    }
    assert(views.take(views.len() as int) =~= views);
    statements
}

/// The statements that complete items, to be run in one transaction: first the items that
/// succeeded, then the others.
pub open spec fn batch_completion(results: Seq<CompletionView>) -> Seq<StatementView> {
    completions_where(results, true) + completions_where(results, false)
}

impl Database {
    /// Completes items. There is nothing to run where there is no result.
    pub fn complete_items_batch(results: &Vec<CompletionResult>) -> (r: Vec<Statement>)
        ensures
            r.deep_view() == batch_completion(results.deep_view()),
            r@.len() == results@.len(),
    {
        let mut statements = store_completions(results, true);
        let ghost done = statements.deep_view();
        let mut failures = store_completions(results, false);
        let ghost failed = failures.deep_view();
        statements.append(&mut failures);
        assert(statements.deep_view() =~= done + failed);
        proof {
            every_result_is_stored(results.deep_view());
            assert(statements@.len() == statements.deep_view().len());
        }
        statements
    }
}

/// Every result of a batch is stored by exactly one statement.
pub proof fn every_result_is_stored(results: Seq<CompletionView>)
    ensures
        batch_completion(results).len() == results.len(),
        forall|i: int|
            0 <= i < results.len() ==> batch_completion(results).contains(
                #[trigger] completion_statement(results[i]),
            ),
    decreases results.len(),
{
    if results.len() > 0 {
        let fewer = results.drop_last();
        every_result_is_stored(fewer);
        let done = completions_where(results, true);
        let failed = completions_where(results, false);
        let all = batch_completion(results);
        assert forall|i: int| 0 <= i < results.len() implies all.contains(
            #[trigger] completion_statement(results[i]),
        ) by {
            let s = completion_statement(results[i]);
            if i == results.len() - 1 {
                if results.last().success {
                    assert(all[done.len() - 1] == s);
                } else {
                    assert(all[all.len() - 1] == s);
                }
            } else {
                assert(fewer[i] == results[i]);
                let old_all = batch_completion(fewer);
                assert(old_all.contains(s));
                let k = choose|k: int| 0 <= k < old_all.len() && old_all[k] == s;
                let done_before = completions_where(fewer, true).len();
                if k < done_before || !results.last().success {
                    assert(all[k] == s);
                } else {
                    assert(all[k + 1] == s);
                }
            }
        }
    }
}

impl Database {
    /// Counts the items of a job by status.
    pub fn check_job_status(job_id: i64) -> (r: Statement)
        ensures
            r@ == (StatementView { sql: JOB_STATUS@, binds: seq![SqlView::Int(job_id)] }),
            r@ == (Query::JobStatus { job_id }).statement(),
    {
        keyed(JOB_STATUS, job_id)
    }

    /// Counts the items of a job that are pending or processing.
    pub fn count_open_items(job_id: i64) -> (r: Statement)
        ensures
            r@ == (StatementView { sql: COUNT_OPEN@, binds: seq![SqlView::Int(job_id)] }),
            r@ == (Query::CountOpen { job_id }).statement(),
    {
        keyed(COUNT_OPEN, job_id)
    }
}

/// Whether a job is over.
#[derive(Debug)]
pub enum Closing {
    /// So many items are still pending or processing.
    Open(i64),
    /// The job is over, and this closes it.
    Close(Statement),
}

impl Database {
    /// Closes a job of which no item is pending or processing.
    pub fn check_and_close_job(job_id: i64, open_items: i64) -> (r: Closing)
        ensures
            match r {
                Closing::Open(n) => open_items > 0 && n == open_items,
                Closing::Close(statement) => {
                    &&& open_items <= 0
                    &&& statement@ == (StatementView {
                        sql: CLOSE_JOB@,
                        binds: seq![SqlView::Int(job_id)],
                    })
                    &&& statement@ == (Change::CloseJob { job_id }).statement()
                },
            },
    {
        if open_items > 0 {
            Closing::Open(open_items)
        } else {
            Closing::Close(keyed(CLOSE_JOB, job_id))
        }
    }

    /// Records a retry of an item.
    pub fn record_retry(
        item_id: i64,
        attempt_number: i32,
        error: &Option<String>,
        sqs_response: &Option<Json>,
        batch_id: &Option<String>,
        input_snapshot: &Option<Json>,
    ) -> (r: Statement)
        ensures
            r@ == (StatementView {
                sql: RECORD_RETRY@,
                binds: seq![
                    SqlView::Int(item_id),
                    SqlView::Int(attempt_number as i64),
                    text_or_sql_null(error.deep_view()),
                    output_bind(sqs_response.deep_view()),
                    text_or_sql_null(batch_id.deep_view()),
                    output_bind(input_snapshot.deep_view()),
                ],
            }),
            r@ == (Change::RecordRetry {
                item_id,
                attempt_number,
                error: error.deep_view(),
                sqs_response: sqs_response.deep_view(),
                batch_id: batch_id.deep_view(),
                input_snapshot: input_snapshot.deep_view(),
            }).statement(),
    {
        let binds = vec![
            SqlValue::Int(item_id),
            SqlValue::Int(attempt_number as i64),
            SqlValue::optional_text(error),
            output_value(sqs_response),
            SqlValue::optional_text(batch_id),
            output_value(input_snapshot),
        ];
        assert(binds.deep_view() =~= seq![
            SqlView::Int(item_id),
            SqlView::Int(attempt_number as i64),
            text_or_sql_null(error.deep_view()),
            output_bind(sqs_response.deep_view()),
            text_or_sql_null(batch_id.deep_view()),
            output_bind(input_snapshot.deep_view()),
        ]);
        Statement::new(RECORD_RETRY, binds)
    }

    /// Asks how often an item was retried.
    pub fn get_retry_count(item_id: i64) -> (r: Statement)
        ensures
            r@ == (StatementView { sql: RETRY_COUNT@, binds: seq![SqlView::Int(item_id)] }),
            r@ == (Query::RetryCount { item_id }).statement(),
    {
        keyed(RETRY_COUNT, item_id)
    }

    /// Puts the items of a job that are processing back to pending.
    pub fn reset_processing_items(job_id: i64) -> (r: Statement)
        ensures
            r@ == (StatementView { sql: RESET_PROCESSING@, binds: seq![SqlView::Int(job_id)] }),
            r@ == (Change::ResetProcessing { job_id }).statement(),
    {
        keyed(RESET_PROCESSING, job_id)
    }

    /// Puts an item back to pending.
    pub fn reset_item_for_retry(item_id: i64) -> (r: Statement)
        ensures
            r@ == (StatementView { sql: RESET_ITEM@, binds: seq![SqlView::Int(item_id)] }),
            r@ == (Change::ResetItem { item_id }).statement(),
    {
        keyed(RESET_ITEM, item_id)
    }
}

/// The stored configuration of a job holds its input type and nothing else, and is that of a job
/// that reads text where nothing else was asked for.
pub proof fn a_configuration_is_its_input_type(config: JobConfiguration, members: Seq<
    (Seq<char>, JsonView),
>)
    requires
        config.stored() == JsonView::Object(members),
    ensures
        members.len() == 1,
        member(members, "input_type"@) == Some(JsonView::Text(config.input_type@)),
        config.input_type@ == "text"@ <==> config.stored() == default_stored(),
{
    let defaults = default_stored()->Object_0;
    if config.stored() == default_stored() {
        assert(members[0] == defaults[0]);
    } else if config.input_type@ == "text"@ {
        assert(members =~= defaults);
    }
}

/// A value that is there is bound as its JSON text, and one that is not is `NULL`.
pub proof fn a_value_is_bound_as_its_text(v: JsonView)
    ensures
        output_bind(Some(v)) == SqlView::Text(json_text(v)),
        output_bind(None) == SqlView::Null,
{
}

/// Each inserted item has a row of three values: its job, its input as JSON, and that it is pending.
pub proof fn an_inserted_item_is_pending_in_its_job(job_id: i64, inputs: Seq<JsonView>)
    ensures
        insertion(job_id, inputs).binds.len() == 3 * inputs.len(),
        forall|k: int|
            0 <= k < 3 * inputs.len() ==> #[trigger] insertion(job_id, inputs).binds[k] == if k % 3
                == 0 {
                SqlView::Int(job_id)
            } else if k % 3 == 1 {
                SqlView::Text(json_text(inputs[k / 3]))
            } else {
                SqlView::Text("pending"@)
            },
        insertion(job_id, inputs).sql == INSERT_ITEMS@ + "VALUES "@ + row_list(inputs.len()),
    decreases inputs.len(),
{
    if inputs.len() > 0 {
        let fewer = inputs.drop_last();
        an_inserted_item_is_pending_in_its_job(job_id, fewer);
        let before = insertion(job_id, fewer).binds;
        let all = insertion(job_id, inputs).binds;
        assert forall|k: int| 0 <= k < 3 * inputs.len() implies #[trigger] all[k] == if k % 3 == 0 {
            SqlView::Int(job_id)
        } else if k % 3 == 1 {
            SqlView::Text(json_text(inputs[k / 3]))
        } else {
            SqlView::Text("pending"@)
        } by {
            if k < before.len() {
                assert(all[k] == before[k]);
            }
        }
    }
}

/// Inserting items together binds what inserting them one part after the other binds.
pub proof fn inserting_together_is_inserting_in_parts(
    job_id: i64,
    a: Seq<JsonView>,
    b: Seq<JsonView>,
)
    ensures
        insertion(job_id, a + b).binds == insertion(job_id, a).binds + insertion(job_id, b).binds,
{
    an_inserted_item_is_pending_in_its_job(job_id, a);
    an_inserted_item_is_pending_in_its_job(job_id, b);
    an_inserted_item_is_pending_in_its_job(job_id, a + b);
    let all = insertion(job_id, a + b).binds;
    let front = insertion(job_id, a).binds;
    let back = insertion(job_id, b).binds;
    assert forall|k: int| 0 <= k < all.len() implies all[k] == (front + back)[k] by {
        if k < front.len() {
            assert((front + back)[k] == front[k]);
            assert((a + b)[k / 3] == a[k / 3]);
        } else {
            let j = k - front.len();
            assert((front + back)[k] == back[j]);
            assert(j % 3 == k % 3 && j / 3 == k / 3 - a.len());
            assert((a + b)[k / 3] == b[j / 3]);
        }
    }
    assert(all =~= front + back);
}

proof fn lemma_inputs_in_parts(job_id: i64, batches: Seq<Seq<JobItemModel>>)
    ensures
        concat(insertions(job_id, batches).map_values(|s: StatementView| s.binds)) == insertion(
            job_id,
            concat(batches).map_values(|item: JobItemModel| item.input@),
        ).binds,
    decreases batches.len(),
{
    let binds = |s: StatementView| s.binds;
    let input = |item: JobItemModel| item.input@;
    let all = insertions(job_id, batches).map_values(binds);
    if batches.len() > 0 {
        let fewer = batches.drop_last();
        lemma_inputs_in_parts(job_id, fewer);
        assert(all.drop_last() =~= insertions(job_id, fewer).map_values(binds));
        let a = concat(fewer).map_values(input);
        let b = batches.last().map_values(input);
        assert(inputs_of(batches.last()) =~= b);
        assert(concat(batches).map_values(input) =~= a + b);
        inserting_together_is_inserting_in_parts(job_id, a, b);
    } else {
        assert(concat(batches).map_values(input) =~= Seq::empty());
        assert(concat(all) =~= Seq::empty());
    }
}

/// Enqueued items are inserted with their own inputs, all of them and in order, whatever batches
/// they fall into: a thousand to each statement, but for the last.
pub proof fn every_enqueued_item_is_inserted(job_id: i64, items: Seq<JobItemModel>)
    ensures
        ({
            let statements = insertions(job_id, chunks_of(items, ENQUEUE_BATCH_SIZE as nat));
            let binds = concat(statements.map_values(|s: StatementView| s.binds));
            &&& binds.len() == 3 * items.len()
            &&& forall|k: int|
                0 <= k < binds.len() ==> #[trigger] binds[k] == if k % 3 == 0 {
                    SqlView::Int(job_id)
                } else if k % 3 == 1 {
                    SqlView::Text(json_text(items[k / 3].input@))
                } else {
                    SqlView::Text("pending"@)
                }
            &&& forall|k: int|
                0 <= k < statements.len() ==> 0 < (#[trigger] statements[k]).binds.len() <= 3000
            &&& forall|k: int|
                0 <= k < statements.len() - 1 ==> (#[trigger] statements[k]).binds.len() == 3000
        }),
{
    let batches = chunks_of(items, ENQUEUE_BATCH_SIZE as nat);
    let statements = insertions(job_id, batches);
    chunks_make_up_the_list(items, ENQUEUE_BATCH_SIZE as nat);
    lemma_inputs_in_parts(job_id, batches);
    let inputs = items.map_values(|item: JobItemModel| item.input@);
    an_inserted_item_is_pending_in_its_job(job_id, inputs);
    assert forall|k: int| 0 <= k < statements.len() implies 0 < (
    #[trigger] statements[k]).binds.len() <= 3000 by {
        an_inserted_item_is_pending_in_its_job(job_id, inputs_of(batches[k]));
        assert(inputs_of(batches[k]).len() == batches[k].len());
    }
    assert forall|k: int| 0 <= k < statements.len() - 1 implies (
    #[trigger] statements[k]).binds.len() == 3000 by {
        an_inserted_item_is_pending_in_its_job(job_id, inputs_of(batches[k]));
        assert(inputs_of(batches[k]).len() == batches[k].len());
    }
}

/// A statement about items names each of them: there is a placeholder and a key for every one, in
/// order.
pub proof fn every_item_is_named(head: Seq<char>, ids: Seq<i64>)
    ensures
        about_items(head, ids).binds.len() == ids.len(),
        forall|i: int|
            0 <= i < ids.len() ==> about_items(head, ids).binds[i] == SqlView::Int(
                #[trigger] ids[i],
            ),
        about_items(head, ids).sql.take(head.len() as int) == head,
        about_items(head, ids).sql.last() == ')',
        about_items(head, ids).sql.len() == head.len() + 1 + if ids.len() == 0 {
            0
        } else {
            2 * ids.len() - 1
        },
        forall|i: int|
            head.len() <= i < about_items(head, ids).sql.len() - 1 ==> #[trigger] about_items(
                head,
                ids,
            ).sql[i] == if (i - head.len()) % 2 == 0 {
                '?'
            } else {
                ','
            },
{
    reveal_strlit(")");
    a_placeholder_stands_for_each_value(ids.len());
    let sql = about_items(head, ids).sql;
    assert(sql.take(head.len() as int) =~= head);
    assert forall|i: int| head.len() <= i < sql.len() - 1 implies #[trigger] sql[i] == if (i
        - head.len()) % 2 == 0 {
        '?'
    } else {
        ','
    } by {
        assert(sql[i] == placeholders(ids.len())[i - head.len()]);
    }
}

/// Every result is stored under its own key, with its own output: as done where it succeeded, and
/// as failed with its own error where it did not. Results that succeeded come first.
pub proof fn each_result_is_stored_as_it_is(results: Seq<CompletionView>)
    ensures
        batch_completion(results).len() == results.len(),
        forall|i: int|
            0 <= i < results.len() && (#[trigger] results[i]).success ==> batch_completion(
                results,
            ).contains(
                (StatementView {
                    sql: COMPLETE_DONE@,
                    binds: seq![
                        match results[i].output {
                            Some(v) => SqlView::Text(json_text(v)),
                            None => SqlView::Null,
                        },
                        SqlView::Int(results[i].id),
                    ],
                }),
            ),
        forall|i: int|
            0 <= i < results.len() && !(#[trigger] results[i]).success ==> batch_completion(
                results,
            ).contains(
                (StatementView {
                    sql: COMPLETE_FAILED@,
                    binds: seq![
                        match results[i].output {
                            Some(v) => SqlView::Text(json_text(v)),
                            None => SqlView::Null,
                        },
                        match results[i].error {
                            Some(e) => SqlView::Text(e),
                            None => SqlView::Null,
                        },
                        SqlView::Int(results[i].id),
                    ],
                }),
            ),
        forall|i: int, j: int|
            0 <= i <= j < results.len() && (#[trigger] batch_completion(results)[j]).sql
                == COMPLETE_DONE@ ==> (#[trigger] batch_completion(results)[i]).sql
                == COMPLETE_DONE@,
{
    every_result_is_stored(results);
    lemma_two_ways_to_end();
    lemma_where(results, true);
    lemma_where(results, false);
    let all = batch_completion(results);
    assert forall|i: int| 0 <= i < results.len() && (#[trigger] results[i]).success implies all.contains(
        (StatementView {
            sql: COMPLETE_DONE@,
            binds: seq![
                match results[i].output {
                    Some(v) => SqlView::Text(json_text(v)),
                    None => SqlView::Null,
                },
                SqlView::Int(results[i].id),
            ],
        }),
    ) by {
        let stored = completion_statement(results[i]);
        assert(all.contains(stored));
        assert(stored.binds =~= seq![
            match results[i].output {
                Some(v) => SqlView::Text(json_text(v)),
                None => SqlView::Null,
            },
            SqlView::Int(results[i].id),
        ]);
    }
    assert forall|i: int| 0 <= i < results.len() && !(#[trigger] results[i]).success implies all.contains(
        (StatementView {
            sql: COMPLETE_FAILED@,
            binds: seq![
                match results[i].output {
                    Some(v) => SqlView::Text(json_text(v)),
                    None => SqlView::Null,
                },
                match results[i].error {
                    Some(e) => SqlView::Text(e),
                    None => SqlView::Null,
                },
                SqlView::Int(results[i].id),
            ],
        }),
    ) by {
        let stored = completion_statement(results[i]);
        assert(all.contains(stored));
        assert(stored.binds =~= seq![
            match results[i].output {
                Some(v) => SqlView::Text(json_text(v)),
                None => SqlView::Null,
            },
            match results[i].error {
                Some(e) => SqlView::Text(e),
                None => SqlView::Null,
            },
            SqlView::Int(results[i].id),
        ]);
    }
}

proof fn lemma_two_ways_to_end()
    ensures
        COMPLETE_DONE@ != COMPLETE_FAILED@,
{
    reveal_strlit(
        "UPDATE job_items SET output = $1, status = 'done', updated_at = CURRENT_TIMESTAMP WHERE id = $2",
    );
    reveal_strlit(
        "UPDATE job_items SET output = $1, status = 'failed', error = $2, updated_at = CURRENT_TIMESTAMP WHERE id = $3",
    );
    assert(COMPLETE_DONE@.len() != COMPLETE_FAILED@.len());
}

proof fn lemma_where(results: Seq<CompletionView>, success: bool)
    ensures
        forall|k: int|
            0 <= k < completions_where(results, success).len() ==> (#[trigger] completions_where(
                results,
                success,
            )[k]).sql == if success {
                COMPLETE_DONE@
            } else {
                COMPLETE_FAILED@
            },
    decreases results.len(),
{
    if results.len() > 0 {
        lemma_where(results.drop_last(), success);
        let before = completions_where(results.drop_last(), success);
        let all = completions_where(results, success);
        assert forall|k: int| 0 <= k < all.len() implies (#[trigger] all[k]).sql == if success {
            COMPLETE_DONE@
        } else {
            COMPLETE_FAILED@
        } by {
            if k < before.len() {
                assert(all[k] == before[k]);
            }
        }
    }
}

/// Where statements that store results are taken in parts, each part holds its own results: the
/// ones that succeeded, and the others, each in order.
pub proof fn results_are_stored_in_order(a: Seq<CompletionView>, b: Seq<CompletionView>)
    ensures
        completions_where(a + b, true) == completions_where(a, true) + completions_where(b, true),
        completions_where(a + b, false) == completions_where(a, false) + completions_where(
            b,
            false,
        ),
        batch_completion(a) == completions_where(a, true) + completions_where(a, false),
    decreases b.len(),
{
    if b.len() == 0 {
        assert(a + b =~= a);
        assert(completions_where(a, true) + completions_where(b, true) =~= completions_where(
            a,
            true,
        ));
        assert(completions_where(a, false) + completions_where(b, false) =~= completions_where(
            a,
            false,
        ));
    } else {
        results_are_stored_in_order(a, b.drop_last());
        assert((a + b).drop_last() =~= a + b.drop_last());
        assert(completions_where(a + b, true) =~= completions_where(a, true) + completions_where(
            b,
            true,
        ));
        assert(completions_where(a + b, false) =~= completions_where(a, false) + completions_where(
            b,
            false,
        ));
    }
}

/// How an item ended stands for all that is known of it.
pub proof fn a_completion_stands_for_all_it_holds(c: CompletionResult)
    ensures
        c@.id == c.id,
        c@.success == c.success,
        c.output matches Some(output) ==> c@.output == Some(output@),
        c.output is None ==> c@.output is None,
        c.error matches Some(error) ==> c@.error == Some(error@),
        c.error is None ==> c@.error is None,
        c.deep_view() == c@,
{
}

} // verus!
