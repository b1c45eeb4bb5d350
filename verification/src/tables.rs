//! The tables that the statements are about, and what the statements are meant to do to them.
//!
//! Here stands what each statement of [`database`](crate::database) means for the rows of the three
//! tables, and what follows from it. That SQLite runs the statements so is not proved here: it is
//! what the schema and the statements say in SQL.

use vstd::prelude::*;
use vstd::seq_lib::*;
use vstd::set_lib::*;
use crate::database::{
    about_items, batch_completion, completion_statement, completions_where, insertion,
    output_bind, CompletionView, CLOSE_JOB, COMPLETE_ITEM, COUNT_OPEN, COUNT_PENDING, CREATE_JOB,
    CREATE_JOBS, CREATE_JOB_ITEMS, CREATE_RETRY_HISTORY, FETCH_INPUTS, GET_JOB, INDEX_JOB_ITEMS_ID,
    INDEX_JOB_ITEMS_STATUS, INDEX_RETRY_HISTORY, JOB_STATUS, LIST_JOBS, MARK_PROCESSING,
    PREVIEW_PENDING, RECORD_RETRY, RESET_ITEM, RESET_PROCESSING, RETRY_COUNT, SELECT_PENDING,
    SELECT_PENDING_OF_JOB,
};
use crate::json::{json_text, JsonView};
use crate::multi::lemma_map_keeps_multiset;
use crate::report::database_files;
use crate::statement::{row_list, text_or_sql_null, SqlView, StatementView};

verus! {

/// A row of `jobs`. Values are as they were bound.
pub struct JobRow {
    pub name: Seq<char>,
    pub configuration: Seq<char>,
    pub timestamp_start: int,
    pub timestamp_end: Option<int>,
}

/// A row of `job_items`. Values are as they were bound.
pub struct ItemRow {
    pub job_id: i64,
    pub input: Seq<char>,
    pub output: Option<Seq<char>>,
    pub status: Seq<char>,
    pub error: Option<Seq<char>>,
    pub created_at: int,
    pub updated_at: int,
}

/// A row of `retry_history`. Values are as they were bound.
pub struct RetryRow {
    pub item_id: i64,
    pub attempt_number: i32,
    pub error: Option<Seq<char>>,
    pub sqs_response: Option<Seq<char>>,
    pub batch_id: Option<Seq<char>>,
    pub input_snapshot: Option<Seq<char>>,
    pub timestamp: int,
}

/// The three tables. Keys are handed out in rising order and never twice: every key is below the
/// next one.
pub struct Tables {
    pub jobs: Map<i64, JobRow>,
    pub next_job: int,
    pub items: Map<i64, ItemRow>,
    pub next_item: int,
    /// In the order in which they were recorded.
    pub retries: Seq<RetryRow>,
}

/// The statuses that an item can have.
pub open spec fn is_status(status: Seq<char>) -> bool {
    status == "pending"@ || status == "processing"@ || status == "done"@ || status == "failed"@
}

/// A statement that changes rows. Where it makes keys, it says which came out.
pub enum Change {
    CreateJob { key: i64, name: Seq<char>, configuration: JsonView },
    InsertItems { keys: Seq<i64>, job_id: i64, inputs: Seq<JsonView> },
    MarkProcessing { ids: Seq<i64> },
    CompleteItem {
        id: i64,
        output: Option<JsonView>,
        status: Seq<char>,
        error: Option<Seq<char>>,
    },
    Complete(CompletionView),
    CloseJob { job_id: i64 },
    RecordRetry {
        item_id: i64,
        attempt_number: i32,
        error: Option<Seq<char>>,
        sqs_response: Option<JsonView>,
        batch_id: Option<Seq<char>>,
        input_snapshot: Option<JsonView>,
    },
    ResetProcessing { job_id: i64 },
    ResetItem { item_id: i64 },
}

impl Change {
    /// The statement, as it is run.
    pub open spec fn statement(self) -> StatementView {
        match self {
            Change::CreateJob { name, configuration, .. } => StatementView {
                sql: CREATE_JOB@,
                binds: seq![SqlView::Text(name), SqlView::Text(json_text(configuration))],
            },
            Change::InsertItems { job_id, inputs, .. } => insertion(job_id, inputs),
            Change::MarkProcessing { ids } => about_items(MARK_PROCESSING@, ids),
            Change::CompleteItem { id, output, status, error } => StatementView {
                sql: COMPLETE_ITEM@,
                binds: seq![
                    output_bind(output),
                    SqlView::Text(status),
                    text_or_sql_null(error),
                    SqlView::Int(id),
                ],
            },
            Change::Complete(c) => completion_statement(c),
            Change::CloseJob { job_id } => StatementView {
                sql: CLOSE_JOB@,
                binds: seq![SqlView::Int(job_id)],
            },
            Change::RecordRetry {
                item_id,
                attempt_number,
                error,
                sqs_response,
                batch_id,
                input_snapshot,
            } => StatementView {
                sql: RECORD_RETRY@,
                binds: seq![
                    SqlView::Int(item_id),
                    SqlView::Int(attempt_number as i64),
                    text_or_sql_null(error),
                    output_bind(sqs_response),
                    text_or_sql_null(batch_id),
                    output_bind(input_snapshot),
                ],
            },
            Change::ResetProcessing { job_id } => StatementView {
                sql: RESET_PROCESSING@,
                binds: seq![SqlView::Int(job_id)],
            },
            Change::ResetItem { item_id } => StatementView {
                sql: RESET_ITEM@,
                binds: seq![SqlView::Int(item_id)],
            },
        }
    }
}

/// A statement that reads rows.
#[allow(inconsistent_fields)]
pub enum Query {
    ListJobs,
    GetJob { id: i64 },
    CountPending { job_id: i64 },
    SelectPending { job_id: Option<i64>, limit: i64 },
    FetchInputs { ids: Seq<i64> },
    PreviewPending { job_id: i64, limit: i64 },
    JobStatus { job_id: i64 },
    CountOpen { job_id: i64 },
    RetryCount { item_id: i64 },
}

impl Query {
    /// The statement, as it is run.
    pub open spec fn statement(self) -> StatementView {
        match self {
            Query::ListJobs => StatementView { sql: LIST_JOBS@, binds: Seq::empty() },
            Query::GetJob { id } => StatementView { sql: GET_JOB@, binds: seq![SqlView::Int(id)] },
            Query::CountPending { job_id } => StatementView {
                sql: COUNT_PENDING@,
                binds: seq![SqlView::Int(job_id)],
            },
            Query::SelectPending { job_id: Some(job), limit } => StatementView {
                sql: SELECT_PENDING_OF_JOB@,
                binds: seq![SqlView::Int(job), SqlView::Int(limit)],
            },
            Query::SelectPending { job_id: None, limit } => StatementView {
                sql: SELECT_PENDING@,
                binds: seq![SqlView::Int(limit)],
            },
            Query::FetchInputs { ids } => about_items(FETCH_INPUTS@, ids),
            Query::PreviewPending { job_id, limit } => StatementView {
                sql: PREVIEW_PENDING@,
                binds: seq![SqlView::Int(job_id), SqlView::Int(limit)],
            },
            Query::JobStatus { job_id } => StatementView {
                sql: JOB_STATUS@,
                binds: seq![SqlView::Int(job_id)],
            },
            Query::CountOpen { job_id } => StatementView {
                sql: COUNT_OPEN@,
                binds: seq![SqlView::Int(job_id)],
            },
            Query::RetryCount { item_id } => StatementView {
                sql: RETRY_COUNT@,
                binds: seq![SqlView::Int(item_id)],
            },
        }
    }
}

/// What a query brings.
pub enum Answer {
    /// Jobs, each under its key.
    Jobs(Seq<(i64, JobRow)>),
    Count(int),
    /// Keys of items.
    Keys(Seq<i64>),
    /// The stored inputs of items, each with the key of its item.
    Inputs(Seq<(i64, Seq<char>)>),
    /// Statuses, each with the number of items that have it.
    Statuses(Seq<(Seq<char>, int)>),
}

/// The first parts of pairs.
pub open spec fn firsts<A, B>(rows: Seq<(A, B)>) -> Seq<A> {
    rows.map_values(|row: (A, B)| row.0)
}

/// What is stored of a JSON value that may not be there.
pub open spec fn stored_text(v: Option<JsonView>) -> Option<Seq<char>> {
    match v {
        Some(v) => Some(json_text(v)),
        None => None,
    }
}

/// An item that has just been inserted.
pub open spec fn new_item(job_id: i64, input: JsonView, now: int) -> ItemRow {
    ItemRow {
        job_id,
        input: json_text(input),
        output: None,
        status: "pending"@,
        error: None,
        created_at: now,
        updated_at: now,
    }
}

/// An item that has just been completed. One that was sent keeps the error that it had.
pub open spec fn completed(row: ItemRow, c: CompletionView, now: int) -> ItemRow {
    ItemRow {
        output: stored_text(c.output),
        status: if c.success {
            "done"@
        } else {
            "failed"@
        },
        error: if c.success {
            row.error
        } else {
            c.error
        },
        updated_at: now,
        ..row
    }
}

/// Whether keys rise from `from` on.
pub open spec fn rising(keys: Seq<i64>, from: int) -> bool {
    &&& forall|i: int| 0 <= i < keys.len() ==> from <= #[trigger] keys[i]
    &&& forall|i: int, j: int| 0 <= i < j < keys.len() ==> #[trigger] keys[i] < #[trigger] keys[j]
}

impl Tables {
    /// Tables without a row.
    pub open spec fn empty() -> Tables {
        Tables {
            jobs: Map::empty(),
            next_job: 1,
            items: Map::empty(),
            next_item: 1,
            retries: Seq::empty(),
        }
    }

    /// What always holds of the tables: keys are below the next one, every item has one of the four
    /// statuses and belongs to a job, and every retry to an item.
    pub open spec fn sound(self) -> bool {
        &&& self.items.dom().finite()
        &&& forall|id: i64| #[trigger] self.jobs.contains_key(id) ==> id < self.next_job
        &&& forall|id: i64| #[trigger]
            self.items.contains_key(id) ==> {
                &&& id < self.next_item
                &&& is_status(self.items[id].status)
                &&& self.jobs.contains_key(self.items[id].job_id)
            }
        &&& forall|i: int|
            0 <= i < self.retries.len() ==> self.items.contains_key(
                (#[trigger] self.retries[i]).item_id,
            )
    }

    /// The tables with the items changed that `touched` picks.
    pub open spec fn with_items(
        self,
        touched: spec_fn(i64) -> bool,
        change: spec_fn(ItemRow) -> ItemRow,
    ) -> Tables {
        Tables {
            items: Map::new(
                |id: i64| self.items.contains_key(id),
                |id: i64|
                    if touched(id) {
                        change(self.items[id])
                    } else {
                        self.items[id]
                    },
            ),
            ..self
        }
    }

    /// The tables with one status for the items that `touched` picks.
    pub open spec fn with_status(
        self,
        touched: spec_fn(i64) -> bool,
        status: Seq<char>,
        now: int,
    ) -> Tables {
        self.with_items(touched, |row: ItemRow| ItemRow { status, updated_at: now, ..row })
    }

    /// What a change does at the time `now`. A change is rejected where it would break a constraint
    /// of the schema: a status outside the four, an item without a job, a retry without an item, or
    /// a key that was handed out before.
    pub open spec fn apply(self, change: Change, now: int) -> Option<Tables> {
        match change {
            Change::CreateJob { key, name, configuration } => if key < self.next_job {
                None
            } else {
                Some(
                    Tables {
                        jobs: self.jobs.insert(
                            key,
                            JobRow {
                                name,
                                configuration: json_text(configuration),
                                timestamp_start: now,
                                timestamp_end: None,
                            },
                        ),
                        next_job: key + 1,
                        ..self
                    },
                )
            },
            Change::InsertItems { keys, job_id, inputs } => if keys.len() != inputs.len()
                || keys.len() == 0 || !rising(keys, self.next_item) || !self.jobs.contains_key(
                job_id,
            ) {
                None
            } else {
                Some(
                    Tables {
                        items: Map::new(
                            |id: i64| self.items.contains_key(id) || keys.contains(id),
                            |id: i64|
                                if keys.contains(id) {
                                    new_item(job_id, inputs[keys.index_of(id)], now)
                                } else {
                                    self.items[id]
                                },
                        ),
                        next_item: keys.last() + 1,
                        ..self
                    },
                )
            },
            Change::MarkProcessing { ids } => Some(
                self.with_status(|id: i64| ids.contains(id), "processing"@, now),
            ),
            Change::CompleteItem { id, output, status, error } => if self.items.contains_key(id)
                && !is_status(status) {
                None
            } else {
                Some(
                    self.with_items(
                        |k: i64| k == id,
                        |row: ItemRow|
                            ItemRow {
                                output: stored_text(output),
                                status,
                                error,
                                updated_at: now,
                                ..row
                            },
                    ),
                )
            },
            Change::Complete(c) => Some(
                self.with_items(|k: i64| k == c.id, |row: ItemRow| completed(row, c, now)),
            ),
            Change::CloseJob { job_id } => Some(
                if self.jobs.contains_key(job_id) && self.jobs[job_id].timestamp_end is None {
                    Tables {
                        jobs: self.jobs.insert(
                            job_id,
                            JobRow { timestamp_end: Some(now), ..self.jobs[job_id] },
                        ),
                        ..self
                    }
                } else {
                    self
                },
            ),
            Change::RecordRetry {
                item_id,
                attempt_number,
                error,
                sqs_response,
                batch_id,
                input_snapshot,
            } => if !self.items.contains_key(item_id) {
                None
            } else {
                Some(
                    Tables {
                        retries: self.retries.push(
                            RetryRow {
                                item_id,
                                attempt_number,
                                error,
                                sqs_response: stored_text(sqs_response),
                                batch_id,
                                input_snapshot: stored_text(input_snapshot),
                                timestamp: now,
                            },
                        ),
                        ..self
                    },
                )
            },
            Change::ResetProcessing { job_id } => Some(
                self.with_status(
                    |id: i64| self.items[id].job_id == job_id && self.items[id].status
                        == "processing"@,
                    "pending"@,
                    now,
                ),
            ),
            Change::ResetItem { item_id } => Some(
                self.with_status(|id: i64| id == item_id, "pending"@, now),
            ),
        }
    }

    /// What several changes do, one after the other, each at its time. None of them is done where
    /// one is rejected.
    pub open spec fn apply_all(self, changes: Seq<(Change, int)>) -> Option<Tables>
        decreases changes.len(),
    {
        if changes.len() == 0 {
            Some(self)
        } else {
            match self.apply_all(changes.drop_last()) {
                Some(before) => before.apply(changes.last().0, changes.last().1),
                None => None,
            }
        }
    }

    /// The job under a key.
    pub open spec fn job(self, id: i64) -> Option<JobRow> {
        if self.jobs.contains_key(id) {
            Some(self.jobs[id])
        } else {
            None
        }
    }

    /// The items that have a status, of one job where a job is given.
    pub open spec fn items_with(self, job_id: Option<i64>, status: Seq<char>) -> Set<i64> {
        self.items.dom().filter(
            |id: i64|
                self.items[id].status == status && (job_id is Some ==> self.items[id].job_id
                    == job_id->Some_0),
        )
    }

    /// How many items of a job are pending.
    pub open spec fn count_pending(self, job_id: i64) -> nat {
        self.items_with(Some(job_id), "pending"@).len()
    }

    /// How many items of a job are pending or processing.
    pub open spec fn count_open(self, job_id: i64) -> nat {
        (self.items_with(Some(job_id), "pending"@) + self.items_with(
            Some(job_id),
            "processing"@,
        )).len()
    }

    /// Whether `ids` is what the selection of pending items finds: the oldest ones, in order, and no
    /// more than the limit. A negative limit is none.
    pub open spec fn finds(self, job_id: Option<i64>, limit: int, ids: Seq<i64>) -> bool {
        let pending = self.items_with(job_id, "pending"@);
        &&& forall|i: int| 0 <= i < ids.len() ==> pending.contains(#[trigger] ids[i])
        &&& forall|i: int, j: int| 0 <= i < j < ids.len() ==> #[trigger] ids[i] < #[trigger] ids[j]
        &&& limit >= 0 ==> ids.len() <= limit
        &&& forall|id: i64| #[trigger]
            pending.contains(id) && !ids.contains(id) ==> {
                &&& limit >= 0 && ids.len() == limit
                &&& forall|i: int| 0 <= i < ids.len() ==> #[trigger] ids[i] < id
            }
    }

    /// The numbers of the retries of an item, in the order in which they were recorded.
    pub open spec fn attempts(self, item_id: i64) -> Seq<i32> {
        attempts_in(self.retries, item_id)
    }

    /// The number of the last retry of an item: the largest, or zero where there is none.
    pub open spec fn retry_count(self, item_id: i64) -> int {
        match largest(self.attempts(item_id)) {
            Some(n) => n,
            None => 0,
        }
    }

    /// Whether inputs are those of the items with their keys.
    pub open spec fn inputs_match(self, rows: Seq<(i64, Seq<char>)>) -> bool {
        forall|i: int|
            0 <= i < rows.len() ==> {
                &&& self.items.contains_key((#[trigger] rows[i]).0)
                &&& rows[i].1 == self.items[rows[i].0].input
            }
    }

    /// Whether an answer is one that a query can bring. Where a query leaves the order of the rows
    /// open, any order will do.
    pub open spec fn answers(self, query: Query, answer: Answer) -> bool {
        match (query, answer) {
            (Query::ListJobs, Answer::Jobs(rows)) => {
                &&& firsts(rows).no_duplicates()
                &&& forall|id: i64, row: JobRow| #[trigger]
                    rows.contains((id, row)) <==> self.job(id) == Some(row)
            },
            (Query::GetJob { id }, Answer::Jobs(rows)) => rows == match self.job(id) {
                Some(row) => seq![(id, row)],
                None => Seq::empty(),
            },
            (Query::CountPending { job_id }, Answer::Count(n)) => n == self.count_pending(job_id),
            (Query::SelectPending { job_id, limit }, Answer::Keys(ids)) => self.finds(
                job_id,
                limit as int,
                ids,
            ),
            (Query::FetchInputs { ids }, Answer::Inputs(rows)) => {
                &&& firsts(rows).no_duplicates()
                &&& self.inputs_match(rows)
                &&& forall|id: i64| #[trigger]
                    firsts(rows).contains(id) <==> ids.contains(id) && self.items.contains_key(id)
            },
            (Query::PreviewPending { job_id, limit }, Answer::Inputs(rows)) => {
                &&& self.finds(Some(job_id), limit as int, firsts(rows))
                &&& self.inputs_match(rows)
            },
            (Query::JobStatus { job_id }, Answer::Statuses(rows)) => {
                &&& rows.no_duplicates()
                &&& forall|s: Seq<char>, n: int| #[trigger]
                    rows.contains((s, n)) <==> n > 0 && n == self.items_with(Some(job_id), s).len()
            },
            (Query::CountOpen { job_id }, Answer::Count(n)) => n == self.count_open(job_id),
            (Query::RetryCount { item_id }, Answer::Count(n)) => n == self.retry_count(item_id),
            _ => false,
        }
    }
}

/// The numbers of the retries of an item, in order.
pub open spec fn attempts_in(rows: Seq<RetryRow>, item_id: i64) -> Seq<i32>
    decreases rows.len(),
{
    if rows.len() == 0 {
        Seq::empty()
    } else {
        let before = attempts_in(rows.drop_last(), item_id);
        if rows.last().item_id == item_id {
            before.push(rows.last().attempt_number)
        } else {
            before
        }
    }
}

/// The largest of some numbers.
pub open spec fn largest(numbers: Seq<i32>) -> Option<int>
    decreases numbers.len(),
{
    if numbers.len() == 0 {
        None
    } else {
        let last = numbers.last() as int;
        match largest(numbers.drop_last()) {
            Some(n) if n > last => Some(n),
            _ => Some(last),
        }
    }
}

/// Every change keeps the tables sound: in particular, every stored status is one of the four.
pub proof fn changes_keep_the_tables_sound(t: Tables, change: Change, now: int)
    requires
        t.sound(),
    ensures
        t.apply(change, now) matches Some(after) ==> after.sound(),
{
    if let Some(after) = t.apply(change, now) {
        match change {
            Change::InsertItems { keys, .. } => {
                assert(keys[keys.len() - 1] >= t.next_item);
                assert(after.items.dom() =~= t.items.dom() + keys.to_set());
                vstd::seq_lib::seq_to_set_is_finite(keys);
                assert forall|id: i64| #[trigger] after.items.contains_key(id) implies id
                    < after.next_item by {
                    if keys.contains(id) {
                        let i = choose|i: int| 0 <= i < keys.len() && keys[i] == id;
                        if i < keys.len() - 1 {
                            assert(keys[i] < keys[keys.len() - 1]);
                        }
                    } else {
                        assert(t.items.contains_key(id));
                    }
                }
            },
            Change::CreateJob { .. } | Change::CloseJob { .. } => {},
            _ => {
                assert(after.items.dom() =~= t.items.dom());
                assert forall|id: i64| #[trigger] after.items.contains_key(id) implies {
                    &&& id < after.next_item
                    &&& is_status(after.items[id].status)
                    &&& after.jobs.contains_key(after.items[id].job_id)
                } by {
                    assert(t.items.contains_key(id));
                }
            },
        }
    }
}

/// A status outside the four is rejected.
pub proof fn other_statuses_are_rejected(
    t: Tables,
    id: i64,
    output: Option<JsonView>,
    status: Seq<char>,
    error: Option<Seq<char>>,
    now: int,
)
    requires
        t.items.contains_key(id),
        !is_status(status),
    ensures
        t.apply(Change::CompleteItem { id, output, status, error }, now) is None,
{
}

/// Staging takes the items that were found, and no others: they are processing from then on, all
/// other rows stay as they were, and exactly so many fewer items are pending.
pub proof fn staging_takes_what_was_found(
    t: Tables,
    job_id: Option<i64>,
    limit: int,
    ids: Seq<i64>,
    now: int,
)
    requires
        t.sound(),
        t.finds(job_id, limit, ids),
    ensures
        ({
            let after = t.apply(Change::MarkProcessing { ids }, now)->Some_0;
            &&& t.apply(Change::MarkProcessing { ids }, now) is Some
            &&& after.jobs == t.jobs
            &&& after.retries == t.retries
            &&& after.items.dom() == t.items.dom()
            &&& forall|i: int|
                0 <= i < ids.len() ==> {
                    let row = after.items[#[trigger] ids[i]];
                    row == (ItemRow { status: "processing"@, updated_at: now, ..t.items[ids[i]] })
                }
            &&& forall|id: i64| #[trigger]
                t.items.contains_key(id) && !ids.contains(id) ==> after.items[id] == t.items[id]
            &&& after.items_with(job_id, "pending"@) == t.items_with(job_id, "pending"@).difference(
                ids.to_set(),
            )
            &&& after.items_with(job_id, "pending"@).len() + ids.len() == t.items_with(
                job_id,
                "pending"@,
            ).len()
        }),
{
    lemma_statuses_differ();
    let after = t.apply(Change::MarkProcessing { ids }, now)->Some_0;
    let before = t.items_with(job_id, "pending"@);
    let left = after.items_with(job_id, "pending"@);
    let taken = ids.to_set();
    assert(after.items.dom() =~= t.items.dom());
    assert forall|i: int| 0 <= i < ids.len() implies after.items[#[trigger] ids[i]] == (ItemRow {
        status: "processing"@,
        updated_at: now,
        ..t.items[ids[i]]
    }) by {
        assert(before.contains(ids[i]));
        assert(ids.contains(ids[i]));
    }
    assert(left =~= before.difference(taken)) by {
        assert forall|id: i64| left.contains(id) <==> before.difference(taken).contains(id) by {
            if ids.contains(id) {
                let i = choose|i: int| 0 <= i < ids.len() && ids[i] == id;
                assert(after.items[ids[i]].status == "processing"@);
            }
        }
    }
    t.items.dom().lemma_len_filter(
        |id: i64|
            t.items[id].status == "pending"@ && (job_id is Some ==> t.items[id].job_id
                == job_id->Some_0),
    );
    assert(taken.subset_of(before)) by {
        assert forall|id: i64| taken.contains(id) implies before.contains(id) by {
            let i = choose|i: int| 0 <= i < ids.len() && ids[i] == id;
            assert(before.contains(ids[i]));
        }
    }
    assert(ids.no_duplicates()) by {
        assert forall|i: int, j: int| 0 <= i < ids.len() && 0 <= j < ids.len() && i != j implies
            ids[i] != ids[j] by {
            if i < j {
                assert(ids[i] < ids[j]);
            } else {
                assert(ids[j] < ids[i]);
            }
        }
    }
    ids.unique_seq_to_set();
    vstd::seq_lib::seq_to_set_is_finite(ids);
    lemma_set_disjoint_lens(left, taken);
    assert(left + taken =~= before);
}

/// The four statuses are different texts.
pub proof fn lemma_statuses_differ()
    ensures
        "pending"@ != "processing"@,
        "pending"@ != "done"@,
        "pending"@ != "failed"@,
        "processing"@ != "done"@,
        "processing"@ != "failed"@,
        "done"@ != "failed"@,
{
    reveal_strlit("pending");
    reveal_strlit("processing");
    reveal_strlit("done");
    reveal_strlit("failed");
    assert("pending"@[1] != "processing"@[1]);
    assert("pending"@.len() == 7 && "processing"@.len() == 10);
    assert("done"@.len() == 4 && "failed"@.len() == 6);
}

/// Whether a change can put an item back to pending.
pub open spec fn puts_back(change: Change, id: i64, job_id: i64) -> bool {
    match change {
        Change::ResetItem { item_id } => item_id == id,
        Change::ResetProcessing { job_id: job } => job == job_id,
        Change::CompleteItem { id: item_id, status, .. } => item_id == id && status == "pending"@,
        _ => false,
    }
}

proof fn lemma_taken_items_stay_taken(t: Tables, changes: Seq<(Change, int)>, id: i64)
    requires
        t.sound(),
        t.items.contains_key(id),
        t.items[id].status != "pending"@,
        t.apply_all(changes) is Some,
        forall|k: int|
            0 <= k < changes.len() ==> !puts_back(
                (#[trigger] changes[k]).0,
                id,
                t.items[id].job_id,
            ),
    ensures
        ({
            let after = t.apply_all(changes)->Some_0;
            &&& after.sound()
            &&& after.items.contains_key(id)
            &&& after.items[id].job_id == t.items[id].job_id
            &&& after.items[id].status != "pending"@
        }),
    decreases changes.len(),
{
    if changes.len() > 0 {
        lemma_statuses_differ();
        let fewer = changes.drop_last();
        assert forall|k: int| 0 <= k < fewer.len() implies !puts_back(
            (#[trigger] fewer[k]).0,
            id,
            t.items[id].job_id,
        ) by {
            assert(!puts_back(changes[k].0, id, t.items[id].job_id));
        }
        lemma_taken_items_stay_taken(t, fewer, id);
        let before = t.apply_all(fewer)->Some_0;
        let (change, now) = changes.last();
        changes_keep_the_tables_sound(before, change, now);
        assert(!puts_back(changes[changes.len() - 1].0, id, t.items[id].job_id));
        match change {
            Change::InsertItems { keys, .. } => {
                if keys.contains(id) {
                    let i = choose|i: int| 0 <= i < keys.len() && keys[i] == id;
                    assert(keys[i] >= before.next_item);
                }
            },
            _ => {},
        }
    }
}

/// An item is handed out at most once between resets: what was found and marked is not found again,
/// whatever happens in between, unless it is put back.
pub proof fn no_item_is_staged_twice(
    t: Tables,
    first: Seq<i64>,
    job_id: Option<i64>,
    limit: int,
    now: int,
    changes: Seq<(Change, int)>,
    later_job: Option<i64>,
    later_limit: int,
    second: Seq<i64>,
)
    requires
        t.sound(),
        t.finds(job_id, limit, first),
        ({
            let marked = t.apply(Change::MarkProcessing { ids: first }, now)->Some_0;
            &&& marked.apply_all(changes) is Some
            &&& marked.apply_all(changes)->Some_0.finds(later_job, later_limit, second)
            &&& forall|i: int, k: int|
                0 <= i < first.len() && 0 <= k < changes.len() ==> !puts_back(
                    (#[trigger] changes[k]).0,
                    #[trigger] first[i],
                    t.items[first[i]].job_id,
                )
        }),
    ensures
        forall|i: int| 0 <= i < first.len() ==> !second.contains(#[trigger] first[i]),
{
    lemma_statuses_differ();
    staging_takes_what_was_found(t, job_id, limit, first, now);
    changes_keep_the_tables_sound(t, Change::MarkProcessing { ids: first }, now);
    let marked = t.apply(Change::MarkProcessing { ids: first }, now)->Some_0;
    let later = marked.apply_all(changes)->Some_0;
    assert forall|i: int| 0 <= i < first.len() implies !second.contains(#[trigger] first[i]) by {
        let id = first[i];
        assert(t.items_with(job_id, "pending"@).contains(id));
        assert(marked.items[id].status == "processing"@);
        assert forall|k: int| 0 <= k < changes.len() implies !puts_back(
            (#[trigger] changes[k]).0,
            id,
            marked.items[id].job_id,
        ) by {
            assert(!puts_back(changes[k].0, first[i], t.items[first[i]].job_id));
        }
        lemma_taken_items_stay_taken(marked, changes, id);
        if second.contains(id) {
            let j = choose|j: int| 0 <= j < second.len() && second[j] == id;
            assert(later.items_with(later_job, "pending"@).contains(second[j]));
        }
    }
}

/// Closing a job sets its end, unless it has one. Closing it again changes nothing, and nothing else
/// changes either way.
pub proof fn closing_twice_is_closing_once(t: Tables, job_id: i64, now: int, later: int)
    requires
        t.jobs.contains_key(job_id),
    ensures
        ({
            let close = Change::CloseJob { job_id };
            let closed = t.apply(close, now)->Some_0;
            &&& t.apply(close, now) is Some
            &&& closed.jobs[job_id] == (JobRow {
                timestamp_end: match t.jobs[job_id].timestamp_end {
                    Some(end) => Some(end),
                    None => Some(now),
                },
                ..t.jobs[job_id]
            })
            &&& closed.jobs.dom() == t.jobs.dom()
            &&& forall|id: i64| id != job_id && #[trigger]
                t.jobs.contains_key(id) ==> closed.jobs[id] == t.jobs[id]
            &&& closed.items == t.items
            &&& closed.retries == t.retries
            &&& closed.apply(close, later) == Some(closed)
        }),
{
    let closed = t.apply(Change::CloseJob { job_id }, now)->Some_0;
    assert(closed.jobs.dom() =~= t.jobs.dom());
}

/// A job that was created is read back, under a key that no job had before: with its name, its
/// configuration, and no end.
pub proof fn a_created_job_is_read_back(
    t: Tables,
    key: i64,
    name: Seq<char>,
    configuration: JsonView,
    now: int,
)
    requires
        t.sound(),
        t.apply(Change::CreateJob { key, name, configuration }, now) is Some,
    ensures
        t.job(key) is None,
        t.apply(Change::CreateJob { key, name, configuration }, now)->Some_0.job(key) == Some(
            JobRow {
                name,
                configuration: json_text(configuration),
                timestamp_start: now,
                timestamp_end: None,
            },
        ),
{
    if t.jobs.contains_key(key) {
        assert(key < t.next_job);
    }
}

/// Whether a change closes a job.
pub open spec fn closes(change: Change, id: i64) -> bool {
    change == (Change::CloseJob { job_id: id })
}

/// A job keeps its name, its configuration and its start, whatever happens; and it has no end as
/// long as it is not closed.
pub proof fn a_job_stays_as_created(t: Tables, changes: Seq<(Change, int)>, id: i64)
    requires
        t.sound(),
        t.jobs.contains_key(id),
        t.apply_all(changes) is Some,
    ensures
        ({
            let after = t.apply_all(changes)->Some_0;
            &&& after.sound()
            &&& after.job(id) is Some
            &&& after.jobs[id].name == t.jobs[id].name
            &&& after.jobs[id].configuration == t.jobs[id].configuration
            &&& after.jobs[id].timestamp_start == t.jobs[id].timestamp_start
            &&& (forall|k: int| 0 <= k < changes.len() ==> !closes((#[trigger] changes[k]).0, id))
                ==> after.jobs[id].timestamp_end == t.jobs[id].timestamp_end
        }),
    decreases changes.len(),
{
    if changes.len() > 0 {
        let fewer = changes.drop_last();
        a_job_stays_as_created(t, fewer, id);
        let before = t.apply_all(fewer)->Some_0;
        changes_keep_the_tables_sound(before, changes.last().0, changes.last().1);
        assert(before.jobs.contains_key(id));
        if forall|k: int| 0 <= k < changes.len() ==> !closes((#[trigger] changes[k]).0, id) {
            assert(forall|k: int| 0 <= k < fewer.len() ==> #[trigger] fewer[k] == changes[k]);
            assert(!closes(changes[changes.len() - 1].0, id));
        }
    }
}

/// The keys of the jobs that were created.
pub open spec fn created(changes: Seq<(Change, int)>) -> Set<i64>
    decreases changes.len(),
{
    if changes.len() == 0 {
        Set::empty()
    } else {
        let before = created(changes.drop_last());
        match changes.last().0 {
            Change::CreateJob { key, .. } => before.insert(key),
            _ => before,
        }
    }
}

/// There is a job under exactly the keys that creations gave out.
pub proof fn no_job_but_those_created(changes: Seq<(Change, int)>)
    requires
        Tables::empty().apply_all(changes) is Some,
    ensures
        Tables::empty().apply_all(changes)->Some_0.jobs.dom() == created(changes),
        forall|id: i64|
            Tables::empty().apply_all(changes)->Some_0.job(id) is None <==> !created(
                changes,
            ).contains(id),
    decreases changes.len(),
{
    if changes.len() > 0 {
        no_job_but_those_created(changes.drop_last());
    }
    let after = Tables::empty().apply_all(changes)->Some_0;
    assert(after.jobs.dom() =~= created(changes));
    assert forall|id: i64| after.job(id) is None <==> !created(changes).contains(id) by {
        assert(after.jobs.dom().contains(id) <==> created(changes).contains(id));
    }
}

/// The largest of some numbers is one of them, and none is larger.
proof fn lemma_largest(numbers: Seq<i32>)
    ensures
        largest(numbers) is None <==> numbers.len() == 0,
        largest(numbers) matches Some(n) ==> {
            &&& exists|i: int| 0 <= i < numbers.len() && n == #[trigger] numbers[i]
            &&& forall|i: int| 0 <= i < numbers.len() ==> #[trigger] numbers[i] <= n
        },
    decreases numbers.len(),
{
    if numbers.len() > 0 {
        let fewer = numbers.drop_last();
        lemma_largest(fewer);
        let n = largest(numbers)->Some_0;
        if n != numbers.last() {
            let i = choose|i: int| 0 <= i < fewer.len() && n == #[trigger] fewer[i];
            assert(numbers[i] == n);
        } else {
            assert(numbers[numbers.len() - 1] == n);
        }
        assert forall|i: int| 0 <= i < numbers.len() implies #[trigger] numbers[i] <= n by {
            if i < fewer.len() {
                assert(fewer[i] <= largest(fewer)->Some_0);
            }
        }
    }
}

/// The retry count of an item is the largest number that was recorded for it, and zero where none
/// was.
pub proof fn retry_count_is_the_largest_attempt(t: Tables, item_id: i64)
    ensures
        t.attempts(item_id).len() == 0 ==> t.retry_count(item_id) == 0,
        t.attempts(item_id).len() > 0 ==> exists|i: int|
            0 <= i < t.attempts(item_id).len() && t.retry_count(item_id) == #[trigger] t.attempts(
                item_id,
            )[i],
        forall|i: int|
            0 <= i < t.attempts(item_id).len() ==> #[trigger] t.attempts(item_id)[i]
                <= t.retry_count(item_id),
{
    lemma_largest(t.attempts(item_id));
}

/// Recording a retry adds its number to those of its item. No other change, and no retry of another
/// item, changes them or the retry count.
pub proof fn only_its_own_retries_count(t: Tables, change: Change, now: int, item_id: i64)
    requires
        t.apply(change, now) is Some,
    ensures
        ({
            let after = t.apply(change, now)->Some_0;
            match change {
                Change::RecordRetry { item_id: id, attempt_number, .. } if id == item_id => {
                    after.attempts(item_id) == t.attempts(item_id).push(attempt_number)
                },
                _ => {
                    &&& after.attempts(item_id) == t.attempts(item_id)
                    &&& after.retry_count(item_id) == t.retry_count(item_id)
                },
            }
        }),
{
    let after = t.apply(change, now)->Some_0;
    match change {
        Change::RecordRetry { .. } => {
            assert(after.retries.drop_last() =~= t.retries);
        },
        _ => {},
    }
}

/// After retries with the numbers one to `n`, in order, the retry count is `n`.
pub proof fn counting_retries(t: Tables, item_id: i64, n: nat)
    requires
        t.attempts(item_id).len() == n,
        forall|i: int| 0 <= i < n ==> #[trigger] t.attempts(item_id)[i] == i + 1,
    ensures
        t.retry_count(item_id) == n,
{
    retry_count_is_the_largest_attempt(t, item_id);
    if n > 0 {
        assert(t.attempts(item_id)[n - 1] == n);
    }
}

/// Resetting a job puts exactly its items that are processing back to pending: so many more are
/// pending, all other rows stay as they were, and a second reset finds none and changes nothing.
pub proof fn resetting_twice_is_resetting_once(t: Tables, job_id: i64, now: int, later: int)
    requires
        t.sound(),
    ensures
        ({
            let reset = Change::ResetProcessing { job_id };
            let stale = t.items_with(Some(job_id), "processing"@);
            let after = t.apply(reset, now)->Some_0;
            &&& t.apply(reset, now) is Some
            &&& after.jobs == t.jobs
            &&& after.retries == t.retries
            &&& after.items.dom() == t.items.dom()
            &&& forall|id: i64| #[trigger]
                t.items.contains_key(id) ==> after.items[id] == if stale.contains(id) {
                    ItemRow { status: "pending"@, updated_at: now, ..t.items[id] }
                } else {
                    t.items[id]
                }
            &&& after.count_pending(job_id) == t.count_pending(job_id) + stale.len()
            &&& after.items_with(Some(job_id), "processing"@).len() == 0
            &&& after.apply(reset, later) == Some(after)
        }),
{
    lemma_statuses_differ();
    let reset = Change::ResetProcessing { job_id };
    let stale = t.items_with(Some(job_id), "processing"@);
    let pending = t.items_with(Some(job_id), "pending"@);
    let after = t.apply(reset, now)->Some_0;
    assert(after.items.dom() =~= t.items.dom());
    t.items.dom().lemma_len_filter(
        |id: i64|
            t.items[id].status == "processing"@ && (Some(job_id) is Some ==> t.items[id].job_id
                == Some(job_id)->Some_0),
    );
    t.items.dom().lemma_len_filter(
        |id: i64|
            t.items[id].status == "pending"@ && (Some(job_id) is Some ==> t.items[id].job_id
                == Some(job_id)->Some_0),
    );
    assert(after.items_with(Some(job_id), "pending"@) =~= pending + stale);
    lemma_set_disjoint_lens(pending, stale);
    assert(after.items_with(Some(job_id), "processing"@) =~= Set::empty());
    let again = after.apply(reset, later)->Some_0;
    assert(again.items =~= after.items);
}

/// Where items are completed, each under a key of its own, each of them ends as its result says,
/// and no other row changes.
pub proof fn completing_ends_every_item(t: Tables, results: Seq<CompletionView>, now: int)
    requires
        forall|i: int|
            0 <= i < results.len() ==> t.items.contains_key((#[trigger] results[i]).id),
        forall|i: int, j: int|
            0 <= i < j < results.len() ==> (#[trigger] results[i]).id != (
            #[trigger] results[j]).id,
    ensures
        ({
            let changes = results.map_values(|c: CompletionView| (Change::Complete(c), now));
            let after = t.apply_all(changes)->Some_0;
            &&& t.apply_all(changes) is Some
            &&& after.jobs == t.jobs
            &&& after.retries == t.retries
            &&& after.items.dom() == t.items.dom()
            &&& forall|i: int|
                0 <= i < results.len() ==> after.items[(#[trigger] results[i]).id] == completed(
                    t.items[results[i].id],
                    results[i],
                    now,
                )
            &&& forall|id: i64| #[trigger]
                t.items.contains_key(id) && !results.map_values(
                    |c: CompletionView| c.id,
                ).contains(id) ==> after.items[id] == t.items[id]
        }),
    decreases results.len(),
{
    let changes = results.map_values(|c: CompletionView| (Change::Complete(c), now));
    let keys = results.map_values(|c: CompletionView| c.id);
    if results.len() > 0 {
        let fewer = results.drop_last();
        let n = results.len() - 1;
        assert forall|i: int| 0 <= i < fewer.len() implies t.items.contains_key(
            (#[trigger] fewer[i]).id,
        ) by {
            assert(t.items.contains_key(results[i].id));
        }
        assert forall|i: int, j: int| 0 <= i < j < fewer.len() implies (#[trigger] fewer[i]).id != (
        #[trigger] fewer[j]).id by {
            assert(results[i].id != results[j].id);
        }
        completing_ends_every_item(t, fewer, now);
        let fewer_changes = fewer.map_values(|c: CompletionView| (Change::Complete(c), now));
        let fewer_keys = fewer.map_values(|c: CompletionView| c.id);
        assert(changes.drop_last() =~= fewer_changes);
        let before = t.apply_all(fewer_changes)->Some_0;
        let after = t.apply_all(changes)->Some_0;
        assert(t.items.contains_key(results[n].id));
        assert(after.items.dom() =~= t.items.dom());
        assert(!fewer_keys.contains(results[n].id)) by {
            if fewer_keys.contains(results[n].id) {
                let i = choose|i: int| 0 <= i < fewer_keys.len() && fewer_keys[i] == results[n].id;
                assert(results[i].id != results[n].id);
            }
        }
        assert forall|i: int| 0 <= i < results.len() implies after.items[(
        #[trigger] results[i]).id] == completed(t.items[results[i].id], results[i], now) by {
            assert(t.items.contains_key(results[i].id));
            if i < n {
                assert(fewer[i] == results[i]);
                assert(results[i].id != results[n].id);
            }
        }
        assert forall|id: i64| #[trigger]
            t.items.contains_key(id) && !keys.contains(id) implies after.items[id]
            == t.items[id] by {
            assert(keys[n] == results[n].id);
            if fewer_keys.contains(id) {
                let i = choose|i: int| 0 <= i < fewer_keys.len() && fewer_keys[i] == id;
                assert(keys[i] == id);
            }
        }
    }
}

/// The results that succeeded, or those that did not, in order.
pub open spec fn results_where(results: Seq<CompletionView>, success: bool) -> Seq<CompletionView>
    decreases results.len(),
{
    if results.len() == 0 {
        Seq::empty()
    } else {
        let before = results_where(results.drop_last(), success);
        if results.last().success == success {
            before.push(results.last())
        } else {
            before
        }
    }
}

/// The order in which a batch of results is stored.
pub open spec fn storing_order(results: Seq<CompletionView>) -> Seq<CompletionView> {
    results_where(results, true) + results_where(results, false)
}

/// A batch is stored with the statements of its results, in the order in which it is stored.
pub proof fn lemma_batch_statements(results: Seq<CompletionView>)
    ensures
        batch_completion(results) == storing_order(results).map_values(
            |c: CompletionView| Change::Complete(c).statement(),
        ),
{
    lemma_results_where(results, true);
    lemma_results_where(results, false);
    assert(batch_completion(results) =~= storing_order(results).map_values(
        |c: CompletionView| Change::Complete(c).statement(),
    ));
}

proof fn lemma_results_where(results: Seq<CompletionView>, success: bool)
    ensures
        completions_where(results, success) == results_where(results, success).map_values(
            |c: CompletionView| Change::Complete(c).statement(),
        ),
    decreases results.len(),
{
    if results.len() > 0 {
        lemma_results_where(results.drop_last(), success);
    }
    assert(completions_where(results, success) =~= results_where(results, success).map_values(
        |c: CompletionView| Change::Complete(c).statement(),
    ));
}

/// A batch is stored with the results that it holds.
pub proof fn lemma_storing_order(results: Seq<CompletionView>)
    ensures
        storing_order(results).to_multiset() == results.to_multiset(),
    decreases results.len(),
{
    broadcast use group_to_multiset_ensures;

    let order = storing_order(results);
    if results.len() == 0 {
        assert(order =~= results);
    } else {
        let fewer = results.drop_last();
        let last = results.last();
        lemma_storing_order(fewer);
        let done = results_where(fewer, true);
        let failed = results_where(fewer, false);
        assert(results =~= fewer.push(last));
        lemma_multiset_commutative(done, failed);
        if last.success {
            assert(order =~= done.push(last) + failed);
            lemma_multiset_commutative(done.push(last), failed);
        } else {
            assert(order =~= done + failed.push(last));
            lemma_multiset_commutative(done, failed.push(last));
        }
        assert(order.to_multiset() =~= results.to_multiset());
    }
}

/// Where a batch of results is stored, each under a key of its own, with the statements and in the
/// order that it is stored with, each of the items ends as its result says, and no other row changes.
pub proof fn storing_a_batch_ends_every_item(t: Tables, results: Seq<CompletionView>, now: int)
    requires
        forall|i: int|
            0 <= i < results.len() ==> t.items.contains_key((#[trigger] results[i]).id),
        forall|i: int, j: int|
            0 <= i < j < results.len() ==> (#[trigger] results[i]).id != (
            #[trigger] results[j]).id,
    ensures
        ({
            let order = storing_order(results);
            let changes = order.map_values(|c: CompletionView| (Change::Complete(c), now));
            let after = t.apply_all(changes)->Some_0;
            &&& batch_completion(results) == changes.map_values(
                |c: (Change, int)| c.0.statement(),
            )
            &&& t.apply_all(changes) is Some
            &&& after.jobs == t.jobs
            &&& after.retries == t.retries
            &&& after.items.dom() == t.items.dom()
            &&& forall|i: int|
                0 <= i < results.len() ==> after.items[(#[trigger] results[i]).id] == completed(
                    t.items[results[i].id],
                    results[i],
                    now,
                )
            &&& forall|id: i64| #[trigger]
                t.items.contains_key(id) && !results.map_values(
                    |c: CompletionView| c.id,
                ).contains(id) ==> after.items[id] == t.items[id]
        }),
{
    broadcast use group_to_multiset_ensures;

    let order = storing_order(results);
    let changes = order.map_values(|c: CompletionView| (Change::Complete(c), now));
    lemma_batch_statements(results);
    assert(batch_completion(results) =~= changes.map_values(|c: (Change, int)| c.0.statement()));
    lemma_storing_order(results);
    let id = |c: CompletionView| c.id;
    let ids = results.map_values(id);
    let order_ids = order.map_values(id);
    lemma_map_keeps_multiset(order, results, id);
    assert(ids.no_duplicates()) by {
        assert forall|i: int, j: int|
            0 <= i < ids.len() && 0 <= j < ids.len() && i != j implies ids[i] != ids[j] by {
            if i < j {
                assert(results[i].id != results[j].id);
            } else {
                assert(results[j].id != results[i].id);
            }
        }
    }
    ids.lemma_multiset_has_no_duplicates();
    order_ids.lemma_multiset_has_no_duplicates_conv();
    assert forall|i: int| 0 <= i < order.len() implies t.items.contains_key(
        (#[trigger] order[i]).id,
    ) by {
        assert(order.contains(order[i]));
        assert(order.to_multiset().count(order[i]) > 0);
        assert(results.contains(order[i]));
        let k = choose|k: int| 0 <= k < results.len() && results[k] == order[i];
        assert(t.items.contains_key(results[k].id));
    }
    assert forall|i: int, j: int| 0 <= i < j < order.len() implies (#[trigger] order[i]).id != (
    #[trigger] order[j]).id by {
        assert(order_ids[i] != order_ids[j]);
    }
    completing_ends_every_item(t, order, now);
    let after = t.apply_all(changes)->Some_0;
    assert forall|i: int| 0 <= i < results.len() implies after.items[(
    #[trigger] results[i]).id] == completed(t.items[results[i].id], results[i], now) by {
        assert(results.contains(results[i]));
        assert(results.to_multiset().count(results[i]) > 0);
        assert(order.contains(results[i]));
        let k = choose|k: int| 0 <= k < order.len() && order[k] == results[i];
        assert(after.items[order[k].id] == completed(t.items[order[k].id], order[k], now));
    }
    assert forall|key: i64| #[trigger]
        t.items.contains_key(key) && !ids.contains(key) implies after.items[key]
        == t.items[key] by {
        assert(ids.contains(key) <==> ids.to_multiset().count(key) > 0);
        assert(order_ids.contains(key) <==> order_ids.to_multiset().count(key) > 0);
    }
}

/// Inserting items adds them under their keys, in order, as pending and with nothing else: no other
/// row changes, and so many more items of the job are pending.
pub proof fn inserting_adds_pending_items(
    t: Tables,
    keys: Seq<i64>,
    job_id: i64,
    inputs: Seq<JsonView>,
    now: int,
)
    requires
        t.sound(),
        t.apply(Change::InsertItems { keys, job_id, inputs }, now) is Some,
    ensures
        ({
            let after = t.apply(Change::InsertItems { keys, job_id, inputs }, now)->Some_0;
            &&& after.jobs == t.jobs
            &&& after.retries == t.retries
            &&& keys.len() == inputs.len()
            &&& forall|i: int|
                0 <= i < keys.len() ==> {
                    &&& !t.items.contains_key(#[trigger] keys[i])
                    &&& after.items.contains_key(keys[i])
                    &&& after.items[keys[i]] == new_item(job_id, inputs[i], now)
                }
            &&& forall|id: i64| #[trigger]
                t.items.contains_key(id) ==> after.items.contains_key(id) && after.items[id]
                    == t.items[id]
            &&& after.items.dom() == t.items.dom() + keys.to_set()
            &&& after.count_pending(job_id) == t.count_pending(job_id) + keys.len()
        }),
{
    let after = t.apply(Change::InsertItems { keys, job_id, inputs }, now)->Some_0;
    assert(keys.no_duplicates()) by {
        assert forall|i: int, j: int|
            0 <= i < keys.len() && 0 <= j < keys.len() && i != j implies keys[i] != keys[j] by {
            if i < j {
                assert(keys[i] < keys[j]);
            } else {
                assert(keys[j] < keys[i]);
            }
        }
    }
    assert forall|i: int| 0 <= i < keys.len() implies {
        &&& !t.items.contains_key(#[trigger] keys[i])
        &&& after.items.contains_key(keys[i])
        &&& after.items[keys[i]] == new_item(job_id, inputs[i], now)
    } by {
        assert(keys.contains(keys[i]));
        assert(keys[i] >= t.next_item);
        keys.index_of_first_ensures(keys[i]);
        assert(keys.index_of(keys[i]) == i);
    }
    assert forall|id: i64| #[trigger] t.items.contains_key(id) implies after.items.contains_key(id)
        && after.items[id] == t.items[id] by {
        if keys.contains(id) {
            let i = choose|i: int| 0 <= i < keys.len() && keys[i] == id;
            assert(!t.items.contains_key(keys[i]));
        }
    }
    assert(after.items.dom() =~= t.items.dom() + keys.to_set());
    let before = t.items_with(Some(job_id), "pending"@);
    let now_pending = after.items_with(Some(job_id), "pending"@);
    let added = keys.to_set();
    assert(now_pending =~= before + added) by {
        assert forall|id: i64| now_pending.contains(id) <==> (before + added).contains(id) by {
            if keys.contains(id) {
                let i = choose|i: int| 0 <= i < keys.len() && keys[i] == id;
                assert(after.items[keys[i]] == new_item(job_id, inputs[i], now));
            }
            if t.items.contains_key(id) {
                assert(after.items[id] == t.items[id]);
            }
        }
    }
    assert(before.disjoint(added)) by {
        assert forall|id: i64| before.contains(id) implies !added.contains(id) by {
            assert(t.items.contains_key(id));
            if keys.contains(id) {
                let i = choose|i: int| 0 <= i < keys.len() && keys[i] == id;
                assert(!t.items.contains_key(keys[i]));
            }
        }
    }
    t.items.dom().lemma_len_filter(
        |id: i64|
            t.items[id].status == "pending"@ && (Some(job_id) is Some ==> t.items[id].job_id
                == Some(job_id)->Some_0),
    );
    keys.unique_seq_to_set();
    vstd::seq_lib::seq_to_set_is_finite(keys);
    lemma_set_disjoint_lens(before, added);
}

/// Recording a retry and resetting its item puts the item back to pending, and the retry is counted:
/// the count is the number of the retry, where that is the largest so far.
pub proof fn a_retry_puts_its_item_back(
    t: Tables,
    item_id: i64,
    attempt_number: i32,
    error: Option<Seq<char>>,
    sqs_response: Option<JsonView>,
    batch_id: Option<Seq<char>>,
    now: int,
)
    requires
        t.items.contains_key(item_id),
        attempt_number > t.retry_count(item_id),
    ensures
        ({
            let record = Change::RecordRetry {
                item_id,
                attempt_number,
                error,
                sqs_response,
                batch_id,
                input_snapshot: None,
            };
            let recorded = t.apply(record, now)->Some_0;
            let after = recorded.apply(Change::ResetItem { item_id }, now)->Some_0;
            &&& t.apply(record, now) is Some
            &&& recorded.apply(Change::ResetItem { item_id }, now) is Some
            &&& after.items[item_id].status == "pending"@
            &&& after.retry_count(item_id) == attempt_number
        }),
{
    let record = Change::RecordRetry {
        item_id,
        attempt_number,
        error,
        sqs_response,
        batch_id,
        input_snapshot: None,
    };
    let recorded = t.apply(record, now)->Some_0;
    only_its_own_retries_count(t, record, now, item_id);
    only_its_own_retries_count(recorded, Change::ResetItem { item_id }, now, item_id);
    assert(recorded.attempts(item_id).drop_last() =~= t.attempts(item_id));
}

proof fn lemma_no_more_than<T>(a: Seq<T>, b: Seq<T>)
    requires
        b.no_duplicates(),
        forall|x: T| b.contains(x) ==> #[trigger] a.contains(x),
    ensures
        b.len() <= a.len(),
{
    b.unique_seq_to_set();
    a.lemma_cardinality_of_set();
    seq_to_set_is_finite(a);
    assert forall|x: T| b.to_set().contains(x) implies a.to_set().contains(x) by {
        assert(b.contains(x));
        assert(a.contains(x));
    }
    lemma_len_subset(b.to_set(), a.to_set());
}

proof fn lemma_rising_is_unique(a: Seq<i64>, b: Seq<i64>)
    requires
        forall|i: int, j: int| 0 <= i < j < a.len() ==> #[trigger] a[i] < #[trigger] a[j],
        forall|i: int, j: int| 0 <= i < j < b.len() ==> #[trigger] b[i] < #[trigger] b[j],
        forall|id: i64| a.contains(id) <==> b.contains(id),
    ensures
        a == b,
    decreases a.len(),
{
    if a.len() == 0 {
        if b.len() > 0 {
            assert(b.contains(b[0]));
        }
    } else {
        assert(a.contains(a[a.len() - 1]));
        assert(b.len() > 0);
        assert(b.contains(b[b.len() - 1]));
        let at = choose|i: int| 0 <= i < b.len() && b[i] == a.last();
        let bt = choose|i: int| 0 <= i < a.len() && a[i] == b.last();
        assert(a.last() == b.last());
        let a1 = a.drop_last();
        let b1 = b.drop_last();
        assert forall|id: i64| a1.contains(id) <==> b1.contains(id) by {
            if a1.contains(id) {
                let i = choose|i: int| 0 <= i < a1.len() && a1[i] == id;
                assert(a[i] < a[a.len() - 1]);
                assert(a.contains(a[i]));
                let j = choose|j: int| 0 <= j < b.len() && b[j] == id;
                assert(b1[j] == id);
            }
            if b1.contains(id) {
                let i = choose|i: int| 0 <= i < b1.len() && b1[i] == id;
                assert(b[i] < b[b.len() - 1]);
                assert(b.contains(b[i]));
                let j = choose|j: int| 0 <= j < a.len() && a[j] == id;
                assert(a1[j] == id);
            }
        }
        lemma_rising_is_unique(a1, b1);
        assert(a =~= a1.push(a.last()));
        assert(b =~= b1.push(b.last()));
    }
}

proof fn lemma_finds_no_other(t: Tables, job_id: Option<i64>, limit: int, a: Seq<i64>, b: Seq<i64>)
    requires
        t.finds(job_id, limit, a),
        t.finds(job_id, limit, b),
    ensures
        forall|id: i64| b.contains(id) ==> #[trigger] a.contains(id),
{
    let pending = t.items_with(job_id, "pending"@);
    assert forall|id: i64| b.contains(id) implies #[trigger] a.contains(id) by {
        if !a.contains(id) {
            let i = choose|i: int| 0 <= i < b.len() && b[i] == id;
            assert(pending.contains(b[i]));
            assert(a.no_duplicates());
            if forall|y: i64| a.contains(y) ==> #[trigger] b.remove(i).contains(y) {
                lemma_no_more_than(b.remove(i), a);
            } else {
                let y = choose|y: i64| a.contains(y) && !(#[trigger] b.remove(i).contains(y));
                let k = choose|k: int| 0 <= k < a.len() && a[k] == y;
                assert(pending.contains(a[k]));
                assert(a[k] < id);
                if b.contains(y) {
                    let j = choose|j: int| 0 <= j < b.len() && b[j] == y;
                    if j < i {
                        assert(b.remove(i)[j] == y);
                    } else {
                        assert(j > i);
                        assert(b.remove(i)[j - 1] == y);
                    }
                }
                assert(b[i] < y);
            }
        }
    }
}

/// The selection of pending items has one answer.
pub proof fn selecting_has_one_answer(
    t: Tables,
    job_id: Option<i64>,
    limit: int,
    a: Seq<i64>,
    b: Seq<i64>,
)
    requires
        t.finds(job_id, limit, a),
        t.finds(job_id, limit, b),
    ensures
        a == b,
{
    lemma_finds_no_other(t, job_id, limit, a, b);
    lemma_finds_no_other(t, job_id, limit, b, a);
    lemma_rising_is_unique(a, b);
}

/// A preview shows the items that staging would take, in the same order, each with its input.
pub proof fn a_preview_shows_what_would_be_staged(
    t: Tables,
    job_id: i64,
    limit: i64,
    rows: Seq<(i64, Seq<char>)>,
    ids: Seq<i64>,
)
    requires
        t.answers(Query::PreviewPending { job_id, limit }, Answer::Inputs(rows)),
        t.answers(Query::SelectPending { job_id: Some(job_id), limit }, Answer::Keys(ids)),
    ensures
        firsts(rows) == ids,
        rows.len() == ids.len(),
        forall|i: int|
            0 <= i < rows.len() ==> #[trigger] rows[i] == (ids[i], t.items[ids[i]].input),
{
    selecting_has_one_answer(t, Some(job_id), limit as int, firsts(rows), ids);
    assert forall|i: int| 0 <= i < rows.len() implies #[trigger] rows[i] == (
        ids[i],
        t.items[ids[i]].input,
    ) by {
        assert(firsts(rows)[i] == rows[i].0);
    }
}

/// Taking items brings each of them once, with the input that it had, and no other.
pub proof fn taking_brings_every_item_with_its_input(
    t: Tables,
    job_id: Option<i64>,
    limit: i64,
    ids: Seq<i64>,
    now: int,
    rows: Seq<(i64, Seq<char>)>,
)
    requires
        t.answers(Query::SelectPending { job_id, limit }, Answer::Keys(ids)),
        t.apply(Change::MarkProcessing { ids }, now) matches Some(after) && after.answers(
            Query::FetchInputs { ids },
            Answer::Inputs(rows),
        ),
    ensures
        rows.len() == ids.len(),
        forall|id: i64| #[trigger]
            ids.contains(id) ==> rows.contains((id, t.items[id].input)),
        forall|i: int|
            0 <= i < rows.len() ==> ids.contains((#[trigger] rows[i]).0) && rows[i].1
                == t.items[rows[i].0].input,
{
    let after = t.apply(Change::MarkProcessing { ids }, now)->Some_0;
    let keys = firsts(rows);
    let pending = t.items_with(job_id, "pending"@);
    assert forall|id: i64| ids.contains(id) implies #[trigger] keys.contains(id) by {
        let i = choose|i: int| 0 <= i < ids.len() && ids[i] == id;
        assert(pending.contains(ids[i]));
        assert(after.items.contains_key(id));
    }
    assert forall|i: int| 0 <= i < rows.len() implies ids.contains((#[trigger] rows[i]).0)
        && rows[i].1 == t.items[rows[i].0].input by {
        assert(keys[i] == rows[i].0);
        assert(keys.contains(keys[i]));
    }
    assert forall|id: i64| #[trigger] ids.contains(id) implies rows.contains(
        (id, t.items[id].input),
    ) by {
        assert(keys.contains(id));
        let i = choose|i: int| 0 <= i < keys.len() && keys[i] == id;
        assert(rows[i] == (id, t.items[id].input));
    }
    assert(ids.no_duplicates());
    lemma_no_more_than(keys, ids);
    assert forall|id: i64| keys.contains(id) implies #[trigger] ids.contains(id) by {
        let i = choose|i: int| 0 <= i < keys.len() && keys[i] == id;
        assert(rows[i].0 == id);
    }
    lemma_no_more_than(ids, keys);
}

/// The status of a job, its count of pending items and its count of open items agree: each status
/// is counted once, and only where an item has it, under one of the four names; the open items are
/// the pending and the processing ones; and where no item is open, none is pending or processing.
pub proof fn status_and_counts_agree(
    t: Tables,
    job_id: i64,
    rows: Seq<(Seq<char>, int)>,
    pending: int,
    open: int,
)
    requires
        t.sound(),
        t.answers(Query::JobStatus { job_id }, Answer::Statuses(rows)),
        t.answers(Query::CountPending { job_id }, Answer::Count(pending)),
        t.answers(Query::CountOpen { job_id }, Answer::Count(open)),
    ensures
        firsts(rows).no_duplicates(),
        forall|i: int| 0 <= i < rows.len() ==> is_status((#[trigger] rows[i]).0),
        pending > 0 <==> rows.contains(("pending"@, pending)),
        pending == 0 <==> !firsts(rows).contains("pending"@),
        open == t.items_with(Some(job_id), "pending"@).len() + t.items_with(
            Some(job_id),
            "processing"@,
        ).len(),
        open == 0 <==> !firsts(rows).contains("pending"@) && !firsts(rows).contains("processing"@),
{
    lemma_statuses_differ();
    let keys = firsts(rows);
    let waiting = t.items_with(Some(job_id), "pending"@);
    let taken = t.items_with(Some(job_id), "processing"@);
    t.items.dom().lemma_len_filter(
        |id: i64|
            t.items[id].status == "pending"@ && (Some(job_id) is Some ==> t.items[id].job_id
                == Some(job_id)->Some_0),
    );
    t.items.dom().lemma_len_filter(
        |id: i64|
            t.items[id].status == "processing"@ && (Some(job_id) is Some ==> t.items[id].job_id
                == Some(job_id)->Some_0),
    );
    assert(waiting.disjoint(taken));
    lemma_set_disjoint_lens(waiting, taken);
    assert forall|i: int, j: int|
        0 <= i < keys.len() && 0 <= j < keys.len() && i != j implies keys[i] != keys[j] by {
        assert(rows.contains(rows[i]) && rows.contains(rows[j]));
        assert(rows.contains((rows[i].0, rows[i].1)));
        assert(rows.contains((rows[j].0, rows[j].1)));
        assert(rows[i] != rows[j]);
    }
    assert forall|i: int| 0 <= i < rows.len() implies is_status((#[trigger] rows[i]).0) by {
        assert(rows.contains(rows[i]));
        assert(rows.contains((rows[i].0, rows[i].1)));
        let found = t.items_with(Some(job_id), rows[i].0);
        assert(found.len() > 0);
        let id = choose|id: i64| found.contains(id);
        if !found.contains(id) {
            assert(found =~= Set::empty());
        }
        assert(t.items.contains_key(id));
    }
    assert forall|s: Seq<char>| #[trigger] keys.contains(s) <==> t.items_with(
        Some(job_id),
        s,
    ).len() > 0 by {
        let n = t.items_with(Some(job_id), s).len() as int;
        if keys.contains(s) {
            let i = choose|i: int| 0 <= i < keys.len() && keys[i] == s;
            assert(rows.contains(rows[i]));
            assert(rows.contains((s, rows[i].1)));
        }
        if n > 0 {
            assert(rows.contains((s, n)));
            let i = choose|i: int| 0 <= i < rows.len() && rows[i] == (s, n);
            assert(keys[i] == s);
        }
    }
}

/// A statement that sets the database up.
pub enum SetUp {
    Jobs,
    JobItems,
    StatusIndex,
    ItemIndex,
    RetryHistory,
    RetryIndex,
}

impl SetUp {
    /// The statement, as it is run.
    pub open spec fn statement(self) -> StatementView {
        StatementView {
            sql: match self {
                SetUp::Jobs => CREATE_JOBS@,
                SetUp::JobItems => CREATE_JOB_ITEMS@,
                SetUp::StatusIndex => INDEX_JOB_ITEMS_STATUS@,
                SetUp::ItemIndex => INDEX_JOB_ITEMS_ID@,
                SetUp::RetryHistory => CREATE_RETRY_HISTORY@,
                SetUp::RetryIndex => INDEX_RETRY_HISTORY@,
            },
            binds: Seq::empty(),
        }
    }
}

/// The statements that set the database up, in order.
pub open spec fn set_up() -> Seq<SetUp> {
    seq![
        SetUp::Jobs,
        SetUp::JobItems,
        SetUp::StatusIndex,
        SetUp::ItemIndex,
        SetUp::RetryHistory,
        SetUp::RetryIndex,
    ]
}

/// What a database holds: the tables that it has, with their rows and the next key of each.
pub struct Stored {
    pub jobs: Option<(Map<i64, JobRow>, int)>,
    pub items: Option<(Map<i64, ItemRow>, int)>,
    pub retries: Option<Seq<RetryRow>>,
}

/// A table that is there, or else an empty one.
pub open spec fn or_new<T>(table: Option<T>, new: T) -> Option<T> {
    match table {
        Some(_) => table,
        None => Some(new),
    }
}

impl Stored {
    /// A database without tables.
    pub open spec fn nothing() -> Stored {
        Stored { jobs: None, items: None, retries: None }
    }

    /// What a statement of the setup does: a table is made where it is missing, and an index changes
    /// no row.
    pub open spec fn set_up_by(self, step: SetUp) -> Stored {
        match step {
            SetUp::Jobs => Stored { jobs: or_new(self.jobs, (Map::empty(), 1)), ..self },
            SetUp::JobItems => Stored { items: or_new(self.items, (Map::empty(), 1)), ..self },
            SetUp::RetryHistory => Stored { retries: or_new(self.retries, Seq::empty()), ..self },
            _ => self,
        }
    }

    /// What several statements of the setup do.
    pub open spec fn set_up_by_all(self, steps: Seq<SetUp>) -> Stored
        decreases steps.len(),
    {
        if steps.len() == 0 {
            self
        } else {
            self.set_up_by_all(steps.drop_last()).set_up_by(steps.last())
        }
    }

    /// The tables of a database that has all of them.
    pub open spec fn tables(self) -> Tables {
        Tables {
            jobs: self.jobs->Some_0.0,
            next_job: self.jobs->Some_0.1,
            items: self.items->Some_0.0,
            next_item: self.items->Some_0.1,
            retries: self.retries->Some_0,
        }
    }
}

/// Setting a database up makes the tables that are missing, without a row, and keeps every row of
/// those that are there.
pub proof fn setting_up_keeps_every_row(stored: Stored)
    ensures
        stored.set_up_by_all(set_up()) == (Stored {
            jobs: or_new(stored.jobs, (Map::empty(), 1)),
            items: or_new(stored.items, (Map::empty(), 1)),
            retries: or_new(stored.retries, Seq::empty()),
        }),
        stored.set_up_by_all(set_up()).set_up_by_all(set_up()) == stored.set_up_by_all(set_up()),
{
    lemma_set_up(stored);
    lemma_set_up(stored.set_up_by_all(set_up()));
}

proof fn lemma_set_up(stored: Stored)
    ensures
        stored.set_up_by_all(set_up()) == (Stored {
            jobs: or_new(stored.jobs, (Map::empty(), 1)),
            items: or_new(stored.items, (Map::empty(), 1)),
            retries: or_new(stored.retries, Seq::empty()),
        }),
{
    reveal_with_fuel(Stored::set_up_by_all, 7);
    let five = set_up().drop_last();
    let four = five.drop_last();
    let three = four.drop_last();
    let two = three.drop_last();
    let one = two.drop_last();
    assert(one.drop_last() =~= Seq::empty());
}

/// The files that are left where the database `name` is cleaned up: its own are deleted where they
/// exist.
pub open spec fn cleaned(files: Set<Seq<char>>, name: Seq<char>) -> Set<Seq<char>> {
    files.difference(database_files(name).to_set())
}

/// After a clean-up none of the files of the database exists, and no other file is gone. A second
/// clean-up changes nothing.
pub proof fn cleaning_up_twice_is_cleaning_up_once(files: Set<Seq<char>>, name: Seq<char>)
    ensures
        forall|i: int|
            0 <= i < database_files(name).len() ==> !cleaned(files, name).contains(
                #[trigger] database_files(name)[i],
            ),
        forall|file: Seq<char>|
            files.contains(file) && !database_files(name).contains(file) ==> #[trigger] cleaned(
                files,
                name,
            ).contains(file),
        cleaned(files, name).subset_of(files),
        cleaned(cleaned(files, name), name) == cleaned(files, name),
{
    let own = database_files(name);
    assert forall|i: int| 0 <= i < own.len() implies !cleaned(files, name).contains(
        #[trigger] own[i],
    ) by {
        assert(own.to_set().contains(own[i]));
    }
    assert(cleaned(cleaned(files, name), name) =~= cleaned(files, name));
}

/// What the database `name` holds where `files` exist: nothing where its own file is missing.
pub open spec fn stored_in(files: Set<Seq<char>>, name: Seq<char>, content: Stored) -> Stored {
    if files.contains(database_files(name)[0]) {
        content
    } else {
        Stored::nothing()
    }
}

/// A database that was cleaned up and is opened again is there, and empty: there is no job.
pub proof fn a_cleaned_database_is_empty(
    files: Set<Seq<char>>,
    name: Seq<char>,
    content: Stored,
)
    ensures
        stored_in(cleaned(files, name), name, content).set_up_by_all(set_up()).tables()
            == Tables::empty(),
        forall|id: i64|
            (#[trigger] stored_in(cleaned(files, name), name, content).set_up_by_all(
                set_up(),
            ).tables().job(id)) is None,
{
    cleaning_up_twice_is_cleaning_up_once(files, name);
    assert(!cleaned(files, name).contains(database_files(name)[0]));
    setting_up_keeps_every_row(Stored::nothing());
}

/// Each question is put to the database in these words.
pub proof fn each_question_is_put_in_these_words(query: Query)
    ensures
        query is ListJobs ==> query.statement().sql
            == "SELECT id, name, configuration, timestamp_start, timestamp_end FROM jobs"@,
        query is GetJob ==> query.statement().sql
            == "SELECT id, name, configuration, timestamp_start, timestamp_end FROM jobs WHERE id = $1"@,
        query is CountPending ==> query.statement().sql
            == "SELECT COUNT(*) as count FROM job_items WHERE job_id = $1 AND status = 'pending'"@,
        query matches Query::SelectPending { job_id, .. } ==> query.statement().sql
            == if job_id is Some {
            "SELECT id FROM job_items WHERE job_id = $1 AND status = 'pending' ORDER BY id LIMIT $2"@
        } else {
            "SELECT id FROM job_items WHERE status = 'pending' ORDER BY id LIMIT $1"@
        },
        query is PreviewPending ==> query.statement().sql
            == "SELECT id, input FROM job_items WHERE job_id = $1 AND status = 'pending' ORDER BY id LIMIT $2"@,
        query is JobStatus ==> query.statement().sql
            == "SELECT status, COUNT(*) as count FROM job_items WHERE job_id = $1 GROUP BY status"@,
        query is CountOpen ==> query.statement().sql
            == "SELECT COUNT(*) as pending_count FROM job_items WHERE job_id = $1 AND status IN ('pending', 'processing')"@,
        query is RetryCount ==> query.statement().sql
            == "SELECT COALESCE(MAX(attempt_number), 0) as count FROM retry_history WHERE item_id = $1"@,
        query matches Query::FetchInputs { ids } ==> query.statement() == about_items(
            "SELECT id, input FROM job_items WHERE id IN ("@,
            ids,
        ),
{
}

/// What is asked is asked of the job, the item or the items that are meant, and with the limit that
/// was given.
pub proof fn each_question_is_about_what_is_meant(query: Query)
    ensures
        query is ListJobs ==> query.statement().binds.len() == 0,
        query matches Query::GetJob { id } ==> query.statement().binds == seq![SqlView::Int(id)],
        query matches Query::CountPending { job_id } ==> query.statement().binds == seq![
            SqlView::Int(job_id),
        ],
        query matches Query::SelectPending { job_id: Some(job), limit } ==> query.statement().binds
            == seq![SqlView::Int(job), SqlView::Int(limit)],
        query matches Query::SelectPending { job_id: None, limit } ==> query.statement().binds
            == seq![SqlView::Int(limit)],
        query matches Query::PreviewPending { job_id, limit } ==> query.statement().binds == seq![
            SqlView::Int(job_id),
            SqlView::Int(limit),
        ],
        query matches Query::JobStatus { job_id } ==> query.statement().binds == seq![
            SqlView::Int(job_id),
        ],
        query matches Query::CountOpen { job_id } ==> query.statement().binds == seq![
            SqlView::Int(job_id),
        ],
        query matches Query::RetryCount { item_id } ==> query.statement().binds == seq![
            SqlView::Int(item_id),
        ],
{
}

/// Each change is made in these words.
pub proof fn each_change_is_made_in_these_words(change: Change)
    ensures
        change is CreateJob ==> change.statement().sql
            == "INSERT INTO jobs (name, configuration) VALUES ($1, $2) RETURNING id"@,
        change matches Change::InsertItems { inputs, .. } ==> change.statement().sql
            == "INSERT INTO job_items (job_id, input, status) "@ + "VALUES "@ + row_list(inputs.len()),
        change matches Change::MarkProcessing { ids } ==> change.statement() == about_items(
            "UPDATE job_items SET status = 'processing', updated_at = CURRENT_TIMESTAMP WHERE id IN ("@,
            ids,
        ),
        change is CompleteItem ==> change.statement().sql
            == "UPDATE job_items SET output = $1, status = $2, error = $3, updated_at = CURRENT_TIMESTAMP WHERE id = $4"@,
        change matches Change::Complete(c) ==> change.statement().sql == if c.success {
            "UPDATE job_items SET output = $1, status = 'done', updated_at = CURRENT_TIMESTAMP WHERE id = $2"@
        } else {
            "UPDATE job_items SET output = $1, status = 'failed', error = $2, updated_at = CURRENT_TIMESTAMP WHERE id = $3"@
        },
        change is CloseJob ==> change.statement().sql
            == "UPDATE jobs SET timestamp_end = CURRENT_TIMESTAMP WHERE id = $1 AND timestamp_end IS NULL"@,
        change is RecordRetry ==> change.statement().sql
            == "INSERT INTO retry_history (item_id, attempt_number, error, sqs_response, batch_id, input_snapshot) VALUES ($1, $2, $3, $4, $5, $6)"@,
        change is ResetProcessing ==> change.statement().sql
            == "UPDATE job_items SET status = 'pending', updated_at = CURRENT_TIMESTAMP WHERE job_id = $1 AND status = 'processing'"@,
        change is ResetItem ==> change.statement().sql
            == "UPDATE job_items SET status = 'pending', updated_at = CURRENT_TIMESTAMP WHERE id = $1"@,
{
}

/// The database is set up in these words.
pub proof fn the_database_is_set_up_in_these_words()
    ensures
        set_up().map_values(|step: SetUp| step.statement().sql) == seq![
            "CREATE TABLE IF NOT EXISTS jobs (id INTEGER PRIMARY KEY AUTOINCREMENT, name TEXT NOT NULL, configuration JSON DEFAULT '{}', timestamp_start DATETIME DEFAULT CURRENT_TIMESTAMP, timestamp_end DATETIME)"@,
            "CREATE TABLE IF NOT EXISTS job_items (id INTEGER PRIMARY KEY AUTOINCREMENT, job_id INTEGER NOT NULL REFERENCES jobs(id) ON DELETE CASCADE, input JSON NOT NULL, output JSON, status TEXT DEFAULT 'pending' CHECK (status IN ('pending', 'processing', 'done', 'failed')), error TEXT, created_at DATETIME DEFAULT CURRENT_TIMESTAMP, updated_at DATETIME DEFAULT CURRENT_TIMESTAMP)"@,
            "CREATE INDEX IF NOT EXISTS idx_job_items_status_job ON job_items(status, job_id)"@,
            "CREATE INDEX IF NOT EXISTS idx_job_items_id ON job_items(id)"@,
            "CREATE TABLE IF NOT EXISTS retry_history (id INTEGER PRIMARY KEY AUTOINCREMENT, item_id INTEGER NOT NULL REFERENCES job_items(id) ON DELETE CASCADE, attempt_number INTEGER NOT NULL, error TEXT, sqs_response JSON, batch_id TEXT, input_snapshot JSON, timestamp DATETIME DEFAULT CURRENT_TIMESTAMP)"@,
            "CREATE INDEX IF NOT EXISTS idx_retry_history_item_id ON retry_history(item_id)"@,
        ],
{
}

} // verus!
