//! The command line: the commands, and what each of them starts with.

use vstd::prelude::*;
use vstd::string::*;
use crate::database::{
    default_stored, Database, CREATE_JOB, JOB_STATUS, LIST_JOBS, RESET_PROCESSING,
};
use crate::json::{json_text, JsonView};
use crate::plan::{batch_cap, capped_batch_size};
use crate::report::{a_database_has_three_files, cleanup_database, database_files};
use crate::settings::{effective_endpoint, load_aws_config, AwsSettings};
use crate::statement::{SqlView, Statement, StatementView};
use crate::tables::{Change, JobRow, Tables};

verus! {

broadcast use vstd::string::group_string_axioms;

/// The name of the database.
pub const DATABASE_NAME: &'static str = "sqs";

/// Paths of the file system, as std has them.
#[verifier::external_type_specification]
#[verifier::external_body]
pub struct ExPathBuf(std::path::PathBuf);

/// Commands on jobs.
#[derive(Debug)]
pub enum JobCommands {
    /// List all jobs.
    List,
    /// Show the status of a job.
    Status { id: i64 },
    /// Load items from a file, or from the standard input.
    Load { file: Option<std::path::PathBuf>, name: String },
    /// Put the items of a job that are processing back to pending.
    Reset { id: i64 },
}

/// The statement that creates a job with the default configuration.
pub open spec fn job_creation(name: Seq<char>) -> StatementView {
    StatementView {
        sql: CREATE_JOB@,
        binds: seq![SqlView::Text(name), SqlView::Text(json_text(default_stored()))],
    }
}

impl JobCommands {
    /// The statement that the command starts with.
    pub fn run(&self) -> (r: Statement)
        ensures
            r@ == match *self {
                JobCommands::List => StatementView { sql: LIST_JOBS@, binds: Seq::empty() },
                JobCommands::Status { id } => StatementView {
                    sql: JOB_STATUS@,
                    binds: seq![SqlView::Int(id)],
                },
                JobCommands::Load { name, .. } => job_creation(name@),
                JobCommands::Reset { id } => StatementView {
                    sql: RESET_PROCESSING@,
                    binds: seq![SqlView::Int(id)],
                },
            },
    {
        match self {
            JobCommands::List => Database::list_jobs(),
            JobCommands::Status { id } => Database::check_job_status(*id),
            JobCommands::Load { name, .. } => Database::create_job(name.as_str()),
            JobCommands::Reset { id } => Database::reset_processing_items(*id),
        }
    }
}

/// Commands on the database.
#[derive(Debug)]
pub enum DatabaseCommands {
    /// Make a job with made-up items up.
    Seed { name: String, items: usize, progress: bool },
    /// Delete the database.
    Clean,
}

/// What a command on the database starts with.
#[derive(Debug)]
pub enum DatabaseStart {
    /// Run this statement.
    Run(Statement),
    /// Delete these files, where they exist.
    Delete(Vec<String>),
}

impl DatabaseCommands {
    /// What the command starts with.
    pub fn run(&self) -> (r: DatabaseStart)
        ensures
            match r {
                DatabaseStart::Run(statement) => *self is Seed && statement@ == job_creation(
                    self->name@,
                ),
                DatabaseStart::Delete(files) => *self is Clean && files.deep_view()
                    == database_files(DATABASE_NAME@),
            },
    {
        match self {
            DatabaseCommands::Seed { name, .. } => DatabaseStart::Run(
                Database::create_job(name.as_str()),
            ),
            DatabaseCommands::Clean => DatabaseStart::Delete(cleanup_database(DATABASE_NAME)),
        }
    }
}

/// All commands.
#[allow(inconsistent_fields)]
#[derive(Debug)]
pub enum Commands {
    /// Show the configuration.
    Info,
    /// List all queues.
    List,
    /// Show the messages of a queue.
    Poll { url: String },
    /// Send lines of the standard input to a queue.
    Send { url: String },
    /// Send the items of a job to a queue.
    SendBatch {
        job_id: i64,
        queue_url: String,
        /// Items per batch.
        batch_size: usize,
        /// Items to stage at once.
        stage_size: Option<i64>,
        /// How many batches are sent at the same time.
        concurrency: usize,
        /// How often an item is tried again.
        retry_limit: u32,
        /// How many items are sent at most.
        limit: Option<i64>,
        /// Whether to show what would be sent, and send nothing.
        dry_run: bool,
    },
    /// Commands on jobs.
    Job { command: JobCommands },
    /// Commands on the database.
    Database { command: DatabaseCommands },
}

/// The command line.
#[derive(Debug)]
pub struct Cli {
    /// Whether to use the service for local development.
    pub local: bool,
    /// The endpoint of the service, where it is not the standard one.
    pub endpoint: Option<String>,
    pub command: Commands,
}

impl Commands {
    /// The command with batches that are no larger than the service takes.
    pub open spec fn capped(self) -> Commands {
        match self {
            Commands::SendBatch {
                job_id,
                queue_url,
                batch_size,
                stage_size,
                concurrency,
                retry_limit,
                limit,
                dry_run,
            } => Commands::SendBatch {
                job_id,
                queue_url,
                batch_size: batch_cap(batch_size),
                stage_size,
                concurrency,
                retry_limit,
                limit,
                dry_run,
            },
            _ => self,
        }
    }
}

impl Cli {
    /// The settings that the command runs with, and the command. Its batches are no larger than the
    /// service takes.
    pub fn run(self) -> (r: (AwsSettings, Commands))
        ensures
            r.0.endpoint.deep_view() == effective_endpoint(self.local, self.endpoint.deep_view()),
            r.0.test_credentials == self.local,
            r.1 == self.command.capped(),
    {
        let settings = load_aws_config(self.local, &self.endpoint);
        let command = match self.command {
            Commands::SendBatch {
                job_id,
                queue_url,
                batch_size,
                stage_size,
                concurrency,
                retry_limit,
                limit,
                dry_run,
            } => Commands::SendBatch {
                job_id,
                queue_url,
                batch_size: capped_batch_size(batch_size),
                stage_size,
                concurrency,
                retry_limit,
                limit,
                dry_run,
            },
            other => other,
        };
        (settings, command)
    }
}

/// Capping a command changes the batch size of a run alone, and that only where it is more than the
/// service takes: it is ten then. Every other command stays as it is.
pub proof fn a_cap_changes_large_batches_alone(command: Commands)
    ensures
        !(command is SendBatch) ==> command.capped() == command,
        command matches Commands::SendBatch {
            job_id,
            queue_url,
            batch_size,
            stage_size,
            concurrency,
            retry_limit,
            limit,
            dry_run,
        } ==> {
            &&& batch_size <= 10 ==> command.capped() == command
            &&& batch_size > 10 ==> command.capped() == (Commands::SendBatch {
                job_id,
                queue_url,
                batch_size: 10,
                stage_size,
                concurrency,
                retry_limit,
                limit,
                dry_run,
            })
        },
{
}

/// A job that is loaded or made up is created under the name that was asked for, and reads text.
pub proof fn a_job_is_created_under_its_name(name: Seq<char>, key: i64, t: Tables, now: int)
    requires
        t.next_job <= key,
    ensures
        ({
            let text = json_text(
                JsonView::Object(seq![("input_type"@, JsonView::Text("text"@))]),
            );
            let change = Change::CreateJob {
                key,
                name,
                configuration: JsonView::Object(seq![("input_type"@, JsonView::Text("text"@))]),
            };
            &&& job_creation(name).sql == CREATE_JOB@
            &&& job_creation(name).binds.len() == 2
            &&& job_creation(name).binds[0] == SqlView::Text(name)
            &&& job_creation(name).binds[1] == SqlView::Text(text)
            &&& job_creation(name) == change.statement()
            &&& t.apply(change, now) matches Some(after) && after.job(key) == Some(
                JobRow {
                    name,
                    configuration: text,
                    timestamp_start: now,
                    timestamp_end: None,
                },
            )
        }),
{
}

/// The database of the command line is the one called `sqs`.
pub proof fn the_database_is_called_sqs(file: Seq<char>)
    ensures
        database_files(DATABASE_NAME@).contains(file) <==> file == "sqs"@ + ".db"@ || file
            == "sqs"@ + ".db-wal"@ || file == "sqs"@ + ".db-shm"@,
{
    a_database_has_three_files(DATABASE_NAME@, file);
}

} // verus!
