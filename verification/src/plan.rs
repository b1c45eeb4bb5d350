//! Sending a job: what has to hold before, how much is done at once, and what is said of it.

use vstd::prelude::*;
use vstd::string::*;
use crate::chunks::{chunks_make_up_the_list, chunks_of, concat};
use crate::database::JobModel;
use crate::entry::MAX_BATCH_ENTRIES;
use crate::text::{decimal, decimal_i64, decimal_int, decimal_u64, same_text};
use crate::worker::{message_body, transform_with, ItemView, JobItem};

verus! {

broadcast use vstd::string::group_string_axioms;

/// The name of the jobs that can be sent.
pub const SEND_JOB_NAME: &'static str = "send_batch";

/// As many items as are staged at once where nothing else is asked for.
pub const DEFAULT_STAGE_SIZE: i64 = 1000;

/// How many results can wait for the writer.
pub const RESULT_CAPACITY: usize = 1000;

/// How many requests can wait for the writer.
pub const REQUEST_CAPACITY: usize = 100;

/// As many entries per batch as were asked for, and no more than the service takes.
pub open spec fn batch_cap(batch_size: usize) -> usize {
    if batch_size < MAX_BATCH_ENTRIES {
        batch_size
    } else {
        MAX_BATCH_ENTRIES
    }
}

/// Caps the number of entries per batch.
pub fn capped_batch_size(batch_size: usize) -> (r: usize)
    ensures
        r == batch_cap(batch_size),
{
    if batch_size < MAX_BATCH_ENTRIES {
        batch_size
    } else {
        MAX_BATCH_ENTRIES
    }
}

/// No batch holds more than the service takes, whatever batch size was asked for: neither one that
/// filled up nor the last one.
pub proof fn no_batch_is_too_large<T>(batch_size: usize, xs: Seq<T>)
    requires
        batch_size > 0,
    ensures
        forall|k: int|
            0 <= k < chunks_of(xs, batch_cap(batch_size) as nat).len() ==> (#[trigger] chunks_of(
                xs,
                batch_cap(batch_size) as nat,
            )[k]).len() <= MAX_BATCH_ENTRIES,
{
    chunks_make_up_the_list(xs, batch_cap(batch_size) as nat);
}

/// Why a job cannot be sent.
pub open spec fn refusal(job_id: i64, name: Option<Seq<char>>) -> Option<Seq<char>> {
    match name {
        None => Some("Job "@ + decimal_int(job_id as int) + " not found"@),
        Some(name) => if name == SEND_JOB_NAME@ {
            None
        } else {
            Some(
                "Job "@ + decimal_int(job_id as int) + " has name '"@ + name
                    + "', expected 'send_batch'"@,
            )
        },
    }
}

/// The name of a job that was looked up.
pub open spec fn name_of(job: Option<JobModel>) -> Option<Seq<char>> {
    match job {
        Some(job) => Some(job.name@),
        None => None,
    }
}

/// Lets a job through that exists and has the right name.
pub fn check_job(job_id: i64, job: Option<JobModel>) -> (r: Result<JobModel, String>)
    ensures
        match r {
            Ok(found) => refusal(job_id, name_of(job)) is None && job == Some(found),
            Err(message) => refusal(job_id, name_of(job)) == Some(message@),
        },
{
    match job {
        None => {
            let mut message = "Job ".to_string();
            message.append(decimal_i64(job_id).as_str());
            message.append(" not found");
            Err(message)
        },
        Some(found) => if same_text(found.name.as_str(), SEND_JOB_NAME) {
            Ok(found)
        } else {
            let mut message = "Job ".to_string();
            message.append(decimal_i64(job_id).as_str());
            message.append(" has name '");
            message.append(found.name.as_str());
            message.append("', expected 'send_batch'");
            Err(message)
        },
    }
}

/// How many items are to be sent: all that are pending, or as many as the limit says.
pub open spec fn items_to_send(pending: int, limit: Option<int>) -> int {
    match limit {
        None => pending,
        Some(n) => if n <= 0 {
            0
        } else if n < pending {
            n
        } else {
            pending
        },
    }
}

/// How many items are staged at once: as asked for, else all of them up to a bound.
pub open spec fn stage_size_for(asked: Option<int>, to_send: int) -> int {
    match asked {
        Some(n) => n,
        None => if to_send < DEFAULT_STAGE_SIZE {
            to_send
        } else {
            DEFAULT_STAGE_SIZE as int
        },
    }
}

/// An optional number.
pub open spec fn number(n: Option<i64>) -> Option<int> {
    match n {
        Some(n) => Some(n as int),
        None => None,
    }
}

/// How a job is sent.
#[derive(Debug)]
pub struct RunPlan {
    /// How many items are to be sent.
    pub to_send: i64,
    /// How many are staged at once.
    pub stage_size: i64,
}

/// Works out how a job is sent. There is no plan where there is nothing to send.
pub fn plan_run(pending: i64, stage_size: Option<i64>, limit: Option<i64>) -> (r: Option<RunPlan>)
    ensures
        match r {
            Some(plan) => {
                &&& plan.to_send == items_to_send(pending as int, number(limit))
                &&& plan.to_send != 0
                &&& plan.stage_size == stage_size_for(number(stage_size), plan.to_send as int)
            },
            None => items_to_send(pending as int, number(limit)) == 0,
        },
{
    let to_send: i64 = match limit {
        None => pending,
        Some(n) => if n <= 0 {
            0
        } else if n < pending {
            n
        } else {
            pending
        },
    };
    if to_send == 0 {
        return None;
    }
    let stage_size: i64 = match stage_size {
        Some(n) => n,
        None => if to_send < DEFAULT_STAGE_SIZE {
            to_send
        } else {
            DEFAULT_STAGE_SIZE
        },
    };
    Some(RunPlan { to_send, stage_size })
}

/// What a run starts with.
#[derive(Debug)]
pub enum RunStart {
    /// Show so many items, and send nothing.
    Preview(i64),
    /// Send items: up to so many where there is a limit.
    Send(Option<i64>),
}

/// What a run starts with: a dry run shows the planned items, and any other sends them.
pub open spec fn run_start(plan: RunPlan, limit: Option<i64>, dry_run: bool) -> RunStart {
    if dry_run {
        RunStart::Preview(plan.to_send)
    } else {
        RunStart::Send(
            match limit {
                Some(_) => Some(plan.to_send),
                None => None,
            },
        )
    }
}

/// Decides what a run starts with.
pub fn start_run(plan: &RunPlan, limit: Option<i64>, dry_run: bool) -> (r: RunStart)
    ensures
        r == run_start(*plan, limit, dry_run),
        r is Send <==> !dry_run,
{
    if dry_run {
        RunStart::Preview(plan.to_send)
    } else {
        match limit {
            Some(_) => RunStart::Send(Some(plan.to_send)),
            None => RunStart::Send(None),
        }
    }
}

/// The limits of the passes that send items, one after the other, where `requeued` says how many
/// items were put back in each. The first pass that puts nothing back is the last.
pub open spec fn sending_passes(start: RunStart, requeued: Seq<nat>) -> Seq<Option<int>>
    decreases requeued.len(),
{
    match start {
        RunStart::Preview(_) => Seq::empty(),
        RunStart::Send(limit) => if requeued.len() == 0 {
            seq![number(limit)]
        } else {
            let before = sending_passes(start, requeued.drop_last());
            match next_pass_limit(number(limit), requeued.last()) {
                Some(next) if before.len() == requeued.len() => before.push(next),
                _ => before,
            }
        },
    }
}

/// A dry run sends nothing: there is no pass that sends items, whatever limit was asked for. Any
/// other run starts with one, over the planned number of items where there is a limit.
pub proof fn a_dry_run_sends_nothing(plan: RunPlan, limit: Option<i64>, requeued: Seq<nat>)
    ensures
        sending_passes(run_start(plan, limit, true), requeued).len() == 0,
        ({
            let passes = sending_passes(run_start(plan, limit, false), requeued);
            &&& 0 < passes.len() <= requeued.len() + 1
            &&& passes[0] == if limit is Some {
                Some(plan.to_send as int)
            } else {
                None
            }
        }),
    decreases requeued.len(),
{
    if requeued.len() > 0 {
        a_dry_run_sends_nothing(plan, limit, requeued.drop_last());
    }
}

/// After a pass that puts nothing back there is no other: there are no more passes than there were
/// passes before the first such one, and that one.
pub proof fn a_pass_that_puts_nothing_back_is_the_last(
    start: RunStart,
    requeued: Seq<nat>,
    k: int,
)
    requires
        0 <= k < requeued.len(),
        requeued[k] == 0,
    ensures
        sending_passes(start, requeued).len() <= k + 1,
    decreases requeued.len(),
{
    lemma_passes(start, requeued.drop_last());
    if k < requeued.len() - 1 {
        a_pass_that_puts_nothing_back_is_the_last(start, requeued.drop_last(), k);
    }
}

proof fn lemma_passes(start: RunStart, requeued: Seq<nat>)
    ensures
        sending_passes(start, requeued).len() <= requeued.len() + 1,
    decreases requeued.len(),
{
    if requeued.len() > 0 {
        lemma_passes(start, requeued.drop_last());
    }
}

/// No more items are sent than are pending, nor than the limit says; and all of them are where
/// there is no limit.
pub proof fn plan_keeps_to_the_limit(pending: int, limit: Option<int>)
    requires
        pending >= 0,
    ensures
        0 <= items_to_send(pending, limit) <= pending,
        limit is None ==> items_to_send(pending, limit) == pending,
        limit matches Some(n) ==> n >= 0 ==> items_to_send(pending, limit) <= n,
        limit matches Some(n) ==> n >= pending ==> items_to_send(pending, limit) == pending,
{
}

/// How many items can wait for the senders: two batches for each sender. There is no such number
/// where it is zero or too large.
pub fn channel_capacity(batch_size: usize, concurrency: usize) -> (r: Option<usize>)
    ensures
        match r {
            Some(n) => n > 0 && n == batch_size * concurrency * 2,
            None => batch_size * concurrency == 0 || batch_size * concurrency * 2 > usize::MAX,
        },
{
    match batch_size.checked_mul(concurrency) {
        Some(n) => if n == 0 {
            None
        } else {
            n.checked_mul(2)
        },
        None => {
            assert(batch_size * concurrency * 2 >= batch_size * concurrency) by (nonlinear_arith)
                requires
                    batch_size >= 0,
                    concurrency >= 0,
            ;
            None
        },
    }
}

/// The limit of the next pass over a job, where items were put back for another try: as many more
/// items as were put back, or no limit where there was none. There is no next pass where no item
/// was put back.
pub open spec fn next_pass_limit(limit: Option<int>, requeued: nat) -> Option<Option<int>> {
    if requeued == 0 {
        None
    } else {
        match limit {
            None => Some(None),
            Some(_) => Some(
                Some(
                    if requeued < i64::MAX {
                        requeued as int
                    } else {
                        i64::MAX as int
                    },
                ),
            ),
        }
    }
}

/// Works out whether there is a next pass over a job.
pub fn next_pass(limit: Option<i64>, requeued: u64) -> (r: Option<Option<i64>>)
    ensures
        match r {
            Some(next) => next_pass_limit(number(limit), requeued as nat) == Some(number(next)),
            None => next_pass_limit(number(limit), requeued as nat) is None,
        },
{
    if requeued == 0 {
        return None;
    }
    match limit {
        None => Some(None),
        Some(_) => {
            let next: i64 = if requeued < 9223372036854775807u64 {
                requeued as i64
            } else {
                i64::MAX
            };
            Some(Some(next))
        },
    }
}

/// How many items may be sent in all: the limit of each pass, added up, where `requeued` says how
/// many items were put back in each pass but the last.
pub open spec fn allowance(limit: int, requeued: Seq<nat>) -> int
    decreases requeued.len(),
{
    if requeued.len() == 0 {
        limit
    } else {
        allowance(limit, requeued.drop_last()) + match next_pass_limit(
            Some(limit),
            requeued.last(),
        ) {
            Some(Some(n)) => n,
            _ => 0,
        }
    }
}

/// All the times that an item was put back.
pub open spec fn put_back(requeued: Seq<nat>) -> nat
    decreases requeued.len(),
{
    if requeued.len() == 0 {
        0
    } else {
        put_back(requeued.drop_last()) + requeued.last()
    }
}

/// Over all passes, no more items are sent than the limit says, not counting an item again when it
/// is tried again.
pub proof fn passes_keep_to_the_limit(limit: int, requeued: Seq<nat>)
    ensures
        allowance(limit, requeued) <= limit + put_back(requeued),
        (forall|k: int| 0 <= k < requeued.len() ==> #[trigger] requeued[k] <= i64::MAX)
            ==> allowance(limit, requeued) == limit + put_back(requeued),
    decreases requeued.len(),
{
    if requeued.len() > 0 {
        let fewer = requeued.drop_last();
        passes_keep_to_the_limit(limit, fewer);
        if forall|k: int| 0 <= k < requeued.len() ==> #[trigger] requeued[k] <= i64::MAX {
            assert(forall|k: int| 0 <= k < fewer.len() ==> #[trigger] fewer[k] == requeued[k]);
            assert(requeued[requeued.len() - 1] <= i64::MAX);
        }
    }
}

/// What is said where there is nothing to send.
pub fn nothing_pending(job_id: i64) -> (r: String)
    ensures
        r@ == "No pending items to process for job "@ + decimal_int(job_id as int),
{
    let mut r = "No pending items to process for job ".to_string();
    r.append(decimal_i64(job_id).as_str());
    r
}

/// What is said at the start.
pub fn opening_line(job_id: i64, plan: &RunPlan, batch_size: usize, concurrency: usize) -> (r:
    String)
    ensures
        r@ == "Processing job "@ + decimal_int(job_id as int) + " ("@ + decimal_int(
            plan.to_send as int,
        ) + " pending items, stage_size="@ + decimal_int(plan.stage_size as int) + ", batch_size="@
            + decimal(batch_size as nat) + ", concurrency="@ + decimal(concurrency as nat)
            + ")\n"@,
{
    let mut r = "Processing job ".to_string();
    r.append(decimal_i64(job_id).as_str());
    r.append(" (");
    r.append(decimal_i64(plan.to_send).as_str());
    r.append(" pending items, stage_size=");
    r.append(decimal_i64(plan.stage_size).as_str());
    r.append(", batch_size=");
    r.append(decimal_u64(batch_size as u64).as_str());
    r.append(", concurrency=");
    r.append(decimal_u64(concurrency as u64).as_str());
    r.append(")\n");
    r
}

/// What is said at the end, where so many items are still open.
pub fn closing_line(job_id: i64, remaining: Option<i64>) -> (r: String)
    ensures
        r@ == match remaining {
            None => "✓ Job "@ + decimal_int(job_id as int) + " completed successfully"@,
            Some(n) => "Job "@ + decimal_int(job_id as int) + " still has "@ + decimal_int(n as int)
                + " items pending/processing"@,
        },
{
    match remaining {
        None => {
            let mut r = "✓ Job ".to_string();
            r.append(decimal_i64(job_id).as_str());
            r.append(" completed successfully");
            r
        },
        Some(n) => {
            let mut r = "Job ".to_string();
            r.append(decimal_i64(job_id).as_str());
            r.append(" still has ");
            r.append(decimal_i64(n).as_str());
            r.append(" items pending/processing");
            r
        },
    }
}

/// The items of a dry run: the key and the message of each.
pub open spec fn preview_items(items: Seq<ItemView>, input_type: Seq<char>) -> Seq<char>
    decreases items.len(),
{
    if items.len() == 0 {
        Seq::empty()
    } else {
        preview_items(items.drop_last(), input_type) + "  #"@ + decimal_int(
            items.last().db_id as int,
        ) + ": "@ + message_body(items.last().input, input_type) + "\n"@
    }
}

/// What a dry run says: which messages would be sent where.
pub open spec fn preview_text(
    job_id: i64,
    queue_url: Seq<char>,
    items: Seq<ItemView>,
    input_type: Seq<char>,
) -> Seq<char> {
    "Dry run: "@ + decimal(items.len()) + " items of job "@ + decimal_int(job_id as int)
        + " would be sent to "@ + queue_url + "\n"@ + preview_items(items, input_type)
}

/// Says what would be sent.
pub fn preview(job_id: i64, queue_url: &str, items: &Vec<JobItem>, input_type: &str) -> (r: String)
    ensures
        r@ == preview_text(job_id, queue_url@, items.deep_view(), input_type@),
{
    let mut r = "Dry run: ".to_string();
    r.append(decimal_u64(items.len() as u64).as_str());
    r.append(" items of job ");
    r.append(decimal_i64(job_id).as_str());
    r.append(" would be sent to ");
    r.append(queue_url);
    r.append("\n");
    let ghost head = r@;
    let ghost views = items.deep_view();
    assert(r@ =~= head + preview_items(views.take(0), input_type@));
    let mut i: usize = 0;
    while i < items.len()
        invariant
            i <= items@.len(),
            views == items.deep_view(),
            r@ == head + preview_items(views.take(i as int), input_type@),
        decreases items@.len() - i,
    {
        proof {
            assert(views.take(i + 1).drop_last() =~= views.take(i as int));
            assert(views.take(i + 1).last() == items@[i as int]@);
        }
        let (_, body) = transform_with(&items[i].input, input_type, "");
        r.append("  #");
        r.append(decimal_i64(items[i].db_id).as_str());
        r.append(": ");
        r.append(body.as_str());
        r.append("\n");
        assert(r@ =~= head + preview_items(views.take(i + 1), input_type@));
        i += 1;
    }
    assert(views.take(views.len() as int) =~= views);
    r
}

/// A batch holds as many entries as were asked for where the service takes so many, and else ten:
/// never more of either.
pub proof fn a_batch_is_as_large_as_it_may_be(batch_size: usize)
    ensures
        batch_cap(batch_size) <= batch_size,
        batch_cap(batch_size) <= 10,
        batch_cap(batch_size) == batch_size || batch_cap(batch_size) == 10,
{
}

/// With a limit exactly as many items are sent as it says, where so many are pending, and else all
/// that are pending: the smaller of the two, and none where the limit is negative. Without a limit
/// all are sent.
pub proof fn exactly_as_many_are_sent_as_the_limit_says(pending: int, n: int)
    requires
        pending >= 0,
    ensures
        0 <= n <= pending ==> items_to_send(pending, Some(n)) == n,
        n >= pending ==> items_to_send(pending, Some(n)) == pending,
        n <= 0 ==> items_to_send(pending, Some(n)) == 0,
        items_to_send(pending, None) == pending,
{
}

/// As many items are staged at once as was asked for. Where nothing was, all that are to be sent
/// are, but no more than a thousand.
pub proof fn a_stage_is_as_large_as_was_asked(asked: int, to_send: int)
    ensures
        stage_size_for(Some(asked), to_send) == asked,
        to_send <= 1000 ==> stage_size_for(None, to_send) == to_send,
        to_send >= 1000 ==> stage_size_for(None, to_send) == 1000,
{
}

/// A job can be sent exactly where it is there and is called `send_batch`. What is said of one that
/// cannot names the job, and the name that it has.
pub proof fn only_jobs_of_the_right_name_are_sent(job_id: i64, name: Option<Seq<char>>)
    ensures
        refusal(job_id, name) is None <==> name == Some("send_batch"@),
        name is None ==> refusal(job_id, name) == Some(
            "Job "@ + decimal_int(job_id as int) + " not found"@,
        ),
        name matches Some(other) ==> other != "send_batch"@ ==> refusal(job_id, name) == Some(
            "Job "@ + decimal_int(job_id as int) + " has name '"@ + other
                + "', expected 'send_batch'"@,
        ),
{
}

/// A dry run shows as many items as would be sent, and any other run sends so many: a run without a
/// limit takes what is there.
pub proof fn a_dry_run_shows_what_would_be_sent(plan: RunPlan, limit: Option<i64>)
    ensures
        run_start(plan, limit, true) == RunStart::Preview(plan.to_send),
        limit is Some ==> run_start(plan, limit, false) == RunStart::Send(Some(plan.to_send)),
        limit is None ==> run_start(plan, limit, false) == RunStart::Send(None),
{
}

/// There is another pass exactly where items were put back, and it takes as many items as were put
/// back where there is a limit.
pub proof fn another_pass_takes_what_was_put_back(limit: Option<int>, requeued: nat)
    ensures
        next_pass_limit(limit, requeued) is None <==> requeued == 0,
        limit is None && requeued > 0 ==> next_pass_limit(limit, requeued) == Some(None::<int>),
        limit is Some && 0 < requeued <= i64::MAX ==> next_pass_limit(limit, requeued) == Some(
            Some(requeued as int),
        ),
        limit is Some && requeued > i64::MAX ==> next_pass_limit(limit, requeued) == Some(
            Some(i64::MAX as int),
        ),
{
}

/// As long as every pass puts items back, there is one pass more than there were, each over as many
/// items as the pass before it put back, or without a limit where there is none.
pub proof fn passes_go_on_while_items_are_put_back(limit: Option<i64>, requeued: Seq<nat>)
    requires
        forall|k: int| 0 <= k < requeued.len() ==> 0 < #[trigger] requeued[k] <= i64::MAX,
    ensures
        ({
            let passes = sending_passes(RunStart::Send(limit), requeued);
            &&& passes.len() == requeued.len() + 1
            &&& forall|k: int|
                1 <= k < passes.len() ==> #[trigger] passes[k] == match limit {
                    Some(_) => Some(requeued[k - 1] as int),
                    None => None,
                }
            &&& passes[0] == match limit {
                Some(n) => Some(n as int),
                None => None,
            }
        }),
    decreases requeued.len(),
{
    if requeued.len() > 0 {
        let fewer = requeued.drop_last();
        assert forall|k: int| 0 <= k < fewer.len() implies 0 < #[trigger] fewer[k] <= i64::MAX by {
            assert(0 < requeued[k] <= i64::MAX);
        }
        passes_go_on_while_items_are_put_back(limit, fewer);
        assert(0 < requeued[requeued.len() - 1] <= i64::MAX);
    }
}

/// A dry run shows every item that would be sent, in order: its key, and the very message that would
/// be sent for it. It says how many they are, of which job, and where they would go.
pub proof fn a_dry_run_shows_every_item(
    job_id: i64,
    queue_url: Seq<char>,
    items: Seq<ItemView>,
    input_type: Seq<char>,
)
    ensures
        preview_text(job_id, queue_url, items, input_type) == "Dry run: "@ + decimal(items.len())
            + " items of job "@ + decimal_int(job_id as int) + " would be sent to "@ + queue_url
            + "\n"@ + concat(
            Seq::new(
                items.len(),
                |i: int|
                    "  #"@ + decimal_int(items[i].db_id as int) + ": "@ + message_body(
                        items[i].input,
                        input_type,
                    ) + "\n"@,
            ),
        ),
    decreases items.len(),
{
    lemma_preview_lines(items, input_type);
}

proof fn lemma_preview_lines(items: Seq<ItemView>, input_type: Seq<char>)
    ensures
        preview_items(items, input_type) == concat(
            Seq::new(
                items.len(),
                |i: int|
                    "  #"@ + decimal_int(items[i].db_id as int) + ": "@ + message_body(
                        items[i].input,
                        input_type,
                    ) + "\n"@,
            ),
        ),
    decreases items.len(),
{
    let line = |i: int|
        "  #"@ + decimal_int(items[i].db_id as int) + ": "@ + message_body(
            items[i].input,
            input_type,
        ) + "\n"@;
    let lines = Seq::new(items.len(), line);
    if items.len() > 0 {
        let fewer = items.drop_last();
        lemma_preview_lines(fewer, input_type);
        let before = Seq::new(
            fewer.len(),
            |i: int|
                "  #"@ + decimal_int(fewer[i].db_id as int) + ": "@ + message_body(
                    fewer[i].input,
                    input_type,
                ) + "\n"@,
        );
        assert(lines.drop_last() =~= before);
        assert(lines.last() == line(items.len() - 1));
        assert(preview_items(items, input_type) =~= concat(before) + lines.last());
    } else {
        assert(concat(lines) =~= Seq::empty());
    }
}

} // verus!
