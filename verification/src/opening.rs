//! Opening a run: the checks that come before anything is staged or sent, in their order.

use vstd::prelude::*;
use vstd::string::*;
use crate::database::JobModel;
use crate::failure::{says_queue_missing, SdkFailure};
use crate::plan::{
    check_job, items_to_send, name_of, nothing_pending, number, plan_run, refusal, run_start,
    stage_size_for, start_run, RunPlan, RunStart,
};
use crate::queues::{missing_queue_message, missing_queue_text, verify_queue_exists, QueueCheck};
use crate::text::decimal_int;

verus! {

broadcast use vstd::string::group_string_axioms;

/// What is asked of a run.
#[derive(Debug)]
pub struct SendRequest {
    pub job_id: i64,
    pub queue_url: String,
    pub stage_size: Option<i64>,
    pub limit: Option<i64>,
    pub dry_run: bool,
}

/// Where the opening is.
#[derive(Clone, Copy, Debug)]
pub enum Opening {
    /// The job is being looked up.
    Job,
    /// The queue is being checked.
    Queue,
    /// The queue is missing, and those that are there are being listed.
    Listing,
    /// The pending items are being counted.
    Count,
    /// The opening is over.
    Over,
}

/// What happens in the opening.
#[derive(Debug)]
pub enum OpeningEvent {
    /// The job was looked up.
    JobLookedUp(Option<JobModel>),
    /// The queue was checked: how the request for its attributes failed, if it did, and the
    /// client's account of the failure.
    QueueChecked { failure: Option<SdkFailure>, account: String },
    /// The queues that are there were listed.
    QueuesListed(Vec<String>),
    /// The pending items were counted.
    Counted(i64),
}

/// What to do next.
#[derive(Debug)]
pub enum OpeningAction {
    /// Check the queue. The items of the job are to be read as this input type says.
    CheckQueue { input_type: String },
    /// List the queues that are there.
    ListQueues,
    /// Count the pending items.
    CountPending,
    /// Give up, with this error.
    Refuse(String),
    /// Stop, and say this: there is nothing to do.
    Stop(String),
    /// Show so many items, and send nothing.
    Preview(i64),
    /// Send items after this plan: up to so many where there is a limit.
    Send { plan: RunPlan, wanted: Option<i64> },
}

/// What an [`OpeningEvent`] stands for.
pub enum OpeningEventView {
    JobLookedUp(Option<JobModel>),
    QueueChecked { failure: Option<SdkFailure>, account: Seq<char> },
    QueuesListed(Seq<Seq<char>>),
    Counted(i64),
}

/// What an [`OpeningAction`] stands for.
pub enum OpeningActionView {
    CheckQueue { input_type: Seq<char> },
    ListQueues,
    CountPending,
    Refuse(Seq<char>),
    Stop(Seq<char>),
    Preview(i64),
    Send { plan: RunPlan, wanted: Option<i64> },
}

impl View for OpeningEvent {
    type V = OpeningEventView;

    open spec fn view(&self) -> OpeningEventView {
        match *self {
            OpeningEvent::JobLookedUp(job) => OpeningEventView::JobLookedUp(job),
            OpeningEvent::QueueChecked { failure, account } => OpeningEventView::QueueChecked {
                failure,
                account: account@,
            },
            OpeningEvent::QueuesListed(urls) => OpeningEventView::QueuesListed(urls.deep_view()),
            OpeningEvent::Counted(pending) => OpeningEventView::Counted(pending),
        }
    }
}

impl View for OpeningAction {
    type V = OpeningActionView;

    open spec fn view(&self) -> OpeningActionView {
        match *self {
            OpeningAction::CheckQueue { input_type } => OpeningActionView::CheckQueue {
                input_type: input_type@,
            },
            OpeningAction::ListQueues => OpeningActionView::ListQueues,
            OpeningAction::CountPending => OpeningActionView::CountPending,
            OpeningAction::Refuse(message) => OpeningActionView::Refuse(message@),
            OpeningAction::Stop(message) => OpeningActionView::Stop(message@),
            OpeningAction::Preview(count) => OpeningActionView::Preview(count),
            OpeningAction::Send { plan, wanted } => OpeningActionView::Send { plan, wanted },
        }
    }
}

/// Whether an event can happen where the opening is.
pub open spec fn opening_accepts(state: Opening, event: OpeningEventView) -> bool {
    match state {
        Opening::Job => event is JobLookedUp,
        Opening::Queue => event is QueueChecked,
        Opening::Listing => event is QueuesListed,
        Opening::Count => event is Counted,
        Opening::Over => false,
    }
}

/// The plan for a job with so many pending items.
pub open spec fn planned(request: SendRequest, pending: i64) -> RunPlan {
    let to_send = items_to_send(pending as int, number(request.limit));
    RunPlan {
        to_send: to_send as i64,
        stage_size: stage_size_for(number(request.stage_size), to_send) as i64,
    }
}

/// What an event leads to.
pub open spec fn opening_step(request: SendRequest, event: OpeningEventView) -> (
    Opening,
    OpeningActionView,
) {
    match event {
        OpeningEventView::JobLookedUp(job) => match refusal(request.job_id, name_of(job)) {
            Some(message) => (Opening::Over, OpeningActionView::Refuse(message)),
            None => (
                Opening::Queue,
                OpeningActionView::CheckQueue { input_type: job->Some_0.configuration.input_type@ },
            ),
        },
        OpeningEventView::QueueChecked { failure, account } => match failure {
            None => (Opening::Count, OpeningActionView::CountPending),
            Some(e) => if says_queue_missing(e) {
                (Opening::Listing, OpeningActionView::ListQueues)
            } else {
                (
                    Opening::Over,
                    OpeningActionView::Refuse("Failed to verify queue: "@ + account),
                )
            },
        },
        OpeningEventView::QueuesListed(urls) => (
            Opening::Over,
            OpeningActionView::Refuse(missing_queue_text(request.queue_url@, urls)),
        ),
        OpeningEventView::Counted(pending) => if items_to_send(
            pending as int,
            number(request.limit),
        ) == 0 {
            (
                Opening::Over,
                OpeningActionView::Stop(
                    "No pending items to process for job "@ + decimal_int(request.job_id as int),
                ),
            )
        } else {
            let plan = planned(request, pending);
            match run_start(plan, request.limit, request.dry_run) {
                RunStart::Preview(count) => (Opening::Over, OpeningActionView::Preview(count)),
                RunStart::Send(wanted) => (
                    Opening::Over,
                    OpeningActionView::Send { plan, wanted },
                ),
            }
        },
    }
}

/// Takes an event in. Says where the opening is then, and what to do. The opening starts with
/// looking the job up.
pub fn next_opening(request: &SendRequest, state: Opening, event: OpeningEvent) -> (r: (
    Opening,
    OpeningAction,
))
    requires
        opening_accepts(state, event@),
    ensures
        (r.0, r.1@) == opening_step(*request, event@),
{
    match event {
        OpeningEvent::JobLookedUp(job) => match check_job(request.job_id, job) {
            Ok(found) => (
                Opening::Queue,
                OpeningAction::CheckQueue { input_type: found.configuration.input_type },
            ),
            Err(message) => (Opening::Over, OpeningAction::Refuse(message)),
        },
        OpeningEvent::QueueChecked { failure, account } => match verify_queue_exists(
            &failure,
            account.as_str(),
        ) {
            QueueCheck::Exists => (Opening::Count, OpeningAction::CountPending),
            QueueCheck::Missing => (Opening::Listing, OpeningAction::ListQueues),
            QueueCheck::Failed(message) => (Opening::Over, OpeningAction::Refuse(message)),
        },
        OpeningEvent::QueuesListed(urls) => (
            Opening::Over,
            OpeningAction::Refuse(missing_queue_message(request.queue_url.as_str(), &urls)),
        ),
        OpeningEvent::Counted(pending) => match plan_run(
            pending,
            request.stage_size,
            request.limit,
        ) {
            None => (Opening::Over, OpeningAction::Stop(nothing_pending(request.job_id))),
            Some(plan) => {
                assert(plan == planned(*request, pending));
                match start_run(&plan, request.limit, request.dry_run) {
                    RunStart::Preview(count) => (Opening::Over, OpeningAction::Preview(count)),
                    RunStart::Send(wanted) => (
                        Opening::Over,
                        OpeningAction::Send { plan, wanted },
                    ),
                }
            },
        },
    }
}

/// Where the opening is after `events`.
pub open spec fn opening_after(request: SendRequest, events: Seq<OpeningEventView>) -> Opening {
    if events.len() == 0 {
        Opening::Job
    } else {
        opening_step(request, events.last()).0
    }
}

/// Whether each of `events` could happen when it did.
pub open spec fn is_opening(request: SendRequest, events: Seq<OpeningEventView>) -> bool
    decreases events.len(),
{
    if events.len() == 0 {
        true
    } else {
        &&& is_opening(request, events.drop_last())
        &&& opening_accepts(opening_after(request, events.drop_last()), events.last())
    }
}

/// Whether a job can be sent.
pub open spec fn job_is_fine(request: SendRequest, event: OpeningEventView) -> bool {
    event matches OpeningEventView::JobLookedUp(job) && refusal(request.job_id, name_of(job))
        is None
}

/// Whether a queue is there.
pub open spec fn queue_is_there(event: OpeningEventView) -> bool {
    event matches OpeningEventView::QueueChecked { failure, .. } && failure is None
}

proof fn lemma_opening_order(request: SendRequest, events: Seq<OpeningEventView>)
    requires
        is_opening(request, events),
    ensures
        match opening_after(request, events) {
            Opening::Job => events.len() == 0,
            Opening::Queue => events.len() == 1 && job_is_fine(request, events[0]),
            Opening::Listing => {
                &&& events.len() == 2
                &&& job_is_fine(request, events[0])
                &&& !queue_is_there(events[1])
            },
            Opening::Count => {
                &&& events.len() == 2
                &&& job_is_fine(request, events[0])
                &&& queue_is_there(events[1])
            },
            Opening::Over => events.len() > 0,
        },
    decreases events.len(),
{
    if events.len() > 0 {
        lemma_opening_order(request, events.drop_last());
    }
}

/// Nothing is shown or sent but after three steps, in this order: the job was found and can be sent,
/// the queue is there, and there are items to send. So nothing is staged or sent after a refused job
/// or a missing queue. A dry run sends nothing.
pub proof fn nothing_is_sent_before_the_checks(request: SendRequest, events: Seq<OpeningEventView>)
    requires
        is_opening(request, events),
        events.len() > 0,
    ensures
        ({
            let action = opening_step(request, events.last()).1;
            &&& action is Preview || action is Send ==> {
                &&& events.len() == 3
                &&& job_is_fine(request, events[0])
                &&& queue_is_there(events[1])
                &&& events[2] matches OpeningEventView::Counted(pending) && items_to_send(
                    pending as int,
                    number(request.limit),
                ) != 0
            }
            &&& action is Send ==> !request.dry_run
            &&& action is Preview ==> request.dry_run
        }),
{
    lemma_opening_order(request, events.drop_last());
}

/// After a refusal, and where there was nothing to do, nothing follows.
pub proof fn a_refusal_is_final(
    request: SendRequest,
    events: Seq<OpeningEventView>,
    event: OpeningEventView,
)
    requires
        is_opening(request, events),
        events.len() > 0,
        opening_step(request, events.last()).1 is Refuse || opening_step(
            request,
            events.last(),
        ).1 is Stop,
    ensures
        !is_opening(request, events.push(event)),
{
    assert(events.push(event).drop_last() =~= events);
}

/// What the checks lead to. A job that is there and is called `send_batch` leads on to the queue,
/// with its own input type, and any other is refused. A queue that is there leads on to counting;
/// one that is missing is told with the queues that are there; any other failure is told in the words
/// of the client.
pub proof fn each_check_leads_on_or_refuses(
    request: SendRequest,
    job: Option<JobModel>,
    failure: Option<SdkFailure>,
    account: Seq<char>,
    urls: Seq<Seq<char>>,
)
    ensures
        ({
            let (state, action) = opening_step(request, OpeningEventView::JobLookedUp(job));
            if job is Some && job->Some_0.name@ == "send_batch"@ {
                &&& state is Queue
                &&& action == OpeningActionView::CheckQueue {
                    input_type: job->Some_0.configuration.input_type@,
                }
            } else {
                &&& state is Over
                &&& action == OpeningActionView::Refuse(
                    "Job "@ + decimal_int(request.job_id as int) + match job {
                        None => " not found"@,
                        Some(other) => " has name '"@ + other.name@
                            + "', expected 'send_batch'"@,
                    },
                )
            }
        }),
        ({
            let (state, action) = opening_step(
                request,
                OpeningEventView::QueueChecked { failure, account },
            );
            &&& failure is None <==> state is Count
            &&& failure is None <==> action is CountPending
            &&& failure matches Some(e) ==> {
                &&& says_queue_missing(e) ==> state is Listing && action is ListQueues
                &&& !says_queue_missing(e) ==> state is Over && action
                    == OpeningActionView::Refuse("Failed to verify queue: "@ + account)
            }
        }),
        ({
            let (state, action) = opening_step(request, OpeningEventView::QueuesListed(urls));
            &&& state is Over
            &&& action == OpeningActionView::Refuse(missing_queue_text(request.queue_url@, urls))
        }),
{
    if let Some(other) = job {
        let front = "Job "@ + decimal_int(request.job_id as int);
        assert(front + " has name '"@ + other.name@ + "', expected 'send_batch'"@ =~= front + (
        " has name '"@ + other.name@ + "', expected 'send_batch'"@));
    }
}

/// What the count of pending items leads to. Where nothing is to be sent, the run stops and says of
/// which job. Else a dry run shows exactly as many items as would be sent: all that are pending, or
/// the smaller of the limit and those; and any other run sends them, with as many staged at once as
/// was asked for.
pub proof fn the_count_leads_to_the_run(request: SendRequest, pending: i64)
    requires
        pending >= 0,
    ensures
        ({
            let (state, action) = opening_step(request, OpeningEventView::Counted(pending));
            let count = match request.limit {
                None => pending as int,
                Some(n) => if n < 0 {
                    0
                } else if n < pending {
                    n as int
                } else {
                    pending as int
                },
            };
            &&& state is Over
            &&& count == 0 ==> action == OpeningActionView::Stop(
                "No pending items to process for job "@ + decimal_int(request.job_id as int),
            )
            &&& count > 0 && request.dry_run ==> (action matches OpeningActionView::Preview(shown)
                && shown == count)
            &&& count > 0 && !request.dry_run ==> (action matches OpeningActionView::Send {
                plan,
                wanted,
            } && {
                &&& plan.to_send == count
                &&& request.stage_size matches Some(n) ==> plan.stage_size == n
                &&& request.stage_size is None ==> plan.stage_size == if count < 1000 {
                    count
                } else {
                    1000
                }
                &&& request.limit is None ==> wanted is None
                &&& request.limit is Some ==> (wanted matches Some(n) && n == count)
            })
        }),
{
}

/// What happens in the opening, and what to do next, stand for all that they hold.
pub proof fn steps_stand_for_all_they_hold(event: OpeningEvent, action: OpeningAction)
    ensures
        event matches OpeningEvent::JobLookedUp(job) ==> event@ == OpeningEventView::JobLookedUp(
            job,
        ),
        event matches OpeningEvent::QueueChecked { failure, account } ==> event@ == (
        OpeningEventView::QueueChecked { failure, account: account@ }),
        event matches OpeningEvent::QueuesListed(urls) ==> (
        event@ matches OpeningEventView::QueuesListed(views) && {
            &&& views.len() == urls@.len()
            &&& forall|i: int| 0 <= i < urls@.len() ==> #[trigger] views[i] == urls@[i]@
        }),
        event matches OpeningEvent::Counted(n) ==> event@ == OpeningEventView::Counted(n),
        action matches OpeningAction::CheckQueue { input_type } ==> action@ == (
        OpeningActionView::CheckQueue { input_type: input_type@ }),
        action is ListQueues <==> action@ is ListQueues,
        action is CountPending <==> action@ is CountPending,
        action matches OpeningAction::Refuse(said) ==> action@ == OpeningActionView::Refuse(said@),
        action matches OpeningAction::Stop(said) ==> action@ == OpeningActionView::Stop(said@),
        action matches OpeningAction::Preview(n) ==> action@ == OpeningActionView::Preview(n),
        action matches OpeningAction::Send { plan, wanted } ==> action@ == (OpeningActionView::Send {
            plan,
            wanted,
        }),
{
}

} // verus!
