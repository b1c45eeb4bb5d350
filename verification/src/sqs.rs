//! Receiving messages, and the requests that are made of a queue.

use vstd::prelude::*;
use vstd::string::*;
use crate::chunks::concat;
use crate::entry::{entries_of, new_draws, plan_send_batch, BatchEntry, SendError};
use crate::ids::{is_uuid_v4, valid_batch_id, IdSource};
use crate::queues::QueueListing;
use crate::settings::AwsSettings;
use crate::text::{copied, joined};
use crate::worker::{entry_error, write_entry_error, FailedEntry, SendReply};

verus! {

broadcast use vstd::string::group_string_axioms;

/// The most messages that are received at once.
pub const MAX_MESSAGES: i32 = 10;

/// For how many seconds a received message is hidden from others.
pub const VISIBILITY_TIMEOUT: i32 = 15;

/// How often a poll receives messages at most.
pub const MAX_TRIES: u32 = 10;

/// What is said where messages could not be received.
pub const RECEIVE_FAILED: &'static str = "failed to receive messages";

/// Which system attributes of a message are asked for.
#[derive(Clone, Copy, Debug)]
pub enum SystemAttributes {
    /// None of them.
    Nothing,
    /// All of them.
    All,
}

/// A request to receive messages.
#[derive(Debug)]
pub struct ReceiveRequest {
    pub queue_url: String,
    pub max_number_of_messages: i32,
    pub visibility_timeout: i32,
    pub system_attributes: SystemAttributes,
}

impl ReceiveRequest {
    /// Whether this is the request for messages of a queue.
    pub open spec fn asks_for(self, queue_url: Seq<char>) -> bool {
        &&& self.queue_url@ == queue_url
        &&& self.max_number_of_messages == MAX_MESSAGES
        &&& self.visibility_timeout == VISIBILITY_TIMEOUT
        &&& self.system_attributes is All
    }
}

/// Asks for messages of a queue, with all their system attributes.
pub fn receive(queue_url: &str) -> (r: ReceiveRequest)
    ensures
        r.asks_for(queue_url@),
{
    ReceiveRequest {
        queue_url: queue_url.to_string(),
        max_number_of_messages: MAX_MESSAGES,
        visibility_timeout: VISIBILITY_TIMEOUT,
        system_attributes: SystemAttributes::All,
    }
}

/// Says that messages could not be received, and why.
#[derive(Debug)]
pub struct ReceiveError<E> {
    pub message: String,
    /// What went wrong with the request.
    pub source: E,
}

/// What comes of a request for messages: the answer as it is, or an error that keeps what went
/// wrong.
pub fn receive_outcome<T, E>(reply: Result<T, E>) -> (r: Result<T, ReceiveError<E>>)
    ensures
        match reply {
            Ok(output) => r == Ok::<T, ReceiveError<E>>(output),
            Err(e) => {
                &&& r is Err
                &&& r->Err_0.message@ == RECEIVE_FAILED@
                &&& r->Err_0.source == e
            },
        },
{
    match reply {
        Ok(output) => Ok(output),
        Err(e) => Err(ReceiveError { message: RECEIVE_FAILED.to_string(), source: e }),
    }
}

/// A message as the service hands it over.
#[derive(Debug)]
pub struct ReceivedMessage {
    pub message_id: Option<String>,
    pub receipt_handle: Option<String>,
    pub md5_of_body: Option<String>,
    pub body: Option<String>,
    pub md5_of_message_attributes: Option<String>,
}

impl ReceivedMessage {
    /// Whether the message holds everything that a message has to hold.
    pub open spec fn complete(self) -> bool {
        &&& self.message_id is Some
        &&& self.receipt_handle is Some
        &&& self.md5_of_body is Some
        &&& self.body is Some
    }

    /// What is said of the first thing that a message has to hold and this one does not.
    pub open spec fn fault(self) -> Seq<char> {
        if self.message_id is None {
            "missing message_id"@
        } else if self.receipt_handle is None {
            "missing receipt_handle"@
        } else if self.md5_of_body is None {
            "missing md5_of_body"@
        } else {
            "missing body"@
        }
    }

    /// The first thing that a message has to hold and this one does not.
    pub fn missing(&self) -> (r: Option<&'static str>)
        ensures
            r is None <==> self.complete(),
            r matches Some(field) ==> field@ == self.fault(),
    {
        if self.message_id.is_none() {
            Some("missing message_id")
        } else if self.receipt_handle.is_none() {
            Some("missing receipt_handle")
        } else if self.md5_of_body.is_none() {
            Some("missing md5_of_body")
        } else if self.body.is_none() {
            Some("missing body")
        } else {
            None
        }
    }
}

/// A message as it is shown.
#[derive(Debug)]
pub struct MessageModel {
    /// The identifier that the service gave the message.
    pub message_id: String,
    /// What the message is deleted by.
    pub receipt_handle: String,
    /// A digest of the body.
    pub md5_of_body: String,
    /// The message itself.
    pub body: String,
    /// A digest of the attributes, if there are any.
    pub md5_of_message_attributes: Option<String>,
    /// Not filled in.
    pub attributes: Option<String>,
    /// Not filled in.
    pub message_attributes: Option<String>,
}

impl Clone for MessageModel {
    fn clone(&self) -> (r: Self)
        ensures
            r.message_id@ == self.message_id@,
            r.receipt_handle@ == self.receipt_handle@,
            r.md5_of_body@ == self.md5_of_body@,
            r.body@ == self.body@,
            r.md5_of_message_attributes.deep_view() == self.md5_of_message_attributes.deep_view(),
            r.attributes.deep_view() == self.attributes.deep_view(),
            r.message_attributes.deep_view() == self.message_attributes.deep_view(),
    {
        MessageModel {
            message_id: self.message_id.clone(),
            receipt_handle: self.receipt_handle.clone(),
            md5_of_body: self.md5_of_body.clone(),
            body: self.body.clone(),
            md5_of_message_attributes: copied(&self.md5_of_message_attributes),
            attributes: copied(&self.attributes),
            message_attributes: copied(&self.message_attributes),
        }
    }
}

impl MessageModel {
    /// The message as it is shown, for one that is complete.
    pub open spec fn shows(self, message: ReceivedMessage) -> bool {
        &&& message.message_id == Some(self.message_id)
        &&& message.receipt_handle == Some(self.receipt_handle)
        &&& message.md5_of_body == Some(self.md5_of_body)
        &&& message.body == Some(self.body)
        &&& self.md5_of_message_attributes == message.md5_of_message_attributes
        &&& self.attributes is None
        &&& self.message_attributes is None
    }

    /// Takes over what is shown of a message.
    pub fn from_aws_message(message: ReceivedMessage) -> (r: Self)
        requires
            message.complete(),
        ensures
            r.shows(message),
    {
        MessageModel {
            message_id: message.message_id.unwrap(),
            receipt_handle: message.receipt_handle.unwrap(),
            md5_of_body: message.md5_of_body.unwrap(),
            body: message.body.unwrap(),
            md5_of_message_attributes: message.md5_of_message_attributes,
            attributes: None,
            message_attributes: None,
        }
    }
}

/// How many messages stand before the first one that is not complete.
pub open spec fn complete_count(messages: Seq<ReceivedMessage>) -> nat
    decreases messages.len(),
{
    if messages.len() == 0 || !messages[0].complete() {
        0
    } else {
        1 + complete_count(messages.drop_first())
    }
}

proof fn lemma_complete_count(messages: Seq<ReceivedMessage>, n: int)
    requires
        0 <= n <= messages.len(),
        forall|i: int| 0 <= i < n ==> (#[trigger] messages[i]).complete(),
        n == messages.len() || !messages[n].complete(),
    ensures
        complete_count(messages) == n,
    decreases n,
{
    if n > 0 {
        let rest = messages.drop_first();
        assert(messages[0].complete());
        assert forall|i: int| 0 <= i < n - 1 implies (#[trigger] rest[i]).complete() by {
            assert(messages[i + 1].complete());
        }
        lemma_complete_count(rest, n - 1);
    }
}

/// Whether `shown` are the messages `messages`, in order.
pub open spec fn all_shown(shown: Seq<MessageModel>, messages: Seq<ReceivedMessage>) -> bool {
    &&& shown.len() == messages.len()
    &&& forall|i: int| 0 <= i < shown.len() ==> (#[trigger] shown[i]).shows(messages[i])
}

/// The messages of a reply: none where it holds no list.
pub open spec fn reply_messages(reply: Option<Vec<ReceivedMessage>>) -> Seq<ReceivedMessage> {
    match reply {
        Some(messages) => messages@,
        None => Seq::empty(),
    }
}

/// The state of a poll.
pub struct PollView {
    /// How often messages were asked for.
    pub receives: nat,
    /// Whether the poll goes on.
    pub open: bool,
}

impl PollView {
    /// Messages have been asked for once.
    pub open spec fn start() -> PollView {
        PollView { receives: 1, open: true }
    }

    /// What a reply with so many messages leads to. The poll ends with an empty reply, and after
    /// the last try.
    pub open spec fn step(self, messages: nat) -> PollView {
        if messages > 0 && self.receives < MAX_TRIES {
            PollView { receives: self.receives + 1, open: true }
        } else {
            PollView { open: false, ..self }
        }
    }
}

/// What to do with a reply.
#[derive(Debug)]
pub struct PollStep {
    /// The messages to show.
    pub show: Vec<MessageModel>,
    /// What the next message lacks, where it cannot be shown. The poll is over then.
    pub fault: Option<&'static str>,
    /// Whether to ask for more.
    pub again: bool,
}

/// Receives messages until there are none, or a number of times.
pub struct Poller {
    receives: u32,
    open: bool,
}

impl View for Poller {
    type V = PollView;

    closed spec fn view(&self) -> PollView {
        PollView { receives: self.receives as nat, open: self.open }
    }
}

impl Poller {
    /// Starts by asking for messages.
    pub fn new() -> (r: Self)
        ensures
            r@ == PollView::start(),
    {
        Poller { receives: 1, open: true }
    }

    /// Takes a reply in. The messages before the first one that is not complete are shown.
    pub fn step(&mut self, reply: Option<Vec<ReceivedMessage>>) -> (r: PollStep)
        requires
            old(self)@.open,
        ensures
            ({
                let messages = reply_messages(reply);
                let shown = complete_count(messages);
                &&& shown <= messages.len()
                &&& all_shown(r.show@, messages.take(shown as int))
                &&& r.again == final(self)@.open
                &&& match r.fault {
                    None => {
                        &&& shown == messages.len()
                        &&& final(self)@ == old(self)@.step(messages.len())
                    },
                    Some(fault) => {
                        &&& shown < messages.len()
                        &&& fault@ == messages[shown as int].fault()
                        &&& final(self)@ == (PollView { open: false, ..old(self)@ })
                    },
                }
            }),
    {
        let mut show: Vec<MessageModel> = Vec::new();
        let ghost all = reply_messages(reply);
        if let Some(messages) = reply {
            for message in it: messages
                invariant
                    it.seq() == all,
                    all == reply_messages(reply),
                    self@ == old(self)@,
                    show@.len() == it.index(),
                    forall|i: int|
                        0 <= i < show@.len() ==> (#[trigger] all[i]).complete() && show@[i].shows(
                            all[i],
                        ),
            {
                let ghost at = it.index();
                assert(all[at] == message);
                if let Some(fault) = message.missing() {
                    proof {
                        lemma_complete_count(all, at);
                        assert forall|i: int| 0 <= i < show@.len() implies (
                        #[trigger] show@[i]).shows(all.take(at)[i]) by {
                            assert(all[i].complete());
                        }
                    }
                    self.open = false;
                    return PollStep { show, fault: Some(fault), again: false };
                }
                show.push(MessageModel::from_aws_message(message));
            }
        }
        proof {
            lemma_complete_count(all, all.len() as int);
            assert(all.take(all.len() as int) =~= all);
            assert forall|i: int| 0 <= i < show@.len() implies (#[trigger] show@[i]).shows(
                all[i],
            ) by {
                assert(all[i].complete());
            }
        }
        if show.len() > 0 && self.receives < MAX_TRIES {
            self.receives = self.receives + 1;
        } else {
            self.open = false;
        }
        PollStep { show, fault: None, again: self.open }
    }
}

/// The state of a poll after replies with so many messages each.
pub open spec fn poll_run(replies: Seq<nat>) -> PollView
    decreases replies.len(),
{
    if replies.len() == 0 {
        PollView::start()
    } else {
        poll_run(replies.drop_last()).step(replies.last())
    }
}

/// Whether every reply came while the poll was open.
pub open spec fn poll_accepts(replies: Seq<nat>) -> bool
    decreases replies.len(),
{
    if replies.len() == 0 {
        true
    } else {
        poll_accepts(replies.drop_last()) && poll_run(replies.drop_last()).open
    }
}

/// A poll asks for messages ten times at most, and ends where a reply is empty or the last try is
/// used up, and nowhere else.
pub proof fn poll_ends(replies: Seq<nat>)
    requires
        poll_accepts(replies),
    ensures
        replies.len() <= MAX_TRIES,
        poll_run(replies).receives <= MAX_TRIES,
        poll_run(replies).open ==> poll_run(replies).receives == replies.len() + 1,
        !poll_run(replies).open <==> replies.len() > 0 && (replies.last() == 0 || replies.len()
            == MAX_TRIES),
    decreases replies.len(),
{
    if replies.len() > 0 {
        poll_ends(replies.drop_last());
    }
}

/// A request to send a batch.
#[derive(Debug)]
pub struct BatchRequest {
    pub queue_url: String,
    pub entries: Vec<BatchEntry>,
}

/// A client of the queue service: the requests that it makes.
#[derive(Debug)]
pub struct DeadLetterQueue {
    pub config: AwsSettings,
}

impl Clone for DeadLetterQueue {
    fn clone(&self) -> (r: Self)
        ensures
            r.config.endpoint.deep_view() == self.config.endpoint.deep_view(),
            r.config.test_credentials == self.config.test_credentials,
    {
        DeadLetterQueue { config: self.config.clone() }
    }
}

impl DeadLetterQueue {
    /// A client with the given settings.
    pub fn from_config(config: AwsSettings) -> (r: Self)
        ensures
            r.config == config,
    {
        DeadLetterQueue { config }
    }

    /// Starts a listing of all queues.
    pub fn list(&self) -> (r: QueueListing)
        ensures
            r@ == Seq::<Seq<char>>::empty(),
    {
        QueueListing::new()
    }

    /// Starts a poll of a queue, with the request to repeat while it goes on.
    pub fn poll(&self, queue_url: &str) -> (r: (Poller, ReceiveRequest))
        ensures
            r.0@ == PollView::start(),
            r.1.asks_for(queue_url@),
    {
        (Poller::new(), receive(queue_url))
    }

    /// Makes a batch request of messages, each under a freshly drawn identifier: one draw each, in
    /// order. There is nothing to send, and nothing is drawn, where there is no message.
    /// [`batch_outcome`] says what comes of the request.
    pub fn send_batch(
        &self,
        queue_url: &str,
        messages: &Vec<String>,
        ids: &mut IdSource,
    ) -> (r: Result<Option<BatchRequest>, SendError>)
        ensures
            match r {
                Ok(None) => messages@.len() == 0 && final(ids)@ == old(ids)@,
                Ok(Some(request)) => {
                    &&& messages@.len() > 0
                    &&& request.queue_url@ == queue_url@
                    &&& final(ids)@.len() == old(ids)@.len() + messages@.len()
                    &&& final(ids)@.take(old(ids)@.len() as int) == old(ids)@
                    &&& request.entries.deep_view() == entries_of(
                        new_draws(old(ids)@, final(ids)@),
                        messages.deep_view(),
                    )
                    &&& request.entries@.len() == messages@.len()
                    &&& forall|i: int|
                        0 <= i < messages@.len() ==> {
                            &&& #[trigger] request.entries@[i].body@ == messages@[i]@
                            &&& is_uuid_v4(request.entries@[i].id@)
                            &&& valid_batch_id(request.entries@[i].id@)
                        }
                },
                Err(_) => false,
            },
    {
        match plan_send_batch(messages, ids) {
            Ok(None) => Ok(None),
            Ok(Some(entries)) => Ok(
                Some(BatchRequest { queue_url: queue_url.to_string(), entries }),
            ),
            Err(e) => Err(e),
        }
    }
}

/// What is said of the entries that were refused, in order.
pub open spec fn refusals(failed: Seq<FailedEntry>) -> Seq<char>
    decreases failed.len(),
{
    if failed.len() == 0 {
        Seq::empty()
    } else if failed.len() == 1 {
        entry_error(failed[0])
    } else {
        refusals(failed.drop_last()) + ", "@ + entry_error(failed.last())
    }
}

fn write_refusals(failed: &Vec<FailedEntry>) -> (r: String)
    ensures
        r@ == refusals(failed@),
{
    let mut r = String::new();
    let mut i: usize = 0;
    assert(r@ =~= refusals(failed@.take(0)));
    while i < failed.len()
        invariant
            i <= failed@.len(),
            r@ == refusals(failed@.take(i as int)),
        decreases failed@.len() - i,
    {
        proof {
            assert(failed@.take(i + 1).drop_last() =~= failed@.take(i as int));
            assert(failed@.take(i + 1).last() == failed@[i as int]);
        }
        if i > 0 {
            r.append(", ");
        }
        r.append(write_entry_error(&failed[i]).as_str());
        assert(r@ =~= refusals(failed@.take(i + 1)));
        i += 1;
    }
    assert(failed@.take(failed@.len() as int) =~= failed@);
    r
}

/// What comes of a batch request: success where every message was sent, and nowhere else.
/// `account` is the client's account of a request that failed as a whole.
pub fn batch_outcome(reply: &SendReply, account: &str) -> (r: Result<(), SendError>)
    ensures
        r is Ok <==> reply is Answered && reply->failed@.len() == 0,
        match *reply {
            SendReply::Failed(_) => r matches Err(SendError::AwsSdkError(e)) && e@ == account@,
            SendReply::Answered { failed, .. } => failed@.len() > 0 ==> (r matches Err(
                SendError::AwsSdkError(e),
            ) && e@ == "messages were refused: "@ + refusals(failed@)),
        },
{
    match reply {
        SendReply::Failed(_) => Err(SendError::AwsSdkError(account.to_string())),
        SendReply::Answered { failed, .. } => if failed.len() == 0 {
            Ok(())
        } else {
            Err(
                SendError::AwsSdkError(
                    joined("messages were refused: ", write_refusals(failed).as_str()),
                ),
            )
        },
    }
}

/// Messages are asked for ten at a time, and hidden from others for fifteen seconds, with all their
/// system attributes.
pub proof fn a_request_asks_for_ten_messages(request: ReceiveRequest, queue_url: Seq<char>)
    ensures
        request.asks_for(queue_url) <==> {
            &&& request.queue_url@ == queue_url
            &&& request.max_number_of_messages == 10
            &&& request.visibility_timeout == 15
            &&& request.system_attributes is All
        },
{
}

/// A poll goes on after a reply with messages, up to ten times, and ends with an empty one.
pub proof fn a_poll_goes_on_while_messages_come(replies: Seq<nat>, messages: nat)
    requires
        poll_accepts(replies),
        poll_run(replies).open,
    ensures
        poll_run(replies.push(messages)).open <==> messages > 0 && replies.len() < 9,
        poll_accepts(replies.push(messages)),
        poll_run(Seq::empty()).open,
{
    assert(replies.push(messages).drop_last() =~= replies);
    poll_ends(replies.push(messages));
}

/// A message that lacks something is faulted for the first thing that it lacks, of its identifier,
/// its receipt handle, its digest and its body; one that lacks none of them is complete.
pub proof fn a_message_is_faulted_for_what_it_lacks(m: ReceivedMessage)
    ensures
        m.complete() <==> m.message_id is Some && m.receipt_handle is Some && m.md5_of_body is Some
            && m.body is Some,
        m.message_id is None ==> m.fault() == "missing message_id"@,
        m.message_id is Some && m.receipt_handle is None ==> m.fault() == "missing receipt_handle"@,
        m.message_id is Some && m.receipt_handle is Some && m.md5_of_body is None ==> m.fault()
            == "missing md5_of_body"@,
        m.message_id is Some && m.receipt_handle is Some && m.md5_of_body is Some && m.body is None
            ==> m.fault() == "missing body"@,
{
}

/// All messages before the first that is not complete are shown, and no other.
pub proof fn every_message_is_shown_up_to_the_first_fault(messages: Seq<ReceivedMessage>)
    ensures
        complete_count(messages) <= messages.len(),
        forall|i: int|
            0 <= i < complete_count(messages) ==> (#[trigger] messages[i]).message_id is Some
                && messages[i].receipt_handle is Some && messages[i].md5_of_body is Some
                && messages[i].body is Some,
        complete_count(messages) < messages.len() ==> {
            let next = messages[complete_count(messages) as int];
            next.message_id is None || next.receipt_handle is None || next.md5_of_body is None
                || next.body is None
        },
    decreases messages.len(),
{
    if messages.len() > 0 && messages[0].complete() {
        let rest = messages.drop_first();
        every_message_is_shown_up_to_the_first_fault(rest);
        assert forall|i: int| 0 <= i < complete_count(messages) implies (
        #[trigger] messages[i]).message_id is Some && messages[i].receipt_handle is Some
            && messages[i].md5_of_body is Some && messages[i].body is Some by {
            if i > 0 {
                assert(rest[i - 1] == messages[i]);
            }
        }
    }
}

/// A message is shown with what it holds, each thing under its own name.
pub proof fn a_message_is_shown_as_it_is(shown: MessageModel, message: ReceivedMessage)
    ensures
        shown.shows(message) <==> {
            &&& message.message_id == Some(shown.message_id)
            &&& message.receipt_handle == Some(shown.receipt_handle)
            &&& message.md5_of_body == Some(shown.md5_of_body)
            &&& message.body == Some(shown.body)
            &&& message.md5_of_message_attributes == shown.md5_of_message_attributes
            &&& shown.attributes is None
            &&& shown.message_attributes is None
        },
{
}

/// Messages are shown one by one, in order: as many as there are, and none where the reply has no
/// list.
pub proof fn messages_are_shown_one_by_one(
    shown: Seq<MessageModel>,
    messages: Seq<ReceivedMessage>,
    last: MessageModel,
    message: ReceivedMessage,
)
    ensures
        all_shown(shown.push(last), messages.push(message)) <==> all_shown(shown, messages)
            && last.shows(message),
        all_shown(shown, Seq::empty()) <==> shown.len() == 0,
        reply_messages(None) == Seq::<ReceivedMessage>::empty(),
        forall|reply: Vec<ReceivedMessage>| #[trigger] reply_messages(Some(reply)) == reply@,
{
    let more = shown.push(last);
    let others = messages.push(message);
    if all_shown(more, others) {
        assert forall|i: int| 0 <= i < shown.len() implies (#[trigger] shown[i]).shows(
            messages[i],
        ) by {
            assert(more[i].shows(others[i]));
        }
        assert(more[more.len() - 1].shows(others[more.len() - 1]));
    }
}

proof fn lemma_refusals(failed: Seq<FailedEntry>)
    ensures
        refusals(failed) == concat(
            Seq::new(
                failed.len(),
                |i: int|
                    (if i == 0 {
                        Seq::empty()
                    } else {
                        ", "@
                    }) + entry_error(failed[i]),
            ),
        ),
    decreases failed.len(),
{
    let part = |i: int|
        (if i == 0 {
            Seq::empty()
        } else {
            ", "@
        }) + entry_error(failed[i]);
    let parts = Seq::new(failed.len(), part);
    if failed.len() > 0 {
        let fewer = failed.drop_last();
        let before = Seq::new(
            fewer.len(),
            |i: int|
                (if i == 0 {
                    Seq::empty()
                } else {
                    ", "@
                }) + entry_error(fewer[i]),
        );
        lemma_refusals(fewer);
        assert(parts.drop_last() =~= before);
        assert(parts.last() == part(failed.len() - 1));
        if failed.len() == 1 {
            assert(concat(before) =~= Seq::empty());
        }
        assert(refusals(failed) =~= concat(before) + parts.last());
    } else {
        assert(concat(parts) =~= Seq::empty());
    }
}

/// Of every entry that was refused it is said why, in order, with a comma between each two.
pub proof fn every_refusal_is_told(failed: Seq<FailedEntry>)
    ensures
        refusals(failed) == concat(
            Seq::new(
                failed.len(),
                |i: int|
                    (if i == 0 {
                        Seq::empty()
                    } else {
                        ", "@
                    }) + entry_error(failed[i]),
            ),
        ),
{
    lemma_refusals(failed);
}

/// Where messages could not be received, it is said in these words.
pub proof fn a_failed_receive_is_told_in_these_words()
    ensures
        RECEIVE_FAILED@ == "failed to receive messages"@,
{
}

} // verus!
