//! Entries of a batch request.

use vstd::prelude::*;
use vstd::string::*;
use crate::ids::{is_uuid_v4, valid_batch_id, IdSource};

verus! {

broadcast use vstd::string::group_string_axioms;

/// The most entries that the queue service takes in one batch.
pub const MAX_BATCH_ENTRIES: usize = 10;

/// One message of a batch request.
#[derive(Debug)]
pub struct BatchEntry {
    /// Names the entry within its batch.
    pub id: String,
    /// The message.
    pub body: String,
}

/// What a [`BatchEntry`] stands for.
pub struct EntryView {
    pub id: Seq<char>,
    pub body: Seq<char>,
}

impl View for BatchEntry {
    type V = EntryView;

    open spec fn view(&self) -> EntryView {
        EntryView { id: self.id@, body: self.body@ }
    }
}

impl DeepView for BatchEntry {
    type V = EntryView;

    open spec fn deep_view(&self) -> EntryView {
        self@
    }
}

/// Errors that can occur when messages are sent.
#[derive(Debug)]
pub enum SendError {
    /// A message entry could not be built.
    BuildEntryFailed(String),
    /// The request failed.
    AwsSdkError(String),
}

impl SendError {
    /// What the error says.
    pub fn message(&self) -> (r: String)
        ensures
            r@ == match *self {
                SendError::BuildEntryFailed(e) => "failed to build message entry: "@ + e@,
                SendError::AwsSdkError(e) => "AWS SDK error: "@ + e@,
            },
    {
        match self {
            SendError::BuildEntryFailed(e) => {
                let mut r = "failed to build message entry: ".to_string();
                r.append(e.as_str());
                r
            },
            SendError::AwsSdkError(e) => {
                let mut r = "AWS SDK error: ".to_string();
                r.append(e.as_str());
                r
            },
        }
    }
}

/// Puts an identifier and a body through `SendMessageBatchRequestEntry::builder` of
/// `aws_sdk_sqs` and reads them back. The builder refuses an entry only where one of the two was
/// not set: both are set here, so it hands back what it was given.
#[verifier::external_body]
fn sdk_entry(id: &str, body: &str) -> (r: Result<(String, String), String>)
    ensures
        r is Ok,
        r->Ok_0.0@ == id@,
        r->Ok_0.1@ == body@,
{
    aws_sdk_sqs::types::SendMessageBatchRequestEntry::builder()
        .id(id)
        .message_body(body)
        .build()
        .map(|entry| (entry.id, entry.message_body))
        .map_err(|e| e.to_string())
}

/// Builds an entry.
pub fn build_entry(id: &str, body: &str) -> (r: Result<BatchEntry, SendError>)
    ensures
        r matches Ok(entry) && entry@ == (EntryView { id: id@, body: body@ }),
{
    match sdk_entry(id, body) {
        Ok(built) => Ok(BatchEntry { id: built.0, body: built.1 }),
        Err(e) => Err(SendError::BuildEntryFailed(e)),
    }
}

/// Draws `n` fresh identifiers, each with a draw of its own.
pub fn fresh_ids(ids: &mut IdSource, n: usize) -> (r: Vec<String>)
    ensures
        r@.len() == n,
        final(ids)@ == old(ids)@ + r.deep_view(),
        forall|i: int| 0 <= i < n ==> is_uuid_v4(#[trigger] r@[i]@) && valid_batch_id(r@[i]@),
{
    let mut r: Vec<String> = Vec::new();
    assert(ids@ =~= old(ids)@ + r.deep_view());
    while r.len() < n
        invariant
            r@.len() <= n,
            ids@ == old(ids)@ + r.deep_view(),
            forall|i: int|
                0 <= i < r@.len() ==> is_uuid_v4(#[trigger] r@[i]@) && valid_batch_id(r@[i]@),
        decreases n - r@.len(),
    {
        let ghost before = r.deep_view();
        let id = ids.draw();
        r.push(id);
        assert(r.deep_view() =~= before.push(id@));
        assert(ids@ =~= old(ids)@ + r.deep_view());
    }
    r
}

/// The draws that `after` holds beyond `before`.
pub open spec fn new_draws(before: Seq<Seq<char>>, after: Seq<Seq<char>>) -> Seq<Seq<char>> {
    after.skip(before.len() as int)
}

/// One entry for each message, in order, under the given identifiers.
pub open spec fn entries_of(ids: Seq<Seq<char>>, messages: Seq<Seq<char>>) -> Seq<EntryView> {
    Seq::new(messages.len(), |i: int| EntryView { id: ids[i], body: messages[i] })
}

/// Builds one entry for each message, in order, under the given identifiers.
pub fn entries_with(ids: &Vec<String>, messages: &Vec<String>) -> (r: Result<
    Vec<BatchEntry>,
    SendError,
>)
    requires
        ids@.len() == messages@.len(),
    ensures
        r matches Ok(entries) && entries.deep_view() == entries_of(
            ids.deep_view(),
            messages.deep_view(),
        ),
{
    let mut entries: Vec<BatchEntry> = Vec::new();
    let mut i: usize = 0;
    while i < messages.len()
        invariant
            i <= messages@.len(),
            ids@.len() == messages@.len(),
            entries@.len() == i,
            forall|j: int|
                0 <= j < i ==> #[trigger] entries@[j]@ == (EntryView {
                    id: ids@[j]@,
                    body: messages@[j]@,
                }),
        decreases messages@.len() - i,
    {
        match build_entry(ids[i].as_str(), messages[i].as_str()) {
            Ok(entry) => entries.push(entry),
            Err(e) => {
                return Err(e);
            },
        }
        i += 1;
    }
    assert(entries.deep_view() =~= entries_of(ids.deep_view(), messages.deep_view()));
    Ok(entries)
}

/// Prepares a batch request, with a freshly drawn identifier for each message: one draw each, in
/// order. There is nothing to send, and nothing is drawn, where there is no message.
pub fn plan_send_batch(messages: &Vec<String>, ids: &mut IdSource) -> (r: Result<
    Option<Vec<BatchEntry>>,
    SendError,
>)
    ensures
        match r {
            Ok(None) => messages@.len() == 0 && final(ids)@ == old(ids)@,
            Ok(Some(entries)) => {
                &&& messages@.len() > 0
                &&& final(ids)@.len() == old(ids)@.len() + messages@.len()
                &&& final(ids)@.take(old(ids)@.len() as int) == old(ids)@
                &&& entries.deep_view() == entries_of(
                    new_draws(old(ids)@, final(ids)@),
                    messages.deep_view(),
                )
                &&& entries@.len() == messages@.len()
                &&& forall|i: int|
                    0 <= i < entries@.len() ==> {
                        &&& #[trigger] entries@[i].body@ == messages@[i]@
                        &&& is_uuid_v4(entries@[i].id@)
                        &&& valid_batch_id(entries@[i].id@)
                    }
            },
            Err(_) => false,
        },
{
    if messages.len() == 0 {
        return Ok(None);
    }
    let fresh = fresh_ids(ids, messages.len());
    match entries_with(&fresh, messages) {
        Ok(entries) => {
            proof {
                assert(fresh@.len() == fresh.deep_view().len());
                assert(new_draws(old(ids)@, ids@) =~= fresh.deep_view());
                assert(ids@.take(old(ids)@.len() as int) =~= old(ids)@);
                let expected = entries_of(fresh.deep_view(), messages.deep_view());
                assert(entries@.len() == entries.deep_view().len());
                assert forall|i: int| 0 <= i < entries@.len() implies {
                    &&& #[trigger] entries@[i].body@ == messages@[i]@
                    &&& is_uuid_v4(entries@[i].id@)
                    &&& valid_batch_id(entries@[i].id@)
                } by {
                    assert(entries.deep_view()[i] == expected[i]);
                    assert(entries@[i]@ == expected[i]);
                    assert(is_uuid_v4(fresh@[i]@));
                }
            }
            Ok(Some(entries))
        },
        Err(e) => Err(e),
    }
}

/// The entry that is made of a line, under the identifier `id`: an empty line is passed over.
pub open spec fn entry_of_line(line: Seq<char>, id: Seq<char>) -> Option<EntryView> {
    if line.len() == 0 {
        None
    } else {
        Some(EntryView { id, body: line })
    }
}

/// Turns a line of input into an entry: an empty line is passed over.
pub fn line_entry_with(id: &str, line: &str) -> (r: Option<BatchEntry>)
    ensures
        r.deep_view() == entry_of_line(line@, id@),
{
    if line.is_empty() {
        return None;
    }
    match build_entry(id, line) {
        Ok(entry) => Some(entry),
        Err(_) => None,
    }
}

/// Turns a line of input into an entry under a freshly drawn identifier. Nothing is drawn for an
/// empty line.
pub fn line_entry(line: &str, ids: &mut IdSource) -> (r: Option<BatchEntry>)
    ensures
        match r {
            Some(entry) => {
                &&& final(ids)@ == old(ids)@.push(entry.id@)
                &&& entry_of_line(line@, entry.id@) == Some(entry@)
                &&& is_uuid_v4(entry.id@)
                &&& valid_batch_id(entry.id@)
            },
            None => line@.len() == 0 && final(ids)@ == old(ids)@,
        },
{
    if line.is_empty() {
        return None;
    }
    let id = ids.draw();
    line_entry_with(id.as_str(), line)
}

/// The entries that are made of lines, one after the other, where the identifiers `draws` are drawn
/// on the way.
pub open spec fn entries_of_lines(lines: Seq<Seq<char>>, draws: Seq<Seq<char>>) -> Seq<EntryView>
    decreases lines.len(),
{
    if lines.len() == 0 {
        Seq::empty()
    } else {
        let before = entries_of_lines(lines.drop_last(), draws);
        match entry_of_line(lines.last(), draws[before.len() as int]) {
            Some(entry) => before.push(entry),
            None => before,
        }
    }
}

/// The lines that are not empty, in order.
pub open spec fn lines_to_send(lines: Seq<Seq<char>>) -> Seq<Seq<char>>
    decreases lines.len(),
{
    if lines.len() == 0 {
        Seq::empty()
    } else if lines.last().len() == 0 {
        lines_to_send(lines.drop_last())
    } else {
        lines_to_send(lines.drop_last()).push(lines.last())
    }
}

/// Of a stream of lines, exactly those that are not empty are sent, in order and as they stand, each
/// under a draw of its own.
pub proof fn every_line_that_is_not_empty_is_sent(lines: Seq<Seq<char>>, draws: Seq<Seq<char>>)
    ensures
        entries_of_lines(lines, draws) == entries_of(draws, lines_to_send(lines)),
    decreases lines.len(),
{
    if lines.len() > 0 {
        every_line_that_is_not_empty_is_sent(lines.drop_last(), draws);
    }
    assert(entries_of_lines(lines, draws) =~= entries_of(draws, lines_to_send(lines)));
}

/// What was drawn last is what was drawn beyond what was drawn before.
pub proof fn new_draws_follow_the_old(before: Seq<Seq<char>>, more: Seq<Seq<char>>)
    ensures
        new_draws(before, before + more) == more,
{
    assert(new_draws(before, before + more) =~= more);
}

/// There is one entry for each message, in order: with that very message, under its own identifier.
pub proof fn each_message_has_an_entry(ids: Seq<Seq<char>>, messages: Seq<Seq<char>>)
    ensures
        entries_of(ids, messages).len() == messages.len(),
        forall|i: int|
            0 <= i < messages.len() ==> (#[trigger] entries_of(ids, messages)[i]).id == ids[i]
                && entries_of(ids, messages)[i].body == messages[i],
{
}

/// A line is sent as it stands unless it is empty. Of several, exactly those that are not empty are
/// sent, in order.
pub proof fn only_empty_lines_are_passed_over(
    lines: Seq<Seq<char>>,
    line: Seq<char>,
    id: Seq<char>,
)
    ensures
        line.len() == 0 <==> entry_of_line(line, id) is None,
        entry_of_line(line, id) matches Some(entry) ==> entry.id == id && entry.body == line,
        lines_to_send(lines) == lines.filter(|l: Seq<char>| l.len() > 0),
    decreases lines.len(),
{
    reveal(Seq::filter);
    if lines.len() > 0 {
        only_empty_lines_are_passed_over(lines.drop_last(), line, id);
    }
}

/// An entry stands for its identifier and its message.
pub proof fn an_entry_stands_for_all_it_holds(entry: BatchEntry)
    ensures
        entry@.id == entry.id@,
        entry@.body == entry.body@,
        entry.deep_view() == entry@,
{
}

} // verus!
