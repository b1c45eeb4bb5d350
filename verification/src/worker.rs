//! The sender: from staged items to a batch request, and from its reply to results.

use vstd::prelude::*;
use vstd::string::*;
use crate::entry::{build_entry, fresh_ids, new_draws, BatchEntry, EntryView};
use crate::failure::{failure_details, failure_message, format_sdk_error, SdkFailure};
use crate::ids::{is_uuid_v4, valid_batch_id, IdSource};
use crate::json::{json_text, member, text_or_null, Json, JsonView};
use crate::text::same_text;

verus! {

broadcast use vstd::string::group_string_axioms;

/// The input type whose items carry their own identifier and body.
pub open spec fn is_json_type(input_type: Seq<char>) -> bool {
    input_type == "json"@
}

/// The identifier that an item brings along.
pub open spec fn given_id(input: JsonView, input_type: Seq<char>) -> Option<Seq<char>> {
    match input {
        JsonView::Object(members) if is_json_type(input_type) => match member(members, "id"@) {
            Some(JsonView::Text(id)) => Some(id),
            _ => None,
        },
        _ => None,
    }
}

/// The message that is sent for an item.
pub open spec fn message_body(input: JsonView, input_type: Seq<char>) -> Seq<char> {
    match input {
        JsonView::Object(members) if is_json_type(input_type) => match member(members, "body"@) {
            Some(JsonView::Text(body)) => body,
            Some(body) => json_text(body),
            None => json_text(input),
        },
        JsonView::Text(text) if !is_json_type(input_type) => text,
        _ => json_text(input),
    }
}

/// The identifier under which an item is sent, where `fresh` is at hand for one that brings none.
pub open spec fn message_id(input: JsonView, input_type: Seq<char>, fresh: Seq<char>) -> Seq<char> {
    match given_id(input, input_type) {
        Some(id) => id,
        None => fresh,
    }
}

/// Turns an item into an identifier and a message, given a fresh identifier.
pub fn transform_with(input: &Json, input_type: &str, fresh: &str) -> (r: (String, String))
    ensures
        r.0@ == message_id(input@, input_type@, fresh@),
        r.1@ == message_body(input@, input_type@),
{
    if same_text(input_type, "json") {
        match input {
            Json::Object(_) => {
                let id = match input.get("id") {
                    Some(Json::Text(id)) => id.clone(),
                    _ => fresh.to_string(),
                };
                let body = match input.get("body") {
                    Some(Json::Text(body)) => body.clone(),
                    Some(body) => body.to_text(),
                    None => input.to_text(),
                };
                (id, body)
            },
            _ => (fresh.to_string(), input.to_text()),
        }
    } else {
        let body = match input {
            Json::Text(text) => text.clone(),
            _ => input.to_text(),
        };
        (fresh.to_string(), body)
    }
}

/// Turns an item into an identifier and a message. An item that brings no identifier gets a
/// freshly drawn one, with a draw of its own.
pub fn transform_input(input: &Json, input_type: &str, ids: &mut IdSource) -> (r: (
    String,
    String,
))
    ensures
        final(ids)@.len() == old(ids)@.len() + 1,
        final(ids)@.drop_last() == old(ids)@,
        match given_id(input@, input_type@) {
            Some(id) => r.0@ == id,
            None => {
                &&& r.0@ == final(ids)@.last()
                &&& is_uuid_v4(r.0@)
                &&& valid_batch_id(r.0@)
            },
        },
        r.1@ == message_body(input@, input_type@),
{
    let fresh = ids.draw();
    assert(ids@.drop_last() =~= old(ids)@);
    transform_with(input, input_type, fresh.as_str())
}

/// An item of a job, under its key in the database.
#[derive(Debug)]
pub struct JobItem {
    pub db_id: i64,
    pub input: Json,
}

/// What a [`JobItem`] stands for.
pub struct ItemView {
    pub db_id: i64,
    pub input: JsonView,
}

impl View for JobItem {
    type V = ItemView;

    open spec fn view(&self) -> ItemView {
        ItemView { db_id: self.db_id, input: self.input@ }
    }
}

impl DeepView for JobItem {
    type V = ItemView;

    open spec fn deep_view(&self) -> ItemView {
        self@
    }
}

/// A batch request, and which item each of its entries was made for.
#[derive(Debug)]
pub struct PreparedBatch {
    pub entries: Vec<BatchEntry>,
    /// Entry identifiers with the keys of their items.
    pub owners: Vec<(String, i64)>,
}

/// The entry of one item.
pub open spec fn item_entry(item: ItemView, input_type: Seq<char>, fresh: Seq<char>) -> EntryView {
    EntryView {
        id: message_id(item.input, input_type, fresh),
        body: message_body(item.input, input_type),
    }
}

/// The entries of all items, in order.
pub open spec fn item_entries(
    items: Seq<ItemView>,
    input_type: Seq<char>,
    fresh: Seq<Seq<char>>,
) -> Seq<EntryView> {
    Seq::new(items.len(), |i: int| item_entry(items[i], input_type, fresh[i]))
}

/// The identifiers of `entries`, each with the key of the item it was made for.
pub open spec fn owners_of(entries: Seq<EntryView>, items: Seq<ItemView>) -> Seq<(Seq<char>, i64)> {
    Seq::new(entries.len(), |i: int| (entries[i].id, items[i].db_id))
}

/// Makes a batch request of staged items, given a fresh identifier for each.
pub fn prepare_with(items: &Vec<JobItem>, input_type: &str, fresh: &Vec<String>) -> (r:
    PreparedBatch)
    requires
        fresh@.len() == items@.len(),
    ensures
        r.entries.deep_view() == item_entries(items.deep_view(), input_type@, fresh.deep_view()),
        r.owners.deep_view() == owners_of(r.entries.deep_view(), items.deep_view()),
{
    let mut entries: Vec<BatchEntry> = Vec::new();
    let mut owners: Vec<(String, i64)> = Vec::new();
    let mut i: usize = 0;
    let ghost expected = item_entries(items.deep_view(), input_type@, fresh.deep_view());
    while i < items.len()
        invariant
            i <= items@.len(),
            fresh@.len() == items@.len(),
            expected == item_entries(items.deep_view(), input_type@, fresh.deep_view()),
            entries@.len() == i,
            owners@.len() == i,
            forall|j: int| 0 <= j < i ==> #[trigger] entries@[j]@ == expected[j],
            forall|j: int|
                0 <= j < i ==> #[trigger] owners@[j].0@ == expected[j].id && owners@[j].1
                    == items@[j].db_id,
        decreases items@.len() - i,
    {
        let (id, body) = transform_with(&items[i].input, input_type, fresh[i].as_str());
        match build_entry(id.as_str(), body.as_str()) {
            Ok(entry) => entries.push(entry),
            Err(_) => {},
        }
        owners.push((id, items[i].db_id));
        i += 1;
    }
    assert(entries.deep_view() =~= expected);
    assert(owners.deep_view() =~= owners_of(entries.deep_view(), items.deep_view()));
    PreparedBatch { entries, owners }
}

/// Makes a batch request of staged items. There is one draw for each item, in order; an item that
/// brings no identifier gets its own draw.
#[verifier::spinoff_prover]
pub fn prepare_batch(items: &Vec<JobItem>, input_type: &str, ids: &mut IdSource) -> (r:
    PreparedBatch)
    ensures
        final(ids)@.len() == old(ids)@.len() + items@.len(),
        final(ids)@.take(old(ids)@.len() as int) == old(ids)@,
        r.entries.deep_view() == item_entries(
            items.deep_view(),
            input_type@,
            new_draws(old(ids)@, final(ids)@),
        ),
        r.entries@.len() == items@.len(),
        forall|i: int|
            0 <= i < items@.len() ==> {
                &&& #[trigger] r.entries@[i].body@ == message_body(items@[i].input@, input_type@)
                &&& match given_id(items@[i].input@, input_type@) {
                    Some(id) => r.entries@[i].id@ == id,
                    None => is_uuid_v4(r.entries@[i].id@) && valid_batch_id(r.entries@[i].id@),
                }
            },
        r.owners.deep_view() == owners_of(r.entries.deep_view(), items.deep_view()),
{
    let fresh = fresh_ids(ids, items.len());
    let r = prepare_with(items, input_type, &fresh);
    proof {
        assert(fresh@.len() == fresh.deep_view().len());
        assert(new_draws(old(ids)@, ids@) =~= fresh.deep_view());
        assert(ids@.take(old(ids)@.len() as int) =~= old(ids)@);
        let expected = item_entries(items.deep_view(), input_type@, fresh.deep_view());
        assert(r.entries@.len() == r.entries.deep_view().len());
        assert forall|i: int| 0 <= i < items@.len() implies {
            &&& #[trigger] r.entries@[i].body@ == message_body(items@[i].input@, input_type@)
            &&& match given_id(items@[i].input@, input_type@) {
                Some(id) => r.entries@[i].id@ == id,
                None => is_uuid_v4(r.entries@[i].id@) && valid_batch_id(r.entries@[i].id@),
            }
        } by {
            assert(r.entries.deep_view()[i] == expected[i]);
            assert(r.entries@[i]@ == expected[i]);
            assert(is_uuid_v4(fresh@[i]@));
        }
    }
    r
}

/// The key of the item that an entry was made for: the last one where several entries share the
/// identifier.
pub open spec fn owner(owners: Seq<(Seq<char>, i64)>, id: Seq<char>) -> Option<i64>
    decreases owners.len(),
{
    if owners.len() == 0 {
        None
    } else if owners.last().0 == id {
        Some(owners.last().1)
    } else {
        owner(owners.drop_last(), id)
    }
}

fn find_owner(owners: &Vec<(String, i64)>, id: &str) -> (r: Option<i64>)
    ensures
        r == owner(owners.deep_view(), id@),
{
    let ghost all = owners.deep_view();
    let mut i: usize = owners.len();
    assert(all.take(i as int) =~= all);
    while i > 0
        invariant
            i <= owners@.len(),
            all == owners.deep_view(),
            owner(all, id@) == owner(all.take(i as int), id@),
        decreases i,
    {
        assert(all.take(i as int).drop_last() =~= all.take(i - 1));
        assert(all.take(i as int).last() == (owners@[i - 1].0@, owners@[i - 1].1));
        if same_text(owners[i - 1].0.as_str(), id) {
            return Some(owners[i - 1].1);
        }
        i -= 1;
    }
    None
}

/// An entry that the service took.
#[derive(Debug)]
pub struct SentEntry {
    pub id: String,
    pub message_id: String,
    pub md5_of_message_body: String,
    pub sequence_number: Option<String>,
}

/// An entry that the service refused.
#[derive(Debug)]
pub struct FailedEntry {
    pub id: String,
    pub code: String,
    pub message: Option<String>,
    pub sender_fault: bool,
}

/// The service's reply to a batch request.
#[derive(Debug)]
pub enum SendReply {
    /// The service went through the entries.
    Answered { successful: Vec<SentEntry>, failed: Vec<FailedEntry> },
    /// The request failed as a whole.
    Failed(SdkFailure),
}

/// What became of an item.
#[derive(Debug)]
pub struct SendResult {
    pub db_id: i64,
    pub success: bool,
    pub output: Option<Json>,
    pub error: Option<String>,
    pub batch_id: String,
}

/// What a [`SendResult`] stands for.
pub struct ResultView {
    pub db_id: i64,
    pub success: bool,
    pub output: Option<JsonView>,
    pub error: Option<Seq<char>>,
    pub batch_id: Seq<char>,
}

impl View for SendResult {
    type V = ResultView;

    open spec fn view(&self) -> ResultView {
        ResultView {
            db_id: self.db_id,
            success: self.success,
            output: self.output.deep_view(),
            error: self.error.deep_view(),
            batch_id: self.batch_id@,
        }
    }
}

impl DeepView for SendResult {
    type V = ResultView;

    open spec fn deep_view(&self) -> ResultView {
        self@
    }
}

/// The result of an item whose entry was taken.
pub open spec fn sent_result(db_id: i64, sent: SentEntry, batch_id: Seq<char>) -> ResultView {
    ResultView {
        db_id,
        success: true,
        output: Some(
            JsonView::Object(
                seq![
                    ("message_id"@, JsonView::Text(sent.message_id@)),
                    ("md5_of_message_body"@, JsonView::Text(sent.md5_of_message_body@)),
                    ("sequence_number"@, text_or_null(sent.sequence_number.deep_view())),
                    ("batch_id"@, JsonView::Text(batch_id)),
                ],
            ),
        ),
        error: None,
        batch_id,
    }
}

/// What is said of an entry that was refused.
pub open spec fn entry_error(failed: FailedEntry) -> Seq<char> {
    failed.code@ + ": "@ + match failed.message {
        Some(message) => message@,
        None => "Unknown error"@,
    }
}

/// Says why an entry was refused.
pub fn write_entry_error(failed: &FailedEntry) -> (r: String)
    ensures
        r@ == entry_error(*failed),
{
    let mut r = failed.code.clone();
    r.append(": ");
    match &failed.message {
        Some(message) => r.append(message.as_str()),
        None => r.append("Unknown error"),
    }
    r
}

/// The result of an item whose entry was refused.
pub open spec fn failed_result(db_id: i64, failed: FailedEntry, batch_id: Seq<char>) -> ResultView {
    ResultView {
        db_id,
        success: false,
        output: Some(
            JsonView::Object(
                seq![
                    ("code"@, JsonView::Text(failed.code@)),
                    ("message"@, text_or_null(failed.message.deep_view())),
                    ("sender_fault"@, JsonView::Bool(failed.sender_fault)),
                    ("batch_id"@, JsonView::Text(batch_id)),
                ],
            ),
        ),
        error: Some(entry_error(failed)),
        batch_id,
    }
}

/// The result of an item whose request failed as a whole.
pub open spec fn undelivered_result(db_id: i64, e: SdkFailure, batch_id: Seq<char>) -> ResultView {
    ResultView {
        db_id,
        success: false,
        output: Some(
            JsonView::Object(
                seq![
                    ("error_details"@, JsonView::Object(failure_details(e))),
                    ("batch_id"@, JsonView::Text(batch_id)),
                ],
            ),
        ),
        error: Some(failure_message(e)),
        batch_id,
    }
}

/// The results of the entries that were taken: one for each that an item was made for.
pub open spec fn sent_results(
    sent: Seq<SentEntry>,
    owners: Seq<(Seq<char>, i64)>,
    batch_id: Seq<char>,
) -> Seq<ResultView>
    decreases sent.len(),
{
    if sent.len() == 0 {
        Seq::empty()
    } else {
        let before = sent_results(sent.drop_last(), owners, batch_id);
        match owner(owners, sent.last().id@) {
            Some(db_id) => before.push(sent_result(db_id, sent.last(), batch_id)),
            None => before,
        }
    }
}

/// The results of the entries that were refused: one for each that an item was made for.
pub open spec fn failed_results(
    failed: Seq<FailedEntry>,
    owners: Seq<(Seq<char>, i64)>,
    batch_id: Seq<char>,
) -> Seq<ResultView>
    decreases failed.len(),
{
    if failed.len() == 0 {
        Seq::empty()
    } else {
        let before = failed_results(failed.drop_last(), owners, batch_id);
        match owner(owners, failed.last().id@) {
            Some(db_id) => before.push(failed_result(db_id, failed.last(), batch_id)),
            None => before,
        }
    }
}

/// The results of a request that failed as a whole: one for each entry that an item was made for.
pub open spec fn undelivered_results(
    entries: Seq<EntryView>,
    owners: Seq<(Seq<char>, i64)>,
    e: SdkFailure,
    batch_id: Seq<char>,
) -> Seq<ResultView>
    decreases entries.len(),
{
    if entries.len() == 0 {
        Seq::empty()
    } else {
        let before = undelivered_results(entries.drop_last(), owners, e, batch_id);
        match owner(owners, entries.last().id) {
            Some(db_id) => before.push(undelivered_result(db_id, e, batch_id)),
            None => before,
        }
    }
}

/// The results that follow from a reply.
pub open spec fn reply_results(
    entries: Seq<EntryView>,
    owners: Seq<(Seq<char>, i64)>,
    reply: SendReply,
    batch_id: Seq<char>,
) -> Seq<ResultView> {
    match reply {
        SendReply::Answered { successful, failed } => sent_results(successful@, owners, batch_id)
            + failed_results(failed@, owners, batch_id),
        SendReply::Failed(e) => undelivered_results(entries, owners, e, batch_id),
    }
}

fn report_sent(db_id: i64, sent: &SentEntry, batch_id: &str) -> (r: SendResult)
    ensures
        r@ == sent_result(db_id, *sent, batch_id@),
{
    let members = vec![
        ("message_id".to_string(), Json::text(sent.message_id.as_str())),
        ("md5_of_message_body".to_string(), Json::text(sent.md5_of_message_body.as_str())),
        ("sequence_number".to_string(), Json::optional_text(&sent.sequence_number)),
        ("batch_id".to_string(), Json::text(batch_id)),
    ];
    assert(JsonView::Object(members.deep_view()) == sent_result(
        db_id,
        *sent,
        batch_id@,
    ).output->Some_0) by {
        assert(members.deep_view() =~= sent_result(
            db_id,
            *sent,
            batch_id@,
        ).output->Some_0->Object_0);
    }
    SendResult {
        db_id,
        success: true,
        output: Some(Json::object(members)),
        error: None,
        batch_id: batch_id.to_string(),
    }
}

fn report_failed(db_id: i64, failed: &FailedEntry, batch_id: &str) -> (r: SendResult)
    ensures
        r@ == failed_result(db_id, *failed, batch_id@),
{
    let members = vec![
        ("code".to_string(), Json::text(failed.code.as_str())),
        ("message".to_string(), Json::optional_text(&failed.message)),
        ("sender_fault".to_string(), Json::Bool(failed.sender_fault)),
        ("batch_id".to_string(), Json::text(batch_id)),
    ];
    assert(members.deep_view() =~= failed_result(
        db_id,
        *failed,
        batch_id@,
    ).output->Some_0->Object_0);
    SendResult {
        db_id,
        success: false,
        output: Some(Json::object(members)),
        error: Some(write_entry_error(failed)),
        batch_id: batch_id.to_string(),
    }
}

fn report_undelivered(db_id: i64, e: &SdkFailure, batch_id: &str) -> (r: SendResult)
    ensures
        r@ == undelivered_result(db_id, *e, batch_id@),
{
    let (message, details) = format_sdk_error(e);
    let members = vec![
        ("error_details".to_string(), details),
        ("batch_id".to_string(), Json::text(batch_id)),
    ];
    assert(members.deep_view() =~= undelivered_result(
        db_id,
        *e,
        batch_id@,
    ).output->Some_0->Object_0);
    SendResult {
        db_id,
        success: false,
        output: Some(Json::object(members)),
        error: Some(message),
        batch_id: batch_id.to_string(),
    }
}

/// Works out what became of the items of a batch.
pub fn collect_results(batch: &PreparedBatch, reply: &SendReply, batch_id: &str) -> (r: Vec<
    SendResult,
>)
    ensures
        r.deep_view() == reply_results(
            batch.entries.deep_view(),
            batch.owners.deep_view(),
            *reply,
            batch_id@,
        ),
{
    let mut results: Vec<SendResult> = Vec::new();
    let ghost owners = batch.owners.deep_view();
    match reply {
        SendReply::Answered { successful, failed } => {
            let mut i: usize = 0;
            while i < successful.len()
                invariant
                    i <= successful@.len(),
                    owners == batch.owners.deep_view(),
                    results.deep_view() == sent_results(
                        successful@.take(i as int),
                        owners,
                        batch_id@,
                    ),
                decreases successful@.len() - i,
            {
                let ghost before = results.deep_view();
                proof {
                    let upto = successful@.take(i + 1);
                    assert(upto.drop_last() =~= successful@.take(i as int));
                    assert(upto.last() == successful@[i as int]);
                }
                if let Some(db_id) = find_owner(&batch.owners, successful[i].id.as_str()) {
                    results.push(report_sent(db_id, &successful[i], batch_id));
                    assert(results.deep_view() =~= before.push(
                        sent_result(db_id, successful@[i as int], batch_id@),
                    ));
                }
                i += 1;
            }
            assert(successful@.take(successful@.len() as int) =~= successful@);
            let ghost sent = results.deep_view();
            let mut i: usize = 0;
            while i < failed.len()
                invariant
                    i <= failed@.len(),
                    owners == batch.owners.deep_view(),
                    results.deep_view() =~= sent + failed_results(
                        failed@.take(i as int),
                        owners,
                        batch_id@,
                    ),
                decreases failed@.len() - i,
            {
                let ghost before = results.deep_view();
                let ghost so_far = failed_results(failed@.take(i as int), owners, batch_id@);
                proof {
                    let upto = failed@.take(i + 1);
                    assert(upto.drop_last() =~= failed@.take(i as int));
                    assert(upto.last() == failed@[i as int]);
                }
                if let Some(db_id) = find_owner(&batch.owners, failed[i].id.as_str()) {
                    results.push(report_failed(db_id, &failed[i], batch_id));
                    let ghost added = failed_result(db_id, failed@[i as int], batch_id@);
                    assert(results.deep_view() =~= before.push(added));
                    assert(before.push(added) =~= sent + so_far.push(added));
                }
                i += 1;
            }
            assert(failed@.take(failed@.len() as int) =~= failed@);
        },
        SendReply::Failed(e) => {
            let ghost entries = batch.entries.deep_view();
            let mut i: usize = 0;
            while i < batch.entries.len()
                invariant
                    i <= batch.entries@.len(),
                    entries == batch.entries.deep_view(),
                    owners == batch.owners.deep_view(),
                    results.deep_view() == undelivered_results(
                        entries.take(i as int),
                        owners,
                        *e,
                        batch_id@,
                    ),
                decreases batch.entries@.len() - i,
            {
                let ghost before = results.deep_view();
                proof {
                    let upto = entries.take(i + 1);
                    assert(upto.drop_last() =~= entries.take(i as int));
                    assert(upto.last() == entries[i as int]);
                }
                if let Some(db_id) = find_owner(&batch.owners, batch.entries[i].id.as_str()) {
                    results.push(report_undelivered(db_id, e, batch_id));
                    assert(results.deep_view() =~= before.push(
                        undelivered_result(db_id, *e, batch_id@),
                    ));
                }
                i += 1;
            }
            assert(entries.take(entries.len() as int) =~= entries);
        },
    }
    results
}

/// An item and a result stand for all that they hold.
pub proof fn items_and_results_stand_for_all_they_hold(item: JobItem, result: SendResult)
    ensures
        item@.db_id == item.db_id,
        item@.input == item.input@,
        item.deep_view() == item@,
        result@.db_id == result.db_id,
        result@.success == result.success,
        result.output matches Some(output) ==> result@.output == Some(output@),
        result.output is None ==> result@.output is None,
        result.error matches Some(error) ==> result@.error == Some(error@),
        result.error is None ==> result@.error is None,
        result@.batch_id == result.batch_id@,
        result.deep_view() == result@,
{
}

} // verus!
