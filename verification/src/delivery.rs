//! What holds of a batch from its items to their results.

use vstd::prelude::*;
use vstd::seq_lib::*;
use crate::entry::EntryView;
use crate::failure::{failure_details, failure_message, SdkFailure};
use crate::json::{json_text, lemma_member_at, member, JsonView};
use crate::multi::lemma_map_keeps_multiset;
use crate::worker::{
    entry_error, failed_result, failed_results, given_id, item_entries, message_body, message_id,
    owner, owners_of, reply_results, sent_result, sent_results, undelivered_result,
    undelivered_results, FailedEntry, ItemView, ResultView, SendReply, SentEntry,
};

verus! {

/// The identifiers of the entries of a batch.
pub open spec fn entry_ids(entries: Seq<EntryView>) -> Seq<Seq<char>> {
    entries.map_values(|e: EntryView| e.id)
}

/// The identifiers that a reply reports on: those of the entries that were taken, then those of
/// the entries that were refused.
pub open spec fn reported_ids(reply: SendReply) -> Seq<Seq<char>> {
    match reply {
        SendReply::Answered { successful, failed } => successful@.map_values(|e: SentEntry| e.id@)
            + failed@.map_values(|e: FailedEntry| e.id@),
        SendReply::Failed(_) => Seq::empty(),
    }
}

/// The keys of items.
pub open spec fn item_keys(items: Seq<ItemView>) -> Seq<i64> {
    items.map_values(|i: ItemView| i.db_id)
}

/// The keys of the items that results are about.
pub open spec fn result_keys(results: Seq<ResultView>) -> Seq<i64> {
    results.map_values(|r: ResultView| r.db_id)
}

/// Where no two entries of a batch share an identifier, each identifier leads back to the item
/// that its entry was made for.
pub proof fn each_entry_leads_to_its_item(entries: Seq<EntryView>, items: Seq<ItemView>, i: int)
    requires
        entries.len() == items.len(),
        entry_ids(entries).no_duplicates(),
        0 <= i < entries.len(),
    ensures
        owner(owners_of(entries, items), entries[i].id) == Some(items[i].db_id),
    decreases entries.len(),
{
    let owners = owners_of(entries, items);
    let ids = entry_ids(entries);
    if i < entries.len() - 1 {
        assert(ids[i] != ids[entries.len() - 1]);
        assert(owners.drop_last() =~= owners_of(entries.drop_last(), items.drop_last()));
        let fewer = entry_ids(entries.drop_last());
        assert forall|a: int, b: int| 0 <= a < b < fewer.len() implies fewer[a] != fewer[b] by {
            assert(ids[a] != ids[b]);
        }
        each_entry_leads_to_its_item(entries.drop_last(), items.drop_last(), i);
    }
}

proof fn lemma_owner_known(entries: Seq<EntryView>, items: Seq<ItemView>, i: int)
    requires
        entries.len() == items.len(),
        0 <= i < entries.len(),
    ensures
        owner(owners_of(entries, items), entries[i].id) is Some,
    decreases entries.len(),
{
    let owners = owners_of(entries, items);
    if i < entries.len() - 1 {
        assert(owners.drop_last() =~= owners_of(entries.drop_last(), items.drop_last()));
        lemma_owner_known(entries.drop_last(), items.drop_last(), i);
    }
}

proof fn lemma_undelivered(
    entries: Seq<EntryView>,
    owners: Seq<(Seq<char>, i64)>,
    e: SdkFailure,
    batch_id: Seq<char>,
)
    requires
        forall|i: int| 0 <= i < entries.len() ==> owner(owners, #[trigger] entries[i].id) is Some,
    ensures
        ({
            let results = undelivered_results(entries, owners, e, batch_id);
            &&& results.len() == entries.len()
            &&& forall|i: int|
                0 <= i < results.len() ==> {
                    &&& !(#[trigger] results[i]).success
                    &&& results[i].error == Some(failure_message(e))
                    &&& Some(results[i].db_id) == owner(owners, entries[i].id)
                }
        }),
    decreases entries.len(),
{
    if entries.len() > 0 {
        let fewer = entries.drop_last();
        assert forall|i: int| 0 <= i < fewer.len() implies owner(
            owners,
            #[trigger] fewer[i].id,
        ) is Some by {
            assert(owner(owners, entries[i].id) is Some);
        }
        lemma_undelivered(fewer, owners, e, batch_id);
        assert(owner(owners, entries[entries.len() - 1].id) is Some);
        assert(forall|i: int| 0 <= i < fewer.len() ==> fewer[i] == entries[i]);
    }
}

/// A request that fails as a whole fails every item of the batch, once each, with what the
/// failure says.
pub proof fn failed_request_fails_every_item(
    entries: Seq<EntryView>,
    items: Seq<ItemView>,
    e: SdkFailure,
    batch_id: Seq<char>,
)
    requires
        entries.len() == items.len(),
        entry_ids(entries).no_duplicates(),
    ensures
        ({
            let results = reply_results(
                entries,
                owners_of(entries, items),
                SendReply::Failed(e),
                batch_id,
            );
            &&& result_keys(results) == item_keys(items)
            &&& forall|i: int|
                0 <= i < results.len() ==> !(#[trigger] results[i]).success && results[i].error
                    == Some(failure_message(e))
        }),
{
    let owners = owners_of(entries, items);
    assert forall|i: int| 0 <= i < entries.len() implies owner(
        owners,
        #[trigger] entries[i].id,
    ) is Some by {
        each_entry_leads_to_its_item(entries, items, i);
    }
    lemma_undelivered(entries, owners, e, batch_id);
    let results = reply_results(entries, owners, SendReply::Failed(e), batch_id);
    assert forall|i: int| 0 <= i < items.len() implies result_keys(results)[i] == item_keys(
        items,
    )[i] by {
        each_entry_leads_to_its_item(entries, items, i);
    }
    assert(result_keys(results) =~= item_keys(items));
}

/// No result is about an item outside the batch, whatever the service replies.
pub proof fn results_are_about_the_batch(
    entries: Seq<EntryView>,
    items: Seq<ItemView>,
    reply: SendReply,
    batch_id: Seq<char>,
)
    requires
        entries.len() == items.len(),
    ensures
        forall|j: int|
            0 <= j < reply_results(entries, owners_of(entries, items), reply, batch_id).len()
                ==> item_keys(items).contains(
                (#[trigger] reply_results(
                    entries,
                    owners_of(entries, items),
                    reply,
                    batch_id,
                )[j]).db_id,
            ),
{
    let owners = owners_of(entries, items);
    match reply {
        SendReply::Answered { successful, failed } => {
            lemma_sent_keys(successful@, entries, items, batch_id);
            lemma_failed_keys(failed@, entries, items, batch_id);
        },
        SendReply::Failed(e) => {
            assert forall|i: int| 0 <= i < entries.len() implies owner(
                owners,
                #[trigger] entries[i].id,
            ) is Some by {
                lemma_owner_known(entries, items, i);
            }
            lemma_undelivered(entries, owners, e, batch_id);
            let results = undelivered_results(entries, owners, e, batch_id);
            assert forall|j: int| 0 <= j < results.len() implies item_keys(items).contains(
                (#[trigger] results[j]).db_id,
            ) by {
                lemma_owner_is_item(entries, items, entries[j].id);
            }
        },
    }
}

proof fn lemma_owner_is_item(entries: Seq<EntryView>, items: Seq<ItemView>, id: Seq<char>)
    requires
        entries.len() == items.len(),
        owner(owners_of(entries, items), id) is Some,
    ensures
        item_keys(items).contains(owner(owners_of(entries, items), id)->Some_0),
    decreases entries.len(),
{
    let owners = owners_of(entries, items);
    let n = entries.len();
    if owners.last().0 == id {
        assert(item_keys(items)[n - 1] == owners.last().1);
    } else {
        assert(owners.drop_last() =~= owners_of(entries.drop_last(), items.drop_last()));
        lemma_owner_is_item(entries.drop_last(), items.drop_last(), id);
        let key = owner(owners, id)->Some_0;
        let k = choose|k: int|
            0 <= k < items.drop_last().len() && item_keys(items.drop_last())[k] == key;
        assert(item_keys(items)[k] == key);
    }
}

proof fn lemma_sent_keys(
    sent: Seq<SentEntry>,
    entries: Seq<EntryView>,
    items: Seq<ItemView>,
    batch_id: Seq<char>,
)
    requires
        entries.len() == items.len(),
    ensures
        forall|j: int|
            0 <= j < sent_results(sent, owners_of(entries, items), batch_id).len() ==> item_keys(
                items,
            ).contains((#[trigger] sent_results(sent, owners_of(entries, items), batch_id)[j]).db_id),
    decreases sent.len(),
{
    if sent.len() > 0 {
        lemma_sent_keys(sent.drop_last(), entries, items, batch_id);
        if owner(owners_of(entries, items), sent.last().id@) is Some {
            lemma_owner_is_item(entries, items, sent.last().id@);
        }
    }
}

proof fn lemma_failed_keys(
    failed: Seq<FailedEntry>,
    entries: Seq<EntryView>,
    items: Seq<ItemView>,
    batch_id: Seq<char>,
)
    requires
        entries.len() == items.len(),
    ensures
        forall|j: int|
            0 <= j < failed_results(failed, owners_of(entries, items), batch_id).len() ==> item_keys(
                items,
            ).contains(
                (#[trigger] failed_results(failed, owners_of(entries, items), batch_id)[j]).db_id,
            ),
    decreases failed.len(),
{
    if failed.len() > 0 {
        lemma_failed_keys(failed.drop_last(), entries, items, batch_id);
        if owner(owners_of(entries, items), failed.last().id@) is Some {
            lemma_owner_is_item(entries, items, failed.last().id@);
        }
    }
}

proof fn lemma_sent_all(
    sent: Seq<SentEntry>,
    owners: Seq<(Seq<char>, i64)>,
    batch_id: Seq<char>,
)
    requires
        forall|i: int| 0 <= i < sent.len() ==> owner(owners, (#[trigger] sent[i]).id@) is Some,
    ensures
        ({
            let results = sent_results(sent, owners, batch_id);
            &&& results.len() == sent.len()
            &&& forall|i: int|
                0 <= i < results.len() ==> (#[trigger] results[i]).success && Some(results[i].db_id)
                    == owner(owners, sent[i].id@)
        }),
    decreases sent.len(),
{
    if sent.len() > 0 {
        let fewer = sent.drop_last();
        assert forall|i: int| 0 <= i < fewer.len() implies owner(
            owners,
            (#[trigger] fewer[i]).id@,
        ) is Some by {
            assert(owner(owners, sent[i].id@) is Some);
        }
        lemma_sent_all(fewer, owners, batch_id);
        assert(owner(owners, sent[sent.len() - 1].id@) is Some);
        assert(forall|i: int| 0 <= i < fewer.len() ==> fewer[i] == sent[i]);
    }
}

proof fn lemma_failed_all(
    failed: Seq<FailedEntry>,
    owners: Seq<(Seq<char>, i64)>,
    batch_id: Seq<char>,
)
    requires
        forall|i: int| 0 <= i < failed.len() ==> owner(owners, (#[trigger] failed[i]).id@) is Some,
    ensures
        ({
            let results = failed_results(failed, owners, batch_id);
            &&& results.len() == failed.len()
            &&& forall|i: int|
                0 <= i < results.len() ==> !(#[trigger] results[i]).success && Some(
                    results[i].db_id,
                ) == owner(owners, failed[i].id@)
        }),
    decreases failed.len(),
{
    if failed.len() > 0 {
        let fewer = failed.drop_last();
        assert forall|i: int| 0 <= i < fewer.len() implies owner(
            owners,
            (#[trigger] fewer[i]).id@,
        ) is Some by {
            assert(owner(owners, failed[i].id@) is Some);
        }
        lemma_failed_all(fewer, owners, batch_id);
        assert(owner(owners, failed[failed.len() - 1].id@) is Some);
        assert(forall|i: int| 0 <= i < fewer.len() ==> fewer[i] == failed[i]);
    }
}

/// Where no two entries share an identifier and the reply reports on every entry once, every item
/// of the batch gets exactly one result. The results of the entries that were taken come first,
/// and those alone count as successes.
pub proof fn full_reply_settles_every_item(
    entries: Seq<EntryView>,
    items: Seq<ItemView>,
    reply: SendReply,
    batch_id: Seq<char>,
)
    requires
        entries.len() == items.len(),
        entry_ids(entries).no_duplicates(),
        reply is Answered,
        reported_ids(reply).to_multiset() == entry_ids(entries).to_multiset(),
    ensures
        ({
            let owners = owners_of(entries, items);
            let results = reply_results(entries, owners, reply, batch_id);
            let reported = reported_ids(reply);
            &&& results.len() == items.len()
            &&& result_keys(results).to_multiset() == item_keys(items).to_multiset()
            &&& forall|j: int|
                0 <= j < results.len() ==> {
                    &&& Some((#[trigger] results[j]).db_id) == owner(owners, reported[j])
                    &&& results[j].success == (j < reply->successful@.len())
                }
        }),
{
    broadcast use group_to_multiset_ensures;

    let owners = owners_of(entries, items);
    let ids = entry_ids(entries);
    let reported = reported_ids(reply);
    let sent = reply->successful@;
    let failed = reply->failed@;
    let results = reply_results(entries, owners, reply, batch_id);
    let f = |id: Seq<char>| owner(owners, id)->Some_0;
    assert forall|j: int| 0 <= j < reported.len() implies owner(
        owners,
        #[trigger] reported[j],
    ) is Some by {
        assert(reported.contains(reported[j]));
        assert(reported.to_multiset().count(reported[j]) > 0);
        assert(ids.contains(reported[j]));
        let k = choose|k: int| 0 <= k < ids.len() && ids[k] == reported[j];
        each_entry_leads_to_its_item(entries, items, k);
    }
    assert forall|i: int| 0 <= i < sent.len() implies owner(
        owners,
        (#[trigger] sent[i]).id@,
    ) is Some by {
        assert(reported[i] == sent[i].id@);
    }
    assert forall|i: int| 0 <= i < failed.len() implies owner(
        owners,
        (#[trigger] failed[i]).id@,
    ) is Some by {
        assert(reported[sent.len() + i] == failed[i].id@);
    }
    lemma_sent_all(sent, owners, batch_id);
    lemma_failed_all(failed, owners, batch_id);
    assert(reported.to_multiset().len() == ids.to_multiset().len());
    assert forall|j: int| 0 <= j < results.len() implies {
        &&& Some((#[trigger] results[j]).db_id) == owner(owners, reported[j])
        &&& results[j].success == (j < reply->successful@.len())
    } by {
        if j >= sent.len() {
            assert(results[j] == failed_results(failed, owners, batch_id)[j - sent.len()]);
        }
    }
    lemma_map_keeps_multiset(reported, ids, f);
    assert(result_keys(results) =~= reported.map_values(f)) by {
        assert forall|j: int| 0 <= j < results.len() implies result_keys(results)[j]
            == reported.map_values(f)[j] by {
            assert(Some(results[j].db_id) == owner(owners, reported[j]));
        }
    }
    assert(item_keys(items) =~= ids.map_values(f)) by {
        assert forall|i: int| 0 <= i < items.len() implies item_keys(items)[i] == ids.map_values(
            f,
        )[i] by {
            each_entry_leads_to_its_item(entries, items, i);
        }
    }
}

/// In text mode a text item is sent as it is, whatever characters it holds.
pub proof fn text_is_sent_unchanged(text: Seq<char>, input_type: Seq<char>)
    requires
        input_type != "json"@,
    ensures
        message_body(JsonView::Text(text), input_type) == text,
{
}

/// Any input type but `json` is text mode: the message is the one of the type `text`, and no
/// identifier is taken from the item, whatever it holds.
pub proof fn every_other_type_is_text(input: JsonView, input_type: Seq<char>)
    requires
        input_type != "json"@,
    ensures
        message_body(input, input_type) == message_body(input, "text"@),
        given_id(input, input_type) is None,
{
    reveal_strlit("json");
    reveal_strlit("text");
    assert("json"@[0] != "text"@[0]);
}

/// What is sent for an item. In text mode a text is sent as it is, and any other value whole, as
/// JSON. In JSON mode an object with a text under `body` is sent as that text, one with another
/// value there as that value, and anything else whole, as JSON.
pub proof fn an_item_is_sent_whole_or_by_its_body(input: JsonView, input_type: Seq<char>)
    ensures
        input_type != "json"@ && !(input is Text) ==> message_body(input, input_type) == json_text(
            input,
        ),
        input_type != "json"@ ==> (input matches JsonView::Text(text) ==> message_body(
            input,
            input_type,
        ) == text),
        input_type == "json"@ && !(input is Object) ==> message_body(input, input_type)
            == json_text(input),
        input_type == "json"@ ==> (input matches JsonView::Object(members) ==> {
            let sent = message_body(input, input_type);
            &&& member(members, "body"@) is None ==> sent == json_text(input)
            &&& member(members, "body"@) matches Some(body) ==> {
                &&& body matches JsonView::Text(text) ==> sent == text
                &&& !(body is Text) ==> sent == json_text(body)
            }
        }),
{
}

/// An item brings an identifier along in JSON mode alone, as a text under `id`; any other item is
/// sent under the fresh one.
pub proof fn an_item_is_sent_under_its_own_id(
    input: JsonView,
    input_type: Seq<char>,
    fresh: Seq<char>,
)
    ensures
        input_type != "json"@ ==> message_id(input, input_type, fresh) == fresh,
        !(input is Object) ==> message_id(input, input_type, fresh) == fresh,
        input_type == "json"@ ==> (input matches JsonView::Object(members) ==> {
            let id = message_id(input, input_type, fresh);
            &&& member(members, "id"@) is None ==> id == fresh
            &&& member(members, "id"@) matches Some(given) ==> {
                &&& given matches JsonView::Text(text) ==> id == text
                &&& !(given is Text) ==> id == fresh
            }
        }),
        given_id(input, input_type) is Some <==> message_id(input, input_type, fresh.push('+'))
            != fresh.push('+') || message_id(input, input_type, fresh.push('-')) != fresh.push('-'),
        given_id(input, input_type) matches Some(id) ==> message_id(input, input_type, fresh) == id,
{
    assert(fresh.push('+').last() != fresh.push('-').last());
}

/// There is one entry for each item, in order: with the message of that very item, and under its own
/// identifier or the fresh one that is its own. Each identifier stands with the key of its item.
pub proof fn each_item_has_an_entry(
    items: Seq<ItemView>,
    input_type: Seq<char>,
    fresh: Seq<Seq<char>>,
)
    requires
        fresh.len() == items.len(),
    ensures
        ({
            let entries = item_entries(items, input_type, fresh);
            let owners = owners_of(entries, items);
            &&& entries.len() == items.len()
            &&& owners.len() == items.len()
            &&& forall|i: int|
                0 <= i < items.len() ==> {
                    &&& (#[trigger] entries[i]).body == message_body(items[i].input, input_type)
                    &&& entries[i].id == message_id(items[i].input, input_type, fresh[i])
                }
            &&& forall|i: int|
                0 <= i < items.len() ==> {
                    &&& (#[trigger] owners[i]).0 == entries[i].id
                    &&& owners[i].1 == items[i].db_id
                }
        }),
{
}

/// An identifier leads to the last item that was sent under it, and to none where no item was.
pub proof fn the_last_owner_counts(
    front: Seq<(Seq<char>, i64)>,
    id: Seq<char>,
    key: i64,
    back: Seq<(Seq<char>, i64)>,
)
    requires
        forall|i: int| 0 <= i < back.len() ==> (#[trigger] back[i]).0 != id,
    ensures
        owner(front + seq![(id, key)] + back, id) == Some(key),
        owner(back, id) is None,
    decreases back.len(),
{
    let all = front + seq![(id, key)] + back;
    if back.len() > 0 {
        let fewer = back.drop_last();
        assert(back[back.len() - 1].0 != id);
        assert forall|i: int| 0 <= i < fewer.len() implies (#[trigger] fewer[i]).0 != id by {
            assert(back[i].0 != id);
        }
        the_last_owner_counts(front, id, key, fewer);
        assert(all.drop_last() =~= front + seq![(id, key)] + fewer);
    }
}

/// What is said of a refused entry begins with the code, then a colon, and ends with what the service
/// said, or that the error is unknown where it said nothing.
pub proof fn a_refused_entry_says_why(failed: FailedEntry)
    ensures
        ({
            let said = entry_error(failed);
            let n = failed.code@.len() as int;
            &&& said.len() >= n + 2
            &&& said.take(n) == failed.code@
            &&& said[n] == ':' && said[n + 1] == ' '
            &&& failed.message matches Some(message) ==> said.skip(n + 2) == message@
            &&& failed.message is None ==> said.skip(n + 2) == "Unknown error"@
        }),
{
    reveal_strlit(": ");
    let said = entry_error(failed);
    let n = failed.code@.len() as int;
    assert(said.take(n) =~= failed.code@);
    match failed.message {
        Some(message) => {
            assert(said.skip(n + 2) =~= message@);
        },
        None => {
            assert(said.skip(n + 2) =~= "Unknown error"@);
        },
    }
}

/// The result of an entry that was taken is a success without an error, and keeps what the service
/// said of the message.
pub proof fn a_taken_entry_is_a_success(db_id: i64, sent: SentEntry, batch_id: Seq<char>)
    ensures
        ({
            let r = sent_result(db_id, sent, batch_id);
            &&& r.db_id == db_id
            &&& r.success
            &&& r.error is None
            &&& r.batch_id == batch_id
            &&& r.output matches Some(JsonView::Object(members)) && {
                &&& members.len() == 4
                &&& member(members, "message_id"@) == Some(JsonView::Text(sent.message_id@))
                &&& member(members, "md5_of_message_body"@) == Some(
                    JsonView::Text(sent.md5_of_message_body@),
                )
                &&& member(members, "sequence_number"@) == Some(
                    match sent.sequence_number {
                        Some(number) => JsonView::Text(number@),
                        None => JsonView::Null,
                    },
                )
                &&& member(members, "batch_id"@) == Some(JsonView::Text(batch_id))
            }
        }),
{
    reveal_strlit("message_id");
    reveal_strlit("md5_of_message_body");
    reveal_strlit("sequence_number");
    reveal_strlit("batch_id");
    let members = sent_result(db_id, sent, batch_id).output->Some_0->Object_0;
    assert("message_id"@.len() == 10 && "md5_of_message_body"@.len() == 19
        && "sequence_number"@.len() == 15 && "batch_id"@.len() == 8);
    lemma_member_at(members, 0);
    lemma_member_at(members, 1);
    lemma_member_at(members, 2);
    lemma_member_at(members, 3);
}

/// The result of an entry that was refused is no success: its error is what is said of the entry, and
/// it keeps what the service said.
pub proof fn a_refused_entry_is_a_failure(db_id: i64, failed: FailedEntry, batch_id: Seq<char>)
    ensures
        ({
            let r = failed_result(db_id, failed, batch_id);
            &&& r.db_id == db_id
            &&& !r.success
            &&& r.error == Some(entry_error(failed))
            &&& r.batch_id == batch_id
            &&& r.output matches Some(JsonView::Object(members)) && {
                &&& members.len() == 4
                &&& member(members, "code"@) == Some(JsonView::Text(failed.code@))
                &&& member(members, "message"@) == Some(
                    match failed.message {
                        Some(message) => JsonView::Text(message@),
                        None => JsonView::Null,
                    },
                )
                &&& member(members, "sender_fault"@) == Some(JsonView::Bool(failed.sender_fault))
                &&& member(members, "batch_id"@) == Some(JsonView::Text(batch_id))
            }
        }),
{
    reveal_strlit("code");
    reveal_strlit("message");
    reveal_strlit("sender_fault");
    reveal_strlit("batch_id");
    let members = failed_result(db_id, failed, batch_id).output->Some_0->Object_0;
    assert("code"@.len() == 4 && "message"@.len() == 7 && "sender_fault"@.len() == 12
        && "batch_id"@.len() == 8);
    lemma_member_at(members, 0);
    lemma_member_at(members, 1);
    lemma_member_at(members, 2);
    lemma_member_at(members, 3);
}

/// The result of an item whose request failed as a whole is no success: its error is what is said of
/// the failure, and it keeps the account of the failure.
pub proof fn a_failed_request_is_a_failure(db_id: i64, e: SdkFailure, batch_id: Seq<char>)
    ensures
        ({
            let r = undelivered_result(db_id, e, batch_id);
            &&& r.db_id == db_id
            &&& !r.success
            &&& r.error == Some(failure_message(e))
            &&& r.batch_id == batch_id
            &&& r.output matches Some(JsonView::Object(members)) && {
                &&& members.len() == 2
                &&& member(members, "error_details"@) == Some(JsonView::Object(failure_details(e)))
                &&& member(members, "batch_id"@) == Some(JsonView::Text(batch_id))
            }
        }),
{
    reveal_strlit("error_details");
    reveal_strlit("batch_id");
    let members = undelivered_result(db_id, e, batch_id).output->Some_0->Object_0;
    assert("error_details"@.len() == 13 && "batch_id"@.len() == 8);
    lemma_member_at(members, 0);
    lemma_member_at(members, 1);
}

proof fn lemma_sent_parts(
    a: Seq<SentEntry>,
    b: Seq<SentEntry>,
    owners: Seq<(Seq<char>, i64)>,
    batch_id: Seq<char>,
)
    ensures
        sent_results(a + b, owners, batch_id) == sent_results(a, owners, batch_id) + sent_results(
            b,
            owners,
            batch_id,
        ),
    decreases b.len(),
{
    if b.len() == 0 {
        assert(a + b =~= a);
    } else {
        lemma_sent_parts(a, b.drop_last(), owners, batch_id);
        assert((a + b).drop_last() =~= a + b.drop_last());
    }
    assert(sent_results(a + b, owners, batch_id) =~= sent_results(a, owners, batch_id)
        + sent_results(b, owners, batch_id));
}

proof fn lemma_failed_parts(
    a: Seq<FailedEntry>,
    b: Seq<FailedEntry>,
    owners: Seq<(Seq<char>, i64)>,
    batch_id: Seq<char>,
)
    ensures
        failed_results(a + b, owners, batch_id) == failed_results(a, owners, batch_id)
            + failed_results(b, owners, batch_id),
    decreases b.len(),
{
    if b.len() == 0 {
        assert(a + b =~= a);
    } else {
        lemma_failed_parts(a, b.drop_last(), owners, batch_id);
        assert((a + b).drop_last() =~= a + b.drop_last());
    }
    assert(failed_results(a + b, owners, batch_id) =~= failed_results(a, owners, batch_id)
        + failed_results(b, owners, batch_id));
}

/// The results of taken entries follow one by one: an entry in the middle of others adds one success
/// for the item that its identifier leads to, and nothing where it leads to none.
pub proof fn each_taken_entry_adds_its_success(
    front: Seq<SentEntry>,
    sent: SentEntry,
    back: Seq<SentEntry>,
    owners: Seq<(Seq<char>, i64)>,
    batch_id: Seq<char>,
)
    ensures
        sent_results(front.push(sent) + back, owners, batch_id) == sent_results(
            front,
            owners,
            batch_id,
        ) + match owner(owners, sent.id@) {
            Some(db_id) => seq![sent_result(db_id, sent, batch_id)],
            None => Seq::empty(),
        } + sent_results(back, owners, batch_id),
        sent_results(Seq::empty(), owners, batch_id).len() == 0,
{
    lemma_sent_parts(front.push(sent), back, owners, batch_id);
    assert(front.push(sent).drop_last() =~= front);
    let before = sent_results(front, owners, batch_id);
    if let Some(db_id) = owner(owners, sent.id@) {
        let r = sent_result(db_id, sent, batch_id);
        assert(before.push(r) =~= before + seq![r]);
    } else {
        assert(before =~= before + Seq::empty());
    }
}

/// The results of refused entries follow one by one: an entry in the middle of others adds one
/// failure for the item that its identifier leads to, and nothing where it leads to none.
pub proof fn each_refused_entry_adds_its_failure(
    front: Seq<FailedEntry>,
    failed: FailedEntry,
    back: Seq<FailedEntry>,
    owners: Seq<(Seq<char>, i64)>,
    batch_id: Seq<char>,
)
    ensures
        failed_results(front.push(failed) + back, owners, batch_id) == failed_results(
            front,
            owners,
            batch_id,
        ) + match owner(owners, failed.id@) {
            Some(db_id) => seq![failed_result(db_id, failed, batch_id)],
            None => Seq::empty(),
        } + failed_results(back, owners, batch_id),
        failed_results(Seq::empty(), owners, batch_id).len() == 0,
{
    lemma_failed_parts(front.push(failed), back, owners, batch_id);
    assert(front.push(failed).drop_last() =~= front);
    let before = failed_results(front, owners, batch_id);
    if let Some(db_id) = owner(owners, failed.id@) {
        let r = failed_result(db_id, failed, batch_id);
        assert(before.push(r) =~= before + seq![r]);
    } else {
        assert(before =~= before + Seq::empty());
    }
}

proof fn lemma_each_sent(
    sent: Seq<SentEntry>,
    owners: Seq<(Seq<char>, i64)>,
    batch_id: Seq<char>,
    i: int,
)
    requires
        0 <= i < sent.len(),
        forall|j: int| 0 <= j < sent.len() ==> owner(owners, (#[trigger] sent[j]).id@) is Some,
    ensures
        sent_results(sent, owners, batch_id).len() == sent.len(),
        sent_results(sent, owners, batch_id)[i] == sent_result(
            owner(owners, sent[i].id@)->Some_0,
            sent[i],
            batch_id,
        ),
{
    lemma_sent_all(sent, owners, batch_id);
    let front = sent.take(i);
    let back = sent.skip(i + 1);
    assert forall|j: int| 0 <= j < front.len() implies owner(
        owners,
        (#[trigger] front[j]).id@,
    ) is Some by {
        assert(owner(owners, sent[j].id@) is Some);
    }
    lemma_sent_all(front, owners, batch_id);
    assert(owner(owners, sent[i].id@) is Some);
    assert(front.push(sent[i]) + back =~= sent);
    each_taken_entry_adds_its_success(front, sent[i], back, owners, batch_id);
}

proof fn lemma_each_failed(
    failed: Seq<FailedEntry>,
    owners: Seq<(Seq<char>, i64)>,
    batch_id: Seq<char>,
    i: int,
)
    requires
        0 <= i < failed.len(),
        forall|j: int| 0 <= j < failed.len() ==> owner(owners, (#[trigger] failed[j]).id@) is Some,
    ensures
        failed_results(failed, owners, batch_id).len() == failed.len(),
        failed_results(failed, owners, batch_id)[i] == failed_result(
            owner(owners, failed[i].id@)->Some_0,
            failed[i],
            batch_id,
        ),
{
    lemma_failed_all(failed, owners, batch_id);
    let front = failed.take(i);
    let back = failed.skip(i + 1);
    assert forall|j: int| 0 <= j < front.len() implies owner(
        owners,
        (#[trigger] front[j]).id@,
    ) is Some by {
        assert(owner(owners, failed[j].id@) is Some);
    }
    lemma_failed_all(front, owners, batch_id);
    assert(owner(owners, failed[i].id@) is Some);
    assert(front.push(failed[i]) + back =~= failed);
    each_refused_entry_adds_its_failure(front, failed[i], back, owners, batch_id);
}

/// Where no two entries share an identifier and the reply reports on every entry once, or the
/// request failed as a whole, each result tells of an item of the batch what the service told of its
/// entry: a success exactly where the entry was taken, and else the error of that very entry, or of
/// the request.
pub proof fn each_result_tells_what_the_service_told(
    entries: Seq<EntryView>,
    items: Seq<ItemView>,
    reply: SendReply,
    batch_id: Seq<char>,
    j: int,
) -> (i: int)
    requires
        entries.len() == items.len(),
        entry_ids(entries).no_duplicates(),
        reply is Answered ==> reported_ids(reply).to_multiset() == entry_ids(
            entries,
        ).to_multiset(),
        0 <= j < reply_results(entries, owners_of(entries, items), reply, batch_id).len(),
    ensures
        ({
            let r = reply_results(entries, owners_of(entries, items), reply, batch_id)[j];
            &&& 0 <= i < items.len()
            &&& r.db_id == items[i].db_id
            &&& r.batch_id == batch_id
            &&& match reply {
                SendReply::Answered { successful, failed } => {
                    &&& r.success <==> exists|k: int|
                        0 <= k < successful@.len() && (#[trigger] successful@[k]).id@
                            == entries[i].id
                    &&& !r.success ==> exists|k: int|
                        0 <= k < failed@.len() && (#[trigger] failed@[k]).id@ == entries[i].id
                            && r.error == Some(entry_error(failed@[k]))
                },
                SendReply::Failed(e) => !r.success && r.error == Some(failure_message(e)),
            }
            &&& r.success ==> r.error is None
        }),
{
    broadcast use group_to_multiset_ensures;

    let owners = owners_of(entries, items);
    let ids = entry_ids(entries);
    match reply {
        SendReply::Failed(e) => {
            failed_request_fails_every_item(entries, items, e, batch_id);
            let results = reply_results(entries, owners, reply, batch_id);
            assert(result_keys(results).len() == results.len());
            assert(item_keys(items).len() == items.len());
            assert(result_keys(results)[j] == results[j].db_id);
            assert(item_keys(items)[j] == items[j].db_id);
            lemma_undelivered_batch(entries, owners, e, batch_id, j);
            j
        },
        SendReply::Answered { successful, failed } => {
            full_reply_settles_every_item(entries, items, reply, batch_id);
            let reported = reported_ids(reply);
            let sent = successful@;
            let refused = failed@;
            assert(reported.to_multiset().len() == ids.to_multiset().len());
            assert forall|k: int| 0 <= k < reported.len() implies owner(
                owners,
                #[trigger] reported[k],
            ) is Some by {
                assert(reported.contains(reported[k]));
                assert(reported.to_multiset().count(reported[k]) > 0);
                assert(ids.contains(reported[k]));
                let n = choose|n: int| 0 <= n < ids.len() && ids[n] == reported[k];
                each_entry_leads_to_its_item(entries, items, n);
            }
            assert forall|k: int| 0 <= k < sent.len() implies owner(
                owners,
                (#[trigger] sent[k]).id@,
            ) is Some by {
                assert(reported[k] == sent[k].id@);
            }
            assert forall|k: int| 0 <= k < refused.len() implies owner(
                owners,
                (#[trigger] refused[k]).id@,
            ) is Some by {
                assert(reported[sent.len() + k] == refused[k].id@);
            }
            lemma_sent_all(sent, owners, batch_id);
            lemma_failed_all(refused, owners, batch_id);
            assert(reported.contains(reported[j]));
            assert(reported.to_multiset().count(reported[j]) > 0);
            assert(ids.contains(reported[j]));
            let i = choose|i: int| 0 <= i < ids.len() && ids[i] == reported[j];
            each_entry_leads_to_its_item(entries, items, i);
            ids.lemma_multiset_has_no_duplicates();
            reported.lemma_multiset_has_no_duplicates_conv();
            if j < sent.len() {
                lemma_each_sent(sent, owners, batch_id, j);
                assert(sent[j].id@ == entries[i].id);
            } else {
                let k = j - sent.len();
                lemma_each_failed(refused, owners, batch_id, k);
                assert(refused[k].id@ == entries[i].id);
                assert forall|m: int| 0 <= m < sent.len() implies (#[trigger] sent[m]).id@
                    != entries[i].id by {
                    assert(reported[m] == sent[m].id@);
                    assert(reported[m] != reported[j]);
                }
            }
            i
        },
    }
}

proof fn lemma_undelivered_batch(
    entries: Seq<EntryView>,
    owners: Seq<(Seq<char>, i64)>,
    e: SdkFailure,
    batch_id: Seq<char>,
    j: int,
)
    requires
        0 <= j < undelivered_results(entries, owners, e, batch_id).len(),
    ensures
        exists|db_id: i64|
            undelivered_results(entries, owners, e, batch_id)[j] == #[trigger] undelivered_result(
                db_id,
                e,
                batch_id,
            ),
    decreases entries.len(),
{
    if entries.len() > 0 {
        let before = undelivered_results(entries.drop_last(), owners, e, batch_id);
        if j < before.len() {
            lemma_undelivered_batch(entries.drop_last(), owners, e, batch_id, j);
        } else {
            let db_id = owner(owners, entries.last().id)->Some_0;
            assert(undelivered_results(entries, owners, e, batch_id)[j] == undelivered_result(
                db_id,
                e,
                batch_id,
            ));
        }
    }
}

/// The results of a request that failed as a whole follow one by one: an entry in the middle of
/// others adds one failure for the item that its identifier leads to, and nothing where it leads to
/// none.
pub proof fn each_entry_of_a_failed_request_adds_its_failure(
    front: Seq<EntryView>,
    entry: EntryView,
    back: Seq<EntryView>,
    owners: Seq<(Seq<char>, i64)>,
    e: SdkFailure,
    batch_id: Seq<char>,
)
    ensures
        undelivered_results(front.push(entry) + back, owners, e, batch_id) == undelivered_results(
            front,
            owners,
            e,
            batch_id,
        ) + match owner(owners, entry.id) {
            Some(db_id) => seq![undelivered_result(db_id, e, batch_id)],
            None => Seq::empty(),
        } + undelivered_results(back, owners, e, batch_id),
        undelivered_results(Seq::empty(), owners, e, batch_id).len() == 0,
    decreases back.len(),
{
    let all = front.push(entry) + back;
    let before = undelivered_results(front, owners, e, batch_id);
    let own = match owner(owners, entry.id) {
        Some(db_id) => seq![undelivered_result(db_id, e, batch_id)],
        None => Seq::empty(),
    };
    if back.len() == 0 {
        assert(all =~= front.push(entry));
        assert(all.drop_last() =~= front);
        assert(undelivered_results(all, owners, e, batch_id) =~= before + own
            + undelivered_results(back, owners, e, batch_id));
    } else {
        each_entry_of_a_failed_request_adds_its_failure(
            front,
            entry,
            back.drop_last(),
            owners,
            e,
            batch_id,
        );
        assert(all.drop_last() =~= front.push(entry) + back.drop_last());
        assert(undelivered_results(all, owners, e, batch_id) =~= before + own
            + undelivered_results(back, owners, e, batch_id));
    }
}

/// Whatever an answer leaves out or reports twice, its results are those of the entries that were
/// taken, then those of the entries that were refused: each depends on its own report alone.
pub proof fn an_answer_is_read_report_by_report(
    entries: Seq<EntryView>,
    others: Seq<EntryView>,
    owners: Seq<(Seq<char>, i64)>,
    reply: SendReply,
    batch_id: Seq<char>,
)
    requires
        reply is Answered,
    ensures
        reply_results(entries, owners, reply, batch_id) == sent_results(
            reply->successful@,
            owners,
            batch_id,
        ) + failed_results(reply->failed@, owners, batch_id),
        reply_results(entries, owners, reply, batch_id) == reply_results(
            others,
            owners,
            reply,
            batch_id,
        ),
{
}

/// Where a request fails as a whole, its results are those of its entries, each on its own.
pub proof fn a_failed_request_is_read_entry_by_entry(
    entries: Seq<EntryView>,
    owners: Seq<(Seq<char>, i64)>,
    e: SdkFailure,
    batch_id: Seq<char>,
)
    ensures
        reply_results(entries, owners, SendReply::Failed(e), batch_id) == undelivered_results(
            entries,
            owners,
            e,
            batch_id,
        ),
{
}

} // verus!
