//! What holds of a whole run, from staged items to what is stored.
//!
//! A run is described by what happened to each of its parts: what the loader staged and handed
//! over, which items each sender took, how the senders sent them, and what the writer wrote.

use vstd::prelude::*;
use vstd::seq_lib::*;
use crate::chunks::{chunks_make_up_the_list, chunks_of, concat};
use crate::database::CompletionView;
use crate::delivery::{
    each_result_tells_what_the_service_told, entry_ids, failed_request_fails_every_item, full_reply_settles_every_item, item_keys,
    reported_ids, result_keys,
};
use crate::entry::EntryView;
use crate::failure::failure_message;
use crate::loader::{
    handed_over, loader_accepts, loader_loses_nothing, loader_run, staged, LoadEventView,
};
use crate::multi::{
    lemma_concat_add, lemma_concat_contains, lemma_concat_holds, lemma_concat_keeps_multiset,
    lemma_concat_map, lemma_concat_pointwise, lemma_map_keeps_multiset,
};
use crate::settle::{
    completion_of, completions, every_end_is_that_of_a_result, keys_settled, lemma_keys_settled_add, retries, settled_keys,
    settling_changes, settling_keeps_every_item, settling_settles_every_item,
};
use crate::tables::{completing_ends_every_item, Change, Tables};
use crate::worker::{
    entry_error, item_entries, message_body, owners_of, reply_results, ItemView, ResultView, SendReply,
};
use crate::writer::{
    handed_out, in_flight, received, unwritten, writer_accepts, writer_counts_everything,
    writer_is_caught_up, writer_run, ActionView, EventView,
};

verus! {

/// A batch that was sent: its items, the identifiers that were drawn for them, and the reply.
pub struct SentBatch {
    pub items: Seq<ItemView>,
    pub drawn: Seq<Seq<char>>,
    pub reply: SendReply,
    pub batch_id: Seq<char>,
}

impl SentBatch {
    /// The entries of the batch: one for each item, in order.
    pub open spec fn entries(self, input_type: Seq<char>) -> Seq<EntryView> {
        item_entries(self.items, input_type, self.drawn)
    }

    /// What was sent for each item: its key, and the message.
    pub open spec fn messages(self, input_type: Seq<char>) -> Seq<(i64, Seq<char>)> {
        Seq::new(
            self.entries(input_type).len(),
            |i: int| (self.items[i].db_id, self.entries(input_type)[i].body),
        )
    }

    /// The results that follow from the reply.
    pub open spec fn results(self, input_type: Seq<char>) -> Seq<ResultView> {
        let entries = self.entries(input_type);
        reply_results(entries, owners_of(entries, self.items), self.reply, self.batch_id)
    }

    /// Whether no two entries share an identifier, and the request failed as a whole or the reply
    /// reports on every entry once.
    pub open spec fn answered_in_full(self, input_type: Seq<char>) -> bool {
        let ids = entry_ids(self.entries(input_type));
        &&& ids.no_duplicates()
        &&& self.reply is Answered ==> reported_ids(self.reply).to_multiset() == ids.to_multiset()
    }

    /// Whether the service took every entry.
    pub open spec fn taken(self) -> bool {
        self.reply is Answered && self.reply->failed@.len() == 0
    }
}

/// The batches that were handed out to be written.
pub open spec fn writes(actions: Seq<ActionView>) -> Seq<Seq<ResultView>>
    decreases actions.len(),
{
    if actions.len() == 0 {
        Seq::empty()
    } else {
        match actions.last() {
            ActionView::Write(batch) => writes(actions.drop_last()).push(batch),
            _ => writes(actions.drop_last()),
        }
    }
}

/// What happened in a run.
pub struct Run {
    pub input_type: Seq<char>,
    pub stage_size: int,
    pub limit: Option<int>,
    /// What happened to the loader.
    pub loading: Seq<LoadEventView>,
    pub batch_size: nat,
    /// The items that each sender took, in order.
    pub shares: Seq<Seq<ItemView>>,
    /// The batches that were sent, by whichever sender.
    pub batches: Seq<SentBatch>,
    /// What happened to the writer.
    pub writing: Seq<EventView>,
    pub retry_limit: int,
    /// How often the items of each write were retried before.
    pub counts: Seq<Seq<i32>>,
}

impl Run {
    /// The items that were staged.
    pub open spec fn staged(self) -> Seq<ItemView> {
        staged(self.loading)
    }

    /// The batches of all senders: each sends what it took in batches of the batch size.
    pub open spec fn chunks(self) -> Seq<Seq<ItemView>> {
        concat(self.shares.map_values(|share: Seq<ItemView>| chunks_of(share, self.batch_size)))
    }

    /// The items of each batch.
    pub open spec fn batch_items(self) -> Seq<Seq<ItemView>> {
        self.batches.map_values(|b: SentBatch| b.items)
    }

    /// The results of each batch.
    pub open spec fn batch_results(self) -> Seq<Seq<ResultView>> {
        self.batches.map_values(|b: SentBatch| b.results(self.input_type))
    }

    /// What was sent: the key of each item that an entry was made for, and the message.
    pub open spec fn sent(self) -> Seq<(i64, Seq<char>)> {
        concat(self.batches.map_values(|b: SentBatch| b.messages(self.input_type)))
    }

    /// The batches that were handed out to be written.
    pub open spec fn written(self) -> Seq<Seq<ResultView>> {
        writes(writer_run(self.writing).1)
    }

    /// The keys of the items that were settled.
    pub open spec fn settled(self) -> Seq<i64> {
        concat(
            Seq::new(
                self.written().len(),
                |j: int| settled_keys(self.written()[j], self.counts[j], self.retry_limit),
            ),
        )
    }

    /// How the items ended that are not tried again.
    pub open spec fn ended(self) -> Seq<CompletionView> {
        concat(
            Seq::new(
                self.written().len(),
                |j: int| completions(self.written()[j], self.counts[j], self.retry_limit),
            ),
        )
    }

    /// What each write changes in the tables.
    pub open spec fn write_changes(self) -> Seq<Seq<Change>> {
        Seq::new(
            self.written().len(),
            |j: int|
                settling_changes(
                    completions(self.written()[j], self.counts[j], self.retry_limit),
                    retries(self.written()[j], self.counts[j], self.retry_limit),
                ),
        )
    }

    /// What the writes change in the tables to settle the items, in order.
    pub open spec fn settling(self) -> Seq<Change> {
        concat(self.write_changes())
    }

    /// Whether no retry is due: every result ends its item.
    pub open spec fn retries_nothing(self) -> bool {
        forall|j: int|
            0 <= j < self.written().len() ==> retries(
                #[trigger] self.written()[j],
                self.counts[j],
                self.retry_limit,
            ).len() == 0
    }

    /// Whether the run went to its end: the loader stopped, and not for want of senders; each item
    /// that it handed over was taken by one sender; all batches were sent, and were answered in
    /// full; each result reached the writer; and the writer finished.
    pub open spec fn finished(self) -> bool {
        let (loader, load_actions) = loader_run(self.stage_size, self.limit, self.loading);
        let (writer, write_actions) = writer_run(self.writing);
        &&& loader_accepts(self.stage_size, self.limit, self.loading)
        &&& loader.phase is Stopped
        &&& !(self.loading.last() is SendersGone)
        &&& concat(self.shares).to_multiset() == handed_over(load_actions).to_multiset()
        &&& self.batch_size > 0
        &&& self.batch_items().to_multiset() == self.chunks().to_multiset()
        &&& forall|k: int|
            0 <= k < self.batches.len() ==> (#[trigger] self.batches[k]).answered_in_full(
                self.input_type,
            )
        &&& writer_accepts(self.writing)
        &&& self.writing.len() > 0
        &&& write_actions.last() is Finish
        &&& received(self.writing).to_multiset() == concat(self.batch_results()).to_multiset()
        &&& self.counts.len() == self.written().len()
        &&& forall|j: int|
            0 <= j < self.counts.len() ==> (#[trigger] self.counts[j]).len()
                >= self.written()[j].len()
    }
}

/// The keys of items, with the messages that are to be sent for them.
pub open spec fn messages_for(items: Seq<ItemView>, input_type: Seq<char>) -> Seq<
    (i64, Seq<char>),
> {
    items.map_values(|i: ItemView| (i.db_id, message_body(i.input, input_type)))
}

proof fn lemma_writes(actions: Seq<ActionView>)
    ensures
        concat(writes(actions)) == handed_out(actions),
    decreases actions.len(),
{
    if actions.len() > 0 {
        let before = writes(actions.drop_last());
        lemma_writes(actions.drop_last());
        match actions.last() {
            ActionView::Write(batch) => {
                assert(before.push(batch).drop_last() =~= before);
            },
            _ => {},
        }
    }
}

proof fn lemma_stopped_loader_handed_everything_over(
    stage_size: int,
    limit: Option<int>,
    events: Seq<LoadEventView>,
)
    requires
        loader_accepts(stage_size, limit, events),
        loader_run(stage_size, limit, events).0.phase is Stopped,
        !(events.last() is SendersGone),
    ensures
        handed_over(loader_run(stage_size, limit, events).1) == staged(events),
{
    loader_loses_nothing(stage_size, limit, events);
    let (state, actions) = loader_run(stage_size, limit, events);
    assert(events.len() > 0);
    loader_loses_nothing(stage_size, limit, events.drop_last());
    assert(state.queue.len() == 0);
    assert(handed_over(actions) + state.queue =~= handed_over(actions));
}

proof fn lemma_chunks_of_all(shares: Seq<Seq<ItemView>>, parts: Seq<Seq<Seq<ItemView>>>, size: nat)
    requires
        size > 0,
        parts.len() == shares.len(),
        forall|w: int| 0 <= w < shares.len() ==> #[trigger] parts[w] == chunks_of(shares[w], size),
    ensures
        concat(concat(parts)) == concat(shares),
    decreases shares.len(),
{
    if shares.len() == 0 {
        assert(concat(concat(parts)) =~= concat(shares));
    } else {
        let s1 = shares.drop_last();
        let p1 = parts.drop_last();
        assert forall|w: int| 0 <= w < s1.len() implies #[trigger] p1[w] == chunks_of(
            s1[w],
            size,
        ) by {
            assert(parts[w] == chunks_of(shares[w], size));
        }
        lemma_chunks_of_all(s1, p1, size);
        assert(parts[parts.len() - 1] == chunks_of(shares[shares.len() - 1], size));
        lemma_concat_add(concat(p1), parts.last());
        chunks_make_up_the_list(shares.last(), size);
    }
}

/// The items of the batches are the items that were staged.
proof fn lemma_batches_hold_what_was_staged(run: Run)
    requires
        run.finished(),
    ensures
        concat(run.batch_items()).to_multiset() == run.staged().to_multiset(),
{
    lemma_stopped_loader_handed_everything_over(run.stage_size, run.limit, run.loading);
    let parts = run.shares.map_values(|share: Seq<ItemView>| chunks_of(share, run.batch_size));
    lemma_chunks_of_all(run.shares, parts, run.batch_size);
    lemma_concat_keeps_multiset(run.batch_items(), run.chunks());
}

proof fn lemma_batch_sizes(run: Run, k: int)
    requires
        run.finished(),
        0 <= k < run.batches.len(),
    ensures
        0 < run.batches[k].items.len() <= run.batch_size,
{
    broadcast use group_to_multiset_ensures;

    let items = run.batches[k].items;
    assert(run.batch_items()[k] == items);
    assert(run.batch_items().contains(items));
    assert(run.batch_items().to_multiset().count(items) > 0);
    assert(run.chunks().contains(items));
    let parts = run.shares.map_values(|share: Seq<ItemView>| chunks_of(share, run.batch_size));
    lemma_concat_contains(parts, items);
    let w = choose|w: int| 0 <= w < parts.len() && (#[trigger] parts[w]).contains(items);
    chunks_make_up_the_list(run.shares[w], run.batch_size);
    let c = choose|c: int| 0 <= c < parts[w].len() && parts[w][c] == items;
    assert(chunks_of(run.shares[w], run.batch_size)[c] == items);
}

/// The results that the writer got are about the items that were staged.
proof fn lemma_results_are_about_what_was_staged(run: Run)
    requires
        run.finished(),
    ensures
        result_keys(received(run.writing)).to_multiset() == item_keys(run.staged()).to_multiset(),
{
    lemma_batches_hold_what_was_staged(run);
    let key = |i: ItemView| i.db_id;
    let about = |r: ResultView| r.db_id;
    let keys = run.batch_items().map_values(|items: Seq<ItemView>| item_keys(items));
    let results = run.batch_results();
    let result_key_lists = results.map_values(|rs: Seq<ResultView>| result_keys(rs));
    assert forall|k: int| 0 <= k < keys.len() implies (#[trigger] result_key_lists[k]).to_multiset()
        == keys[k].to_multiset() by {
        let b = run.batches[k];
        let entries = b.entries(run.input_type);
        assert(b.answered_in_full(run.input_type));
        assert(run.batch_items()[k] == b.items);
        assert(results[k] == b.results(run.input_type));
        match b.reply {
            SendReply::Answered { .. } => {
                full_reply_settles_every_item(entries, b.items, b.reply, b.batch_id);
            },
            SendReply::Failed(e) => {
                failed_request_fails_every_item(entries, b.items, e, b.batch_id);
            },
        }
    }
    lemma_concat_pointwise(result_key_lists, keys);
    lemma_concat_map(run.batch_items(), keys, key);
    lemma_concat_map(results, result_key_lists, about);
    lemma_map_keeps_multiset(concat(run.batch_items()), run.staged(), key);
    lemma_map_keeps_multiset(received(run.writing), concat(results), about);
    assert(item_keys(run.staged()) =~= run.staged().map_values(key));
    assert(result_keys(received(run.writing)) =~= received(run.writing).map_values(about));
}

/// In a run that goes to its end, whatever the stage size, the batch size and the number of senders:
/// every staged item is in exactly one entry of one batch, with its message, and nothing else is
/// sent; no batch is empty or larger than the batch size; and every staged item is settled exactly
/// once, as ended or to be tried again. Where nothing failed to be written, all of them are counted
/// so.
pub proof fn every_item_of_a_run_is_sent_and_settled(run: Run)
    requires
        run.finished(),
    ensures
        run.sent().to_multiset() == messages_for(run.staged(), run.input_type).to_multiset(),
        forall|k: int|
            0 <= k < run.batches.len() ==> 0 < (#[trigger] run.batches[k]).entries(
                run.input_type,
            ).len() <= run.batch_size,
        run.settled().to_multiset() == item_keys(run.staged()).to_multiset(),
        ({
            let writer = writer_run(run.writing).0;
            unwritten(run.writing) == 0 ==> writer.completed + writer.requeued
                == run.staged().len()
        }),
{
    broadcast use group_to_multiset_ensures;

    lemma_batches_hold_what_was_staged(run);
    // what is sent
    let wanted = |i: ItemView| (i.db_id, message_body(i.input, run.input_type));
    let sent = run.batches.map_values(|b: SentBatch| b.messages(run.input_type));
    assert forall|k: int| 0 <= k < sent.len() implies #[trigger] sent[k]
        == run.batch_items()[k].map_values(wanted) by {
        assert(sent[k] =~= run.batch_items()[k].map_values(wanted));
    }
    lemma_concat_map(run.batch_items(), sent, wanted);
    lemma_map_keeps_multiset(concat(run.batch_items()), run.staged(), wanted);
    assert(messages_for(run.staged(), run.input_type) =~= run.staged().map_values(wanted));
    // how large the batches are
    assert forall|k: int| 0 <= k < run.batches.len() implies 0 < (
    #[trigger] run.batches[k]).entries(run.input_type).len() <= run.batch_size by {
        lemma_batch_sizes(run, k);
    }
    // what is settled
    lemma_results_are_about_what_was_staged(run);
    writer_is_caught_up(run.writing);
    lemma_writes(writer_run(run.writing).1);
    let about = |r: ResultView| r.db_id;
    let written = run.written();
    let settled = Seq::new(
        written.len(),
        |j: int| settled_keys(written[j], run.counts[j], run.retry_limit),
    );
    let keys = written.map_values(|rs: Seq<ResultView>| result_keys(rs));
    assert forall|j: int| 0 <= j < settled.len() implies (#[trigger] settled[j]).to_multiset()
        == keys[j].to_multiset() by {
        assert(run.counts[j].len() >= written[j].len());
        settling_keeps_every_item(written[j], run.counts[j], run.retry_limit);
    }
    lemma_concat_pointwise(settled, keys);
    lemma_concat_map(written, keys, about);
    assert(result_keys(received(run.writing)) =~= received(run.writing).map_values(about));
    // how many there are
    writer_counts_everything(run.writing);
    assert(in_flight(writer_run(run.writing).0.phase) == 0);
    assert(result_keys(received(run.writing)).len() == result_keys(
        received(run.writing),
    ).to_multiset().len());
    assert(item_keys(run.staged()).len() == item_keys(run.staged()).to_multiset().len());
}

proof fn lemma_concat_settles(parts: Seq<Seq<Change>>, keys: Seq<Seq<i64>>)
    requires
        keys.len() == parts.len(),
        forall|j: int| 0 <= j < parts.len() ==> #[trigger] keys[j] == keys_settled(parts[j]),
    ensures
        keys_settled(concat(parts)) == concat(keys),
    decreases parts.len(),
{
    if parts.len() > 0 {
        let p1 = parts.drop_last();
        let k1 = keys.drop_last();
        assert forall|j: int| 0 <= j < p1.len() implies #[trigger] k1[j] == keys_settled(p1[j]) by {
            assert(keys[j] == keys_settled(parts[j]));
        }
        lemma_concat_settles(p1, k1);
        lemma_keys_settled_add(concat(p1), parts.last());
        assert(keys[keys.len() - 1] == keys_settled(parts[parts.len() - 1]));
    }
    assert(keys_settled(concat(parts)) =~= concat(keys));
}

/// What is changed to settle the items settles each staged item, as often as it was staged.
pub proof fn settling_settles_what_was_staged(run: Run)
    requires
        run.finished(),
    ensures
        keys_settled(run.settling()).to_multiset() == item_keys(run.staged()).to_multiset(),
{
    every_item_of_a_run_is_sent_and_settled(run);
    let written = run.written();
    let parts = run.write_changes();
    let keys = Seq::new(parts.len(), |j: int| keys_settled(parts[j]));
    lemma_concat_settles(parts, keys);
    let settled = Seq::new(
        written.len(),
        |j: int| settled_keys(written[j], run.counts[j], run.retry_limit),
    );
    assert forall|j: int| 0 <= j < keys.len() implies (#[trigger] keys[j]).to_multiset()
        == settled[j].to_multiset() by {
        settling_settles_every_item(
            completions(written[j], run.counts[j], run.retry_limit),
            retries(written[j], run.counts[j], run.retry_limit),
        );
    }
    lemma_concat_pointwise(keys, settled);
}

/// Where no retry is due, every staged item ends.
pub proof fn items_end_where_no_retry_is_due(run: Run)
    requires
        run.finished(),
        run.retries_nothing(),
    ensures
        run.ended().map_values(|c: CompletionView| c.id).to_multiset() == item_keys(
            run.staged(),
        ).to_multiset(),
{
    every_item_of_a_run_is_sent_and_settled(run);
    let written = run.written();
    let id = |c: CompletionView| c.id;
    let ended = Seq::new(
        written.len(),
        |j: int| completions(written[j], run.counts[j], run.retry_limit),
    );
    let settled = Seq::new(
        written.len(),
        |j: int| settled_keys(written[j], run.counts[j], run.retry_limit),
    );
    assert forall|j: int| 0 <= j < written.len() implies #[trigger] settled[j]
        == ended[j].map_values(id) by {
        assert(retries(written[j], run.counts[j], run.retry_limit).len() == 0);
        assert(settled[j] =~= ended[j].map_values(id));
    }
    lemma_concat_map(ended, settled, id);
}

/// Where no item is staged twice, no item is sent or settled twice.
pub proof fn no_item_is_sent_or_settled_twice(run: Run)
    requires
        run.finished(),
        item_keys(run.staged()).no_duplicates(),
    ensures
        run.settled().no_duplicates(),
        run.sent().map_values(|m: (i64, Seq<char>)| m.0).no_duplicates(),
{
    every_item_of_a_run_is_sent_and_settled(run);
    let keys = item_keys(run.staged());
    keys.lemma_multiset_has_no_duplicates();
    run.settled().lemma_multiset_has_no_duplicates_conv();
    let key = |m: (i64, Seq<char>)| m.0;
    let wanted = messages_for(run.staged(), run.input_type);
    lemma_map_keeps_multiset(run.sent(), wanted, key);
    assert(wanted.map_values(key) =~= keys);
    run.sent().map_values(key).lemma_multiset_has_no_duplicates_conv();
}

proof fn lemma_successes_end(results: Seq<ResultView>, counts: Seq<i32>, limit: int)
    requires
        forall|i: int| 0 <= i < results.len() ==> (#[trigger] results[i]).success,
    ensures
        retries(results, counts, limit).len() == 0,
        completions(results, counts, limit) == results.map_values(|r: ResultView| completion_of(r)),
    decreases results.len(),
{
    if results.len() > 0 {
        let fewer = results.drop_last();
        assert forall|i: int| 0 <= i < fewer.len() implies (#[trigger] fewer[i]).success by {
            assert(results[i].success);
        }
        lemma_successes_end(fewer, counts, limit);
        assert(results[results.len() - 1].success);
    }
    assert(completions(results, counts, limit) =~= results.map_values(
        |r: ResultView| completion_of(r),
    ));
}

proof fn lemma_all_taken_all_succeed(run: Run)
    requires
        run.finished(),
        forall|k: int| 0 <= k < run.batches.len() ==> (#[trigger] run.batches[k]).taken(),
    ensures
        forall|i: int|
            0 <= i < received(run.writing).len() ==> (#[trigger] received(run.writing)[i]).success,
{
    broadcast use group_to_multiset_ensures;

    let got = received(run.writing);
    let results = run.batch_results();
    assert forall|i: int| 0 <= i < got.len() implies (#[trigger] got[i]).success by {
        let r = got[i];
        assert(got.contains(r));
        assert(got.to_multiset().count(r) > 0);
        assert(concat(results).contains(r));
        lemma_concat_contains(results, r);
        let k = choose|k: int| 0 <= k < results.len() && (#[trigger] results[k]).contains(r);
        let b = run.batches[k];
        let entries = b.entries(run.input_type);
        assert(b.taken());
        assert(b.answered_in_full(run.input_type));
        full_reply_settles_every_item(entries, b.items, b.reply, b.batch_id);
        let j = choose|j: int| 0 <= j < results[k].len() && results[k][j] == r;
        assert(results[k] == b.results(run.input_type));
        let ids = entry_ids(entries);
        assert(reported_ids(b.reply).len() == reported_ids(b.reply).to_multiset().len());
        assert(ids.len() == ids.to_multiset().len());
        assert(b.results(run.input_type)[j].success);
    }
}

/// Where the service takes every entry, every staged item ends, as one that was sent: none fails,
/// and none is tried again.
pub proof fn a_run_without_refusals_ends_every_item(run: Run)
    requires
        run.finished(),
        forall|k: int| 0 <= k < run.batches.len() ==> (#[trigger] run.batches[k]).taken(),
    ensures
        run.ended().map_values(|c: CompletionView| c.id).to_multiset() == item_keys(
            run.staged(),
        ).to_multiset(),
        forall|i: int|
            0 <= i < run.ended().len() ==> (#[trigger] run.ended()[i]).success
                && run.ended()[i].error is None,
        forall|j: int|
            0 <= j < run.written().len() ==> retries(
                #[trigger] run.written()[j],
                run.counts[j],
                run.retry_limit,
            ).len() == 0,
{
    lemma_all_taken_all_succeed(run);
    lemma_results_are_about_what_was_staged(run);
    writer_is_caught_up(run.writing);
    lemma_writes(writer_run(run.writing).1);
    let written = run.written();
    let got = received(run.writing);
    assert(concat(written) == got);
    let finish = |r: ResultView| completion_of(r);
    let id = |c: CompletionView| c.id;
    let about = |r: ResultView| r.db_id;
    let ended = Seq::new(
        written.len(),
        |j: int| completions(written[j], run.counts[j], run.retry_limit),
    );
    assert forall|j: int| 0 <= j < written.len() implies retries(
        #[trigger] written[j],
        run.counts[j],
        run.retry_limit,
    ).len() == 0 && ended[j] == written[j].map_values(finish) by {
        assert forall|i: int| 0 <= i < written[j].len() implies (
        #[trigger] written[j][i]).success by {
            lemma_concat_holds(written, j, i);
            let k = choose|k: int| 0 <= k < got.len() && got[k] == written[j][i];
            assert(got[k].success);
        }
        lemma_successes_end(written[j], run.counts[j], run.retry_limit);
    }
    assert forall|j: int| 0 <= j < written.len() implies #[trigger] ended[j]
        == written[j].map_values(finish) by {
        assert(retries(written[j], run.counts[j], run.retry_limit).len() == 0);
    }
    lemma_concat_map(written, ended, finish);
    assert(run.ended() == got.map_values(finish));
    assert forall|i: int| 0 <= i < run.ended().len() implies (#[trigger] run.ended()[i]).success
        && run.ended()[i].error is None by {
        assert(got[i].success);
    }
    assert(run.ended().map_values(id) =~= result_keys(got));
}

/// What is sent and settled does not depend on the stage size, the batch size or the number of
/// senders: two runs that stage the same items, in any order, send the same messages and settle the
/// same items.
pub proof fn sizes_do_not_matter(a: Run, b: Run)
    requires
        a.finished(),
        b.finished(),
        a.input_type == b.input_type,
        a.staged().to_multiset() == b.staged().to_multiset(),
    ensures
        a.sent().to_multiset() == b.sent().to_multiset(),
        a.settled().to_multiset() == b.settled().to_multiset(),
{
    every_item_of_a_run_is_sent_and_settled(a);
    every_item_of_a_run_is_sent_and_settled(b);
    let wanted = |i: ItemView| (i.db_id, message_body(i.input, a.input_type));
    let key = |i: ItemView| i.db_id;
    lemma_map_keeps_multiset(a.staged(), b.staged(), wanted);
    lemma_map_keeps_multiset(a.staged(), b.staged(), key);
    assert(messages_for(a.staged(), a.input_type) =~= a.staged().map_values(wanted));
    assert(messages_for(b.staged(), a.input_type) =~= b.staged().map_values(wanted));
    assert(item_keys(a.staged()) =~= a.staged().map_values(key));
    assert(item_keys(b.staged()) =~= b.staged().map_values(key));
}

/// Where the service takes every entry and no item is staged twice, every staged item ends as done
/// in the tables, and no other row changes.
pub proof fn a_run_without_refusals_leaves_every_item_done(run: Run, t: Tables, now: int)
    requires
        run.finished(),
        forall|k: int| 0 <= k < run.batches.len() ==> (#[trigger] run.batches[k]).taken(),
        item_keys(run.staged()).no_duplicates(),
        forall|i: int|
            0 <= i < run.staged().len() ==> t.items.contains_key(
                (#[trigger] run.staged()[i]).db_id,
            ),
    ensures
        ({
            let changes = run.ended().map_values(|c: CompletionView| (Change::Complete(c), now));
            let after = t.apply_all(changes)->Some_0;
            &&& t.apply_all(changes) is Some
            &&& after.jobs == t.jobs
            &&& after.retries == t.retries
            &&& after.items.dom() == t.items.dom()
            &&& forall|i: int|
                0 <= i < run.staged().len() ==> after.items[(
                #[trigger] run.staged()[i]).db_id].status == "done"@
            &&& forall|id: i64| #[trigger]
                t.items.contains_key(id) && !item_keys(run.staged()).contains(id)
                    ==> after.items[id] == t.items[id]
        }),
{
    broadcast use group_to_multiset_ensures;

    a_run_without_refusals_ends_every_item(run);
    let ended = run.ended();
    let ids = ended.map_values(|c: CompletionView| c.id);
    let keys = item_keys(run.staged());
    keys.lemma_multiset_has_no_duplicates();
    ids.lemma_multiset_has_no_duplicates_conv();
    assert forall|id: i64| ids.contains(id) <==> keys.contains(id) by {
        assert(ids.contains(id) <==> ids.to_multiset().count(id) > 0);
        assert(keys.contains(id) <==> keys.to_multiset().count(id) > 0);
    }
    assert forall|i: int| 0 <= i < ended.len() implies t.items.contains_key(
        (#[trigger] ended[i]).id,
    ) by {
        assert(ids[i] == ended[i].id);
        assert(ids.contains(ids[i]));
        let k = choose|k: int| 0 <= k < keys.len() && keys[k] == ids[i];
        assert(run.staged()[k].db_id == ids[i]);
    }
    assert forall|i: int, j: int| 0 <= i < j < ended.len() implies (#[trigger] ended[i]).id != (
    #[trigger] ended[j]).id by {
        assert(ids[i] != ids[j]);
    }
    completing_ends_every_item(t, ended, now);
    let changes = ended.map_values(|c: CompletionView| (Change::Complete(c), now));
    let after = t.apply_all(changes)->Some_0;
    assert forall|i: int| 0 <= i < run.staged().len() implies after.items[(
    #[trigger] run.staged()[i]).db_id].status == "done"@ by {
        assert(keys[i] == run.staged()[i].db_id);
        assert(keys.contains(keys[i]));
        let k = choose|k: int| 0 <= k < ids.len() && ids[k] == keys[i];
        assert(ended[k].success);
        assert(after.items[ended[k].id].status == "done"@);
    }
}

/// Whether the service took the entry of an item of a batch.
pub open spec fn entry_taken(batch: SentBatch, input_type: Seq<char>, i: int) -> bool {
    batch.reply matches SendReply::Answered { successful, .. } && exists|k: int|
        0 <= k < successful@.len() && (#[trigger] successful@[k]).id@ == batch.entries(
            input_type,
        )[i].id
}

/// Whether `error` is what the service, or the client, said of an entry that was not taken.
pub open spec fn is_error_of(
    error: Option<Seq<char>>,
    batch: SentBatch,
    input_type: Seq<char>,
    i: int,
) -> bool {
    match batch.reply {
        SendReply::Answered { failed, .. } => exists|k: int|
            0 <= k < failed@.len() && (#[trigger] failed@[k]).id@ == batch.entries(input_type)[i].id
                && error == Some(entry_error(failed@[k])),
        SendReply::Failed(e) => error == Some(failure_message(e)),
    }
}

/// Every item that ends in a run was in a batch, and ends as the service told of its entry: as one
/// that was sent exactly where the entry was taken, and else with the error of that very entry, or
/// of the request.
pub proof fn items_end_as_the_service_told(run: Run, n: int) -> (at: (int, int))
    requires
        run.finished(),
        0 <= n < run.ended().len(),
    ensures
        ({
            let c = run.ended()[n];
            let batch = run.batches[at.0];
            &&& 0 <= at.0 < run.batches.len()
            &&& 0 <= at.1 < batch.items.len()
            &&& c.id == batch.items[at.1].db_id
            &&& c.success <==> entry_taken(batch, run.input_type, at.1)
            &&& c.success ==> c.error is None
            &&& !c.success ==> is_error_of(c.error, batch, run.input_type, at.1)
        }),
{
    broadcast use group_to_multiset_ensures;

    let written = run.written();
    let got = received(run.writing);
    writer_is_caught_up(run.writing);
    lemma_writes(writer_run(run.writing).1);
    assert(concat(written) == got);
    let c = run.ended()[n];
    let ended = Seq::new(
        written.len(),
        |j: int| completions(written[j], run.counts[j], run.retry_limit),
    );
    assert(concat(ended).contains(c));
    lemma_concat_contains(ended, c);
    let j = choose|j: int| 0 <= j < ended.len() && (#[trigger] ended[j]).contains(c);
    let k = choose|k: int| 0 <= k < ended[j].len() && ended[j][k] == c;
    assert(run.counts[j].len() >= written[j].len());
    let m = every_end_is_that_of_a_result(written[j], run.counts[j], run.retry_limit, k);
    let r = written[j][m];
    lemma_concat_holds(written, j, m);
    assert(got.contains(r));
    assert(got.to_multiset().count(r) > 0);
    let results = run.batch_results();
    assert(concat(results).contains(r));
    lemma_concat_contains(results, r);
    let b = choose|b: int| 0 <= b < results.len() && (#[trigger] results[b]).contains(r);
    let batch = run.batches[b];
    assert(batch.answered_in_full(run.input_type));
    assert(results[b] == batch.results(run.input_type));
    let x = choose|x: int| 0 <= x < results[b].len() && results[b][x] == r;
    let i = each_result_tells_what_the_service_told(
        batch.entries(run.input_type),
        batch.items,
        batch.reply,
        batch.batch_id,
        x,
    );
    (b, i)
}

} // verus!
