//! Settling results: an item that failed is tried again until its retries are used up.

use vstd::prelude::*;
use vstd::seq_lib::*;
use crate::database::{
    batch_completion, output_bind, CompletionResult, CompletionView, Database, RECORD_RETRY,
    RESET_ITEM,
};
use crate::delivery::{
    entry_ids, failed_request_fails_every_item, full_reply_settles_every_item, item_keys,
    reported_ids, result_keys,
};
use crate::entry::EntryView;
use crate::json::{json_text, Json, JsonView};
use crate::multi::lemma_map_keeps_multiset;
use crate::statement::{text_or_sql_null, SqlView, Statement, StatementView};
use crate::tables::{lemma_batch_statements, lemma_storing_order, storing_order, Change};
use crate::worker::{owners_of, reply_results, ItemView, ResultView, SendReply, SendResult};

verus! {

/// The number of the retry that follows a failure, where the item was retried `count` times
/// before. There is none once the limit is reached.
pub open spec fn next_attempt(count: int, limit: int) -> Option<int> {
    if count < limit && count < i32::MAX {
        Some(count + 1)
    } else {
        None
    }
}

/// Whether it matters how often the item of a result was retried before: not where it was sent, nor
/// where retries are disabled.
pub open spec fn count_matters(r: ResultView, limit: int) -> bool {
    !r.success && limit > 0
}

/// Tells whether to ask how often the item of a result was retried before.
pub fn needs_count(r: &SendResult, retry_limit: u32) -> (b: bool)
    ensures
        b == count_matters(r@, retry_limit as int),
{
    !r.success && retry_limit > 0
}

/// A retry that is due.
#[derive(Debug)]
pub struct Retry {
    pub item_id: i64,
    pub attempt_number: i32,
    pub error: Option<String>,
    /// What the service said of the failure.
    pub response: Option<Json>,
    /// The batch that the item failed in.
    pub batch_id: String,
}

/// What a [`Retry`] stands for.
pub struct RetryView {
    pub item_id: i64,
    pub attempt_number: int,
    pub error: Option<Seq<char>>,
    pub response: Option<JsonView>,
    pub batch_id: Seq<char>,
}

impl View for Retry {
    type V = RetryView;

    open spec fn view(&self) -> RetryView {
        RetryView {
            item_id: self.item_id,
            attempt_number: self.attempt_number as int,
            error: self.error.deep_view(),
            response: self.response.deep_view(),
            batch_id: self.batch_id@,
        }
    }
}

impl DeepView for Retry {
    type V = RetryView;

    open spec fn deep_view(&self) -> RetryView {
        self@
    }
}

/// How an item ended that is not tried again. An item that was sent has no error.
pub open spec fn completion_of(r: ResultView) -> CompletionView {
    CompletionView {
        id: r.db_id,
        output: r.output,
        error: if r.success {
            None
        } else {
            r.error
        },
        success: r.success,
    }
}

/// The retry that follows a result.
pub open spec fn retry_of(r: ResultView, count: int, limit: int) -> Option<RetryView> {
    if r.success {
        None
    } else {
        match next_attempt(count, limit) {
            Some(attempt_number) => Some(
                RetryView {
                    item_id: r.db_id,
                    attempt_number,
                    error: r.error,
                    response: r.output,
                    batch_id: r.batch_id,
                },
            ),
            None => None,
        }
    }
}

/// The results that end their items, in order.
pub open spec fn completions(
    results: Seq<ResultView>,
    counts: Seq<i32>,
    limit: int,
) -> Seq<CompletionView>
    decreases results.len(),
{
    if results.len() == 0 {
        Seq::empty()
    } else {
        let n = results.len() - 1;
        let before = completions(results.drop_last(), counts, limit);
        match retry_of(results[n], counts[n] as int, limit) {
            Some(_) => before,
            None => before.push(completion_of(results[n])),
        }
    }
}

/// The retries that are due, in order.
pub open spec fn retries(results: Seq<ResultView>, counts: Seq<i32>, limit: int) -> Seq<RetryView>
    decreases results.len(),
{
    if results.len() == 0 {
        Seq::empty()
    } else {
        let n = results.len() - 1;
        let before = retries(results.drop_last(), counts, limit);
        match retry_of(results[n], counts[n] as int, limit) {
            Some(retry) => before.push(retry),
            None => before,
        }
    }
}

/// What to store for a batch of results.
#[derive(Debug)]
pub struct Settlement {
    pub completions: Vec<CompletionResult>,
    pub retries: Vec<Retry>,
}

/// Settles a batch of results. `counts` says how often each item was retried before.
pub fn settle(results: Vec<SendResult>, counts: &Vec<i32>, retry_limit: u32) -> (r: Settlement)
    requires
        counts@.len() == results@.len(),
    ensures
        r.completions.deep_view() == completions(
            results.deep_view(),
            counts@,
            retry_limit as int,
        ),
        r.retries.deep_view() == retries(results.deep_view(), counts@, retry_limit as int),
        r.completions@.len() + r.retries@.len() == results@.len(),
{
    let ghost views = results.deep_view();
    let ghost limit = retry_limit as int;
    let mut ended: Vec<CompletionResult> = Vec::new();
    let mut again: Vec<Retry> = Vec::new();
    assert(ended.deep_view() =~= completions(views.take(0), counts@, limit));
    assert(again.deep_view() =~= retries(views.take(0), counts@, limit));
    let total: usize = counts.len();
    let mut i: usize = 0;
    for result in it: results
        invariant
            i == it.index(),
            total == results@.len(),
            it.seq() == results@,
            views == results.deep_view(),
            limit == retry_limit,
            counts@.len() == results@.len(),
            ended.deep_view() == completions(views.take(i as int), counts@, limit),
            again.deep_view() == retries(views.take(i as int), counts@, limit),
            ended@.len() + again@.len() == i,
    {
        let ghost ended_before = ended.deep_view();
        let ghost again_before = again.deep_view();
        let ghost at = i as int;
        proof {
            assert(views.take(at + 1).drop_last() =~= views.take(at));
            assert(views.take(at + 1)[at] == result@);
        }
        let count: i32 = counts[i];
        if !result.success && (count as i64) < retry_limit as i64 && count < i32::MAX {
            again.push(
                Retry {
                    item_id: result.db_id,
                    attempt_number: count + 1,
                    error: result.error,
                    response: result.output,
                    batch_id: result.batch_id,
                },
            );
            assert(again.deep_view() =~= again_before.push(
                retry_of(views[at], counts@[at] as int, limit)->Some_0,
            ));
        } else {
            let error = if result.success {
                None
            } else {
                result.error
            };
            ended.push(
                CompletionResult {
                    id: result.db_id,
                    output: result.output,
                    error,
                    success: result.success,
                },
            );
            assert(ended.deep_view() =~= ended_before.push(completion_of(views[at])));
        }
        i += 1;
    }
    assert(views.take(views.len() as int) =~= views);
    Settlement { completions: ended, retries: again }
}

/// The statements that record a retry and put its item back to pending.
pub open spec fn retry_statements(r: RetryView) -> Seq<StatementView> {
    seq![
        StatementView {
            sql: RECORD_RETRY@,
            binds: seq![
                SqlView::Int(r.item_id),
                SqlView::Int(r.attempt_number as i64),
                text_or_sql_null(r.error),
                output_bind(r.response),
                SqlView::Text(r.batch_id),
                SqlView::Null,
            ],
        },
        StatementView { sql: RESET_ITEM@, binds: seq![SqlView::Int(r.item_id)] },
    ]
}

/// The statements of several retries, in order.
pub open spec fn all_retry_statements(rs: Seq<RetryView>) -> Seq<StatementView>
    decreases rs.len(),
{
    if rs.len() == 0 {
        Seq::empty()
    } else {
        all_retry_statements(rs.drop_last()) + retry_statements(rs.last())
    }
}

/// What a retry changes: it is recorded, and its item is put back to pending.
pub open spec fn retry_changes(r: RetryView) -> Seq<Change> {
    seq![
        Change::RecordRetry {
            item_id: r.item_id,
            attempt_number: r.attempt_number as i32,
            error: r.error,
            sqs_response: r.response,
            batch_id: Some(r.batch_id),
            input_snapshot: None,
        },
        Change::ResetItem { item_id: r.item_id },
    ]
}

/// What several retries change, in order.
pub open spec fn all_retry_changes(rs: Seq<RetryView>) -> Seq<Change>
    decreases rs.len(),
{
    if rs.len() == 0 {
        Seq::empty()
    } else {
        all_retry_changes(rs.drop_last()) + retry_changes(rs.last())
    }
}

/// What a settlement changes, in order: first the items that end, then those that are tried again.
pub open spec fn settling_changes(
    ended: Seq<CompletionView>,
    again: Seq<RetryView>,
) -> Seq<Change> {
    storing_order(ended).map_values(|c: CompletionView| Change::Complete(c)) + all_retry_changes(
        again,
    )
}

/// The key of the item that a change settles: that it ends, or puts back to pending.
pub open spec fn settles(change: Change) -> Option<i64> {
    match change {
        Change::Complete(c) => Some(c.id),
        Change::ResetItem { item_id } => Some(item_id),
        _ => None,
    }
}

/// The keys of the items that changes settle, in order.
pub open spec fn keys_settled(changes: Seq<Change>) -> Seq<i64>
    decreases changes.len(),
{
    if changes.len() == 0 {
        Seq::empty()
    } else {
        let before = keys_settled(changes.drop_last());
        match settles(changes.last()) {
            Some(key) => before.push(key),
            None => before,
        }
    }
}

/// Changes, put together, settle what they settle one after the other.
pub proof fn lemma_keys_settled_add(a: Seq<Change>, b: Seq<Change>)
    ensures
        keys_settled(a + b) == keys_settled(a) + keys_settled(b),
    decreases b.len(),
{
    if b.len() == 0 {
        assert(a + b =~= a);
        assert(keys_settled(a) + keys_settled(b) =~= keys_settled(a));
    } else {
        lemma_keys_settled_add(a, b.drop_last());
        assert((a + b).drop_last() =~= a + b.drop_last());
        assert(keys_settled(a + b) =~= keys_settled(a) + keys_settled(b));
    }
}

proof fn lemma_completions_settle(ended: Seq<CompletionView>)
    ensures
        keys_settled(ended.map_values(|c: CompletionView| Change::Complete(c)))
            == ended.map_values(|c: CompletionView| c.id),
    decreases ended.len(),
{
    let changes = ended.map_values(|c: CompletionView| Change::Complete(c));
    if ended.len() > 0 {
        let fewer = ended.drop_last();
        lemma_completions_settle(fewer);
        assert(changes.drop_last() =~= fewer.map_values(|c: CompletionView| Change::Complete(c)));
    }
    assert(keys_settled(changes) =~= ended.map_values(|c: CompletionView| c.id));
}

proof fn lemma_retries_settle(again: Seq<RetryView>)
    ensures
        keys_settled(all_retry_changes(again)) == again.map_values(|r: RetryView| r.item_id),
    decreases again.len(),
{
    if again.len() > 0 {
        let fewer = again.drop_last();
        lemma_retries_settle(fewer);
        let pair = retry_changes(again.last());
        lemma_keys_settled_add(all_retry_changes(fewer), pair);
        let first = pair.drop_last();
        assert(keys_settled(first.drop_last()) =~= Seq::empty());
        assert(first.last() == pair[0]);
        assert(keys_settled(first) =~= Seq::empty());
        assert(keys_settled(pair) =~= seq![again.last().item_id]);
    }
    assert(keys_settled(all_retry_changes(again)) =~= again.map_values(
        |r: RetryView| r.item_id,
    ));
}

/// A settlement settles each of its items once.
pub proof fn settling_settles_every_item(ended: Seq<CompletionView>, again: Seq<RetryView>)
    ensures
        keys_settled(settling_changes(ended, again)).to_multiset() == (ended.map_values(
            |c: CompletionView| c.id,
        ) + again.map_values(|r: RetryView| r.item_id)).to_multiset(),
{
    let order = storing_order(ended);
    let id = |c: CompletionView| c.id;
    let retried = again.map_values(|r: RetryView| r.item_id);
    lemma_completions_settle(order);
    lemma_retries_settle(again);
    lemma_keys_settled_add(
        order.map_values(|c: CompletionView| Change::Complete(c)),
        all_retry_changes(again),
    );
    lemma_storing_order(ended);
    lemma_map_keeps_multiset(order, ended, id);
    lemma_multiset_commutative(order.map_values(id), retried);
    lemma_multiset_commutative(ended.map_values(id), retried);
}

/// Each change of retries is one of the two of a retry, and where it records the retry, the item is
/// put back too.
pub proof fn lemma_retry_changes(rs: Seq<RetryView>, i: int)
    requires
        0 <= i < all_retry_changes(rs).len(),
    ensures
        match all_retry_changes(rs)[i] {
            Change::RecordRetry { item_id, .. } => all_retry_changes(rs).contains(
                (Change::ResetItem { item_id }),
            ),
            Change::ResetItem { .. } => true,
            _ => false,
        },
    decreases rs.len(),
{
    if rs.len() > 0 {
        let before = all_retry_changes(rs.drop_last());
        let all = all_retry_changes(rs);
        if i < before.len() {
            lemma_retry_changes(rs.drop_last(), i);
            assert(all[i] == before[i]);
            if let Change::RecordRetry { item_id, .. } = before[i] {
                let reset = Change::ResetItem { item_id };
                let k = choose|k: int| 0 <= k < before.len() && before[k] == reset;
                assert(all[k] == reset);
            }
        } else {
            assert(all[all.len() - 1] == (Change::ResetItem { item_id: rs.last().item_id }));
        }
    }
}

proof fn lemma_retry_statements(rs: Seq<RetryView>)
    requires
        forall|i: int|
            0 <= i < rs.len() ==> i32::MIN <= (#[trigger] rs[i]).attempt_number <= i32::MAX,
    ensures
        all_retry_statements(rs) == all_retry_changes(rs).map_values(|c: Change| c.statement()),
    decreases rs.len(),
{
    if rs.len() > 0 {
        let fewer = rs.drop_last();
        assert forall|i: int| 0 <= i < fewer.len() implies i32::MIN <= (
        #[trigger] fewer[i]).attempt_number <= i32::MAX by {
            assert(fewer[i] == rs[i]);
        }
        lemma_retry_statements(fewer);
        let last = rs[rs.len() - 1];
        let changes = retry_changes(last);
        assert(changes[0].statement().binds =~= retry_statements(last)[0].binds);
        assert(changes[1].statement().binds =~= retry_statements(last)[1].binds);
        assert(retry_statements(last) =~= changes.map_values(|c: Change| c.statement()));
    }
    assert(all_retry_statements(rs) =~= all_retry_changes(rs).map_values(
        |c: Change| c.statement(),
    ));
}

impl Settlement {
    /// The statements that store the settlement, to be run in one transaction.
    pub fn statements(self) -> (r: Vec<Statement>)
        ensures
            r.deep_view() == batch_completion(self.completions.deep_view()) + all_retry_statements(
                self.retries.deep_view(),
            ),
            r.deep_view() == settling_changes(
                self.completions.deep_view(),
                self.retries.deep_view(),
            ).map_values(|c: Change| c.statement()),
    {
        let ghost ended = self.completions.deep_view();
        let mut r = Database::complete_items_batch(&self.completions);
        let ghost stored = r.deep_view();
        let ghost views = self.retries.deep_view();
        assert(r.deep_view() =~= stored + all_retry_statements(views.take(0)));
        let ghost all = self.retries@;
        for retry in it: self.retries
            invariant
                it.seq() == all,
                views.len() == all.len(),
                forall|k: int| 0 <= k < all.len() ==> views[k] == #[trigger] all[k]@,
                r.deep_view() == stored + all_retry_statements(views.take(it.index())),
        {
            let ghost before = r.deep_view();
            let ghost at = it.index();
            let ghost view = retry@;
            let batch_id = Some(retry.batch_id);
            r.push(
                Database::record_retry(
                    retry.item_id,
                    retry.attempt_number,
                    &retry.error,
                    &retry.response,
                    &batch_id,
                    &None,
                ),
            );
            r.push(Database::reset_item_for_retry(retry.item_id));
            proof {
                assert(views.take(at + 1).drop_last() =~= views.take(at));
                assert(views.take(at + 1).last() == view);
                assert(r.deep_view()[before.len() as int].binds =~= retry_statements(view)[0].binds);
                assert(r.deep_view() =~= before + retry_statements(view));
            }
        }
        assert(views.take(views.len() as int) =~= views);
        proof {
            lemma_batch_statements(ended);
            lemma_retry_statements(views);
            assert(r.deep_view() =~= settling_changes(ended, views).map_values(
                |c: Change| c.statement(),
            ));
        }
        r
    }
}

/// Every result is settled exactly once: what ends an item and what is tried again together are as
/// many as the results.
pub proof fn every_result_is_settled(results: Seq<ResultView>, counts: Seq<i32>, limit: int)
    requires
        counts.len() >= results.len(),
    ensures
        completions(results, counts, limit).len() + retries(results, counts, limit).len()
            == results.len(),
        forall|i: int|
            0 <= i < results.len() ==> match retry_of(#[trigger] results[i], counts[i] as int, limit) {
                Some(retry) => retries(results, counts, limit).contains(retry),
                None => completions(results, counts, limit).contains(completion_of(results[i])),
            },
    decreases results.len(),
{
    if results.len() > 0 {
        let fewer = results.drop_last();
        let n = results.len() - 1;
        every_result_is_settled(fewer, counts, limit);
        let c = completions(results, counts, limit);
        let c0 = completions(fewer, counts, limit);
        let t = retries(results, counts, limit);
        let t0 = retries(fewer, counts, limit);
        assert forall|i: int| 0 <= i < results.len() implies match retry_of(
            #[trigger] results[i],
            counts[i] as int,
            limit,
        ) {
            Some(retry) => t.contains(retry),
            None => c.contains(completion_of(results[i])),
        } by {
            if i == n {
                match retry_of(results[n], counts[n] as int, limit) {
                    Some(retry) => {
                        assert(t[t.len() - 1] == retry);
                    },
                    None => {
                        assert(c[c.len() - 1] == completion_of(results[n]));
                    },
                }
            } else {
                assert(fewer[i] == results[i]);
                match retry_of(results[i], counts[i] as int, limit) {
                    Some(retry) => {
                        let k = choose|k: int| 0 <= k < t0.len() && t0[k] == retry;
                        assert(t[k] == retry);
                    },
                    None => {
                        let done = completion_of(results[i]);
                        let k = choose|k: int| 0 <= k < c0.len() && c0[k] == done;
                        assert(c[k] == done);
                    },
                }
            }
        }
    }
}

/// The keys of the items that a settlement is about: those that end, then those that are tried
/// again.
pub open spec fn settled_keys(results: Seq<ResultView>, counts: Seq<i32>, limit: int) -> Seq<i64> {
    completions(results, counts, limit).map_values(|c: CompletionView| c.id) + retries(
        results,
        counts,
        limit,
    ).map_values(|r: RetryView| r.item_id)
}

/// A settlement is about the items that the results are about, each as often as they are.
pub proof fn settling_keeps_every_item(results: Seq<ResultView>, counts: Seq<i32>, limit: int)
    requires
        counts.len() >= results.len(),
    ensures
        settled_keys(results, counts, limit).to_multiset() == result_keys(results).to_multiset(),
    decreases results.len(),
{
    broadcast use group_to_multiset_ensures;

    let keys = result_keys(results);
    let settled = settled_keys(results, counts, limit);
    if results.len() == 0 {
        assert(settled =~= keys);
    } else {
        let fewer = results.drop_last();
        let last = results.last();
        settling_keeps_every_item(fewer, counts, limit);
        assert(keys =~= result_keys(fewer).push(last.db_id));
        let done = completions(fewer, counts, limit).map_values(|c: CompletionView| c.id);
        let again = retries(fewer, counts, limit).map_values(|r: RetryView| r.item_id);
        lemma_multiset_commutative(done, again);
        match retry_of(last, counts[results.len() - 1] as int, limit) {
            Some(_) => {
                assert(settled =~= (done + again).push(last.db_id));
            },
            None => {
                assert(settled =~= done.push(last.db_id) + again);
                lemma_multiset_commutative(done.push(last.db_id), again);
                assert(done.push(last.db_id).to_multiset().add(again.to_multiset())
                    =~= done.to_multiset().add(again.to_multiset()).insert(last.db_id));
            },
        }
    }
}

/// From the items of a batch to the database: where no two entries share an identifier, and the
/// request failed as a whole or the reply reports on every entry once, every item of the batch is
/// settled exactly once.
pub proof fn every_item_of_a_batch_is_settled(
    entries: Seq<EntryView>,
    items: Seq<ItemView>,
    reply: SendReply,
    batch_id: Seq<char>,
    counts: Seq<i32>,
    limit: int,
)
    requires
        entries.len() == items.len(),
        entry_ids(entries).no_duplicates(),
        reply is Answered ==> reported_ids(reply).to_multiset() == entry_ids(
            entries,
        ).to_multiset(),
        counts.len() >= items.len(),
    ensures
        ({
            let results = reply_results(entries, owners_of(entries, items), reply, batch_id);
            &&& results.len() == items.len()
            &&& settled_keys(results, counts, limit).to_multiset() == item_keys(
                items,
            ).to_multiset()
        }),
{
    let results = reply_results(entries, owners_of(entries, items), reply, batch_id);
    match reply {
        SendReply::Answered { .. } => {
            full_reply_settles_every_item(entries, items, reply, batch_id);
        },
        SendReply::Failed(e) => {
            failed_request_fails_every_item(entries, items, e, batch_id);
            assert(result_keys(results).len() == item_keys(items).len());
        },
    }
    settling_keeps_every_item(results, counts, limit);
}

/// Where retries are disabled, every result ends its item.
pub proof fn no_retry_without_a_limit(results: Seq<ResultView>, counts: Seq<i32>)
    requires
        counts.len() >= results.len(),
        forall|i: int| 0 <= i < counts.len() ==> #[trigger] counts[i] >= 0,
    ensures
        retries(results, counts, 0).len() == 0,
        completions(results, counts, 0) == results.map_values(|r: ResultView| completion_of(r)),
    decreases results.len(),
{
    if results.len() > 0 {
        let fewer = results.drop_last();
        no_retry_without_a_limit(fewer, counts);
        assert(counts[results.len() - 1] >= 0);
    }
    assert(completions(results, counts, 0) =~= results.map_values(
        |r: ResultView| completion_of(r),
    ));
}

/// A settlement depends on no count but those that matter.
pub proof fn other_counts_do_not_matter(
    results: Seq<ResultView>,
    counts: Seq<i32>,
    others: Seq<i32>,
    limit: int,
)
    requires
        counts.len() >= results.len(),
        others.len() >= results.len(),
        forall|i: int| 0 <= i < results.len() ==> #[trigger] counts[i] >= 0,
        forall|i: int| 0 <= i < results.len() ==> #[trigger] others[i] >= 0,
        forall|i: int|
            0 <= i < results.len() && count_matters(#[trigger] results[i], limit) ==> counts[i]
                == others[i],
    ensures
        completions(results, counts, limit) == completions(results, others, limit),
        retries(results, counts, limit) == retries(results, others, limit),
    decreases results.len(),
{
    if results.len() > 0 {
        let n = results.len() - 1;
        let fewer = results.drop_last();
        assert forall|i: int|
            0 <= i < fewer.len() && count_matters(#[trigger] fewer[i], limit) implies counts[i]
            == others[i] by {
            assert(fewer[i] == results[i]);
        }
        other_counts_do_not_matter(fewer, counts, others, limit);
        assert(counts[n] >= 0 && others[n] >= 0);
        assert(count_matters(results[n], limit) ==> counts[n] == others[n]);
    }
}

/// How often an item has been retried after `failures` failures in a row.
pub open spec fn retries_after(failures: nat, limit: int) -> int
    decreases failures,
{
    if failures == 0 {
        0
    } else {
        let count = retries_after((failures - 1) as nat, limit);
        match next_attempt(count, limit) {
            Some(attempt) => attempt,
            None => count,
        }
    }
}

/// An item that keeps failing is retried exactly as often as the limit says, and then no more.
pub proof fn retries_stop_at_the_limit(failures: nat, limit: int)
    requires
        0 <= limit <= i32::MAX,
    ensures
        retries_after(failures, limit) == if failures <= limit {
            failures as int
        } else {
            limit
        },
        next_attempt(retries_after(failures, limit), limit) is Some <==> failures < limit,
    decreases failures,
{
    if failures > 0 {
        retries_stop_at_the_limit((failures - 1) as nat, limit);
    }
}

/// How one result is settled. An item that failed is tried again where it was retried fewer times
/// than the limit says: the next number is one more, and what went wrong is kept. Any other ends,
/// with the success, the output and the error of its own result.
pub proof fn one_result_is_settled_as_it_is(r: ResultView, count: i32, limit: int)
    ensures
        ({
            let ended = completions(seq![r], seq![count], limit);
            let again = retries(seq![r], seq![count], limit);
            if !r.success && count < limit && count < i32::MAX {
                &&& ended.len() == 0
                &&& again.len() == 1
                &&& again[0].item_id == r.db_id
                &&& again[0].attempt_number == count + 1
                &&& again[0].error == r.error
                &&& again[0].response == r.output
                &&& again[0].batch_id == r.batch_id
            } else {
                &&& again.len() == 0
                &&& ended.len() == 1
                &&& ended[0].id == r.db_id
                &&& ended[0].success == r.success
                &&& ended[0].output == r.output
                &&& r.success ==> ended[0].error is None
                &&& !r.success ==> ended[0].error == r.error
            }
        }),
{
    let rest = seq![r].drop_last();
    assert(rest =~= Seq::empty());
    assert(completions(rest, seq![count], limit) =~= Seq::empty());
    assert(retries(rest, seq![count], limit) =~= Seq::empty());
}

/// Settling results together is settling them one part after the other.
pub proof fn settling_together_is_settling_in_parts(
    a: Seq<ResultView>,
    b: Seq<ResultView>,
    counts: Seq<i32>,
    more: Seq<i32>,
    limit: int,
)
    requires
        counts.len() == a.len(),
        more.len() == b.len(),
    ensures
        completions(a + b, counts + more, limit) == completions(a, counts, limit) + completions(
            b,
            more,
            limit,
        ),
        retries(a + b, counts + more, limit) == retries(a, counts, limit) + retries(b, more, limit),
    decreases b.len(),
{
    let all = counts + more;
    if b.len() == 0 {
        assert(a + b =~= a);
        assert(all =~= counts);
    } else {
        let fewer = b.drop_last();
        let n = b.len() - 1;
        settling_together_is_settling_in_parts(a, fewer, counts, more.drop_last(), limit);
        assert((a + b).drop_last() =~= a + fewer);
        lemma_later_counts_do_not_matter(a + fewer, counts + more.drop_last(), all, limit);
        lemma_later_counts_do_not_matter(fewer, more.drop_last(), more, limit);
        assert(all[a.len() + n] == more[n]);
        assert((a + b)[a.len() + n] == b[n]);
    }
    assert(completions(a + b, all, limit) =~= completions(a, counts, limit) + completions(
        b,
        more,
        limit,
    ));
    assert(retries(a + b, all, limit) =~= retries(a, counts, limit) + retries(b, more, limit));
}

proof fn lemma_later_counts_do_not_matter(
    results: Seq<ResultView>,
    counts: Seq<i32>,
    others: Seq<i32>,
    limit: int,
)
    requires
        counts.len() >= results.len(),
        others.len() >= results.len(),
        forall|i: int| 0 <= i < results.len() ==> #[trigger] counts[i] == others[i],
    ensures
        completions(results, counts, limit) == completions(results, others, limit),
        retries(results, counts, limit) == retries(results, others, limit),
    decreases results.len(),
{
    if results.len() > 0 {
        lemma_later_counts_do_not_matter(results.drop_last(), counts, others, limit);
        assert(counts[results.len() - 1] == others[results.len() - 1]);
    }
}

/// Every item that ends does so by a result of its own, and with the success, the output and the
/// error of that result: none that failed ends as one that was sent.
pub proof fn every_end_is_that_of_a_result(
    results: Seq<ResultView>,
    counts: Seq<i32>,
    limit: int,
    k: int,
) -> (i: int)
    requires
        counts.len() >= results.len(),
        0 <= k < completions(results, counts, limit).len(),
    ensures
        ({
            let c = completions(results, counts, limit)[k];
            &&& 0 <= i < results.len()
            &&& c.id == results[i].db_id
            &&& c.success == results[i].success
            &&& c.output == results[i].output
            &&& c.success ==> c.error is None
            &&& !c.success ==> c.error == results[i].error
            &&& results[i].success || counts[i] >= limit || counts[i] == i32::MAX
        }),
    decreases results.len(),
{
    let n = results.len() - 1;
    let before = completions(results.drop_last(), counts, limit);
    if k < before.len() {
        let i = every_end_is_that_of_a_result(results.drop_last(), counts, limit, k);
        assert(completions(results, counts, limit)[k] == before[k]);
        i
    } else {
        n
    }
}

/// Every item that is tried again failed, and had been retried fewer times than the limit says.
pub proof fn every_retry_follows_a_failure(
    results: Seq<ResultView>,
    counts: Seq<i32>,
    limit: int,
    k: int,
) -> (i: int)
    requires
        counts.len() >= results.len(),
        0 <= k < retries(results, counts, limit).len(),
    ensures
        ({
            let retry = retries(results, counts, limit)[k];
            &&& 0 <= i < results.len()
            &&& !results[i].success
            &&& counts[i] < limit
            &&& retry.item_id == results[i].db_id
            &&& retry.attempt_number == counts[i] + 1
            &&& retry.error == results[i].error
            &&& retry.response == results[i].output
            &&& retry.batch_id == results[i].batch_id
        }),
    decreases results.len(),
{
    let n = results.len() - 1;
    let before = retries(results.drop_last(), counts, limit);
    if k < before.len() {
        let i = every_retry_follows_a_failure(results.drop_last(), counts, limit, k);
        assert(retries(results, counts, limit)[k] == before[k]);
        i
    } else {
        n
    }
}

/// How often an item was retried is asked for where it makes a difference, and nowhere else.
pub proof fn a_count_is_asked_for_where_it_matters(r: ResultView, limit: int)
    ensures
        count_matters(r, limit) <==> retries(seq![r], seq![0i32], limit).len() != retries(
            seq![r],
            seq![i32::MAX],
            limit,
        ).len(),
{
    one_result_is_settled_as_it_is(r, 0, limit);
    one_result_is_settled_as_it_is(r, i32::MAX, limit);
}

/// A retry is recorded with its item, its number, what went wrong and in which batch; then its item
/// is put back. Retries follow one by one.
pub proof fn a_retry_is_recorded_as_it_was(
    front: Seq<RetryView>,
    r: RetryView,
    back: Seq<RetryView>,
)
    ensures
        ({
            let statements = all_retry_statements(seq![r]);
            &&& statements.len() == 2
            &&& statements[0].sql == RECORD_RETRY@
            &&& statements[0].binds.len() == 6
            &&& statements[0].binds[0] == SqlView::Int(r.item_id)
            &&& statements[0].binds[1] == SqlView::Int(r.attempt_number as i64)
            &&& statements[0].binds[2] == match r.error {
                Some(e) => SqlView::Text(e),
                None => SqlView::Null,
            }
            &&& statements[0].binds[3] == match r.response {
                Some(v) => SqlView::Text(json_text(v)),
                None => SqlView::Null,
            }
            &&& statements[0].binds[4] == SqlView::Text(r.batch_id)
            &&& statements[0].binds[5] == SqlView::Null
            &&& statements[1].sql == RESET_ITEM@
            &&& statements[1].binds.len() == 1
            &&& statements[1].binds[0] == SqlView::Int(r.item_id)
        }),
        all_retry_statements(front.push(r) + back) == all_retry_statements(front)
            + all_retry_statements(seq![r]) + all_retry_statements(back),
    decreases back.len(),
{
    assert(seq![r].drop_last() =~= Seq::empty());
    assert(all_retry_statements(seq![r].drop_last()) =~= Seq::empty());
    assert(all_retry_statements(seq![r]) =~= retry_statements(r));
    let all = front.push(r) + back;
    if back.len() == 0 {
        assert(all.drop_last() =~= front);
        assert(all.last() == r);
        assert(all_retry_statements(all) =~= all_retry_statements(front) + all_retry_statements(
            seq![r],
        ) + all_retry_statements(back));
    } else {
        a_retry_is_recorded_as_it_was(front, r, back.drop_last());
        assert(all.drop_last() =~= front.push(r) + back.drop_last());
        assert(all.last() == back.last());
        assert(all_retry_statements(all) =~= all_retry_statements(front) + all_retry_statements(
            seq![r],
        ) + all_retry_statements(back));
    }
}

/// A retry stands for all that it holds.
pub proof fn a_retry_stands_for_all_it_holds(retry: Retry)
    ensures
        retry@.item_id == retry.item_id,
        retry@.attempt_number == retry.attempt_number,
        retry.error matches Some(error) ==> retry@.error == Some(error@),
        retry.error is None ==> retry@.error is None,
        retry.response matches Some(response) ==> retry@.response == Some(response@),
        retry.response is None ==> retry@.response is None,
        retry@.batch_id == retry.batch_id@,
        retry.deep_view() == retry@,
{
}

} // verus!
