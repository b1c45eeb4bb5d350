//! What holds of a job as a whole: from the items that are pending at first to the rows at the end.
//!
//! The loader stages in rounds. Each round takes what the database finds when it is asked, and what
//! happens between two rounds touches no pending item.

use vstd::prelude::*;
use vstd::seq_lib::*;
use crate::chunks::concat;
use crate::database::CompletionView;
use crate::delivery::item_keys;
use crate::loader::{
    loader_accepts, loader_keeps_to_the_limit, loader_run, round_size, rounds_in_bounds, staged,
    LoadActionView, LoadEventView,
};
use crate::multi::{
    lemma_concat_contains, lemma_concat_holds, lemma_concat_map, lemma_concat_pointwise,
    lemma_map_keeps_multiset,
};
use crate::plan::items_to_send;
use crate::run::{
    a_run_without_refusals_ends_every_item, entry_taken, every_item_of_a_run_is_sent_and_settled,
    is_error_of, items_end_as_the_service_told, items_end_where_no_retry_is_due, messages_for, no_item_is_sent_or_settled_twice,
    settling_settles_what_was_staged, Run,
};
use crate::settle::{
    all_retry_changes, completions, keys_settled, lemma_retry_changes, retries, settles,
    settling_changes,
};
use crate::tables::{
    changes_keep_the_tables_sound, completed, lemma_statuses_differ, lemma_storing_order,
    staging_takes_what_was_found, storing_order, Change, ItemRow, Tables,
};
use crate::worker::ItemView;

verus! {

/// A round of staging: how many items were asked for, which ones were found, when they were marked,
/// and what was changed between this round and the next.
pub struct Round {
    pub limit: int,
    pub items: Seq<ItemView>,
    pub now: int,
    pub changes: Seq<(Change, int)>,
}

impl Round {
    /// The keys of the items.
    pub open spec fn keys(self) -> Seq<i64> {
        item_keys(self.items)
    }

    /// The tables once the items are marked.
    pub open spec fn marked(self, t: Tables) -> Tables {
        t.apply(Change::MarkProcessing { ids: self.keys() }, self.now)->Some_0
    }

    /// The tables when the next round begins.
    pub open spec fn after(self, t: Tables) -> Option<Tables> {
        self.marked(t).apply_all(self.changes)
    }
}

/// The tables after several rounds.
pub open spec fn after_rounds(t: Tables, rounds: Seq<Round>) -> Option<Tables>
    decreases rounds.len(),
{
    if rounds.len() == 0 {
        Some(t)
    } else {
        match after_rounds(t, rounds.drop_last()) {
            Some(before) => rounds.last().after(before),
            None => None,
        }
    }
}

/// The keys of the items that several rounds took, in order.
pub open spec fn staged_in(rounds: Seq<Round>) -> Seq<i64>
    decreases rounds.len(),
{
    if rounds.len() == 0 {
        Seq::empty()
    } else {
        staged_in(rounds.drop_last()) + rounds.last().keys()
    }
}

/// The pending items of a job.
pub open spec fn pending(t: Tables, job_id: i64) -> Set<i64> {
    t.items_with(Some(job_id), "pending"@)
}

/// Whether `rounds` stage items of a job: each takes what is found in the tables that the rounds
/// before it left, and the changes after it touch no pending item of the job and make none.
pub open spec fn is_staging(t: Tables, job_id: i64, rounds: Seq<Round>) -> bool
    decreases rounds.len(),
{
    if rounds.len() == 0 {
        true
    } else {
        let round = rounds.last();
        let before = after_rounds(t, rounds.drop_last())->Some_0;
        &&& is_staging(t, job_id, rounds.drop_last())
        &&& before.finds(Some(job_id), round.limit, round.keys())
        &&& round.after(before) is Some
        &&& pending(round.after(before)->Some_0, job_id) == pending(round.marked(before), job_id)
    }
}

proof fn lemma_apply_all_sound(t: Tables, changes: Seq<(Change, int)>)
    requires
        t.sound(),
        t.apply_all(changes) is Some,
    ensures
        t.apply_all(changes)->Some_0.sound(),
    decreases changes.len(),
{
    if changes.len() > 0 {
        lemma_apply_all_sound(t, changes.drop_last());
        changes_keep_the_tables_sound(
            t.apply_all(changes.drop_last())->Some_0,
            changes.last().0,
            changes.last().1,
        );
    }
}

proof fn lemma_rounds(t: Tables, job_id: i64, rounds: Seq<Round>)
    requires
        t.sound(),
        is_staging(t, job_id, rounds),
    ensures
        after_rounds(t, rounds) is Some,
        after_rounds(t, rounds)->Some_0.sound(),
        forall|i: int, j: int|
            0 <= i < j < staged_in(rounds).len() ==> #[trigger] staged_in(rounds)[i]
                < #[trigger] staged_in(rounds)[j],
        forall|i: int|
            0 <= i < staged_in(rounds).len() ==> pending(t, job_id).contains(
                #[trigger] staged_in(rounds)[i],
            ),
        forall|id: i64| #[trigger]
            pending(after_rounds(t, rounds)->Some_0, job_id).contains(id) <==> pending(
                t,
                job_id,
            ).contains(id) && !staged_in(rounds).contains(id),
        forall|id: i64, i: int|
            #![trigger pending(after_rounds(t, rounds)->Some_0, job_id).contains(id), staged_in(
                rounds,
            )[i]]
            pending(after_rounds(t, rounds)->Some_0, job_id).contains(id) && 0 <= i < staged_in(
                rounds,
            ).len() ==> staged_in(rounds)[i] < id,
    decreases rounds.len(),
{
    if rounds.len() > 0 {
        let fewer = rounds.drop_last();
        let round = rounds.last();
        lemma_rounds(t, job_id, fewer);
        let before = after_rounds(t, fewer)->Some_0;
        let keys = round.keys();
        staging_takes_what_was_found(before, Some(job_id), round.limit, keys, round.now);
        changes_keep_the_tables_sound(before, Change::MarkProcessing { ids: keys }, round.now);
        let marked = round.marked(before);
        lemma_apply_all_sound(marked, round.changes);
        let after = after_rounds(t, rounds)->Some_0;
        let old_keys = staged_in(fewer);
        let all = staged_in(rounds);
        assert(pending(after, job_id) == pending(before, job_id).difference(keys.to_set()));
        assert forall|i: int| 0 <= i < keys.len() implies pending(before, job_id).contains(
            #[trigger] keys[i],
        ) by {}
        assert forall|i: int, j: int| 0 <= i < j < all.len() implies #[trigger] all[i]
            < #[trigger] all[j] by {
            if j < old_keys.len() {
                assert(old_keys[i] < old_keys[j]);
            } else if i >= old_keys.len() {
                assert(keys[i - old_keys.len()] < keys[j - old_keys.len()]);
            } else {
                let id = keys[j - old_keys.len()];
                assert(pending(before, job_id).contains(id));
                assert(old_keys[i] < id);
            }
        }
        assert forall|i: int| 0 <= i < all.len() implies pending(t, job_id).contains(
            #[trigger] all[i],
        ) by {
            if i < old_keys.len() {
                assert(pending(t, job_id).contains(old_keys[i]));
            } else {
                assert(pending(before, job_id).contains(keys[i - old_keys.len()]));
            }
        }
        assert forall|id: i64| #[trigger] pending(after, job_id).contains(id) <==> pending(
            t,
            job_id,
        ).contains(id) && !all.contains(id) by {
            assert(pending(before, job_id).contains(id) <==> pending(t, job_id).contains(id)
                && !old_keys.contains(id));
            assert(all.contains(id) <==> old_keys.contains(id) || keys.contains(id)) by {
                if old_keys.contains(id) {
                    let i = choose|i: int| 0 <= i < old_keys.len() && old_keys[i] == id;
                    assert(all[i] == id);
                }
                if keys.contains(id) {
                    let i = choose|i: int| 0 <= i < keys.len() && keys[i] == id;
                    assert(all[old_keys.len() + i] == id);
                }
                if all.contains(id) {
                    let i = choose|i: int| 0 <= i < all.len() && all[i] == id;
                    if i < old_keys.len() {
                        assert(old_keys[i] == id);
                    } else {
                        assert(keys[i - old_keys.len()] == id);
                    }
                }
            }
        }
        assert forall|id: i64, i: int|
            #![trigger pending(after, job_id).contains(id), all[i]]
            pending(after, job_id).contains(id) && 0 <= i < all.len() implies all[i] < id by {
            assert(pending(before, job_id).contains(id));
            assert(!keys.contains(id));
            if i < old_keys.len() {
                assert(old_keys[i] < id);
            } else {
                assert(keys[i - old_keys.len()] < id);
            }
        }
    }
}

/// Rounds find together what one selection finds: the oldest pending items, in order, as many as
/// they took.
pub proof fn rounds_find_what_one_selection_finds(t: Tables, job_id: i64, rounds: Seq<Round>)
    requires
        t.sound(),
        is_staging(t, job_id, rounds),
    ensures
        t.finds(Some(job_id), staged_in(rounds).len() as int, staged_in(rounds)),
        staged_in(rounds).no_duplicates(),
{
    lemma_rounds(t, job_id, rounds);
    let ids = staged_in(rounds);
    assert forall|id: i64| #[trigger]
        t.items_with(Some(job_id), "pending"@).contains(id) && !ids.contains(id) implies (
    forall|i: int| 0 <= i < ids.len() ==> #[trigger] ids[i] < id) by {
        assert(pending(after_rounds(t, rounds)->Some_0, job_id).contains(id));
    }
    assert forall|i: int, j: int|
        0 <= i < ids.len() && 0 <= j < ids.len() && i != j implies ids[i] != ids[j] by {
        if i < j {
            assert(ids[i] < ids[j]);
        } else {
            assert(ids[j] < ids[i]);
        }
    }
}

/// Where the last round asked for items and found none, the rounds have taken every item of the job
/// that was pending at first, each once.
pub proof fn every_pending_item_is_staged(t: Tables, job_id: i64, rounds: Seq<Round>)
    requires
        t.sound(),
        is_staging(t, job_id, rounds),
        rounds.len() > 0,
        rounds.last().items.len() == 0,
        rounds.last().limit != 0,
    ensures
        staged_in(rounds).no_duplicates(),
        staged_in(rounds).to_set() == pending(t, job_id),
        t.finds(Some(job_id), -1, staged_in(rounds)),
{
    rounds_find_what_one_selection_finds(t, job_id, rounds);
    let fewer = rounds.drop_last();
    let ids = staged_in(rounds);
    lemma_rounds(t, job_id, fewer);
    lemma_rounds(t, job_id, rounds);
    let before = after_rounds(t, fewer)->Some_0;
    assert(ids =~= staged_in(fewer));
    assert forall|id: i64| pending(t, job_id).contains(id) implies ids.contains(id) by {
        if !ids.contains(id) {
            assert(pending(before, job_id).contains(id));
            assert(before.items_with(Some(job_id), "pending"@).contains(id));
            assert(!rounds.last().keys().contains(id));
        }
    }
    assert forall|id: i64| ids.to_set().contains(id) implies pending(t, job_id).contains(id) by {
        let i = choose|i: int| 0 <= i < ids.len() && ids[i] == id;
        assert(pending(t, job_id).contains(ids[i]));
    }
    assert(ids.to_set() =~= pending(t, job_id));
}

/// The rounds of a loader: what it asked for each time, and what was staged.
pub open spec fn rounds_asked(
    stage_size: int,
    limit: Option<int>,
    events: Seq<LoadEventView>,
) -> Seq<(int, Seq<ItemView>)>
    decreases events.len(),
{
    if events.len() == 0 {
        Seq::empty()
    } else {
        let fewer = events.drop_last();
        let before = rounds_asked(stage_size, limit, fewer);
        match events.last() {
            LoadEventView::Staged(items) => before.push(
                (loader_run(stage_size, limit, fewer).1.last()->Ask_0, items),
            ),
            _ => before,
        }
    }
}

/// Whether `rounds` are the rounds of a loader.
pub open spec fn are_rounds_of(
    rounds: Seq<Round>,
    stage_size: int,
    limit: Option<int>,
    events: Seq<LoadEventView>,
) -> bool {
    rounds.map_values(|r: Round| (r.limit, r.items)) == rounds_asked(stage_size, limit, events)
}

proof fn lemma_asked(stage_size: int, limit: Option<int>, events: Seq<LoadEventView>)
    requires
        loader_accepts(stage_size, limit, events),
    ensures
        ({
            let (state, actions) = loader_run(stage_size, limit, events);
            &&& state.stage_size == stage_size
            &&& state.wanted is Some <==> limit is Some
            &&& state.phase is Asking ==> {
                &&& actions.len() > 0
                &&& actions.last() == LoadActionView::Ask(round_size(stage_size, state.wanted))
                &&& state.wanted matches Some(n) ==> n > 0
            }
        }),
    decreases events.len(),
{
    if events.len() > 0 {
        lemma_asked(stage_size, limit, events.drop_last());
    }
}

proof fn lemma_rounds_of(
    t: Tables,
    job_id: i64,
    rounds: Seq<Round>,
    stage_size: int,
    limit: Option<int>,
    events: Seq<LoadEventView>,
)
    requires
        is_staging(t, job_id, rounds),
        loader_accepts(stage_size, limit, events),
        are_rounds_of(rounds, stage_size, limit, events),
    ensures
        staged_in(rounds) == item_keys(staged(events)),
        rounds_in_bounds(stage_size, limit, events),
    decreases events.len(),
{
    let view = |r: Round| (r.limit, r.items);
    let asked = rounds_asked(stage_size, limit, events);
    if events.len() == 0 {
        assert(rounds.len() == rounds.map_values(view).len());
        assert(staged_in(rounds) =~= item_keys(staged(events)));
    } else {
        let fewer = events.drop_last();
        match events.last() {
            LoadEventView::Staged(items) => {
                assert(rounds.map_values(view).len() == asked.len());
                let round = rounds.last();
                assert(rounds.map_values(view)[rounds.len() - 1] == asked.last());
                assert(rounds.drop_last().map_values(view) =~= asked.drop_last());
                assert(asked.drop_last() =~= rounds_asked(stage_size, limit, fewer));
                lemma_rounds_of(t, job_id, rounds.drop_last(), stage_size, limit, fewer);
                lemma_asked(stage_size, limit, fewer);
                assert(round.items == items);
                assert(round.keys().len() == items.len());
                assert(item_keys(staged(fewer) + items) =~= item_keys(staged(fewer)) + item_keys(
                    items,
                ));
            },
            _ => {
                lemma_rounds_of(t, job_id, rounds, stage_size, limit, fewer);
            },
        }
    }
}

/// A run over a job: the tables at first, and the rounds in which its items were staged.
pub struct JobRun {
    pub run: Run,
    pub job_id: i64,
    pub before: Tables,
    pub rounds: Seq<Round>,
}

/// Everything that was changed between and after the rounds, in order.
pub open spec fn changes_in(rounds: Seq<Round>) -> Seq<Change>
    decreases rounds.len(),
{
    if rounds.len() == 0 {
        Seq::empty()
    } else {
        changes_in(rounds.drop_last()) + rounds.last().changes.map_values(|c: (Change, int)| c.0)
    }
}

impl JobRun {
    /// The keys of the items that were staged.
    pub open spec fn keys(self) -> Seq<i64> {
        item_keys(self.run.staged())
    }

    /// The tables at the end.
    pub open spec fn after(self) -> Tables {
        after_rounds(self.before, self.rounds)->Some_0
    }

    /// The limit of the one selection that finds what the run stages. A limit below zero lets
    /// nothing be staged; a selection has no limit where it is negative.
    pub open spec fn selection_limit(self) -> int {
        match self.run.limit {
            None => -1,
            Some(n) => if n < 0 {
                0
            } else {
                n
            },
        }
    }

    /// Whether the run went to its end over this job: its rounds are those of the loader, which asked
    /// for something and stopped because it found nothing more or wanted nothing more.
    pub open spec fn finished(self) -> bool {
        let last = self.run.loading.last();
        &&& self.run.finished()
        &&& self.before.sound()
        &&& is_staging(self.before, self.job_id, self.rounds)
        &&& are_rounds_of(self.rounds, self.run.stage_size, self.run.limit, self.run.loading)
        &&& self.run.stage_size != 0
        &&& last is Begin || last is Staged || last is Delivered
    }

    /// Whether every write was stored, and nothing else was changed between and after the rounds.
    pub open spec fn is_stored(self) -> bool {
        changes_in(self.rounds) == self.run.settling()
    }
}

/// What a run over a job stages: with no limit every item that was pending at first, and with one
/// the oldest of them, as many as the limit says or all of them where there are fewer. Each is
/// staged once, in order.
pub proof fn a_run_stages_the_pending_items(job: JobRun)
    requires
        job.finished(),
    ensures
        job.keys().no_duplicates(),
        job.before.finds(Some(job.job_id), job.selection_limit(), job.keys()),
        job.run.limit is None ==> job.keys().to_set() == pending(job.before, job.job_id),
        job.run.limit matches Some(n) ==> job.keys().len() == if n < 0 {
            0
        } else if n < pending(job.before, job.job_id).len() {
            n
        } else {
            pending(job.before, job.job_id).len() as int
        },
{
    let run = job.run;
    let t = job.before;
    let (state, actions) = loader_run(run.stage_size, run.limit, run.loading);
    let events = run.loading;
    lemma_rounds_of(t, job.job_id, job.rounds, run.stage_size, run.limit, events);
    rounds_find_what_one_selection_finds(t, job.job_id, job.rounds);
    assert(events.len() > 0);
    let fewer = events.drop_last();
    lemma_asked(run.stage_size, run.limit, fewer);
    lemma_asked(run.stage_size, run.limit, events);
    let keys = job.keys();
    if events.last() is Staged {
        let view = |r: Round| (r.limit, r.items);
        let asked = rounds_asked(run.stage_size, run.limit, events);
        assert(job.rounds.map_values(view).len() == asked.len());
        assert(job.rounds.map_values(view)[job.rounds.len() - 1] == asked.last());
        assert(job.rounds.last().items.len() == 0);
        assert(job.rounds.last().limit != 0);
        every_pending_item_is_staged(t, job.job_id, job.rounds);
        keys.unique_seq_to_set();
    }
    match run.limit {
        None => {},
        Some(n) if n < 0 => {
            lemma_stops_at_once(run.stage_size, n, events);
            assert(keys.len() == 0);
        },
        Some(n) => {
            loader_keeps_to_the_limit(run.stage_size, n, events);
            assert(keys.len() == staged(events).len());
            if !(events.last() is Staged) {
                assert(keys.len() == n);
                lemma_found_at_most_pending(t, job.job_id, keys);
            }
        },
    }
}

proof fn lemma_stops_at_once(stage_size: int, limit: int, events: Seq<LoadEventView>)
    requires
        limit < 0,
        loader_accepts(stage_size, Some(limit), events),
    ensures
        staged(events).len() == 0,
        events.len() > 0 ==> loader_run(stage_size, Some(limit), events).0.phase is Stopped,
    decreases events.len(),
{
    if events.len() > 0 {
        lemma_stops_at_once(stage_size, limit, events.drop_last());
        if events.len() == 1 {
            assert(events.drop_last() =~= Seq::empty());
        }
    }
}

proof fn lemma_found_at_most_pending(t: Tables, job_id: i64, ids: Seq<i64>)
    requires
        t.sound(),
        ids.no_duplicates(),
        forall|i: int| 0 <= i < ids.len() ==> pending(t, job_id).contains(#[trigger] ids[i]),
    ensures
        ids.len() <= pending(t, job_id).len(),
{
    t.items.dom().lemma_len_filter(
        |id: i64|
            t.items[id].status == "pending"@ && (Some(job_id) is Some ==> t.items[id].job_id
                == Some(job_id)->Some_0),
    );
    ids.unique_seq_to_set();
    assert forall|id: i64| ids.to_set().contains(id) implies pending(t, job_id).contains(id) by {
        let i = choose|i: int| 0 <= i < ids.len() && ids[i] == id;
        assert(pending(t, job_id).contains(ids[i]));
    }
    vstd::set_lib::lemma_len_subset(ids.to_set(), pending(t, job_id));
}

/// Whether an item ended as its result says. Only the time of the change is left open.
pub open spec fn ends_as(before: ItemRow, after: ItemRow, c: CompletionView) -> bool {
    after == completed(before, c, after.updated_at)
}

/// Whether an item is being processed, and is otherwise as it was.
pub open spec fn is_taken(before: ItemRow, after: ItemRow) -> bool {
    after == (ItemRow { status: "processing"@, updated_at: after.updated_at, ..before })
}

/// The keys of results.
pub open spec fn ids_of(results: Seq<CompletionView>) -> Seq<i64> {
    results.map_values(|c: CompletionView| c.id)
}

/// What is known of a row once the items `marked` were staged and the results `done` were stored.
pub open spec fn row_follows(
    t: Tables,
    now: Tables,
    marked: Seq<i64>,
    done: Seq<CompletionView>,
    id: i64,
) -> bool {
    &&& !marked.contains(id) && !ids_of(done).contains(id) ==> now.items[id] == t.items[id]
    &&& marked.contains(id) && !ids_of(done).contains(id) ==> is_taken(t.items[id], now.items[id])
    &&& forall|i: int|
        0 <= i < done.len() && (#[trigger] done[i]).id == id ==> ends_as(
            t.items[id],
            now.items[id],
            done[i],
        )
}

/// Whether the rows are as the marked items and the stored results say.
pub open spec fn rows_follow(
    t: Tables,
    now: Tables,
    marked: Seq<i64>,
    done: Seq<CompletionView>,
) -> bool {
    &&& now.jobs == t.jobs
    &&& now.retries == t.retries
    &&& now.items.dom() == t.items.dom()
    &&& forall|id: i64| #[trigger]
        t.items.contains_key(id) ==> row_follows(t, now, marked, done, id)
}

proof fn lemma_storing(
    t: Tables,
    now: Tables,
    marked: Seq<i64>,
    done: Seq<CompletionView>,
    changes: Seq<(Change, int)>,
    more: Seq<CompletionView>,
)
    requires
        rows_follow(t, now, marked, done),
        ids_of(done + more).no_duplicates(),
        changes.map_values(|c: (Change, int)| c.0) == more.map_values(
            |c: CompletionView| Change::Complete(c),
        ),
    ensures
        now.apply_all(changes) is Some,
        rows_follow(t, now.apply_all(changes)->Some_0, marked, done + more),
    decreases more.len(),
{
    let plain = |c: (Change, int)| c.0;
    let store = |c: CompletionView| Change::Complete(c);
    assert(changes.len() == changes.map_values(plain).len());
    assert(more.len() == more.map_values(store).len());
    if more.len() == 0 {
        assert(done + more =~= done);
    } else {
        let n = more.len() - 1;
        let fewer = more.drop_last();
        let c = more.last();
        assert(changes.drop_last().map_values(plain) =~= changes.map_values(plain).drop_last());
        assert(fewer.map_values(store) =~= more.map_values(store).drop_last());
        let all = done + more;
        let prior = done + fewer;
        assert(all =~= prior.push(c));
        assert(ids_of(prior) =~= ids_of(all).drop_last());
        assert(ids_of(prior).no_duplicates()) by {
            assert forall|i: int, j: int|
                0 <= i < prior.len() && 0 <= j < prior.len() && i != j implies ids_of(prior)[i]
                != ids_of(prior)[j] by {
                assert(ids_of(all)[i] != ids_of(all)[j]);
            }
        }
        lemma_storing(t, now, marked, done, changes.drop_last(), fewer);
        let before = now.apply_all(changes.drop_last())->Some_0;
        assert(changes.map_values(plain)[n] == more.map_values(store)[n]);
        assert(changes.last().0 == Change::Complete(c));
        let after = now.apply_all(changes)->Some_0;
        assert(after.items.dom() =~= t.items.dom());
        assert(!ids_of(prior).contains(c.id)) by {
            if ids_of(prior).contains(c.id) {
                let i = choose|i: int| 0 <= i < prior.len() && ids_of(prior)[i] == c.id;
                assert(ids_of(all)[i] == ids_of(all)[all.len() - 1]);
            }
        }
        assert forall|id: i64| #[trigger] t.items.contains_key(id) implies row_follows(
            t,
            after,
            marked,
            all,
            id,
        ) by {
            assert(row_follows(t, before, marked, prior, id));
            assert(ids_of(all).contains(id) <==> ids_of(prior).contains(id) || id == c.id) by {
                if ids_of(prior).contains(id) {
                    let i = choose|i: int| 0 <= i < prior.len() && ids_of(prior)[i] == id;
                    assert(ids_of(all)[i] == id);
                }
                assert(ids_of(all)[all.len() - 1] == c.id);
                if ids_of(all).contains(id) {
                    let i = choose|i: int| 0 <= i < all.len() && ids_of(all)[i] == id;
                    if i < prior.len() {
                        assert(ids_of(prior)[i] == id);
                    }
                }
            }
            assert forall|i: int| 0 <= i < all.len() && (#[trigger] all[i]).id == id implies ends_as(
                t.items[id],
                after.items[id],
                all[i],
            ) by {
                if i < prior.len() {
                    assert(prior[i] == all[i]);
                    assert(ids_of(prior)[i] == id);
                }
            }
        }
    }
}

proof fn lemma_rows(t: Tables, job_id: i64, rounds: Seq<Round>, done: Seq<CompletionView>)
    requires
        t.sound(),
        is_staging(t, job_id, rounds),
        changes_in(rounds) == done.map_values(|c: CompletionView| Change::Complete(c)),
        ids_of(done).no_duplicates(),
    ensures
        rows_follow(t, after_rounds(t, rounds)->Some_0, staged_in(rounds), done),
    decreases rounds.len(),
{
    let store = |c: CompletionView| Change::Complete(c);
    let plain = |c: (Change, int)| c.0;
    assert(done.len() == done.map_values(store).len());
    if rounds.len() == 0 {
        assert(done =~= Seq::empty());
        assert(rows_follow(t, t, staged_in(rounds), done));
    } else {
        let fewer = rounds.drop_last();
        let round = rounds.last();
        let k = changes_in(fewer).len() as int;
        let prior = done.take(k);
        let more = done.skip(k);
        assert(done =~= prior + more);
        let stored = done.map_values(store);
        assert(changes_in(rounds) == changes_in(fewer) + round.changes.map_values(plain));
        assert(stored.len() == done.len());
        assert(prior.map_values(store) =~= stored.take(k));
        assert(more.map_values(store) =~= stored.skip(k));
        assert(stored.take(k) =~= changes_in(fewer));
        assert(stored.skip(k) =~= round.changes.map_values(plain));
        assert(ids_of(prior).no_duplicates()) by {
            assert forall|i: int, j: int|
                0 <= i < prior.len() && 0 <= j < prior.len() && i != j implies ids_of(prior)[i]
                != ids_of(prior)[j] by {
                assert(ids_of(done)[i] != ids_of(done)[j]);
            }
        }
        lemma_rows(t, job_id, fewer, prior);
        lemma_rounds(t, job_id, fewer);
        lemma_statuses_differ();
        let before = after_rounds(t, fewer)->Some_0;
        let keys = round.keys();
        let marked = round.marked(before);
        staging_takes_what_was_found(before, Some(job_id), round.limit, keys, round.now);
        let old_keys = staged_in(fewer);
        let all = staged_in(rounds);
        assert(rows_follow(t, marked, all, prior)) by {
            assert forall|id: i64| #[trigger] t.items.contains_key(id) implies row_follows(
                t,
                marked,
                all,
                prior,
                id,
            ) by {
                assert(row_follows(t, before, old_keys, prior, id));
                assert(before.items.contains_key(id));
                assert(all.contains(id) <==> old_keys.contains(id) || keys.contains(id)) by {
                    if old_keys.contains(id) {
                        let i = choose|i: int| 0 <= i < old_keys.len() && old_keys[i] == id;
                        assert(all[i] == id);
                    }
                    if keys.contains(id) {
                        let i = choose|i: int| 0 <= i < keys.len() && keys[i] == id;
                        assert(all[old_keys.len() + i] == id);
                    }
                    if all.contains(id) {
                        let i = choose|i: int| 0 <= i < all.len() && all[i] == id;
                        if i < old_keys.len() {
                            assert(old_keys[i] == id);
                        } else {
                            assert(keys[i - old_keys.len()] == id);
                        }
                    }
                }
                if keys.contains(id) {
                    let i = choose|i: int| 0 <= i < keys.len() && keys[i] == id;
                    assert(pending(before, job_id).contains(keys[i]));
                    assert(before.items[id].status == "pending"@);
                    assert(marked.items[keys[i]] == (ItemRow {
                        status: "processing"@,
                        updated_at: round.now,
                        ..before.items[keys[i]]
                    }));
                    if ids_of(prior).contains(id) {
                        let j = choose|j: int| 0 <= j < prior.len() && ids_of(prior)[j] == id;
                        assert(prior[j].id == id);
                        assert(ends_as(t.items[id], before.items[id], prior[j]));
                    }
                    assert forall|j: int|
                        0 <= j < prior.len() && (#[trigger] prior[j]).id == id implies ends_as(
                        t.items[id],
                        marked.items[id],
                        prior[j],
                    ) by {
                        assert(ids_of(prior)[j] == id);
                        assert(ids_of(prior).contains(id));
                    }
                } else {
                    assert(marked.items[id] == before.items[id]);
                }
            }
        }
        lemma_storing(t, marked, all, prior, round.changes, more);
    }
}

proof fn lemma_settling_without_retries(run: Run) -> (done: Seq<CompletionView>)
    requires
        run.finished(),
        run.retries_nothing(),
    ensures
        run.settling() == done.map_values(|c: CompletionView| Change::Complete(c)),
        done.to_multiset() == run.ended().to_multiset(),
{
    let written = run.written();
    let ended = Seq::new(
        written.len(),
        |j: int| completions(written[j], run.counts[j], run.retry_limit),
    );
    let orders = Seq::new(written.len(), |j: int| storing_order(ended[j]));
    let parts = run.write_changes();
    let store = |c: CompletionView| Change::Complete(c);
    assert forall|j: int| 0 <= j < orders.len() implies #[trigger] parts[j]
        == orders[j].map_values(store) by {
        assert(retries(written[j], run.counts[j], run.retry_limit).len() == 0);
        assert(parts[j] =~= orders[j].map_values(store));
    }
    lemma_concat_map(orders, parts, store);
    assert forall|j: int| 0 <= j < orders.len() implies (#[trigger] orders[j]).to_multiset()
        == ended[j].to_multiset() by {
        lemma_storing_order(ended[j]);
    }
    lemma_concat_pointwise(orders, ended);
    concat(orders)
}

/// A run over a job in which no retry is due: every item that it stages, which are the pending ones
/// as far as the limit goes, is in exactly one entry, with its message, and nothing else is sent;
/// each of them ends as its result says, done or failed; and no other row changes.
pub proof fn a_run_sends_and_ends_the_pending_items(job: JobRun)
    requires
        job.finished(),
        job.is_stored(),
        job.run.retries_nothing(),
    ensures
        job.keys().no_duplicates(),
        job.before.finds(Some(job.job_id), job.selection_limit(), job.keys()),
        job.run.limit is None ==> job.keys().to_set() == pending(job.before, job.job_id),
        job.run.sent().to_multiset() == messages_for(
            job.run.staged(),
            job.run.input_type,
        ).to_multiset(),
        job.run.sent().map_values(|m: (i64, Seq<char>)| m.0).no_duplicates(),
        after_rounds(job.before, job.rounds) is Some,
        job.after().jobs == job.before.jobs,
        job.after().retries == job.before.retries,
        job.after().items.dom() == job.before.items.dom(),
        ids_of(job.run.ended()).no_duplicates(),
        ids_of(job.run.ended()).to_set() == job.keys().to_set(),
        forall|i: int|
            0 <= i < job.run.ended().len() ==> ends_as(
                job.before.items[(#[trigger] job.run.ended()[i]).id],
                job.after().items[job.run.ended()[i].id],
                job.run.ended()[i],
            ),
        forall|id: i64| #[trigger]
            job.before.items.contains_key(id) && !job.keys().contains(id) ==> job.after().items[id]
                == job.before.items[id],
{
    broadcast use group_to_multiset_ensures;

    let run = job.run;
    let t = job.before;
    a_run_stages_the_pending_items(job);
    every_item_of_a_run_is_sent_and_settled(run);
    no_item_is_sent_or_settled_twice(run);
    items_end_where_no_retry_is_due(run);
    let keys = job.keys();
    let ids = ids_of(run.ended());
    let done = lemma_settling_without_retries(run);
    let done_ids = ids_of(done);
    lemma_map_keeps_multiset(done, run.ended(), |c: CompletionView| c.id);
    assert(ids =~= run.ended().map_values(|c: CompletionView| c.id));
    assert(done_ids =~= done.map_values(|c: CompletionView| c.id));
    keys.lemma_multiset_has_no_duplicates();
    ids.lemma_multiset_has_no_duplicates_conv();
    done_ids.lemma_multiset_has_no_duplicates_conv();
    assert forall|id: i64| done_ids.contains(id) <==> ids.contains(id) by {
        assert(done_ids.contains(id) <==> done_ids.to_multiset().count(id) > 0);
        assert(ids.contains(id) <==> ids.to_multiset().count(id) > 0);
    }
    assert forall|id: i64| ids.contains(id) <==> keys.contains(id) by {
        assert(ids.contains(id) <==> ids.to_multiset().count(id) > 0);
        assert(keys.contains(id) <==> keys.to_multiset().count(id) > 0);
    }
    assert(ids.to_set() =~= keys.to_set());
    lemma_rounds_of(t, job.job_id, job.rounds, run.stage_size, run.limit, run.loading);
    lemma_rounds(t, job.job_id, job.rounds);
    lemma_rows(t, job.job_id, job.rounds, done);
    assert forall|i: int| 0 <= i < run.ended().len() implies ends_as(
        t.items[(#[trigger] run.ended()[i]).id],
        job.after().items[run.ended()[i].id],
        run.ended()[i],
    ) by {
        let id = run.ended()[i].id;
        assert(ids[i] == id);
        assert(ids.contains(id));
        let k = choose|k: int| 0 <= k < keys.len() && keys[k] == id;
        assert(pending(t, job.job_id).contains(staged_in(job.rounds)[k]));
        assert(t.items.contains_key(id));
        assert(row_follows(t, job.after(), staged_in(job.rounds), done, id));
        assert(run.ended().contains(run.ended()[i]));
        assert(run.ended().to_multiset().count(run.ended()[i]) > 0);
        assert(done.contains(run.ended()[i]));
        let d = choose|d: int| 0 <= d < done.len() && done[d] == run.ended()[i];
        assert(done[d].id == id);
    }
    assert forall|id: i64| #[trigger]
        t.items.contains_key(id) && !keys.contains(id) implies job.after().items[id]
        == t.items[id] by {
        assert(row_follows(t, job.after(), staged_in(job.rounds), done, id));
        assert(!done_ids.contains(id));
    }
}

/// A run over a job without a limit in which no retry is due leaves nothing to send: no item of the
/// job is pending, and those that are processing were so before the run. Where there were none, the
/// job has no open item, and can be closed.
pub proof fn nothing_is_left_to_send(job: JobRun)
    requires
        job.finished(),
        job.is_stored(),
        job.run.retries_nothing(),
        job.run.limit is None,
    ensures
        pending(job.after(), job.job_id) == Set::<i64>::empty(),
        job.after().items_with(Some(job.job_id), "processing"@) == job.before.items_with(
            Some(job.job_id),
            "processing"@,
        ),
        job.before.items_with(Some(job.job_id), "processing"@) == Set::<i64>::empty()
            ==> job.after().count_open(job.job_id) == 0,
{
    a_run_sends_and_ends_the_pending_items(job);
    lemma_statuses_differ();
    let t = job.before;
    let after = job.after();
    let keys = job.keys();
    let ids = ids_of(job.run.ended());
    let taken = t.items_with(Some(job.job_id), "processing"@);
    assert forall|id: i64| keys.contains(id) && t.items.contains_key(id) implies (
    #[trigger] after.items[id]).status != "pending"@ && after.items[id].status != "processing"@ by {
        assert(keys.to_set().contains(id));
        assert(ids.to_set().contains(id));
        let i = choose|i: int| 0 <= i < ids.len() && ids[i] == id;
        assert(job.run.ended()[i].id == id);
    }
    assert forall|id: i64| !pending(after, job.job_id).contains(id) by {
        if pending(after, job.job_id).contains(id) {
            assert(t.items.contains_key(id));
            if !keys.contains(id) {
                assert(after.items[id] == t.items[id]);
                assert(keys.to_set().contains(id));
            }
        }
    }
    assert(pending(after, job.job_id) =~= Set::empty());
    let still = after.items_with(Some(job.job_id), "processing"@);
    assert forall|id: i64| still.contains(id) <==> taken.contains(id) by {
        if t.items.contains_key(id) {
            if keys.contains(id) {
                assert(keys.to_set().contains(id));
                assert(pending(t, job.job_id).contains(id));
            } else {
                assert(after.items[id] == t.items[id]);
            }
        }
    }
    assert(still =~= taken);
    if taken == Set::<i64>::empty() {
        assert(pending(after, job.job_id) + still =~= Set::empty());
    }
}

/// Sending a whole job: with no limit, and where the service takes every entry, every item of the
/// job that was pending at first is sent in exactly one entry, with its message, and nothing else is
/// sent; each of them ends as done; and no other row changes. With a limit this holds of the oldest
/// of them, as many as the limit says. The stage size, the batch size and the number of senders do
/// not matter.
pub proof fn every_pending_item_is_sent_and_done(job: JobRun)
    requires
        job.finished(),
        job.is_stored(),
        forall|k: int| 0 <= k < job.run.batches.len() ==> (#[trigger] job.run.batches[k]).taken(),
    ensures
        job.keys().no_duplicates(),
        job.before.finds(Some(job.job_id), job.selection_limit(), job.keys()),
        job.run.limit is None ==> job.keys().to_set() == pending(job.before, job.job_id),
        job.run.sent().map_values(|m: (i64, Seq<char>)| m.0).no_duplicates(),
        job.run.sent().map_values(|m: (i64, Seq<char>)| m.0).to_set() == job.keys().to_set(),
        job.run.sent().to_multiset() == messages_for(
            job.run.staged(),
            job.run.input_type,
        ).to_multiset(),
        after_rounds(job.before, job.rounds) is Some,
        job.after().jobs == job.before.jobs,
        job.after().retries == job.before.retries,
        job.after().items.dom() == job.before.items.dom(),
        forall|i: int|
            0 <= i < job.keys().len() ==> job.after().items[#[trigger] job.keys()[i]].status
                == "done"@,
        forall|id: i64| #[trigger]
            job.before.items.contains_key(id) && !job.keys().contains(id) ==> job.after().items[id]
                == job.before.items[id],
{
    broadcast use group_to_multiset_ensures;

    let run = job.run;
    a_run_without_refusals_ends_every_item(run);
    a_run_sends_and_ends_the_pending_items(job);
    let keys = job.keys();
    let ids = ids_of(run.ended());
    assert forall|i: int| 0 <= i < keys.len() implies job.after().items[#[trigger] keys[i]].status
        == "done"@ by {
        assert(keys.to_set().contains(keys[i]));
        assert(ids.to_set().contains(keys[i]));
        let k = choose|k: int| 0 <= k < ids.len() && ids[k] == keys[i];
        assert(run.ended()[k].success);
    }
    let key = |m: (i64, Seq<char>)| m.0;
    let wanted = messages_for(run.staged(), run.input_type);
    lemma_map_keeps_multiset(run.sent(), wanted, key);
    assert(wanted.map_values(key) =~= keys);
    let sent = run.sent().map_values(key);
    assert forall|id: i64| sent.contains(id) <==> keys.contains(id) by {
        assert(sent.contains(id) <==> sent.to_multiset().count(id) > 0);
        assert(keys.contains(id) <==> keys.to_multiset().count(id) > 0);
    }
    assert(sent.to_set() =~= keys.to_set());
}

/// The keys of the items that were staged in a history of changes, in order.
pub open spec fn marked_in(history: Seq<(Change, int)>) -> Seq<i64>
    decreases history.len(),
{
    if history.len() == 0 {
        Seq::empty()
    } else {
        match history.last().0 {
            Change::MarkProcessing { ids } => marked_in(history.drop_last()) + ids,
            _ => marked_in(history.drop_last()),
        }
    }
}

/// What else was changed in a history, in order.
pub open spec fn settling_in(history: Seq<(Change, int)>) -> Seq<Change>
    decreases history.len(),
{
    if history.len() == 0 {
        Seq::empty()
    } else {
        match history.last().0 {
            Change::MarkProcessing { .. } => settling_in(history.drop_last()),
            change => settling_in(history.drop_last()).push(change),
        }
    }
}

/// How often an item was staged in a history.
pub open spec fn times_marked(history: Seq<(Change, int)>, key: i64) -> nat {
    marked_in(history).to_multiset().count(key)
}

/// How often an item was settled in a history.
pub open spec fn times_settled(history: Seq<(Change, int)>, key: i64) -> nat {
    keys_settled(settling_in(history)).to_multiset().count(key)
}

/// Whether a change stages or settles an item.
pub open spec fn concerns(change: Change, key: i64) -> bool {
    match change {
        Change::MarkProcessing { ids } => ids.contains(key),
        _ => settles(change) == Some(key),
    }
}

/// The last change in a history that stages or settles an item.
pub open spec fn last_word(history: Seq<(Change, int)>, key: i64) -> Option<Change>
    decreases history.len(),
{
    if history.len() == 0 {
        None
    } else if concerns(history.last().0, key) {
        Some(history.last().0)
    } else {
        last_word(history.drop_last(), key)
    }
}

/// The status that a change leaves its item in.
pub open spec fn status_after(change: Change) -> Seq<char> {
    match change {
        Change::MarkProcessing { .. } => "processing"@,
        Change::Complete(c) if c.success => "done"@,
        Change::Complete(_) => "failed"@,
        _ => "pending"@,
    }
}

/// Whether a change is one by which items that `t` holds are settled.
pub open spec fn is_settling(t: Tables, change: Change) -> bool {
    match change {
        Change::Complete(_) | Change::ResetItem { .. } => true,
        Change::RecordRetry { item_id, .. } => t.items.contains_key(item_id),
        _ => false,
    }
}

proof fn lemma_history(t: Tables, history: Seq<(Change, int)>)
    requires
        forall|i: int|
            0 <= i < settling_in(history).len() ==> is_settling(
                t,
                #[trigger] settling_in(history)[i],
            ),
    ensures
        t.apply_all(history) is Some,
        t.apply_all(history)->Some_0.jobs == t.jobs,
        t.apply_all(history)->Some_0.items.dom() == t.items.dom(),
        forall|key: i64| #[trigger]
            t.items.contains_key(key) ==> match last_word(history, key) {
                Some(change) => t.apply_all(history)->Some_0.items[key].status == status_after(
                    change,
                ),
                None => t.apply_all(history)->Some_0.items[key] == t.items[key],
            },
    decreases history.len(),
{
    if history.len() > 0 {
        let fewer = history.drop_last();
        let change = history.last().0;
        let all = settling_in(history);
        assert forall|i: int| 0 <= i < settling_in(fewer).len() implies is_settling(
            t,
            #[trigger] settling_in(fewer)[i],
        ) by {
            assert(settling_in(fewer)[i] == all[i]);
        }
        lemma_history(t, fewer);
        if !(change is MarkProcessing) {
            assert(all[all.len() - 1] == change);
        }
        let before = t.apply_all(fewer)->Some_0;
        let after = t.apply_all(history)->Some_0;
        assert(after.items.dom() =~= t.items.dom());
        assert forall|key: i64| #[trigger] t.items.contains_key(key) implies match last_word(
            history,
            key,
        ) {
            Some(change) => after.items[key].status == status_after(change),
            None => after.items[key] == t.items[key],
        } by {
            assert(before.items.contains_key(key));
        }
    }
}

proof fn lemma_last_word_concerns(history: Seq<(Change, int)>, key: i64)
    requires
        last_word(history, key) is Some,
    ensures
        concerns(last_word(history, key)->Some_0, key),
    decreases history.len(),
{
    if !concerns(history.last().0, key) {
        lemma_last_word_concerns(history.drop_last(), key);
    }
}

proof fn lemma_staged_last(history: Seq<(Change, int)>, key: i64) -> (p: int)
    requires
        last_word(history, key) is Some,
        last_word(history, key)->Some_0 is MarkProcessing,
    ensures
        0 <= p < history.len(),
        times_settled(history.take(p), key) == times_settled(history, key),
        times_marked(history.take(p), key) < times_marked(history, key),
    decreases history.len(),
{
    broadcast use group_to_multiset_ensures;

    let fewer = history.drop_last();
    let change = history.last().0;
    if change is MarkProcessing {
        let ids = change->MarkProcessing_ids;
        lemma_multiset_commutative(marked_in(fewer), ids);
        assert(ids.contains(key) <==> ids.to_multiset().count(key) > 0);
    }
    if concerns(change, key) {
        assert(history.take(history.len() - 1) =~= fewer);
        history.len() - 1
    } else {
        let p = lemma_staged_last(fewer, key);
        assert(history.take(p) =~= fewer.take(p));
        if !(change is MarkProcessing) {
            assert(settling_in(history).drop_last() =~= settling_in(fewer));
            assert(settling_in(history).last() == change);
        }
        p
    }
}

proof fn lemma_never_staged(history: Seq<(Change, int)>, key: i64)
    requires
        last_word(history, key) is None,
    ensures
        times_marked(history, key) == 0,
    decreases history.len(),
{
    broadcast use group_to_multiset_ensures;

    if history.len() > 0 {
        let fewer = history.drop_last();
        lemma_never_staged(fewer, key);
        if let Change::MarkProcessing { ids } = history.last().0 {
            lemma_multiset_commutative(marked_in(fewer), ids);
            assert(ids.contains(key) <==> ids.to_multiset().count(key) > 0);
        }
    }
}

proof fn lemma_settled_is_staged(history: Seq<(Change, int)>, key: i64)
    requires
        last_word(history, key) is Some,
    ensures
        times_marked(history, key) > 0 || times_settled(history, key) > 0,
    decreases history.len(),
{
    broadcast use group_to_multiset_ensures;

    let fewer = history.drop_last();
    let change = history.last().0;
    if let Change::MarkProcessing { ids } = change {
        lemma_multiset_commutative(marked_in(fewer), ids);
        assert(ids.contains(key) <==> ids.to_multiset().count(key) > 0);
    } else {
        assert(settling_in(history).drop_last() =~= settling_in(fewer));
        assert(settling_in(history).last() == change);
    }
    if !concerns(change, key) {
        lemma_settled_is_staged(fewer, key);
    }
}

proof fn lemma_settles_is_settled(changes: Seq<Change>, i: int)
    requires
        0 <= i < changes.len(),
        settles(changes[i]) is Some,
    ensures
        keys_settled(changes).contains(settles(changes[i])->Some_0),
    decreases changes.len(),
{
    let key = settles(changes[i])->Some_0;
    let before = keys_settled(changes.drop_last());
    if i == changes.len() - 1 {
        assert(keys_settled(changes)[before.len() as int] == key);
    } else {
        lemma_settles_is_settled(changes.drop_last(), i);
        let k = choose|k: int| 0 <= k < before.len() && before[k] == key;
        assert(keys_settled(changes)[k] == key);
    }
}

proof fn lemma_settling_changes(run: Run, t: Tables)
    requires
        run.finished(),
        forall|i: int|
            0 <= i < run.staged().len() ==> t.items.contains_key(
                (#[trigger] run.staged()[i]).db_id,
            ),
    ensures
        forall|i: int|
            0 <= i < run.settling().len() ==> is_settling(t, #[trigger] run.settling()[i]),
{
    broadcast use group_to_multiset_ensures;

    let parts = run.write_changes();
    let written = run.written();
    settling_settles_what_was_staged(run);
    let settled = keys_settled(run.settling());
    let keys = item_keys(run.staged());
    assert forall|i: int| 0 <= i < run.settling().len() implies is_settling(
        t,
        #[trigger] run.settling()[i],
    ) by {
        let change = run.settling()[i];
        assert(concat(parts).contains(change));
        lemma_concat_contains(parts, change);
        let j = choose|j: int| 0 <= j < parts.len() && (#[trigger] parts[j]).contains(change);
        let ended = completions(written[j], run.counts[j], run.retry_limit);
        let again = retries(written[j], run.counts[j], run.retry_limit);
        assert(parts[j] == settling_changes(ended, again));
        let k = choose|k: int| 0 <= k < parts[j].len() && parts[j][k] == change;
        let order = storing_order(ended);
        if k >= order.len() {
            let at = k - order.len();
            assert(all_retry_changes(again)[at] == change);
            lemma_retry_changes(again, at);
            if let Change::RecordRetry { item_id, .. } = change {
                let reset = Change::ResetItem { item_id };
                let m = choose|m: int|
                    0 <= m < all_retry_changes(again).len() && all_retry_changes(again)[m] == reset;
                assert(parts[j][order.len() + m] == reset);
                lemma_concat_holds(parts, j, order.len() + m);
                let n = choose|n: int| 0 <= n < run.settling().len() && run.settling()[n] == reset;
                lemma_settles_is_settled(run.settling(), n);
                assert(settled.contains(item_id));
                assert(settled.to_multiset().count(item_id) > 0);
                assert(keys.contains(item_id));
                let s = choose|s: int| 0 <= s < keys.len() && keys[s] == item_id;
                assert(run.staged()[s].db_id == item_id);
            }
        }
    }
}

/// No item stays processing, as long as no write fails: in whatever order the items of a run are
/// staged and settled, where an item is settled only after it was staged, each ends as its last settling says, as done or
/// as failed or back as pending, and no other item changes. This includes items that are tried
/// again, and staged again, in the same run.
pub proof fn no_item_stays_processing(run: Run, t: Tables, history: Seq<(Change, int)>)
    requires
        run.finished(),
        marked_in(history) == item_keys(run.staged()),
        settling_in(history) == run.settling(),
        forall|n: int, key: i64|
            #![trigger times_settled(history.take(n), key)]
            0 <= n <= history.len() ==> times_settled(history.take(n), key) <= times_marked(
                history.take(n),
                key,
            ),
        forall|i: int|
            0 <= i < run.staged().len() ==> t.items.contains_key(
                (#[trigger] run.staged()[i]).db_id,
            ),
    ensures
        t.apply_all(history) is Some,
        t.apply_all(history)->Some_0.jobs == t.jobs,
        t.apply_all(history)->Some_0.items.dom() == t.items.dom(),
        forall|i: int|
            0 <= i < run.staged().len() ==> {
                let key = (#[trigger] run.staged()[i]).db_id;
                let status = t.apply_all(history)->Some_0.items[key].status;
                &&& last_word(history, key) matches Some(change) && settles(change) == Some(key)
                    && status == status_after(change)
                &&& status == "done"@ || status == "failed"@ || status == "pending"@
                &&& status != "processing"@
            },
        forall|id: i64| #[trigger]
            t.items.contains_key(id) && !item_keys(run.staged()).contains(id)
                ==> t.apply_all(history)->Some_0.items[id] == t.items[id],
{
    broadcast use group_to_multiset_ensures;

    lemma_statuses_differ();
    settling_settles_what_was_staged(run);
    lemma_settling_changes(run, t);
    lemma_history(t, history);
    let keys = item_keys(run.staged());
    let after = t.apply_all(history)->Some_0;
    assert forall|i: int| 0 <= i < run.staged().len() implies {
        let key = (#[trigger] run.staged()[i]).db_id;
        let status = after.items[key].status;
        &&& last_word(history, key) matches Some(change) && settles(change) == Some(key) && status
            == status_after(change)
        &&& status == "done"@ || status == "failed"@ || status == "pending"@
        &&& status != "processing"@
    } by {
        let key = run.staged()[i].db_id;
        assert(keys[i] == key);
        assert(keys.contains(key));
        assert(keys.to_multiset().count(key) > 0);
        assert(t.items.contains_key(key));
        if last_word(history, key) is None {
            lemma_never_staged(history, key);
        } else {
            lemma_last_word_concerns(history, key);
            if last_word(history, key)->Some_0 is MarkProcessing {
                let p = lemma_staged_last(history, key);
                assert(times_settled(history.take(p), key) <= times_marked(history.take(p), key));
            }
        }
    }
    assert forall|id: i64| #[trigger] t.items.contains_key(id) && !keys.contains(id) implies
        after.items[id] == t.items[id] by {
        assert(keys.contains(id) <==> keys.to_multiset().count(id) > 0);
        if last_word(history, id) is Some {
            lemma_settled_is_staged(history, id);
        }
    }
}

/// Where no retry is due, every item that a run over a job stages ends as the service told of its
/// entry: it is done exactly where the entry was taken, and else it failed, with the error of that
/// very entry, or of the request.
pub proof fn rows_end_as_the_service_told(job: JobRun, n: int) -> (at: (int, int))
    requires
        job.finished(),
        job.is_stored(),
        job.run.retries_nothing(),
        0 <= n < job.keys().len(),
    ensures
        ({
            let batch = job.run.batches[at.0];
            let row = job.after().items[job.keys()[n]];
            &&& 0 <= at.0 < job.run.batches.len()
            &&& 0 <= at.1 < batch.items.len()
            &&& batch.items[at.1].db_id == job.keys()[n]
            &&& row.status == "done"@ <==> entry_taken(batch, job.run.input_type, at.1)
            &&& row.status == "done"@ || row.status == "failed"@
            &&& row.status == "failed"@ ==> is_error_of(
                row.error,
                batch,
                job.run.input_type,
                at.1,
            )
        }),
{
    a_run_sends_and_ends_the_pending_items(job);
    lemma_statuses_differ();
    let key = job.keys()[n];
    let ids = ids_of(job.run.ended());
    assert(job.keys().to_set().contains(key));
    assert(ids.to_set().contains(key));
    let k = choose|k: int| 0 <= k < ids.len() && ids[k] == key;
    assert(job.run.ended()[k].id == key);
    items_end_as_the_service_told(job.run, k)
}

/// A run stages exactly as many items as are planned for it, with or without a limit.
pub proof fn as_many_are_staged_as_are_planned(job: JobRun)
    requires
        job.finished(),
    ensures
        job.keys().len() == items_to_send(
            job.before.count_pending(job.job_id) as int,
            job.run.limit,
        ),
{
    a_run_stages_the_pending_items(job);
    if job.run.limit is None {
        job.keys().unique_seq_to_set();
    }
}

} // verus!
