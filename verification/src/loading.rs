//! Filling a job: lines that are read in, and items that are made up.

use vstd::prelude::*;
use vstd::string::*;
use crate::chunks::{batching_keeps_everything, chunk_run, chunk_step, concat, is_chunking};
use crate::database::{insertion, Database};
use crate::json::{lemma_member_at, member, Json, JsonView};
use crate::statement::Statement;
use crate::text::{blank, decimal, decimal_u64, is_blank};

verus! {

broadcast use vstd::string::group_string_axioms;

/// As many lines as are inserted at once.
pub const LOAD_BATCH_SIZE: usize = 1000;

/// As many made-up items as are inserted at once.
pub const SEED_BATCH_SIZE: usize = 10_000;

/// The state of a [`LineLoader`].
pub struct LineView {
    /// The items that wait to be inserted.
    pub held: Seq<JsonView>,
    /// How many items there were.
    pub count: nat,
}

impl LineView {
    /// Nothing has been read.
    pub open spec fn start() -> LineView {
        LineView { held: Seq::empty(), count: 0 }
    }

    /// What waits would not fill a batch.
    pub open spec fn wf(self) -> bool {
        self.held.len() < LOAD_BATCH_SIZE
    }

    /// What a line leads to. A blank line is passed over; any other is an item as it stands.
    pub open spec fn step(self, line: Seq<char>) -> (LineView, Option<Seq<JsonView>>) {
        if is_blank(line) {
            (self, None)
        } else {
            let (full, held) = chunk_step(self.held, LOAD_BATCH_SIZE as nat, JsonView::Text(line));
            (LineView { held, count: self.count + 1 }, full)
        }
    }
}

/// Turns lines into batches of items.
pub struct LineLoader {
    held: Vec<Json>,
    count: usize,
}

impl View for LineLoader {
    type V = LineView;

    closed spec fn view(&self) -> LineView {
        LineView { held: self.held.deep_view(), count: self.count as nat }
    }
}

impl LineLoader {
    /// Starts with nothing read.
    pub fn new() -> (r: Self)
        ensures
            r@ == LineView::start(),
            r@.wf(),
    {
        let r = LineLoader { held: Vec::new(), count: 0 };
        assert(r@.held =~= Seq::empty());
        r
    }

    /// How many items there were.
    pub fn count(&self) -> (r: usize)
        ensures
            r == self@.count,
    {
        self.count
    }

    /// Takes a line in. Hands a batch out when it is full.
    pub fn line(&mut self, line: String) -> (r: Option<Vec<Json>>)
        requires
            old(self)@.wf(),
            old(self)@.count < usize::MAX,
        ensures
            final(self)@.wf(),
            (final(self)@, r.deep_view()) == old(self)@.step(line@),
    {
        if blank(line.as_str()) {
            return None;
        }
        self.held.push(Json::Text(line));
        self.count = self.count + 1;
        assert(self@.held =~= old(self)@.held.push(JsonView::Text(line@)));
        if self.held.len() >= LOAD_BATCH_SIZE {
            let mut batch: Vec<Json> = Vec::new();
            batch.append(&mut self.held);
            assert(batch.deep_view() =~= old(self)@.held.push(JsonView::Text(line@)));
            assert(self@.held =~= Seq::empty());
            Some(batch)
        } else {
            None
        }
    }

    /// Hands out what is left.
    pub fn finish(self) -> (r: Vec<Json>)
        ensures
            r.deep_view() == self@.held,
    {
        self.held
    }
}

/// The items that stand in lines: one for each line that is not blank, as it stands.
pub open spec fn line_items(lines: Seq<Seq<char>>) -> Seq<JsonView>
    decreases lines.len(),
{
    if lines.len() == 0 {
        Seq::empty()
    } else if is_blank(lines.last()) {
        line_items(lines.drop_last())
    } else {
        line_items(lines.drop_last()).push(JsonView::Text(lines.last()))
    }
}

/// The state of the loader after `lines`, and the batches that it handed out on the way.
pub open spec fn line_run(lines: Seq<Seq<char>>) -> (LineView, Seq<Seq<JsonView>>)
    decreases lines.len(),
{
    if lines.len() == 0 {
        (LineView::start(), Seq::empty())
    } else {
        let (state, batches) = line_run(lines.drop_last());
        match state.step(lines.last()) {
            (after, Some(batch)) => (after, batches.push(batch)),
            (after, None) => (after, batches),
        }
    }
}

proof fn lemma_line_run_is_chunk_run(lines: Seq<Seq<char>>)
    ensures
        line_run(lines).1 == chunk_run(LOAD_BATCH_SIZE as nat, line_items(lines)).0,
        line_run(lines).0.held == chunk_run(LOAD_BATCH_SIZE as nat, line_items(lines)).1,
        line_run(lines).0.count == line_items(lines).len(),
    decreases lines.len(),
{
    if lines.len() > 0 {
        let fewer = lines.drop_last();
        lemma_line_run_is_chunk_run(fewer);
        if !is_blank(lines.last()) {
            assert(line_items(lines).drop_last() =~= line_items(fewer));
        }
    }
}

/// Every line that is not blank becomes an item, in order and as it stands: the batches and what
/// is left, one after the other, hold exactly those lines. They are counted, and every batch is
/// full.
pub proof fn every_line_is_loaded(lines: Seq<Seq<char>>)
    ensures
        concat(line_run(lines).1) + line_run(lines).0.held == line_items(lines),
        line_run(lines).0.count == line_items(lines).len(),
        line_run(lines).0.wf(),
        forall|k: int|
            0 <= k < line_run(lines).1.len() ==> (#[trigger] line_run(lines).1[k]).len()
                == LOAD_BATCH_SIZE,
{
    lemma_line_run_is_chunk_run(lines);
    batching_keeps_everything(LOAD_BATCH_SIZE as nat, line_items(lines));
}

/// The made-up item with number `j`.
pub open spec fn seed_item(j: nat) -> JsonView {
    JsonView::Object(
        seq![
            ("index"@, JsonView::Unsigned(j as u64)),
            ("data"@, JsonView::Text("item_"@ + decimal(j))),
        ],
    )
}

/// The made-up items from number `start` up to `end`.
pub open spec fn seed_items(start: nat, end: nat) -> Seq<JsonView> {
    Seq::new((end - start) as nat, |k: int| seed_item((start + k) as nat))
}

/// Where the batch ends that starts at `start`.
pub open spec fn seed_end(start: nat, total: nat) -> nat {
    if total - start > SEED_BATCH_SIZE {
        (start + SEED_BATCH_SIZE) as nat
    } else {
        total
    }
}

/// Makes an item up.
pub fn make_seed(j: usize) -> (r: Json)
    ensures
        r@ == seed_item(j as nat),
{
    let mut data = "item_".to_string();
    data.append(decimal_u64(j as u64).as_str());
    let members = vec![
        ("index".to_string(), Json::Unsigned(j as u64)),
        ("data".to_string(), Json::Text(data)),
    ];
    assert(members.deep_view() =~= seed_item(j as nat)->Object_0);
    Json::object(members)
}

impl Database {
    /// Makes the next batch of made-up items up: from number `start` on, of `total` items. Says where
    /// the batch ends, and how it is inserted. There is none where all have been made.
    pub fn preload_db(job_id: i64, start: usize, total: usize) -> (r: Option<(usize, Statement)>)
        ensures
            match r {
                Some((end, statement)) => {
                    &&& start < total
                    &&& end == seed_end(start as nat, total as nat)
                    &&& statement@ == insertion(job_id, seed_items(start as nat, end as nat))
                },
                None => start >= total,
            },
    {
        if start >= total {
            return None;
        }
        let end: usize = if total - start > SEED_BATCH_SIZE {
            start + SEED_BATCH_SIZE
        } else {
            total
        };
        let mut items: Vec<Json> = Vec::new();
        let mut j: usize = start;
        while j < end
            invariant
                start <= j <= end,
                items@.len() == j - start,
                forall|k: int|
                    0 <= k < j - start ==> (#[trigger] items@[k])@ == seed_item((start + k) as nat),
            decreases end - j,
        {
            items.push(make_seed(j));
            j += 1;
        }
        assert(items.deep_view() =~= seed_items(start as nat, end as nat));
        match Self::insert_job_items_batch(job_id, &items) {
            Some(statement) => Some((end, statement)),
            None => None,
        }
    }
}

/// The batches of made-up items from number `start` on, of `total` items.
pub open spec fn seed_run(start: nat, total: nat) -> Seq<Seq<JsonView>>
    decreases total - start,
{
    if start >= total {
        Seq::empty()
    } else {
        let end = seed_end(start, total);
        seq![seed_items(start, end)] + seed_run(end, total)
    }
}

proof fn lemma_concat_front<T>(part: Seq<T>, parts: Seq<Seq<T>>)
    ensures
        concat(seq![part] + parts) == part + concat(parts),
    decreases parts.len(),
{
    let all = seq![part] + parts;
    if parts.len() == 0 {
        assert(all.drop_last() =~= Seq::empty());
        assert(concat(all.drop_last()) =~= Seq::empty());
        assert(concat(all) =~= part + concat(parts));
    } else {
        lemma_concat_front(part, parts.drop_last());
        assert(all.drop_last() =~= seq![part] + parts.drop_last());
        assert(concat(all) =~= part + concat(parts));
    }
}

/// The batches that are made up hold every number from zero on exactly once, in order.
pub proof fn seeding_covers_every_number(start: nat, total: nat)
    requires
        start <= total,
    ensures
        concat(seed_run(start, total)) == seed_items(start, total),
        forall|k: int|
            0 <= k < seed_run(start, total).len() ==> 0 < (#[trigger] seed_run(start, total)[k]).len()
                <= SEED_BATCH_SIZE,
    decreases total - start,
{
    if start >= total {
        assert(concat(seed_run(start, total)) =~= seed_items(start, total));
    } else {
        let end = seed_end(start, total);
        seeding_covers_every_number(end, total);
        lemma_concat_front(seed_items(start, end), seed_run(end, total));
        assert(seed_items(start, end) + seed_items(end, total) =~= seed_items(start, total));
        let run = seed_run(start, total);
        assert forall|k: int| 0 <= k < run.len() implies 0 < (#[trigger] run[k]).len()
            <= SEED_BATCH_SIZE by {
            if k > 0 {
                assert(run[k] == seed_run(end, total)[k - 1]);
            }
        }
    }
}

/// The items that stand in lines are the lines that are not blank, in order and as they stand.
pub proof fn lines_that_are_not_blank_are_items(lines: Seq<Seq<char>>)
    ensures
        line_items(lines) == lines.filter(|line: Seq<char>| !is_blank(line)).map_values(
            |line: Seq<char>| JsonView::Text(line),
        ),
    decreases lines.len(),
{
    reveal(Seq::filter);
    let kept = lines.filter(|line: Seq<char>| !is_blank(line));
    if lines.len() > 0 {
        lines_that_are_not_blank_are_items(lines.drop_last());
    }
    assert(line_items(lines) =~= kept.map_values(|line: Seq<char>| JsonView::Text(line)));
}

/// Lines are inserted a thousand at a time: a line that is not blank waits, or fills the batch up.
pub proof fn lines_wait_until_a_thousand_are_there(state: LineView, line: Seq<char>)
    requires
        state.wf(),
    ensures
        is_blank(line) ==> state.step(line) == (state, None::<Seq<JsonView>>),
        !is_blank(line) ==> {
            let (after, batch) = state.step(line);
            let held = state.held.push(JsonView::Text(line));
            &&& after.count == state.count + 1
            &&& held.len() < 1000 ==> batch is None && after.held == held
            &&& held.len() == 1000 ==> batch == Some(held) && after.held.len() == 0
        },
{
}

/// A made-up item holds its number, and a text that ends with it.
pub proof fn a_made_up_item_holds_its_number(j: nat)
    requires
        j <= u64::MAX,
    ensures
        seed_item(j) matches JsonView::Object(members) && {
            &&& members.len() == 2
            &&& member(members, "index"@) == Some(JsonView::Unsigned(j as u64))
            &&& member(members, "data"@) == Some(JsonView::Text("item_"@ + decimal(j)))
        },
{
    reveal_strlit("index");
    reveal_strlit("data");
    assert("index"@.len() == 5 && "data"@.len() == 4);
    let members = seed_item(j)->Object_0;
    lemma_member_at(members, 0);
    lemma_member_at(members, 1);
}

/// Made-up items are numbered one by one, from the first number on up to the last.
pub proof fn made_up_items_are_numbered(start: nat, end: nat)
    requires
        start <= end,
    ensures
        seed_items(start, end).len() == end - start,
        forall|k: int|
            0 <= k < end - start ==> #[trigger] seed_items(start, end)[k] == seed_item(
                (start + k) as nat,
            ),
{
}

/// Made-up items are inserted ten thousand at a time: every batch is full but the last, which holds
/// the rest.
pub proof fn made_up_items_come_in_full_batches(start: nat, total: nat)
    requires
        start <= total,
    ensures
        is_chunking(seed_run(start, total), seed_items(start, total), 10000),
    decreases total - start,
{
    seeding_covers_every_number(start, total);
    if start < total {
        let end = seed_end(start, total);
        made_up_items_come_in_full_batches(end, total);
        let run = seed_run(start, total);
        let rest = seed_run(end, total);
        assert forall|k: int| 0 <= k < run.len() - 1 implies (#[trigger] run[k]).len() == 10000 by {
            if k > 0 {
                assert(run[k] == rest[k - 1]);
            } else {
                assert(rest.len() > 0);
            }
        }
    }
}

} // verus!
