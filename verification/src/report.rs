//! What the commands on jobs and on the database say.

use vstd::prelude::*;
use vstd::string::*;
use vstd::set_lib::*;
use crate::chunks::concat;
use crate::database::JobModel;
use crate::tables::{firsts, Answer, Query, Tables};
use crate::text::{decimal, decimal_i64, decimal_int, decimal_u64, joined};

verus! {

broadcast use vstd::string::group_string_axioms;

/// How the start of a job is shown.
pub const STAMP_LAYOUT: &'static str = "%Y-%m-%d %H:%M:%S";

/// The text that `chrono` writes for a number of seconds since the Unix epoch, in a layout. There
/// is none for a time that it cannot hold.
pub uninterp spec fn stamp_text(seconds: i64, layout: Seq<char>) -> Option<Seq<char>>;

/// Writes a time with `chrono`'s `DateTime::<Utc>::format`, for the time that
/// `DateTime::from_timestamp` makes of the seconds. The text depends on the seconds and the layout
/// alone: no more is claimed of it. `format` fails on a layout that it does not know, so only the
/// one layout is let through.
#[verifier::external_body]
fn chrono_stamp(seconds: i64, layout: &str) -> (r: Option<String>)
    requires
        layout@ == STAMP_LAYOUT@,
    ensures
        r.deep_view() == stamp_text(seconds, layout@),
{
    sqlx::types::chrono::DateTime::<sqlx::types::chrono::Utc>::from_timestamp(seconds, 0)
        .map(|time| time.format(layout).to_string())
}

/// The line of a job in a listing, with the start of the job as `stamp`.
pub open spec fn job_line(job: JobModel, stamp: Seq<char>) -> Seq<char> {
    "["@ + stamp + "] "@ + job.name@ + " #"@ + decimal_int(job.id as int) + " (input_type: "@
        + job.configuration.input_type@ + ")"@
}

/// Writes the line of a job in a listing, with the start of the job as `stamp`.
pub fn job_line_with(job: &JobModel, stamp: &str) -> (r: String)
    ensures
        r@ == job_line(*job, stamp@),
{
    let mut r = "[".to_string();
    r.append(stamp);
    r.append("] ");
    r.append(job.name.as_str());
    r.append(" #");
    r.append(decimal_i64(job.id).as_str());
    r.append(" (input_type: ");
    r.append(job.configuration.input_type.as_str());
    r.append(")");
    r
}

/// Writes the line of a job in a listing. There is none where the start of the job is no time that
/// can be shown.
pub fn write_job_line(job: &JobModel) -> (r: Option<String>)
    ensures
        match r {
            Some(line) => {
                &&& stamp_text(job.timestamp_start, STAMP_LAYOUT@) is Some
                &&& line@ == job_line(
                    *job,
                    stamp_text(job.timestamp_start, STAMP_LAYOUT@)->Some_0,
                )
            },
            None => stamp_text(job.timestamp_start, STAMP_LAYOUT@) is None,
        },
{
    match chrono_stamp(job.timestamp_start, STAMP_LAYOUT) {
        Some(stamp) => Some(job_line_with(job, stamp.as_str())),
        None => None,
    }
}

/// All counts together.
pub open spec fn total(counts: Seq<(Seq<char>, i64)>) -> int
    decreases counts.len(),
{
    if counts.len() == 0 {
        0
    } else {
        total(counts.drop_last()) + counts.last().1
    }
}

/// Whether the counts can be added up, from the first on, without going out of range on the way.
pub open spec fn adds_up(counts: Seq<(Seq<char>, i64)>) -> bool {
    forall|k: int|
        0 <= k <= counts.len() ==> i64::MIN <= total(#[trigger] counts.take(k)) <= i64::MAX
}

/// The lines of the counts.
pub open spec fn count_lines(counts: Seq<(Seq<char>, i64)>) -> Seq<char>
    decreases counts.len(),
{
    if counts.len() == 0 {
        Seq::empty()
    } else {
        count_lines(counts.drop_last()) + counts.last().0 + ": "@ + decimal_int(
            counts.last().1 as int,
        ) + "\n"@
    }
}

/// The status of a job for the terminal.
pub open spec fn status_text(job_id: i64, counts: Seq<(Seq<char>, i64)>) -> Seq<char> {
    "Job ID: "@ + decimal_int(job_id as int) + "\nTotal Items: "@ + decimal_int(total(counts))
        + "\n\n"@ + count_lines(counts)
}

/// Adds the counts up, from the first on. There is no sum where it goes out of range on the way.
fn add_up(counts: &Vec<(String, i64)>) -> (r: Option<i64>)
    ensures
        match r {
            Some(sum) => adds_up(counts.deep_view()) && sum == total(counts.deep_view()),
            None => !adds_up(counts.deep_view()),
        },
{
    let ghost views = counts.deep_view();
    let mut sum: i64 = 0;
    let mut i: usize = 0;
    assert(views.take(0) =~= Seq::empty());
    while i < counts.len()
        invariant
            i <= counts@.len(),
            views == counts.deep_view(),
            sum == total(views.take(i as int)),
            forall|k: int|
                0 <= k <= i ==> i64::MIN <= total(#[trigger] views.take(k)) <= i64::MAX,
        decreases counts@.len() - i,
    {
        proof {
            assert(views.take(i + 1).drop_last() =~= views.take(i as int));
            assert(views.take(i + 1).last() == (counts@[i as int].0@, counts@[i as int].1));
        }
        match sum.checked_add(counts[i].1) {
            Some(more) => {
                sum = more;
            },
            None => {
                assert(!(i64::MIN <= total(views.take(i + 1)) <= i64::MAX));
                return None;
            },
        }
        i += 1;
    }
    assert(views.take(views.len() as int) =~= views);
    Some(sum)
}

/// Writes the status of a job. There is none where the total goes out of range on the way.
pub fn write_status(job_id: i64, counts: &Vec<(String, i64)>) -> (r: Option<String>)
    ensures
        match r {
            Some(text) => adds_up(counts.deep_view()) && text@ == status_text(
                job_id,
                counts.deep_view(),
            ),
            None => !adds_up(counts.deep_view()),
        },
{
    let sum: i64 = match add_up(counts) {
        Some(sum) => sum,
        None => {
            return None;
        },
    };
    let mut r = "Job ID: ".to_string();
    r.append(decimal_i64(job_id).as_str());
    r.append("\nTotal Items: ");
    r.append(decimal_i64(sum).as_str());
    r.append("\n\n");
    let ghost head = r@;
    let ghost views = counts.deep_view();
    assert(r@ =~= head + count_lines(views.take(0)));
    let mut i: usize = 0;
    while i < counts.len()
        invariant
            i <= counts@.len(),
            views == counts.deep_view(),
            r@ == head + count_lines(views.take(i as int)),
        decreases counts@.len() - i,
    {
        proof {
            assert(views.take(i + 1).drop_last() =~= views.take(i as int));
            assert(views.take(i + 1).last() == (counts@[i as int].0@, counts@[i as int].1));
        }
        r.append(counts[i].0.as_str());
        r.append(": ");
        r.append(decimal_i64(counts[i].1).as_str());
        r.append("\n");
        assert(r@ =~= head + count_lines(views.take(i + 1)));
        i += 1;
    }
    assert(views.take(views.len() as int) =~= views);
    Some(r)
}

/// What is said of a job that was loaded.
pub fn loaded_line(job_id: i64, name: &str, count: usize) -> (r: String)
    ensures
        r@ == "✓ Created job #"@ + decimal_int(job_id as int) + " '"@ + name@ + "' with "@
            + decimal(count as nat) + " items"@,
{
    let mut r = "✓ Created job #".to_string();
    r.append(decimal_i64(job_id).as_str());
    r.append(" '");
    r.append(name);
    r.append("' with ");
    r.append(decimal_u64(count as u64).as_str());
    r.append(" items");
    r
}

/// What is said of items that were reset.
pub fn reset_line(count: u64) -> (r: String)
    ensures
        r@ == "✓ Reset "@ + decimal(count as nat) + " items from 'processing' to 'pending'"@,
{
    let mut r = "✓ Reset ".to_string();
    r.append(decimal_u64(count).as_str());
    r.append(" items from 'processing' to 'pending'");
    r
}

/// What is said of a job that was made up, with or without a progress bar before it.
pub fn preloaded_line(job_id: i64, num_items: usize, show_progress: bool) -> (r: String)
    ensures
        r@ == if show_progress {
            "✓ Preloaded job "@ + decimal_int(job_id as int) + " with "@ + decimal(
                num_items as nat,
            ) + " items"@
        } else {
            "Preloaded job "@ + decimal_int(job_id as int) + " with "@ + decimal(num_items as nat)
                + " items."@
        },
{
    let mut r = if show_progress {
        "✓ Preloaded job ".to_string()
    } else {
        "Preloaded job ".to_string()
    };
    r.append(decimal_i64(job_id).as_str());
    r.append(" with ");
    r.append(decimal_u64(num_items as u64).as_str());
    if show_progress {
        r.append(" items");
    } else {
        r.append(" items.");
    }
    r
}

/// The files of the database `name`: the database itself, its log, and its shared memory.
pub open spec fn database_files(name: Seq<char>) -> Seq<Seq<char>> {
    seq![name + ".db"@, name + ".db-wal"@, name + ".db-shm"@]
}

/// The files to delete where the database `name` is cleaned up, in order.
pub fn cleanup_database(name: &str) -> (r: Vec<String>)
    ensures
        r.deep_view() == database_files(name@),
{
    let r = vec![
        joined(name, ".db"),
        joined(name, ".db-wal"),
        joined(name, ".db-shm"),
    ];
    assert(r.deep_view() =~= database_files(name@));
    r
}

/// What is said of a file that was deleted.
pub fn deleted_line(file: &str) -> (r: String)
    ensures
        r@ == "✓ Deleted "@ + file@,
{
    joined("✓ Deleted ", file)
}

/// The total is the sum of all counts: that of two lists together is the sum of both, and that of one
/// count is the count, whatever its status is called.
pub proof fn every_count_is_in_the_total(
    a: Seq<(Seq<char>, i64)>,
    b: Seq<(Seq<char>, i64)>,
    status: Seq<char>,
    n: i64,
)
    ensures
        total(a + b) == total(a) + total(b),
        total(seq![(status, n)]) == n,
    decreases b.len(),
{
    let one = seq![(status, n)];
    assert(one.drop_last() =~= Seq::empty());
    assert(total(one.drop_last()) == 0);
    if b.len() == 0 {
        assert(a + b =~= a);
    } else {
        every_count_is_in_the_total(a, b.drop_last(), status, n);
        assert((a + b).drop_last() =~= a + b.drop_last());
    }
}

/// The total does not depend on what the statuses are called.
pub proof fn names_do_not_change_the_total(a: Seq<(Seq<char>, i64)>, b: Seq<(Seq<char>, i64)>)
    requires
        a.len() == b.len(),
        forall|i: int| 0 <= i < a.len() ==> (#[trigger] a[i]).1 == b[i].1,
    ensures
        total(a) == total(b),
    decreases a.len(),
{
    if a.len() > 0 {
        let a1 = a.drop_last();
        let b1 = b.drop_last();
        assert forall|i: int| 0 <= i < a1.len() implies (#[trigger] a1[i]).1 == b1[i].1 by {
            assert(a[i].1 == b[i].1);
        }
        names_do_not_change_the_total(a1, b1);
        assert(a[a.len() - 1].1 == b[b.len() - 1].1);
    }
}

proof fn lemma_total_of_statuses(
    t: Tables,
    job_id: i64,
    counts: Seq<(Seq<char>, i64)>,
)
    requires
        t.sound(),
        firsts(counts).no_duplicates(),
        forall|i: int|
            0 <= i < counts.len() ==> (#[trigger] counts[i]).1 == t.items_with(
                Some(job_id),
                counts[i].0,
            ).len(),
    ensures
        total(counts) == t.items.dom().filter(
            |id: i64|
                t.items[id].job_id == job_id && firsts(counts).contains(t.items[id].status),
        ).len(),
    decreases counts.len(),
{
    let names = firsts(counts);
    let counted = t.items.dom().filter(
        |id: i64| t.items[id].job_id == job_id && names.contains(t.items[id].status),
    );
    if counts.len() == 0 {
        assert(counted =~= Set::empty());
    } else {
        let fewer = counts.drop_last();
        let fewer_names = firsts(fewer);
        let last = counts[counts.len() - 1];
        assert(names =~= fewer_names.push(last.0));
        assert forall|i: int| 0 <= i < fewer.len() implies (#[trigger] fewer[i]).1 == t.items_with(
            Some(job_id),
            fewer[i].0,
        ).len() by {
            assert(counts[i].1 == t.items_with(Some(job_id), counts[i].0).len());
        }
        assert forall|i: int, j: int|
            0 <= i < fewer_names.len() && 0 <= j < fewer_names.len() && i != j implies fewer_names[i]
            != fewer_names[j] by {
            assert(names[i] != names[j]);
        }
        lemma_total_of_statuses(t, job_id, fewer);
        let before = t.items.dom().filter(
            |id: i64| t.items[id].job_id == job_id && fewer_names.contains(t.items[id].status),
        );
        let with = t.items_with(Some(job_id), last.0);
        t.items.dom().lemma_len_filter(
            |id: i64| t.items[id].job_id == job_id && fewer_names.contains(t.items[id].status),
        );
        t.items.dom().lemma_len_filter(
            |id: i64|
                t.items[id].status == last.0 && (Some(job_id) is Some ==> t.items[id].job_id
                    == Some(job_id)->Some_0),
        );
        assert(!fewer_names.contains(last.0)) by {
            if fewer_names.contains(last.0) {
                let i = choose|i: int| 0 <= i < fewer_names.len() && fewer_names[i] == last.0;
                assert(names[i] == names[names.len() - 1]);
            }
        }
        assert forall|s: Seq<char>| names.contains(s) <==> fewer_names.contains(s) || s == last.0 by {
            if fewer_names.contains(s) {
                let i = choose|i: int| 0 <= i < fewer_names.len() && fewer_names[i] == s;
                assert(names[i] == s);
            }
            assert(names[names.len() - 1] == last.0);
        }
        assert(before.disjoint(with));
        assert(counted =~= before + with);
        lemma_set_disjoint_lens(before, with);
        assert(last.1 == with.len());
    }
}

/// Where the counts are what the database answers for the status of a job, the total is the number
/// of all items of the job.
pub proof fn the_total_is_the_number_of_items(
    t: Tables,
    job_id: i64,
    rows: Seq<(Seq<char>, int)>,
    counts: Seq<(Seq<char>, i64)>,
)
    requires
        t.sound(),
        t.answers(Query::JobStatus { job_id }, Answer::Statuses(rows)),
        counts.len() == rows.len(),
        forall|i: int|
            0 <= i < rows.len() ==> (#[trigger] counts[i]).0 == rows[i].0 && counts[i].1
                == rows[i].1,
    ensures
        total(counts) == t.items.dom().filter(|id: i64| t.items[id].job_id == job_id).len(),
{
    let names = firsts(counts);
    assert forall|i: int| 0 <= i < counts.len() implies (#[trigger] counts[i]).1 == t.items_with(
        Some(job_id),
        counts[i].0,
    ).len() by {
        assert(rows.contains(rows[i]));
        assert(rows.contains((rows[i].0, rows[i].1)));
    }
    assert forall|i: int, j: int|
        0 <= i < names.len() && 0 <= j < names.len() && i != j implies names[i] != names[j] by {
        assert(counts[i].0 == rows[i].0 && counts[j].0 == rows[j].0);
        assert(rows.contains(rows[i]) && rows.contains(rows[j]));
        assert(rows.contains((rows[i].0, rows[i].1)));
        assert(rows.contains((rows[j].0, rows[j].1)));
        assert(rows[i] != rows[j]);
    }
    lemma_total_of_statuses(t, job_id, counts);
    let counted = t.items.dom().filter(
        |id: i64| t.items[id].job_id == job_id && names.contains(t.items[id].status),
    );
    let all = t.items.dom().filter(|id: i64| t.items[id].job_id == job_id);
    assert forall|id: i64| all.contains(id) implies counted.contains(id) by {
        let s = t.items[id].status;
        let with = t.items_with(Some(job_id), s);
        t.items.dom().lemma_len_filter(
            |id: i64|
                t.items[id].status == s && (Some(job_id) is Some ==> t.items[id].job_id == Some(
                    job_id,
                )->Some_0),
        );
        assert(with.contains(id));
        if with.len() == 0 {
            assert(with =~= Set::empty());
        }
        let n = with.len() as int;
        assert(rows.contains((s, n)));
        let i = choose|i: int| 0 <= i < rows.len() && rows[i] == (s, n);
        assert(counts[i].0 == s);
        assert(names[i] == s);
    }
    assert(counted =~= all);
}

/// Counts add up where their total, and that of each beginning of them, is in range: so counts of
/// items add up exactly where their total does not go out of range.
pub proof fn counts_add_up_where_the_total_fits(counts: Seq<(Seq<char>, i64)>)
    ensures
        adds_up(counts) ==> i64::MIN <= total(counts) <= i64::MAX,
        (forall|i: int| 0 <= i < counts.len() ==> (#[trigger] counts[i]).1 >= 0) && total(counts)
            <= i64::MAX ==> adds_up(counts),
{
    assert(counts.take(counts.len() as int) =~= counts);
    if (forall|i: int| 0 <= i < counts.len() ==> (#[trigger] counts[i]).1 >= 0) && total(counts)
        <= i64::MAX {
        assert forall|k: int| 0 <= k <= counts.len() implies i64::MIN <= total(
            #[trigger] counts.take(k),
        ) <= i64::MAX by {
            let front = counts.take(k);
            let back = counts.skip(k);
            assert(front + back =~= counts);
            every_count_is_in_the_total(front, back, Seq::empty(), 0);
            lemma_no_negative_total(front);
            assert forall|i: int| 0 <= i < back.len() implies (#[trigger] back[i]).1 >= 0 by {
                assert(counts[k + i].1 >= 0);
            }
            lemma_no_negative_total(back);
        }
    }
}

proof fn lemma_no_negative_total(counts: Seq<(Seq<char>, i64)>)
    requires
        forall|i: int| 0 <= i < counts.len() ==> (#[trigger] counts[i]).1 >= 0,
    ensures
        total(counts) >= 0,
    decreases counts.len(),
{
    if counts.len() > 0 {
        let fewer = counts.drop_last();
        assert forall|i: int| 0 <= i < fewer.len() implies (#[trigger] fewer[i]).1 >= 0 by {
            assert(counts[i].1 >= 0);
        }
        lemma_no_negative_total(fewer);
        assert(counts[counts.len() - 1].1 >= 0);
    }
}

/// One count more adds up where the counts before it do and the new total is in range.
pub proof fn one_count_more_adds_up(counts: Seq<(Seq<char>, i64)>, more: (Seq<char>, i64))
    ensures
        adds_up(counts.push(more)) <==> adds_up(counts) && i64::MIN <= total(counts) + more.1
            <= i64::MAX,
        adds_up(Seq::empty()),
{
    let all = counts.push(more);
    assert(all.drop_last() =~= counts);
    assert(all.take(all.len() as int) =~= all);
    assert forall|k: int| 0 <= k <= counts.len() implies #[trigger] all.take(k) == counts.take(k) by {
        assert(all.take(k) =~= counts.take(k));
    }
    if adds_up(all) {
        assert forall|k: int| 0 <= k <= counts.len() implies i64::MIN <= total(
            #[trigger] counts.take(k),
        ) <= i64::MAX by {
            assert(all.take(k) == counts.take(k));
        }
        assert(i64::MIN <= total(all.take(all.len() as int)) <= i64::MAX);
    }
    if adds_up(counts) && i64::MIN <= total(counts) + more.1 <= i64::MAX {
        assert forall|k: int| 0 <= k <= all.len() implies i64::MIN <= total(#[trigger] all.take(k))
            <= i64::MAX by {
            if k <= counts.len() {
                assert(all.take(k) == counts.take(k));
                assert(i64::MIN <= total(counts.take(k)) <= i64::MAX);
            }
        }
    }
    let none = Seq::<(Seq<char>, i64)>::empty();
    assert forall|k: int| 0 <= k <= none.len() implies i64::MIN <= total(#[trigger] none.take(k))
        <= i64::MAX by {
        assert(none.take(k) =~= none);
    }
}

proof fn lemma_count_lines(counts: Seq<(Seq<char>, i64)>)
    ensures
        count_lines(counts) == concat(
            Seq::new(
                counts.len(),
                |i: int| counts[i].0 + ": "@ + decimal_int(counts[i].1 as int) + "\n"@,
            ),
        ),
    decreases counts.len(),
{
    let line = |i: int| counts[i].0 + ": "@ + decimal_int(counts[i].1 as int) + "\n"@;
    let lines = Seq::new(counts.len(), line);
    if counts.len() > 0 {
        let fewer = counts.drop_last();
        let before = Seq::new(
            fewer.len(),
            |i: int| fewer[i].0 + ": "@ + decimal_int(fewer[i].1 as int) + "\n"@,
        );
        lemma_count_lines(fewer);
        assert(lines.drop_last() =~= before);
        assert(lines.last() == line(counts.len() - 1));
        assert(count_lines(counts) =~= concat(before) + lines.last());
    } else {
        assert(concat(lines) =~= Seq::empty());
    }
}

/// The status of a job names the job and the total, and has a line for every status, in order, with
/// its own count.
pub proof fn every_status_has_its_line(job_id: i64, counts: Seq<(Seq<char>, i64)>)
    ensures
        status_text(job_id, counts) == "Job ID: "@ + decimal_int(job_id as int)
            + "\nTotal Items: "@ + decimal_int(total(counts)) + "\n\n"@ + concat(
            Seq::new(
                counts.len(),
                |i: int| counts[i].0 + ": "@ + decimal_int(counts[i].1 as int) + "\n"@,
            ),
        ),
{
    lemma_count_lines(counts);
}

/// The line of a job can be read back: it holds the start of the job, its name, its key and its
/// input type, in this order, and nothing else but what stands between them.
pub proof fn a_job_is_read_back_from_its_line(job: JobModel, stamp: Seq<char>)
    ensures
        ({
            let line = job_line(job, stamp);
            let id = decimal_int(job.id as int);
            let kind = job.configuration.input_type@;
            let at_name = stamp.len() as int + 3;
            let at_id = at_name + job.name@.len() + 2;
            let at_kind = at_id + id.len() + 14;
            &&& line[0] == '['
            &&& line.subrange(1, at_name - 2) == stamp
            &&& line.subrange(at_name - 2, at_name) == "] "@
            &&& line.subrange(at_name, at_id - 2) == job.name@
            &&& line.subrange(at_id - 2, at_id) == " #"@
            &&& line.subrange(at_id, at_kind - 14) == id
            &&& line.subrange(at_kind - 14, at_kind) == " (input_type: "@
            &&& line.subrange(at_kind, line.len() - 1) == kind
            &&& line.last() == ')'
        }),
{
    reveal_strlit("[");
    reveal_strlit("] ");
    reveal_strlit(" #");
    reveal_strlit(" (input_type: ");
    reveal_strlit(")");
    let line = job_line(job, stamp);
    let id = decimal_int(job.id as int);
    let kind = job.configuration.input_type@;
    let at_name = stamp.len() as int + 3;
    let at_id = at_name + job.name@.len() + 2;
    let at_kind = at_id + id.len() + 14;
    assert(line.len() == at_kind + kind.len() + 1);
    assert(line.subrange(1, at_name - 2) =~= stamp);
    assert(line.subrange(at_name - 2, at_name) =~= "] "@);
    assert(line.subrange(at_name, at_id - 2) =~= job.name@);
    assert(line.subrange(at_id - 2, at_id) =~= " #"@);
    assert(line.subrange(at_id, at_kind - 14) =~= id);
    assert(line.subrange(at_kind - 14, at_kind) =~= " (input_type: "@);
    assert(line.subrange(at_kind, line.len() - 1) =~= kind);
}

/// The files of a database are three: the one under its name, and its log and its shared memory
/// beside it.
pub proof fn a_database_has_three_files(name: Seq<char>, file: Seq<char>)
    ensures
        database_files(name).len() == 3,
        database_files(name)[0] == name + ".db"@,
        database_files(name).contains(file) <==> file == name + ".db"@ || file == name
            + ".db-wal"@ || file == name + ".db-shm"@,
{
    let files = database_files(name);
    assert(files[1] == name + ".db-wal"@);
    assert(files[2] == name + ".db-shm"@);
}

/// Times are shown by the day and to the second.
pub proof fn times_are_shown_to_the_second()
    ensures
        STAMP_LAYOUT@ == "%Y-%m-%d %H:%M:%S"@,
{
}

} // verus!
