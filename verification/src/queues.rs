//! Listing queues, and what is said of a queue that is missing.

use vstd::prelude::*;
use vstd::string::*;
use crate::chunks::concat;
use crate::failure::{queue_missing, says_queue_missing, SdkFailure};
use crate::text::{
    a_longer_text_holds_as_much, a_text_stands_between_others, contains_text, decimal, decimal_u64,
    last_segment, last_segment_of,
};

verus! {

broadcast use vstd::string::group_string_axioms;

/// How to create a queue.
pub const CREATE_QUEUE: &'static str = "  aws sqs create-queue --queue-name <your-queue-name>";

/// How to create a queue for local development.
pub const CREATE_LOCAL_QUEUE: &'static str = "  aws --endpoint-url=http://localhost:4566 sqs create-queue --queue-name <your-queue-name>";

/// One page of a listing.
#[derive(Debug)]
pub struct QueuePage {
    pub queue_urls: Option<Vec<String>>,
    /// Where the next page starts, if there is one.
    pub next_token: Option<String>,
}

/// What a [`QueuePage`] stands for.
pub struct PageView {
    pub queue_urls: Seq<Seq<char>>,
    pub next_token: Option<Seq<char>>,
}

impl View for QueuePage {
    type V = PageView;

    open spec fn view(&self) -> PageView {
        PageView {
            queue_urls: match self.queue_urls {
                Some(urls) => urls.deep_view(),
                None => Seq::empty(),
            },
            next_token: self.next_token.deep_view(),
        }
    }
}

/// The queues of a listing after one more page.
pub open spec fn with_page(queues: Seq<Seq<char>>, page: PageView) -> Seq<Seq<char>> {
    queues + page.queue_urls
}

/// A listing of queues, page by page.
#[derive(Debug)]
pub struct QueueListing {
    queues: Vec<String>,
}

impl View for QueueListing {
    type V = Seq<Seq<char>>;

    closed spec fn view(&self) -> Seq<Seq<char>> {
        self.queues.deep_view()
    }
}

impl QueueListing {
    /// Starts with no queue.
    pub fn new() -> (r: Self)
        ensures
            r@ == Seq::<Seq<char>>::empty(),
    {
        let r = QueueListing { queues: Vec::new() };
        assert(r@ =~= Seq::empty());
        r
    }

    /// Takes a page in. Says where the next page starts, if there is one.
    pub fn page(&mut self, page: QueuePage) -> (r: Option<String>)
        ensures
            final(self)@ == with_page(old(self)@, page@),
            r.deep_view() == page@.next_token,
    {
        if let Some(urls) = page.queue_urls {
            let mut urls = urls;
            self.queues.append(&mut urls);
        }
        assert(self@ =~= old(self)@ + page@.queue_urls);
        page.next_token
    }

    /// The queues of all pages.
    pub fn finish(self) -> (r: Vec<String>)
        ensures
            r.deep_view() == self@,
    {
        self.queues
    }
}

/// The queues that a listing holds once it has reached the end of `pages`.
pub open spec fn listed(pages: Seq<PageView>) -> Seq<Seq<char>>
    decreases pages.len(),
{
    if pages.len() == 0 {
        Seq::empty()
    } else {
        with_page(listed(pages.drop_last()), pages.last())
    }
}

/// How many queues stand on `pages`.
pub open spec fn queue_count(pages: Seq<PageView>) -> nat
    decreases pages.len(),
{
    if pages.len() == 0 {
        0
    } else {
        queue_count(pages.drop_last()) + pages.last().queue_urls.len()
    }
}

/// A listing holds every queue of every page, however many pages there are.
pub proof fn listing_holds_every_queue(pages: Seq<PageView>)
    ensures
        listed(pages).len() == queue_count(pages),
        forall|p: int, i: int|
            0 <= p < pages.len() && 0 <= i < pages[p].queue_urls.len() ==> listed(pages).contains(
                #[trigger] pages[p].queue_urls[i],
            ),
    decreases pages.len(),
{
    if pages.len() > 0 {
        let fewer = pages.drop_last();
        listing_holds_every_queue(fewer);
        let before = listed(fewer);
        let all = listed(pages);
        assert forall|p: int, i: int|
            0 <= p < pages.len() && 0 <= i < pages[p].queue_urls.len() implies all.contains(
            #[trigger] pages[p].queue_urls[i],
        ) by {
            if p == pages.len() - 1 {
                assert(all[before.len() + i] == pages[p].queue_urls[i]);
            } else {
                let url = fewer[p].queue_urls[i];
                assert(before.contains(url));
                let k = choose|k: int| 0 <= k < before.len() && before[k] == url;
                assert(all[k] == url);
            }
        }
    }
}

/// The line of a queue in a listing, with its number.
pub open spec fn listing_row(n: nat, url: Seq<char>) -> Seq<char> {
    "│ "@ + decimal(n) + ". "@ + last_segment(url) + "\n│    "@ + url + "\n"@
}

/// The lines of all queues.
pub open spec fn listing_rows(urls: Seq<Seq<char>>) -> Seq<char>
    decreases urls.len(),
{
    if urls.len() == 0 {
        Seq::empty()
    } else if urls.len() == 1 {
        listing_row(1, urls[0])
    } else {
        listing_rows(urls.drop_last()) + "│\n"@ + listing_row(urls.len(), urls.last())
    }
}

/// A listing of queues for the terminal.
pub open spec fn listing_text(urls: Seq<Seq<char>>) -> Seq<char> {
    if urls.len() == 0 {
        "No queues found.\n\nTo create a new queue, use the AWS CLI:\n"@ + CREATE_QUEUE@
            + "\n\nOr with LocalStack:\n"@ + CREATE_LOCAL_QUEUE@ + "\n"@
    } else {
        "┌─────────────────────────────────────────────────────────────────┐\n"@
            + "│ Available SQS Queues                                            │\n"@
            + "├─────────────────────────────────────────────────────────────────┤\n"@
            + listing_rows(urls)
            + "└─────────────────────────────────────────────────────────────────┘\n"@
            + "\nTotal: "@ + decimal(urls.len()) + " queue(s)\n"@
    }
}

fn write_row(r: &mut String, n: u64, url: &str)
    ensures
        final(r)@ == old(r)@ + listing_row(n as nat, url@),
{
    r.append("│ ");
    r.append(decimal_u64(n).as_str());
    r.append(". ");
    r.append(last_segment_of(url).as_str());
    r.append("\n│    ");
    r.append(url);
    r.append("\n");
    assert(r@ =~= old(r)@ + listing_row(n as nat, url@));
}

fn write_rows(urls: &Vec<String>) -> (r: String)
    ensures
        r@ == listing_rows(urls.deep_view()),
{
    let ghost views = urls.deep_view();
    let mut r = String::new();
    let total: usize = urls.len();
    let mut i: usize = 0;
    assert(r@ =~= listing_rows(views.take(0)));
    while i < total
        invariant
            i <= total,
            total == urls@.len(),
            views == urls.deep_view(),
            r@ == listing_rows(views.take(i as int)),
        decreases total - i,
    {
        let ghost before = r@;
        proof {
            assert(views.take(i + 1).drop_last() =~= views.take(i as int));
            assert(views.take(i + 1).last() == urls@[i as int]@);
        }
        if i > 0 {
            r.append("│\n");
        }
        write_row(&mut r, i as u64 + 1, urls[i].as_str());
        assert(r@ =~= listing_rows(views.take(i + 1)));
        i += 1;
    }
    assert(views.take(views.len() as int) =~= views);
    r
}

/// Lists queues for the terminal.
pub fn render_queues(urls: &Vec<String>) -> (r: String)
    ensures
        r@ == listing_text(urls.deep_view()),
{
    let mut r = String::new();
    if urls.len() == 0 {
        r.append("No queues found.\n\nTo create a new queue, use the AWS CLI:\n");
        r.append(CREATE_QUEUE);
        r.append("\n\nOr with LocalStack:\n");
        r.append(CREATE_LOCAL_QUEUE);
        r.append("\n");
    } else {
        r.append("┌─────────────────────────────────────────────────────────────────┐\n");
        r.append("│ Available SQS Queues                                            │\n");
        r.append("├─────────────────────────────────────────────────────────────────┤\n");
        r.append(write_rows(urls).as_str());
        r.append("└─────────────────────────────────────────────────────────────────┘\n");
        r.append("\nTotal: ");
        r.append(decimal_u64(urls.len() as u64).as_str());
        r.append(" queue(s)\n");
    }
    assert(r@ =~= listing_text(urls.deep_view()));
    r
}

/// The queues that could have been meant, each under its number.
pub open spec fn suggestions(urls: Seq<Seq<char>>) -> Seq<char>
    decreases urls.len(),
{
    if urls.len() == 0 {
        Seq::empty()
    } else {
        suggestions(urls.drop_last()) + "  "@ + decimal(urls.len()) + ". "@ + last_segment(
            urls.last(),
        ) + " \n     "@ + urls.last() + "\n"@
    }
}

/// What is said of a queue that is missing.
pub open spec fn missing_queue_text(
    queue_url: Seq<char>,
    available: Seq<Seq<char>>,
) -> Seq<char> {
    "Queue not found: "@ + queue_url + "\n\n"@ + if available.len() == 0 {
        "No queues are currently available.\n\nTo create a new queue, you can use the AWS CLI:\n"@
            + CREATE_QUEUE@ + "\n\nOr with LocalStack:\n"@ + CREATE_LOCAL_QUEUE@
    } else {
        "Available queues:\n"@ + suggestions(available)
            + "\nTo create a new queue, use the AWS CLI:\n"@ + CREATE_QUEUE@
    }
}

fn write_suggestions(urls: &Vec<String>) -> (r: String)
    ensures
        r@ == suggestions(urls.deep_view()),
{
    let ghost views = urls.deep_view();
    let mut r = String::new();
    let total: usize = urls.len();
    let mut i: usize = 0;
    assert(r@ =~= suggestions(views.take(0)));
    while i < total
        invariant
            i <= total,
            total == urls@.len(),
            views == urls.deep_view(),
            r@ == suggestions(views.take(i as int)),
        decreases total - i,
    {
        proof {
            assert(views.take(i + 1).drop_last() =~= views.take(i as int));
            assert(views.take(i + 1).last() == urls@[i as int]@);
        }
        r.append("  ");
        r.append(decimal_u64(i as u64 + 1).as_str());
        r.append(". ");
        r.append(last_segment_of(urls[i].as_str()).as_str());
        r.append(" \n     ");
        r.append(urls[i].as_str());
        r.append("\n");
        i += 1;
    }
    assert(views.take(views.len() as int) =~= views);
    r
}

/// Says that a queue is missing, and which queues there are.
pub fn missing_queue_message(queue_url: &str, available: &Vec<String>) -> (r: String)
    ensures
        r@ == missing_queue_text(queue_url@, available.deep_view()),
{
    let mut r = "Queue not found: ".to_string();
    r.append(queue_url);
    r.append("\n\n");
    if available.len() == 0 {
        r.append(
            "No queues are currently available.\n\nTo create a new queue, you can use the AWS CLI:\n",
        );
        r.append(CREATE_QUEUE);
        r.append("\n\nOr with LocalStack:\n");
        r.append(CREATE_LOCAL_QUEUE);
    } else {
        r.append("Available queues:\n");
        r.append(write_suggestions(available).as_str());
        r.append("\nTo create a new queue, use the AWS CLI:\n");
        r.append(CREATE_QUEUE);
    }
    assert(r@ =~= missing_queue_text(queue_url@, available.deep_view()));
    r
}

/// What follows from asking for the attributes of a queue.
#[derive(Debug)]
pub enum QueueCheck {
    /// The queue is there.
    Exists,
    /// The queue is missing: the queues that are there are to be listed.
    Missing,
    /// It could not be found out.
    Failed(String),
}

/// Tells whether a queue is there from how the request for its attributes failed, if it did.
/// `account` is the client's account of the failure.
pub fn verify_queue_exists(failure: &Option<SdkFailure>, account: &str) -> (r: QueueCheck)
    ensures
        match r {
            QueueCheck::Exists => failure is None,
            QueueCheck::Missing => failure is Some && says_queue_missing(failure->Some_0),
            QueueCheck::Failed(message) => {
                &&& failure is Some
                &&& !says_queue_missing(failure->Some_0)
                &&& message@ == "Failed to verify queue: "@ + account@
            },
        },
{
    match failure {
        None => QueueCheck::Exists,
        Some(e) => if queue_missing(e) {
            QueueCheck::Missing
        } else {
            let mut message = "Failed to verify queue: ".to_string();
            message.append(account);
            QueueCheck::Failed(message)
        },
    }
}

/// A listing is the queues of all pages, in order.
pub proof fn a_listing_is_its_pages_put_together(pages: Seq<PageView>)
    ensures
        listed(pages) == concat(pages.map_values(|page: PageView| page.queue_urls)),
    decreases pages.len(),
{
    let parts = pages.map_values(|page: PageView| page.queue_urls);
    if pages.len() > 0 {
        a_listing_is_its_pages_put_together(pages.drop_last());
        assert(parts.drop_last() =~= pages.drop_last().map_values(
            |page: PageView| page.queue_urls,
        ));
    } else {
        assert(concat(parts) =~= Seq::empty());
    }
}

proof fn lemma_listing_rows(urls: Seq<Seq<char>>)
    ensures
        listing_rows(urls) == concat(
            Seq::new(
                urls.len(),
                |i: int|
                    (if i == 0 {
                        Seq::empty()
                    } else {
                        "│\n"@
                    }) + "│ "@ + decimal((i + 1) as nat) + ". "@ + last_segment(urls[i])
                        + "\n│    "@ + urls[i] + "\n"@,
            ),
        ),
    decreases urls.len(),
{
    let row = |i: int|
        (if i == 0 {
            Seq::empty()
        } else {
            "│\n"@
        }) + "│ "@ + decimal((i + 1) as nat) + ". "@ + last_segment(urls[i]) + "\n│    "@ + urls[i]
            + "\n"@;
    let rows = Seq::new(urls.len(), row);
    if urls.len() > 0 {
        let fewer = urls.drop_last();
        let before = Seq::new(
            fewer.len(),
            |i: int|
                (if i == 0 {
                    Seq::empty()
                } else {
                    "│\n"@
                }) + "│ "@ + decimal((i + 1) as nat) + ". "@ + last_segment(fewer[i])
                    + "\n│    "@ + fewer[i] + "\n"@,
        );
        lemma_listing_rows(fewer);
        assert(rows.drop_last() =~= before);
        assert(rows.last() == row(urls.len() - 1));
        if urls.len() == 1 {
            assert(concat(before) =~= Seq::empty());
        }
        assert(listing_rows(urls) =~= concat(before) + rows.last());
    } else {
        assert(concat(rows) =~= Seq::empty());
    }
}

/// Every queue has its row in a listing: as many rows as queues, in order, each with its number from
/// one on, the name of the queue and its URL. The number at the end is that of all queues.
pub proof fn every_queue_has_its_row(urls: Seq<Seq<char>>)
    requires
        urls.len() > 0,
    ensures
        listing_text(urls)
            == "┌─────────────────────────────────────────────────────────────────┐\n"@
            + "│ Available SQS Queues                                            │\n"@
            + "├─────────────────────────────────────────────────────────────────┤\n"@ + concat(
            Seq::new(
                urls.len(),
                |i: int|
                    (if i == 0 {
                        Seq::empty()
                    } else {
                        "│\n"@
                    }) + "│ "@ + decimal((i + 1) as nat) + ". "@ + last_segment(urls[i])
                        + "\n│    "@ + urls[i] + "\n"@,
            ),
        ) + "└─────────────────────────────────────────────────────────────────┘\n"@ + "\nTotal: "@
            + decimal(urls.len()) + " queue(s)\n"@,
{
    lemma_listing_rows(urls);
}

proof fn lemma_row_is_there(urls: Seq<Seq<char>>, i: int)
    requires
        0 <= i < urls.len(),
    ensures
        contains_text(
            listing_rows(urls),
            "│ "@ + decimal((i + 1) as nat) + ". "@ + last_segment(urls[i]) + "\n│    "@ + urls[i]
                + "\n"@,
        ),
    decreases urls.len(),
{
    let shown = "│ "@ + decimal((i + 1) as nat) + ". "@ + last_segment(urls[i]) + "\n│    "@
        + urls[i] + "\n"@;
    let fewer = urls.drop_last();
    if i < fewer.len() {
        assert(fewer[i] == urls[i]);
        lemma_row_is_there(fewer, i);
        a_longer_text_holds_as_much(listing_rows(fewer), "│\n"@, shown);
        a_longer_text_holds_as_much(
            listing_rows(fewer) + "│\n"@,
            listing_row(urls.len(), urls.last()),
            shown,
        );
    } else {
        let none = Seq::<char>::empty();
        a_text_stands_between_others(none, shown, none);
        assert(none + shown + none =~= shown);
        assert(listing_row(urls.len(), urls.last()) == shown);
        if urls.len() > 1 {
            a_longer_text_holds_as_much(shown, listing_rows(fewer) + "│\n"@, shown);
        }
    }
}

/// Every queue can be found in a listing, with its number, its name and its URL, however many there
/// are.
pub proof fn every_queue_is_found_in_the_listing(urls: Seq<Seq<char>>, i: int)
    requires
        0 <= i < urls.len(),
    ensures
        contains_text(
            listing_text(urls),
            "│ "@ + decimal((i + 1) as nat) + ". "@ + last_segment(urls[i]) + "\n│    "@ + urls[i]
                + "\n"@,
        ),
{
    let shown = "│ "@ + decimal((i + 1) as nat) + ". "@ + last_segment(urls[i]) + "\n│    "@
        + urls[i] + "\n"@;
    lemma_row_is_there(urls, i);
    let head = "┌─────────────────────────────────────────────────────────────────┐\n"@
        + "│ Available SQS Queues                                            │\n"@
        + "├─────────────────────────────────────────────────────────────────┤\n"@;
    let foot = "└─────────────────────────────────────────────────────────────────┘\n"@;
    let rows = listing_rows(urls);
    a_longer_text_holds_as_much(rows, head, shown);
    a_longer_text_holds_as_much(head + rows, foot, shown);
    a_longer_text_holds_as_much(head + rows + foot, "\nTotal: "@, shown);
    a_longer_text_holds_as_much(
        head + rows + foot + "\nTotal: "@,
        decimal(urls.len()),
        shown,
    );
    a_longer_text_holds_as_much(
        head + rows + foot + "\nTotal: "@ + decimal(urls.len()),
        " queue(s)\n"@,
        shown,
    );
}

proof fn lemma_suggestions(urls: Seq<Seq<char>>)
    ensures
        suggestions(urls) == concat(
            Seq::new(
                urls.len(),
                |i: int|
                    "  "@ + decimal((i + 1) as nat) + ". "@ + last_segment(urls[i]) + " \n     "@
                        + urls[i] + "\n"@,
            ),
        ),
    decreases urls.len(),
{
    let row = |i: int|
        "  "@ + decimal((i + 1) as nat) + ". "@ + last_segment(urls[i]) + " \n     "@ + urls[i]
            + "\n"@;
    let rows = Seq::new(urls.len(), row);
    if urls.len() > 0 {
        let fewer = urls.drop_last();
        let before = Seq::new(
            fewer.len(),
            |i: int|
                "  "@ + decimal((i + 1) as nat) + ". "@ + last_segment(fewer[i]) + " \n     "@
                    + fewer[i] + "\n"@,
        );
        lemma_suggestions(fewer);
        assert(rows.drop_last() =~= before);
        assert(rows.last() == row(urls.len() - 1));
        assert(suggestions(urls) =~= concat(before) + rows.last());
    } else {
        assert(concat(rows) =~= Seq::empty());
    }
}

/// What is said of a missing queue names it, and suggests every queue that is there, in order, with
/// its number, its name and its URL. Where there is none, it says so. How a queue is created stands
/// at the end.
pub proof fn a_missing_queue_is_named_and_all_others_suggested(
    queue_url: Seq<char>,
    available: Seq<Seq<char>>,
)
    ensures
        available.len() > 0 ==> missing_queue_text(queue_url, available) == "Queue not found: "@
            + queue_url + "\n\n"@ + "Available queues:\n"@ + concat(
            Seq::new(
                available.len(),
                |i: int|
                    "  "@ + decimal((i + 1) as nat) + ". "@ + last_segment(available[i])
                        + " \n     "@ + available[i] + "\n"@,
            ),
        ) + "\nTo create a new queue, use the AWS CLI:\n"@ + CREATE_QUEUE@,
        available.len() == 0 ==> missing_queue_text(queue_url, available) == "Queue not found: "@
            + queue_url + "\n\n"@
            + "No queues are currently available.\n\nTo create a new queue, you can use the AWS CLI:\n"@
            + CREATE_QUEUE@ + "\n\nOr with LocalStack:\n"@ + CREATE_LOCAL_QUEUE@,
{
    lemma_suggestions(available);
    if available.len() > 0 {
        let rows = concat(
            Seq::new(
                available.len(),
                |i: int|
                    "  "@ + decimal((i + 1) as nat) + ". "@ + last_segment(available[i])
                        + " \n     "@ + available[i] + "\n"@,
            ),
        );
        assert(suggestions(available) == rows);
        assert(missing_queue_text(queue_url, available) =~= "Queue not found: "@ + queue_url
            + "\n\n"@ + "Available queues:\n"@ + rows
            + "\nTo create a new queue, use the AWS CLI:\n"@ + CREATE_QUEUE@);
    } else {
        assert(missing_queue_text(queue_url, available) =~= "Queue not found: "@ + queue_url
            + "\n\n"@
            + "No queues are currently available.\n\nTo create a new queue, you can use the AWS CLI:\n"@
            + CREATE_QUEUE@ + "\n\nOr with LocalStack:\n"@ + CREATE_LOCAL_QUEUE@);
    }
}

/// Where there is no queue, the listing says so, and how one is created.
pub proof fn an_empty_listing_says_so()
    ensures
        listing_text(Seq::empty()) == "No queues found.\n\nTo create a new queue, use the AWS CLI:\n"@
            + CREATE_QUEUE@ + "\n\nOr with LocalStack:\n"@ + CREATE_LOCAL_QUEUE@ + "\n"@,
        CREATE_QUEUE@ == "  aws sqs create-queue --queue-name <your-queue-name>"@,
        CREATE_LOCAL_QUEUE@
            == "  aws --endpoint-url=http://localhost:4566 sqs create-queue --queue-name <your-queue-name>"@,
{
}

/// A page stands for all queues on it, and for where the next one starts.
pub proof fn a_page_stands_for_all_it_holds(page: QueuePage)
    ensures
        page.queue_urls is None ==> page@.queue_urls.len() == 0,
        page.queue_urls matches Some(urls) ==> {
            &&& page@.queue_urls.len() == urls@.len()
            &&& forall|i: int| 0 <= i < urls@.len() ==> #[trigger] page@.queue_urls[i] == urls@[i]@
        },
        page.next_token is None ==> page@.next_token is None,
        page.next_token matches Some(token) ==> page@.next_token == Some(token@),
{
}

} // verus!
