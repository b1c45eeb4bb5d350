//! The loader: stages items in rounds and hands them to the senders one by one.

use std::collections::VecDeque;
use vstd::prelude::*;
use crate::worker::{ItemView, JobItem};

verus! {

/// How many items to ask for in one round: no more than are still wanted. A negative stage size
/// stands for no bound.
pub open spec fn round_size(stage_size: int, wanted: Option<int>) -> int {
    match wanted {
        None => stage_size,
        Some(n) => if 0 <= stage_size <= n {
            stage_size
        } else {
            n
        },
    }
}

/// Where the loader is.
#[derive(Clone, Copy, Debug)]
pub enum LoadPhase {
    /// Nothing has been asked for.
    Starting,
    /// A round has been asked for.
    Asking,
    /// An item is on its way to the senders.
    Delivering,
    /// Nothing more will be loaded.
    Stopped,
}

/// What happens to the loader.
#[derive(Debug)]
pub enum LoadEvent {
    /// The loader may begin.
    Begin,
    /// A round was staged.
    Staged(Vec<JobItem>),
    /// A round could not be staged.
    StageFailed,
    /// The writer is gone.
    WriterGone,
    /// The item reached the senders.
    Delivered,
    /// The senders are gone.
    SendersGone,
}

/// What the loader asks for.
#[derive(Debug)]
pub enum LoadAction {
    /// Stage up to so many items.
    Ask(i64),
    /// Hand this item to the senders.
    Deliver(JobItem),
    /// Stop loading.
    Stop,
}

/// What a [`LoadEvent`] stands for.
pub enum LoadEventView {
    Begin,
    Staged(Seq<ItemView>),
    StageFailed,
    WriterGone,
    Delivered,
    SendersGone,
}

/// What a [`LoadAction`] stands for.
pub enum LoadActionView {
    Ask(int),
    Deliver(ItemView),
    Stop,
}

impl View for LoadEvent {
    type V = LoadEventView;

    open spec fn view(&self) -> LoadEventView {
        match *self {
            LoadEvent::Begin => LoadEventView::Begin,
            LoadEvent::Staged(items) => LoadEventView::Staged(items.deep_view()),
            LoadEvent::StageFailed => LoadEventView::StageFailed,
            LoadEvent::WriterGone => LoadEventView::WriterGone,
            LoadEvent::Delivered => LoadEventView::Delivered,
            LoadEvent::SendersGone => LoadEventView::SendersGone,
        }
    }
}

impl View for LoadAction {
    type V = LoadActionView;

    open spec fn view(&self) -> LoadActionView {
        match *self {
            LoadAction::Ask(limit) => LoadActionView::Ask(limit as int),
            LoadAction::Deliver(item) => LoadActionView::Deliver(item@),
            LoadAction::Stop => LoadActionView::Stop,
        }
    }
}

/// The state of the loader.
pub struct LoaderView {
    pub stage_size: int,
    /// How many items are still wanted; all of them where there is no limit.
    pub wanted: Option<int>,
    /// Staged items that wait to be handed over.
    pub queue: Seq<ItemView>,
    /// How many items reached the senders.
    pub loaded: nat,
    pub phase: LoadPhase,
}

impl LoaderView {
    /// The loader before anything happened.
    pub open spec fn start(stage_size: int, limit: Option<int>) -> LoaderView {
        LoaderView {
            stage_size,
            wanted: limit,
            queue: Seq::empty(),
            loaded: 0,
            phase: LoadPhase::Starting,
        }
    }

    /// Whether the loader can be told of an event.
    pub open spec fn accepts(self, event: LoadEventView) -> bool {
        match self.phase {
            LoadPhase::Starting => event is Begin,
            LoadPhase::Asking => event is Staged || event is StageFailed || event is WriterGone,
            LoadPhase::Delivering => event is Delivered || event is SendersGone,
            LoadPhase::Stopped => false,
        }
    }

    /// Stops.
    pub open spec fn stop(self) -> (LoaderView, LoadActionView) {
        (LoaderView { phase: LoadPhase::Stopped, ..self }, LoadActionView::Stop)
    }

    /// Asks for the next round, unless no more items are wanted.
    pub open spec fn ask(self) -> (LoaderView, LoadActionView) {
        match self.wanted {
            Some(n) if n <= 0 => self.stop(),
            _ => (
                LoaderView { phase: LoadPhase::Asking, ..self },
                LoadActionView::Ask(round_size(self.stage_size, self.wanted)),
            ),
        }
    }

    /// Hands the next item over, or asks for the next round where none is left.
    pub open spec fn proceed(self) -> (LoaderView, LoadActionView) {
        if self.queue.len() == 0 {
            self.ask()
        } else {
            (
                LoaderView {
                    queue: self.queue.drop_first(),
                    phase: LoadPhase::Delivering,
                    ..self
                },
                LoadActionView::Deliver(self.queue.first()),
            )
        }
    }

    /// What an event leads to.
    pub open spec fn step(self, event: LoadEventView) -> (LoaderView, LoadActionView) {
        match event {
            LoadEventView::Begin => self.ask(),
            LoadEventView::Staged(items) => if items.len() == 0 {
                self.stop()
            } else {
                LoaderView {
                    wanted: match self.wanted {
                        Some(n) => Some(
                            if items.len() >= n {
                                0
                            } else {
                                n - items.len()
                            },
                        ),
                        None => None,
                    },
                    queue: items,
                    ..self
                }.proceed()
            },
            LoadEventView::Delivered => LoaderView { loaded: self.loaded + 1, ..self }.proceed(),
            LoadEventView::StageFailed | LoadEventView::WriterGone
            | LoadEventView::SendersGone => self.stop(),
        }
    }
}

/// The loader.
pub struct Loader {
    stage_size: i64,
    wanted: Option<i64>,
    queue: VecDeque<JobItem>,
    loaded: u64,
    phase: LoadPhase,
}

spec fn deque_view(q: Seq<JobItem>) -> Seq<ItemView> {
    Seq::new(q.len(), |i: int| q[i]@)
}

impl View for Loader {
    type V = LoaderView;

    closed spec fn view(&self) -> LoaderView {
        LoaderView {
            stage_size: self.stage_size as int,
            wanted: match self.wanted {
                Some(n) => Some(n as int),
                None => None,
            },
            queue: deque_view(self.queue@),
            loaded: self.loaded as nat,
            phase: self.phase,
        }
    }
}

impl Loader {
    /// Starts with nothing staged.
    pub fn new(stage_size: i64, limit: Option<i64>) -> (r: Self)
        ensures
            r@ == LoaderView::start(
                stage_size as int,
                match limit {
                    Some(n) => Some(n as int),
                    None => None,
                },
            ),
    {
        let r = Loader {
            stage_size,
            wanted: limit,
            queue: VecDeque::new(),
            loaded: 0,
            phase: LoadPhase::Starting,
        };
        assert(r@.queue =~= Seq::empty());
        r
    }

    /// How many items reached the senders.
    pub fn loaded(&self) -> (r: u64)
        ensures
            r == self@.loaded,
    {
        self.loaded
    }

    fn stop(&mut self) -> (r: LoadAction)
        ensures
            (final(self)@, r@) == old(self)@.stop(),
    {
        self.phase = LoadPhase::Stopped;
        LoadAction::Stop
    }

    fn ask(&mut self) -> (r: LoadAction)
        ensures
            (final(self)@, r@) == old(self)@.ask(),
    {
        match self.wanted {
            None => {
                self.phase = LoadPhase::Asking;
                LoadAction::Ask(self.stage_size)
            },
            Some(n) => {
                if n <= 0 {
                    self.stop()
                } else {
                    self.phase = LoadPhase::Asking;
                    if 0 <= self.stage_size && self.stage_size <= n {
                        LoadAction::Ask(self.stage_size)
                    } else {
                        LoadAction::Ask(n)
                    }
                }
            },
        }
    }

    fn proceed(&mut self) -> (r: LoadAction)
        ensures
            (final(self)@, r@) == old(self)@.proceed(),
    {
        match self.queue.pop_front() {
            None => {
                assert(self@ == old(self)@);
                self.ask()
            },
            Some(item) => {
                self.phase = LoadPhase::Delivering;
                assert(self@.queue =~= old(self)@.queue.drop_first());
                LoadAction::Deliver(item)
            },
        }
    }

    /// Takes an event in and says what to do.
    pub fn step(&mut self, event: LoadEvent) -> (r: LoadAction)
        requires
            old(self)@.accepts(event@),
            old(self)@.loaded < u64::MAX,
        ensures
            (final(self)@, r@) == old(self)@.step(event@),
    {
        match event {
            LoadEvent::Begin => self.ask(),
            LoadEvent::Staged(items) => {
                if items.len() == 0 {
                    self.stop()
                } else {
                    if let Some(n) = self.wanted {
                        self.wanted = Some(
                            if n <= 0 || items.len() as u64 >= n as u64 {
                                0
                            } else {
                                n - items.len() as i64
                            },
                        );
                    }
                    let mut queue: VecDeque<JobItem> = VecDeque::new();
                    let ghost all = items@;
                    for item in it: items
                        invariant
                            it.seq() == all,
                            queue@ == all.take(it.index()),
                    {
                        queue.push_back(item);
                        assert(all.take(it.index() + 1) =~= all.take(it.index()).push(item));
                    }
                    assert(queue@ =~= all);
                    self.queue = queue;
                    assert(self@.queue =~= items.deep_view());
                    self.proceed()
                }
            },
            LoadEvent::Delivered => {
                self.loaded = self.loaded + 1;
                self.proceed()
            },
            LoadEvent::StageFailed | LoadEvent::WriterGone | LoadEvent::SendersGone => self.stop(),
        }
    }
}

/// The state of the loader after the events `events`, and what it asked for on the way.
pub open spec fn loader_run(
    stage_size: int,
    limit: Option<int>,
    events: Seq<LoadEventView>,
) -> (LoaderView, Seq<LoadActionView>)
    decreases events.len(),
{
    if events.len() == 0 {
        (LoaderView::start(stage_size, limit), Seq::empty())
    } else {
        let (state, actions) = loader_run(stage_size, limit, events.drop_last());
        let (after, action) = state.step(events.last());
        (after, actions.push(action))
    }
}

/// Whether every event of `events` came when the loader could take it.
pub open spec fn loader_accepts(
    stage_size: int,
    limit: Option<int>,
    events: Seq<LoadEventView>,
) -> bool
    decreases events.len(),
{
    if events.len() == 0 {
        true
    } else {
        &&& loader_accepts(stage_size, limit, events.drop_last())
        &&& loader_run(stage_size, limit, events.drop_last()).0.accepts(events.last())
    }
}

/// The items of all rounds, in order.
pub open spec fn staged(events: Seq<LoadEventView>) -> Seq<ItemView>
    decreases events.len(),
{
    if events.len() == 0 {
        Seq::empty()
    } else {
        match events.last() {
            LoadEventView::Staged(items) => staged(events.drop_last()) + items,
            _ => staged(events.drop_last()),
        }
    }
}

/// The items that were handed over, in order.
pub open spec fn handed_over(actions: Seq<LoadActionView>) -> Seq<ItemView>
    decreases actions.len(),
{
    if actions.len() == 0 {
        Seq::empty()
    } else {
        match actions.last() {
            LoadActionView::Deliver(item) => handed_over(actions.drop_last()).push(item),
            _ => handed_over(actions.drop_last()),
        }
    }
}

proof fn lemma_handed_over_push(actions: Seq<LoadActionView>, action: LoadActionView)
    ensures
        handed_over(actions.push(action)) == match action {
            LoadActionView::Deliver(item) => handed_over(actions).push(item),
            _ => handed_over(actions),
        },
{
    assert(actions.push(action).drop_last() =~= actions);
}

/// No staged item is skipped, handed over twice or moved: what was handed over, followed by what
/// waits, is what was staged. Between rounds nothing waits.
pub proof fn loader_loses_nothing(
    stage_size: int,
    limit: Option<int>,
    events: Seq<LoadEventView>,
)
    requires
        loader_accepts(stage_size, limit, events),
    ensures
        ({
            let (state, actions) = loader_run(stage_size, limit, events);
            &&& handed_over(actions) + state.queue == staged(events)
            &&& state.phase is Starting || state.phase is Asking ==> state.queue.len() == 0
        }),
    decreases events.len(),
{
    let (after, actions) = loader_run(stage_size, limit, events);
    if events.len() == 0 {
        assert(handed_over(actions) + after.queue =~= staged(events));
    } else {
        let fewer = events.drop_last();
        loader_loses_nothing(stage_size, limit, fewer);
        let (state, before) = loader_run(stage_size, limit, fewer);
        let (_, action) = state.step(events.last());
        lemma_handed_over_push(before, action);
        assert(handed_over(actions) + after.queue =~= staged(events)) by {
            match events.last() {
                LoadEventView::Staged(items) => {
                    assert(handed_over(before) =~= staged(fewer));
                    if items.len() > 0 {
                        assert(seq![items.first()] + items.drop_first() =~= items);
                    }
                },
                LoadEventView::Delivered => {
                    if state.queue.len() > 0 {
                        assert(seq![state.queue.first()] + state.queue.drop_first() =~= state.queue);
                    }
                },
                _ => {},
            }
        }
    }
}

/// Whether no round brought more items than were asked for.
pub open spec fn rounds_in_bounds(
    stage_size: int,
    limit: Option<int>,
    events: Seq<LoadEventView>,
) -> bool
    decreases events.len(),
{
    if events.len() == 0 {
        true
    } else {
        let fewer = events.drop_last();
        &&& rounds_in_bounds(stage_size, limit, fewer)
        &&& match events.last() {
            LoadEventView::Staged(items) => {
                let state = loader_run(stage_size, limit, fewer).0;
                round_size(stage_size, state.wanted) < 0 || items.len() <= round_size(
                    stage_size,
                    state.wanted,
                )
            },
            _ => true,
        }
    }
}

/// With a limit, no more items are staged than the limit allows, and no more are loaded, as long
/// as no round brings more items than it was asked for.
pub proof fn loader_keeps_to_the_limit(
    stage_size: int,
    limit: int,
    events: Seq<LoadEventView>,
)
    requires
        limit >= 0,
        loader_accepts(stage_size, Some(limit), events),
        rounds_in_bounds(stage_size, Some(limit), events),
    ensures
        ({
            let state = loader_run(stage_size, Some(limit), events).0;
            &&& state.stage_size == stage_size
            &&& state.wanted == Some(limit - staged(events).len())
            &&& state.phase is Asking ==> state.wanted->Some_0 > 0
            &&& staged(events).len() <= limit
            &&& state.loaded <= staged(events).len()
        }),
    decreases events.len(),
{
    if events.len() > 0 {
        let fewer = events.drop_last();
        loader_keeps_to_the_limit(stage_size, limit, fewer);
        loader_loses_nothing(stage_size, Some(limit), events);
        lemma_loaded_is_delivered(stage_size, Some(limit), events);
    }
}

/// Every item that was handed over reached the senders, but for one that is on its way or was
/// when the loader stopped.
proof fn lemma_loaded_is_delivered(
    stage_size: int,
    limit: Option<int>,
    events: Seq<LoadEventView>,
)
    requires
        loader_accepts(stage_size, limit, events),
    ensures
        ({
            let (state, actions) = loader_run(stage_size, limit, events);
            match state.phase {
                LoadPhase::Delivering => state.loaded + 1 == handed_over(actions).len(),
                LoadPhase::Stopped => state.loaded <= handed_over(actions).len(),
                _ => state.loaded == handed_over(actions).len(),
            }
        }),
    decreases events.len(),
{
    if events.len() > 0 {
        let fewer = events.drop_last();
        lemma_loaded_is_delivered(stage_size, limit, fewer);
        let (state, before) = loader_run(stage_size, limit, fewer);
        let (_, action) = state.step(events.last());
        lemma_handed_over_push(before, action);
    }
}

/// As many items are asked for as the stage size says, but no more than are wanted.
pub proof fn no_more_are_asked_for_than_are_wanted(stage_size: int, n: int)
    ensures
        round_size(stage_size, None) == stage_size,
        0 <= stage_size <= n ==> round_size(stage_size, Some(n)) == stage_size,
        stage_size > n || stage_size < 0 ==> round_size(stage_size, Some(n)) == n,
{
}

/// So many items are wanted still as the limit says beyond those that were staged, and none once
/// those are as many.
proof fn lemma_wanted(stage_size: int, limit: Option<int>, events: Seq<LoadEventView>)
    requires
        loader_accepts(stage_size, limit, events),
    ensures
        ({
            let state = loader_run(stage_size, limit, events).0;
            &&& state.stage_size == stage_size
            &&& limit is None ==> state.wanted is None
            &&& limit matches Some(n) ==> state.wanted == Some(
                if 0 < staged(events).len() && n <= staged(events).len() {
                    0
                } else {
                    n - staged(events).len()
                },
            )
            &&& state.phase is Asking ==> (state.wanted matches Some(w) ==> w > 0)
            &&& state.phase is Starting <==> events.len() == 0
        }),
    decreases events.len(),
{
    if events.len() > 0 {
        lemma_wanted(stage_size, limit, events.drop_last());
    }
}

/// What the loader does next. It hands the next item over as long as one waits. Then it asks for
/// more, unless as many were staged as the limit says. It stops there, where nothing more was found,
/// and where it cannot go on, and nowhere else.
pub proof fn the_loader_goes_on_until_it_is_done(
    stage_size: int,
    limit: Option<int>,
    events: Seq<LoadEventView>,
)
    requires
        loader_accepts(stage_size, limit, events),
        events.len() > 0,
    ensures
        ({
            let (state, actions) = loader_run(stage_size, limit, events);
            let action = actions.last();
            let event = events.last();
            let given = handed_over(actions.drop_last()).len();
            let found = staged(events).len();
            let broken = event is StageFailed || event is WriterGone || event is SendersGone;
            let dry = event matches LoadEventView::Staged(items) && items.len() == 0;
            let enough = limit matches Some(n) && n <= found;
            &&& actions.len() == events.len()
            &&& action is Deliver <==> !broken && !dry && given < found
            &&& action matches LoadActionView::Deliver(item) ==> item == staged(events)[given as int]
            &&& action is Stop <==> broken || dry || (given >= found && enough)
            &&& action matches LoadActionView::Ask(n) ==> n == round_size(
                stage_size,
                match limit {
                    Some(all) => Some(all - found),
                    None => None,
                },
            )
            &&& state.phase is Stopped <==> action is Stop
        }),
{
    let fewer = events.drop_last();
    lemma_wanted(stage_size, limit, events);
    lemma_wanted(stage_size, limit, fewer);
    loader_loses_nothing(stage_size, limit, events);
    loader_loses_nothing(stage_size, limit, fewer);
    lemma_actions(stage_size, limit, fewer);
    let (before, past) = loader_run(stage_size, limit, fewer);
    let (state, actions) = loader_run(stage_size, limit, events);
    assert(actions.drop_last() =~= past);
    assert(handed_over(past).len() + before.queue.len() == staged(fewer).len());
    if actions.last() is Deliver {
        lemma_handed_over_push(past, actions.last());
        let all = handed_over(actions) + state.queue;
        assert(all[handed_over(past).len() as int] == actions.last()->Deliver_0);
    }
}

proof fn lemma_actions(stage_size: int, limit: Option<int>, events: Seq<LoadEventView>)
    ensures
        loader_run(stage_size, limit, events).1.len() == events.len(),
    decreases events.len(),
{
    if events.len() > 0 {
        lemma_actions(stage_size, limit, events.drop_last());
    }
}

/// The loader counts the items that reached the senders.
pub proof fn every_delivery_is_counted(
    stage_size: int,
    limit: Option<int>,
    events: Seq<LoadEventView>,
)
    ensures
        loader_run(stage_size, limit, events).0.loaded == events.filter(
            |e: LoadEventView| e is Delivered,
        ).len(),
    decreases events.len(),
{
    reveal(Seq::filter);
    if events.len() > 0 {
        every_delivery_is_counted(stage_size, limit, events.drop_last());
    }
}

/// What happens to the loader, and what it does, stand for all that they hold.
pub proof fn events_and_actions_stand_for_all_they_hold(event: LoadEvent, action: LoadAction)
    ensures
        event is Begin <==> event@ is Begin,
        event is StageFailed <==> event@ is StageFailed,
        event is WriterGone <==> event@ is WriterGone,
        event is Delivered <==> event@ is Delivered,
        event is SendersGone <==> event@ is SendersGone,
        event matches LoadEvent::Staged(items) ==> (event@ matches LoadEventView::Staged(views) && {
            &&& views.len() == items@.len()
            &&& forall|i: int| 0 <= i < items@.len() ==> #[trigger] views[i] == items@[i]@
        }),
        action matches LoadAction::Ask(n) ==> action@ == LoadActionView::Ask(n as int),
        action matches LoadAction::Deliver(item) ==> action@ == LoadActionView::Deliver(item@),
        action is Stop <==> action@ is Stop,
{
}

} // verus!
