//! The debounce policy of the file watcher.
//!
//! The watcher hands every filesystem event to [`DebounceState::on_event`]
//! together with the time at which it arrived. The answer says whether the
//! site is rebuilt. The loop that waits for events, sleeps and runs the
//! rebuild lives outside the library; the decisions are made here.

use vstd::prelude::*;
use crate::error::{unit_result_view, Error, ErrorView};
use crate::text::views;

verus! {

/// Shortest time, in milliseconds, between the starts of two rebuilds.
pub const MIN_RECOMPILE_INTERVAL: u32 = 800;

/// Time to wait, in milliseconds, after a change was seen and before the
/// rebuild reads the files.
pub const FILE_SAVE_WAIT: u64 = 300;

/// What happened to a watched file.
#[derive(Clone, Copy, Debug, PartialEq, Eq, Structural)]
pub enum ChangeKind {
    Created,
    Modified,
    Removed,
    /// Anything else, such as a change of attributes or an access.
    Other,
}

impl ChangeKind {
    /// Whether an event of this kind may lead to a rebuild.
    pub open spec fn qualifies(self) -> bool {
        self != ChangeKind::Other
    }

    /// Whether an event of this kind may lead to a rebuild.
    pub fn is_qualifying(&self) -> (b: bool)
        ensures
            b == self.qualifies(),
    {
        match self {
            ChangeKind::Other => false,
            _ => true,
        }
    }
}

/// One filesystem event as the debouncer sees it: its kind and the time, in
/// milliseconds, at which it arrived.
#[derive(Clone, Copy, Debug, PartialEq, Eq, Structural)]
pub struct WatchedEvent {
    pub kind: ChangeKind,
    pub at: i64,
}

/// What the watch loop does with an event.
#[derive(Clone, Copy, Debug, PartialEq, Eq, Structural)]
pub enum WatchAction {
    /// Nothing: the event does not qualify, or it fell into the cool-down
    /// window of the rebuild before it.
    Ignore,
    /// Wait `settle_millis` milliseconds, rebuild, then tell the clients.
    Rebuild { settle_millis: u64 },
}

/// The state of the debouncer.
#[derive(Clone, Copy, Debug, PartialEq, Eq, Structural)]
pub struct DebounceState {
    /// When the last rebuild was started, in milliseconds.
    pub last_compile: i64,
    /// Shortest time between the starts of two rebuilds, in milliseconds.
    pub min_interval: u32,
    /// Pause between a change and the rebuild it causes, in milliseconds.
    pub settle_delay: u64,
}

/// The state and the action that follow from `state` and one event.
pub open spec fn step(state: DebounceState, event: WatchedEvent) -> (DebounceState, WatchAction) {
    if !event.kind.qualifies() || event.at - state.last_compile < state.min_interval {
        (state, WatchAction::Ignore)
    } else {
        (
            DebounceState { last_compile: event.at, ..state },
            WatchAction::Rebuild { settle_millis: state.settle_delay },
        )
    }
}

/// The state after a sequence of events.
pub open spec fn state_after(state: DebounceState, events: Seq<WatchedEvent>) -> DebounceState
    decreases events.len(),
{
    if events.len() == 0 {
        state
    } else {
        step(state_after(state, events.drop_last()), events.last()).0
    }
}

/// The times at which a sequence of events started a rebuild, in order.
pub open spec fn rebuild_times(state: DebounceState, events: Seq<WatchedEvent>) -> Seq<int>
    decreases events.len(),
{
    if events.len() == 0 {
        Seq::empty()
    } else {
        let before = rebuild_times(state, events.drop_last());
        match step(state_after(state, events.drop_last()), events.last()).1 {
            WatchAction::Ignore => before,
            WatchAction::Rebuild { .. } => before.push(events.last().at as int),
        }
    }
}

impl DebounceState {
    /// A debouncer whose last rebuild was started at `started_at`, with the
    /// default interval and settle delay.
    pub fn new(started_at: i64) -> (state: Self)
        ensures
            state == (DebounceState {
                last_compile: started_at,
                min_interval: MIN_RECOMPILE_INTERVAL,
                settle_delay: FILE_SAVE_WAIT,
            }),
    {
        DebounceState {
            last_compile: started_at,
            min_interval: MIN_RECOMPILE_INTERVAL,
            settle_delay: FILE_SAVE_WAIT,
        }
    }

    /// Whether an event at `now` falls into the cool-down window.
    pub fn in_cooldown(&self, now: i64) -> (b: bool)
        ensures
            b == (now - self.last_compile < self.min_interval),
    {
        if now < self.last_compile {
            true
        } else {
            match self.last_compile.checked_add(self.min_interval as i64) {
                Some(limit) => now < limit,
                None => true,
            }
        }
    }

    /// Takes one event. The state changes only when a rebuild is started.
    pub fn on_event(&mut self, event: WatchedEvent) -> (action: WatchAction)
        ensures
            (*final(self), action) == step(*old(self), event),
            !event.kind.qualifies() ==> action == WatchAction::Ignore && *final(self) == *old(
                self,
            ),
            action != WatchAction::Ignore ==> event.at - old(self).last_compile >= old(
                self,
            ).min_interval,
    {
        if !event.kind.is_qualifying() || self.in_cooldown(event.at) {
            WatchAction::Ignore
        } else {
            self.last_compile = event.at;
            WatchAction::Rebuild { settle_millis: self.settle_delay }
        }
    }
}

/// `chrono::Utc::now` followed by `DateTime::timestamp_millis`: the time of
/// the system clock, in milliseconds since the start of 1970. Nothing is
/// claimed of the answer: the clock may be set to any time, and back.
/// `chrono` does not return where the clock stands before 1970.
#[verifier::external_body]
fn clock_millis() -> (now: i64) {
    chrono::Utc::now().timestamp_millis()
}

/// The time of the system clock, in milliseconds.
pub fn now_millis() -> i64 {
    clock_millis()
}

impl DebounceState {
    /// A debouncer whose last rebuild is taken to have started now.
    pub fn start() -> (state: Self)
        ensures
            state.min_interval == MIN_RECOMPILE_INTERVAL,
            state.settle_delay == FILE_SAVE_WAIT,
    {
        DebounceState::new(clock_millis())
    }

    /// Takes an event of kind `kind` that arrives now, by the system clock.
    pub fn on_event_now(&mut self, kind: ChangeKind) -> (action: WatchAction)
        ensures
            exists|at: i64|
                (*final(self), action) == #[trigger] step(*old(self), WatchedEvent { kind, at }),
            !kind.qualifies() ==> action == WatchAction::Ignore && *final(self) == *old(self),
    {
        let at = clock_millis();
        self.on_event(WatchedEvent { kind, at })
    }
}

/// What follows a rebuild.
#[derive(Debug)]
pub struct AfterRebuild {
    /// Whether the clients are told to reload.
    pub broadcast: bool,
    /// What is written to the log, if anything.
    pub log: Option<String>,
}

/// What follows a rebuild, as contracts speak of it.
pub struct AfterRebuildView {
    pub broadcast: bool,
    pub log: Option<Seq<char>>,
}

impl View for AfterRebuild {
    type V = AfterRebuildView;

    open spec fn view(&self) -> AfterRebuildView {
        AfterRebuildView {
            broadcast: self.broadcast,
            log: match self.log {
                Some(text) => Some(text@),
                None => None,
            },
        }
    }
}

/// What follows a rebuild with the given outcome: the clients are told to
/// reload whether it succeeded or not, and a failure is logged.
pub open spec fn followed_by(outcome: Result<(), ErrorView>) -> AfterRebuildView {
    AfterRebuildView {
        broadcast: true,
        log: match outcome {
            Ok(_) => None,
            Err(e) => Some(crate::error::message_text(e)),
        },
    }
}

/// Decides what follows a rebuild. A failed rebuild does not end the watch
/// loop: its message goes to the log, and the clients reload all the same,
/// so that the page shows whatever the failed build left behind.
pub fn after_rebuild(outcome: &Result<(), Error>) -> (next: AfterRebuild)
    ensures
        next@ == followed_by(unit_result_view(*outcome)),
{
    match outcome {
        Ok(_) => AfterRebuild { broadcast: true, log: None },
        Err(e) => AfterRebuild { broadcast: true, log: Some(e.message()) },
    }
}

/// The outcome of the start of a listener: an error that names the port on
/// which it could not listen.
pub open spec fn listener_started(port: u16, listening: bool) -> Result<(), ErrorView> {
    if listening {
        Ok(())
    } else {
        Err(ErrorView::PortUnavailable(port))
    }
}

/// Checks that a listener was started. `listening` says whether it could
/// take the port. A port that is not free is fatal.
pub fn check_listener(port: u16, listening: bool) -> (r: Result<(), Error>)
    ensures
        unit_result_view(r) == listener_started(port, listening),
{
    if listening {
        Ok(())
    } else {
        Err(Error::PortUnavailable(port))
    }
}

/// The outcome of the start of the watcher: an error that names the first
/// folder that could not be watched.
pub open spec fn watch_started(folders: Seq<Seq<char>>, watched: Seq<bool>) -> Result<
    (),
    ErrorView,
>
    decreases folders.len(),
{
    if folders.len() == 0 {
        Ok(())
    } else if watched.len() == 0 || !watched[0] {
        Err(ErrorView::WatchDirectoryNotExist(folders[0]))
    } else {
        watch_started(folders.drop_first(), watched.drop_first())
    }
}

/// Checks that every folder is watched. `watched[i]` says whether the watch
/// on `folders[i]` could be set up; a folder without an answer counts as
/// not watched. One folder that is not watched is fatal: the error names
/// the first such folder.
pub fn check_watched_folders(folders: &Vec<String>, watched: &Vec<bool>) -> (r: Result<(), Error>)
    ensures
        unit_result_view(r) == watch_started(views(folders@), watched@),
{
    let mut i: usize = 0;
    assert(views(folders@).skip(0) =~= views(folders@));
    assert(watched@.skip(0) =~= watched@);
    while i < folders.len()
        invariant
            i <= folders.len(),
            i <= watched.len(),
            watch_started(views(folders@).skip(i as int), watched@.skip(i as int))
                == watch_started(views(folders@), watched@),
        decreases folders.len() - i,
    {
        let ghost rest = views(folders@).skip(i as int);
        let ghost answers = watched@.skip(i as int);
        proof {
            assert(rest[0] == folders@[i as int]@);
            assert(rest.drop_first() =~= views(folders@).skip(i + 1));
        }
        if i >= watched.len() || !watched[i] {
            proof {
                if i < watched.len() {
                    assert(answers[0] == watched@[i as int]);
                }
            }
            return Err(Error::WatchDirectoryNotExist(folders[i].clone()));
        }
        proof {
            assert(answers[0] == watched@[i as int]);
            assert(answers.drop_first() =~= watched@.skip(i + 1));
        }
        i += 1;
    }
    Ok(())
}

/// Events change nothing of the state but the time of the last rebuild, and
/// that time is the start of the sequence's last rebuild, if it had one.
pub proof fn lemma_state_after(state: DebounceState, events: Seq<WatchedEvent>)
    ensures
        state_after(state, events).min_interval == state.min_interval,
        state_after(state, events).settle_delay == state.settle_delay,
        rebuild_times(state, events).len() == 0 ==> state_after(state, events) == state,
        rebuild_times(state, events).len() > 0 ==> state_after(state, events).last_compile
            == rebuild_times(state, events).last(),
        rebuild_times(state, events).len() <= events.len(),
    decreases events.len(),
{
    if events.len() > 0 {
        lemma_state_after(state, events.drop_last());
    }
}

/// Events that do not qualify never start a rebuild and leave the state as
/// it was, however many there are.
pub proof fn lemma_other_events_are_no_ops(state: DebounceState, events: Seq<WatchedEvent>)
    requires
        forall|i: int| 0 <= i < events.len() ==> !events[i].kind.qualifies(),
    ensures
        rebuild_times(state, events).len() == 0,
        state_after(state, events) == state,
    decreases events.len(),
{
    if events.len() > 0 {
        lemma_other_events_are_no_ops(state, events.drop_last());
    }
}

/// After a rebuild was started at `state.last_compile`, events that arrive
/// less than the minimum interval later start no further rebuild, whatever
/// their kind and number.
pub proof fn lemma_cooldown_absorbs_burst(state: DebounceState, events: Seq<WatchedEvent>)
    requires
        forall|i: int|
            0 <= i < events.len() ==> events[i].at - state.last_compile < state.min_interval,
    ensures
        rebuild_times(state, events).len() == 0,
        state_after(state, events) == state,
    decreases events.len(),
{
    if events.len() > 0 {
        lemma_cooldown_absorbs_burst(state, events.drop_last());
    }
}

/// A qualifying event outside the cool-down window, followed by a burst of
/// events that each arrive less than the minimum interval after it, starts
/// exactly one rebuild: its own.
pub proof fn lemma_burst_rebuilds_once(
    state: DebounceState,
    first: WatchedEvent,
    burst: Seq<WatchedEvent>,
)
    requires
        first.kind.qualifies(),
        first.at - state.last_compile >= state.min_interval,
        forall|i: int| 0 <= i < burst.len() ==> burst[i].at - first.at < state.min_interval,
    ensures
        rebuild_times(state, seq![first] + burst) == seq![first.at as int],
    decreases burst.len(),
{
    let all = seq![first] + burst;
    if burst.len() == 0 {
        assert(all.drop_last() =~= Seq::<WatchedEvent>::empty());
        assert(rebuild_times(state, all.drop_last()) =~= Seq::<int>::empty());
        assert(rebuild_times(state, all) =~= seq![first.at as int]);
    } else {
        assert(all.drop_last() =~= seq![first] + burst.drop_last());
        lemma_burst_rebuilds_once(state, first, burst.drop_last());
        lemma_state_after(state, all.drop_last());
        assert(all.last() == burst.last());
    }
}

/// The time between the event at index `i` and the event before it.
pub open spec fn gap_before(events: Seq<WatchedEvent>, i: int) -> int {
    events[i].at - events[i - 1].at
}

/// Whether each event but the first arrives at least `interval` after the
/// one before.
pub open spec fn spaced(events: Seq<WatchedEvent>, interval: int) -> bool {
    forall|i: int| 0 < i < events.len() ==> #[trigger] gap_before(events, i) >= interval
}

/// Whether every event qualifies.
pub open spec fn all_qualify(events: Seq<WatchedEvent>) -> bool {
    forall|i: int| 0 <= i < events.len() ==> (#[trigger] events[i]).kind.qualifies()
}

/// The times of the events, in order.
pub open spec fn times_of(events: Seq<WatchedEvent>) -> Seq<int> {
    events.map_values(|e: WatchedEvent| e.at as int)
}

/// Qualifying events that each arrive at least the minimum interval after
/// the one before, the first one that long after the last rebuild, start
/// one rebuild each.
pub proof fn lemma_spaced_events_each_rebuild(state: DebounceState, events: Seq<WatchedEvent>)
    requires
        all_qualify(events),
        events.len() > 0 ==> events[0].at - state.last_compile >= state.min_interval,
        spaced(events, state.min_interval as int),
    ensures
        rebuild_times(state, events) == times_of(events),
    decreases events.len(),
{
    let times = times_of(events);
    if events.len() == 0 {
        assert(rebuild_times(state, events) =~= times);
    } else {
        let init = events.drop_last();
        assert(all_qualify(init)) by {
            assert forall|i: int| 0 <= i < init.len() implies (#[trigger] init[i]).kind.qualifies() by {
                assert(init[i] == events[i]);
            }
        }
        assert(spaced(init, state.min_interval as int)) by {
            assert forall|i: int| 0 < i < init.len() implies #[trigger] gap_before(init, i)
                >= state.min_interval by {
                assert(gap_before(init, i) == gap_before(events, i));
            }
        }
        if init.len() > 0 {
            assert(init[0] == events[0]);
        }
        lemma_spaced_events_each_rebuild(state, init);
        lemma_state_after(state, init);
        assert(events.last().kind.qualifies());
        if init.len() > 0 {
            assert(times_of(init).last() == init.last().at);
            assert(gap_before(events, events.len() - 1) >= state.min_interval);
        }
        assert(rebuild_times(state, events) =~= times);
    }
}

/// The time at which `event` starts a rebuild in `state`, if it starts one.
pub open spec fn rebuild_of(state: DebounceState, event: WatchedEvent) -> Seq<int> {
    match step(state, event).1 {
        WatchAction::Ignore => Seq::empty(),
        WatchAction::Rebuild { .. } => seq![event.at as int],
    }
}

/// A sequence of events does what its first event does, and then what the
/// rest does in the state that the first event left.
pub proof fn lemma_first_event_then_rest(state: DebounceState, events: Seq<WatchedEvent>)
    requires
        events.len() > 0,
    ensures
        state_after(state, events) == state_after(step(state, events[0]).0, events.drop_first()),
        rebuild_times(state, events) == rebuild_of(state, events[0]) + rebuild_times(
            step(state, events[0]).0,
            events.drop_first(),
        ),
    decreases events.len(),
{
    let next = step(state, events[0]).0;
    let rest = events.drop_first();
    if events.len() == 1 {
        assert(events.drop_last() =~= Seq::<WatchedEvent>::empty());
        assert(rest =~= Seq::<WatchedEvent>::empty());
        assert(events.last() == events[0]);
        assert(state_after(state, events.drop_last()) == state);
        assert(rebuild_times(state, events.drop_last()) =~= Seq::<int>::empty());
        assert(rebuild_times(state, events) =~= rebuild_of(state, events[0]));
        assert(rebuild_of(state, events[0]) + rebuild_times(next, rest) =~= rebuild_of(
            state,
            events[0],
        ));
    } else {
        let init = events.drop_last();
        lemma_first_event_then_rest(state, init);
        assert(init[0] == events[0]);
        assert(init.drop_first() =~= rest.drop_last());
        assert(rest.last() == events.last());
        assert(rebuild_times(state, events) =~= rebuild_of(state, events[0]) + rebuild_times(
            next,
            rest,
        ));
    }
}

/// Qualifying events that each arrive at least the minimum interval after
/// the one before, on a clock that has not run backwards since the last
/// rebuild, start one rebuild each, but for the first of them: it starts
/// one only where it arrives outside the cool-down window of the rebuild
/// before it.
pub proof fn lemma_spaced_events_rebuild_after_cooldown(
    state: DebounceState,
    events: Seq<WatchedEvent>,
)
    requires
        events.len() > 0,
        all_qualify(events),
        events[0].at >= state.last_compile,
        spaced(events, state.min_interval as int),
    ensures
        rebuild_times(state, events) == (if events[0].at - state.last_compile
            >= state.min_interval {
            times_of(events)
        } else {
            times_of(events.drop_first())
        }),
{
    if events[0].at - state.last_compile >= state.min_interval {
        lemma_spaced_events_each_rebuild(state, events);
    } else {
        let rest = events.drop_first();
        lemma_first_event_then_rest(state, events);
        assert(events[0].kind.qualifies());
        assert(step(state, events[0]) == (state, WatchAction::Ignore));
        assert(all_qualify(rest)) by {
            assert forall|i: int| 0 <= i < rest.len() implies (#[trigger] rest[i]).kind.qualifies() by {
                assert(rest[i] == events[i + 1]);
            }
        }
        assert(spaced(rest, state.min_interval as int)) by {
            assert forall|i: int| 0 < i < rest.len() implies #[trigger] gap_before(rest, i)
                >= state.min_interval by {
                assert(gap_before(rest, i) == gap_before(events, i + 1));
            }
        }
        if rest.len() > 0 {
            assert(rest[0] == events[1]);
            assert(gap_before(events, 1) >= state.min_interval);
        }
        lemma_spaced_events_each_rebuild(state, rest);
        assert(rebuild_of(state, events[0]) + rebuild_times(state, rest) =~= rebuild_times(
            state,
            rest,
        ));
    }
}

/// No two rebuilds are started closer together than the minimum interval,
/// and none closer than that to the rebuild before the sequence: this holds
/// of every sequence of events, in whatever order their times come.
pub proof fn lemma_rebuilds_keep_their_distance(state: DebounceState, events: Seq<WatchedEvent>)
    ensures
        forall|i: int|
            0 <= i < rebuild_times(state, events).len() ==> #[trigger] rebuild_times(
                state,
                events,
            )[i] - state.last_compile >= state.min_interval,
        forall|i: int, j: int|
            0 <= i < j < rebuild_times(state, events).len() ==> #[trigger] rebuild_times(
                state,
                events,
            )[j] - #[trigger] rebuild_times(state, events)[i] >= state.min_interval,
    decreases events.len(),
{
    if events.len() > 0 {
        let init = events.drop_last();
        lemma_rebuilds_keep_their_distance(state, init);
        lemma_state_after(state, init);
        let before = rebuild_times(state, init);
        let times = rebuild_times(state, events);
        if times.len() > before.len() {
            let at = events.last().at as int;
            assert(times =~= before.push(at));
            assert forall|i: int, j: int| 0 <= i < j < times.len() implies #[trigger] times[j]
                - #[trigger] times[i] >= state.min_interval by {
                if j == before.len() {
                    assert(at - before.last() >= state.min_interval);
                    if i < before.len() - 1 {
                        assert(before[before.len() - 1] - before[i] >= state.min_interval);
                    }
                }
            }
        }
    }
}

} // verus!
