//! The decisions of the background updater that keeps the game list fresh.
//!
//! The updater's loop alternates waiting, reading the configuration source
//! and publishing. The loop itself (sleeping, reading, parsing) runs outside;
//! each time something happens it asks `next_step` what to do next.
use vstd::prelude::*;

use crate::game_list::GameList;
use crate::Fps;

verus! {

/// Where the updater stands.
#[derive(Clone, Copy, PartialEq, Eq, Debug)]
pub enum UpdaterState {
    /// No usable configuration has been read since the last failure.
    WaitingForSource,
    /// A configuration was published; the source is watched for changes.
    Watching,
    /// The pause flag was set; nothing is read or published.
    Paused,
}

/// What the updater observed since its last step.
pub enum SourceEvent {
    /// A wait has elapsed.
    Tick,
    /// The source could not be read (missing, not permitted, read error).
    Unavailable,
    /// The source has not changed since it was last read.
    Unchanged,
    /// The source was read but could not be parsed.
    Malformed,
    /// The source was read and parsed into this mapping.
    Parsed(GameList),
}

/// What the updater does next.
pub enum UpdaterAction {
    /// Wait for the polling interval.
    Sleep,
    /// Read (and parse) the configuration source.
    ReadSource,
    /// Replace the shared mapping with this one, then wait.
    Publish(GameList),
}

/// The transition of the updater on one observation.
pub open spec fn step_spec(state: UpdaterState, paused: bool, event: SourceEvent) -> (
    UpdaterState,
    UpdaterAction,
) {
    if paused {
        (UpdaterState::Paused, UpdaterAction::Sleep)
    } else {
        let resumed = if state == UpdaterState::Paused {
            UpdaterState::WaitingForSource
        } else {
            state
        };
        match event {
            SourceEvent::Tick => (resumed, UpdaterAction::ReadSource),
            SourceEvent::Unavailable => (UpdaterState::WaitingForSource, UpdaterAction::Sleep),
            SourceEvent::Malformed => (UpdaterState::WaitingForSource, UpdaterAction::Sleep),
            SourceEvent::Unchanged => (resumed, UpdaterAction::Sleep),
            SourceEvent::Parsed(list) => (UpdaterState::Watching, UpdaterAction::Publish(list)),
        }
    }
}

/// The events that the loop may hand over: parsed mappings are well formed.
pub open spec fn event_ok(event: SourceEvent) -> bool {
    event matches SourceEvent::Parsed(list) ==> list.wf()
}

/// The next state and action of the updater, given whether the pause flag
/// was set when it was last read.
pub fn next_step(state: UpdaterState, paused: bool, event: SourceEvent) -> (r: (
    UpdaterState,
    UpdaterAction,
))
    requires
        event_ok(event),
    ensures
        r == step_spec(state, paused, event),
        r.1 matches UpdaterAction::Publish(list) ==> list.wf(),
{
    if paused {
        return (UpdaterState::Paused, UpdaterAction::Sleep);
    }
    let resumed = match state {
        UpdaterState::Paused => UpdaterState::WaitingForSource,
        other => other,
    };
    match event {
        SourceEvent::Tick => (resumed, UpdaterAction::ReadSource),
        SourceEvent::Unavailable => (UpdaterState::WaitingForSource, UpdaterAction::Sleep),
        SourceEvent::Malformed => (UpdaterState::WaitingForSource, UpdaterAction::Sleep),
        SourceEvent::Unchanged => (resumed, UpdaterAction::Sleep),
        SourceEvent::Parsed(list) => (UpdaterState::Watching, UpdaterAction::Publish(list)),
    }
}

/// The shared mapping after an action: only a publish changes it, and then
/// to the published mapping as a whole.
pub open spec fn apply_spec(m: Map<Seq<char>, Fps>, action: UpdaterAction) -> Map<Seq<char>, Fps> {
    match action {
        UpdaterAction::Publish(list) => list@,
        _ => m,
    }
}

/// Carries out an action's effect on a mapping.
pub fn apply(store: &mut GameList, action: UpdaterAction)
    requires
        old(store).wf(),
        action matches UpdaterAction::Publish(list) ==> list.wf(),
    ensures
        final(store).wf(),
        final(store)@ == apply_spec(old(store)@, action),
{
    match action {
        UpdaterAction::Publish(list) => store.replace_all(list),
        _ => {},
    }
}

/// The mapping and state after a run of observations, each with the pause
/// flag as it was read.
pub open spec fn run_spec(
    m: Map<Seq<char>, Fps>,
    state: UpdaterState,
    steps: Seq<(bool, SourceEvent)>,
) -> (Map<Seq<char>, Fps>, UpdaterState)
    decreases steps.len(),
{
    if steps.len() == 0 {
        (m, state)
    } else {
        let (next, action) = step_spec(state, steps[0].0, steps[0].1);
        run_spec(apply_spec(m, action), next, steps.drop_first())
    }
}

/// The mapping that an observation brought, if it brought one.
pub open spec fn parsed_map(event: SourceEvent) -> Option<Map<Seq<char>, Fps>> {
    match event {
        SourceEvent::Parsed(list) => Some(list@),
        _ => None,
    }
}

/// Whatever the run, the shared mapping afterwards is the one it started
/// with or, as a whole, one of the mappings that the run parsed: no mix of
/// two mappings is ever published.
pub proof fn lemma_only_whole_mappings(
    m: Map<Seq<char>, Fps>,
    state: UpdaterState,
    steps: Seq<(bool, SourceEvent)>,
)
    ensures
        run_spec(m, state, steps).0 == m || exists|i: int|
            0 <= i < steps.len() && #[trigger] parsed_map(steps[i].1) == Some(
                run_spec(m, state, steps).0,
            ),
    decreases steps.len(),
{
    if steps.len() > 0 {
        let (next, action) = step_spec(state, steps[0].0, steps[0].1);
        let rest = steps.drop_first();
        let m1 = apply_spec(m, action);
        lemma_only_whole_mappings(m1, next, rest);
        let end = run_spec(m1, next, rest).0;
        if end == m1 {
            if m1 != m {
                assert(parsed_map(steps[0].1) == Some(end));
            }
        } else {
            let i = choose|i: int| 0 <= i < rest.len() && #[trigger] parsed_map(rest[i].1) == Some(end);
            assert(steps[i + 1] == rest[i]);
            assert(parsed_map(steps[i + 1].1) == Some(end));
        }
    }
}

/// A failed read or parse leaves the published mapping as it was.
pub proof fn lemma_failure_keeps_last_good(
    m: Map<Seq<char>, Fps>,
    state: UpdaterState,
    paused: bool,
    event: SourceEvent,
)
    requires
        event matches SourceEvent::Malformed || event matches SourceEvent::Unavailable,
    ensures
        apply_spec(m, step_spec(state, paused, event).1) == m,
        step_spec(state, paused, event).1 matches UpdaterAction::Sleep,
{
}

/// While the pause flag reads as set, however often and whatever the source
/// does, the updater stays paused, only sleeps, and the mapping is untouched.
pub proof fn lemma_paused_is_idle(
    m: Map<Seq<char>, Fps>,
    state: UpdaterState,
    steps: Seq<(bool, SourceEvent)>,
)
    requires
        forall|i: int| 0 <= i < steps.len() ==> #[trigger] steps[i].0,
    ensures
        run_spec(m, state, steps).0 == m,
        steps.len() > 0 ==> run_spec(m, state, steps).1 == UpdaterState::Paused,
    decreases steps.len(),
{
    if steps.len() > 0 {
        let rest = steps.drop_first();
        assert forall|i: int| 0 <= i < rest.len() implies #[trigger] rest[i].0 by {
            assert(rest[i] == steps[i + 1]);
        }
        assert(steps[0].0);
        lemma_paused_is_idle(m, UpdaterState::Paused, rest);
    }
}

/// Publishing a mapping makes the shared mapping exactly that one, whatever
/// it was before.
pub proof fn lemma_publish_round_trip(m: Map<Seq<char>, Fps>, list: GameList)
    ensures
        apply_spec(m, UpdaterAction::Publish(list)) == list@,
{
}

/// Whether the source is unchanged since it was last parsed: its
/// modification stamp is known and equals the one recorded at that parse.
pub fn source_unchanged(modified: Option<u128>, last_parsed: Option<u128>) -> (r: bool)
    ensures
        r == (modified is Some && modified == last_parsed),
{
    match (modified, last_parsed) {
        (Some(m), Some(l)) => m == l,
        _ => false,
    }
}

} // verus!
