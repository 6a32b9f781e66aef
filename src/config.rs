//! The game profile store: the published mapping, the pause flag, and the
//! foreground query against them.
//!
//! One updater replaces the mapping as a whole and any number of readers
//! consult it; sharing the store between threads is up to the caller, who
//! holds it behind a lock so that each method runs as one step.
use vstd::prelude::*;

use crate::foreground::{focusable_packages, resolve};
use crate::game_list::GameList;
use crate::updater::{apply_spec, next_step, step_spec, SourceEvent, UpdaterAction, UpdaterState, event_ok};
use crate::Fps;

verus! {

/// The published mapping from game to target frame rate, and whether the
/// updater has been told to stop changing it.
pub struct Config {
    game_list: GameList,
    paused: bool,
}

impl View for Config {
    type V = Map<Seq<char>, Fps>;

    closed spec fn view(&self) -> Map<Seq<char>, Fps> {
        self.game_list@
    }
}

impl Config {
    /// The mapping's keys are unique.
    pub closed spec fn wf(&self) -> bool {
        self.game_list.wf()
    }

    /// Whether the pause flag is set.
    pub closed spec fn paused(&self) -> bool {
        self.paused
    }

    /// A store with an empty mapping, not paused.
    pub fn new() -> (r: Config)
        ensures
            r.wf(),
            r@ == Map::<Seq<char>, Fps>::empty(),
            !r.paused(),
    {
        Config { game_list: GameList::new(), paused: false }
    }

    /// Replaces the whole mapping at once with `new_entries`.
    pub fn replace_all(&mut self, new_entries: GameList)
        requires
            old(self).wf(),
            new_entries.wf(),
        ensures
            final(self).wf(),
            final(self)@ == new_entries@,
            final(self).paused() == old(self).paused(),
    {
        self.game_list.replace_all(new_entries);
    }

    /// Carries out an updater action on the mapping.
    pub fn perform(&mut self, action: UpdaterAction)
        requires
            old(self).wf(),
            action matches UpdaterAction::Publish(list) ==> list.wf(),
        ensures
            final(self).wf(),
            final(self)@ == apply_spec(old(self)@, action),
            final(self).paused() == old(self).paused(),
    {
        match action {
            UpdaterAction::Publish(list) => self.replace_all(list),
            _ => {},
        }
    }

    /// One step of the updater: decides on `event` with the pause flag as it
    /// stands, publishes when the decision is to publish, and returns the
    /// next state and whether the source is to be read next (else the
    /// updater waits). While paused the mapping is left as it is.
    pub fn advance(&mut self, state: UpdaterState, event: SourceEvent) -> (r: (UpdaterState, bool))
        requires
            old(self).wf(),
            event_ok(event),
        ensures
            final(self).wf(),
            final(self).paused() == old(self).paused(),
            r.0 == step_spec(state, old(self).paused(), event).0,
            r.1 == (step_spec(state, old(self).paused(), event).1 matches UpdaterAction::ReadSource),
            final(self)@ == apply_spec(old(self)@, step_spec(state, old(self).paused(), event).1),
            old(self).paused() ==> final(self)@ == old(self)@,
            (event matches SourceEvent::Malformed || event matches SourceEvent::Unavailable)
                ==> final(self)@ == old(self)@,
    {
        let (next, action) = next_step(state, self.paused, event);
        let read = match action {
            UpdaterAction::ReadSource => true,
            _ => false,
        };
        self.perform(action);
        (next, read)
    }

    /// An independent copy of the mapping.
    pub fn read_snapshot(&self) -> (r: GameList)
        requires
            self.wf(),
        ensures
            r.wf(),
            r@ == self@,
    {
        self.game_list.snapshot()
    }

    /// Sets or clears the pause flag; the mapping stays.
    pub fn set_paused(&mut self, paused: bool)
        ensures
            final(self).paused() == paused,
            final(self)@ == old(self)@,
            final(self).wf() == old(self).wf(),
    {
        self.paused = paused;
    }

    /// Whether the pause flag is set.
    pub fn is_paused(&self) -> (r: bool)
        ensures
            r == self.paused(),
    {
        self.paused
    }

    /// Tells the updater to stop changing the mapping; the mapping stays.
    pub fn shutdown(&mut self)
        ensures
            final(self).paused(),
            final(self)@ == old(self)@,
            final(self).wf() == old(self).wf(),
    {
        self.set_paused(true);
    }

    /// The configured game in the foreground, with its target frame rate
    /// copied out of the mapping, from the visible-windows listing `dump`;
    /// `None` where the listing could not be had. When several focusable
    /// games are configured, which one is returned is left open.
    pub fn cur_game_fps(&self, dump: Option<&str>) -> (r: Option<(String, Fps)>)
        requires
            self.wf(),
        ensures
            dump is None ==> r is None,
            dump matches Some(d) ==> (r is None <==> forall|p: Seq<char>|
                #[trigger] focusable_packages(d@).contains(p) ==> !self@.contains_key(p)),
            r matches Some(hit) ==> dump matches Some(d) && focusable_packages(d@).contains(hit.0@)
                && self@.contains_key(hit.0@) && self@[hit.0@] == hit.1,
    {
        match dump {
            None => None,
            Some(d) => resolve(&self.game_list, d),
        }
    }
}

} // verus!
