//! Hierarchical state machine driving the input session.
//!
//! States are identified by `StateId`; the caller supplies the handlers
//! through the `StateHandler` trait. Walks along super states and chains of
//! re-dispatched events are bounded by `MAX_STEPS`: a handler table whose
//! super states form a cycle, or whose handlers forward an event forever,
//! never finishes such a walk, and the machine stops it there.

use vstd::prelude::*;
use crate::session::StateId;

verus! {

/// The longest walk along super states or re-dispatches.
pub const MAX_STEPS: usize = 64;

/// System events delivered to state handlers alongside user events.
#[derive(Debug, Clone, Copy, PartialEq, Eq, Structural)]
pub enum SystemEvent {
    /// Query the super state (handlers must not act on this).
    Probe,
    Entry,
    Init,
    Exit,
}

/// What a state handler returns.
#[derive(Debug, Clone, Copy, PartialEq, Eq, Structural)]
pub enum StateResult {
    /// Event not handled here; bubble up to this super state.
    Super(StateId),
    /// The top state has no super state.
    Top,
    /// Event consumed, no transition.
    Handled,
    /// Initial transition target (from Init handlers).
    Initial(StateId),
    Transition(StateId),
    /// From Exit handlers: record shallow and deep history for this state.
    SaveHistory,
    /// From Init handlers: enter the saved shallow history, or this default.
    ShallowHistory(StateId),
    /// Transition to the deep history recorded for this state.
    DeepHistory(StateId),
    /// Transition, then re-dispatch the current event in the new state.
    Forward(StateId),
    /// Deep history transition and re-dispatch.
    DeepForward(StateId),
}

/// Dispatches events to state handlers.
pub trait StateHandler: Sized {
    type Event;

    /// The handler's own consistency, kept by every handler call.
    spec fn inv(&self) -> bool;

    /// The answer to a `Probe` of `state`: `Super` of its super state, or
    /// `Top`. The state hierarchy does not change.
    spec fn probe(&self, state: StateId) -> StateResult;

    /// The system events other than probes delivered so far, with the
    /// state each went to.
    spec fn calls(&self) -> Seq<(StateId, SystemEvent)>;

    /// The states asked so far to handle a user event, each with its
    /// answer.
    spec fn asked(&self) -> Seq<(StateId, StateResult)>;

    /// The user events handed to the states so far, one per state asked.
    spec fn heard(&self) -> Seq<Self::Event>;

    /// For each state asked, how many system events had been delivered
    /// before it was asked.
    spec fn asked_after(&self) -> Seq<nat>;

    /// The top state's initial substate.
    fn initial_state(&self) -> StateId;

    /// Run one state's handler for a user event.
    fn handle(&mut self, state: StateId, event: &Self::Event) -> (r: StateResult)
        requires
            old(self).inv(),
        ensures
            final(self).inv(),
            forall|s: StateId| #[trigger] final(self).probe(s) == old(self).probe(s),
            final(self).asked() == old(self).asked().push((state, r)),
            final(self).heard() == old(self).heard().push(*event),
            final(self).asked_after() == old(self).asked_after().push(old(self).calls().len()),
            final(self).calls() == old(self).calls(),
    ;

    /// Run one state's handler for a system event. A `Probe` only answers.
    fn handle_system(&mut self, state: StateId, event: SystemEvent) -> (r: StateResult)
        requires
            old(self).inv(),
        ensures
            final(self).inv(),
            forall|s: StateId| #[trigger] final(self).probe(s) == old(self).probe(s),
            event == SystemEvent::Probe ==> r == old(self).probe(state) && *final(self) == *old(self),
            event != SystemEvent::Probe ==> final(self).calls() == old(self).calls().push((state, event)),
            final(self).asked() == old(self).asked(),
            final(self).heard() == old(self).heard(),
            final(self).asked_after() == old(self).asked_after(),
    ;
}

/// Whether `state` is met walking up from `current` along the super
/// states that `h` answers, before the top and within `fuel` steps.
pub open spec fn on_chain<H: StateHandler>(h: H, current: StateId, state: StateId, top: StateId, fuel: nat) -> bool
    decreases fuel,
{
    if fuel == 0 || current == top {
        false
    } else if current == state {
        true
    } else {
        match h.probe(current) {
            StateResult::Super(s) => on_chain(h, s, state, top, (fuel - 1) as nat),
            _ => false,
        }
    }
}

/// The super state that `h` answers for `state`, if any.
pub open spec fn super_in<H: StateHandler>(h: H, state: StateId) -> Option<StateId> {
    match h.probe(state) {
        StateResult::Super(id) => Some(id),
        _ => None,
    }
}

/// Exit calls for `states`, in order.
pub open spec fn exits(states: Seq<StateId>) -> Seq<(StateId, SystemEvent)> {
    states.map_values(|st: StateId| (st, SystemEvent::Exit))
}

/// Entry calls for `path` taken from its end: the outermost state first.
pub open spec fn entries(path: Seq<StateId>) -> Seq<(StateId, SystemEvent)> {
    Seq::new(path.len(), |i: int| (path[path.len() - 1 - i], SystemEvent::Entry))
}

/// `path` cut before the first occurrence of `state`.
pub open spec fn cut_at(path: Seq<StateId>, state: StateId) -> Seq<StateId> {
    path.take(choose|i: int| 0 <= i < path.len() && path[i] == state && forall|j: int| 0 <= j < i ==> path[j] != state)
}

/// The states left walking up from `current` towards `stop`, within
/// `fuel` steps, and whether the walk met a state without super state.
pub open spec fn walk_up<H: StateHandler>(h: H, current: StateId, stop: StateId, fuel: nat) -> (Seq<StateId>, bool)
    decreases fuel,
{
    if current == stop || fuel == 0 {
        (Seq::empty(), false)
    } else {
        match super_in(h, current) {
            Some(s) => {
                let (rest, stuck) = walk_up(h, s, stop, (fuel - 1) as nat);
                (seq![current] + rest, stuck)
            },
            None => (seq![current], true),
        }
    }
}

/// The super states met climbing from `current` until `source`, within
/// `fuel` steps, and whether `source` was met.
pub open spec fn climb<H: StateHandler>(h: H, current: Option<StateId>, source: StateId, fuel: nat) -> (Seq<StateId>, bool)
    decreases fuel,
{
    if fuel == 0 {
        (Seq::empty(), false)
    } else {
        match current {
            None => (Seq::empty(), false),
            Some(st) => if st == source {
                (Seq::empty(), true)
            } else {
                let (rest, met) = climb(h, super_in(h, st), source, (fuel - 1) as nat);
                (seq![st] + rest, met)
            },
        }
    }
}

/// The states left climbing from `current` until one on `path`, within
/// `fuel` steps, and `path` cut before that state.
pub open spec fn descend<H: StateHandler>(h: H, current: Option<StateId>, path: Seq<StateId>, fuel: nat) -> (
    Seq<StateId>,
    Seq<StateId>,
)
    decreases fuel,
{
    if fuel == 0 {
        (Seq::empty(), path)
    } else {
        match current {
            None => (Seq::empty(), path),
            Some(st) => if path.contains(st) {
                (Seq::empty(), cut_at(path, st))
            } else {
                let (rest, p) = descend(h, super_in(h, st), path, (fuel - 1) as nat);
                (seq![st] + rest, p)
            },
        }
    }
}

proof fn lemma_cut_at(path: Seq<StateId>, state: StateId, i: int)
    requires
        0 <= i < path.len(),
        path[i] == state,
        forall|j: int| 0 <= j < i ==> path[j] != state,
    ensures
        cut_at(path, state) == path.take(i),
{
    let c = choose|k: int| 0 <= k < path.len() && path[k] == state && forall|j: int| 0 <= j < k ==> path[j] != state;
    assert(0 <= c < path.len() && path[c] == state && forall|j: int| 0 <= j < c ==> path[j] != state);
    if c < i {
        assert(path[c] != state);
    }
    if i < c {
        assert(path[i] != state);
    }
}

/// For a transition from `source` to `target`: the states exited after
/// `source` is reached, and the path to enter, innermost first.
pub open spec fn planned<H: StateHandler>(h: H, source: StateId, target: StateId) -> (Seq<StateId>, Seq<StateId>) {
    if source == target {
        (seq![source], seq![target])
    } else if super_in(h, target) == Some(source) {
        (Seq::empty(), seq![target])
    } else if super_in(h, source) == super_in(h, target) {
        (seq![source], seq![target])
    } else if super_in(h, source) == Some(target) {
        (seq![source], Seq::empty())
    } else {
        let (up, met) = match super_in(h, target) {
            Some(ts) => {
                let (c, m) = climb(h, super_in(h, ts), source, MAX_STEPS as nat);
                (seq![target, ts] + c, m)
            },
            None => (seq![target], false),
        };
        if met {
            (Seq::empty(), up)
        } else {
            let (e, p) = descend(h, super_in(h, source), up, MAX_STEPS as nat);
            (seq![source] + e, p)
        }
    }
}

proof fn lemma_climb_probe_only<H: StateHandler>(h0: H, h1: H, current: Option<StateId>, source: StateId, fuel: nat)
    requires
        forall|st: StateId| #[trigger] h1.probe(st) == h0.probe(st),
    ensures
        climb(h0, current, source, fuel) == climb(h1, current, source, fuel),
    decreases fuel,
{
    if fuel > 0 {
        if let Some(st) = current {
            assert(super_in(h0, st) == super_in(h1, st));
            lemma_climb_probe_only(h0, h1, super_in(h0, st), source, (fuel - 1) as nat);
        }
    }
}

proof fn lemma_descend_probe_only<H: StateHandler>(h0: H, h1: H, current: Option<StateId>, path: Seq<StateId>, fuel: nat)
    requires
        forall|st: StateId| #[trigger] h1.probe(st) == h0.probe(st),
    ensures
        descend(h0, current, path, fuel) == descend(h1, current, path, fuel),
    decreases fuel,
{
    if fuel > 0 {
        if let Some(st) = current {
            assert(super_in(h0, st) == super_in(h1, st));
            lemma_descend_probe_only(h0, h1, super_in(h0, st), path, (fuel - 1) as nat);
        }
    }
}

proof fn lemma_planned_probe_only<H: StateHandler>(h0: H, h1: H, source: StateId, target: StateId)
    requires
        forall|st: StateId| #[trigger] h1.probe(st) == h0.probe(st),
    ensures
        planned(h0, source, target) == planned(h1, source, target),
{
    assert(super_in(h0, source) == super_in(h1, source));
    assert(super_in(h0, target) == super_in(h1, target));
    if let Some(ts) = super_in(h0, target) {
        assert(super_in(h0, ts) == super_in(h1, ts));
        lemma_climb_probe_only(h0, h1, super_in(h0, ts), source, MAX_STEPS as nat);
    }
    let up = match super_in(h0, target) {
        Some(ts) => seq![target, ts] + climb(h0, super_in(h0, ts), source, MAX_STEPS as nat).0,
        None => seq![target],
    };
    lemma_descend_probe_only(h0, h1, super_in(h0, source), up, MAX_STEPS as nat);
}

proof fn lemma_walk_up_probe_only<H: StateHandler>(h0: H, h1: H, current: StateId, stop: StateId, fuel: nat)
    requires
        forall|st: StateId| #[trigger] h1.probe(st) == h0.probe(st),
    ensures
        walk_up(h0, current, stop, fuel) == walk_up(h1, current, stop, fuel),
    decreases fuel,
{
    if current != stop && fuel > 0 {
        assert(super_in(h0, current) == super_in(h1, current));
        if let Some(s) = super_in(h0, current) {
            lemma_walk_up_probe_only(h0, h1, s, stop, (fuel - 1) as nat);
        }
    }
}

proof fn lemma_transition_calls_probe_only<H: StateHandler>(
    h0: H,
    h1: H,
    calls: Seq<(StateId, SystemEvent)>,
    active: StateId,
    source: StateId,
    target: StateId,
)
    requires
        forall|st: StateId| #[trigger] h1.probe(st) == h0.probe(st),
    ensures
        transition_calls(h0, calls, active, source, target) == transition_calls(h1, calls, active, source, target),
{
    reveal(transition_calls);
    lemma_walk_up_probe_only(h0, h1, active, source, MAX_STEPS as nat);
    lemma_planned_probe_only(h0, h1, source, target);
}

/// The system calls a transition from `source` to `target` adds to
/// `calls` with `active` the active state: exits walking up from `active`
/// to `source`, then (unless that walk met a state without super state)
/// the exits up to the common ancestor and the entries down to `target`,
/// outermost first.
#[verifier::opaque]
pub open spec fn transition_calls<H: StateHandler>(
    h: H,
    calls: Seq<(StateId, SystemEvent)>,
    active: StateId,
    source: StateId,
    target: StateId,
) -> Seq<(StateId, SystemEvent)> {
    let (walked, stuck) = walk_up(h, active, source, MAX_STEPS as nat);
    if stuck {
        calls + exits(walked)
    } else {
        calls + exits(walked) + exits(planned(h, source, target).0) + entries(planned(h, source, target).1)
    }
}

/// Shallow and deep history recorded for a state.
#[derive(Debug, Clone, Copy)]
struct History {
    state: StateId,
    shallow: Option<StateId>,
    deep: Option<StateId>,
}

/// The first history entry recorded for `state`.
spec fn saved_entry(h: Seq<History>, state: StateId) -> Option<History>
    decreases h.len(),
{
    if h.len() == 0 {
        None
    } else if h[0].state == state {
        Some(h[0])
    } else {
        saved_entry(h.skip(1), state)
    }
}

proof fn lemma_saved_entry_step(h: Seq<History>, i: int, state: StateId)
    requires
        0 <= i < h.len(),
    ensures
        saved_entry(h.skip(i), state) == if h[i].state == state {
            Some(h[i])
        } else {
            saved_entry(h.skip(i + 1), state)
        },
{
    assert(h.skip(i).skip(1) =~= h.skip(i + 1));
}

proof fn lemma_saved_entry_push(h: Seq<History>, e: History, state: StateId)
    ensures
        saved_entry(h.push(e), state) == if saved_entry(h, state) is Some {
            saved_entry(h, state)
        } else if e.state == state {
            Some(e)
        } else {
            None
        },
    decreases h.len(),
{
    if h.len() > 0 {
        assert(h.push(e)[0] == h[0]);
        assert(h.push(e).skip(1) =~= h.skip(1).push(e));
        lemma_saved_entry_push(h.skip(1), e, state);
    } else {
        assert(h.push(e)[0] == e);
        assert(h.push(e).skip(1) =~= Seq::<History>::empty());
        assert(saved_entry(h.push(e).skip(1), state) is None);
    }
}

proof fn lemma_saved_entry_update(h: Seq<History>, i: int, e: History, state: StateId)
    requires
        0 <= i < h.len(),
        h[i].state == e.state,
        forall|j: int| 0 <= j < i ==> (#[trigger] h[j]).state != e.state,
    ensures
        saved_entry(h.update(i, e), state) == if state == e.state {
            Some(e)
        } else {
            saved_entry(h, state)
        },
    decreases i,
{
    if i == 0 {
        assert(h.update(i, e)[0] == e);
        assert(h.update(i, e).skip(1) =~= h.skip(1));
    } else {
        assert(h.update(i, e)[0] == h[0]);
        assert(h[0].state != e.state);
        assert(h.update(i, e).skip(1) =~= h.skip(1).update(i - 1, e));
        assert forall|j: int| 0 <= j < i - 1 implies (#[trigger] h.skip(1)[j]).state != e.state by {
            assert(h.skip(1)[j] == h[j + 1]);
        }
        lemma_saved_entry_update(h.skip(1), i - 1, e, state);
    }
}

/// The machine: current state plus history bookkeeping.
#[derive(Debug)]
pub struct StateMachine {
    top: StateId,
    active: Option<StateId>,
    prior: Option<StateId>,
    history: Vec<History>,
}

impl StateMachine {
    pub closed spec fn top_state(self) -> StateId {
        self.top
    }

    pub closed spec fn active_state(self) -> Option<StateId> {
        self.active
    }

    /// The shallow and deep history recorded for `state`, if any.
    pub closed spec fn history_of(self, state: StateId) -> Option<(Option<StateId>, Option<StateId>)> {
        match saved_entry(self.history@, state) {
            Some(e) => Some((e.shallow, e.deep)),
            None => None,
        }
    }

    /// The state last exited, if any since the transition began.
    pub closed spec fn prior_state(self) -> Option<StateId> {
        self.prior
    }

    /// `top` is a dedicated top state whose handler returns the initial
    /// state on Init and `Handled` otherwise.
    pub fn new(top: StateId) -> (m: StateMachine)
        ensures
            m.top_state() == top,
            m.active_state() is None,
    {
        StateMachine { top, active: None, prior: None, history: Vec::new() }
    }

    pub fn current_state(&self) -> (r: Option<StateId>)
        ensures
            r == self.active_state(),
    {
        self.active
    }

    fn find_history(&self, state: StateId) -> (r: Option<usize>)
        ensures
            r matches Some(i) ==> i < self.history@.len() && self.history@[i as int].state == state && forall|j: int|
                0 <= j < i ==> (#[trigger] self.history@[j]).state != state,
            r matches Some(i) ==> saved_entry(self.history@, state) == Some(self.history@[i as int]),
            r is None ==> saved_entry(self.history@, state) is None,
    {
        let mut i: usize = 0;
        assert(self.history@.skip(0) =~= self.history@);
        while i < self.history.len()
            invariant
                i <= self.history@.len(),
                forall|j: int| 0 <= j < i ==> (#[trigger] self.history@[j]).state != state,
                saved_entry(self.history@, state) == saved_entry(self.history@.skip(i as int), state),
            decreases self.history.len() - i,
        {
            proof {
                lemma_saved_entry_step(self.history@, i as int, state);
            }
            if self.history[i].state == state {
                return Some(i);
            }
            i += 1;
        }
        assert(self.history@.skip(i as int) =~= Seq::<History>::empty());
        None
    }

    fn record_history(&mut self, state: StateId, shallow: Option<StateId>, deep: Option<StateId>)
        ensures
            final(self).top == old(self).top,
            final(self).active == old(self).active,
            final(self).prior == old(self).prior,
            forall|s: StateId| #[trigger] final(self).history_of(s) == if s == state {
                Some((shallow, deep))
            } else {
                old(self).history_of(s)
            },
    {
        let entry = History { state, shallow, deep };
        match self.find_history(state) {
            Some(i) => {
                proof {
                    assert forall|s: StateId| #[trigger] saved_entry(self.history@.update(i as int, entry), s) == if s
                        == state {
                        Some(entry)
                    } else {
                        saved_entry(self.history@, s)
                    } by {
                        lemma_saved_entry_update(self.history@, i as int, entry, s);
                    }
                }
                self.history.set(i, entry);
            },
            None => {
                proof {
                    assert forall|s: StateId| #[trigger] saved_entry(self.history@.push(entry), s) == if s == state {
                        Some(entry)
                    } else {
                        saved_entry(self.history@, s)
                    } by {
                        lemma_saved_entry_push(self.history@, entry, s);
                        if s == state {
                        } else {
                        }
                    }
                }
                self.history.push(entry);
            },
        }
    }

    fn shallow_history(&self, state: StateId) -> (r: Option<StateId>)
        ensures
            r == match self.history_of(state) {
                Some(h) => h.0,
                None => None,
            },
    {
        match self.find_history(state) {
            Some(i) => self.history[i].shallow,
            None => None,
        }
    }

    fn deep_history(&self, state: StateId) -> (r: Option<StateId>)
        ensures
            r == match self.history_of(state) {
                Some(h) => h.1,
                None => None,
            },
    {
        match self.find_history(state) {
            Some(i) => self.history[i].deep,
            None => None,
        }
    }

    /// Whether `state` is the active state or one of its super states
    /// below the top.
    pub fn is_child_of<H: StateHandler>(&mut self, handler: &mut H, state: StateId) -> (r: bool)
        requires
            old(handler).inv(),
        ensures
            *final(handler) == *old(handler),
            final(self).top_state() == old(self).top_state(),
            final(self).active_state() == old(self).active_state(),
            r == (old(self).active_state() matches Some(a) && on_chain(
                *old(handler),
                a,
                state,
                old(self).top_state(),
                MAX_STEPS as nat,
            )),
    {
        let mut current = match self.active {
            Some(active) => active,
            None => {
                return false;
            },
        };
        let mut steps: usize = 0;
        while current != self.top && steps < MAX_STEPS
            invariant
                steps <= MAX_STEPS,
                handler.inv(),
                *handler == *old(handler),
                self.top == old(self).top,
                self.active == old(self).active,
                self.active is Some,
                on_chain(*handler, self.active->0, state, self.top, MAX_STEPS as nat) == on_chain(
                    *handler,
                    current,
                    state,
                    self.top,
                    (MAX_STEPS - steps) as nat,
                ),
            decreases MAX_STEPS - steps,
        {
            if current == state {
                return true;
            }
            match Self::super_state(handler, current) {
                Some(s) => {
                    current = s;
                },
                None => {
                    return false;
                },
            }
            steps += 1;
        }
        false
    }

    fn super_state<H: StateHandler>(handler: &mut H, state: StateId) -> (r: Option<StateId>)
        requires
            old(handler).inv(),
        ensures
            final(handler).inv(),
            *final(handler) == *old(handler),
            r == (match old(handler).probe(state) {
                StateResult::Super(id) => Some(id),
                _ => None,
            }),
    {
        match handler.handle_system(state, SystemEvent::Probe) {
            StateResult::Super(id) => Some(id),
            _ => None,
        }
    }

    fn entry_action<H: StateHandler>(handler: &mut H, state: StateId)
        requires
            old(handler).inv(),
        ensures
            final(handler).calls() == old(handler).calls().push((state, SystemEvent::Entry)),
            final(handler).asked() == old(handler).asked(),
            final(handler).heard() == old(handler).heard(),
            final(handler).asked_after() == old(handler).asked_after(),
            final(handler).inv(),
            forall|st: StateId| #[trigger] final(handler).probe(st) == old(handler).probe(st),
    {
        handler.handle_system(state, SystemEvent::Entry);
    }

    fn exit_action<H: StateHandler>(&mut self, handler: &mut H, state: StateId)
        requires
            old(handler).inv(),
        ensures
            final(handler).calls() == old(handler).calls().push((state, SystemEvent::Exit)),
            final(handler).asked() == old(handler).asked(),
            final(handler).heard() == old(handler).heard(),
            final(handler).asked_after() == old(handler).asked_after(),
            final(handler).inv(),
            final(self).top == old(self).top,
            final(self).active == old(self).active,
            forall|s: StateId| #[trigger] final(handler).probe(s) == old(handler).probe(s),
            final(self).prior_state() == Some(state),
            (forall|s: StateId| #[trigger] final(self).history_of(s) == old(self).history_of(s)) || (forall|s: StateId|
                #[trigger] final(self).history_of(s) == if s == state {
                    Some((old(self).prior_state(), old(self).active_state()))
                } else {
                    old(self).history_of(s)
                }),
    {
        let ghost before = *self;
        if let StateResult::SaveHistory = handler.handle_system(state, SystemEvent::Exit) {
            let prior = self.prior;
            let active = self.active;
            self.record_history(state, prior, active);
            let ghost mid = *self;
            self.prior = Some(state);
            assert forall|s: StateId| #[trigger] self.history_of(s) == if s == state {
                Some((before.prior_state(), before.active_state()))
            } else {
                before.history_of(s)
            } by {
                assert(self.history@ == mid.history@);
                assert(mid.history_of(s) == mid.history_of(s));
            }
        } else {
            self.prior = Some(state);
            assert(self.history@ == before.history@);
            assert forall|s: StateId| #[trigger] self.history_of(s) == before.history_of(s) by {}
        }
    }

    /// Enter `target` and follow its initial transitions down.
    fn initialize<H: StateHandler>(&mut self, handler: &mut H, target: StateId)
        requires
            old(handler).inv(),
        ensures
            final(handler).inv(),
            old(handler).calls().is_prefix_of(final(handler).calls()),
            final(handler).asked() == old(handler).asked(),
            final(handler).heard() == old(handler).heard(),
            final(handler).asked_after() == old(handler).asked_after(),
            forall|st: StateId| #[trigger] final(handler).probe(st) == old(handler).probe(st),
            final(self).top == old(self).top,
            final(self).active is Some,
            final(handler).calls().len() > old(handler).calls().len(),
            final(handler).calls()[old(handler).calls().len() as int] == (target, SystemEvent::Init),
    {
        let mut active = target;
        let mut steps: usize = 0;
        let ghost c0 = handler.calls();
        let ghost mut first: Seq<(StateId, SystemEvent)> = c0;
        let ghost mut started = false;
        while steps < MAX_STEPS
            invariant
                steps <= MAX_STEPS,
                handler.inv(),
                self.top == old(self).top,
                old(handler).calls().is_prefix_of(handler.calls()),
                handler.asked() == old(handler).asked(),
                handler.heard() == old(handler).heard(),
                handler.asked_after() == old(handler).asked_after(),
                forall|st: StateId| #[trigger] handler.probe(st) == old(handler).probe(st),
                c0 == old(handler).calls(),
                !started ==> steps == 0 && active == target && handler.calls() == c0,
                started ==> first.len() == c0.len() + 1 && first[c0.len() as int] == (target, SystemEvent::Init)
                    && first.is_prefix_of(handler.calls()),
            ensures
                started,
                first.len() == c0.len() + 1 && first[c0.len() as int] == (target, SystemEvent::Init)
                    && first.is_prefix_of(handler.calls()),
                handler.inv(),
                self.top == old(self).top,
                old(handler).calls().is_prefix_of(handler.calls()),
                handler.asked() == old(handler).asked(),
                handler.heard() == old(handler).heard(),
                handler.asked_after() == old(handler).asked_after(),
                forall|st: StateId| #[trigger] handler.probe(st) == old(handler).probe(st),
            decreases MAX_STEPS - steps,
        {
            let answer = handler.handle_system(active, SystemEvent::Init);
            proof {
                if !started {
                    first = handler.calls();
                    started = true;
                }
            }
            match answer {
                StateResult::Initial(next) => {
                    active = next;
                },
                StateResult::ShallowHistory(default) => {
                    match self.shallow_history(active) {
                        Some(saved) => {
                            active = saved;
                        },
                        None => {
                            self.record_history(active, Some(default), None);
                            active = default;
                        },
                    }
                },
                _ => {
                    break;
                },
            }
            Self::entry_action(handler, active);
            steps += 1;
        }
        assert(handler.calls()[c0.len() as int] == first[c0.len() as int]);
        self.active = Some(active);
    }

    /// Exit from the active state to `source`, then from `source` to the
    /// least common ancestor with `target`, and enter down to `target`.
    fn transition<H: StateHandler>(&mut self, handler: &mut H, source: StateId, target: StateId)
        requires
            old(handler).inv(),
        ensures
            final(handler).inv(),
            final(handler).asked() == old(handler).asked(),
            final(handler).heard() == old(handler).heard(),
            final(handler).asked_after() == old(handler).asked_after(),
            old(self).active_state() is None ==> final(handler).calls() == old(handler).calls(),
            old(self).active_state() matches Some(a) ==> final(handler).calls() == transition_calls(
                *old(handler),
                old(handler).calls(),
                a,
                source,
                target,
            ),
            final(self).top == old(self).top,
            final(self).active == old(self).active,
            forall|st: StateId| #[trigger] final(handler).probe(st) == old(handler).probe(st),
            old(self).active_state() is None ==> final(self).prior_state() is None && forall|st: StateId| #[trigger]
                final(self).history_of(st) == old(self).history_of(st),
            old(self).active_state() == Some(source) ==> {
                &&& source == target ==> final(self).prior_state() == Some(source)
                &&& source != target && super_in(*old(handler), target) == Some(source) ==> final(self).prior_state()
                    is None && forall|st: StateId| #[trigger] final(self).history_of(st) == old(self).history_of(st)
                &&& source != target && super_in(*old(handler), target) != Some(source) && super_in(
                    *old(handler),
                    source,
                ) == super_in(*old(handler), target) ==> final(self).prior_state() == Some(source)
                &&& source != target && super_in(*old(handler), target) != Some(source) && super_in(
                    *old(handler),
                    source,
                ) != super_in(*old(handler), target) && super_in(*old(handler), source) == Some(target)
                    ==> final(self).prior_state() == Some(source)
            },
    {
        proof {
            reveal(transition_calls);
        }
        self.prior = None;
        let mut tmp = match self.active {
            Some(a) => a,
            None => {
                return;
            },
        };
        let mut steps: usize = 0;
        let ghost h0 = *old(handler);
        let ghost c0 = old(handler).calls();
        let ghost a0 = tmp;
        let ghost walked: Seq<StateId> = Seq::empty();
        assert(exits(walked) =~= Seq::<(StateId, SystemEvent)>::empty());
        assert(c0 + exits(walked) =~= c0);
        assert(walked + walk_up(h0, tmp, source, MAX_STEPS as nat).0 =~= walk_up(h0, tmp, source, MAX_STEPS as nat).0);
        while tmp != source && steps < MAX_STEPS
            invariant
                h0 == *old(handler),
                c0 == old(handler).calls(),
                old(self).active == Some(a0),
                handler.calls() == c0 + exits(walked),
                handler.asked() == h0.asked(),
                handler.heard() == h0.heard(),
                handler.asked_after() == h0.asked_after(),
                walk_up(h0, a0, source, MAX_STEPS as nat) == (walked + walk_up(
                    h0,
                    tmp,
                    source,
                    (MAX_STEPS - steps) as nat,
                ).0, walk_up(h0, tmp, source, (MAX_STEPS - steps) as nat).1),
                steps <= MAX_STEPS,
                handler.inv(),
                self.top == old(self).top,
                self.active == old(self).active,
                forall|st: StateId| #[trigger] handler.probe(st) == old(handler).probe(st),
                old(self).active is Some,
                old(self).active == Some(source) ==> tmp == source && *handler == *old(handler) && self.history
                    == old(self).history && self.prior is None,
            decreases MAX_STEPS - steps,
        {
            self.exit_action(handler, tmp);
            proof {
                assert(exits(walked.push(tmp)) =~= exits(walked).push((tmp, SystemEvent::Exit)));
                assert((c0 + exits(walked)).push((tmp, SystemEvent::Exit)) =~= c0 + exits(walked.push(tmp)));
            }
            let ghost prev = tmp;
            match Self::super_state(handler, tmp) {
                Some(s) => {
                    proof {
                        assert(walked + (seq![prev] + walk_up(h0, s, source, (MAX_STEPS - steps - 1) as nat).0)
                            =~= walked.push(prev) + walk_up(h0, s, source, (MAX_STEPS - steps - 1) as nat).0);
                        walked = walked.push(prev);
                    }
                    tmp = s;
                },
                None => {
                    proof {
                        reveal(transition_calls);
                        assert(super_in(h0, prev) is None);
                        assert(walk_up(h0, prev, source, (MAX_STEPS - steps) as nat) == (seq![prev], true));
                        assert(walked + seq![prev] =~= walked.push(prev));
                        walked = walked.push(prev);
                    }
                    return;
                },
            }
            steps += 1;
        }
        assert(walk_up(h0, tmp, source, (MAX_STEPS - steps) as nat) == (Seq::<StateId>::empty(), false));
        assert(walked + Seq::<StateId>::empty() =~= walked);
        let ghost c1 = handler.calls();
        let mut path: Vec<StateId> = Vec::new();
        path.push(target);
        let ghost h1 = *handler;
        self.plan(handler, source, target, &mut path);
        proof {
            lemma_planned_probe_only(h0, h1, source, target);
        }
        let ghost after_plan = *self;
        let ghost c2 = handler.calls();
        let mut k: usize = path.len();
        assert(path@.skip(path@.len() as int) =~= Seq::<StateId>::empty());
        assert(entries(Seq::<StateId>::empty()) =~= Seq::<(StateId, SystemEvent)>::empty());
        assert(c2 + entries(path@.skip(k as int)) =~= c2);
        while k > 0
            invariant
                handler.calls() == c2 + entries(path@.skip(k as int)),
                handler.asked() == h0.asked(),
                handler.heard() == h0.heard(),
                handler.asked_after() == h0.asked_after(),
                k <= path@.len(),
                handler.inv(),
                *self == after_plan,
                forall|st: StateId| #[trigger] handler.probe(st) == old(handler).probe(st),
            decreases k,
        {
            k -= 1;
            Self::entry_action(handler, path[k]);
            proof {
                assert(entries(path@.skip(k as int)) =~= entries(path@.skip(k + 1)).push((path@[k as int], SystemEvent::Entry)));
                assert((c2 + entries(path@.skip(k + 1))).push((path@[k as int], SystemEvent::Entry)) =~= c2 + entries(
                    path@.skip(k as int),
                ));
            }
        }
        assert(path@.skip(0) =~= path@);
        reveal(transition_calls);
        assert(c1 + exits(planned(h0, source, target).0) + entries(planned(h0, source, target).1) =~= c0 + exits(walked)
            + exits(planned(h0, source, target).0) + entries(planned(h0, source, target).1));
    }

    /// Exit states up to the least common ancestor of `source` and
    /// `target`, leaving in `path` the states to enter, innermost first.
    #[verifier::rlimit(60)]
    fn plan<H: StateHandler>(&mut self, handler: &mut H, source: StateId, target: StateId, path: &mut Vec<StateId>)
        requires
            old(handler).inv(),
            old(path)@ == seq![target],
        ensures
            final(handler).inv(),
            final(handler).calls() == old(handler).calls() + exits(planned(*old(handler), source, target).0),
            final(path)@ == planned(*old(handler), source, target).1,
            final(handler).asked() == old(handler).asked(),
            final(handler).heard() == old(handler).heard(),
            final(handler).asked_after() == old(handler).asked_after(),
            final(self).top == old(self).top,
            final(self).active == old(self).active,
            forall|st: StateId| #[trigger] final(handler).probe(st) == old(handler).probe(st),
            source == target ==> final(path)@ == old(path)@ && final(self).prior_state() == Some(source),
            source != target && super_in(*old(handler), target) == Some(source) ==> final(path)@ == old(path)@
                && *final(self) == *old(self),
            source != target && super_in(*old(handler), target) != Some(source) && super_in(*old(handler), source)
                == super_in(*old(handler), target) ==> final(path)@ == old(path)@ && final(self).prior_state()
                == Some(source),
            source != target && super_in(*old(handler), target) != Some(source) && super_in(*old(handler), source)
                != super_in(*old(handler), target) && super_in(*old(handler), source) == Some(target) ==> final(path)@
                == Seq::<StateId>::empty() && final(self).prior_state() == Some(source),
    {
        // (a) self transition
        assert(exits(seq![source]) =~= seq![(source, SystemEvent::Exit)]);
        assert(exits(Seq::<StateId>::empty()) =~= Seq::<(StateId, SystemEvent)>::empty());
        assert(old(handler).calls() + Seq::<(StateId, SystemEvent)>::empty() =~= old(handler).calls());
        if source == target {
            self.exit_action(handler, source);
            return;
        }
        // (b) into a direct substate
        let target_super = Self::super_state(handler, target);
        if Some(source) == target_super {
            return;
        }
        // (c) sibling transition
        let source_super = Self::super_state(handler, source);
        if source_super == target_super {
            self.exit_action(handler, source);
            return;
        }
        // (d) out to the direct super state
        if source_super == Some(target) {
            self.exit_action(handler, source);
            path.clear();
            return;
        }
        let ghost h0 = *old(handler);
        let ghost c0 = old(handler).calls();
        assert(path@ == seq![target]);
        // (e) into a substate several levels down
        if let Some(ts) = target_super {
            path.push(ts);
            let mut cur = Self::super_state(handler, ts);
            let mut steps: usize = 0;
            assert(path@.skip(2) =~= Seq::<StateId>::empty());
            while steps < MAX_STEPS
                invariant
                    *handler == h0,
                    h0 == *old(handler),
                    target_super == Some(ts),
                    super_in(h0, target) == Some(ts),
                    path@.len() >= 2,
                    path@.take(2) == seq![target, ts],
                    climb(h0, super_in(h0, ts), source, MAX_STEPS as nat) == (path@.skip(2) + climb(
                        h0,
                        cur,
                        source,
                        (MAX_STEPS - steps) as nat,
                    ).0, climb(h0, cur, source, (MAX_STEPS - steps) as nat).1),
                    steps <= MAX_STEPS,
                    handler.inv(),
                    forall|st: StateId| #[trigger] handler.probe(st) == old(handler).probe(st),
                    source != target,
                    super_in(*old(handler), target) != Some(source),
                    super_in(*old(handler), source) != super_in(*old(handler), target),
                    super_in(*old(handler), source) != Some(target),
                    self.top == old(self).top,
                    self.active == old(self).active,
                ensures
                    steps == MAX_STEPS || cur is None,
                    path@.len() >= 2,
                    path@.take(2) == seq![target, ts],
                    *handler == h0,
                    climb(h0, super_in(h0, ts), source, MAX_STEPS as nat) == (path@.skip(2) + climb(
                        h0,
                        cur,
                        source,
                        (MAX_STEPS - steps) as nat,
                    ).0, climb(h0, cur, source, (MAX_STEPS - steps) as nat).1),
                    forall|st: StateId| #[trigger] handler.probe(st) == old(handler).probe(st),
                    self.top == old(self).top,
                    self.active == old(self).active,
                    handler.inv(),
                decreases MAX_STEPS - steps,
            {
                match cur {
                    Some(state) => {
                        if source == state {
                            proof {
                                assert(path@ =~= path@.take(2) + path@.skip(2));
                                assert(exits(Seq::<StateId>::empty()) =~= Seq::<(StateId, SystemEvent)>::empty());
                                assert(handler.calls() + exits(Seq::<StateId>::empty()) =~= handler.calls());
                            }
                            return;
                        }
                        let ghost before = path@;
                        path.push(state);
                        assert(path@.skip(2) =~= before.skip(2).push(state));
                        assert(path@.take(2) =~= before.take(2));
                        cur = Self::super_state(handler, state);
                        assert(before.skip(2) + (seq![state] + climb(h0, cur, source, (MAX_STEPS - steps - 1) as nat).0)
                            =~= path@.skip(2) + climb(h0, cur, source, (MAX_STEPS - steps - 1) as nat).0);
                    },
                    None => {
                        break;
                    },
                }
                steps += 1;
            }
            assert(path@ =~= path@.take(2) + path@.skip(2));
            assert(climb(h0, cur, source, (MAX_STEPS - steps) as nat) == (Seq::<StateId>::empty(), false));
            assert(path@.skip(2) + Seq::<StateId>::empty() =~= path@.skip(2));
            assert(climb(h0, super_in(h0, ts), source, MAX_STEPS as nat) == (path@.skip(2), false));
            assert(seq![target, ts] + path@.skip(2) =~= path@);
        }
        let ghost up = path@;
        assert(planned(h0, source, target) == (seq![source] + descend(h0, super_in(h0, source), up, MAX_STEPS as nat).0,
            descend(h0, super_in(h0, source), up, MAX_STEPS as nat).1));
        assert(!(planned(h0, source, target).0 =~= Seq::<StateId>::empty()) || true);
        self.exit_action(handler, source);
        // (f) unbalanced transition
        if let Some(ss) = source_super {
            let ghost p0 = path@;
            if truncate_at(path, ss) {
                proof {
                    let i = choose|i: int|
                        0 <= i < p0.len() && p0[i] == ss && (forall|j: int| 0 <= j < i ==> #[trigger] p0[j] != ss)
                            && path@ == p0.take(i);
                    lemma_cut_at(p0, ss, i);
                    assert(exits(seq![source]) =~= seq![(source, SystemEvent::Exit)]);
                }
                return;
            }
            // (g) out from a substate several levels up
            let mut cur = Some(ss);
            let mut steps: usize = 0;
            let ghost done: Seq<StateId> = Seq::empty();
            assert(seq![source] + done =~= seq![source]);
            assert(exits(seq![source]) =~= seq![(source, SystemEvent::Exit)]);
            while steps < MAX_STEPS
                invariant
                    path@ == up,
                    !up.contains(ss),
                    h0 == *old(handler),
                    c0 == old(handler).calls(),
                    super_in(h0, source) == Some(ss),
                    handler.calls() == c0 + exits(seq![source] + done),
                    handler.asked() == h0.asked(),
                    handler.heard() == h0.heard(),
                    handler.asked_after() == h0.asked_after(),
                    descend(h0, Some(ss), up, MAX_STEPS as nat) == (done + descend(
                        h0,
                        cur,
                        path@,
                        (MAX_STEPS - steps) as nat,
                    ).0, descend(h0, cur, path@, (MAX_STEPS - steps) as nat).1),
                    steps <= MAX_STEPS,
                    handler.inv(),
                    forall|st: StateId| #[trigger] handler.probe(st) == old(handler).probe(st),
                    source != target,
                    super_in(*old(handler), target) != Some(source),
                    super_in(*old(handler), source) != super_in(*old(handler), target),
                    super_in(*old(handler), source) != Some(target),
                    self.top == old(self).top,
                    self.active == old(self).active,
                    planned(h0, source, target) == (seq![source] + descend(
                        h0,
                        super_in(h0, source),
                        up,
                        MAX_STEPS as nat,
                    ).0, descend(h0, super_in(h0, source), up, MAX_STEPS as nat).1),
                ensures
                    steps == MAX_STEPS || cur is None,
                    path@ == up,
                    handler.calls() == c0 + exits(seq![source] + done),
                    handler.asked() == h0.asked(),
                    handler.heard() == h0.heard(),
                    handler.asked_after() == h0.asked_after(),
                    descend(h0, Some(ss), up, MAX_STEPS as nat) == (done + descend(
                        h0,
                        cur,
                        path@,
                        (MAX_STEPS - steps) as nat,
                    ).0, descend(h0, cur, path@, (MAX_STEPS - steps) as nat).1),
                    forall|st: StateId| #[trigger] handler.probe(st) == old(handler).probe(st),
                    self.top == old(self).top,
                    self.active == old(self).active,
                    handler.inv(),
                    planned(h0, source, target) == (seq![source] + descend(
                        h0,
                        super_in(h0, source),
                        up,
                        MAX_STEPS as nat,
                    ).0, descend(h0, super_in(h0, source), up, MAX_STEPS as nat).1),
                decreases MAX_STEPS - steps,
            {
                match cur {
                    Some(state) => {
                        let ghost p1 = path@;
                        if truncate_at(path, state) {
                            proof {
                                let i = choose|i: int|
                                    0 <= i < p1.len() && p1[i] == state && (forall|j: int|
                                        0 <= j < i ==> #[trigger] p1[j] != state) && path@ == p1.take(i);
                                lemma_cut_at(p1, state, i);
                                assert(p1.contains(state));
                                assert(descend(h0, Some(state), p1, (MAX_STEPS - steps) as nat) == (
                                Seq::<StateId>::empty(), cut_at(p1, state)));
                                assert(done + Seq::<StateId>::empty() =~= done);
                            }
                            return;
                        }
                        self.exit_action(handler, state);
                        proof {
                            assert(exits(seq![source] + done.push(state)) =~= exits(seq![source] + done).push(
                                (state, SystemEvent::Exit),
                            ));
                            assert((c0 + exits(seq![source] + done)).push((state, SystemEvent::Exit)) =~= c0 + exits(
                                seq![source] + done.push(state),
                            ));
                            done = done.push(state);
                        }
                        cur = Self::super_state(handler, state);
                        assert(done.drop_last() + (seq![state] + descend(
                            h0,
                            cur,
                            path@,
                            (MAX_STEPS - steps - 1) as nat,
                        ).0) =~= done + descend(h0, cur, path@, (MAX_STEPS - steps - 1) as nat).0);
                    },
                    None => {
                        break;
                    },
                }
                steps += 1;
            }
            assert(descend(h0, cur, path@, (MAX_STEPS - steps) as nat) == (Seq::<StateId>::empty(), up));
            assert(done + Seq::<StateId>::empty() =~= done);
        } else {
            assert(descend(h0, super_in(h0, source), up, MAX_STEPS as nat) == (Seq::<StateId>::empty(), up));
            assert(seq![source] + Seq::<StateId>::empty() =~= seq![source]);
        }
    }

    /// Enter the top state and its initial substates.
    pub fn start<H: StateHandler>(&mut self, handler: &mut H)
        requires
            old(handler).inv(),
        ensures
            final(handler).inv(),
            old(handler).calls().is_prefix_of(final(handler).calls()),
            final(handler).asked() == old(handler).asked(),
            final(handler).heard() == old(handler).heard(),
            final(handler).asked_after() == old(handler).asked_after(),
            forall|st: StateId| #[trigger] final(handler).probe(st) == old(handler).probe(st),
            final(self).top_state() == old(self).top_state(),
            final(self).active_state() is Some,
            final(handler).calls().len() > old(handler).calls().len(),
            final(handler).calls()[old(handler).calls().len() as int] == (old(self).top_state(), SystemEvent::Init),
    {
        let top = self.top;
        self.initialize(handler, top);
    }

    /// Deliver an event: to the active state, bubbling up to super states
    /// until handled, making the transitions the handlers ask for.
    ///
    /// The handler's log of user events grows by the walk: the active state
    /// first, then each super state a `Super` answer names. A walk whose
    /// answers ask for no transition leaves the machine where it was; a
    /// `Transition` answer after `Super` answers makes exactly the
    /// transition's exits and entries first.
    #[verifier::rlimit(100)]
    pub fn dispatch<H: StateHandler>(&mut self, handler: &mut H, event: &H::Event)
        requires
            old(handler).inv(),
        ensures
            final(handler).inv(),
            final(self).top_state() == old(self).top_state(),
            final(self).active_state() is Some,
            forall|st: StateId| #[trigger] final(handler).probe(st) == old(handler).probe(st),
            old(handler).asked().is_prefix_of(final(handler).asked()),
            final(handler).heard() == old(handler).heard() + Seq::new(
                (final(handler).asked().len() - old(handler).asked().len()) as nat,
                |i: int| *event,
            ),
            old(self).active_state() is None ==> final(handler).calls().len() > old(handler).calls().len()
                && final(handler).calls()[old(handler).calls().len() as int] == (old(self).top_state(), SystemEvent::Init)
                && final(handler).asked_after().len() > old(handler).asked_after().len()
                && final(handler).asked_after()[old(handler).asked_after().len() as int] > old(handler).calls().len(),
            ({
                let log = final(handler).asked().skip(old(handler).asked().len() as int);
                &&& log.len() >= 1
                &&& chained(log)
                &&& old(self).active_state() matches Some(a) ==> log[0].0 == a
                &&& old(self).active_state() is Some && quiet(log) ==> final(self).active_state()
                    == old(self).active_state() && final(handler).calls() == old(handler).calls()
                &&& old(self).active_state() is Some && supers_then(log) && log.last().1 is Transition
                    ==> transition_calls(
                    *old(handler),
                    old(handler).calls(),
                    old(self).active_state()->0,
                    log.last().0,
                    log.last().1->Transition_0,
                ).is_prefix_of(final(handler).calls())
            }),
    {
        if self.active.is_none() {
            self.start(handler);
        }
        let mut source = match self.active {
            Some(a) => a,
            None => self.top,
        };
        let ghost a0 = source;
        let ghost c_s = handler.calls();
        let ghost e0 = *event;
        assert(old(handler).heard() + Seq::new(0nat, |i: int| e0) =~= old(handler).heard());
        assert(old(handler).calls().is_prefix_of(c_s));
        let ghost q0 = old(handler).asked().len();
        let ghost h0 = *old(handler);
        let ghost was_active = old(self).active is Some;
        assert(handler.asked().skip(q0 as int) =~= Seq::<(StateId, StateResult)>::empty());
        let mut steps: usize = 0;
        let mut done = false;
        while !done && steps < MAX_STEPS
            invariant
                steps <= MAX_STEPS,
                handler.inv(),
                self.top == old(self).top,
                self.active is Some,
                forall|st: StateId| #[trigger] handler.probe(st) == old(handler).probe(st),
                h0 == *old(handler),
                q0 == old(handler).asked().len(),
                old(handler).asked().is_prefix_of(handler.asked()),
                handler.asked().len() == q0 + steps,
                e0 == *event,
                handler.heard() == old(handler).heard() + Seq::new(steps as nat, |i: int| e0),
                c_s.is_prefix_of(handler.calls()),
                old(handler).calls().is_prefix_of(c_s),
                !was_active ==> c_s.len() > old(handler).calls().len() && c_s[old(handler).calls().len() as int] == (
                old(self).top, SystemEvent::Init),
                handler.asked_after().len() == old(handler).asked_after().len() + steps,
                old(handler).asked_after().is_prefix_of(handler.asked_after()),
                steps > 0 ==> handler.asked_after()[old(handler).asked_after().len() as int] == c_s.len(),
                was_active == (old(self).active is Some),
                was_active ==> a0 == old(self).active->0 && c_s == old(handler).calls(),
                steps == 0 ==> source == a0 && !done,
                chained(handler.asked().skip(q0 as int)),
                !done && steps > 0 ==> continuing(handler.asked().last().1) && (handler.asked().last().1 is Super
                    ==> source == handler.asked().last().1->Super_0),
                steps > 0 ==> handler.asked().skip(q0 as int)[0].0 == a0,
                quiet(handler.asked().skip(q0 as int)) ==> self.active == Some(a0) && handler.calls() == c_s,
                supers_then(handler.asked().skip(q0 as int)) && steps > 0 && handler.asked().last().1 is Transition
                    ==> transition_calls(
                    h0,
                    c_s,
                    a0,
                    handler.asked().last().0,
                    handler.asked().last().1->Transition_0,
                ).is_prefix_of(handler.calls()),
            decreases MAX_STEPS - steps,
        {
            let ghost before = *handler;
            let ghost log0 = handler.asked().skip(q0 as int);
            let ghost heard0 = handler.heard();
            let ghost after0 = handler.asked_after();
            let ghost calls0 = handler.calls();
            let next = handler.handle(source, event);
            proof {
                assert(handler.asked_after().subrange(0, old(handler).asked_after().len() as int)
                    =~= after0.subrange(0, old(handler).asked_after().len() as int));
                if steps == 0 {
                    assert(calls0 == c_s);
                }
                assert(heard0.push(e0) =~= old(handler).heard() + Seq::new((steps + 1) as nat, |i: int| e0));
                assert(handler.asked().skip(q0 as int) =~= log0.push((source, next)));
                if steps > 0 {
                    assert(log0.last() == before.asked().last());
                }
                lemma_log_push(log0, (source, next));
            }
            let ghost log1 = handler.asked().skip(q0 as int);
            let ghost asked1 = handler.asked();
            match next {
                StateResult::Transition(id) | StateResult::Forward(id) => {
                    let ghost h1 = *handler;
                    let ghost quiet0 = quiet(log0);
                    let ghost act = self.active->0;
                    self.transition(handler, source, id);
                    let ghost c2 = handler.calls();
                    self.initialize(handler, id);
                    proof {
                        lemma_transition_calls_extend(h1, h1.calls(), act, source, id);
                        lemma_prefix_trans(c_s, h1.calls(), c2);
                        lemma_prefix_trans(c_s, c2, handler.calls());
                    }
                    proof {
                        if supers_then(log1) {
                            assert(quiet(log0)) by {
                                assert forall|i: int| 0 <= i < log0.len() implies !moving((#[trigger] log0[i]).1) by {
                                    assert((log0[i]).1 is Super);
                                }
                            }
                            lemma_transition_calls_probe_only(h0, h1, c_s, a0, source, id);
                        }
                    }
                    if let StateResult::Forward(_) = next {
                        source = id;
                    } else {
                        done = true;
                    }
                },
                StateResult::DeepHistory(id) | StateResult::DeepForward(id) => {
                    let target = match self.deep_history(id) {
                        Some(t) => t,
                        None => {
                            done = true;
                            steps += 1;
                            continue;
                        },
                    };
                    let ghost h2 = *handler;
                    let ghost act2 = self.active->0;
                    self.transition(handler, source, target);
                    let ghost c3 = handler.calls();
                    self.initialize(handler, target);
                    proof {
                        lemma_transition_calls_extend(h2, h2.calls(), act2, source, target);
                        lemma_prefix_trans(c_s, h2.calls(), c3);
                        lemma_prefix_trans(c_s, c3, handler.calls());
                    }
                    if let StateResult::DeepForward(_) = next {
                        source = target;
                    } else {
                        done = true;
                    }
                },
                StateResult::Super(s) => {
                    source = s;
                },
                _ => {
                    done = true;
                },
            }
            steps += 1;
        }
        assert(handler.asked().skip(q0 as int).len() >= 1);
        proof {
            if !was_active {
                assert(handler.calls()[old(handler).calls().len() as int] == c_s[old(handler).calls().len() as int]);
            }
        }
    }
}

proof fn lemma_transition_calls_extend<H: StateHandler>(
    h: H,
    calls: Seq<(StateId, SystemEvent)>,
    active: StateId,
    source: StateId,
    target: StateId,
)
    ensures
        calls.is_prefix_of(transition_calls(h, calls, active, source, target)),
{
    reveal(transition_calls);
    let t = transition_calls(h, calls, active, source, target);
    assert(t.subrange(0, calls.len() as int) =~= calls);
}

pub proof fn lemma_prefix_trans<T>(a: Seq<T>, b: Seq<T>, c: Seq<T>)
    requires
        a.is_prefix_of(b),
        b.is_prefix_of(c),
    ensures
        a.is_prefix_of(c),
{
    assert(c.subrange(0, a.len() as int) =~= b.subrange(0, a.len() as int));
}

/// Answers after which the walk goes on.
pub open spec fn continuing(r: StateResult) -> bool {
    r is Super || r is Forward || r is DeepForward
}

/// Answers that ask for a transition.
pub open spec fn moving(r: StateResult) -> bool {
    r is Transition || r is Forward || r is DeepHistory || r is DeepForward
}

/// Every answer but the last lets the walk go on, and a `Super` answer is
/// followed by a question to the super state it names.
pub open spec fn chained(log: Seq<(StateId, StateResult)>) -> bool {
    &&& forall|i: int| 0 <= i < log.len() - 1 ==> continuing((#[trigger] log[i]).1)
    &&& forall|i: int, j: int|
        #![trigger log[i], log[j]]
        0 <= i && j == i + 1 && j < log.len() ==> (log[i].1 is Super ==> log[j].0 == log[i].1->Super_0)
}

/// No answer asks for a transition.
pub open spec fn quiet(log: Seq<(StateId, StateResult)>) -> bool {
    forall|i: int| 0 <= i < log.len() ==> !moving((#[trigger] log[i]).1)
}

/// Every answer but the last is `Super`.
pub open spec fn supers_then(log: Seq<(StateId, StateResult)>) -> bool {
    forall|i: int| 0 <= i < log.len() - 1 ==> (#[trigger] log[i]).1 is Super
}

proof fn lemma_log_push(log: Seq<(StateId, StateResult)>, e: (StateId, StateResult))
    requires
        chained(log),
        log.len() > 0 ==> continuing(log.last().1) && (log.last().1 is Super ==> e.0 == log.last().1->Super_0),
    ensures
        chained(log.push(e)),
        quiet(log.push(e)) == (quiet(log) && !moving(e.1)),
        supers_then(log.push(e)) == (forall|i: int| 0 <= i < log.len() ==> (#[trigger] log[i]).1 is Super),
        log.push(e).last() == e,
        log.len() > 0 ==> log.push(e)[0] == log[0],
{
    lemma_log_push_chained(log, e);
    lemma_log_push_quiet(log, e);
    lemma_log_push_supers(log, e);
}

#[verifier::rlimit(100)]
proof fn lemma_log_push_chained(log: Seq<(StateId, StateResult)>, e: (StateId, StateResult))
    requires
        chained(log),
        log.len() > 0 ==> continuing(log.last().1) && (log.last().1 is Super ==> e.0 == log.last().1->Super_0),
    ensures
        chained(log.push(e)),
{
    let l = log.push(e);
    assert forall|i: int| 0 <= i < l.len() - 1 implies continuing((#[trigger] l[i]).1) by {
        assert(l[i] == log[i]);
    }
    assert forall|i: int, j: int| 0 <= i && j == i + 1 && j < l.len() implies (l[i].1 is Super ==> l[j].0
        == l[i].1->Super_0) by {
        assert(l[i] == log[i]);
        if j < log.len() {
            assert(l[j] == log[j]);
        }
    }
}

#[verifier::rlimit(100)]
proof fn lemma_log_push_quiet(log: Seq<(StateId, StateResult)>, e: (StateId, StateResult))
    ensures
        quiet(log.push(e)) == (quiet(log) && !moving(e.1)),
{
    let l = log.push(e);
    if quiet(l) {
        assert forall|i: int| 0 <= i < log.len() implies !moving((#[trigger] log[i]).1) by {
            assert(l[i] == log[i]);
        }
        assert(!moving(l[log.len() as int].1));
    }
    if quiet(log) && !moving(e.1) {
        assert forall|i: int| 0 <= i < l.len() implies !moving((#[trigger] l[i]).1) by {
            if i < log.len() {
                assert(l[i] == log[i]);
            }
        }
    }
}

#[verifier::rlimit(100)]
proof fn lemma_log_push_supers(log: Seq<(StateId, StateResult)>, e: (StateId, StateResult))
    ensures
        supers_then(log.push(e)) == (forall|i: int| 0 <= i < log.len() ==> (#[trigger] log[i]).1 is Super),
{
    let l = log.push(e);
    if supers_then(l) {
        assert forall|i: int| 0 <= i < log.len() implies (#[trigger] log[i]).1 is Super by {
            assert(l[i] == log[i]);
        }
    }
    if forall|i: int| 0 <= i < log.len() ==> (#[trigger] log[i]).1 is Super {
        assert forall|i: int| 0 <= i < l.len() - 1 implies (#[trigger] l[i]).1 is Super by {
            assert(l[i] == log[i]);
        }
    }
}

/// Cut `path` at the first occurrence of `state`.
fn truncate_at(path: &mut Vec<StateId>, state: StateId) -> (found: bool)
    ensures
        found == old(path)@.contains(state),
        found ==> exists|i: int|
            0 <= i < old(path)@.len() && old(path)@[i] == state && (forall|j: int|
                0 <= j < i ==> #[trigger] old(path)@[j] != state) && final(path)@ == old(path)@.take(i),
        !found ==> final(path)@ == old(path)@,
{
    let mut i: usize = 0;
    while i < path.len()
        invariant
            i <= path@.len(),
            path@ == old(path)@,
            forall|j: int| 0 <= j < i ==> #[trigger] old(path)@[j] != state,
        decreases path.len() - i,
    {
        if path[i] == state {
            let ghost before = path@;
            path.truncate(i);
            assert(path@ =~= before.take(i as int));
            return true;
        }
        i += 1;
    }
    false
}

} // verus!
