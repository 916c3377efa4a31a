//! The watch/diff engine as mathematics: what a poll of the process table does
//! to the presence states and which events it emits, and the laws that follow.

use crate::events::Event;
use crate::ProcState;
use vstd::prelude::*;

verus! {

/// A process table: process ids with command names, in enumeration order.
pub type Snapshot = Seq<(i32, Seq<char>)>;

/// Whether record `i` is the first of `snapshot` that carries `name`.
pub open spec fn is_first_match(snapshot: Snapshot, name: Seq<char>, i: int) -> bool {
    &&& 0 <= i < snapshot.len()
    &&& snapshot[i].1 == name
    &&& forall|j: int| 0 <= j < i ==> (#[trigger] snapshot[j]).1 != name
}

/// The process id of the first record of `snapshot` whose name equals `name`
/// exactly, if there is one.
pub open spec fn found(snapshot: Snapshot, name: Seq<char>) -> Option<i32> {
    if exists|i: int| is_first_match(snapshot, name, i) {
        Some(snapshot[choose|i: int| is_first_match(snapshot, name, i)].0)
    } else {
        None
    }
}

/// The presence state that a lookup establishes.
pub open spec fn presence(found: Option<i32>) -> ProcState {
    match found {
        Some(pid) => ProcState::Running { pid },
        None => ProcState::Stopped,
    }
}

/// The event of a tick for one name: none while nothing changed; `Appeared`
/// when the process came up or runs under another id; `Disappeared`, with the
/// id it had, when it is gone.
pub open spec fn tick_event(name: Seq<char>, prior: ProcState, found: Option<i32>) -> Option<
    Event,
> {
    match (prior, found) {
        (ProcState::Stopped, Some(pid)) => Some(Event::Appeared { name, pid }),
        (ProcState::Running { pid: old_pid }, Some(pid)) => if old_pid != pid {
            Some(Event::Appeared { name, pid })
        } else {
            None
        },
        (ProcState::Running { pid: old_pid }, None) => Some(
            Event::Disappeared { name, pid: old_pid },
        ),
        (ProcState::Stopped, None) => None,
    }
}

/// The event of priming for one name: `Missing` where that was asked for and
/// the process was not found.
pub open spec fn prime_event(name: Seq<char>, found: Option<i32>, emit_missing: bool) -> Option<
    Event,
> {
    if emit_missing && found is None {
        Some(Event::Missing { name })
    } else {
        None
    }
}

/// The events of `events` that are about `name`, in order.
pub open spec fn about(events: Seq<Event>, name: Seq<char>) -> Seq<Event> {
    events.filter(|e: Event| e.name() == name)
}

/// What the engine tracks: the watched names in the order in which they were
/// first watched, the ignored names, and the presence state of each name that
/// has one.
pub struct Tracking {
    pub watched: Seq<Seq<char>>,
    pub ignored: Set<Seq<char>>,
    pub states: Map<Seq<char>, ProcState>,
}

impl Tracking {
    /// No name is watched twice, and only watched names have a state.
    pub open spec fn wf(self) -> bool {
        &&& self.watched.no_duplicates()
        &&& forall|name: Seq<char>| #[trigger]
            self.states.contains_key(name) ==> self.watched.contains(name)
    }

    /// Whether polls look at `name`: it is watched and not ignored.
    pub open spec fn active(self, name: Seq<char>) -> bool {
        self.watched.contains(name) && !self.ignored.contains(name)
    }

    /// The presence state of `name`; a name without one counts as stopped.
    pub open spec fn state_of(self, name: Seq<char>) -> ProcState {
        if self.states.contains_key(name) {
            self.states[name]
        } else {
            ProcState::Stopped
        }
    }

    /// The event that a tick on `snapshot` emits for `name`, if any.
    pub open spec fn event_at(self, snapshot: Snapshot, name: Seq<char>) -> Option<Event> {
        if self.active(name) {
            tick_event(name, self.state_of(name), found(snapshot, name))
        } else {
            None
        }
    }

    /// The events of a tick on `snapshot`: one for each name whose presence
    /// changed, in watch order.
    pub open spec fn tick_events(self, snapshot: Snapshot) -> Seq<Event> {
        self.watched.filter_map(|name: Seq<char>| self.event_at(snapshot, name))
    }

    /// The tracking after a tick on `snapshot`: each active name whose presence
    /// changed has the state that the snapshot shows; nothing else changes.
    pub open spec fn tick(self, snapshot: Snapshot) -> Tracking {
        Tracking {
            watched: self.watched,
            ignored: self.ignored,
            states: Map::new(
                |name: Seq<char>|
                    self.states.contains_key(name) || self.event_at(snapshot, name) is Some,
                |name: Seq<char>|
                    if self.active(name) {
                        presence(found(snapshot, name))
                    } else {
                        self.states[name]
                    },
            ),
        }
    }

    /// The event that priming on `snapshot` emits for `name`, if any.
    pub open spec fn missing_at(self, snapshot: Snapshot, name: Seq<char>, emit_missing: bool)
        -> Option<Event> {
        if self.active(name) {
            prime_event(name, found(snapshot, name), emit_missing)
        } else {
            None
        }
    }

    /// The events of priming on `snapshot`, in watch order.
    pub open spec fn prime_events(self, snapshot: Snapshot, emit_missing: bool) -> Seq<Event> {
        self.watched.filter_map(|name: Seq<char>| self.missing_at(snapshot, name, emit_missing))
    }

    /// The tracking after priming on `snapshot`: each active name has the state
    /// that the snapshot shows; nothing else changes.
    pub open spec fn prime(self, snapshot: Snapshot) -> Tracking {
        Tracking {
            watched: self.watched,
            ignored: self.ignored,
            states: Map::new(
                |name: Seq<char>| self.states.contains_key(name) || self.active(name),
                |name: Seq<char>|
                    if self.active(name) {
                        presence(found(snapshot, name))
                    } else {
                        self.states[name]
                    },
            ),
        }
    }

    /// Whether `next` is this tracking after one poll of `snapshot`, be it the
    /// priming pass or a tick.
    pub open spec fn polled(self, snapshot: Snapshot, next: Tracking) -> bool {
        next == self.prime(snapshot) || next == self.tick(snapshot)
    }
}

/// At most one record is the first match.
pub proof fn lemma_first_match_unique(snapshot: Snapshot, name: Seq<char>, i: int, j: int)
    requires
        is_first_match(snapshot, name, i),
        is_first_match(snapshot, name, j),
    ensures
        i == j,
{
    if i < j {
        assert(snapshot[i].1 != name);
    } else if j < i {
        assert(snapshot[j].1 != name);
    }
}

/// A first match decides the lookup.
pub proof fn lemma_found_at(snapshot: Snapshot, name: Seq<char>, i: int)
    requires
        is_first_match(snapshot, name, i),
    ensures
        found(snapshot, name) == Some(snapshot[i].0),
{
    let k = choose|k: int| is_first_match(snapshot, name, k);
    lemma_first_match_unique(snapshot, name, i, k);
}

/// A table without a record of that name yields nothing.
pub proof fn lemma_found_none(snapshot: Snapshot, name: Seq<char>)
    requires
        forall|j: int| 0 <= j < snapshot.len() ==> (#[trigger] snapshot[j]).1 != name,
    ensures
        found(snapshot, name) is None,
{
}

/// After a poll, the state of an active name is what the snapshot showed.
pub proof fn law_poll_reflects_snapshot(
    before: Tracking,
    snapshot: Snapshot,
    after: Tracking,
    name: Seq<char>,
)
    requires
        before.polled(snapshot, after),
        before.active(name),
    ensures
        after.state_of(name) == presence(found(snapshot, name)),
        after.active(name),
{
}

/// A poll keeps the tracking well formed.
pub proof fn lemma_poll_keeps_wf(before: Tracking, snapshot: Snapshot, after: Tracking)
    requires
        before.wf(),
        before.polled(snapshot, after),
    ensures
        after.wf(),
        after.watched == before.watched,
        after.ignored == before.ignored,
{
}

/// Of the events that `f` yields over distinct names, those about `name` are
/// the one that `f` yields for `name` itself, if `name` is among them.
proof fn lemma_about(names: Seq<Seq<char>>, f: spec_fn(Seq<char>) -> Option<Event>, name: Seq<char>)
    requires
        names.no_duplicates(),
        forall|n: Seq<char>| (#[trigger] f(n)) matches Some(e) ==> e.name() == n,
    ensures
        about(names.filter_map(f), name) == if names.contains(name) && f(name) is Some {
            seq![f(name)->0]
        } else {
            Seq::<Event>::empty()
        },
    decreases names.len(),
{
    let pred = |e: Event| e.name() == name;
    if names.len() == 0 {
        assert(names.filter_map(f) =~= Seq::<Event>::empty());
        assert(!names.contains(name));
    } else {
        let rest = names.drop_last();
        let last = names.last();
        assert(rest.no_duplicates());
        lemma_about(rest, f, name);
        assert(!rest.contains(last)) by {
            if rest.contains(last) {
                let i = choose|i: int| 0 <= i < rest.len() && rest[i] == last;
                assert(names[i] == names[names.len() - 1]);
            }
        }
        assert(names.contains(name) <==> (rest.contains(name) || last == name)) by {
            if rest.contains(name) {
                let i = choose|i: int| 0 <= i < rest.len() && rest[i] == name;
                assert(names[i] == name);
            }
            if last == name {
                assert(names[names.len() - 1] == name);
            }
            if names.contains(name) {
                let i = choose|i: int| 0 <= i < names.len() && names[i] == name;
                if i < rest.len() {
                    assert(rest[i] == name);
                }
            }
        }
        match f(last) {
            Some(e) => {
                assert(names.filter_map(f) =~= rest.filter_map(f).push(e));
                rest.filter_map(f).lemma_filter_push(e, pred);
                assert(pred(e) == (last == name));
            },
            None => {
                assert(names.filter_map(f) == rest.filter_map(f));
            },
        }
    }
}

/// The events of a tick that are about one name: the one event of its change,
/// or none.
pub proof fn lemma_tick_events_about(t: Tracking, snapshot: Snapshot, name: Seq<char>)
    requires
        t.wf(),
    ensures
        about(t.tick_events(snapshot), name) == match t.event_at(snapshot, name) {
            Some(e) => seq![e],
            None => Seq::<Event>::empty(),
        },
{
    lemma_about(t.watched, |n: Seq<char>| t.event_at(snapshot, n), name);
}

/// The events of priming that are about one name: `Missing` where it was asked
/// for and the process was not found, or none.
pub proof fn lemma_prime_events_about(
    t: Tracking,
    snapshot: Snapshot,
    name: Seq<char>,
    emit_missing: bool,
)
    requires
        t.wf(),
    ensures
        about(t.prime_events(snapshot, emit_missing), name) == match t.missing_at(
            snapshot,
            name,
            emit_missing,
        ) {
            Some(e) => seq![e],
            None => Seq::<Event>::empty(),
        },
{
    lemma_about(t.watched, |n: Seq<char>| t.missing_at(snapshot, n, emit_missing), name);
}

/// A watched name that the last poll did not find and this one finds under
/// `pid`: the tick emits exactly one event about it, `Appeared` with `pid`, and
/// its state becomes running under `pid`.
pub proof fn law_appearance(
    before: Tracking,
    first: Snapshot,
    polled: Tracking,
    second: Snapshot,
    name: Seq<char>,
    pid: i32,
)
    requires
        before.wf(),
        before.active(name),
        before.polled(first, polled),
        found(first, name) is None,
        found(second, name) == Some(pid),
    ensures
        about(polled.tick_events(second), name) == seq![Event::Appeared { name, pid }],
        polled.tick(second).state_of(name) == (ProcState::Running { pid }),
{
    lemma_poll_keeps_wf(before, first, polled);
    lemma_tick_events_about(polled, second, name);
}

/// A watched name that the last poll found under `pid` and this one does not
/// find: the tick emits exactly one event about it, `Disappeared`, and its
/// state becomes stopped.
pub proof fn law_disappearance(
    before: Tracking,
    first: Snapshot,
    polled: Tracking,
    second: Snapshot,
    name: Seq<char>,
    pid: i32,
)
    requires
        before.wf(),
        before.active(name),
        before.polled(first, polled),
        found(first, name) == Some(pid),
        found(second, name) is None,
    ensures
        about(polled.tick_events(second), name) == seq![Event::Disappeared { name, pid }],
        polled.tick(second).state_of(name) == ProcState::Stopped,
{
    lemma_poll_keeps_wf(before, first, polled);
    lemma_tick_events_about(polled, second, name);
}

/// A watched name that both polls find under the same id, or that neither
/// finds: the tick emits nothing about it and leaves its state as it was.
pub proof fn law_steady_state(
    before: Tracking,
    first: Snapshot,
    polled: Tracking,
    second: Snapshot,
    name: Seq<char>,
)
    requires
        before.wf(),
        before.active(name),
        before.polled(first, polled),
        found(first, name) == found(second, name),
    ensures
        about(polled.tick_events(second), name) == Seq::<Event>::empty(),
        polled.tick(second).state_of(name) == polled.state_of(name),
        polled.tick(second).states.contains_key(name) == polled.states.contains_key(name),
{
    lemma_poll_keeps_wf(before, first, polled);
    lemma_tick_events_about(polled, second, name);
}

/// A watched name that the last poll found under one id and this one finds
/// under another: the tick emits exactly one event about it, `Appeared` with
/// the new id and no `Disappeared`, and its state becomes running under the
/// new id.
pub proof fn law_replacement(
    before: Tracking,
    first: Snapshot,
    polled: Tracking,
    second: Snapshot,
    name: Seq<char>,
    old_pid: i32,
    new_pid: i32,
)
    requires
        before.wf(),
        before.active(name),
        before.polled(first, polled),
        found(first, name) == Some(old_pid),
        found(second, name) == Some(new_pid),
        old_pid != new_pid,
    ensures
        about(polled.tick_events(second), name) == seq![Event::Appeared { name, pid: new_pid }],
        polled.tick(second).state_of(name) == (ProcState::Running { pid: new_pid }),
{
    lemma_poll_keeps_wf(before, first, polled);
    lemma_tick_events_about(polled, second, name);
}

/// An ignored name: no poll emits an event about it, gives it a state, or
/// changes the state that it has.
pub proof fn law_ignored(
    t: Tracking,
    snapshot: Snapshot,
    next: Tracking,
    name: Seq<char>,
    emit_missing: bool,
)
    requires
        t.wf(),
        t.ignored.contains(name),
        t.polled(snapshot, next),
    ensures
        about(t.tick_events(snapshot), name) == Seq::<Event>::empty(),
        about(t.prime_events(snapshot, emit_missing), name) == Seq::<Event>::empty(),
        next.states.contains_key(name) == t.states.contains_key(name),
        next.state_of(name) == t.state_of(name),
{
    lemma_tick_events_about(t, snapshot, name);
    lemma_prime_events_about(t, snapshot, name, emit_missing);
}

/// A name that was ignored before it was ever polled has no state, however
/// many ticks follow, with or without a priming pass before them.
pub proof fn law_ignored_never_tracked(
    t: Tracking,
    primer: Snapshot,
    snapshots: Seq<Snapshot>,
    name: Seq<char>,
)
    requires
        t.ignored.contains(name),
        !t.states.contains_key(name),
    ensures
        !ticked(t, snapshots).states.contains_key(name),
        !ticked(t.prime(primer), snapshots).states.contains_key(name),
    decreases snapshots.len(),
{
    if snapshots.len() > 0 {
        law_ignored_never_tracked(t, primer, snapshots.drop_last(), name);
        lemma_ticked_keeps(t, snapshots.drop_last());
        lemma_ticked_keeps(t.prime(primer), snapshots.drop_last());
    }
}

/// The tracking after one tick on each of `snapshots`, in order.
pub open spec fn ticked(t: Tracking, snapshots: Seq<Snapshot>) -> Tracking
    decreases snapshots.len(),
{
    if snapshots.len() == 0 {
        t
    } else {
        ticked(t, snapshots.drop_last()).tick(snapshots.last())
    }
}

/// Ticks change neither the watched nor the ignored names.
pub proof fn lemma_ticked_keeps(t: Tracking, snapshots: Seq<Snapshot>)
    ensures
        ticked(t, snapshots).watched == t.watched,
        ticked(t, snapshots).ignored == t.ignored,
    decreases snapshots.len(),
{
    if snapshots.len() > 0 {
        lemma_ticked_keeps(t, snapshots.drop_last());
    }
}

} // verus!
