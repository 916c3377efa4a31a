//! A watcher for named operating-system processes. It is handed the process
//! table poll by poll, tracks which watched names are present, and says which
//! events each poll gives rise to and which callbacks receive them. Taking the
//! table from the system, waiting between polls and running the handlers is
//! the caller's part.

use crate::diff::{found, presence, Snapshot, Tracking};
use crate::events::{event_views, Event, EventKind, ProcDogCallback, ProcDogEvent};
use std::time::Duration;
use vstd::prelude::*;

pub mod backends;
pub mod diff;
pub mod events;
pub mod text;

verus! {

/// Presence of a watched process as of the most recent poll.
#[derive(Clone, Copy, Debug, PartialEq, Eq, Structural)]
pub enum ProcState {
    Running { pid: i32 },
    Stopped,
}

/// The duration of `secs` whole seconds, as `Duration::from_secs` makes it.
pub uninterp spec fn whole_seconds(secs: u64) -> Duration;

/// `Duration::from_secs` depends on its argument alone.
pub assume_specification[ Duration::from_secs ](secs: u64) -> (d: Duration)
    ensures
        d == whole_seconds(secs),
;

/// Options of a watcher.
pub struct ProcDogConfig {
    interval: Duration,
    emit_missing: bool,
}

impl ProcDogConfig {
    /// The time between two polls.
    pub closed spec fn poll_interval(&self) -> Duration {
        self.interval
    }

    /// Whether priming reports the watched processes that it does not find.
    pub closed spec fn reports_missing(&self) -> bool {
        self.emit_missing
    }

    /// Sets the time between two polls.
    pub fn interval(self, d: Duration) -> (cfg: Self)
        ensures
            cfg.poll_interval() == d,
            cfg.reports_missing() == self.reports_missing(),
    {
        let mut cfg = self;
        cfg.interval = d;
        cfg
    }

    /// Sets whether priming emits `Missing` for each watched process that it
    /// does not find.
    pub fn emit_missing(self, on: bool) -> (cfg: Self)
        ensures
            cfg.reports_missing() == on,
            cfg.poll_interval() == self.poll_interval(),
    {
        let mut cfg = self;
        cfg.emit_missing = on;
        cfg
    }

    pub fn get_interval(&self) -> (d: Duration)
        ensures
            d == self.poll_interval(),
    {
        self.interval
    }

    pub fn get_emit_missing(&self) -> (on: bool)
        ensures
            on == self.reports_missing(),
    {
        self.emit_missing
    }
}

impl Default for ProcDogConfig {
    /// One poll a second, and no `Missing` events.
    fn default() -> (cfg: Self)
        ensures
            cfg.poll_interval() == whole_seconds(1),
            !cfg.reports_missing(),
    {
        ProcDogConfig { interval: Duration::from_secs(1), emit_missing: false }
    }
}

/// A watched name with its presence state, if a poll has given it one.
struct Watched {
    name: String,
    state: Option<ProcState>,
}

/// The names of `entries`, in order.
spec fn names_of(entries: Seq<Watched>) -> Seq<Seq<char>> {
    Seq::new(entries.len(), |i: int| entries[i].name@)
}

/// The state that `entries` hold for `name`, if any.
spec fn state_in(entries: Seq<Watched>, name: Seq<char>) -> Option<ProcState> {
    if names_of(entries).contains(name) {
        entries[names_of(entries).index_of(name)].state
    } else {
        None
    }
}

/// The texts of `names`, as a set.
spec fn texts_of(names: Seq<String>) -> Set<Seq<char>> {
    Set::new(|name: Seq<char>| exists|i: int| 0 <= i < names.len() && (#[trigger] names[i])@ == name)
}

spec fn tracking_of(entries: Seq<Watched>, ignored: Seq<String>) -> Tracking {
    Tracking {
        watched: names_of(entries),
        ignored: texts_of(ignored),
        states: Map::new(
            |name: Seq<char>| state_in(entries, name) is Some,
            |name: Seq<char>| state_in(entries, name)->0,
        ),
    }
}

proof fn lemma_state_in(entries: Seq<Watched>, i: int)
    requires
        names_of(entries).no_duplicates(),
        0 <= i < entries.len(),
    ensures
        names_of(entries).contains(entries[i].name@),
        names_of(entries).index_of(entries[i].name@) == i,
        state_in(entries, entries[i].name@) == entries[i].state,
{
    let names = names_of(entries);
    assert(names[i] == entries[i].name@);
    let k = names.index_of(entries[i].name@);
    assert(0 <= k < names.len() && names[k] == names[i]);
}

/// The pid of the first record of `table` that carries `name`.
fn find(table: &Vec<(i32, String)>, name: &String) -> (r: Option<i32>)
    ensures
        r == found(table.deep_view(), name@),
{
    let ghost snapshot = table.deep_view();
    let mut j: usize = 0;
    while j < table.len()
        invariant
            j <= table@.len(),
            snapshot == table.deep_view(),
            forall|k: int| 0 <= k < j ==> (#[trigger] snapshot[k]).1 != name@,
        decreases table@.len() - j,
    {
        if table[j].1 == *name {
            proof {
                assert(snapshot[j as int] == (table@[j as int].0, table@[j as int].1@));
                crate::diff::lemma_found_at(snapshot, name@, j as int);
            }
            return Some(table[j].0);
        }
        assert(snapshot[j as int].1 == table@[j as int].1@);
        j = j + 1;
    }
    proof {
        crate::diff::lemma_found_none(snapshot, name@);
    }
    None
}

/// Whether `names` holds `name`.
fn holds(names: &Vec<String>, name: &String) -> (r: bool)
    ensures
        r == texts_of(names@).contains(name@),
{
    let mut i: usize = 0;
    while i < names.len()
        invariant
            i <= names@.len(),
            forall|k: int| 0 <= k < i ==> (#[trigger] names@[k])@ != name@,
        decreases names@.len() - i,
    {
        if names[i] == *name {
            return true;
        }
        i = i + 1;
    }
    false
}

/// The position of `name` among `entries`.
fn position(entries: &Vec<Watched>, name: &String) -> (r: Option<usize>)
    ensures
        match r {
            Some(i) => i < entries@.len() && entries@[i as int].name@ == name@,
            None => !names_of(entries@).contains(name@),
        },
{
    let mut i: usize = 0;
    while i < entries.len()
        invariant
            i <= entries@.len(),
            forall|k: int| 0 <= k < i ==> (#[trigger] names_of(entries@)[k]) != name@,
        decreases entries@.len() - i,
    {
        if entries[i].name == *name {
            return Some(i);
        }
        assert(names_of(entries@)[i as int] == entries@[i as int].name@);
        i = i + 1;
    }
    None
}

/// Gives entry `i` the state `state`.
fn set_state(entries: &mut Vec<Watched>, i: usize, state: ProcState)
    requires
        i < old(entries)@.len(),
    ensures
        final(entries)@.len() == old(entries)@.len(),
        names_of(final(entries)@) == names_of(old(entries)@),
        final(entries)@[i as int].state == Some(state),
        forall|j: int|
            0 <= j < old(entries)@.len() && j != i ==> (#[trigger] final(entries)@[j]).state == old(
                entries,
            )@[j].state,
{
    let name = entries[i].name.clone();
    entries.set(i, Watched { name, state: Some(state) });
    assert(names_of(entries@) =~= names_of(old(entries)@));
}

/// The state of entry `j` after a tick on `snapshot`.
spec fn ticked_entry(t: Tracking, snapshot: Snapshot, entries: Seq<Watched>, j: int) -> Option<
    ProcState,
> {
    if t.event_at(snapshot, entries[j].name@) is Some {
        Some(presence(found(snapshot, entries[j].name@)))
    } else {
        entries[j].state
    }
}

/// The state of entry `j` after priming on `snapshot`.
spec fn primed_entry(t: Tracking, snapshot: Snapshot, entries: Seq<Watched>, j: int) -> Option<
    ProcState,
> {
    if t.active(entries[j].name@) {
        Some(presence(found(snapshot, entries[j].name@)))
    } else {
        entries[j].state
    }
}

/// One tick over `entries`: each active entry whose presence changed gets its
/// new state, and its event is emitted.
fn tick_entries(entries: &mut Vec<Watched>, ignored: &Vec<String>, table: &Vec<(i32, String)>) -> (events:
    Vec<ProcDogEvent>)
    requires
        names_of(old(entries)@).no_duplicates(),
    ensures
        names_of(final(entries)@) == names_of(old(entries)@),
        tracking_of(final(entries)@, ignored@) == tracking_of(old(entries)@, ignored@).tick(
            table.deep_view(),
        ),
        event_views(events@) == tracking_of(old(entries)@, ignored@).tick_events(
            table.deep_view(),
        ),
{
    let ghost before = entries@;
    let ghost t = tracking_of(before, ignored@);
    let ghost snapshot = table.deep_view();
    let ghost f = |name: Seq<char>| t.event_at(snapshot, name);
    let mut events: Vec<ProcDogEvent> = Vec::new();
    let n: usize = entries.len();
    let mut i: usize = 0;
    assert(t.watched.take(0).filter_map(f) =~= Seq::<Event>::empty());
    while i < n
        invariant
            i <= n == before.len(),
            entries@.len() == n,
            names_of(before).no_duplicates(),
            names_of(entries@) == names_of(before),
            t == tracking_of(before, ignored@),
            snapshot == table.deep_view(),
            f == (|name: Seq<char>| t.event_at(snapshot, name)),
            forall|j: int| 0 <= j < i ==> (#[trigger] entries@[j]).state == ticked_entry(t, snapshot, before, j),
            forall|j: int| i <= j < n ==> (#[trigger] entries@[j]).state == before[j].state,
            event_views(events@) == t.watched.take(i as int).filter_map(f),
        decreases n - i,
    {
        let key: String = entries[i].name.clone();
        let ghost name = key@;
        proof {
            assert(names_of(entries@)[i as int] == name);
            assert(names_of(before)[i as int] == name);
            assert(before[i as int].name@ == name);
            lemma_state_in(before, i as int);
            t.watched.lemma_filter_map_take_succ(f, i as int);
        }
        let ghost emitted = event_views(events@);
        if !holds(ignored, &key) {
            let seen = find(table, &key);
            let current = match entries[i].state {
                Some(state) => state,
                None => ProcState::Stopped,
            };
            assert(current == t.state_of(name));
            assert(t.active(name));
            match (current, seen) {
                (ProcState::Stopped, Some(pid)) => {
                    set_state(entries, i, ProcState::Running { pid });
                    let ev = ProcDogEvent::Appeared { name: key, pid };
                    events.push(ev);
                    assert(event_views(events@) =~= emitted.push(ev@));
                },
                (ProcState::Running { pid: old_pid }, Some(pid)) => {
                    if old_pid != pid {
                        set_state(entries, i, ProcState::Running { pid });
                        let ev = ProcDogEvent::Appeared { name: key, pid };
                        events.push(ev);
                        assert(event_views(events@) =~= emitted.push(ev@));
                    }
                },
                (ProcState::Running { pid: old_pid }, None) => {
                    set_state(entries, i, ProcState::Stopped);
                    let ev = ProcDogEvent::Disappeared { name: key, pid: old_pid };
                    events.push(ev);
                    assert(event_views(events@) =~= emitted.push(ev@));
                },
                (ProcState::Stopped, None) => {},
            }
        }
        i = i + 1;
    }
    proof {
        assert(t.watched.take(n as int) =~= t.watched);
        let after = tracking_of(entries@, ignored@);
        let want = t.tick(snapshot);
        assert forall|name: Seq<char>| #[trigger]
            after.states.contains_key(name) == want.states.contains_key(name) && (
            after.states.contains_key(name) ==> after.states[name] == want.states[name]) by {
            if names_of(before).contains(name) {
                let k = names_of(before).index_of(name);
                lemma_state_in(before, k);
                assert(names_of(entries@)[k] == entries@[k].name@);
                lemma_state_in(entries@, k);
            }
        }
        assert(after.states =~= want.states);
    }
    events
}

/// The priming pass over `entries`: each active entry gets the state that the
/// table shows, and `Missing` is emitted for those not found where asked for.
fn prime_entries(
    entries: &mut Vec<Watched>,
    ignored: &Vec<String>,
    table: &Vec<(i32, String)>,
    emit_missing: bool,
) -> (events: Vec<ProcDogEvent>)
    requires
        names_of(old(entries)@).no_duplicates(),
    ensures
        names_of(final(entries)@) == names_of(old(entries)@),
        tracking_of(final(entries)@, ignored@) == tracking_of(old(entries)@, ignored@).prime(
            table.deep_view(),
        ),
        event_views(events@) == tracking_of(old(entries)@, ignored@).prime_events(
            table.deep_view(),
            emit_missing,
        ),
{
    let ghost before = entries@;
    let ghost t = tracking_of(before, ignored@);
    let ghost snapshot = table.deep_view();
    let ghost f = |name: Seq<char>| t.missing_at(snapshot, name, emit_missing);
    let mut events: Vec<ProcDogEvent> = Vec::new();
    let n: usize = entries.len();
    let mut i: usize = 0;
    assert(t.watched.take(0).filter_map(f) =~= Seq::<Event>::empty());
    while i < n
        invariant
            i <= n == before.len(),
            entries@.len() == n,
            names_of(before).no_duplicates(),
            names_of(entries@) == names_of(before),
            t == tracking_of(before, ignored@),
            snapshot == table.deep_view(),
            f == (|name: Seq<char>| t.missing_at(snapshot, name, emit_missing)),
            forall|j: int| 0 <= j < i ==> (#[trigger] entries@[j]).state == primed_entry(t, snapshot, before, j),
            forall|j: int| i <= j < n ==> (#[trigger] entries@[j]).state == before[j].state,
            event_views(events@) == t.watched.take(i as int).filter_map(f),
        decreases n - i,
    {
        let key: String = entries[i].name.clone();
        let ghost name = key@;
        proof {
            assert(names_of(entries@)[i as int] == name);
            assert(names_of(before)[i as int] == name);
            assert(before[i as int].name@ == name);
            t.watched.lemma_filter_map_take_succ(f, i as int);
        }
        let ghost emitted = event_views(events@);
        if !holds(ignored, &key) {
            assert(t.active(name));
            match find(table, &key) {
                Some(pid) => {
                    set_state(entries, i, ProcState::Running { pid });
                },
                None => {
                    set_state(entries, i, ProcState::Stopped);
                    if emit_missing {
                        let ev = ProcDogEvent::Missing { name: key };
                        events.push(ev);
                        assert(event_views(events@) =~= emitted.push(ev@));
                    }
                },
            }
        }
        i = i + 1;
    }
    proof {
        assert(t.watched.take(n as int) =~= t.watched);
        let after = tracking_of(entries@, ignored@);
        let want = t.prime(snapshot);
        assert forall|name: Seq<char>| #[trigger]
            after.states.contains_key(name) == want.states.contains_key(name) && (
            after.states.contains_key(name) ==> after.states[name] == want.states[name]) by {
            if names_of(before).contains(name) {
                let k = names_of(before).index_of(name);
                lemma_state_in(before, k);
                assert(names_of(entries@)[k] == entries@[k].name@);
                lemma_state_in(entries@, k);
            }
        }
        assert(after.states =~= want.states);
    }
    events
}

/// The watcher: watched and ignored names, the presence state of each watched
/// name, the options, and the callbacks in the order of their registration.
pub struct ProcDog<C> {
    entries: Vec<Watched>,
    ignored: Vec<String>,
    config: ProcDogConfig,
    callbacks: Vec<C>,
    is_primed: bool,
}

impl<C> View for ProcDog<C> {
    type V = Tracking;

    closed spec fn view(&self) -> Tracking {
        tracking_of(self.entries@, self.ignored@)
    }
}

/// The indices of the callbacks that receive events of `kind`, in the order of
/// their registration.
pub open spec fn receivers<C: ProcDogCallback>(callbacks: Seq<C>, kind: EventKind) -> Seq<usize> {
    Seq::new(callbacks.len(), |i: int| i as usize).filter(
        |i: usize| i < callbacks.len() && callbacks[i as int].kinds().contains(kind),
    )
}

impl<C> ProcDog<C> {
    #[verifier::type_invariant]
    spec fn inv(self) -> bool {
        names_of(self.entries@).no_duplicates()
    }

    /// The options that the watcher was made with.
    pub closed spec fn options(&self) -> ProcDogConfig {
        self.config
    }

    /// The callbacks, in the order of their registration.
    pub closed spec fn callbacks(&self) -> Seq<C> {
        self.callbacks@
    }

    /// Whether the priming pass is over.
    pub closed spec fn primed(&self) -> bool {
        self.is_primed
    }

    /// What the watcher tracks is always well formed.
    proof fn lemma_wf(&self)
        requires
            self.inv(),
        ensures
            self@.wf(),
    {
        let t = self@;
        assert forall|name: Seq<char>| #[trigger] t.states.contains_key(name) implies t.watched.contains(
            name,
        ) by {}
    }

    /// A watcher with nothing watched, nothing ignored and no callbacks, not
    /// primed yet; with the default options where none are given.
    pub fn new(cfg: Option<ProcDogConfig>) -> (dog: Self)
        ensures
            dog@.watched == Seq::<Seq<char>>::empty(),
            dog@.ignored == Set::<Seq<char>>::empty(),
            dog@.states == Map::<Seq<char>, ProcState>::empty(),
            dog@.wf(),
            dog.callbacks() == Seq::<C>::empty(),
            !dog.primed(),
            cfg matches Some(c) ==> dog.options() == c,
            cfg is None ==> dog.options().poll_interval() == whole_seconds(1)
                && !dog.options().reports_missing(),
    {
        let config = match cfg {
            Some(c) => c,
            None => ProcDogConfig::default(),
        };
        let dog = ProcDog {
            entries: Vec::new(),
            ignored: Vec::new(),
            config,
            callbacks: Vec::new(),
            is_primed: false,
        };
        assert(dog@.watched =~= Seq::<Seq<char>>::empty());
        assert(dog@.ignored =~= Set::<Seq<char>>::empty());
        assert(dog@.states =~= Map::<Seq<char>, ProcState>::empty());
        dog
    }

    /// Watches `name`. A name that is watched already stays where it is.
    pub fn watch(&mut self, name: &str)
        ensures
            final(self)@.watched == if old(self)@.watched.contains(name@) {
                old(self)@.watched
            } else {
                old(self)@.watched.push(name@)
            },
            final(self)@.ignored == old(self)@.ignored,
            final(self)@.states == old(self)@.states,
            final(self)@.wf(),
            final(self).options() == old(self).options(),
            final(self).callbacks() == old(self).callbacks(),
            final(self).primed() == old(self).primed(),
    {
        proof {
            use_type_invariant(&*self);
            self.lemma_wf();
        }
        let key: String = name.to_owned();
        if let Some(i) = position(&self.entries, &key) {
            assert(names_of(self.entries@)[i as int] == name@);
            return;
        }
        let ghost before = self.entries@;
        let mut entries: Vec<Watched> = Vec::new();
        std::mem::swap(&mut entries, &mut self.entries);
        entries.push(Watched { name: key, state: None });
        proof {
            let after = entries@;
            assert(names_of(after) =~= names_of(before).push(name@));
            assert(names_of(after).no_duplicates());
            assert forall|n: Seq<char>| state_in(after, n) == state_in(before, n) by {
                if names_of(before).contains(n) {
                    let i = names_of(before).index_of(n);
                    assert(names_of(after)[i] == n);
                    lemma_state_in(after, i);
                    lemma_state_in(before, i);
                } else if n == name@ {
                    lemma_state_in(after, after.len() - 1);
                } else {
                    if names_of(after).contains(n) {
                        let i = names_of(after).index_of(n);
                        assert(names_of(before)[i] == n);
                    }
                }
            }
            assert(tracking_of(after, self.ignored@).states =~= tracking_of(
                before,
                self.ignored@,
            ).states);
        }
        self.entries = entries;
        proof {
            self.lemma_wf();
        }
    }

    /// Ignores `pattern`: polls pass over a watched name that equals it.
    pub fn ignore(&mut self, pattern: &str)
        ensures
            final(self)@.ignored == old(self)@.ignored.insert(pattern@),
            final(self)@.watched == old(self)@.watched,
            final(self)@.states == old(self)@.states,
            final(self)@.wf(),
            final(self).options() == old(self).options(),
            final(self).callbacks() == old(self).callbacks(),
            final(self).primed() == old(self).primed(),
    {
        proof {
            use_type_invariant(&*self);
            self.lemma_wf();
        }
        let key: String = pattern.to_owned();
        if holds(&self.ignored, &key) {
            assert(old(self)@.ignored.insert(pattern@) =~= old(self)@.ignored);
            return;
        }
        let ghost before = self.ignored@;
        let mut ignored: Vec<String> = Vec::new();
        std::mem::swap(&mut ignored, &mut self.ignored);
        ignored.push(key);
        proof {
            assert forall|n: Seq<char>| texts_of(ignored@).contains(n) == texts_of(before).insert(
                pattern@,
            ).contains(n) by {
                if texts_of(before).contains(n) {
                    let i = choose|i: int| 0 <= i < before.len() && (#[trigger] before[i])@ == n;
                    assert(ignored@[i]@ == n);
                }
                if n == pattern@ {
                    assert(ignored@[ignored@.len() - 1]@ == n);
                }
                if texts_of(ignored@).contains(n) {
                    let i = choose|i: int| 0 <= i < ignored@.len() && (#[trigger] ignored@[i])@ == n;
                    if i < before.len() {
                        assert(before[i]@ == n);
                    }
                }
            }
            assert(texts_of(ignored@) =~= texts_of(before).insert(pattern@));
        }
        self.ignored = ignored;
    }

    /// Registers `cb` after the callbacks already there.
    pub fn add_callback(&mut self, cb: C)
        ensures
            final(self).callbacks() == old(self).callbacks().push(cb),
            final(self)@ == old(self)@,
            final(self).options() == old(self).options(),
            final(self).primed() == old(self).primed(),
    {
        proof {
            use_type_invariant(&*self);
        }
        let mut callbacks: Vec<C> = Vec::new();
        std::mem::swap(&mut callbacks, &mut self.callbacks);
        callbacks.push(cb);
        self.callbacks = callbacks;
    }
    /// The priming pass: takes the first look at the process table. Each
    /// watched name that is not ignored gets the state that the table shows,
    /// and, where the options ask for it, `Missing` is emitted for each one
    /// not found. A failed enumeration leaves the states alone and emits
    /// nothing; the watcher counts as primed either way.
    pub fn prime<E>(&mut self, listing: &Result<Vec<(i32, String)>, E>) -> (events: Vec<ProcDogEvent>)
        ensures
            final(self).primed(),
            match *listing {
                Ok(table) => final(self)@ == old(self)@.prime(table.deep_view()) && event_views(
                    events@,
                ) == old(self)@.prime_events(
                    table.deep_view(),
                    old(self).options().reports_missing(),
                ),
                Err(_) => final(self)@ == old(self)@ && events@.len() == 0,
            },
            final(self)@.wf(),
            final(self).options() == old(self).options(),
            final(self).callbacks() == old(self).callbacks(),
    {
        proof {
            use_type_invariant(&*self);
            self.lemma_wf();
        }
        self.is_primed = true;
        match listing {
            Ok(table) => {
                let mut entries: Vec<Watched> = Vec::new();
                std::mem::swap(&mut entries, &mut self.entries);
                let events = prime_entries(
                    &mut entries,
                    &self.ignored,
                    table,
                    self.config.get_emit_missing(),
                );
                self.entries = entries;
                proof {
                    self.lemma_wf();
                }
                events
            },
            Err(_) => Vec::new(),
        }
    }

    /// One tick: compares the process table with the states. Each watched
    /// name that is not ignored and whose presence changed gets its new state
    /// and one event, in watch order. A failed enumeration skips the tick:
    /// nothing changes and nothing is emitted.
    pub fn tick_once<E>(&mut self, listing: &Result<Vec<(i32, String)>, E>) -> (events: Vec<
        ProcDogEvent,
    >)
        ensures
            match *listing {
                Ok(table) => final(self)@ == old(self)@.tick(table.deep_view()) && event_views(
                    events@,
                ) == old(self)@.tick_events(table.deep_view()),
                Err(_) => final(self)@ == old(self)@ && events@.len() == 0,
            },
            final(self)@.wf(),
            final(self).options() == old(self).options(),
            final(self).callbacks() == old(self).callbacks(),
            final(self).primed() == old(self).primed(),
    {
        proof {
            use_type_invariant(&*self);
            self.lemma_wf();
        }
        match listing {
            Ok(table) => {
                let mut entries: Vec<Watched> = Vec::new();
                std::mem::swap(&mut entries, &mut self.entries);
                let events = tick_entries(&mut entries, &self.ignored, table);
                self.entries = entries;
                proof {
                    self.lemma_wf();
                }
                events
            },
            Err(_) => Vec::new(),
        }
    }

    /// One poll, as the scheduler makes it: the priming pass the first time,
    /// a tick from then on.
    pub fn poll<E>(&mut self, listing: &Result<Vec<(i32, String)>, E>) -> (events: Vec<ProcDogEvent>)
        ensures
            final(self).primed(),
            match *listing {
                Ok(table) => if old(self).primed() {
                    final(self)@ == old(self)@.tick(table.deep_view()) && event_views(events@)
                        == old(self)@.tick_events(table.deep_view())
                } else {
                    final(self)@ == old(self)@.prime(table.deep_view()) && event_views(events@)
                        == old(self)@.prime_events(
                        table.deep_view(),
                        old(self).options().reports_missing(),
                    )
                },
                Err(_) => final(self)@ == old(self)@ && events@.len() == 0,
            },
            final(self)@.wf(),
            final(self).options() == old(self).options(),
            final(self).callbacks() == old(self).callbacks(),
    {
        if self.is_primed {
            self.tick_once(listing)
        } else {
            self.prime(listing)
        }
    }

    /// The state entry of `name`, if a poll has given it one.
    pub fn state(&self, name: &str) -> (r: Option<ProcState>)
        ensures
            r == if self@.states.contains_key(name@) {
                Some(self@.states[name@])
            } else {
                None
            },
    {
        proof {
            use_type_invariant(self);
        }
        let key: String = name.to_owned();
        match position(&self.entries, &key) {
            Some(i) => {
                proof {
                    lemma_state_in(self.entries@, i as int);
                }
                self.entries[i].state
            },
            None => None,
        }
    }

    /// The presence of `name` as of the last poll; stopped if no poll has
    /// looked at it.
    pub fn state_of(&self, name: &str) -> (r: ProcState)
        ensures
            r == self@.state_of(name@),
    {
        match self.state(name) {
            Some(state) => state,
            None => ProcState::Stopped,
        }
    }

    pub fn is_primed(&self) -> (r: bool)
        ensures
            r == self.primed(),
    {
        self.is_primed
    }

    pub fn config(&self) -> (cfg: &ProcDogConfig)
        ensures
            *cfg == self.options(),
    {
        &self.config
    }

    /// The callback registered as number `i`, counted from 0.
    pub fn callback(&self, i: usize) -> (r: Option<&C>)
        ensures
            match r {
                Some(cb) => i < self.callbacks().len() && *cb == self.callbacks()[i as int],
                None => i >= self.callbacks().len(),
            },
    {
        if i < self.callbacks.len() {
            Some(&self.callbacks[i])
        } else {
            None
        }
    }
}

impl<C: ProcDogCallback> ProcDog<C> {
    /// The callbacks that receive `ev`: the indices of those whose mask selects
    /// its kind, in the order of their registration. The others are not called.
    pub fn recipients(&self, ev: &ProcDogEvent) -> (r: Vec<usize>)
        ensures
            r@ == receivers(self.callbacks(), ev@.kind()),
    {
        let ghost kind = ev@.kind();
        let ghost callbacks = self.callbacks@;
        let ghost indices = Seq::new(callbacks.len(), |i: int| i as usize);
        let ghost pred = |i: usize| i < callbacks.len() && callbacks[i as int].kinds().contains(kind);
        let mut out: Vec<usize> = Vec::new();
        let n: usize = self.callbacks.len();
        let mut i: usize = 0;
        assert(indices.take(0).filter(pred) =~= Seq::<usize>::empty());
        while i < n
            invariant
                i <= n == callbacks.len(),
                callbacks == self.callbacks@,
                kind == ev@.kind(),
                indices == Seq::new(callbacks.len(), |i: int| i as usize),
                pred == (|i: usize| i < callbacks.len() && callbacks[i as int].kinds().contains(kind)),
                out@ == indices.take(i as int).filter(pred),
            decreases n - i,
        {
            proof {
                assert(indices.take(i + 1) =~= indices.take(i as int).push(i));
                indices.take(i as int).lemma_filter_push(i, pred);
            }
            if self.callbacks[i].mask().matches(ev) {
                out.push(i);
            }
            i = i + 1;
        }
        assert(indices.take(n as int) =~= indices);
        out
    }
}

} // verus!
