//! Events, the masks that select them, and callbacks: a mask with an ordered
//! list of handlers, of which the first to produce a result ends the call.

use vstd::prelude::*;

verus! {

/// The kinds of event.
#[derive(Clone, Copy, Debug, PartialEq, Eq, Structural)]
pub enum EventKind {
    Appeared,
    Disappeared,
    Missing,
}

/// A change in the presence of a watched process.
#[derive(Debug, PartialEq, Eq)]
pub enum ProcDogEvent {
    /// The process is running under `pid`, and was not before.
    Appeared { name: String, pid: i32 },
    /// The process that ran under `pid` is gone.
    Disappeared { name: String, pid: i32 },
    /// The process was not found when the watcher was primed.
    Missing { name: String },
}

/// An event as contracts see it: the name is its text.
pub enum Event {
    Appeared { name: Seq<char>, pid: i32 },
    Disappeared { name: Seq<char>, pid: i32 },
    Missing { name: Seq<char> },
}

impl Event {
    pub open spec fn kind(self) -> EventKind {
        match self {
            Event::Appeared { .. } => EventKind::Appeared,
            Event::Disappeared { .. } => EventKind::Disappeared,
            Event::Missing { .. } => EventKind::Missing,
        }
    }

    pub open spec fn name(self) -> Seq<char> {
        match self {
            Event::Appeared { name, .. } => name,
            Event::Disappeared { name, .. } => name,
            Event::Missing { name } => name,
        }
    }
}

impl View for ProcDogEvent {
    type V = Event;

    open spec fn view(&self) -> Event {
        match *self {
            ProcDogEvent::Appeared { name, pid } => Event::Appeared { name: name@, pid },
            ProcDogEvent::Disappeared { name, pid } => Event::Disappeared { name: name@, pid },
            ProcDogEvent::Missing { name } => Event::Missing { name: name@ },
        }
    }
}

impl Clone for ProcDogEvent {
    fn clone(&self) -> (copy: Self)
        ensures
            copy@ == self@,
    {
        match self {
            ProcDogEvent::Appeared { name, pid } => ProcDogEvent::Appeared {
                name: name.clone(),
                pid: *pid,
            },
            ProcDogEvent::Disappeared { name, pid } => ProcDogEvent::Disappeared {
                name: name.clone(),
                pid: *pid,
            },
            ProcDogEvent::Missing { name } => ProcDogEvent::Missing { name: name.clone() },
        }
    }
}

/// The views of a list of events, in order.
pub open spec fn event_views(events: Seq<ProcDogEvent>) -> Seq<Event> {
    events.map_values(|e: ProcDogEvent| e@)
}

impl ProcDogEvent {
    pub fn kind(&self) -> (k: EventKind)
        ensures
            k == self@.kind(),
    {
        match self {
            ProcDogEvent::Appeared { .. } => EventKind::Appeared,
            ProcDogEvent::Disappeared { .. } => EventKind::Disappeared,
            ProcDogEvent::Missing { .. } => EventKind::Missing,
        }
    }

    /// The name of the process that the event is about.
    pub fn name(&self) -> (n: &str)
        ensures
            n@ == self@.name(),
    {
        match self {
            ProcDogEvent::Appeared { name, .. } => name.as_str(),
            ProcDogEvent::Disappeared { name, .. } => name.as_str(),
            ProcDogEvent::Missing { name } => name.as_str(),
        }
    }
}

/// The bit that stands for `kind` in a mask.
pub open spec fn flag(kind: EventKind) -> u8 {
    match kind {
        EventKind::Appeared => 0b0001,
        EventKind::Disappeared => 0b0010,
        EventKind::Missing => 0b0100,
    }
}

/// The kinds whose bits are set in `bits`.
pub open spec fn kinds_of(bits: u8) -> Set<EventKind> {
    Set::new(|kind: EventKind| bits & flag(kind) != 0)
}

/// A set of event kinds, held as bits. A callback receives the events whose
/// kind is in its mask.
#[derive(Clone, Copy, Debug)]
pub struct EventMask {
    bits: u8,
}

impl View for EventMask {
    type V = Set<EventKind>;

    closed spec fn view(&self) -> Set<EventKind> {
        kinds_of(self.bits)
    }
}

proof fn lemma_flag_bits(a: u8, b: u8)
    ensures
        forall|kind: EventKind|
            ((a | b) & #[trigger] flag(kind) != 0) == (a & flag(kind) != 0 || b & flag(kind) != 0),
        forall|kind: EventKind| 0u8 & #[trigger] flag(kind) == 0,
        forall|kind: EventKind| 0b0111u8 & #[trigger] flag(kind) != 0,
        forall|kind: EventKind, other: EventKind|
            (#[trigger] flag(kind) & #[trigger] flag(other) != 0) == (kind == other),
{
    assert forall|f: u8| ((a | b) & f != 0) == (a & f != 0 || b & f != 0) by {
        assert(((a | b) & f != 0) == (a & f != 0 || b & f != 0)) by (bit_vector);
    }
    assert(0u8 & 1u8 == 0 && 0u8 & 2u8 == 0 && 0u8 & 4u8 == 0) by (bit_vector);
    assert(7u8 & 1u8 != 0 && 7u8 & 2u8 != 0 && 7u8 & 4u8 != 0) by (bit_vector);
    assert(1u8 & 1u8 != 0 && 2u8 & 2u8 != 0 && 4u8 & 4u8 != 0 && 1u8 & 2u8 == 0 && 1u8 & 4u8 == 0
        && 2u8 & 1u8 == 0 && 2u8 & 4u8 == 0 && 4u8 & 1u8 == 0 && 4u8 & 2u8 == 0) by (bit_vector);
}

impl EventMask {
    /// The mask that selects nothing.
    pub fn empty() -> (m: EventMask)
        ensures
            m@ == Set::<EventKind>::empty(),
    {
        proof {
            lemma_flag_bits(0, 0);
        }
        let m = EventMask { bits: 0 };
        assert(m@ =~= Set::<EventKind>::empty());
        m
    }

    /// The mask that selects every kind.
    pub fn all() -> (m: EventMask)
        ensures
            m@ == Set::<EventKind>::full(),
    {
        proof {
            lemma_flag_bits(0, 0);
        }
        let m = EventMask { bits: 0b0111 };
        assert(m@ =~= Set::<EventKind>::full());
        m
    }

    /// The mask that selects `kind` alone.
    pub fn of(kind: EventKind) -> (m: EventMask)
        ensures
            m@ == set![kind],
    {
        proof {
            lemma_flag_bits(0, 0);
        }
        let bits: u8 = match kind {
            EventKind::Appeared => 0b0001,
            EventKind::Disappeared => 0b0010,
            EventKind::Missing => 0b0100,
        };
        let m = EventMask { bits };
        assert(bits == flag(kind));
        assert(m@ =~= set![kind]);
        m
    }

    /// The mask that selects what either mask selects.
    pub fn union(self, other: EventMask) -> (m: EventMask)
        ensures
            m@ == self@.union(other@),
    {
        proof {
            lemma_flag_bits(self.bits, other.bits);
        }
        let m = EventMask { bits: self.bits | other.bits };
        assert(m@ =~= self@.union(other@));
        m
    }

    /// Whether the mask selects `kind`.
    pub fn contains(&self, kind: EventKind) -> (r: bool)
        ensures
            r == self@.contains(kind),
    {
        let bit: u8 = match kind {
            EventKind::Appeared => 0b0001,
            EventKind::Disappeared => 0b0010,
            EventKind::Missing => 0b0100,
        };
        self.bits & bit != 0
    }

    /// Whether a callback with this mask receives `ev`.
    pub fn matches(&self, ev: &ProcDogEvent) -> (r: bool)
        ensures
            r == self@.contains(ev@.kind()),
    {
        self.contains(ev.kind())
    }
}

/// Something that receives the events that its mask selects.
pub trait ProcDogCallback {
    /// The kinds of event that the callback receives.
    spec fn kinds(&self) -> Set<EventKind>;

    fn mask(&self) -> (m: EventMask)
        ensures
            m@ == self.kinds(),
    ;
}

/// A mask and an ordered list of handlers. The library never runs a handler it
/// cannot see into: it says which one is next, and is told what came back.
pub struct Callback<H> {
    mask: EventMask,
    handlers: Vec<H>,
}

/// The next step of a call of a callback.
pub enum CallStep<'a, H, R> {
    /// Run this handler on the event, and come back with what it produced.
    Invoke(&'a H),
    /// The call is over, with this result.
    Done(Option<R>),
}

impl<H> Callback<H> {
    /// The handlers, in the order in which they were registered.
    pub closed spec fn handlers(&self) -> Seq<H> {
        self.handlers@
    }

    /// A callback for the events that `mask` selects, without handlers yet.
    pub fn new(mask: EventMask) -> (cb: Self)
        ensures
            cb.kinds() == mask@,
            cb.handlers() == Seq::<H>::empty(),
    {
        Callback { mask, handlers: Vec::new() }
    }

    /// Registers `handler` after those already there.
    pub fn on(self, handler: H) -> (cb: Self)
        ensures
            cb.kinds() == self.kinds(),
            cb.handlers() == self.handlers().push(handler),
    {
        let mut cb = self;
        cb.handlers.push(handler);
        cb
    }

    /// The next step of a call on `ev`, when the first `tried` handlers have
    /// run and the last of them produced `last`. A present result ends the
    /// call; otherwise the next handler in order runs, if the mask selects the
    /// event and a handler is left.
    pub fn step<'a, R>(&'a self, ev: &ProcDogEvent, tried: usize, last: Option<R>) -> (s: CallStep<
        'a,
        H,
        R,
    >)
        ensures
            match s {
                CallStep::Invoke(h) => last is None && self.kinds().contains(ev@.kind()) && tried
                    < self.handlers().len() && *h == self.handlers()[tried as int],
                CallStep::Done(out) => out == last && (last is Some || !self.kinds().contains(
                    ev@.kind(),
                ) || tried >= self.handlers().len()),
            },
    {
        if last.is_some() {
            CallStep::Done(last)
        } else if self.mask.matches(ev) && tried < self.handlers.len() {
            CallStep::Invoke(&self.handlers[tried])
        } else {
            CallStep::Done(last)
        }
    }

    /// Whether the first `k` handlers, run on `ev`, may all produce nothing.
    pub open spec fn silent_before<R>(&self, ev: &ProcDogEvent, k: int) -> bool where
        H: Fn(&ProcDogEvent) -> Option<R>,
     {
        forall|j: int|
            0 <= j < k ==> call_ensures(#[trigger] self.handlers()[j], (ev,), None::<R>)
    }

    /// What a call on `ev` may return when each handler is a function: nothing
    /// if the mask does not select the event or no handler produces a result;
    /// else the result of the first handler that produces one.
    pub open spec fn may_return<R>(&self, ev: &ProcDogEvent, out: Option<R>) -> bool where
        H: Fn(&ProcDogEvent) -> Option<R>,
     {
        if !self.kinds().contains(ev@.kind()) {
            out is None
        } else if out is Some {
            exists|k: int|
                0 <= k < self.handlers().len() && #[trigger] self.silent_before::<R>(ev, k)
                    && call_ensures(self.handlers()[k], (ev,), out)
        } else {
            self.silent_before::<R>(ev, self.handlers().len() as int)
        }
    }

    /// Calls the callback on `ev`, running the handlers in order up to the
    /// first that produces a result.
    pub fn call<R>(&self, ev: &ProcDogEvent) -> (out: Option<R>) where
        H: Fn(&ProcDogEvent) -> Option<R>,

        requires
            forall|i: int|
                0 <= i < self.handlers().len() ==> call_requires(
                    #[trigger] self.handlers()[i],
                    (ev,),
                ),
        ensures
            self.may_return(ev, out),
    {
        let n: usize = self.handlers.len();
        let mut tried: usize = 0;
        let mut last: Option<R> = None;
        loop
            invariant
                tried <= n == self.handlers().len(),
                last is Some ==> self.kinds().contains(ev@.kind()),
                forall|i: int|
                    0 <= i < self.handlers().len() ==> call_requires(
                        #[trigger] self.handlers()[i],
                        (ev,),
                    ),
                last is None ==> self.silent_before::<R>(ev, tried as int),
                last is Some ==> tried >= 1 && call_ensures(
                    self.handlers()[tried - 1],
                    (ev,),
                    last,
                ) && self.silent_before::<R>(ev, tried - 1),
            decreases n - tried + (if last is None { 1int } else { 0int }),
        {
            match self.step(ev, tried, last) {
                CallStep::Invoke(h) => {
                    last = h(ev);
                    tried = tried + 1;
                },
                CallStep::Done(out) => {
                    return out;
                },
            }
        }
    }
}

impl<H> ProcDogCallback for Callback<H> {
    closed spec fn kinds(&self) -> Set<EventKind> {
        self.mask@
    }

    fn mask(&self) -> (m: EventMask) {
        self.mask
    }
}

} // verus!
