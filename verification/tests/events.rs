use procdog::events::{CallStep, Callback, EventKind, EventMask, ProcDogCallback, ProcDogEvent};
use procdog::ProcDog;
use std::cell::Cell;

type Boxed<'a> = Box<dyn Fn(&ProcDogEvent) -> Option<String> + 'a>;

fn gone() -> ProcDogEvent {
    ProcDogEvent::Disappeared { name: "sshd".to_string(), pid: 100 }
}

fn came() -> ProcDogEvent {
    ProcDogEvent::Appeared { name: "sshd".to_string(), pid: 100 }
}

fn lost() -> ProcDogEvent {
    ProcDogEvent::Missing { name: "sshd".to_string() }
}

#[test]
fn masks_select_by_kind() {
    let appeared = EventMask::of(EventKind::Appeared);
    assert!(appeared.matches(&came()));
    assert!(!appeared.matches(&gone()));
    assert!(!appeared.matches(&lost()));

    let both = appeared.union(EventMask::of(EventKind::Disappeared));
    assert!(both.matches(&came()));
    assert!(both.matches(&gone()));
    assert!(!both.matches(&lost()));
    assert!(both.contains(EventKind::Disappeared));
    assert!(!both.contains(EventKind::Missing));

    assert!(!EventMask::empty().matches(&came()));
    assert!(!EventMask::empty().matches(&gone()));
    assert!(!EventMask::empty().matches(&lost()));
    assert!(EventMask::all().matches(&came()));
    assert!(EventMask::all().matches(&gone()));
    assert!(EventMask::all().matches(&lost()));
    assert!(EventMask::of(EventKind::Missing).matches(&lost()));
}

#[test]
fn event_accessors() {
    assert_eq!(came().kind(), EventKind::Appeared);
    assert_eq!(gone().kind(), EventKind::Disappeared);
    assert_eq!(lost().kind(), EventKind::Missing);
    assert_eq!(came().name(), "sshd");
    assert_eq!(gone().name(), "sshd");
    assert_eq!(lost().name(), "sshd");
    assert_eq!(came().clone(), came());
    assert_eq!(gone().clone(), gone());
    assert_eq!(lost().clone(), lost());
}

#[test]
fn masked_out_callback_is_not_invoked() {
    let calls = Cell::new(0);
    let handler: Boxed = Box::new(|_| {
        calls.set(calls.get() + 1);
        Some("seen".to_string())
    });
    let cb = Callback::new(EventMask::of(EventKind::Appeared)).on(handler);

    let mut channel: Vec<String> = Vec::new();
    if let Some(r) = cb.call(&gone()) {
        channel.push(r);
    }
    assert_eq!(calls.get(), 0);
    assert!(channel.is_empty());

    let mut dog = ProcDog::new(None);
    dog.add_callback(cb);
    assert!(dog.recipients(&gone()).is_empty());
    assert_eq!(dog.recipients(&came()), vec![0]);
}

#[test]
fn first_result_ends_the_call() {
    let order = Cell::new(Vec::new());
    let note = |n: u32| {
        let mut seen = order.take();
        seen.push(n);
        order.set(seen);
    };
    let first: Boxed = Box::new(|_| {
        note(1);
        None
    });
    let second: Boxed = Box::new(|_| {
        note(2);
        Some("R".to_string())
    });
    let third: Boxed = Box::new(|_| {
        note(3);
        Some("late".to_string())
    });
    let cb = Callback::new(EventMask::all()).on(first).on(second).on(third);

    assert_eq!(cb.call(&came()), Some("R".to_string()));
    assert_eq!(order.take(), vec![1, 2]);
}

#[test]
fn call_without_results_runs_every_handler() {
    let calls = Cell::new(0);
    let silent = |_: &ProcDogEvent| -> Option<String> {
        calls.set(calls.get() + 1);
        None
    };
    let cb = Callback::new(EventMask::all()).on(&silent).on(&silent).on(&silent);
    assert_eq!(cb.call(&came()), None);
    assert_eq!(calls.get(), 3);

    let empty: Callback<Boxed> = Callback::new(EventMask::all());
    assert_eq!(empty.call(&came()), None);
}

#[test]
fn steps_name_the_handlers_in_order() {
    let cb = Callback::new(EventMask::of(EventKind::Disappeared)).on("first").on("second");

    assert!(matches!(cb.step(&gone(), 0, None::<u8>), CallStep::Invoke(&"first")));
    assert!(matches!(cb.step(&gone(), 1, None::<u8>), CallStep::Invoke(&"second")));
    assert!(matches!(cb.step(&gone(), 2, None::<u8>), CallStep::Done(None)));
    assert!(matches!(cb.step(&gone(), 1, Some(9u8)), CallStep::Done(Some(9))));
    assert!(matches!(cb.step(&gone(), 2, Some(9u8)), CallStep::Done(Some(9))));
    assert!(matches!(cb.step(&came(), 0, None::<u8>), CallStep::Done(None)));
}

#[test]
fn recipients_follow_registration_order() {
    let mut dog: ProcDog<Callback<u8>> = ProcDog::new(None);
    dog.add_callback(Callback::new(EventMask::of(EventKind::Disappeared)));
    dog.add_callback(Callback::new(EventMask::of(EventKind::Appeared)));
    dog.add_callback(Callback::new(EventMask::all()));
    dog.add_callback(Callback::new(EventMask::empty()));

    assert_eq!(dog.recipients(&gone()), vec![0, 2]);
    assert_eq!(dog.recipients(&came()), vec![1, 2]);
    assert_eq!(dog.recipients(&lost()), vec![2]);
    assert!(dog.callback(3).is_some());
    assert!(dog.callback(4).is_none());
    assert!(dog.callback(1).unwrap().mask().matches(&came()));
}

#[test]
fn results_of_each_callback_are_forwarded_independently() {
    let value = |text: &'static str| -> Boxed<'static> {
        Box::new(move |_| Some(text.to_string()))
    };
    let mut dog = ProcDog::new(None);
    dog.add_callback(Callback::new(EventMask::all()).on(value("a")).on(value("unused")));
    dog.add_callback(Callback::new(EventMask::of(EventKind::Missing)).on(value("masked")));
    dog.add_callback(Callback::new(EventMask::of(EventKind::Appeared)).on(value("b")));

    let ev = came();
    let mut channel = Vec::new();
    for i in dog.recipients(&ev) {
        if let Some(r) = dog.callback(i).unwrap().call(&ev) {
            channel.push(r);
        }
    }
    assert_eq!(channel, vec!["a".to_string(), "b".to_string()]);
}
