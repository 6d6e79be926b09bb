use formation::context::PlatformContext;
use formation::effect::{Dispatch, Effect, Table};
use formation::entity::{AccessError, Slot};
use formation::subscriber::Emitter;

#[derive(Debug, PartialEq)]
struct Counter {
    count: usize,
}

#[derive(Debug, PartialEq)]
struct Change {
    increment: usize,
}

const CHANGE: u64 = 1;
const RESET: u64 = 2;

type Ctx = PlatformContext<Counter, Change>;

fn notified(log: &[Dispatch<Counter, Change>]) -> Vec<(Emitter, Vec<usize>)> {
    let mut out = Vec::new();
    for d in log {
        if let Dispatch::Notified { emitter, observers } = d {
            out.push((*emitter, observers.clone()));
        }
    }
    out
}

#[test]
fn test_notification() {
    let mut ctx: Ctx = PlatformContext::new();
    ctx.begin_update();
    let counter = ctx.create_entity(Counter { count: 0 });
    ctx.end_update();

    ctx.begin_update();
    let subscription = ctx.observe(Emitter::Entity(counter.id()));
    ctx.end_update();

    ctx.begin_update();
    let mut value = ctx.lease(&counter);
    value.count += 1;
    ctx.end_lease(&counter, value);
    ctx.notify(&counter);
    let log = ctx.end_update();

    assert_eq!(
        notified(&log),
        vec![(Emitter::Entity(counter.id()), vec![subscription.id()])]
    );
    subscription.detach()
}

#[test]
fn test_subscription() {
    let mut ctx: Ctx = PlatformContext::new();
    ctx.begin_update();
    let counter = ctx.create_entity(Counter { count: 0 });
    ctx.end_update();

    ctx.begin_update();
    let reservation = ctx.reserve_entity();
    ctx.subscribe(Emitter::Entity(counter.id()), CHANGE).detach();
    let initial = ctx.read(&counter).unwrap().count * 2;
    let subscriber = ctx.insert_entity(reservation, Counter { count: initial });
    ctx.end_update();

    ctx.begin_update();
    let mut value = ctx.lease(&counter);
    value.count += 2;
    ctx.end_lease(&counter, value);
    ctx.notify(&counter);
    ctx.emit(&counter, CHANGE, Change { increment: 2 });
    let log = ctx.end_update();

    for d in log {
        if let Dispatch::Emitted { payload, listeners, .. } = d {
            for _ in listeners {
                let mut s = ctx.lease(&subscriber);
                s.count += payload.increment * 2;
                ctx.end_lease(&subscriber, s);
            }
        }
    }
    assert_eq!(ctx.read(&subscriber).unwrap().count, 4);
}

#[test]
fn observer_sees_new_count() {
    let mut ctx: Ctx = PlatformContext::new();
    ctx.begin_update();
    let e = ctx.create_entity(Counter { count: 0 });
    let o = ctx.observe(Emitter::Entity(e.id()));
    ctx.end_update();

    ctx.begin_update();
    let mut v = ctx.lease(&e);
    v.count = 1;
    ctx.end_lease(&e, v);
    ctx.notify(&e);
    let log = ctx.end_update();

    let calls = notified(&log);
    assert_eq!(calls.len(), 1);
    assert_eq!(calls[0].1, vec![o.id()]);
    assert_eq!(ctx.read(&e).unwrap().count, 1);
}

#[test]
fn repeated_notify_collapses_to_one_dispatch() {
    let mut ctx: Ctx = PlatformContext::new();
    ctx.begin_update();
    let e = ctx.create_entity(Counter { count: 0 });
    let o = ctx.observe(Emitter::Entity(e.id()));
    ctx.end_update();

    ctx.begin_update();
    ctx.notify(&e);
    ctx.notify(&e);
    ctx.notify(&e);
    assert_eq!(ctx.queued(), 1);
    assert!(ctx.is_notify_pending(Emitter::Entity(e.id())));
    let log = ctx.end_update();
    assert_eq!(notified(&log), vec![(Emitter::Entity(e.id()), vec![o.id()])]);
    assert!(!ctx.is_notify_pending(Emitter::Entity(e.id())));

    ctx.begin_update();
    ctx.notify(&e);
    let log = ctx.end_update();
    assert_eq!(notified(&log).len(), 1);
}

#[test]
fn subscription_made_in_an_update_misses_that_update() {
    let mut ctx: Ctx = PlatformContext::new();
    ctx.begin_update();
    let e = ctx.create_entity(Counter { count: 0 });
    ctx.end_update();

    ctx.begin_update();
    ctx.notify(&e);
    ctx.emit(&e, CHANGE, Change { increment: 1 });
    let o = ctx.observe(Emitter::Entity(e.id()));
    let l = ctx.subscribe(Emitter::Entity(e.id()), CHANGE);
    ctx.emit(&e, CHANGE, Change { increment: 2 });
    ctx.begin_update();
    ctx.emit(&e, CHANGE, Change { increment: 3 });
    ctx.end_update();
    let log = ctx.end_update();
    assert_eq!(log.len(), 4);
    for d in &log {
        match d {
            Dispatch::Notified { observers, .. } => assert!(observers.is_empty()),
            Dispatch::Emitted { listeners, .. } => assert!(listeners.is_empty()),
            _ => {}
        }
    }

    ctx.begin_update();
    ctx.notify(&e);
    ctx.emit(&e, CHANGE, Change { increment: 1 });
    let log = ctx.end_update();
    let mut seen = 0;
    for d in &log {
        match d {
            Dispatch::Notified { observers, .. } => {
                assert_eq!(observers, &vec![o.id()]);
                seen += 1;
            }
            Dispatch::Emitted { listeners, .. } => {
                assert_eq!(listeners, &vec![l.id()]);
                seen += 1;
            }
            _ => {}
        }
    }
    assert_eq!(seen, 2);
}

#[test]
fn unsubscribe_removes_and_detach_keeps() {
    let mut ctx: Ctx = PlatformContext::new();
    ctx.begin_update();
    let e = ctx.create_entity(Counter { count: 0 });
    let kept = ctx.observe(Emitter::Entity(e.id()));
    let dropped = ctx.observe(Emitter::Entity(e.id()));
    ctx.end_update();
    let kept_id = kept.id();
    assert_eq!(kept.table(), Table::Observers);
    kept.detach();
    assert!(ctx.is_subscribed(&dropped));
    ctx.unsubscribe(dropped);

    ctx.begin_update();
    ctx.notify(&e);
    let log = ctx.end_update();
    assert_eq!(notified(&log), vec![(Emitter::Entity(e.id()), vec![kept_id])]);
}

#[test]
fn nested_updates_flush_once_after_the_outermost() {
    let mut ctx: Ctx = PlatformContext::new();
    ctx.begin_update();
    let e = ctx.create_entity(Counter { count: 0 });
    let o = ctx.observe(Emitter::Entity(e.id()));
    ctx.end_update();

    ctx.begin_update();
    ctx.begin_update();
    ctx.notify(&e);
    assert_eq!(ctx.open_updates(), 2);
    let inner = ctx.end_update();
    assert!(inner.is_empty());
    assert_eq!(ctx.queued(), 1);
    ctx.defer(7);
    let outer = ctx.end_update();
    assert_eq!(ctx.queued(), 0);
    assert_eq!(ctx.open_updates(), 0);
    assert_eq!(outer.len(), 2);
    match &outer[0] {
        Dispatch::Notified { observers, .. } => assert_eq!(observers, &vec![o.id()]),
        _ => panic!("a notification comes first"),
    }
    match &outer[1] {
        Dispatch::Called { token } => assert_eq!(*token, 7),
        _ => panic!("the deferred callback comes second"),
    }
}

#[test]
fn second_lease_fails_every_time() {
    let mut ctx: Ctx = PlatformContext::new();
    let e = ctx.create_entity(Counter { count: 3 });
    let v = ctx.lease(&e);
    for _ in 0..3 {
        assert_eq!(ctx.try_lease(&e).err(), Some(AccessError::Reentrant));
    }
    assert!(ctx.read(&e).is_none());
    ctx.end_lease(&e, v);
    assert_eq!(ctx.read(&e).unwrap().count, 3);
    assert!(ctx.try_lease(&e).is_ok());
}

#[test]
fn events_reach_only_listeners_of_their_kind() {
    let mut ctx: Ctx = PlatformContext::new();
    ctx.begin_update();
    let e = ctx.create_entity(Counter { count: 0 });
    let x = ctx.subscribe(Emitter::Entity(e.id()), CHANGE);
    let y = ctx.subscribe(Emitter::Entity(e.id()), RESET);
    ctx.end_update();

    ctx.begin_update();
    ctx.emit(&e, CHANGE, Change { increment: 9 });
    let log = ctx.end_update();
    assert_eq!(log.len(), 1);
    match &log[0] {
        Dispatch::Emitted { emitter, kind, payload, listeners } => {
            assert_eq!(*emitter, Emitter::Entity(e.id()));
            assert_eq!(*kind, CHANGE);
            assert_eq!(payload, &Change { increment: 9 });
            assert_eq!(listeners, &vec![x.id()]);
        }
        _ => panic!("an event dispatch"),
    }
    assert!(ctx.is_subscribed(&y));
}

#[test]
fn release_listener_gets_final_value_once() {
    let mut ctx: Ctx = PlatformContext::new();
    ctx.begin_update();
    let e = ctx.create_entity(Counter { count: 41 });
    let id = e.id();
    let r = ctx.on_release(&e);
    let o = ctx.observe(Emitter::Entity(id));
    ctx.end_update();

    ctx.begin_update();
    let mut v = ctx.lease(&e);
    v.count += 1;
    ctx.end_lease(&e, v);
    ctx.release(e);
    let log = ctx.end_update();
    assert_eq!(log.len(), 1);
    match &log[0] {
        Dispatch::Released { entity, value, listeners } => {
            assert_eq!(*entity, id);
            assert_eq!(value, &Counter { count: 42 });
            assert_eq!(listeners, &vec![r.id()]);
        }
        _ => panic!("a release"),
    }
    assert!(matches!(ctx.entity_store().slots_at(id), Some(Slot::Finalized)));
    assert!(!ctx.is_subscribed(&o));

    ctx.begin_update();
    let log = ctx.end_update();
    assert!(log.is_empty());
}

#[test]
fn weak_handles_fail_after_finalization() {
    let mut ctx: Ctx = PlatformContext::new();
    ctx.begin_update();
    let e = ctx.create_entity(Counter { count: 0 });
    ctx.end_update();
    let w = ctx.downgrade(&e);
    let again = ctx.upgrade(&w).unwrap();
    assert_eq!(ctx.entity_store().strong_count(e.id()), 2);
    ctx.release(again);
    let twin = ctx.clone_handle(&e).unwrap();
    ctx.release(twin);
    assert_eq!(ctx.entity_store().strong_count(e.id()), 1);

    ctx.begin_update();
    ctx.release(e);
    ctx.end_update();
    assert!(ctx.upgrade(&w).is_none());
}

#[test]
fn reservation_is_filled_once() {
    let mut ctx: Ctx = PlatformContext::new();
    let r = ctx.reserve_entity();
    assert!(ctx.is_reserved(&r));
    let id = r.id();
    let h = ctx.insert_entity(r, Counter { count: 1 });
    assert_eq!(h.id(), id);
    assert_eq!(ctx.read(&h).unwrap().count, 1);
}

#[test]
fn queue_keeps_effect_order() {
    let mut ctx: Ctx = PlatformContext::new();
    let e = ctx.create_entity(Counter { count: 0 });
    ctx.begin_update();
    ctx.defer(1);
    ctx.push_effect(Effect::Emit { emitter: Emitter::Entity(e.id()), kind: RESET, payload: Change { increment: 0 } });
    ctx.defer(2);
    let log = ctx.end_update();
    assert_eq!(log.len(), 3);
    assert!(matches!(log[0], Dispatch::Called { token: 1 }));
    assert!(matches!(&log[1], Dispatch::Emitted { listeners, .. } if listeners.is_empty()));
    assert!(matches!(log[2], Dispatch::Called { token: 2 }));
}

#[test]
fn stepwise_flush_takes_in_what_callbacks_queue() {
    let mut ctx: Ctx = PlatformContext::new();
    ctx.begin_update();
    let e = ctx.create_entity(Counter { count: 0 });
    let gone = ctx.create_entity(Counter { count: 9 });
    let gone_id = gone.id();
    let o = ctx.observe(Emitter::Entity(e.id()));
    let r = ctx.on_release(&gone);
    ctx.end_update();

    ctx.begin_update();
    ctx.defer(1);
    ctx.emit(&e, CHANGE, Change { increment: 1 });
    assert!(ctx.end_update_stepwise());
    let mut order = Vec::new();
    let mut gone = Some(gone);
    while !ctx.is_flushed() {
        let (released, applied) = ctx.flush_step();
        for d in released {
            if let Dispatch::Released { entity, listeners, .. } = d {
                order.push(format!("released {} to {:?}", entity, listeners));
            }
        }
        match applied {
            Some(Dispatch::Called { token: 1 }) => {
                order.push("callback".to_string());
                // the callback notifies and drops an entity within the same flush
                ctx.begin_update();
                ctx.notify(&e);
                ctx.release(gone.take().unwrap());
                assert!(ctx.end_update().is_empty());
            }
            Some(Dispatch::Emitted { .. }) => order.push("event".to_string()),
            Some(Dispatch::Notified { observers, .. }) => order.push(format!("notified {:?}", observers)),
            _ => {}
        }
    }
    ctx.end_flush();
    assert_eq!(
        order,
        vec![
            "callback".to_string(),
            format!("released {} to {:?}", gone_id, vec![r.id()]),
            "event".to_string(),
            format!("notified {:?}", vec![o.id()]),
        ]
    );
    assert_eq!(ctx.open_updates(), 0);
}

#[test]
fn observer_answering_false_is_removed() {
    let mut ctx: Ctx = PlatformContext::new();
    ctx.begin_update();
    let e = ctx.create_entity(Counter { count: 0 });
    let stay = ctx.observe(Emitter::Entity(e.id()));
    let leave = ctx.observe(Emitter::Entity(e.id()));
    let listener = ctx.subscribe(Emitter::Entity(e.id()), CHANGE);
    ctx.end_update();

    ctx.begin_update();
    ctx.notify(&e);
    ctx.emit(&e, CHANGE, Change { increment: 1 });
    let log = ctx.end_update();
    for d in &log {
        match d {
            Dispatch::Notified { observers, .. } => {
                let keep: Vec<bool> = observers.iter().map(|id| *id == stay.id()).collect();
                ctx.retain_observers(observers, &keep);
            }
            Dispatch::Emitted { listeners, .. } => {
                ctx.retain_listeners(listeners, &vec![false; listeners.len()]);
            }
            _ => {}
        }
    }
    assert!(ctx.is_subscribed(&stay));
    assert!(!ctx.is_subscribed(&leave));
    assert!(!ctx.is_subscribed(&listener));

    ctx.begin_update();
    ctx.notify(&e);
    ctx.emit(&e, CHANGE, Change { increment: 1 });
    let log = ctx.end_update();
    assert_eq!(notified(&log), vec![(Emitter::Entity(e.id()), vec![stay.id()])]);
    assert!(matches!(&log[1], Dispatch::Emitted { listeners, .. } if listeners.is_empty()));
}
