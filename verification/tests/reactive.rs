use daw_core::Reactive;
use daw_core::ReactiveStore;

#[test]
fn set_replaces_the_value() {
    let mut store: ReactiveStore<u32> = ReactiveStore::new();
    let cell = Reactive::new(&mut store, 1);
    assert_eq!(cell.get_copy(&store), 1);
    cell.set(&mut store, 7);
    assert_eq!(cell.get_copy(&store), 7);
    assert_eq!(*cell.get(&store), 7);
}

#[test]
fn replace_returns_the_previous_value() {
    let mut store: ReactiveStore<u32> = ReactiveStore::new();
    let cell = Reactive::new(&mut store, 3);
    let prev = cell.replace(&mut store, 4);
    assert_eq!(prev, 3);
    assert_eq!(cell.get_copy(&store), 4);
}

#[test]
fn mutate_rewrites_in_place_and_notifies() {
    let mut store: ReactiveStore<u32> = ReactiveStore::new();
    let cell = Reactive::new(&mut store, 10);
    let sub = cell.subscribe(&mut store);
    cell.mutate(&mut store, |v| v + 5);
    assert_eq!(cell.get_copy(&store), 15);
    let log = store.take_deliveries();
    assert_eq!(log.len(), 1);
    assert_eq!(log[0].subscriber, sub);
    assert_eq!(log[0].value, 15);
}

#[test]
fn subscribers_are_notified_in_subscription_order() {
    let mut store: ReactiveStore<i64> = ReactiveStore::new();
    let cell = Reactive::new(&mut store, 0);
    let first = cell.subscribe(&mut store);
    let second = cell.subscribe(&mut store);
    assert_ne!(first, second);
    cell.set(&mut store, 42);
    let log = store.take_deliveries();
    assert_eq!(log.len(), 2);
    assert_eq!(log[0].subscriber, first);
    assert_eq!(log[0].value, 42);
    assert_eq!(log[1].subscriber, second);
    assert_eq!(log[1].value, 42);
}

#[test]
fn unsubscribe_stops_notifications_and_unknown_ids_are_ignored() {
    let mut store: ReactiveStore<u32> = ReactiveStore::new();
    let cell = Reactive::new(&mut store, 0);
    let sub = cell.subscribe(&mut store);
    cell.unsubscribe(&mut store, 987_654);
    cell.set(&mut store, 1);
    assert_eq!(store.take_deliveries().len(), 1);
    cell.unsubscribe(&mut store, sub);
    cell.set(&mut store, 2);
    assert_eq!(store.take_deliveries().len(), 0);
}

#[test]
fn clone_outlives_the_original_handle() {
    let mut store: ReactiveStore<u32> = ReactiveStore::new();
    let original = Reactive::new(&mut store, 9);
    let clone = original.clone_handle(&mut store);
    original.release(&mut store);
    assert_eq!(clone.get_copy(&store), 9);
    clone.set(&mut store, 11);
    assert_eq!(clone.get_copy(&store), 11);
    clone.release(&mut store);
}

#[test]
fn delete_listeners_fire_exactly_once_on_the_last_release() {
    let mut store: ReactiveStore<u32> = ReactiveStore::new();
    let original = Reactive::new(&mut store, 5);
    let clone = original.clone_handle(&mut store);
    let listener = original.subscribe_delete(&mut store);
    original.release(&mut store);
    assert_eq!(store.take_delete_deliveries().len(), 0);
    clone.release(&mut store);
    let fired = store.take_delete_deliveries();
    assert_eq!(fired.len(), 1);
    assert_eq!(fired[0].subscriber, listener);
    assert_eq!(fired[0].value, 5);
    assert_eq!(store.take_delete_deliveries().len(), 0);
}

#[test]
fn unsubscribe_delete_removes_the_listener() {
    let mut store: ReactiveStore<u32> = ReactiveStore::new();
    let cell = Reactive::new(&mut store, 5);
    let listener = cell.subscribe_delete(&mut store);
    cell.unsubscribe_delete(&mut store, listener);
    cell.release(&mut store);
    assert_eq!(store.take_delete_deliveries().len(), 0);
}
