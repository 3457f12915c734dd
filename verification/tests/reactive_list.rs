use daw_core::ReactiveList;

#[test]
fn push_returns_monotonic_keys_and_keeps_insertion_order() {
    let mut list: ReactiveList<u32> = ReactiveList::new();
    let a = list.push(10);
    let b = list.push(20);
    let c = list.push(30);
    assert!(a < b && b < c);
    let all = list.copy_of_whole_list();
    assert_eq!(all, vec![(a, 10), (b, 20), (c, 30)]);
}

#[test]
fn keys_are_never_reused_after_a_removal() {
    let mut list: ReactiveList<u32> = ReactiveList::new();
    let a = list.push(1);
    list.remove(a);
    let b = list.push(2);
    assert!(b > a);
    assert_eq!(list.get_copy(a), None);
    assert_eq!(list.get_copy(b), Some(2));
}

#[test]
fn remove_returns_the_item_and_deletes_the_entry() {
    let mut list: ReactiveList<u32> = ReactiveList::new();
    let a = list.push(1);
    let b = list.push(2);
    assert_eq!(list.remove(a), Some(1));
    assert_eq!(list.copy_of_whole_list(), vec![(b, 2)]);
    assert_eq!(list.len(), 1);
}

#[test]
fn push_subscriber_observes_the_key_before_lookups_do() {
    let mut list: ReactiveList<&str> = ReactiveList::new();
    let sub = list.subscribe_to_push();
    let key = list.push("note");
    let log = list.take_push_log();
    assert_eq!(log.len(), 1);
    assert_eq!(log[0].subscriber, sub);
    assert_eq!(log[0].key, key);
    let all = list.copy_of_whole_list();
    assert!(all.iter().any(|(k, _)| *k == key));
}

#[test]
fn remove_notifies_even_for_an_unknown_key() {
    let mut list: ReactiveList<u32> = ReactiveList::new();
    let sub = list.subscribe_to_remove();
    assert_eq!(list.remove(999), None);
    let log = list.take_remove_log();
    assert_eq!(log.len(), 1);
    assert_eq!(log[0].subscriber, sub);
    assert_eq!(log[0].key, 999);
}

#[test]
fn push_and_remove_streams_are_independent() {
    let mut list: ReactiveList<u32> = ReactiveList::new();
    let push_sub = list.subscribe_to_push();
    let remove_sub = list.subscribe_to_remove();
    assert_ne!(push_sub, remove_sub);
    let key = list.push(1);
    assert_eq!(list.take_remove_log().len(), 0);
    list.remove(key);
    assert_eq!(list.take_push_log().len(), 1);
    assert_eq!(list.take_remove_log().len(), 1);
}

#[test]
fn unsubscribe_stops_push_notifications() {
    let mut list: ReactiveList<u32> = ReactiveList::new();
    let sub = list.subscribe_to_push();
    list.unsubscribe_to_push(sub);
    list.push(1);
    assert_eq!(list.take_push_log().len(), 0);
    list.unsubscribe_to_remove(123_456);
}
