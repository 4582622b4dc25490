use sui_hooks::commit_hooks::{
    notify_object_changes, run_post_commit_hooks, CommittedTransaction, Notifications,
};
use sui_hooks::object::{Object, ObjectId, Owner};
use sui_hooks::object_map::ObjectMap;
use sui_hooks::pool_related::PoolRelatedIds;

fn id(n: u8) -> ObjectId {
    [n; 32]
}

fn object(owner: Owner, contents: &'static str) -> Object<&'static str> {
    Object { owner, contents }
}

fn pool(ids: &[u8]) -> PoolRelatedIds {
    let mut pool = PoolRelatedIds::new();
    for n in ids {
        pool.insert(id(*n));
    }
    pool
}

type Tx = CommittedTransaction<&'static str, &'static str, &'static str>;

/// A transaction that wrote object 2, owned by address 20, and object 1, shared.
fn tx(events: &[&'static str]) -> Tx {
    let mut written = ObjectMap::new();
    written.insert(id(2), object(Owner::AddressOwner(id(20)), "two"));
    written.insert(id(1), object(Owner::NotAnAddress, "one"));
    CommittedTransaction {
        is_system_tx: false,
        digest: id(77),
        written,
        events: events.to_vec(),
        effects: "effects",
    }
}

type Shown = (String, ObjectId, u64);

/// Events that begin with `?` have no layout, and those that begin with `!` do not convert.
fn run(tx: &Tx, address: Option<ObjectId>, ids: &[u8]) -> Notifications<&'static str, Shown, &'static str> {
    run_post_commit_hooks(
        tx,
        address,
        &pool(ids),
        |event: &&'static str| if event.starts_with('?') { None } else { Some(event.len()) },
        |event: &&'static str, digest: ObjectId, number: u64, time: Option<u64>, layout: usize| {
            assert_eq!(time, None);
            if event.starts_with('!') {
                None
            } else {
                Some((format!("{}/{}", event, layout), digest, number))
            }
        },
    )
}

fn names(objects: &Vec<(ObjectId, Object<&'static str>)>) -> Vec<(ObjectId, &'static str)> {
    objects.iter().map(|(id, object)| (*id, object.contents)).collect()
}

#[test]
fn an_object_of_the_watched_address_notifies_of_all_objects() {
    let sent = run(&tx(&[]), Some(id(20)), &[]);
    let objects = sent.objects.unwrap();
    assert_eq!(names(&objects), vec![(id(1), "one"), (id(2), "two")]);
    assert_eq!(objects[1].1.owner, Owner::AddressOwner(id(20)));
    assert_eq!(objects[0].1.owner, Owner::NotAnAddress);
}

#[test]
fn an_object_of_a_watched_pool_notifies_of_all_objects() {
    let sent = run(&tx(&[]), None, &[9, 1]);
    assert_eq!(names(&sent.objects.unwrap()), vec![(id(1), "one"), (id(2), "two")]);
}

#[test]
fn objects_that_nobody_watches_notify_nobody() {
    assert!(run(&tx(&[]), None, &[]).objects.is_none());
    assert!(run(&tx(&[]), Some(id(21)), &[3]).objects.is_none());
    assert!(run(&tx(&[]), Some(id(2)), &[20]).objects.is_none());
}

#[test]
fn watching_more_pools_silences_nothing() {
    assert!(run(&tx(&[]), None, &[1]).objects.is_some());
    assert!(run(&tx(&[]), None, &[1, 3, 4]).objects.is_some());
}

#[test]
fn without_written_objects_nothing_is_sent() {
    let mut empty = tx(&["e"]);
    empty.written = ObjectMap::new();
    let sent = run(&empty, Some(id(20)), &[1, 2]);
    assert!(sent.objects.is_none());
    assert!(sent.events.is_none());
    let none: ObjectMap<Object<&'static str>> = ObjectMap::new();
    assert!(notify_object_changes(&none, Some(id(20)), &pool(&[1])).is_none());
}

#[test]
fn system_transactions_notify_nobody() {
    let mut system = tx(&["e"]);
    system.is_system_tx = true;
    let sent = run(&system, Some(id(20)), &[1, 2]);
    assert!(sent.objects.is_none());
    assert!(sent.events.is_none());
}

#[test]
fn events_keep_their_order_and_their_number_among_all_events() {
    let sent = run(&tx(&["a", "?b", "cc", "!d", "e"]), None, &[]);
    let (effects, events) = sent.events.unwrap();
    assert_eq!(effects, "effects");
    assert_eq!(
        events,
        vec![
            ("a/1".to_string(), id(77), 0),
            ("cc/2".to_string(), id(77), 2),
            ("e/1".to_string(), id(77), 4),
        ]
    );
}

#[test]
fn events_that_cannot_be_shown_are_not_announced() {
    assert!(run(&tx(&["?a", "!b"]), None, &[]).events.is_none());
    assert!(run(&tx(&[]), None, &[]).events.is_none());
}
