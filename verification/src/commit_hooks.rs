//! What is told to whom after a transaction is committed.
//!
//! Two kinds of clients are told: those that mirror objects, when the transaction wrote an object
//! of the watched address or of a watched pool, and those that follow transactions, when it
//! emitted an event that can be shown.

use crate::object::{order_ids, Digest, IdOrder, Object, ObjectId, Owner};
use crate::object_map::ObjectMap;
use crate::pool_related::PoolRelatedIds;
use vstd::prelude::*;

verus! {

/// A committed transaction as far as notifications depend on it. `O` is what an object holds, `E`
/// an event as it was emitted and `F` the effects.
pub struct CommittedTransaction<O, E, F> {
    pub is_system_tx: bool,
    pub digest: Digest,
    /// The objects that the transaction wrote.
    pub written: ObjectMap<Object<O>>,
    /// The events in the order in which they were emitted.
    pub events: Vec<E>,
    pub effects: F,
}

/// What is to be sent for a committed transaction. `S` is an event in the form in which it is
/// shown.
pub struct Notifications<O, S, F> {
    /// The written objects, for the clients that mirror objects.
    pub objects: Option<Vec<(ObjectId, Object<O>)>>,
    /// The effects and the events, for the clients that follow transactions.
    pub events: Option<(F, Vec<S>)>,
}

/// The object belongs to the watched address.
pub open spec fn is_our_object<O>(object: Object<O>, address: Option<ObjectId>) -> bool {
    address is Some && object.owner == Owner::AddressOwner(address->0)
}

/// Some written object belongs to the watched address or to a watched pool.
pub open spec fn need_notify<O>(
    written: Seq<(ObjectId, Object<O>)>,
    address: Option<ObjectId>,
    pool_related_ids: Set<ObjectId>,
) -> bool {
    exists|i: int|
        0 <= i < written.len() && (is_our_object((#[trigger] written[i]).1, address)
            || pool_related_ids.contains(written[i].0))
}

/// `copy` holds clones of the entries of `written`, under the same identifiers, in the same order.
pub open spec fn copies<O: Clone>(
    written: Seq<(ObjectId, Object<O>)>,
    copy: Seq<(ObjectId, Object<O>)>,
) -> bool {
    &&& copy.len() == written.len()
    &&& forall|i: int|
        0 <= i < written.len() ==> {
            &&& (#[trigger] copy[i]).0 == written[i].0
            &&& copy[i].1.owner == written[i].1.owner
            &&& cloned(written[i].1.contents, copy[i].1.contents)
        }
}

/// The values among the outcomes, in order.
pub open spec fn values_among<S>(outcomes: Seq<Option<S>>) -> Seq<S>
    decreases outcomes.len(),
{
    if outcomes.len() == 0 {
        Seq::empty()
    } else {
        match outcomes.last() {
            Some(value) => values_among(outcomes.drop_last()).push(value),
            None => values_among(outcomes.drop_last()),
        }
    }
}

/// `outcome` may come out for the event emitted as number `number`: nothing when its layout
/// cannot be found, else what the conversion with that layout, and without a time stamp, gives.
pub open spec fn event_shown_as<E, L, S, R, T>(
    layout_of: R,
    convert: T,
    digest: Digest,
    event: E,
    number: u64,
    outcome: Option<S>,
) -> bool where R: Fn(&E) -> Option<L>, T: Fn(&E, Digest, u64, Option<u64>, L) -> Option<S> {
    ||| outcome is None && call_ensures(layout_of, (&event,), None)
    ||| exists|layout: L|
        call_ensures(layout_of, (&event,), Some(layout)) && #[trigger] call_ensures(
            convert,
            (&event, digest, number, None, layout),
            outcome,
        )
}

/// `outcomes` may come out for the events, each numbered by its place among all that were emitted.
pub open spec fn events_shown_as<E, L, S, R, T>(
    layout_of: R,
    convert: T,
    digest: Digest,
    events: Seq<E>,
    outcomes: Seq<Option<S>>,
) -> bool where R: Fn(&E) -> Option<L>, T: Fn(&E, Digest, u64, Option<u64>, L) -> Option<S> {
    &&& outcomes.len() == events.len()
    &&& forall|i: int|
        0 <= i < events.len() ==> event_shown_as(
            layout_of,
            convert,
            digest,
            events[i],
            i as u64,
            #[trigger] outcomes[i],
        )
}

/// The written objects, all of them and in the order of their identifiers, when one of them is
/// watched; else nothing.
pub fn notify_object_changes<O: Clone>(
    written: &ObjectMap<Object<O>>,
    address: Option<ObjectId>,
    pool_related_ids: &PoolRelatedIds,
) -> (objects: Option<Vec<(ObjectId, Object<O>)>>)
    ensures
        objects is Some <==> need_notify(written.listing(), address, pool_related_ids@),
        objects matches Some(copy) ==> copies(written.listing(), copy@),
{
    if !any_watched(written, address, pool_related_ids) {
        return None;
    }
    let mut copy: Vec<(ObjectId, Object<O>)> = Vec::new();
    let mut i: usize = 0;
    while i < written.len()
        invariant
            i <= written.listing().len(),
            copies(written.listing().take(i as int), copy@),
        decreases written.listing().len() - i,
    {
        let (id, object) = written.entry(i);
        let ghost before = copy@;
        copy.push((*id, object.clone()));
        proof {
            let listing = written.listing();
            assert forall|k: int| 0 <= k < i + 1 implies {
                &&& (#[trigger] copy@[k]).0 == listing.take(i + 1)[k].0
                &&& copy@[k].1.owner == listing.take(i + 1)[k].1.owner
                &&& cloned(listing.take(i + 1)[k].1.contents, copy@[k].1.contents)
            } by {
                if k < i {
                    assert(copy@[k] == before[k]);
                    assert(listing.take(i as int)[k] == listing.take(i + 1)[k]);
                }
            }
        }
        i = i + 1;
    }
    assert(written.listing().take(i as int) =~= written.listing());
    Some(copy)
}

/// True when some written object is watched.
fn any_watched<O>(
    written: &ObjectMap<Object<O>>,
    address: Option<ObjectId>,
    pool_related_ids: &PoolRelatedIds,
) -> (any: bool)
    ensures
        any == need_notify(written.listing(), address, pool_related_ids@),
{
    let mut i: usize = 0;
    while i < written.len()
        invariant
            i <= written.listing().len(),
            forall|k: int|
                0 <= k < i ==> !is_our_object((#[trigger] written.listing()[k]).1, address)
                    && !pool_related_ids@.contains(written.listing()[k].0),
        decreases written.listing().len() - i,
    {
        let (id, object) = written.entry(i);
        assert(written.listing()[i as int].1 == *object);
        let ours: bool = match (address, object.owner) {
            (Some(target), Owner::AddressOwner(owner)) => same_id(&target, &owner),
            _ => false,
        };
        if ours || pool_related_ids.contains(id) {
            return true;
        }
        i = i + 1;
    }
    false
}

/// True when the two identifiers are the same.
fn same_id(a: &ObjectId, b: &ObjectId) -> (same: bool)
    ensures
        same == (*a == *b),
{
    match order_ids(a, b) {
        IdOrder::Equal => true,
        _ => false,
    }
}

/// The effects and the events that can be shown, in the order in which they were emitted, when
/// the transaction wrote some object and at least one event can be shown; else nothing. `convert`
/// is handed the event, the digest of the transaction, the number of the event, the time stamp,
/// of which there is none, and the layout.
pub fn notify_events<O, E, F, L, S, R, T>(
    tx: &CommittedTransaction<O, E, F>,
    layout_of: R,
    convert: T,
) -> (sent: Option<(F, Vec<S>)>) where
    F: Clone,
    R: Fn(&E) -> Option<L>,
    T: Fn(&E, Digest, u64, Option<u64>, L) -> Option<S>,

    requires
        forall|event: &E| call_requires(layout_of, (event,)),
        forall|event: &E, digest: Digest, number: u64, layout: L|
            call_requires(convert, (event, digest, number, None, layout)),
    ensures
        tx.written.listing().len() == 0 ==> sent is None,
        tx.written.listing().len() > 0 ==> exists|outcomes: Seq<Option<S>>|
            #![trigger values_among(outcomes)]
            {
                &&& events_shown_as(layout_of, convert, tx.digest, tx.events@, outcomes)
                &&& sent is Some <==> values_among(outcomes).len() > 0
                &&& sent matches Some((effects, shown)) ==> {
                    &&& shown@ == values_among(outcomes)
                    &&& cloned(tx.effects, effects)
                }
            },
{
    let ghost mut outcomes: Seq<Option<S>> = Seq::empty();
    if tx.written.is_empty() {
        return None;
    }
    let mut shown: Vec<S> = Vec::new();
    let mut i: usize = 0;
    while i < tx.events.len()
        invariant
            forall|event: &E| call_requires(layout_of, (event,)),
            forall|event: &E, digest: Digest, number: u64, layout: L|
                call_requires(convert, (event, digest, number, None, layout)),
            i <= tx.events@.len(),
            events_shown_as(layout_of, convert, tx.digest, tx.events@.take(i as int), outcomes),
            shown@ == values_among(outcomes),
        decreases tx.events@.len() - i,
    {
        let event = &tx.events[i];
        let outcome: Option<S> = match layout_of(event) {
            Some(layout) => convert(event, tx.digest, i as u64, None, layout),
            None => None,
        };
        let ghost before = outcomes;
        proof {
            assert(event_shown_as(layout_of, convert, tx.digest, *event, i as u64, outcome));
            outcomes = before.push(outcome);
            let events = tx.events@;
            assert forall|k: int| 0 <= k < i + 1 implies event_shown_as(
                layout_of,
                convert,
                tx.digest,
                events.take(i + 1)[k],
                k as u64,
                #[trigger] outcomes[k],
            ) by {
                if k < i {
                    assert(events.take(i as int)[k] == events.take(i + 1)[k]);
                    assert(outcomes[k] == before[k]);
                }
            }
            assert(outcomes.drop_last() =~= before);
        }
        if let Some(value) = outcome {
            shown.push(value);
        }
        i = i + 1;
    }
    assert(tx.events@.take(i as int) =~= tx.events@);
    if shown.len() > 0 {
        Some((tx.effects.clone(), shown))
    } else {
        None
    }
}

/// A transaction that wrote nothing notifies nobody about objects, and watching more pools never
/// silences a notification.
pub proof fn law_watching_more_notifies_more<O>(
    written: Seq<(ObjectId, Object<O>)>,
    address: Option<ObjectId>,
    fewer: Set<ObjectId>,
    more: Set<ObjectId>,
)
    requires
        fewer.subset_of(more),
    ensures
        written.len() == 0 ==> !need_notify(written, address, fewer),
        need_notify(written, address, fewer) ==> need_notify(written, address, more),
{
    if need_notify(written, address, fewer) {
        let i = choose|i: int|
            0 <= i < written.len() && (is_our_object((#[trigger] written[i]).1, address)
                || fewer.contains(written[i].0));
        assert(is_our_object(written[i].1, address) || more.contains(written[i].0));
    }
}

/// Events are shown in the order in which they were emitted: what is shown of two runs of events
/// is what is shown of the first, then what is shown of the second.
pub proof fn law_events_keep_their_order<S>(first: Seq<Option<S>>, second: Seq<Option<S>>)
    ensures
        values_among(first + second) == values_among(first) + values_among(second),
    decreases second.len(),
{
    if second.len() == 0 {
        assert(first + second =~= first);
        assert(values_among(first) + values_among(second) =~= values_among(first));
    } else {
        law_events_keep_their_order(first, second.drop_last());
        assert((first + second).drop_last() =~= first + second.drop_last());
        assert(values_among(first + second) =~= values_among(first) + values_among(second));
    }
}

/// What is to be sent for a committed transaction: nothing for a system transaction, else what
/// [`notify_object_changes`] and [`notify_events`] say.
pub fn run_post_commit_hooks<O, E, F, L, S, R, T>(
    tx: &CommittedTransaction<O, E, F>,
    address: Option<ObjectId>,
    pool_related_ids: &PoolRelatedIds,
    layout_of: R,
    convert: T,
) -> (sent: Notifications<O, S, F>) where
    O: Clone,
    F: Clone,
    R: Fn(&E) -> Option<L>,
    T: Fn(&E, Digest, u64, Option<u64>, L) -> Option<S>,

    requires
        forall|event: &E| call_requires(layout_of, (event,)),
        forall|event: &E, digest: Digest, number: u64, layout: L|
            call_requires(convert, (event, digest, number, None, layout)),
    ensures
        sent.objects is Some <==> !tx.is_system_tx && need_notify(
            tx.written.listing(),
            address,
            pool_related_ids@,
        ),
        sent.objects matches Some(copy) ==> copies(tx.written.listing(), copy@),
        tx.is_system_tx || tx.written.listing().len() == 0 ==> sent.events is None,
        !tx.is_system_tx && tx.written.listing().len() > 0 ==> exists|outcomes: Seq<Option<S>>|
            #![trigger values_among(outcomes)]
            {
                &&& events_shown_as(layout_of, convert, tx.digest, tx.events@, outcomes)
                &&& sent.events is Some <==> values_among(outcomes).len() > 0
                &&& sent.events matches Some((effects, shown)) ==> {
                    &&& shown@ == values_among(outcomes)
                    &&& cloned(tx.effects, effects)
                }
            },
{
    if tx.is_system_tx {
        return Notifications { objects: None, events: None };
    }
    Notifications {
        objects: notify_object_changes(&tx.written, address, pool_related_ids),
        events: notify_events(tx, layout_of, convert),
    }
}

/// One watched object is enough: if any written object is that of a watched pool, the objects are
/// announced, whatever address is watched; and so they are if any written object belongs to the
/// watched address, whatever pools are watched.
pub proof fn law_watched_object_is_announced<O: Clone>(
    written: &ObjectMap<Object<O>>,
    address: Option<ObjectId>,
    pool_related_ids: &PoolRelatedIds,
    objects: Option<Vec<(ObjectId, Object<O>)>>,
    i: int,
)
    requires
        call_ensures(notify_object_changes::<O>, (written, address, pool_related_ids), objects),
        0 <= i < written.listing().len(),
    ensures
        pool_related_ids@.contains(written.listing()[i].0) ==> objects is Some,
        address matches Some(watched) ==> (written.listing()[i].1.owner == Owner::AddressOwner(
            watched,
        ) ==> objects is Some),
{
    if is_our_object(written.listing()[i].1, address) || pool_related_ids@.contains(
        written.listing()[i].0,
    ) {
        assert(need_notify(written.listing(), address, pool_related_ids@));
    }
}

/// Nothing is announced without a reason, and whatever is announced is all that was written: some
/// written object is that of a watched pool or belongs to the watched address, and every written
/// object, watched or not, is announced in its place, with its owner and a clone of its contents.
pub proof fn law_announcement_has_a_reason_and_is_whole<O: Clone>(
    written: &ObjectMap<Object<O>>,
    address: Option<ObjectId>,
    pool_related_ids: &PoolRelatedIds,
    copy: Vec<(ObjectId, Object<O>)>,
)
    requires
        call_ensures(notify_object_changes::<O>, (written, address, pool_related_ids), Some(copy)),
    ensures
        exists|i: int|
            0 <= i < written.listing().len() && (pool_related_ids@.contains(
                (#[trigger] written.listing()[i]).0,
            ) || (address is Some && written.listing()[i].1.owner == Owner::AddressOwner(
                address->0,
            ))),
        copy@.len() == written.listing().len(),
        forall|i: int|
            0 <= i < copy@.len() ==> {
                &&& (#[trigger] copy@[i]).0 == written.listing()[i].0
                &&& copy@[i].1.owner == written.listing()[i].1.owner
                &&& cloned(written.listing()[i].1.contents, copy@[i].1.contents)
            },
{
}

/// A transaction without written objects announces no events, and every other one announces what
/// can be shown, however many events there are: when no event is without a layout and no
/// conversion comes to nothing, all events are shown, each as the conversion of that very event
/// under its number, with the digest of the transaction and without a time stamp.
pub proof fn law_every_convertible_event_is_shown<O, E, F, L, S, R, T>(
    tx: &CommittedTransaction<O, E, F>,
    layout_of: R,
    convert: T,
    sent: Option<(F, Vec<S>)>,
    i: int,
) where
    F: Clone,
    R: Fn(&E) -> Option<L>,
    T: Fn(&E, Digest, u64, Option<u64>, L) -> Option<S>,

    requires
        call_ensures(notify_events::<O, E, F, L, S, R, T>, (tx, layout_of, convert), sent),
        forall|k: int|
            0 <= k < tx.events@.len() ==> !call_ensures(
                layout_of,
                (&#[trigger] tx.events@[k],),
                None,
            ),
        forall|k: int, layout: L|
            0 <= k < tx.events@.len() ==> !#[trigger] call_ensures(
                convert,
                (&tx.events@[k], tx.digest, k as u64, None, layout),
                None,
            ),
    ensures
        sent is Some <==> tx.written.listing().len() > 0 && tx.events@.len() > 0,
        sent matches Some((effects, shown)) ==> {
            &&& cloned(tx.effects, effects)
            &&& shown@.len() == tx.events@.len()
            &&& 0 <= i < shown@.len() ==> exists|layout: L|
                call_ensures(layout_of, (&tx.events@[i],), Some(layout)) && #[trigger] call_ensures(
                    convert,
                    (&tx.events@[i], tx.digest, i as u64, None, layout),
                    Some(shown@[i]),
                )
        },
{
    if tx.written.listing().len() > 0 {
        let outcomes = lemma_outcomes_of_events(
            layout_of,
            convert,
            tx.digest,
            tx.events@,
            tx.effects,
            sent,
        );
        assert forall|k: int| 0 <= k < outcomes.len() implies (#[trigger] outcomes[k]) is Some by {
            let event = tx.events@[k];
        }
        lemma_all_values(outcomes);
        if let Some((effects, shown)) = sent {
            if 0 <= i < shown@.len() {
                assert(outcomes[i] == Some(shown@[i]));
            }
        }
    }
}

/// What is shown of a transaction that wrote objects: there is one outcome for each event, which
/// is nothing only where the layout was not found or the conversion came to nothing; and shown are
/// the outcomes that are something, all of them and in their order.
pub proof fn law_shown_events_are_the_outcomes_in_order<O, E, F, L, S, R, T>(
    tx: &CommittedTransaction<O, E, F>,
    layout_of: R,
    convert: T,
    sent: Option<(F, Vec<S>)>,
) -> (outcomes: Seq<Option<S>>) where
    F: Clone,
    R: Fn(&E) -> Option<L>,
    T: Fn(&E, Digest, u64, Option<u64>, L) -> Option<S>,

    requires
        call_ensures(notify_events::<O, E, F, L, S, R, T>, (tx, layout_of, convert), sent),
        tx.written.listing().len() > 0,
    ensures
        outcomes.len() == tx.events@.len(),
        forall|i: int|
            0 <= i < outcomes.len() ==> {
                ||| (#[trigger] outcomes[i]) is None && call_ensures(
                    layout_of,
                    (&tx.events@[i],),
                    None,
                )
                ||| exists|layout: L|
                    call_ensures(layout_of, (&tx.events@[i],), Some(layout))
                        && #[trigger] call_ensures(
                        convert,
                        (&tx.events@[i], tx.digest, i as u64, None, layout),
                        outcomes[i],
                    )
            },
        sent is Some <==> exists|i: int| 0 <= i < outcomes.len() && (#[trigger] outcomes[i]) is Some,
        sent matches Some((effects, shown)) ==> {
            &&& cloned(tx.effects, effects)
            &&& shown@ == outcomes.filter(|outcome: Option<S>| outcome is Some).map_values(
                |outcome: Option<S>| outcome->0,
            )
        },
{
    let outcomes = lemma_outcomes_of_events(
        layout_of,
        convert,
        tx.digest,
        tx.events@,
        tx.effects,
        sent,
    );
    lemma_values_are_filtered(outcomes);
    lemma_some_value(outcomes);
    outcomes
}

/// A system transaction announces nothing at all.
pub proof fn law_system_transaction_is_silent<O, E, F, L, S, R, T>(
    tx: &CommittedTransaction<O, E, F>,
    address: Option<ObjectId>,
    pool_related_ids: &PoolRelatedIds,
    layout_of: R,
    convert: T,
    sent: Notifications<O, S, F>,
) where
    O: Clone,
    F: Clone,
    R: Fn(&E) -> Option<L>,
    T: Fn(&E, Digest, u64, Option<u64>, L) -> Option<S>,

    requires
        call_ensures(
            run_post_commit_hooks::<O, E, F, L, S, R, T>,
            (tx, address, pool_related_ids, layout_of, convert),
            sent,
        ),
        tx.is_system_tx,
    ensures
        sent.objects is None,
        sent.events is None,
{
}

/// Any other transaction announces its written objects, all of them, exactly when one of them is
/// that of a watched pool or belongs to the watched address.
pub proof fn law_hooks_announce_watched_objects<O, E, F, L, S, R, T>(
    tx: &CommittedTransaction<O, E, F>,
    address: Option<ObjectId>,
    pool_related_ids: &PoolRelatedIds,
    layout_of: R,
    convert: T,
    sent: Notifications<O, S, F>,
) where
    O: Clone,
    F: Clone,
    R: Fn(&E) -> Option<L>,
    T: Fn(&E, Digest, u64, Option<u64>, L) -> Option<S>,

    requires
        call_ensures(
            run_post_commit_hooks::<O, E, F, L, S, R, T>,
            (tx, address, pool_related_ids, layout_of, convert),
            sent,
        ),
        !tx.is_system_tx,
    ensures
        sent.objects is Some <==> exists|i: int|
            0 <= i < tx.written.listing().len() && (pool_related_ids@.contains(
                (#[trigger] tx.written.listing()[i]).0,
            ) || (address is Some && tx.written.listing()[i].1.owner == Owner::AddressOwner(
                address->0,
            ))),
        sent.objects matches Some(copy) ==> {
            &&& copy@.len() == tx.written.listing().len()
            &&& forall|i: int|
                0 <= i < copy@.len() ==> {
                    &&& (#[trigger] copy@[i]).0 == tx.written.listing()[i].0
                    &&& copy@[i].1.owner == tx.written.listing()[i].1.owner
                    &&& cloned(tx.written.listing()[i].1.contents, copy@[i].1.contents)
                }
        },
{
    let written = tx.written.listing();
    if exists|i: int|
        0 <= i < written.len() && (pool_related_ids@.contains((#[trigger] written[i]).0) || (address
            is Some && written[i].1.owner == Owner::AddressOwner(address->0))) {
        let i = choose|i: int|
            0 <= i < written.len() && (pool_related_ids@.contains((#[trigger] written[i]).0) || (
            address is Some && written[i].1.owner == Owner::AddressOwner(address->0)));
        assert(is_our_object(written[i].1, address) || pool_related_ids@.contains(written[i].0));
    }
}

/// Any other transaction announces its events as if they were announced by themselves: nothing
/// if it wrote no object, else the outcomes that are something, all of them and in their order.
pub proof fn law_hooks_announce_events_in_order<O, E, F, L, S, R, T>(
    tx: &CommittedTransaction<O, E, F>,
    address: Option<ObjectId>,
    pool_related_ids: &PoolRelatedIds,
    layout_of: R,
    convert: T,
    sent: Notifications<O, S, F>,
) -> (outcomes: Seq<Option<S>>) where
    O: Clone,
    F: Clone,
    R: Fn(&E) -> Option<L>,
    T: Fn(&E, Digest, u64, Option<u64>, L) -> Option<S>,

    requires
        call_ensures(
            run_post_commit_hooks::<O, E, F, L, S, R, T>,
            (tx, address, pool_related_ids, layout_of, convert),
            sent,
        ),
        !tx.is_system_tx,
    ensures
        tx.written.listing().len() == 0 ==> sent.events is None,
        tx.written.listing().len() > 0 ==> {
            &&& outcomes.len() == tx.events@.len()
            &&& forall|i: int|
                0 <= i < outcomes.len() ==> {
                    ||| (#[trigger] outcomes[i]) is None && call_ensures(
                        layout_of,
                        (&tx.events@[i],),
                        None,
                    )
                    ||| exists|layout: L|
                        call_ensures(layout_of, (&tx.events@[i],), Some(layout))
                            && #[trigger] call_ensures(
                            convert,
                            (&tx.events@[i], tx.digest, i as u64, None, layout),
                            outcomes[i],
                        )
                }
            &&& sent.events is Some <==> exists|i: int|
                0 <= i < outcomes.len() && (#[trigger] outcomes[i]) is Some
            &&& sent.events matches Some((effects, shown)) ==> {
                &&& cloned(tx.effects, effects)
                &&& shown@ == outcomes.filter(|outcome: Option<S>| outcome is Some).map_values(
                    |outcome: Option<S>| outcome->0,
                )
            }
        },
{
    if tx.written.listing().len() == 0 {
        Seq::empty()
    } else {
        let outcomes = lemma_outcomes_of_events(
            layout_of,
            convert,
            tx.digest,
            tx.events@,
            tx.effects,
            sent.events,
        );
        lemma_values_are_filtered(outcomes);
        lemma_some_value(outcomes);
        outcomes
    }
}

/// The outcomes behind what is shown of a transaction.
proof fn lemma_outcomes_of_events<E, F, L, S, R, T>(
    layout_of: R,
    convert: T,
    digest: Digest,
    events: Seq<E>,
    effects_of_tx: F,
    sent: Option<(F, Vec<S>)>,
) -> (outcomes: Seq<Option<S>>) where
    F: Clone,
    R: Fn(&E) -> Option<L>,
    T: Fn(&E, Digest, u64, Option<u64>, L) -> Option<S>,

    requires
        exists|outcomes: Seq<Option<S>>|
            #![trigger values_among(outcomes)]
            {
                &&& events_shown_as(layout_of, convert, digest, events, outcomes)
                &&& sent is Some <==> values_among(outcomes).len() > 0
                &&& sent matches Some((effects, shown)) ==> {
                    &&& shown@ == values_among(outcomes)
                    &&& cloned(effects_of_tx, effects)
                }
            },
    ensures
        outcomes.len() == events.len(),
        forall|i: int|
            0 <= i < outcomes.len() ==> {
                ||| (#[trigger] outcomes[i]) is None && call_ensures(layout_of, (&events[i],), None)
                ||| exists|layout: L|
                    call_ensures(layout_of, (&events[i],), Some(layout)) && #[trigger] call_ensures(
                        convert,
                        (&events[i], digest, i as u64, None, layout),
                        outcomes[i],
                    )
            },
        sent is Some <==> values_among(outcomes).len() > 0,
        sent matches Some((effects, shown)) ==> {
            &&& shown@ == values_among(outcomes)
            &&& cloned(effects_of_tx, effects)
        },
{
    let outcomes = choose|outcomes: Seq<Option<S>>|
        #![trigger values_among(outcomes)]
        {
            &&& events_shown_as(layout_of, convert, digest, events, outcomes)
            &&& sent is Some <==> values_among(outcomes).len() > 0
            &&& sent matches Some((effects, shown)) ==> {
                &&& shown@ == values_among(outcomes)
                &&& cloned(effects_of_tx, effects)
            }
        };
    assert forall|i: int| 0 <= i < outcomes.len() implies {
        ||| (#[trigger] outcomes[i]) is None && call_ensures(layout_of, (&events[i],), None)
        ||| exists|layout: L|
            call_ensures(layout_of, (&events[i],), Some(layout)) && #[trigger] call_ensures(
                convert,
                (&events[i], digest, i as u64, None, layout),
                outcomes[i],
            )
    } by {
        assert(event_shown_as(layout_of, convert, digest, events[i], i as u64, outcomes[i]));
    }
    outcomes
}

/// When every outcome is something, the values are those of all outcomes.
proof fn lemma_all_values<S>(outcomes: Seq<Option<S>>)
    requires
        forall|i: int| 0 <= i < outcomes.len() ==> (#[trigger] outcomes[i]) is Some,
    ensures
        values_among(outcomes).len() == outcomes.len(),
        forall|i: int|
            0 <= i < outcomes.len() ==> Some(#[trigger] values_among(outcomes)[i]) == outcomes[i],
    decreases outcomes.len(),
{
    if outcomes.len() > 0 {
        let fewer = outcomes.drop_last();
        assert forall|i: int| 0 <= i < fewer.len() implies (#[trigger] fewer[i]) is Some by {
            assert(outcomes[i] is Some);
        }
        lemma_all_values(fewer);
        assert(outcomes[outcomes.len() - 1] is Some);
        assert forall|i: int| 0 <= i < outcomes.len() implies Some(
            #[trigger] values_among(outcomes)[i],
        ) == outcomes[i] by {
            if i < fewer.len() {
                assert(values_among(outcomes)[i] == values_among(fewer)[i]);
            }
        }
    }
}

/// The values are what is left when the outcomes that are nothing are taken away.
proof fn lemma_values_are_filtered<S>(outcomes: Seq<Option<S>>)
    ensures
        values_among(outcomes) == outcomes.filter(
            |outcome: Option<S>| outcome is Some,
        ).map_values(|outcome: Option<S>| outcome->0),
    decreases outcomes.len(),
{
    let some = |outcome: Option<S>| outcome is Some;
    let value = |outcome: Option<S>| outcome->0;
    reveal(Seq::filter);
    if outcomes.len() > 0 {
        let fewer = outcomes.drop_last();
        lemma_values_are_filtered(fewer);
        if outcomes.last() is Some {
            assert(outcomes.filter(some) == fewer.filter(some).push(outcomes.last()));
            assert(outcomes.filter(some).map_values(value) =~= fewer.filter(some).map_values(
                value,
            ).push(outcomes.last()->0));
        } else {
            assert(outcomes.filter(some) == fewer.filter(some));
        }
    } else {
        assert(values_among(outcomes) =~= outcomes.filter(some).map_values(value));
    }
}

/// There is a value exactly when some outcome is something.
proof fn lemma_some_value<S>(outcomes: Seq<Option<S>>)
    ensures
        values_among(outcomes).len() > 0 <==> exists|i: int|
            0 <= i < outcomes.len() && (#[trigger] outcomes[i]) is Some,
    decreases outcomes.len(),
{
    if outcomes.len() > 0 {
        let fewer = outcomes.drop_last();
        lemma_some_value(fewer);
        if outcomes.last() is Some {
            assert(outcomes[outcomes.len() - 1] is Some);
        } else if exists|i: int| 0 <= i < outcomes.len() && (#[trigger] outcomes[i]) is Some {
            let i = choose|i: int| 0 <= i < outcomes.len() && (#[trigger] outcomes[i]) is Some;
            assert(fewer[i] is Some);
        } else if exists|i: int| 0 <= i < fewer.len() && (#[trigger] fewer[i]) is Some {
            let i = choose|i: int| 0 <= i < fewer.len() && (#[trigger] fewer[i]) is Some;
            assert(outcomes[i] is Some);
        }
    }
}

} // verus!
