//! Which objects a transaction wrote, and how it came to write each.

use crate::object::{ObjectId, ObjectRef, Owner, WriteKind};
use crate::object_map::ObjectMap;
use vstd::prelude::*;

verus! {

/// The references of `changed`, all of one kind.
pub open spec fn of_kind(changed: Seq<(ObjectRef, Owner)>, kind: WriteKind) -> Seq<(
    ObjectRef,
    WriteKind,
)> {
    Seq::new(changed.len(), |i: int| (changed[i].0, kind))
}

/// All references with their kind: first the created, then the unwrapped, then the mutated.
pub open spec fn all_written(
    created: Seq<(ObjectRef, Owner)>,
    unwrapped: Seq<(ObjectRef, Owner)>,
    mutated: Seq<(ObjectRef, Owner)>,
) -> Seq<(ObjectRef, WriteKind)> {
    of_kind(created, WriteKind::Create) + of_kind(unwrapped, WriteKind::Unwrap) + of_kind(
        mutated,
        WriteKind::Mutate,
    )
}

/// For each identifier, the reference and the kind under which it is listed last.
pub open spec fn last_written(listed: Seq<(ObjectRef, WriteKind)>) -> Map<
    ObjectId,
    (ObjectRef, WriteKind),
>
    decreases listed.len(),
{
    if listed.len() == 0 {
        Map::empty()
    } else {
        last_written(listed.drop_last()).insert(listed.last().0.0, listed.last())
    }
}

/// Every reference of `changed` is to an object of `written`.
pub open spec fn all_present<O>(
    changed: Seq<(ObjectRef, Owner)>,
    written: Map<ObjectId, O>,
) -> bool {
    forall|i: int| 0 <= i < changed.len() ==> written.contains_key((#[trigger] changed[i]).0.0)
}

/// `result` has an entry for each listed identifier: the reference and the kind under which it is
/// listed last, and a clone of the written object.
pub open spec fn pairs_up<O: Clone>(
    listed: Seq<(ObjectRef, WriteKind)>,
    written: Map<ObjectId, O>,
    result: Map<ObjectId, (ObjectRef, O, WriteKind)>,
) -> bool {
    &&& result.dom() == last_written(listed).dom()
    &&& forall|id: ObjectId| #[trigger]
        result.contains_key(id) ==> {
            &&& result[id].0 == last_written(listed)[id].0
            &&& result[id].2 == last_written(listed)[id].1
            &&& cloned(written[id], result[id].1)
        }
}

/// True when every reference is to a written object.
pub fn refers_to_written<O>(
    changed: &Vec<(ObjectRef, Owner)>,
    written: &ObjectMap<O>,
) -> (all: bool)
    requires
        written.wf(),
    ensures
        all == all_present(changed@, written@),
{
    let mut i: usize = 0;
    while i < changed.len()
        invariant
            written.wf(),
            i <= changed@.len(),
            forall|k: int| 0 <= k < i ==> written@.contains_key((#[trigger] changed@[k]).0.0),
        decreases changed@.len() - i,
    {
        if written.get(&changed[i].0.0).is_none() {
            assert(!written@.contains_key(changed@[i as int].0.0));
            return false;
        }
        i = i + 1;
    }
    true
}

/// Adds the objects of one kind to the result.
fn add_of_kind<O: Clone>(
    result: &mut ObjectMap<(ObjectRef, O, WriteKind)>,
    changed: &Vec<(ObjectRef, Owner)>,
    kind: WriteKind,
    written: &ObjectMap<O>,
    Ghost(listed): Ghost<Seq<(ObjectRef, WriteKind)>>,
)
    requires
        old(result).wf(),
        written.wf(),
        all_present(changed@, written@),
        pairs_up(listed, written@, old(result)@),
    ensures
        final(result).wf(),
        pairs_up(listed + of_kind(changed@, kind), written@, final(result)@),
{
    let mut i: usize = 0;
    let ghost added = of_kind(changed@, kind);
    assert(listed + added.take(0) =~= listed);
    while i < changed.len()
        invariant
            i <= changed@.len(),
            added == of_kind(changed@, kind),
            result.wf(),
            written.wf(),
            all_present(changed@, written@),
            pairs_up(listed + added.take(i as int), written@, result@),
        decreases changed@.len() - i,
    {
        let oref = changed[i].0;
        assert(written@.contains_key(changed@[i as int].0.0));
        let ghost before = result@;
        if let Some(object) = written.get(&oref.0) {
            let copy = object.clone();
            result.insert(oref.0, (oref, copy, kind));
            proof {
                let so_far = listed + added.take(i as int);
                let more = listed + added.take(i + 1);
                assert(more.drop_last() =~= so_far);
                assert(more.last() == (oref, kind));
                assert(result@.dom() =~= last_written(more).dom());
                assert forall|id: ObjectId| #[trigger] result@.contains_key(id) implies {
                    &&& result@[id].0 == last_written(more)[id].0
                    &&& result@[id].2 == last_written(more)[id].1
                    &&& cloned(written@[id], result@[id].1)
                } by {
                    if id != oref.0 {
                        assert(before.contains_key(id));
                    }
                }
            }
        }
        i = i + 1;
    }
    assert(added.take(i as int) =~= added);
}

/// The written objects under their identifiers, each with its reference and with how it came to
/// be written. Of an identifier that is listed more than once, the last listing counts.
pub fn written_with_kind<O: Clone>(
    created: &Vec<(ObjectRef, Owner)>,
    unwrapped: &Vec<(ObjectRef, Owner)>,
    mutated: &Vec<(ObjectRef, Owner)>,
    written: &ObjectMap<O>,
) -> (result: ObjectMap<(ObjectRef, O, WriteKind)>)
    requires
        written.wf(),
        all_present(created@, written@),
        all_present(unwrapped@, written@),
        all_present(mutated@, written@),
    ensures
        result.wf(),
        pairs_up(all_written(created@, unwrapped@, mutated@), written@, result@),
{
    let mut result: ObjectMap<(ObjectRef, O, WriteKind)> = ObjectMap::new();
    let ghost none = Seq::<(ObjectRef, WriteKind)>::empty();
    let ghost first = of_kind(created@, WriteKind::Create);
    let ghost second = first + of_kind(unwrapped@, WriteKind::Unwrap);
    assert(result@.dom() =~= last_written(none).dom());
    add_of_kind(&mut result, created, WriteKind::Create, written, Ghost(none));
    assert(none + first =~= first);
    add_of_kind(&mut result, unwrapped, WriteKind::Unwrap, written, Ghost(first));
    add_of_kind(&mut result, mutated, WriteKind::Mutate, written, Ghost(second));
    result
}

/// The reference is one of `changed`, under the given identifier.
pub open spec fn mentions(changed: Seq<(ObjectRef, Owner)>, id: ObjectId) -> bool {
    exists|i: int| 0 <= i < changed.len() && (#[trigger] changed[i]).0.0 == id
}

/// Exactly the created, unwrapped and mutated objects are written. An object counts as mutated if
/// it is listed so at all, else as unwrapped if it is listed so, else as created.
pub proof fn law_kind_of_a_written_object(
    created: Seq<(ObjectRef, Owner)>,
    unwrapped: Seq<(ObjectRef, Owner)>,
    mutated: Seq<(ObjectRef, Owner)>,
    id: ObjectId,
)
    ensures
        ({
            let result = last_written(all_written(created, unwrapped, mutated));
            &&& result.contains_key(id) <==> mentions(created, id) || mentions(unwrapped, id)
                || mentions(mutated, id)
            &&& result.contains_key(id) ==> result[id].0.0 == id && result[id].1 == (if mentions(
                mutated,
                id,
            ) {
                WriteKind::Mutate
            } else if mentions(unwrapped, id) {
                WriteKind::Unwrap
            } else {
                WriteKind::Create
            })
        }),
{
    let none = Seq::<(ObjectRef, WriteKind)>::empty();
    let first = of_kind(created, WriteKind::Create);
    let second = first + of_kind(unwrapped, WriteKind::Unwrap);
    assert(none + first =~= first);
    lemma_last_written_of_kind(none, created, WriteKind::Create, id);
    lemma_last_written_of_kind(first, unwrapped, WriteKind::Unwrap, id);
    lemma_last_written_of_kind(second, mutated, WriteKind::Mutate, id);
}

/// The whole reference of a written object is one that the effects list, and the written object is
/// handed on under it. Of an object that was mutated the last mutation counts; of one that was
/// not, the last unwrapping; of one that was neither, the last creation. Who owns the object makes
/// no difference.
pub proof fn law_written_object_keeps_its_reference<O: Clone>(
    created: &Vec<(ObjectRef, Owner)>,
    unwrapped: &Vec<(ObjectRef, Owner)>,
    mutated: &Vec<(ObjectRef, Owner)>,
    written: &ObjectMap<O>,
    result: ObjectMap<(ObjectRef, O, WriteKind)>,
    i: int,
)
    requires
        call_ensures(written_with_kind::<O>, (created, unwrapped, mutated, written), result),
    ensures
        0 <= i < mutated@.len() && (forall|j: int|
            i < j < mutated@.len() ==> (#[trigger] mutated@[j]).0.0 != mutated@[i].0.0) ==> {
            let id = mutated@[i].0.0;
            &&& result@.contains_key(id)
            &&& result@[id].0 == mutated@[i].0
            &&& result@[id].2 == WriteKind::Mutate
            &&& cloned(written@[id], result@[id].1)
        },
        0 <= i < unwrapped@.len() && (forall|j: int|
            i < j < unwrapped@.len() ==> (#[trigger] unwrapped@[j]).0.0 != unwrapped@[i].0.0) && (
        forall|j: int|
            0 <= j < mutated@.len() ==> (#[trigger] mutated@[j]).0.0 != unwrapped@[i].0.0) ==> {
            let id = unwrapped@[i].0.0;
            &&& result@.contains_key(id)
            &&& result@[id].0 == unwrapped@[i].0
            &&& result@[id].2 == WriteKind::Unwrap
            &&& cloned(written@[id], result@[id].1)
        },
        0 <= i < created@.len() && (forall|j: int|
            i < j < created@.len() ==> (#[trigger] created@[j]).0.0 != created@[i].0.0) && (forall|
            j: int,
        |
            0 <= j < unwrapped@.len() ==> (#[trigger] unwrapped@[j]).0.0 != created@[i].0.0) && (
        forall|j: int|
            0 <= j < mutated@.len() ==> (#[trigger] mutated@[j]).0.0 != created@[i].0.0) ==> {
            let id = created@[i].0.0;
            &&& result@.contains_key(id)
            &&& result@[id].0 == created@[i].0
            &&& result@[id].2 == WriteKind::Create
            &&& cloned(written@[id], result@[id].1)
        },
{
    lemma_last_listing_counts(created@, unwrapped@, mutated@, written@, result@, i);
}

/// Every object of the result is one that the effects list: its whole reference stands among the
/// mutated, the unwrapped or the created ones, in the list that its kind names.
pub proof fn law_only_listed_objects_are_written<O: Clone>(
    created: &Vec<(ObjectRef, Owner)>,
    unwrapped: &Vec<(ObjectRef, Owner)>,
    mutated: &Vec<(ObjectRef, Owner)>,
    written: &ObjectMap<O>,
    result: ObjectMap<(ObjectRef, O, WriteKind)>,
    id: ObjectId,
)
    requires
        call_ensures(written_with_kind::<O>, (created, unwrapped, mutated, written), result),
        result@.contains_key(id),
    ensures
        result@[id].0.0 == id,
        match result@[id].2 {
            WriteKind::Mutate => exists|i: int|
                0 <= i < mutated@.len() && (#[trigger] mutated@[i]).0 == result@[id].0,
            WriteKind::Unwrap => exists|i: int|
                0 <= i < unwrapped@.len() && (#[trigger] unwrapped@[i]).0 == result@[id].0,
            WriteKind::Create => exists|i: int|
                0 <= i < created@.len() && (#[trigger] created@[i]).0 == result@[id].0,
        },
        cloned(written@[id], result@[id].1),
{
    lemma_listed_somewhere(created@, unwrapped@, mutated@, written@, result@, id);
}

/// Objects are paired up with their references whenever every listed reference is to a written
/// object; nothing more is asked.
pub proof fn law_listed_objects_can_be_paired_up<O: Clone>(
    created: &Vec<(ObjectRef, Owner)>,
    unwrapped: &Vec<(ObjectRef, Owner)>,
    mutated: &Vec<(ObjectRef, Owner)>,
    written: &ObjectMap<O>,
)
    requires
        written.wf(),
        forall|i: int|
            0 <= i < created@.len() ==> written@.contains_key((#[trigger] created@[i]).0.0),
        forall|i: int|
            0 <= i < unwrapped@.len() ==> written@.contains_key((#[trigger] unwrapped@[i]).0.0),
        forall|i: int|
            0 <= i < mutated@.len() ==> written@.contains_key((#[trigger] mutated@[i]).0.0),
    ensures
        call_requires(written_with_kind::<O>, (created, unwrapped, mutated, written)),
{
}

/// A single reference to an object that was not written is noticed, and nothing else is.
pub proof fn law_missing_object_is_noticed<O>(
    changed: &Vec<(ObjectRef, Owner)>,
    written: &ObjectMap<O>,
    all: bool,
)
    requires
        call_ensures(refers_to_written::<O>, (changed, written), all),
    ensures
        !all <==> exists|i: int|
            0 <= i < changed@.len() && !written@.contains_key((#[trigger] changed@[i]).0.0),
{
}

/// The last listing of an identifier gives its reference and its kind.
pub proof fn lemma_last_listing_counts<O: Clone>(
    created: Seq<(ObjectRef, Owner)>,
    unwrapped: Seq<(ObjectRef, Owner)>,
    mutated: Seq<(ObjectRef, Owner)>,
    written: Map<ObjectId, O>,
    result: Map<ObjectId, (ObjectRef, O, WriteKind)>,
    i: int,
)
    requires
        pairs_up(all_written(created, unwrapped, mutated), written, result),
    ensures
        0 <= i < mutated.len() && (forall|j: int|
            i < j < mutated.len() ==> (#[trigger] mutated[j]).0.0 != mutated[i].0.0) ==> {
            let id = mutated[i].0.0;
            &&& result.contains_key(id)
            &&& result[id].0 == mutated[i].0
            &&& result[id].2 == WriteKind::Mutate
            &&& cloned(written[id], result[id].1)
        },
        0 <= i < unwrapped.len() && (forall|j: int|
            i < j < unwrapped.len() ==> (#[trigger] unwrapped[j]).0.0 != unwrapped[i].0.0) && (
        forall|j: int|
            0 <= j < mutated.len() ==> (#[trigger] mutated[j]).0.0 != unwrapped[i].0.0) ==> {
            let id = unwrapped[i].0.0;
            &&& result.contains_key(id)
            &&& result[id].0 == unwrapped[i].0
            &&& result[id].2 == WriteKind::Unwrap
            &&& cloned(written[id], result[id].1)
        },
        0 <= i < created.len() && (forall|j: int|
            i < j < created.len() ==> (#[trigger] created[j]).0.0 != created[i].0.0) && (forall|
            j: int,
        |
            0 <= j < unwrapped.len() ==> (#[trigger] unwrapped[j]).0.0 != created[i].0.0) && (forall|
            j: int,
        |
            0 <= j < mutated.len() ==> (#[trigger] mutated[j]).0.0 != created[i].0.0) ==> {
            let id = created[i].0.0;
            &&& result.contains_key(id)
            &&& result[id].0 == created[i].0
            &&& result[id].2 == WriteKind::Create
            &&& cloned(written[id], result[id].1)
        },
{
    let listed = all_written(created, unwrapped, mutated);
    let c = created.len() as int;
    let u = unwrapped.len() as int;
    assert forall|k: int| 0 <= k < listed.len() implies #[trigger] listed[k] == (if k < c {
        (created[k].0, WriteKind::Create)
    } else if k < c + u {
        (unwrapped[k - c].0, WriteKind::Unwrap)
    } else {
        (mutated[k - c - u].0, WriteKind::Mutate)
    }) by {}
    if 0 <= i < created.len() {
        lemma_listed_last(listed, i);
    }
    if 0 <= i < unwrapped.len() {
        lemma_listed_last(listed, c + i);
    }
    if 0 <= i < mutated.len() {
        lemma_listed_last(listed, c + u + i);
    }
}

/// Whatever is paired up is listed.
pub proof fn lemma_listed_somewhere<O: Clone>(
    created: Seq<(ObjectRef, Owner)>,
    unwrapped: Seq<(ObjectRef, Owner)>,
    mutated: Seq<(ObjectRef, Owner)>,
    written: Map<ObjectId, O>,
    result: Map<ObjectId, (ObjectRef, O, WriteKind)>,
    id: ObjectId,
)
    requires
        pairs_up(all_written(created, unwrapped, mutated), written, result),
        result.contains_key(id),
    ensures
        result[id].0.0 == id,
        match result[id].2 {
            WriteKind::Mutate => exists|i: int|
                0 <= i < mutated.len() && (#[trigger] mutated[i]).0 == result[id].0,
            WriteKind::Unwrap => exists|i: int|
                0 <= i < unwrapped.len() && (#[trigger] unwrapped[i]).0 == result[id].0,
            WriteKind::Create => exists|i: int|
                0 <= i < created.len() && (#[trigger] created[i]).0 == result[id].0,
        },
        cloned(written[id], result[id].1),
{
    let listed = all_written(created, unwrapped, mutated);
    let c = created.len() as int;
    let u = unwrapped.len() as int;
    assert(last_written(listed).contains_key(id));
    let k = lemma_listed_at(listed, id);
    if k < c {
        assert(listed[k] == (created[k].0, WriteKind::Create));
    } else if k < c + u {
        assert(listed[k] == (unwrapped[k - c].0, WriteKind::Unwrap));
    } else {
        assert(listed[k] == (mutated[k - c - u].0, WriteKind::Mutate));
    }
}

/// A listing that no later one of the same identifier follows is the one that counts.
proof fn lemma_listed_last(listed: Seq<(ObjectRef, WriteKind)>, k: int)
    requires
        0 <= k < listed.len(),
    ensures
        (forall|j: int| k < j < listed.len() ==> (#[trigger] listed[j]).0.0 != listed[k].0.0) ==> {
            &&& last_written(listed).contains_key(listed[k].0.0)
            &&& last_written(listed)[listed[k].0.0] == listed[k]
        },
    decreases listed.len(),
{
    let fewer = listed.drop_last();
    if k < listed.len() - 1 {
        lemma_listed_last(fewer, k);
        if forall|j: int| k < j < listed.len() ==> (#[trigger] listed[j]).0.0 != listed[k].0.0 {
            assert(listed[listed.len() - 1].0.0 != listed[k].0.0);
            assert forall|j: int| k < j < fewer.len() implies (#[trigger] fewer[j]).0.0
                != fewer[k].0.0 by {
                assert(fewer[j] == listed[j]);
            }
        }
    }
}

/// What counts for an identifier is listed.
proof fn lemma_listed_at(listed: Seq<(ObjectRef, WriteKind)>, id: ObjectId) -> (k: int)
    requires
        last_written(listed).contains_key(id),
    ensures
        0 <= k < listed.len(),
        listed[k].0.0 == id,
        last_written(listed)[id] == listed[k],
    decreases listed.len(),
{
    if listed.last().0.0 == id {
        listed.len() - 1
    } else {
        lemma_listed_at(listed.drop_last(), id)
    }
}

/// References of one kind, listed after others, decide over the identifiers that they mention and
/// over no other.
proof fn lemma_last_written_of_kind(
    listed: Seq<(ObjectRef, WriteKind)>,
    changed: Seq<(ObjectRef, Owner)>,
    kind: WriteKind,
    id: ObjectId,
)
    ensures
        ({
            let after = last_written(listed + of_kind(changed, kind));
            if mentions(changed, id) {
                after.contains_key(id) && after[id].0.0 == id && after[id].1 == kind
            } else {
                &&& after.contains_key(id) <==> last_written(listed).contains_key(id)
                &&& after.contains_key(id) ==> after[id] == last_written(listed)[id]
            }
        }),
    decreases changed.len(),
{
    let all = listed + of_kind(changed, kind);
    if changed.len() == 0 {
        assert(all =~= listed);
    } else {
        let fewer = changed.drop_last();
        assert(all.drop_last() =~= listed + of_kind(fewer, kind));
        assert(all.last() == (changed.last().0, kind));
        lemma_last_written_of_kind(listed, fewer, kind, id);
        if mentions(fewer, id) {
            let i = choose|i: int| 0 <= i < fewer.len() && (#[trigger] fewer[i]).0.0 == id;
            assert(changed[i].0.0 == id);
        }
        if changed.last().0.0 == id {
            assert(changed[changed.len() - 1].0.0 == id);
        } else if mentions(changed, id) {
            let i = choose|i: int| 0 <= i < changed.len() && (#[trigger] changed[i]).0.0 == id;
            assert(fewer[i].0.0 == id);
        }
    }
}

} // verus!
