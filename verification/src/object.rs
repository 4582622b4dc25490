//! Identifiers of on-chain objects and what the rest of the library reads of an object.

use vstd::prelude::*;

verus! {

/// Identifier of an object, and equally an account address: 32 bytes.
pub type ObjectId = [u8; 32];

/// Digest of a transaction or of an object's contents.
pub type Digest = [u8; 32];

/// One version of one object: its identifier, its version and the digest of its contents.
pub type ObjectRef = (ObjectId, u64, Digest);

/// Who may use an object.
#[derive(Clone, Copy, Debug, PartialEq, Eq)]
pub enum Owner {
    /// Only the account with this address.
    AddressOwner(ObjectId),
    /// Any other form of ownership: shared, immutable, or owned by another object.
    NotAnAddress,
}

/// An object of the node, together with the one property of it that decisions depend on.
#[derive(Debug)]
pub struct Object<O> {
    pub owner: Owner,
    pub contents: O,
}

impl<O: Clone> Clone for Object<O> {
    fn clone(&self) -> (copy: Self)
        ensures
            copy.owner == self.owner,
            cloned(self.contents, copy.contents),
    {
        Object { owner: self.owner, contents: self.contents.clone() }
    }
}

/// How a transaction came to write an object.
#[derive(Clone, Copy, Debug, PartialEq, Eq, Structural)]
pub enum WriteKind {
    /// The object existed before, outside any other object.
    Mutate,
    /// The object is new.
    Create,
    /// The object was taken out of another object.
    Unwrap,
}

/// How one identifier stands to another.
#[derive(Clone, Copy, Debug, PartialEq, Eq, Structural)]
pub enum IdOrder {
    Less,
    Equal,
    Greater,
}

/// `a` comes before `b` byte by byte: at the first position where they differ, `a` has the
/// smaller byte.
pub open spec fn id_less(a: ObjectId, b: ObjectId) -> bool {
    exists|k: int| #[trigger] differ_first_at(a, b, k) && a@[k] < b@[k]
}

/// `k` is the first position at which `a` and `b` hold different bytes.
pub open spec fn differ_first_at(a: ObjectId, b: ObjectId, k: int) -> bool {
    &&& 0 <= k < 32
    &&& a@[k] != b@[k]
    &&& forall|j: int| 0 <= j < k ==> a@[j] == b@[j]
}

/// Compares two identifiers byte by byte.
pub fn order_ids(a: &ObjectId, b: &ObjectId) -> (order: IdOrder)
    ensures
        order == IdOrder::Less <==> id_less(*a, *b),
        order == IdOrder::Equal <==> *a == *b,
        order == IdOrder::Greater <==> id_less(*b, *a),
{
    let mut i: usize = 0;
    while i < 32
        invariant
            i <= 32,
            forall|j: int| 0 <= j < i ==> a@[j] == b@[j],
        decreases 32 - i,
    {
        if a[i] != b[i] {
            proof {
                assert(differ_first_at(*a, *b, i as int));
                assert(differ_first_at(*b, *a, i as int));
                assert forall|k: int| differ_first_at(*a, *b, k) || differ_first_at(*b, *a, k)
                    implies k == i by {
                    if k < i {
                        assert(a@[k] == b@[k]);
                    }
                    if i < k {
                        assert(a@[i as int] == b@[i as int]);
                    }
                }
            }
            if a[i] < b[i] {
                return IdOrder::Less;
            } else {
                return IdOrder::Greater;
            }
        }
        i = i + 1;
    }
    assert(*a =~= *b);
    IdOrder::Equal
}

/// The first byte that differs decides: two identifiers are equal exactly when all 32 bytes agree,
/// and otherwise the one with the smaller byte at the first place of difference comes first.
pub proof fn law_first_different_byte_decides(
    a: &ObjectId,
    b: &ObjectId,
    order: IdOrder,
    k: int,
)
    requires
        call_ensures(order_ids, (a, b), order),
    ensures
        order == IdOrder::Equal <==> forall|j: int| 0 <= j < 32 ==> #[trigger] a@[j] == b@[j],
        0 <= k < 32 && (forall|j: int| 0 <= j < k ==> #[trigger] a@[j] == b@[j]) && a@[k] < b@[k]
            ==> order == IdOrder::Less && id_less(*a, *b) && !id_less(*b, *a),
        0 <= k < 32 && (forall|j: int| 0 <= j < k ==> #[trigger] a@[j] == b@[j]) && a@[k] > b@[k]
            ==> order == IdOrder::Greater && id_less(*b, *a) && !id_less(*a, *b),
{
    if forall|j: int| 0 <= j < 32 ==> #[trigger] a@[j] == b@[j] {
        assert(*a =~= *b);
    }
    law_id_order(*a, *b, *b);
    if 0 <= k < 32 && (forall|j: int| 0 <= j < k ==> #[trigger] a@[j] == b@[j]) && a@[k] != b@[k] {
        assert(differ_first_at(*a, *b, k));
        assert(differ_first_at(*b, *a, k));
    }
}

/// An identifier comes before another exactly when at some place it has the smaller byte and all
/// bytes before that place agree.
pub proof fn law_order_is_lexicographic(a: ObjectId, b: ObjectId)
    ensures
        id_less(a, b) <==> exists|k: int|
            0 <= k < 32 && #[trigger] a@[k] < b@[k] && forall|j: int|
                0 <= j < k ==> #[trigger] a@[j] == b@[j],
{
    if id_less(a, b) {
        let k = choose|k: int| #[trigger] differ_first_at(a, b, k) && a@[k] < b@[k];
        assert(a@[k] < b@[k]);
    }
    if exists|k: int|
        0 <= k < 32 && #[trigger] a@[k] < b@[k] && forall|j: int|
            0 <= j < k ==> #[trigger] a@[j] == b@[j] {
        let k = choose|k: int|
            0 <= k < 32 && #[trigger] a@[k] < b@[k] && forall|j: int|
                0 <= j < k ==> #[trigger] a@[j] == b@[j];
        assert(differ_first_at(a, b, k));
    }
}

/// The order of identifiers is strict and total: of two identifiers exactly one of "before",
/// "equal" and "after" holds, and "before" carries over a third identifier.
pub proof fn law_id_order(a: ObjectId, b: ObjectId, c: ObjectId)
    ensures
        !id_less(a, a),
        id_less(a, b) ==> !id_less(b, a) && a != b,
        id_less(a, b) || a == b || id_less(b, a),
        id_less(a, b) && id_less(b, c) ==> id_less(a, c),
{
    if !id_less(a, b) && !id_less(b, a) {
        lemma_equal_below(a, b, 32);
        assert(a =~= b);
    }
    if id_less(a, b) && id_less(b, a) {
        let k = choose|k: int| #[trigger] differ_first_at(a, b, k) && a@[k] < b@[k];
        let m = choose|m: int| #[trigger] differ_first_at(b, a, m) && b@[m] < a@[m];
        if k < m {
            assert(b@[k] == a@[k]);
        }
        if m < k {
            assert(a@[m] == b@[m]);
        }
    }
    if id_less(a, b) && id_less(b, c) {
        let k = choose|k: int| #[trigger] differ_first_at(a, b, k) && a@[k] < b@[k];
        let m = choose|m: int| #[trigger] differ_first_at(b, c, m) && b@[m] < c@[m];
        let first = if k < m { k } else { m };
        assert forall|j: int| 0 <= j < first implies a@[j] == c@[j] by {
            assert(a@[j] == b@[j]);
            assert(b@[j] == c@[j]);
        }
        if k < m {
            assert(b@[k] == c@[k]);
        }
        if m < k {
            assert(a@[m] == b@[m]);
        }
        assert(differ_first_at(a, c, first));
    }
}

/// Identifiers of which neither comes before the other agree below any bound.
proof fn lemma_equal_below(a: ObjectId, b: ObjectId, bound: int)
    requires
        0 <= bound <= 32,
        !id_less(a, b),
        !id_less(b, a),
    ensures
        forall|j: int| 0 <= j < bound ==> a@[j] == b@[j],
    decreases bound,
{
    if bound > 0 {
        lemma_equal_below(a, b, bound - 1);
        if a@[bound - 1] != b@[bound - 1] {
            assert(differ_first_at(a, b, bound - 1));
            assert(differ_first_at(b, a, bound - 1));
        }
    }
}

} // verus!
