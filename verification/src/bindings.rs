//! Keys bound to values, in the order in which the keys were first bound.

use vstd::prelude::*;
use vstd::seq_lib::seq_to_set_is_finite;
use vstd::set_lib::lemma_subset_equality;

verus! {

/// The index of the first member with the given key, or the number of
/// members if there is none.
pub open spec fn key_index<V>(members: Seq<(Seq<char>, V)>, key: Seq<char>) -> int
    decreases members.len(),
{
    if members.len() == 0 || members[0].0 == key {
        0
    } else {
        1 + key_index(members.skip(1), key)
    }
}

/// Whether some member has the given key.
pub open spec fn has_key<V>(members: Seq<(Seq<char>, V)>, key: Seq<char>) -> bool {
    key_index(members, key) < members.len()
}

/// The members after `key` is bound to `value`: a key already present keeps
/// its place and gets the new value, a new key goes to the end.
pub open spec fn bind<V>(members: Seq<(Seq<char>, V)>, key: Seq<char>, value: V) -> Seq<
    (Seq<char>, V),
> {
    if has_key(members, key) {
        members.update(key_index(members, key), (key, value))
    } else {
        members.push((key, value))
    }
}

/// No two members share a key.
pub open spec fn distinct_keys<V>(members: Seq<(Seq<char>, V)>) -> bool {
    forall|i: int, j: int|
        0 <= i < j < members.len() ==> (#[trigger] members[i]).0 != (#[trigger] members[j]).0
}

/// The first place of a key lies within the members or at their end, no
/// member before it has the key, and where the key is bound that place holds
/// it.
pub proof fn lemma_key_index<V>(members: Seq<(Seq<char>, V)>, key: Seq<char>)
    ensures
        0 <= key_index(members, key) <= members.len(),
        forall|i: int| 0 <= i < key_index(members, key) ==> (#[trigger] members[i]).0 != key,
        has_key(members, key) ==> members[key_index(members, key)].0 == key,
    decreases members.len(),
{
    if members.len() == 0 || members[0].0 == key {
    } else {
        let rest = members.skip(1);
        lemma_key_index(rest, key);
        assert forall|i: int| 0 <= i < key_index(members, key) implies (#[trigger] members[i]).0
            != key by {
            if i > 0 {
                assert(members[i] == rest[i - 1]);
            }
        }
    }
}

/// Among members with distinct keys, a member is the first with its key.
pub proof fn lemma_key_index_own<V>(members: Seq<(Seq<char>, V)>, i: int)
    requires
        distinct_keys(members),
        0 <= i < members.len(),
    ensures
        key_index(members, members[i].0) == i,
{
    lemma_key_index(members, members[i].0);
    let k = key_index(members, members[i].0);
    if k < i {
        assert(members[k].0 != members[i].0);
    }
}

/// The keys of the members, in their order.
pub open spec fn keys<V>(members: Seq<(Seq<char>, V)>) -> Seq<Seq<char>> {
    Seq::new(members.len(), |i: int| members[i].0)
}

/// A key that some member has is bound.
pub proof fn lemma_has_key<V>(members: Seq<(Seq<char>, V)>, i: int)
    requires
        0 <= i < members.len(),
    ensures
        has_key(members, members[i].0),
{
    lemma_key_index(members, members[i].0);
}

/// Where two lists of members with distinct keys are equally long and every
/// key of the first is bound in the second, every key of the second is bound
/// in the first.
pub proof fn lemma_same_keys<V>(x: Seq<(Seq<char>, V)>, y: Seq<(Seq<char>, V)>)
    requires
        distinct_keys(x),
        distinct_keys(y),
        x.len() == y.len(),
        forall|i: int| 0 <= i < x.len() ==> has_key(y, (#[trigger] x[i]).0),
    ensures
        forall|j: int| 0 <= j < y.len() ==> has_key(x, (#[trigger] y[j]).0),
{
    let kx = keys(x);
    let ky = keys(y);
    assert(kx.no_duplicates()) by {
        assert forall|i: int, j: int| 0 <= i < kx.len() && 0 <= j < kx.len() && i != j implies kx[i]
            != kx[j] by {
            if i < j {
                assert(x[i].0 != x[j].0);
            } else {
                assert(x[j].0 != x[i].0);
            }
        }
    }
    assert(ky.no_duplicates()) by {
        assert forall|i: int, j: int| 0 <= i < ky.len() && 0 <= j < ky.len() && i != j implies ky[i]
            != ky[j] by {
            if i < j {
                assert(y[i].0 != y[j].0);
            } else {
                assert(y[j].0 != y[i].0);
            }
        }
    }
    kx.unique_seq_to_set();
    ky.unique_seq_to_set();
    seq_to_set_is_finite(kx);
    seq_to_set_is_finite(ky);
    assert(kx.to_set().subset_of(ky.to_set())) by {
        assert forall|k: Seq<char>| kx.to_set().contains(k) implies ky.to_set().contains(k) by {
            let i = choose|i: int| 0 <= i < kx.len() && kx[i] == k;
            assert(has_key(y, x[i].0));
            lemma_key_index(y, k);
            assert(ky[key_index(y, k)] == k);
        }
    }
    lemma_subset_equality(kx.to_set(), ky.to_set());
    assert forall|j: int| 0 <= j < y.len() implies has_key(x, (#[trigger] y[j]).0) by {
        assert(ky[j] == y[j].0);
        assert(ky.to_set().contains(ky[j]));
        assert(kx.to_set().contains(y[j].0));
        let i = choose|i: int| 0 <= i < kx.len() && kx[i] == y[j].0;
        assert(x[i].0 == y[j].0);
        lemma_has_key(x, i);
    }
}

/// Binding a key keeps the keys distinct, and changes no value but that of
/// the key.
pub proof fn lemma_bind_distinct<V>(members: Seq<(Seq<char>, V)>, key: Seq<char>, item: V)
    requires
        distinct_keys(members),
    ensures
        distinct_keys(bind(members, key, item)),
        bind(members, key, item).len() >= members.len(),
        forall|i: int|
            0 <= i < bind(members, key, item).len() ==> (#[trigger] bind(members, key, item)[i]).1
                == item || (i < members.len() && bind(members, key, item)[i].1 == members[i].1),
{
    lemma_key_index(members, key);
    let bound = bind(members, key, item);
    assert forall|i: int, j: int| 0 <= i < j < bound.len() implies (#[trigger] bound[i]).0 != (
    #[trigger] bound[j]).0 by {
        if has_key(members, key) {
            assert(bound[i].0 == members[i].0);
            assert(bound[j].0 == members[j].0);
        } else {
            if j < members.len() {
                assert(bound[i] == members[i]);
                assert(bound[j] == members[j]);
            } else {
                assert(bound[i] == members[i]);
            }
        }
    }
}

} // verus!
