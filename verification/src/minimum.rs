//! The first least element of a list in which some places hold nothing.

use vstd::prelude::*;

verus! {

/// Place `i` holds a key, no place holds a smaller one, and every place
/// before `i` that holds a key holds a greater one.
pub open spec fn is_first_minimum(keys: Seq<Option<int>>, i: int) -> bool {
    &&& 0 <= i < keys.len()
    &&& keys[i] is Some
    &&& forall|j: int|
        0 <= j < keys.len() && (#[trigger] keys[j]) is Some ==> keys[i].unwrap() <= keys[j].unwrap()
    &&& forall|j: int| 0 <= j < i && (#[trigger] keys[j]) is Some ==> keys[i].unwrap() < keys[j].unwrap()
}

/// No place holds a key.
pub open spec fn holds_no_key(keys: Seq<Option<int>>) -> bool {
    forall|j: int| 0 <= j < keys.len() ==> (#[trigger] keys[j]) is None
}

/// The place of the first least key, if any place holds a key.
pub open spec fn first_minimum(keys: Seq<Option<int>>) -> Option<int> {
    if exists|i: int| is_first_minimum(keys, i) {
        Some(choose|i: int| is_first_minimum(keys, i))
    } else {
        None
    }
}

/// Two first least places are one place.
pub proof fn lemma_first_minimum_unique(keys: Seq<Option<int>>, i: int, j: int)
    requires
        is_first_minimum(keys, i),
        is_first_minimum(keys, j),
    ensures
        i == j,
{
    if i < j {
        assert(keys[i] is Some);
    } else if j < i {
        assert(keys[j] is Some);
    }
}

/// A first least place is the value of `first_minimum`.
pub proof fn lemma_first_minimum_is(keys: Seq<Option<int>>, i: int)
    requires
        is_first_minimum(keys, i),
    ensures
        first_minimum(keys) == Some(i),
{
    let c = choose|c: int| is_first_minimum(keys, c);
    lemma_first_minimum_unique(keys, c, i);
}

/// Without keys there is no first least place.
pub proof fn lemma_first_minimum_none(keys: Seq<Option<int>>)
    requires
        holds_no_key(keys),
    ensures
        first_minimum(keys) is None,
{
    if exists|i: int| is_first_minimum(keys, i) {
        let c = choose|c: int| is_first_minimum(keys, c);
        assert(keys[c] is Some);
    }
}

/// What `first_minimum` returns is a first least place, and it returns
/// nothing only where no place holds a key.
pub proof fn lemma_first_minimum_sound(keys: Seq<Option<int>>)
    ensures
        match first_minimum(keys) {
            Some(i) => is_first_minimum(keys, i),
            None => holds_no_key(keys),
        },
    decreases keys.len(),
{
    if first_minimum(keys) is None {
        if keys.len() > 0 {
            let front = keys.drop_last();
            lemma_first_minimum_sound(front);
            let last = keys.len() - 1;
            match first_minimum(front) {
                Some(b) => {
                    assert(forall|j: int| 0 <= j < front.len() ==> front[j] == keys[j]);
                    if keys[last] is Some && keys[last].unwrap() < front[b].unwrap() {
                        lemma_extend_new(keys, b);
                        assert(is_first_minimum(keys, last));
                    } else {
                        lemma_extend_old(keys, b);
                        assert(is_first_minimum(keys, b));
                    }
                    assert(false);
                },
                None => {
                    assert(forall|j: int| 0 <= j < front.len() ==> front[j] == keys[j]);
                    if keys[last] is Some {
                        assert(is_first_minimum(keys, last));
                        assert(false);
                    }
                    assert(holds_no_key(keys));
                },
            }
        }
    }
}

/// Where the last key is smaller than the least before it, the last place
/// is the first least place.
pub proof fn lemma_extend_new(keys: Seq<Option<int>>, b: int)
    requires
        keys.len() > 0,
        is_first_minimum(keys.drop_last(), b),
        keys.last() is Some,
        keys.last().unwrap() < keys[b].unwrap(),
    ensures
        is_first_minimum(keys, keys.len() - 1),
{
    let front = keys.drop_last();
    assert(forall|j: int| 0 <= j < front.len() ==> front[j] == keys[j]);
    assert forall|j: int| 0 <= j < keys.len() && (#[trigger] keys[j]) is Some implies keys.last().unwrap()
        <= keys[j].unwrap() by {
        if j < front.len() {
            assert(front[j] is Some);
        }
    }
    assert forall|j: int| 0 <= j < keys.len() - 1 && (#[trigger] keys[j]) is Some implies keys.last().unwrap()
        < keys[j].unwrap() by {
        assert(front[j] is Some);
    }
}

/// Where the last place holds no smaller key, the first least place stays.
pub proof fn lemma_extend_old(keys: Seq<Option<int>>, b: int)
    requires
        keys.len() > 0,
        is_first_minimum(keys.drop_last(), b),
        keys.last() is Some ==> keys.last().unwrap() >= keys[b].unwrap(),
    ensures
        is_first_minimum(keys, b),
{
    let front = keys.drop_last();
    assert(forall|j: int| 0 <= j < front.len() ==> front[j] == keys[j]);
    assert forall|j: int| 0 <= j < keys.len() && (#[trigger] keys[j]) is Some implies keys[b].unwrap()
        <= keys[j].unwrap() by {
        if j < front.len() {
            assert(front[j] is Some);
        }
    }
    assert forall|j: int| 0 <= j < b && (#[trigger] keys[j]) is Some implies keys[b].unwrap()
        < keys[j].unwrap() by {
        assert(front[j] is Some);
    }
}

} // verus!
