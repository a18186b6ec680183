//! Values by key: a list in which no key stands twice.

use vstd::prelude::*;
use crate::chars::{own, same};

verus! {

/// The first place from `i` on that holds a key, or the length.
pub open spec fn key_from<V>(list: Seq<(String, V)>, i: int, key: Seq<char>) -> int
    decreases list.len() - i,
{
    if i < 0 || i >= list.len() || list[i].0@ == key {
        i
    } else {
        key_from(list, i + 1, key)
    }
}

/// Whether no key stands twice.
pub open spec fn keys_differ<V>(list: Seq<(String, V)>) -> bool {
    forall|i: int, j: int|
        0 <= i < j < list.len() ==> (#[trigger] list[i]).0@ != (#[trigger] list[j]).0@
}

/// The value of a key.
pub open spec fn value_of<V>(list: Seq<(String, V)>, key: Seq<char>) -> Option<V> {
    let i = key_from(list, 0, key);
    if 0 <= i < list.len() {
        Some(list[i].1)
    } else {
        None
    }
}

proof fn lemma_key_found<V>(list: Seq<(String, V)>, i: int, at: int, key: Seq<char>)
    requires
        0 <= i <= at < list.len(),
        list[at].0@ == key,
        forall|k: int| i <= k < at ==> (#[trigger] list[k]).0@ != key,
    ensures
        key_from(list, i, key) == at,
    decreases at - i,
{
    if i < at {
        lemma_key_found(list, i + 1, at, key);
    }
}

proof fn lemma_key_missing<V>(list: Seq<(String, V)>, i: int, key: Seq<char>)
    requires
        0 <= i <= list.len(),
        forall|k: int| i <= k < list.len() ==> (#[trigger] list[k]).0@ != key,
    ensures
        key_from(list, i, key) == list.len(),
    decreases list.len() - i,
{
    if i < list.len() {
        lemma_key_missing(list, i + 1, key);
    }
}

proof fn lemma_key_from<V>(list: Seq<(String, V)>, i: int, key: Seq<char>)
    requires
        0 <= i <= list.len(),
    ensures
        i <= key_from(list, i, key) <= list.len(),
        forall|k: int| i <= k < key_from(list, i, key) ==> (#[trigger] list[k]).0@ != key,
        key_from(list, i, key) < list.len() ==> list[key_from(list, i, key)].0@ == key,
    decreases list.len() - i,
{
    if i < list.len() && list[i].0@ != key {
        lemma_key_from(list, i + 1, key);
    }
}

/// A value is found under the key that it stands at, and only there.
proof fn lemma_value_of<V>(list: Seq<(String, V)>, i: int)
    requires
        keys_differ(list),
        0 <= i < list.len(),
    ensures
        value_of(list, list[i].0@) == Some(list[i].1),
{
    lemma_key_found(list, 0, i, list[i].0@);
}

/// What two lists hold under a key is the same where they have it at the same
/// place, or both not.
proof fn lemma_other_keys<V>(before: Seq<(String, V)>, after: Seq<(String, V)>, key: Seq<char>)
    requires
        keys_differ(before),
        keys_differ(after),
        forall|i: int|
            0 <= i < before.len() && (#[trigger] before[i]).0@ == key ==> exists|j: int|
                0 <= j < after.len() && (#[trigger] after[j]).0@ == key && after[j].1
                    == before[i].1,
        forall|j: int|
            0 <= j < after.len() && (#[trigger] after[j]).0@ == key ==> exists|i: int|
                0 <= i < before.len() && (#[trigger] before[i]).0@ == key,
    ensures
        value_of(before, key) == value_of(after, key),
{
    lemma_key_from(before, 0, key);
    lemma_key_from(after, 0, key);
    let i = key_from(before, 0, key);
    let j = key_from(after, 0, key);
    if i < before.len() {
        let k = choose|k: int|
            0 <= k < after.len() && (#[trigger] after[k]).0@ == key && after[k].1 == before[i].1;
        lemma_value_of(after, k);
    } else if j < after.len() {
        let k = choose|k: int| 0 <= k < before.len() && (#[trigger] before[k]).0@ == key;
        assert(before[k].0@ == key);
    }
}

/// Where a key stands.
pub fn place_of<V>(list: &Vec<(String, V)>, key: &str) -> (r: usize)
    ensures
        r == key_from(list@, 0, key@),
        r <= list@.len(),
        r < list@.len() ==> list@[r as int].0@ == key@ && value_of(list@, key@) == Some(
            list@[r as int].1,
        ),
        r == list@.len() <==> value_of(list@, key@) is None,
{
    let mut i: usize = 0;
    while i < list.len()
        invariant
            i <= list@.len(),
            key_from(list@, 0, key@) == key_from(list@, i as int, key@),
        decreases list@.len() - i,
    {
        if same(list[i].0.as_str(), key) {
            return i;
        }
        i += 1;
    }
    i
}

/// Put a value under a key, in place of the one that is there.
pub fn put_value<V>(list: &mut Vec<(String, V)>, key: &str, value: V)
    requires
        keys_differ(old(list)@),
    ensures
        keys_differ(final(list)@),
        value_of(final(list)@, key@) == Some(value),
        forall|other: Seq<char>|
            other != key@ ==> #[trigger] value_of(final(list)@, other) == value_of(
                old(list)@,
                other,
            ),
{
    let ghost before = list@;
    let at: usize = place_of(list, key);
    proof {
        lemma_key_from(before, 0, key@);
    }
    if at < list.len() {
        list.set(at, (own(key), value));
    } else {
        list.push((own(key), value));
    }
    proof {
        let after = list@;
        assert(forall|k: int| 0 <= k < before.len() && k != at ==> after[k] == before[k]);
        assert(after[at as int].0@ == key@);
        assert forall|i: int, j: int| 0 <= i < j < after.len() implies (#[trigger] after[i]).0@
            != (#[trigger] after[j]).0@ by {
            if i != at {
                assert(after[i] == before[i]);
            }
            if j != at {
                assert(after[j] == before[j]);
            }
            if i != at && j != at {
                assert(before[i].0@ != before[j].0@);
            }
            if at < before.len() {
                if i == at {
                    assert(before[at as int].0@ != before[j].0@);
                }
                if j == at {
                    assert(before[i].0@ != before[at as int].0@);
                }
            }
        }
        lemma_value_of(after, at as int);
        assert forall|other: Seq<char>| other != key@ implies #[trigger] value_of(after, other)
            == value_of(before, other) by {
            assert forall|i: int|
                0 <= i < before.len() && (#[trigger] before[i]).0@ == other implies exists|j: int|
                0 <= j < after.len() && (#[trigger] after[j]).0@ == other && after[j].1
                    == before[i].1 by {
                assert(i != at);
                assert(after[i].0@ == other);
            }
            assert forall|j: int|
                0 <= j < after.len() && (#[trigger] after[j]).0@ == other implies exists|i: int|
                0 <= i < before.len() && (#[trigger] before[i]).0@ == other by {
                assert(j != at);
                assert(before[j].0@ == other);
            }
            lemma_other_keys(before, after, other);
        }
    }
}

/// Take the value at a place out.
pub fn take_value<V>(list: &mut Vec<(String, V)>, at: usize)
    requires
        keys_differ(old(list)@),
        at < old(list)@.len(),
    ensures
        keys_differ(final(list)@),
        value_of(final(list)@, old(list)@[at as int].0@) is None,
        forall|other: Seq<char>|
            other != old(list)@[at as int].0@ ==> #[trigger] value_of(final(list)@, other)
                == value_of(old(list)@, other),
{
    let ghost before = list@;
    list.remove(at);
    proof {
        let after = list@;
        let key = before[at as int].0@;
        assert(forall|k: int| 0 <= k < at ==> after[k] == before[k]);
        assert(forall|k: int| at <= k < after.len() ==> after[k] == before[k + 1]);
        assert forall|i: int, j: int| 0 <= i < j < after.len() implies (#[trigger] after[i]).0@
            != (#[trigger] after[j]).0@ by {
            let x = if i < at {
                i
            } else {
                i + 1
            };
            let y = if j < at {
                j
            } else {
                j + 1
            };
            assert(after[i] == before[x] && after[j] == before[y]);
            assert(before[x].0@ != before[y].0@);
        }
        assert forall|k: int| 0 <= k < after.len() implies (#[trigger] after[k]).0@ != key by {
            if k < at {
                assert(before[k].0@ != before[at as int].0@);
            } else {
                assert(before[at as int].0@ != before[k + 1].0@);
            }
        }
        lemma_key_missing(after, 0, key);
        assert forall|other: Seq<char>| other != key implies #[trigger] value_of(after, other)
            == value_of(before, other) by {
            assert forall|i: int|
                0 <= i < before.len() && (#[trigger] before[i]).0@ == other implies exists|j: int|
                0 <= j < after.len() && (#[trigger] after[j]).0@ == other && after[j].1
                    == before[i].1 by {
                let j = if i < at {
                    i
                } else {
                    i - 1
                };
                assert(after[j].0@ == other);
            }
            assert forall|j: int|
                0 <= j < after.len() && (#[trigger] after[j]).0@ == other implies exists|i: int|
                0 <= i < before.len() && (#[trigger] before[i]).0@ == other by {
                let i = if j < at {
                    j
                } else {
                    j + 1
                };
                assert(before[i].0@ == other);
            }
            lemma_other_keys(before, after, other);
        }
    }
}

} // verus!
