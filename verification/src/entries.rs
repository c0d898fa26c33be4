//! String-keyed association lists and window search over byte strings.
//!
//! A list of `(key, value)` pairs stands wherever the mock needs a map keyed by
//! text: the first pair with a given key is the one the key maps to.

use vstd::prelude::*;

verus! {

/// Index of the first pair from `start` on whose key reads `key`, or the
/// length of `entries` when there is none.
pub open spec fn position_from<V>(entries: Seq<(String, V)>, key: Seq<char>, start: int) -> int
    decreases entries.len() - start,
{
    if start < 0 || start >= entries.len() {
        entries.len() as int
    } else if entries[start].0@ == key {
        start
    } else {
        position_from(entries, key, start + 1)
    }
}

/// Index of the first pair whose key reads `key`, or the length of `entries`.
pub open spec fn position<V>(entries: Seq<(String, V)>, key: Seq<char>) -> int {
    position_from(entries, key, 0)
}

/// Whether some pair carries `key`.
pub open spec fn has_key<V>(entries: Seq<(String, V)>, key: Seq<char>) -> bool {
    position(entries, key) < entries.len()
}

/// The value that `key` maps to: that of the first pair carrying it.
pub open spec fn value_of<V>(entries: Seq<(String, V)>, key: Seq<char>) -> Option<V> {
    if has_key(entries, key) {
        Some(entries[position(entries, key)].1)
    } else {
        None
    }
}

/// No two pairs share a key.
pub open spec fn distinct_keys<V>(entries: Seq<(String, V)>) -> bool {
    forall|i: int, j: int|
        0 <= i < j < entries.len() ==> (#[trigger] entries[i]).0@ != (#[trigger] entries[j]).0@
}

/// `position_from` lands on a pair with the key, past pairs without it.
pub proof fn lemma_position_from<V>(entries: Seq<(String, V)>, key: Seq<char>, start: int)
    requires
        0 <= start <= entries.len(),
    ensures
        start <= position_from(entries, key, start) <= entries.len(),
        position_from(entries, key, start) < entries.len() ==> entries[position_from(
            entries,
            key,
            start,
        )].0@ == key,
        forall|j: int|
            start <= j < position_from(entries, key, start) ==> (#[trigger] entries[j]).0@ != key,
    decreases entries.len() - start,
{
    if start < entries.len() && entries[start].0@ != key {
        lemma_position_from(entries, key, start + 1);
    }
}

/// A pair at `at` with the key, after pairs without it, is where the key is found.
pub proof fn lemma_position_is<V>(entries: Seq<(String, V)>, key: Seq<char>, at: int)
    requires
        0 <= at <= entries.len(),
        at < entries.len() ==> entries[at].0@ == key,
        forall|j: int| 0 <= j < at ==> (#[trigger] entries[j]).0@ != key,
    ensures
        position(entries, key) == at,
{
    lemma_position_skip(entries, key, 0, at);
}

proof fn lemma_position_skip<V>(entries: Seq<(String, V)>, key: Seq<char>, start: int, at: int)
    requires
        0 <= start <= at <= entries.len(),
        at < entries.len() ==> entries[at].0@ == key,
        forall|j: int| start <= j < at ==> (#[trigger] entries[j]).0@ != key,
    ensures
        position_from(entries, key, start) == at,
    decreases at - start,
{
    if start < at {
        lemma_position_skip(entries, key, start + 1, at);
    }
}

/// Looks `key` up: the value of the first pair that carries it.
pub fn lookup<'a, V>(entries: &'a Vec<(String, V)>, key: &String) -> (found: Option<&'a V>)
    ensures
        found == match value_of(entries@, key@) {
            Some(v) => Some(&v),
            None => None,
        },
{
    let mut i: usize = 0;
    while i < entries.len()
        invariant
            i <= entries.len(),
            forall|j: int| 0 <= j < i ==> (#[trigger] entries@[j]).0@ != key@,
        decreases entries.len() - i,
    {
        if entries[i].0 == *key {
            proof {
                lemma_position_is(entries@, key@, i as int);
            }
            return Some(&entries[i].1);
        }
        i += 1;
    }
    proof {
        lemma_position_is(entries@, key@, entries@.len() as int);
    }
    None
}

/// Maps `key` to `value`: the first pair carrying `key` gets the new value, and
/// where there is none the pair is appended. Keys that were distinct stay so.
pub fn upsert<V>(entries: &mut Vec<(String, V)>, key: String, value: V)
    ensures
        value_of(final(entries)@, key@) == Some(value),
        final(entries)@ == put(old(entries)@, key, value),
        forall|other: Seq<char>|
            other != key@ ==> value_of(final(entries)@, other) == value_of(old(entries)@, other),
        distinct_keys(old(entries)@) ==> distinct_keys(final(entries)@),
{
    let mut i: usize = 0;
    while i < entries.len()
        invariant
            i <= entries.len(),
            *entries == *old(entries),
            forall|j: int| 0 <= j < i ==> (#[trigger] entries@[j]).0@ != key@,
        ensures
            i < entries.len() ==> entries@[i as int].0@ == key@,
        decreases entries.len() - i,
    {
        if entries[i].0 == key {
            break ;
        }
        i += 1;
    }
    let ghost before = entries@;
    proof {
        lemma_position_is(before, key@, i as int);
    }
    if i < entries.len() {
        entries.set(i, (key, value));
    } else {
        entries.push((key, value));
    }
    proof {
        let after = entries@;
        lemma_position_is(after, key@, i as int);
        assert forall|other: Seq<char>| other != key@ implies value_of(after, other) == value_of(
            before,
            other,
        ) by {
            lemma_position_from(before, other, 0);
            let p = position(before, other);
            if p < before.len() {
                lemma_position_is(after, other, p);
            } else {
                lemma_position_is(after, other, after.len() as int);
            }
        }
    }
}

/// The list with `key` mapped to `value`: in the place of the first pair that
/// carries `key`, or behind the others where none does.
pub open spec fn put<V>(entries: Seq<(String, V)>, key: String, value: V) -> Seq<(String, V)> {
    if has_key(entries, key@) {
        entries.update(position(entries, key@), (key, value))
    } else {
        entries.push((key, value))
    }
}

/// The list that pairs make when they are put in one after the other: a later
/// pair takes the place of an earlier one with its key.
pub open spec fn collected<V>(pairs: Seq<(String, V)>) -> Seq<(String, V)>
    decreases pairs.len(),
{
    if pairs.len() == 0 {
        Seq::empty()
    } else {
        put(collected(pairs.drop_last()), pairs.last().0, pairs.last().1)
    }
}

/// Makes a list of pairs in which no key occurs twice: a later pair takes the
/// place of an earlier one with its key.
pub fn collect<V>(pairs: Vec<(String, V)>) -> (made: Vec<(String, V)>)
    ensures
        made@ == collected(pairs@),
        distinct_keys(made@),
{
    let ghost all = pairs@;
    let mut rest: Vec<(String, V)> = pairs;
    let mut made: Vec<(String, V)> = Vec::new();
    let ghost mut done: int = 0;
    while rest.len() > 0
        invariant
            0 <= done <= all.len(),
            rest@ == all.skip(done),
            made@ == collected(all.take(done)),
            distinct_keys(made@),
        decreases rest.len(),
    {
        let pair = rest.remove(0);
        proof {
            assert(pair == all[done]);
            assert(all.take(done + 1).drop_last() =~= all.take(done));
            assert(all.skip(done).remove(0) =~= all.skip(done + 1));
            done = done + 1;
        }
        upsert(&mut made, pair.0, pair.1);
    }
    proof {
        assert(all.take(done) =~= all);
    }
    made
}

/// Whether `needle` stands in `hay` at offset `at`.
pub open spec fn window_at(hay: Seq<u8>, needle: Seq<u8>, at: int) -> bool {
    0 <= at && at + needle.len() <= hay.len() && hay.subrange(at, at + needle.len()) == needle
}

/// Whether `needle` occurs in `hay` as a run of consecutive bytes. The empty
/// run occurs in every string.
pub open spec fn has_window(hay: Seq<u8>, needle: Seq<u8>) -> bool {
    exists|at: int| window_at(hay, needle, at)
}

/// Whether `needle` stands in `hay` at offset `at`.
pub fn matches_at(hay: &[u8], needle: &[u8], at: usize) -> (same: bool)
    requires
        at + needle.len() <= hay.len(),
    ensures
        same == window_at(hay@, needle@, at as int),
{
    let mut k: usize = 0;
    while k < needle.len()
        invariant
            k <= needle.len(),
            at + needle.len() <= hay.len(),
            forall|j: int| 0 <= j < k ==> hay@[at + j] == needle@[j],
        decreases needle.len() - k,
    {
        if hay[at + k] != needle[k] {
            proof {
                let run = hay@.subrange(at as int, at + needle@.len());
                assert(run[k as int] == hay@[at + k]);
            }
            return false;
        }
        k += 1;
    }
    proof {
        assert(hay@.subrange(at as int, at + needle@.len()) =~= needle@);
    }
    true
}

/// Whether `needle` occurs in `hay` as a run of consecutive bytes.
pub fn contains_window(hay: &[u8], needle: &[u8]) -> (found: bool)
    ensures
        found == has_window(hay@, needle@),
{
    if needle.len() > hay.len() {
        return false;
    }
    let last: usize = hay.len() - needle.len();
    let mut at: usize = 0;
    loop
        invariant
            last == hay.len() - needle.len(),
            at <= last,
            forall|j: int| 0 <= j < at ==> !window_at(hay@, needle@, j),
        decreases last - at,
    {
        if matches_at(hay, needle, at) {
            return true;
        }
        if at == last {
            return false;
        }
        at += 1;
    }
}

} // verus!
