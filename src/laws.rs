use vstd::prelude::*;

use crate::encoding::{hash_of, lemma_pushed_all_back, popped_back, popped_front, pushed_all_back};
use crate::RollingHash;

verus! {

/// Two well-formed windows holding the same bytes hold the same hash, however
/// each was built.
pub proof fn lemma_hash_deterministic(a: RollingHash, b: RollingHash)
    requires
        a.wf(),
        b.wf(),
        a@ == b@,
    ensures
        a.hash() == b.hash(),
{
    a.lemma_hash_of_window();
    b.lemma_hash_of_window();
}

/// Appending one element to an empty window and removing it from the front
/// leaves an empty window with hash zero: `pushed` is the empty `h` after
/// `push_back(x)`, `popped` is `pushed` after `pop_front()`.
pub proof fn lemma_push_back_then_pop_front_on_empty(h: RollingHash, pushed: RollingHash, popped: RollingHash, x: u8)
    requires
        h.wf(),
        h@.len() == 0,
        pushed.wf(),
        pushed@ == h@.push(x),
        popped.wf(),
        popped@ == popped_front(pushed@),
    ensures
        popped@ == Seq::<u8>::empty(),
        popped.hash() == 0,
{
    assert(popped_front(h@.push(x)) =~= Seq::<u8>::empty());
    popped.lemma_hash_of_window();
}

/// Appending `s[..k]` and then `s[k..]` at the back of an empty window gives
/// the same window, and the same hash, as appending all of `s`.
pub proof fn lemma_incremental_equals_batch(s: Seq<u8>, k: int)
    requires
        0 <= k <= s.len(),
    ensures
        pushed_all_back(pushed_all_back(Seq::<u8>::empty(), s.subrange(0, k)), s.subrange(k, s.len() as int))
            == pushed_all_back(Seq::<u8>::empty(), s),
        hash_of(
            pushed_all_back(pushed_all_back(Seq::<u8>::empty(), s.subrange(0, k)), s.subrange(k, s.len() as int)),
        ) == hash_of(pushed_all_back(Seq::<u8>::empty(), s)),
{
    let e = Seq::<u8>::empty();
    lemma_pushed_all_back(e, s.subrange(0, k));
    lemma_pushed_all_back(e + s.subrange(0, k), s.subrange(k, s.len() as int));
    lemma_pushed_all_back(e, s);
    assert(e + s.subrange(0, k) + s.subrange(k, s.len() as int) =~= e + s);
}

/// Removing from the back what was just appended at the back restores the
/// window and its hash: `pushed` is `h` after `push_back(x)`, `popped` is
/// `pushed` after `pop_back()`.
pub proof fn lemma_push_back_then_pop_back(h: RollingHash, pushed: RollingHash, popped: RollingHash, x: u8)
    requires
        h.wf(),
        pushed.wf(),
        pushed@ == h@.push(x),
        popped.wf(),
        popped@ == popped_back(pushed@),
    ensures
        popped@ == h@,
        popped.hash() == h.hash(),
{
    assert(popped_back(h@.push(x)) =~= h@);
    h.lemma_hash_of_window();
    popped.lemma_hash_of_window();
}

/// Removing from the front what was just prepended at the front restores the
/// window and its hash: `pushed` is `h` after `push_front(x)`, `popped` is
/// `pushed` after `pop_front()`.
pub proof fn lemma_push_front_then_pop_front(h: RollingHash, pushed: RollingHash, popped: RollingHash, x: u8)
    requires
        h.wf(),
        pushed.wf(),
        pushed@ == seq![x] + h@,
        popped.wf(),
        popped@ == popped_front(pushed@),
    ensures
        popped@ == h@,
        popped.hash() == h.hash(),
{
    assert(popped_front(seq![x] + h@) =~= h@);
    h.lemma_hash_of_window();
    popped.lemma_hash_of_window();
}

/// A window built by appending `s[..k]` and then `s[k..]` at the back holds
/// the same bytes and hash as one built from all of `s` at once.
pub proof fn lemma_incremental_window_equals_batch(s: Seq<u8>, k: int, parts: RollingHash, whole: RollingHash)
    requires
        0 <= k <= s.len(),
        parts.wf(),
        parts@ == pushed_all_back(
            pushed_all_back(Seq::<u8>::empty(), s.subrange(0, k)),
            s.subrange(k, s.len() as int),
        ),
        whole.wf(),
        whole@ == pushed_all_back(Seq::<u8>::empty(), s),
    ensures
        parts@ == whole@,
        parts.hash() == whole.hash(),
{
    lemma_incremental_equals_batch(s, k);
    parts.lemma_hash_of_window();
    whole.lemma_hash_of_window();
}

/// Sliding a non-empty window `s[i..j]` one step, by `pop_front()` and then
/// `push_back(s[j])`, gives the bytes and hash of a window built fresh from
/// `s[i+1..j+1]`: `mid` is `w` after the removal, `slid` is `mid` after the
/// append.
pub proof fn lemma_slide_window(
    s: Seq<u8>,
    i: int,
    j: int,
    w: RollingHash,
    mid: RollingHash,
    slid: RollingHash,
    fresh: RollingHash,
)
    requires
        0 <= i < j < s.len(),
        w.wf(),
        w@ == s.subrange(i, j),
        mid.wf(),
        mid@ == popped_front(w@),
        slid.wf(),
        slid@ == mid@.push(s[j]),
        fresh.wf(),
        fresh@ == s.subrange(i + 1, j + 1),
    ensures
        slid@ == fresh@,
        slid.hash() == fresh.hash(),
{
    assert(popped_front(s.subrange(i, j)).push(s[j]) =~= s.subrange(i + 1, j + 1));
    slid.lemma_hash_of_window();
    fresh.lemma_hash_of_window();
}

/// Removing from either end of an empty window keeps it empty with hash zero.
pub proof fn lemma_pop_on_empty()
    ensures
        popped_front(Seq::<u8>::empty()) == Seq::<u8>::empty(),
        popped_back(Seq::<u8>::empty()) == Seq::<u8>::empty(),
        hash_of(Seq::<u8>::empty()) == 0,
{
}

} // verus!
