//! The mathematics of a key/value store: the contents as a map, writes as
//! a sequence of pairs, and what writing them one after the other gives.

use vstd::prelude::*;

verus! {

/// The contents of `m` after the writes `w`, applied front to back: a later
/// write to a key replaces an earlier one.
pub open spec fn apply_writes(m: Map<Seq<u8>, Seq<u8>>, w: Seq<(Seq<u8>, Seq<u8>)>) -> Map<
    Seq<u8>,
    Seq<u8>,
>
    decreases w.len(),
{
    if w.len() == 0 {
        m
    } else {
        apply_writes(m, w.drop_last()).insert(w.last().0, w.last().1)
    }
}

/// Some write of `w` is to the key `k`.
pub open spec fn has_key(w: Seq<(Seq<u8>, Seq<u8>)>, k: Seq<u8>) -> bool {
    exists|i: int| 0 <= i < w.len() && (#[trigger] w[i]).0 == k
}

/// The write at `i` is the last one of `w` to the key `k`.
pub open spec fn last_write(w: Seq<(Seq<u8>, Seq<u8>)>, k: Seq<u8>, i: int) -> bool {
    &&& 0 <= i < w.len()
    &&& w[i].0 == k
    &&& forall|j: int| i < j < w.len() ==> (#[trigger] w[j]).0 != k
}

/// No two writes of `w` are to the same key.
pub open spec fn distinct_keys(w: Seq<(Seq<u8>, Seq<u8>)>) -> bool {
    forall|i: int, j: int| 0 <= i < j < w.len() ==> (#[trigger] w[i]).0 != (#[trigger] w[j]).0
}

/// After the writes, a key is present if it was before or was written.
pub proof fn lemma_apply_writes_dom(m: Map<Seq<u8>, Seq<u8>>, w: Seq<(Seq<u8>, Seq<u8>)>, k: Seq<u8>)
    ensures
        apply_writes(m, w).contains_key(k) <==> (m.contains_key(k) || has_key(w, k)),
    decreases w.len(),
{
    if w.len() > 0 {
        let front = w.drop_last();
        lemma_apply_writes_dom(m, front, k);
        if has_key(front, k) {
            let i = choose|i: int| 0 <= i < front.len() && (#[trigger] front[i]).0 == k;
            assert(w[i].0 == k);
        }
        if has_key(w, k) && w.last().0 != k {
            let i = choose|i: int| 0 <= i < w.len() && (#[trigger] w[i]).0 == k;
            assert(front[i].0 == k);
        }
        if w.last().0 == k {
            assert(w[w.len() - 1].0 == k);
        }
    }
}

/// After the writes, a written key holds the value of the last write to it.
pub proof fn lemma_apply_writes_last(
    m: Map<Seq<u8>, Seq<u8>>,
    w: Seq<(Seq<u8>, Seq<u8>)>,
    k: Seq<u8>,
    i: int,
)
    requires
        last_write(w, k, i),
    ensures
        apply_writes(m, w).contains_key(k),
        apply_writes(m, w)[k] == w[i].1,
    decreases w.len(),
{
    if i < w.len() - 1 {
        let front = w.drop_last();
        assert(w[w.len() - 1].0 != k);
        assert forall|j: int| i < j < front.len() implies (#[trigger] front[j]).0 != k by {
            assert(w[j].0 != k);
        }
        lemma_apply_writes_last(m, front, k, i);
    }
}

/// The writes leave a key that none of them names as it was.
pub proof fn lemma_apply_writes_other(
    m: Map<Seq<u8>, Seq<u8>>,
    w: Seq<(Seq<u8>, Seq<u8>)>,
    k: Seq<u8>,
)
    requires
        !has_key(w, k),
    ensures
        apply_writes(m, w).contains_key(k) == m.contains_key(k),
        apply_writes(m, w)[k] == m[k],
    decreases w.len(),
{
    if w.len() > 0 {
        let front = w.drop_last();
        assert(w[w.len() - 1].0 != k);
        assert(!has_key(front, k)) by {
            if has_key(front, k) {
                let i = choose|i: int| 0 <= i < front.len() && (#[trigger] front[i]).0 == k;
                assert(w[i].0 == k);
            }
        }
        lemma_apply_writes_other(m, front, k);
    }
}

/// All or nothing, the "all" half: after the writes every written key is
/// present; where no two writes share a key, each holds the value written.
pub proof fn lemma_apply_writes_all(m: Map<Seq<u8>, Seq<u8>>, w: Seq<(Seq<u8>, Seq<u8>)>)
    ensures
        forall|i: int| 0 <= i < w.len() ==> apply_writes(m, w).contains_key((#[trigger] w[i]).0),
        distinct_keys(w) ==> forall|i: int|
            0 <= i < w.len() ==> apply_writes(m, w)[(#[trigger] w[i]).0] == w[i].1,
{
    assert forall|i: int| 0 <= i < w.len() implies apply_writes(m, w).contains_key(
        (#[trigger] w[i]).0,
    ) by {
        lemma_apply_writes_dom(m, w, w[i].0);
    }
    if distinct_keys(w) {
        assert forall|i: int| 0 <= i < w.len() implies apply_writes(m, w)[(#[trigger] w[i]).0]
            == w[i].1 by {
            lemma_apply_writes_last(m, w, w[i].0, i);
        }
    }
}

/// Writing one more pair is an insert into what the writes before it gave.
pub proof fn lemma_apply_writes_push(
    m: Map<Seq<u8>, Seq<u8>>,
    w: Seq<(Seq<u8>, Seq<u8>)>,
    k: Seq<u8>,
    v: Seq<u8>,
)
    ensures
        apply_writes(m, w.push((k, v))) == apply_writes(m, w).insert(k, v),
{
    assert(w.push((k, v)).drop_last() =~= w);
}

/// Replacing the value of the last write to a key is an insert at that key.
pub proof fn lemma_replace_write(
    m: Map<Seq<u8>, Seq<u8>>,
    w: Seq<(Seq<u8>, Seq<u8>)>,
    i: int,
    v: Seq<u8>,
)
    requires
        0 <= i < w.len(),
        last_write(w, w[i].0, i),
    ensures
        apply_writes(m, w.update(i, (w[i].0, v))) == apply_writes(m, w).insert(w[i].0, v),
    decreases w.len(),
{
    let k = w[i].0;
    let u = w.update(i, (k, v));
    let front = w.drop_last();
    if i == w.len() - 1 {
        assert(u.drop_last() =~= front);
        assert(apply_writes(m, u) =~= apply_writes(m, w).insert(k, v));
    } else {
        assert(w[w.len() - 1].0 != k);
        assert(u.drop_last() =~= front.update(i, (k, v)));
        assert forall|j: int| i < j < front.len() implies (#[trigger] front[j]).0 != k by {
            assert(w[j].0 != k);
        }
        lemma_replace_write(m, front, i, v);
        assert(apply_writes(m, u) =~= apply_writes(m, w).insert(k, v));
    }
}

/// Taking one write out changes nothing for the keys that it did not name.
pub proof fn lemma_remove_write(m: Map<Seq<u8>, Seq<u8>>, w: Seq<(Seq<u8>, Seq<u8>)>, i: int)
    requires
        0 <= i < w.len(),
    ensures
        forall|x: Seq<u8>|
            x != w[i].0 ==> apply_writes(m, w.remove(i)).get(x) == apply_writes(m, w).get(x),
    decreases w.len(),
{
    let front = w.drop_last();
    if i == w.len() - 1 {
        assert(w.remove(i) =~= front);
    } else {
        assert(w.remove(i).drop_last() =~= front.remove(i));
        assert(w.remove(i).last() == w.last());
        lemma_remove_write(m, front, i);
        assert forall|x: Seq<u8>| x != w[i].0 implies apply_writes(m, w.remove(i)).get(x)
            == apply_writes(m, w).get(x) by {
            assert(apply_writes(m, front.remove(i)).get(x) == apply_writes(m, front).get(x));
        }
    }
}

} // verus!
