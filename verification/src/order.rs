//! The order of results by path. A path is keyed by its components, each
//! written as a kind byte followed by the component's bytes; keys compare
//! component by component, and components byte by byte, as paths do.
use vstd::prelude::*;
use crate::matcher::is_result_for;
use crate::types::MatchResult;

verus! {

/// `a` comes before `b` byte by byte, a proper prefix first.
pub open spec fn bytes_lt(a: Seq<u8>, b: Seq<u8>) -> bool
    decreases a.len(),
{
    if a.len() == 0 {
        b.len() > 0
    } else if b.len() == 0 {
        false
    } else if a[0] != b[0] {
        a[0] < b[0]
    } else {
        bytes_lt(a.drop_first(), b.drop_first())
    }
}

/// Path key `a` comes before `b`: component by component, a proper
/// prefix first.
pub open spec fn key_lt(a: Seq<Seq<u8>>, b: Seq<Seq<u8>>) -> bool
    decreases a.len(),
{
    if a.len() == 0 {
        b.len() > 0
    } else if b.len() == 0 {
        false
    } else if a[0] != b[0] {
        bytes_lt(a[0], b[0])
    } else {
        key_lt(a.drop_first(), b.drop_first())
    }
}

/// The components of a path key.
pub open spec fn key_view(k: Seq<Vec<u8>>) -> Seq<Seq<u8>> {
    k.map_values(|c: Vec<u8>| c@)
}

/// The keys of a list of paths.
pub open spec fn key_views(keys: Seq<Vec<Vec<u8>>>) -> Seq<Seq<Seq<u8>>> {
    keys.map_values(|k: Vec<Vec<u8>>| key_view(k@))
}

/// `order` lists each of the indices `0..n` once, by nondecreasing key,
/// and indices of equal keys in increasing order.
pub open spec fn stable_order(order: Seq<usize>, keys: Seq<Seq<Seq<u8>>>, n: int) -> bool {
    &&& order.len() == n
    &&& forall|p: int| 0 <= p < n ==> #[trigger] order[p] < n
    &&& forall|p: int, q: int| 0 <= p < q < n ==> order[p] != order[q]
    &&& forall|p: int, q: int|
        0 <= p < q < n ==> !key_lt(#[trigger] keys[order[q] as int], #[trigger] keys[order[p] as int])
    &&& forall|p: int, q: int|
        0 <= p < q < n && keys[order[p] as int] == keys[order[q] as int] ==> order[p] < order[q]
}

proof fn lemma_bytes_order(a: Seq<u8>, b: Seq<u8>, c: Seq<u8>)
    ensures
        !bytes_lt(a, a),
        bytes_lt(a, b) ==> !bytes_lt(b, a),
        a != b ==> bytes_lt(a, b) || bytes_lt(b, a),
        bytes_lt(a, b) && bytes_lt(b, c) ==> bytes_lt(a, c),
    decreases a.len(),
{
    if a.len() > 0 && b.len() > 0 && c.len() > 0 {
        lemma_bytes_order(a.drop_first(), b.drop_first(), c.drop_first());
    }
    if a.len() > 0 {
        lemma_bytes_order(a.drop_first(), a.drop_first(), a.drop_first());
    }
    if a.len() > 0 && b.len() > 0 {
        lemma_bytes_order(a.drop_first(), b.drop_first(), b.drop_first());
        if a[0] == b[0] && a.drop_first() == b.drop_first() {
            assert(a =~= b) by {
                assert forall|i: int| 0 <= i < a.len() implies a[i] == b[i] by {
                    if i > 0 {
                        assert(a[i] == a.drop_first()[i - 1]);
                        assert(b[i] == b.drop_first()[i - 1]);
                    }
                }
            }
        }
    }
    if a.len() == 0 && b.len() == 0 {
        assert(a =~= b);
    }
}

proof fn lemma_key_order(a: Seq<Seq<u8>>, b: Seq<Seq<u8>>, c: Seq<Seq<u8>>)
    ensures
        !key_lt(a, a),
        key_lt(a, b) ==> !key_lt(b, a),
        a != b ==> key_lt(a, b) || key_lt(b, a),
        key_lt(a, b) && key_lt(b, c) ==> key_lt(a, c),
    decreases a.len(),
{
    if a.len() > 0 && b.len() > 0 && c.len() > 0 {
        lemma_bytes_order(a[0], b[0], c[0]);
        lemma_bytes_order(b[0], a[0], c[0]);
        lemma_key_order(a.drop_first(), b.drop_first(), c.drop_first());
    }
    if a.len() > 0 {
        lemma_bytes_order(a[0], a[0], a[0]);
        lemma_key_order(a.drop_first(), a.drop_first(), a.drop_first());
    }
    if a.len() > 0 && b.len() > 0 {
        lemma_bytes_order(a[0], b[0], b[0]);
        lemma_key_order(a.drop_first(), b.drop_first(), b.drop_first());
        if a[0] == b[0] && a.drop_first() == b.drop_first() {
            assert(a =~= b) by {
                assert forall|i: int| 0 <= i < a.len() implies a[i] == b[i] by {
                    if i > 0 {
                        assert(a[i] == a.drop_first()[i - 1]);
                        assert(b[i] == b.drop_first()[i - 1]);
                    }
                }
            }
        }
    }
    if a.len() == 0 && b.len() == 0 {
        assert(a =~= b);
    }
}

/// Not-after is transitive.
proof fn lemma_key_le_trans(x: Seq<Seq<u8>>, y: Seq<Seq<u8>>, z: Seq<Seq<u8>>)
    requires
        !key_lt(y, x),
        !key_lt(z, y),
    ensures
        !key_lt(z, x),
{
    lemma_key_order(z, x, y);
    lemma_key_order(x, y, z);
    lemma_key_order(y, z, x);
}

/// The order of two byte strings: negative where `a` comes first, zero
/// where they are equal, positive where `b` comes first.
fn bytes_order(a: &Vec<u8>, b: &Vec<u8>) -> (r: i8)
    ensures
        r == 0 <==> a@ == b@,
        r < 0 <==> bytes_lt(a@, b@),
        r > 0 <==> bytes_lt(b@, a@),
{
    proof {
        lemma_bytes_order(a@, b@, a@);
    }
    let mut i: usize = 0;
    assert(a@.skip(0) == a@ && b@.skip(0) == b@);
    assert(a@.take(0) == b@.take(0));
    while i < a.len() && i < b.len()
        invariant
            i <= a@.len(),
            i <= b@.len(),
            a@.take(i as int) == b@.take(i as int),
            bytes_lt(a@, b@) == bytes_lt(a@.skip(i as int), b@.skip(i as int)),
            bytes_lt(b@, a@) == bytes_lt(b@.skip(i as int), a@.skip(i as int)),
        decreases a@.len() - i,
    {
        assert(a@.skip(i as int)[0] == a@[i as int]);
        assert(b@.skip(i as int)[0] == b@[i as int]);
        if a[i] != b[i] {
            assert(a@ != b@);
            return if a[i] < b[i] {
                -1
            } else {
                1
            };
        }
        assert(a@.skip(i as int).drop_first() == a@.skip(i + 1));
        assert(b@.skip(i as int).drop_first() == b@.skip(i + 1));
        assert(a@.take(i + 1) == a@.take(i as int).push(a@[i as int]));
        assert(b@.take(i + 1) == b@.take(i as int).push(b@[i as int]));
        i = i + 1;
    }
    if a.len() == b.len() {
        assert(a@ == a@.take(i as int));
        assert(b@ == b@.take(i as int));
        0
    } else if a.len() < b.len() {
        assert(a@.skip(i as int).len() == 0);
        -1
    } else {
        assert(b@.skip(i as int).len() == 0);
        1
    }
}

/// Whether path key `a` comes before `b`.
fn key_less(a: &Vec<Vec<u8>>, b: &Vec<Vec<u8>>) -> (r: bool)
    ensures
        r == key_lt(key_view(a@), key_view(b@)),
{
    let ghost ka = key_view(a@);
    let ghost kb = key_view(b@);
    let mut i: usize = 0;
    assert(ka.skip(0) == ka && kb.skip(0) == kb);
    while i < a.len() && i < b.len()
        invariant
            i <= a@.len(),
            i <= b@.len(),
            ka == key_view(a@),
            kb == key_view(b@),
            key_lt(ka, kb) == key_lt(ka.skip(i as int), kb.skip(i as int)),
        decreases a@.len() - i,
    {
        let o = bytes_order(&a[i], &b[i]);
        assert(ka.skip(i as int)[0] == a@[i as int]@);
        assert(kb.skip(i as int)[0] == b@[i as int]@);
        if o != 0 {
            return o < 0;
        }
        assert(ka.skip(i as int).drop_first() == ka.skip(i + 1));
        assert(kb.skip(i as int).drop_first() == kb.skip(i + 1));
        i = i + 1;
    }
    assert(ka.skip(i as int).len() == 0 || kb.skip(i as int).len() == 0);
    a.len() < b.len()
}

/// The indices of `keys` in stable sorted order: by nondecreasing key,
/// indices of equal keys in their original order.
pub fn sort_order(keys: &Vec<Vec<Vec<u8>>>) -> (order: Vec<usize>)
    ensures
        stable_order(order@, key_views(keys@), keys@.len() as int),
{
    let ghost kv = key_views(keys@);
    let mut order: Vec<usize> = Vec::new();
    let mut i: usize = 0;
    while i < keys.len()
        invariant
            i <= keys@.len(),
            kv == key_views(keys@),
            stable_order(order@, kv, i as int),
        decreases keys@.len() - i,
    {
        let mut j: usize = i;
        while j > 0 && key_less(&keys[i], &keys[order[j - 1]])
            invariant
                j <= i < keys@.len(),
                kv == key_views(keys@),
                stable_order(order@, kv, i as int),
                forall|m: int| j <= m < i ==> key_lt(kv[i as int], #[trigger] kv[order@[m] as int]),
            decreases j,
        {
            assert(kv[i as int] == key_view(keys@[i as int]@));
            assert(kv[order@[j - 1] as int] == key_view(keys@[order@[j - 1] as int]@));
            j = j - 1;
        }
        proof {
            if j > 0 {
                assert(kv[i as int] == key_view(keys@[i as int]@));
                assert(kv[order@[j - 1] as int] == key_view(keys@[order@[j - 1] as int]@));
            }
        }
        let ghost o = order@;
        order.insert(j, i);
        let ghost o2 = order@;
        assert(o2 == o.insert(j as int, i));
        assert forall|p: int| 0 <= p < i + 1 implies #[trigger] o2[p] < i + 1 by {
            if p < j {
                assert(o2[p] == o[p]);
            } else if p > j {
                assert(o2[p] == o[p - 1]);
            }
        }
        assert forall|p: int, q: int| 0 <= p < q < i + 1 implies o2[p] != o2[q] by {
            if q < j {
                assert(o2[p] == o[p] && o2[q] == o[q]);
            } else if q == j {
                assert(o2[p] == o[p]);
            } else if p < j {
                assert(o2[p] == o[p] && o2[q] == o[q - 1]);
            } else if p == j {
                assert(o2[q] == o[q - 1]);
            } else {
                assert(o2[p] == o[p - 1] && o2[q] == o[q - 1]);
            }
        }
        assert forall|p: int, q: int|
            0 <= p < q < i + 1 implies !key_lt(#[trigger] kv[o2[q] as int], #[trigger] kv[o2[p] as int])
            && (kv[o2[p] as int] == kv[o2[q] as int] ==> o2[p] < o2[q]) by {
            if q < j {
                assert(o2[p] == o[p] && o2[q] == o[q]);
            } else if q == j {
                assert(o2[p] == o[p]);
                if p < j - 1 {
                    lemma_key_le_trans(kv[o[p] as int], kv[o[j - 1] as int], kv[i as int]);
                }
            } else if p < j {
                assert(o2[p] == o[p] && o2[q] == o[q - 1]);
            } else if p == j {
                assert(o2[q] == o[q - 1]);
                lemma_key_order(kv[i as int], kv[o[q - 1] as int], kv[i as int]);
            } else {
                assert(o2[p] == o[p - 1] && o2[q] == o[q - 1]);
            }
        }
        i = i + 1;
    }
    order
}

/// The results in stable order of their path keys (`keys[i]` the key of
/// `results[i]`): each result copied once, by nondecreasing key, results
/// with equal keys in their original order.
pub fn sort_by_path_key(results: &Vec<MatchResult>, keys: &Vec<Vec<Vec<u8>>>) -> (r: Vec<
    MatchResult,
>)
    requires
        keys@.len() == results@.len(),
    ensures
        r@.len() == results@.len(),
        exists|order: Seq<usize>|
            stable_order(order, key_views(keys@), results@.len() as int) && forall|k: int|
                0 <= k < r@.len() ==> is_result_for(
                    #[trigger] r@[k],
                    results@[order[k] as int].record,
                    results@[order[k] as int].score,
                ),
{
    let order = sort_order(keys);
    let mut r: Vec<MatchResult> = Vec::new();
    let mut k: usize = 0;
    while k < order.len()
        invariant
            k <= order@.len(),
            order@.len() == results@.len(),
            stable_order(order@, key_views(keys@), results@.len() as int),
            r@.len() == k,
            forall|m: int|
                0 <= m < k ==> is_result_for(
                    #[trigger] r@[m],
                    results@[order@[m] as int].record,
                    results@[order@[m] as int].score,
                ),
        decreases order@.len() - k,
    {
        let src = &results[order[k]];
        r.push(MatchResult { record: src.record.duplicate(), score: src.score });
        k = k + 1;
    }
    r
}

} // verus!
