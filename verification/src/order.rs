//! Ordering of names and the stable sort used for folder listings.
//!
//! Strings compare byte by byte in UTF-8, which orders them exactly as
//! comparing their characters by code point does; [`key_le`] states the
//! latter.

use vstd::prelude::*;

verus! {

/// `a` sorts before or equal to `b`: lexicographic order by code point.
pub open spec fn key_le(a: Seq<char>, b: Seq<char>) -> bool
    decreases a.len(),
{
    if a.len() == 0 {
        true
    } else if b.len() == 0 {
        false
    } else if a[0] != b[0] {
        (a[0] as u32) < (b[0] as u32)
    } else {
        key_le(a.skip(1), b.skip(1))
    }
}

/// Any two keys are comparable.
pub proof fn lemma_key_le_total(a: Seq<char>, b: Seq<char>)
    ensures
        key_le(a, b) || key_le(b, a),
    decreases a.len(),
{
    if a.len() > 0 && b.len() > 0 {
        if a[0] == b[0] {
            lemma_key_le_total(a.skip(1), b.skip(1));
        } else {
            vstd::utf8::char_u32_cast(a[0], a[0] as u32);
            vstd::utf8::char_u32_cast(b[0], b[0] as u32);
        }
    }
}

/// Keys that sort before each other are equal.
pub proof fn lemma_key_le_antisymmetric(a: Seq<char>, b: Seq<char>)
    requires
        key_le(a, b),
        key_le(b, a),
    ensures
        a == b,
    decreases a.len(),
{
    if a.len() > 0 && b.len() > 0 {
        if a[0] == b[0] {
            lemma_key_le_antisymmetric(a.skip(1), b.skip(1));
            assert(a =~= seq![a[0]] + a.skip(1));
            assert(b =~= seq![b[0]] + b.skip(1));
        } else {
        }
    } else {
        assert(a.len() == 0 && b.len() == 0);
        assert(a =~= b);
    }
}

/// The order is transitive.
pub proof fn lemma_key_le_transitive(a: Seq<char>, b: Seq<char>, c: Seq<char>)
    requires
        key_le(a, b),
        key_le(b, c),
    ensures
        key_le(a, c),
    decreases a.len(),
{
    if a.len() > 0 && b.len() > 0 && c.len() > 0 && a[0] == b[0] && b[0] == c[0] {
        lemma_key_le_transitive(a.skip(1), b.skip(1), c.skip(1));
    }
}

/// Every key sorts before or equal to itself.
pub proof fn lemma_key_le_reflexive(a: Seq<char>)
    ensures
        key_le(a, a),
{
    lemma_key_le_total(a, a);
}

/// Element `x` of `keys` comes before element `y` in the stable order:
/// its key is smaller, or the keys are equal and `x` came first.
pub open spec fn stable_before(keys: Seq<Seq<char>>, x: int, y: int) -> bool {
    !key_le(keys[y], keys[x]) || (keys[x] == keys[y] && x < y)
}

/// The stable order is strict: no index comes before itself, and of two
/// indices at most one comes before the other.
pub proof fn lemma_stable_before_strict(keys: Seq<Seq<char>>, x: int, y: int)
    ensures
        !stable_before(keys, x, x),
        !(stable_before(keys, x, y) && stable_before(keys, y, x)),
{
    lemma_key_le_reflexive(keys[x]);
    lemma_key_le_reflexive(keys[y]);
    lemma_key_le_total(keys[x], keys[y]);
}

/// `x` is one of the entries of `p`.
pub open spec fn occurs_in(p: Seq<int>, x: int) -> bool {
    exists|i: int| 0 <= i < p.len() && p[i] == x
}

/// `x` is one of the first `n` entries of `p`.
spec fn occurs_in_prefix(p: Seq<usize>, n: int, x: int) -> bool {
    exists|i: int| 0 <= i < n && p[i] == x
}

/// `perm` lists every index of `keys` once, in the stable sorted order.
pub open spec fn is_stable_order(keys: Seq<Seq<char>>, perm: Seq<int>) -> bool {
    &&& perm.len() == keys.len()
    &&& forall|i: int| 0 <= i < perm.len() ==> 0 <= #[trigger] perm[i] < keys.len()
    &&& forall|x: int| 0 <= x < keys.len() ==> #[trigger] occurs_in(perm, x)
    &&& forall|i: int, j: int|
        0 <= i < j < perm.len() ==> #[trigger] stable_before(keys, perm[i], perm[j])
}

/// Compares two keys.
pub fn key_le_exec(a: &Vec<char>, b: &Vec<char>) -> (r: bool)
    ensures
        r == key_le(a@, b@),
{
    let mut i: usize = 0;
    assert(a@.skip(0) =~= a@);
    assert(b@.skip(0) =~= b@);
    while i < a.len() && i < b.len() && a[i] == b[i]
        invariant
            i <= a.len(),
            i <= b.len(),
            key_le(a@, b@) == key_le(a@.skip(i as int), b@.skip(i as int)),
        decreases a.len() - i,
    {
        assert(a@.skip(i as int).skip(1) =~= a@.skip(i + 1));
        assert(b@.skip(i as int).skip(1) =~= b@.skip(i + 1));
        i = i + 1;
    }
    if i == a.len() {
        true
    } else if i == b.len() {
        false
    } else {
        let x = a[i] as u32;
        let y = b[i] as u32;
        proof {
            assert(a@.skip(i as int)[0] == a@[i as int]);
            assert(b@.skip(i as int)[0] == b@[i as int]);
        }
        x < y
    }
}

/// The indices of `keys` in stable sorted order: ordered by key, equal
/// keys in their original order.
pub fn stable_order(keys: &Vec<Vec<char>>) -> (perm: Vec<usize>)
    ensures
        is_stable_order(keys.deep_view(), perm@.map_values(|k: usize| k as int)),
{
    let ghost ks = keys.deep_view();
    assert forall|x: int| 0 <= x < keys.len() implies #[trigger] ks[x] == keys@[x]@ by {}
    let mut perm: Vec<usize> = Vec::new();
    let mut i: usize = 0;
    while i < keys.len()
        invariant
            ks == keys.deep_view(),
            ks.len() == keys.len(),
            forall|x: int| 0 <= x < keys.len() ==> #[trigger] ks[x] == keys@[x]@,
            i <= keys.len(),
            perm.len() == i,
            forall|a: int| 0 <= a < i ==> 0 <= #[trigger] perm@[a] < i,
            forall|x: int| 0 <= x < i ==> #[trigger] occurs_in_prefix(perm@, i as int, x),
            forall|a: int, b: int|
                0 <= a < b < i ==> #[trigger] stable_before(ks, perm@[a] as int, perm@[b] as int),
        decreases keys.len() - i,
    {
        let mut pos: usize = i;
        while pos > 0 && !key_le_exec(&keys[perm[pos - 1]], &keys[i])
            invariant
                ks == keys.deep_view(),
                ks.len() == keys.len(),
                forall|x: int| 0 <= x < keys.len() ==> #[trigger] ks[x] == keys@[x]@,
                i < keys.len(),
                perm.len() == i,
                pos <= i,
                forall|a: int| 0 <= a < i ==> 0 <= #[trigger] perm@[a] < i,
                forall|a: int| pos <= a < i ==> !key_le(ks[#[trigger] perm@[a] as int], ks[i as int]),
            decreases pos,
        {
            pos = pos - 1;
        }
        proof {
            assert forall|a: int| 0 <= a < pos implies #[trigger] stable_before(
                ks,
                perm@[a] as int,
                i as int,
            ) by {
                let last = perm@[pos - 1] as int;
                let pa = perm@[a] as int;
                assert(key_le(ks[last], ks[i as int]));
                if a < pos - 1 {
                    assert(stable_before(ks, pa, last));
                    lemma_key_le_total(ks[pa], ks[last]);
                    if !key_le(ks[pa], ks[last]) {
                        assert(false);
                    }
                    lemma_key_le_transitive(ks[pa], ks[last], ks[i as int]);
                }
                if key_le(ks[i as int], ks[pa]) {
                    lemma_key_le_antisymmetric(ks[i as int], ks[pa]);
                }
            }
        }
        let ghost old_perm = perm@;
        perm.insert(pos, i);
        proof {
            assert forall|a: int| 0 <= a < i + 1 implies 0 <= #[trigger] perm@[a] < i + 1 by {
                if a < pos {
                    assert(perm@[a] == old_perm[a]);
                } else if a > pos {
                    assert(perm@[a] == old_perm[a - 1]);
                }
            }
            assert forall|x: int| 0 <= x < i + 1 implies #[trigger] occurs_in_prefix(
                perm@,
                i + 1,
                x,
            ) by {
                if x == i {
                    assert(perm@[pos as int] == x);
                } else {
                    assert(occurs_in_prefix(old_perm, i as int, x));
                    let a0 = choose|a: int| 0 <= a < i && old_perm[a] == x;
                    if a0 < pos {
                        assert(perm@[a0] == x);
                    } else {
                        assert(perm@[a0 + 1] == x);
                    }
                }
            }
            assert forall|a: int, b: int| 0 <= a < b < i + 1 implies #[trigger] stable_before(
                ks,
                perm@[a] as int,
                perm@[b] as int,
            ) by {
                let oa = if a < pos {
                    a
                } else {
                    a - 1
                };
                let ob = if b < pos {
                    b
                } else {
                    b - 1
                };
                if a == pos {
                    assert(perm@[b] == old_perm[ob]);
                    lemma_key_le_total(ks[old_perm[ob] as int], ks[i as int]);
                } else if b == pos {
                    assert(perm@[a] == old_perm[oa]);
                } else {
                    assert(perm@[a] == old_perm[oa]);
                    assert(perm@[b] == old_perm[ob]);
                    assert(stable_before(ks, old_perm[oa] as int, old_perm[ob] as int));
                }
            }
        }
        i = i + 1;
    }
    proof {
        let p = perm@.map_values(|k: usize| k as int);
        assert forall|x: int| 0 <= x < keys.len() implies #[trigger] occurs_in(p, x) by {
            assert(occurs_in_prefix(perm@, i as int, x));
            let a0 = choose|a: int| 0 <= a < i && perm@[a] == x;
            assert(p[a0] == x);
        }
    }
    perm
}

} // verus!
