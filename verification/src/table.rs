//! Deterministically ordered tables.
//!
//! The compiler keys several results by names or ids.  Iteration order must
//! be deterministic — diagnostics and serialized caches are compared byte for
//! byte — so tables are plain vectors of pairs: either in insertion order
//! (association lists) or strictly sorted by key (name maps).

use vstd::prelude::*;

verus! {

// ---------------------------------------------------------------------------
// Association lists: first match wins; insert replaces in place or appends.
// ---------------------------------------------------------------------------
/// The value at the first occurrence of key `k`.
pub open spec fn assoc_lookup<K, V>(s: Seq<(K, V)>, k: K) -> Option<V>
    decreases s.len(),
{
    if s.len() == 0 {
        None
    } else if s[0].0 == k {
        Some(s[0].1)
    } else {
        assoc_lookup(s.drop_first(), k)
    }
}

/// Whether key `k` occurs.
pub open spec fn assoc_has_key<K, V>(s: Seq<(K, V)>, k: K) -> bool {
    assoc_lookup(s, k) is Some
}

/// Map semantics of insertion: replace the first occurrence in place, or
/// append when the key is absent.
pub open spec fn assoc_insert<K, V>(s: Seq<(K, V)>, k: K, v: V) -> Seq<(K, V)>
    decreases s.len(),
{
    if s.len() == 0 {
        seq![(k, v)]
    } else if s[0].0 == k {
        seq![(k, v)] + s.drop_first()
    } else {
        seq![s[0]] + assoc_insert(s.drop_first(), k, v)
    }
}

/// When `k` is absent from the first `j` entries and present at `j`,
/// insertion updates index `j`.
pub proof fn lemma_assoc_insert_at<K, V>(s: Seq<(K, V)>, k: K, v: V, j: int)
    requires
        0 <= j < s.len(),
        s[j].0 == k,
        forall|m: int| 0 <= m < j ==> (#[trigger] s[m]).0 != k,
    ensures
        assoc_insert(s, k, v) =~= s.update(j, (k, v)),
    decreases s.len(),
{
    if j == 0 {
        assert(assoc_insert(s, k, v) =~= s.update(0, (k, v)));
    } else {
        assert(s[0].0 != k);
        lemma_assoc_insert_at(s.drop_first(), k, v, j - 1);
        assert(assoc_insert(s, k, v) =~= seq![s[0]] + s.drop_first().update(j - 1, (k, v)));
        assert(seq![s[0]] + s.drop_first().update(j - 1, (k, v)) =~= s.update(j, (k, v)));
    }
}

/// When `k` is absent, insertion appends.
pub proof fn lemma_assoc_insert_absent<K, V>(s: Seq<(K, V)>, k: K, v: V)
    requires
        forall|m: int| 0 <= m < s.len() ==> (#[trigger] s[m]).0 != k,
    ensures
        assoc_insert(s, k, v) =~= s + seq![(k, v)],
    decreases s.len(),
{
    if s.len() == 0 {
        assert(assoc_insert(s, k, v) =~= s + seq![(k, v)]);
    } else {
        assert(s[0].0 != k);
        lemma_assoc_insert_absent(s.drop_first(), k, v);
        assert(assoc_insert(s, k, v) =~= seq![s[0]] + (s.drop_first() + seq![(k, v)]));
        assert(seq![s[0]] + (s.drop_first() + seq![(k, v)]) =~= s + seq![(k, v)]);
    }
}

/// Lookup finds the first occurrence.
pub proof fn lemma_assoc_lookup_at<K, V>(s: Seq<(K, V)>, k: K, j: int)
    requires
        0 <= j < s.len(),
        s[j].0 == k,
        forall|m: int| 0 <= m < j ==> (#[trigger] s[m]).0 != k,
    ensures
        assoc_lookup(s, k) == Some(s[j].1),
    decreases s.len(),
{
    if j > 0 {
        lemma_assoc_lookup_at(s.drop_first(), k, j - 1);
    }
}

/// Lookup misses when the key is absent.
pub proof fn lemma_assoc_lookup_absent<K, V>(s: Seq<(K, V)>, k: K)
    requires
        forall|m: int| 0 <= m < s.len() ==> (#[trigger] s[m]).0 != k,
    ensures
        assoc_lookup(s, k) is None,
    decreases s.len(),
{
    if s.len() > 0 {
        lemma_assoc_lookup_absent(s.drop_first(), k);
    }
}


/// A present key is witnessed by an index.
pub proof fn lemma_has_key_iff<K, V>(s: Seq<(K, V)>, k: K)
    ensures
        assoc_has_key(s, k) <==> exists|i: int| 0 <= i < s.len() && (#[trigger] s[i]).0 == k,
    decreases s.len(),
{
    if s.len() > 0 {
        lemma_has_key_iff(s.drop_first(), k);
        if s[0].0 == k {
            assert(s[0].0 == k);
        } else {
            if assoc_has_key(s, k) {
                let i = choose|i: int|
                    0 <= i < s.drop_first().len() && (#[trigger] s.drop_first()[i]).0 == k;
                assert(s[i + 1].0 == k);
            }
            if exists|i: int| 0 <= i < s.len() && (#[trigger] s[i]).0 == k {
                let i = choose|i: int| 0 <= i < s.len() && (#[trigger] s[i]).0 == k;
                assert(s.drop_first()[i - 1].0 == k);
            }
        }
    }
}

/// A successful lookup returns some entry's value.
pub proof fn lemma_lookup_some_index<K, V>(s: Seq<(K, V)>, k: K)
    requires
        assoc_lookup(s, k) is Some,
    ensures
        exists|i: int|
            0 <= i < s.len() && (#[trigger] s[i]).0 == k && s[i].1 == assoc_lookup(s, k)->Some_0,
    decreases s.len(),
{
    if s.len() > 0 {
        if s[0].0 == k {
            assert(s[0].0 == k && s[0].1 == assoc_lookup(s, k)->Some_0);
        } else {
            lemma_lookup_some_index(s.drop_first(), k);
            let i = choose|i: int|
                0 <= i < s.drop_first().len() && (#[trigger] s.drop_first()[i]).0 == k
                    && s.drop_first()[i].1 == assoc_lookup(s.drop_first(), k)->Some_0;
            assert(s[i + 1].0 == k && s[i + 1].1 == assoc_lookup(s, k)->Some_0);
        }
    }
}

/// Inserting one key leaves every other key's lookup alone.
pub proof fn lemma_insert_other<K, V>(s: Seq<(K, V)>, k: K, v: V, k2: K)
    requires
        k2 != k,
    ensures
        assoc_lookup(assoc_insert(s, k, v), k2) == assoc_lookup(s, k2),
    decreases s.len(),
{
    let ins = assoc_insert(s, k, v);
    if s.len() == 0 {
        assert(ins == seq![(k, v)]);
        assert(ins[0].0 == k);
        assert(ins.drop_first() =~= Seq::<(K, V)>::empty());
        assert(assoc_lookup(Seq::<(K, V)>::empty(), k2) is None);
        assert(assoc_lookup(ins, k2) is None);
    } else if s[0].0 == k {
        assert(ins == seq![(k, v)] + s.drop_first());
        assert(ins[0] == (k, v));
        assert(ins.drop_first() =~= s.drop_first());
        assert(assoc_lookup(ins, k2) == assoc_lookup(s.drop_first(), k2));
        assert(assoc_lookup(s, k2) == assoc_lookup(s.drop_first(), k2));
    } else {
        lemma_insert_other(s.drop_first(), k, v, k2);
        assert(ins == seq![s[0]] + assoc_insert(s.drop_first(), k, v));
        assert(ins[0] == s[0]);
        assert(ins.drop_first() =~= assoc_insert(s.drop_first(), k, v));
        if s[0].0 == k2 {
            assert(assoc_lookup(ins, k2) == Some(s[0].1));
            assert(assoc_lookup(s, k2) == Some(s[0].1));
        } else {
            assert(assoc_lookup(ins, k2) == assoc_lookup(assoc_insert(s.drop_first(), k, v), k2));
            assert(assoc_lookup(s, k2) == assoc_lookup(s.drop_first(), k2));
        }
    }
}

/// Insertion makes the key's own lookup the new value.
pub proof fn lemma_insert_lookup<K, V>(s: Seq<(K, V)>, k: K, v: V)
    ensures
        assoc_lookup(assoc_insert(s, k, v), k) == Some(v),
    decreases s.len(),
{
    if s.len() == 0 {
        assert(assoc_insert(s, k, v)[0] == (k, v));
    } else if s[0].0 == k {
        assert(assoc_insert(s, k, v) == seq![(k, v)] + s.drop_first());
        assert((seq![(k, v)] + s.drop_first())[0] == (k, v));
    } else {
        lemma_insert_lookup(s.drop_first(), k, v);
        assert(assoc_insert(s, k, v) == seq![s[0]] + assoc_insert(s.drop_first(), k, v));
        assert((seq![s[0]] + assoc_insert(s.drop_first(), k, v))[0] == s[0]);
        assert((seq![s[0]] + assoc_insert(s.drop_first(), k, v)).drop_first() =~= assoc_insert(
            s.drop_first(),
            k,
            v,
        ));
    }
}

/// Replacing a key with the value it already holds changes nothing.
pub proof fn lemma_insert_same<K, V>(s: Seq<(K, V)>, k: K, v: V)
    requires
        assoc_lookup(s, k) == Some(v),
    ensures
        assoc_insert(s, k, v) == s,
    decreases s.len(),
{
    if s.len() > 0 {
        if s[0].0 == k {
            assert(assoc_insert(s, k, v) =~= s);
        } else {
            lemma_insert_same(s.drop_first(), k, v);
            assert(assoc_insert(s, k, v) =~= s);
        }
    }
}

// ---------------------------------------------------------------------------
// Byte-string order
// ---------------------------------------------------------------------------
/// Strict lexicographic order on byte strings.
pub open spec fn bytes_lt(a: Seq<u8>, b: Seq<u8>) -> bool {
    (exists|i: int|
        0 <= i < a.len() && i < b.len() && a.subrange(0, i) =~= b.subrange(0, i) && a[i] < b[i])
        || (a.len() < b.len() && a =~= b.subrange(0, a.len() as int))
}

/// Decides `bytes_lt(a@, b@)`.
pub fn bytes_less(a: &Vec<u8>, b: &Vec<u8>) -> (r: bool)
    ensures
        r == bytes_lt(a@, b@),
{
    let an = a.len();
    let bn = b.len();
    let min: usize = if an < bn {
        an
    } else {
        bn
    };
    let mut j: usize = 0;
    while j < min
        invariant
            min <= a@.len(),
            min <= b@.len(),
            min == if a@.len() < b@.len() {
                a@.len()
            } else {
                b@.len()
            },
            0 <= j <= min,
            forall|m: int| 0 <= m < j ==> a@[m] == b@[m],
        decreases min - j,
    {
        if a[j] < b[j] {
            proof {
                assert(a@.subrange(0, j as int) =~= b@.subrange(0, j as int));
            }
            return true;
        }
        if a[j] > b[j] {
            proof {
                assert forall|i: int|
                    !(0 <= i < a@.len() && i < b@.len() && a@.subrange(0, i) =~= b@.subrange(0, i)
                        && a@[i] < b@[i]) by {
                    if 0 <= i < a@.len() && i < b@.len() && a@[i] < b@[i] {
                        if i < j {
                            assert(a@[i] == b@[i]);
                        } else if i == j {
                            assert(a@[j as int] > b@[j as int]);
                        } else {
                            if a@.subrange(0, i) =~= b@.subrange(0, i) {
                                assert(a@.subrange(0, i)[j as int] == b@.subrange(0, i)[j as int]);
                                assert(false);
                            }
                        }
                    }
                }
                if a@.len() < b@.len() && a@ =~= b@.subrange(0, a@.len() as int) {
                    assert(a@[j as int] == b@.subrange(0, a@.len() as int)[j as int]);
                    assert(false);
                }
            }
            return false;
        }
        j = j + 1;
    }
    if an < bn {
        proof {
            assert(a@ =~= b@.subrange(0, a@.len() as int));
        }
        true
    } else {
        proof {
            assert forall|i: int|
                !(0 <= i < a@.len() && i < b@.len() && a@.subrange(0, i) =~= b@.subrange(0, i)
                    && a@[i] < b@[i]) by {
                if 0 <= i < a@.len() && i < b@.len() && a@[i] < b@[i] {
                    assert(i < min);
                    assert(a@[i] == b@[i]);
                }
            }
            assert(!(a@.len() < b@.len()));
        }
        false
    }
}

/// The order is irreflexive, so equal strings are not ordered.
pub proof fn lemma_bytes_lt_irrefl(a: Seq<u8>)
    ensures
        !bytes_lt(a, a),
{
    if exists|i: int|
        #![trigger a.subrange(0, i)]
        0 <= i < a.len() && i < a.len() && a.subrange(0, i) =~= a.subrange(0, i) && a[i] < a[i] {
        let i = choose|i: int|
            #![trigger a.subrange(0, i)]
            0 <= i < a.len() && i < a.len() && a.subrange(0, i) =~= a.subrange(0, i) && a[i] < a[i];
        assert(false);
    }
}

/// The order is total: two distinct strings compare one way or the other.
pub proof fn lemma_bytes_lt_total(a: Seq<u8>, b: Seq<u8>)
    requires
        !bytes_lt(a, b),
        !bytes_lt(b, a),
    ensures
        a == b,
    decreases a.len(),
{
    if a.len() == 0 {
        if b.len() > 0 {
            assert(a.len() < b.len() && a =~= b.subrange(0, a.len() as int));
        }
        assert(a =~= b);
    } else if b.len() == 0 {
        assert(bytes_lt(b, a)) by {
            assert(b.len() < a.len() && b =~= a.subrange(0, b.len() as int));
        }
    } else {
        if a[0] < b[0] {
            assert(bytes_lt(a, b)) by {
                assert(a.subrange(0, 0) =~= b.subrange(0, 0));
            }
        } else if b[0] < a[0] {
            assert(bytes_lt(b, a)) by {
                assert(b.subrange(0, 0) =~= a.subrange(0, 0));
            }
        } else {
            let at = a.drop_first();
            let bt = b.drop_first();
            assert(!bytes_lt(at, bt)) by {
                if bytes_lt(at, bt) {
                    lemma_bytes_lt_cons(a, b);
                }
            }
            assert(!bytes_lt(bt, at)) by {
                if bytes_lt(bt, at) {
                    lemma_bytes_lt_cons(b, a);
                }
            }
            lemma_bytes_lt_total(at, bt);
            assert forall|m: int| 0 <= m < a.len() implies #[trigger] a[m] == b[m] by {
                if m > 0 {
                    assert(a[m] == at[m - 1]);
                    assert(bt[m - 1] == b[m]);
                }
            }
            assert(a =~= b);
        }
    }
}

/// Order of tails lifts to order of whole strings with equal heads.
pub proof fn lemma_bytes_lt_cons(a: Seq<u8>, b: Seq<u8>)
    requires
        a.len() > 0,
        b.len() > 0,
        a[0] == b[0],
        bytes_lt(a.drop_first(), b.drop_first()),
    ensures
        bytes_lt(a, b),
{
    let at = a.drop_first();
    let bt = b.drop_first();
    if exists|i: int|
        #![trigger at.subrange(0, i)]
        0 <= i < at.len() && i < bt.len() && at.subrange(0, i) =~= bt.subrange(0, i) && at[i]
            < bt[i] {
        let i = choose|i: int|
            #![trigger at.subrange(0, i)]
            0 <= i < at.len() && i < bt.len() && at.subrange(0, i) =~= bt.subrange(0, i) && at[i]
                < bt[i];
        assert(a.subrange(0, i + 1) =~= b.subrange(0, i + 1)) by {
            assert forall|m: int| 0 <= m < i + 1 implies #[trigger] a.subrange(0, i + 1)[m]
                == b.subrange(0, i + 1)[m] by {
                if m > 0 {
                    assert(at.subrange(0, i)[m - 1] == bt.subrange(0, i)[m - 1]);
                }
            }
        }
        assert(a[i + 1] < b[i + 1]);
    } else {
        assert(at.len() < bt.len() && at =~= bt.subrange(0, at.len() as int));
        assert(a.len() < b.len());
        assert(a =~= b.subrange(0, a.len() as int)) by {
            assert forall|m: int| 0 <= m < a.len() implies #[trigger] a[m] == b.subrange(
                0,
                a.len() as int,
            )[m] by {
                if m > 0 {
                    assert(at[m - 1] == bt.subrange(0, at.len() as int)[m - 1]);
                }
            }
        }
    }
}


// ---------------------------------------------------------------------------
// Sorted maps keyed by byte strings
// ---------------------------------------------------------------------------
/// The number of leading entries whose key orders strictly below `k`: the
/// position at which `k` belongs.
pub open spec fn smap_lower<V>(s: Seq<(Seq<u8>, V)>, k: Seq<u8>) -> int
    decreases s.len(),
{
    if s.len() == 0 {
        0
    } else if bytes_lt(s[0].0, k) {
        1 + smap_lower(s.drop_first(), k)
    } else {
        0
    }
}

/// Insertion keeping the key order; meant for keys not already present.
pub open spec fn smap_insert<V>(s: Seq<(Seq<u8>, V)>, k: Seq<u8>, v: V) -> Seq<(Seq<u8>, V)> {
    s.subrange(0, smap_lower(s, k)) + seq![(k, v)] + s.subrange(smap_lower(s, k), s.len() as int)
}

pub proof fn lemma_smap_lower_bounds<V>(s: Seq<(Seq<u8>, V)>, k: Seq<u8>)
    ensures
        0 <= smap_lower(s, k) <= s.len(),
    decreases s.len(),
{
    if s.len() > 0 && bytes_lt(s[0].0, k) {
        lemma_smap_lower_bounds(s.drop_first(), k);
    }
}

/// Characterises the insertion point by what the executable scan checks.
pub proof fn lemma_smap_lower_char<V>(s: Seq<(Seq<u8>, V)>, k: Seq<u8>, i: int)
    requires
        0 <= i <= s.len(),
        forall|j: int| 0 <= j < i ==> bytes_lt((#[trigger] s[j]).0, k),
        i < s.len() ==> !bytes_lt(s[i as int].0, k),
    ensures
        smap_lower(s, k) == i,
    decreases s.len(),
{
    if s.len() == 0 {
    } else if bytes_lt(s[0].0, k) {
        assert(i > 0) by {
            if i == 0 {
                assert(!bytes_lt(s[0].0, k));
            }
        }
        lemma_smap_lower_char(s.drop_first(), k, i - 1);
    } else {
        assert(i == 0) by {
            if i > 0 {
                assert(bytes_lt(s[0].0, k));
            }
        }
    }
}

} // verus!
