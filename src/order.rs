//! Lexicographic order on integer sequences, a strict total order.
use vstd::prelude::*;

verus! {

/// `a` comes strictly before `b`: at the first index where they differ `a`
/// is smaller, or `a` is a proper prefix of `b`.
pub open spec fn seq_lt(a: Seq<int>, b: Seq<int>) -> bool {
    exists|k: int|
        0 <= k <= a.len() && k <= b.len() && a.subrange(0, k) == b.subrange(0, k) && ((k == a.len()
            && k < b.len()) || (k < a.len() && k < b.len() && a[k] < b[k]))
}

proof fn lemma_prefix_eq(a: Seq<int>, b: Seq<int>, k: int, i: int)
    requires
        0 <= i < k <= a.len(),
        k <= b.len(),
        a.subrange(0, k) == b.subrange(0, k),
    ensures
        a[i] == b[i],
{
    assert(a.subrange(0, k)[i] == b.subrange(0, k)[i]);
    assert(a.subrange(0, k)[i] == a[i]);
    assert(b.subrange(0, k)[i] == b[i]);
}

pub proof fn lemma_seq_lt_irreflexive(a: Seq<int>)
    ensures
        !seq_lt(a, a),
{
}

pub proof fn lemma_seq_lt_transitive(a: Seq<int>, b: Seq<int>, c: Seq<int>)
    requires
        seq_lt(a, b),
        seq_lt(b, c),
    ensures
        seq_lt(a, c),
{
    let k1 = choose|k: int|
        0 <= k <= a.len() && k <= b.len() && a.subrange(0, k) == b.subrange(0, k) && ((k == a.len()
            && k < b.len()) || (k < a.len() && k < b.len() && a[k] < b[k]));
    let k2 = choose|k: int|
        0 <= k <= b.len() && k <= c.len() && b.subrange(0, k) == c.subrange(0, k) && ((k == b.len()
            && k < c.len()) || (k < b.len() && k < c.len() && b[k] < c[k]));
    let k = if k1 < k2 {
        k1
    } else {
        k2
    };
    assert forall|i: int| 0 <= i < k implies a[i] == c[i] by {
        lemma_prefix_eq(a, b, k1, i);
        lemma_prefix_eq(b, c, k2, i);
    }
    assert(a.subrange(0, k) =~= c.subrange(0, k));
    if k1 < k2 {
        if k1 < a.len() {
            lemma_prefix_eq(b, c, k2, k1);
        }
    } else if k2 < k1 {
        lemma_prefix_eq(a, b, k1, k2);
    }
    assert(0 <= k <= a.len() && k <= c.len() && a.subrange(0, k) == c.subrange(0, k) && ((k
        == a.len() && k < c.len()) || (k < a.len() && k < c.len() && a[k] < c[k])));
}

proof fn lemma_seq_lt_total_from(a: Seq<int>, b: Seq<int>, k: int)
    requires
        0 <= k <= a.len(),
        k <= b.len(),
        a.subrange(0, k) == b.subrange(0, k),
    ensures
        a == b || seq_lt(a, b) || seq_lt(b, a),
    decreases a.len() - k,
{
    if k == a.len() || k == b.len() {
        if a.len() == b.len() {
            assert(a =~= a.subrange(0, k));
            assert(b =~= b.subrange(0, k));
        } else if k == a.len() {
            assert(seq_lt(a, b));
        } else {
            assert(seq_lt(b, a));
        }
    } else if a[k] != b[k] {
        if a[k] < b[k] {
            assert(seq_lt(a, b));
        } else {
            assert(b.subrange(0, k) == a.subrange(0, k));
            assert(seq_lt(b, a));
        }
    } else {
        assert forall|i: int| 0 <= i < k + 1 implies a[i] == b[i] by {
            if i < k {
                lemma_prefix_eq(a, b, k, i);
            }
        }
        assert(a.subrange(0, k + 1) =~= b.subrange(0, k + 1));
        lemma_seq_lt_total_from(a, b, k + 1);
    }
}

pub proof fn lemma_seq_lt_total(a: Seq<int>, b: Seq<int>)
    ensures
        a == b || seq_lt(a, b) || seq_lt(b, a),
{
    assert(a.subrange(0, 0) =~= b.subrange(0, 0));
    lemma_seq_lt_total_from(a, b, 0);
}

pub proof fn lemma_seq_lt_asymmetric(a: Seq<int>, b: Seq<int>)
    requires
        seq_lt(a, b),
    ensures
        !seq_lt(b, a),
{
    if seq_lt(b, a) {
        lemma_seq_lt_transitive(a, b, a);
    }
}

/// Whether `a` comes strictly before `b`.
pub fn key_less(a: &Vec<i64>, b: &Vec<i64>) -> (r: bool)
    ensures
        r == seq_lt(keys_view(a@), keys_view(b@)),
{
    let ghost av = keys_view(a@);
    let ghost bv = keys_view(b@);
    let mut i: usize = 0;
    while i < a.len() && i < b.len()
        invariant
            i <= a@.len(),
            i <= b@.len(),
            av == keys_view(a@),
            bv == keys_view(b@),
            forall|j: int| 0 <= j < i ==> a@[j] == b@[j],
        decreases a@.len() - i,
    {
        if a[i] != b[i] {
            assert(av.subrange(0, i as int) =~= bv.subrange(0, i as int));
            let r = a[i] < b[i];
            proof {
                if !r {
                    assert(seq_lt(bv, av));
                    lemma_seq_lt_asymmetric(bv, av);
                }
            }
            return r;
        }
        i += 1;
    }
    assert(av.subrange(0, i as int) =~= bv.subrange(0, i as int));
    let r = i == a.len() && i < b.len();
    proof {
        if !r {
            if av.len() == bv.len() {
                assert(av =~= bv);
            } else {
                assert(seq_lt(bv, av));
                lemma_seq_lt_asymmetric(bv, av);
            }
        }
    }
    r
}

/// The codes of the characters of `s`.
pub open spec fn codes(s: Seq<char>) -> Seq<int> {
    s.map_values(|c: char| (c as u32) as int)
}

/// Distinct texts have distinct codes.
pub proof fn lemma_codes_injective(a: Seq<char>, b: Seq<char>)
    requires
        codes(a) == codes(b),
    ensures
        a == b,
{
    assert(a.len() == codes(a).len());
    assert(b.len() == codes(b).len());
    assert forall|t: int| 0 <= t < a.len() implies a[t] == b[t] by {
        assert(codes(a)[t] == codes(b)[t]);
        assert(codes(a)[t] == (a[t] as u32) as int);
        assert(codes(b)[t] == (b[t] as u32) as int);
        assert((a[t] as u32) == (b[t] as u32));
        vstd::utf8::char_u32_cast(a[t], a[t] as u32);
        vstd::utf8::char_u32_cast(b[t], b[t] as u32);
    }
    assert(a =~= b);
}

/// The codes of `v`, for comparing texts.
pub fn codes_of(v: &Vec<char>) -> (r: Vec<i64>)
    ensures
        keys_view(r@) == codes(v@),
{
    let mut out: Vec<i64> = Vec::new();
    let mut i: usize = 0;
    while i < v.len()
        invariant
            i <= v@.len(),
            keys_view(out@) == codes(v@.subrange(0, i as int)),
        decreases v@.len() - i,
    {
        let ghost prev = keys_view(out@);
        let c: i64 = v[i] as u32 as i64;
        out.push(c);
        assert(keys_view(out@) =~= prev.push(c as int));
        i += 1;
        assert(codes(v@.subrange(0, i as int)) =~= codes(v@.subrange(0, i - 1)).push((v@[i - 1] as u32) as int));
    }
    assert(v@.subrange(0, v@.len() as int) =~= v@);
    out
}

pub open spec fn keys_view(v: Seq<i64>) -> Seq<int> {
    v.map_values(|x: i64| x as int)
}

/// Each element of `s` comes strictly before every later one.
pub open spec fn strictly_sorted(s: Seq<Seq<int>>) -> bool {
    forall|i: int, j: int| 0 <= i < j < s.len() ==> seq_lt(#[trigger] s[i], #[trigger] s[j])
}

/// Two strictly sorted sequences that hold the same elements are equal:
/// the order admits one arrangement of a set.
pub proof fn lemma_sorted_unique(a: Seq<Seq<int>>, b: Seq<Seq<int>>)
    requires
        strictly_sorted(a),
        strictly_sorted(b),
        forall|x: Seq<int>| a.contains(x) <==> b.contains(x),
    ensures
        a == b,
    decreases a.len(),
{
    if a.len() == 0 {
        if b.len() > 0 {
            assert(b.contains(b[0]));
        }
        assert(a =~= b);
    } else {
        assert(a.contains(a[0]));
        assert(b.len() > 0);
        assert(b.contains(b[0]));
        assert(a[0] == b[0]) by {
            let j = choose|j: int| 0 <= j < b.len() && b[j] == a[0];
            let k = choose|k: int| 0 <= k < a.len() && a[k] == b[0];
            if a[0] != b[0] {
                if k > 0 {
                    assert(seq_lt(a[0], a[k]));
                }
                if j > 0 {
                    assert(seq_lt(b[0], b[j]));
                }
                lemma_seq_lt_asymmetric(a[0], b[0]);
            }
        }
        let a1 = a.drop_first();
        let b1 = b.drop_first();
        assert forall|x: Seq<int>| a1.contains(x) <==> b1.contains(x) by {
            if a1.contains(x) {
                let i = choose|i: int| 0 <= i < a1.len() && a1[i] == x;
                assert(seq_lt(a[0], a[i + 1]));
                assert(a.contains(x));
                let j = choose|j: int| 0 <= j < b.len() && b[j] == x;
                if j == 0 {
                    lemma_seq_lt_irreflexive(x);
                }
                assert(b1[j - 1] == x);
            }
            if b1.contains(x) {
                let i = choose|i: int| 0 <= i < b1.len() && b1[i] == x;
                assert(seq_lt(b[0], b[i + 1]));
                assert(b.contains(x));
                let j = choose|j: int| 0 <= j < a.len() && a[j] == x;
                if j == 0 {
                    lemma_seq_lt_irreflexive(x);
                }
                assert(a1[j - 1] == x);
            }
        }
        assert forall|i: int, j: int| 0 <= i < j < a1.len() implies seq_lt(#[trigger] a1[i], #[trigger] a1[j]) by {
            assert(seq_lt(a[i + 1], a[j + 1]));
        }
        assert forall|i: int, j: int| 0 <= i < j < b1.len() implies seq_lt(#[trigger] b1[i], #[trigger] b1[j]) by {
            assert(seq_lt(b[i + 1], b[j + 1]));
        }
        lemma_sorted_unique(a1, b1);
        assert(a =~= seq![a[0]] + a1);
        assert(b =~= seq![b[0]] + b1);
    }
}

} // verus!
