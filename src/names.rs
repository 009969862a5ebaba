//! Sets of symbol names, held as vectors without duplicates.
use vstd::prelude::*;
use crate::text::{has_prefix, views};
use crate::order::{codes, codes_of, key_less, keys_view, lemma_codes_injective, lemma_seq_lt_irreflexive,
    lemma_seq_lt_total, lemma_seq_lt_transitive, seq_lt};

verus! {

/// The names that `v` holds.
pub open spec fn name_set(v: Seq<Vec<char>>) -> Set<Seq<char>> {
    views(v).to_set()
}

/// `v` holds each name once.
pub open spec fn distinct(v: Seq<Vec<char>>) -> bool {
    views(v).no_duplicates()
}

proof fn lemma_push_set(s: Seq<Seq<char>>, e: Seq<char>)
    ensures
        s.push(e).to_set() == s.to_set().insert(e),
{
    Seq::lemma_to_set_insert_commutes(s, e);
    assert(s.push(e) =~= s + seq![e]);
}

pub fn same_chars(a: &Vec<char>, b: &Vec<char>) -> (r: bool)
    ensures
        r == (a@ == b@),
{
    let r = a.len() == b.len() && has_prefix(a, b);
    proof {
        assert(a@.subrange(0, a@.len() as int) =~= a@);
    }
    r
}

pub fn contains_name(v: &Vec<Vec<char>>, x: &Vec<char>) -> (r: bool)
    ensures
        r == name_set(v@).contains(x@),
{
    let mut i: usize = 0;
    while i < v.len()
        invariant
            i <= v@.len(),
            forall|k: int| 0 <= k < i ==> v@[k]@ != x@,
        decreases v@.len() - i,
    {
        if same_chars(&v[i], x) {
            assert(views(v@)[i as int] == x@);
            return true;
        }
        i += 1;
    }
    assert(!views(v@).contains(x@)) by {
        if views(v@).contains(x@) {
            let k = choose|k: int| 0 <= k < views(v@).len() && views(v@)[k] == x@;
            assert(v@[k]@ == x@);
        }
    }
    false
}

/// Adds `x` to the set, unless it is there already.
pub fn insert_name(v: &mut Vec<Vec<char>>, x: Vec<char>)
    requires
        distinct(old(v)@),
    ensures
        distinct(final(v)@),
        name_set(final(v)@) == name_set(old(v)@).insert(x@),
{
    if contains_name(v, &x) {
        assert(name_set(v@) =~= name_set(v@).insert(x@));
        return;
    }
    let ghost before = views(v@);
    let ghost xv = x@;
    v.push(x);
    assert(views(v@) =~= before.push(xv));
    proof {
        lemma_push_set(before, xv);
        assert forall|i: int, j: int|
            0 <= i < views(v@).len() && 0 <= j < views(v@).len() && i != j implies views(v@)[i]
            != views(v@)[j] by {
            assert(!before.contains(xv));
            if i == before.len() as int {
                assert(before[j] == views(v@)[j]);
                if views(v@)[j] == xv {
                    assert(before.contains(xv));
                }
            } else if j == before.len() as int {
                assert(before[i] == views(v@)[i]);
                if views(v@)[i] == xv {
                    assert(before.contains(xv));
                }
            }
        }
    }
}

/// The names of `a` that `b` holds (where `keep_common`), or that it does
/// not hold (otherwise).
pub fn select_names(a: &Vec<Vec<char>>, b: &Vec<Vec<char>>, keep_common: bool) -> (r: Vec<
    Vec<char>,
>)
    ensures
        distinct(r@),
        keep_common ==> name_set(r@) == name_set(a@).intersect(name_set(b@)),
        !keep_common ==> name_set(r@) == name_set(a@).difference(name_set(b@)),
{
    let mut out: Vec<Vec<char>> = Vec::new();
    let mut i: usize = 0;
    assert(views(out@).to_set() =~= Set::<Seq<char>>::empty());
    assert(views(a@).subrange(0, 0).to_set() =~= Set::<Seq<char>>::empty());
    while i < a.len()
        invariant
            i <= a@.len(),
            distinct(out@),
            keep_common ==> name_set(out@) == views(a@).subrange(0, i as int).to_set().intersect(
                name_set(b@),
            ),
            !keep_common ==> name_set(out@) == views(a@).subrange(0, i as int).to_set().difference(
                name_set(b@),
            ),
        decreases a@.len() - i,
    {
        let x = a[i].clone();
        proof {
            assert(views(a@).subrange(0, i + 1) =~= views(a@).subrange(0, i as int).push(a@[i as int]@));
            lemma_push_set(views(a@).subrange(0, i as int), a@[i as int]@);
        }
        let inb = contains_name(b, &x);
        if inb == keep_common {
            insert_name(&mut out, x);
        }
        i += 1;
        proof {
            let pre = views(a@).subrange(0, i as int).to_set();
            if keep_common {
                assert(name_set(out@) =~= pre.intersect(name_set(b@)));
            } else {
                assert(name_set(out@) =~= pre.difference(name_set(b@)));
            }
        }
    }
    assert(views(a@).subrange(0, a@.len() as int) =~= views(a@));
    out
}

/// Adds every name of `src` to the set.
pub fn extend_names(v: &mut Vec<Vec<char>>, src: &Vec<Vec<char>>)
    requires
        distinct(old(v)@),
    ensures
        distinct(final(v)@),
        name_set(final(v)@) == name_set(old(v)@).union(name_set(src@)),
{
    let ghost start = name_set(v@);
    let mut i: usize = 0;
    assert(views(src@).subrange(0, 0).to_set() =~= Set::<Seq<char>>::empty());
    assert(start =~= start.union(Set::<Seq<char>>::empty()));
    while i < src.len()
        invariant
            i <= src@.len(),
            distinct(v@),
            name_set(v@) == start.union(views(src@).subrange(0, i as int).to_set()),
        decreases src@.len() - i,
    {
        proof {
            assert(views(src@).subrange(0, i + 1) =~= views(src@).subrange(0, i as int).push(
                src@[i as int]@,
            ));
            lemma_push_set(views(src@).subrange(0, i as int), src@[i as int]@);
        }
        insert_name(v, src[i].clone());
        i += 1;
        assert(name_set(v@) =~= start.union(views(src@).subrange(0, i as int).to_set()));
    }
    assert(views(src@).subrange(0, src@.len() as int) =~= views(src@));
}

/// The names come in strictly increasing character order.
pub open spec fn names_sorted(v: Seq<Seq<char>>) -> bool {
    forall|i: int, j: int| 0 <= i < j < v.len() ==> seq_lt(codes(#[trigger] v[i]), codes(#[trigger] v[j]))
}

proof fn lemma_sorted_distinct(v: Seq<Seq<char>>)
    requires
        names_sorted(v),
    ensures
        v.no_duplicates(),
{
    assert forall|i: int, j: int| 0 <= i < v.len() && 0 <= j < v.len() && i != j implies v[i] != v[j] by {
        if v[i] == v[j] {
            if i < j {
                assert(seq_lt(codes(v[i]), codes(v[j])));
            } else {
                assert(seq_lt(codes(v[j]), codes(v[i])));
            }
            lemma_seq_lt_irreflexive(codes(v[i]));
        }
    }
}

/// The names of `v` in character order, each once.
pub fn sorted_names(v: &Vec<Vec<char>>) -> (r: Vec<Vec<char>>)
    ensures
        name_set(r@) == name_set(v@),
        names_sorted(views(r@)),
        distinct(r@),
{
    let mut out: Vec<Vec<char>> = Vec::new();
    let mut keys: Vec<Vec<i64>> = Vec::new();
    let mut i: usize = 0;
    assert(views(v@).subrange(0, 0).to_set() =~= Set::<Seq<char>>::empty());
    assert(name_set(out@) =~= Set::<Seq<char>>::empty());
    while i < v.len()
        invariant
            i <= v@.len(),
            keys@.len() == out@.len(),
            forall|t: int| 0 <= t < out@.len() ==> keys_view((#[trigger] keys@[t])@) == codes(out@[t]@),
            names_sorted(views(out@)),
            name_set(out@) == views(v@).subrange(0, i as int).to_set(),
        decreases v@.len() - i,
    {
        proof {
            assert(views(v@).subrange(0, i + 1) =~= views(v@).subrange(0, i as int).push(v@[i as int]@));
            lemma_push_set(views(v@).subrange(0, i as int), v@[i as int]@);
        }
        let x = copy_name(&v[i]);
        let key = codes_of(&x);
        let ghost kv = keys_view(key@);
        let mut j: usize = 0;
        while j < keys.len()
            invariant
                j <= keys@.len(),
                keys@.len() == out@.len(),
                kv == keys_view(key@),
                forall|t: int| 0 <= t < out@.len() ==> keys_view((#[trigger] keys@[t])@) == codes(out@[t]@),
                forall|t: int| 0 <= t < j ==> seq_lt(codes((#[trigger] out@[t])@), kv),
            ensures
                j <= keys@.len(),
                forall|t: int| 0 <= t < j ==> seq_lt(codes((#[trigger] out@[t])@), kv),
                j < keys@.len() ==> !seq_lt(keys_view(keys@[j as int]@), kv),
            decreases keys@.len() - j,
        {
            if !key_less(&keys[j], &key) {
                break;
            }
            assert(keys_view(keys@[j as int]@) == codes(out@[j as int]@));
            j += 1;
        }
        if j < keys.len() && !key_less(&key, &keys[j]) {
            proof {
                assert(keys_view(keys@[j as int]@) == codes(out@[j as int]@));
                lemma_seq_lt_total(keys_view(keys@[j as int]@), kv);
                lemma_codes_injective(out@[j as int]@, x@);
                assert(views(out@)[j as int] == x@);
                assert(name_set(out@) =~= name_set(out@).insert(x@));
            }
        } else {
            let ghost old_out = out@;
            let ghost old_views = views(out@);
            let ghost old_keys = keys@;
            proof {
                if j < old_out.len() {
                    assert(keys_view(keys@[j as int]@) == codes(out@[j as int]@));
                    lemma_seq_lt_total(keys_view(keys@[j as int]@), kv);
                }
            }
            let ghost xv = x@;
            out.insert(j, x);
            keys.insert(j, key);
            proof {
                assert forall|t: int| 0 <= t < out@.len() implies out@[t] == (if t < j {
                    old_out[t]
                } else if t == j {
                    out@[j as int]
                } else {
                    old_out[t - 1]
                }) && keys@[t] == (if t < j {
                    old_keys[t]
                } else if t == j {
                    key
                } else {
                    old_keys[t - 1]
                }) by {}
                assert(out@[j as int]@ == xv);
                let nv = views(out@);
                assert forall|a: int, b: int| 0 <= a < b < nv.len() implies seq_lt(codes(#[trigger] nv[a]), codes(#[trigger] nv[b])) by {
                    assert(nv[a] == out@[a]@);
                    assert(nv[b] == out@[b]@);
                    if b < j {
                        assert(seq_lt(codes(old_views[a]), codes(old_views[b])));
                    } else if b == j {
                    } else if a < j {
                        if b - 1 > j {
                            assert(seq_lt(codes(old_views[j as int]), codes(old_views[b - 1])));
                            lemma_seq_lt_transitive(kv, codes(old_views[j as int]), codes(old_views[b - 1]));
                        }
                        lemma_seq_lt_transitive(codes(old_views[a]), kv, codes(old_views[b - 1]));
                    } else if a == j {
                        if b - 1 > j {
                            assert(seq_lt(codes(old_views[j as int]), codes(old_views[b - 1])));
                            lemma_seq_lt_transitive(kv, codes(old_views[j as int]), codes(old_views[b - 1]));
                        }
                    } else {
                        assert(seq_lt(codes(old_views[a - 1]), codes(old_views[b - 1])));
                    }
                }
                assert forall|y: Seq<char>| nv.contains(y) <==> (old_views.contains(y) || y == xv) by {
                    if nv.contains(y) {
                        let t = choose|t: int| 0 <= t < nv.len() && nv[t] == y;
                        if t < j {
                            assert(old_views[t] == y);
                        } else if t > j {
                            assert(old_views[t - 1] == y);
                        }
                    }
                    if old_views.contains(y) {
                        let t = choose|t: int| 0 <= t < old_views.len() && old_views[t] == y;
                        if t < j {
                            assert(nv[t] == y);
                        } else {
                            assert(nv[t + 1] == y);
                        }
                    }
                    if y == xv {
                        assert(nv[j as int] == y);
                    }
                }
                assert(name_set(out@) =~= name_set(old_out).insert(xv));
            }
        }
        i += 1;
    }
    assert(views(v@).subrange(0, v@.len() as int) =~= views(v@));
    proof {
        lemma_sorted_distinct(views(out@));
    }
    out
}

fn copy_name(x: &Vec<char>) -> (r: Vec<char>)
    ensures
        r@ == x@,
{
    let r = crate::text::copy_range(x, 0, x.len());
    assert(x@.subrange(0, x@.len() as int) =~= x@);
    r
}

} // verus!
