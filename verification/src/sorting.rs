//! A stable sort of items by a text key, as `sort_by` with `String::cmp`
//! orders them: by the keys' characters, the earlier of two items with equal
//! keys first.
use vstd::prelude::*;

verus! {

/// `a` comes before `b` in the order of `String::cmp`: at the first
/// difference `a` has the smaller character, or `a` is a proper prefix of `b`.
pub open spec fn key_lt(a: Seq<char>, b: Seq<char>) -> bool
    decreases a.len(),
{
    if a.len() == 0 {
        b.len() > 0
    } else if b.len() == 0 {
        false
    } else if a[0] != b[0] {
        (a[0] as int) < (b[0] as int)
    } else {
        key_lt(a.drop_first(), b.drop_first())
    }
}

/// `a` does not come after `b`.
pub open spec fn key_le(a: Seq<char>, b: Seq<char>) -> bool {
    !key_lt(b, a)
}

proof fn lemma_key_total(a: Seq<char>, b: Seq<char>)
    ensures
        key_lt(a, b) || a == b || key_lt(b, a),
        !(key_lt(a, b) && key_lt(b, a)),
    decreases a.len(),
{
    if a.len() > 0 && b.len() > 0 && a[0] != b[0] {
        assert((a[0] as int) != (b[0] as int));
    }
    if a.len() > 0 && b.len() > 0 && a[0] == b[0] {
        lemma_key_total(a.drop_first(), b.drop_first());
        if a.drop_first() == b.drop_first() {
            assert(a =~= seq![a[0]] + a.drop_first());
            assert(b =~= seq![b[0]] + b.drop_first());
        }
    }
    if a.len() == 0 && b.len() == 0 {
        assert(a =~= b);
    }
}

proof fn lemma_key_lt_irreflexive(a: Seq<char>)
    ensures
        !key_lt(a, a),
    decreases a.len(),
{
    if a.len() > 0 {
        lemma_key_lt_irreflexive(a.drop_first());
    }
}

proof fn lemma_key_lt_transitive(a: Seq<char>, b: Seq<char>, c: Seq<char>)
    requires
        key_lt(a, b),
        key_lt(b, c),
    ensures
        key_lt(a, c),
    decreases a.len(),
{
    if a.len() > 0 && b.len() > 0 && c.len() > 0 && a[0] == b[0] && b[0] == c[0] {
        lemma_key_lt_transitive(a.drop_first(), b.drop_first(), c.drop_first());
    }
}

proof fn lemma_key_le_transitive(a: Seq<char>, b: Seq<char>, c: Seq<char>)
    requires
        key_le(a, b),
        key_le(b, c),
    ensures
        key_le(a, c),
{
    lemma_key_total(a, b);
    lemma_key_total(b, c);
    lemma_key_total(a, c);
    if key_lt(c, a) {
        if key_lt(a, b) {
            lemma_key_lt_transitive(c, a, b);
        } else if a == b {
        }
    }
}

/// `out` is `input` stably sorted by key: `idx` gives, for each place of
/// `out`, the place of `input` it comes from, each place of `input` once;
/// the keys do not decrease; and items with equal keys keep their order.
pub open spec fn is_stable_sort<T>(input: Seq<(String, T)>, out: Seq<(String, T)>, idx: Seq<int>) -> bool {
    &&& out.len() == input.len()
    &&& idx.len() == input.len()
    &&& forall|p: int| 0 <= p < idx.len() ==> 0 <= #[trigger] idx[p] < input.len() && out[p] == input[idx[p]]
    &&& forall|p: int, q: int| 0 <= p < q < idx.len() ==> #[trigger] idx[p] != #[trigger] idx[q]
    &&& forall|p: int, q: int| 0 <= p < q < out.len() ==> key_le((#[trigger] out[p]).0@, (#[trigger] out[q]).0@)
    &&& forall|p: int, q: int| 0 <= p < q < out.len() && (#[trigger] out[p]).0@ == (#[trigger] out[q]).0@ ==> idx[p] < idx[q]
}

/// Whether `a` comes before `b` (see [`key_lt`]).
fn key_less(a: &str, b: &str) -> (r: bool)
    ensures
        r == key_lt(a@, b@),
{
    let x = crate::text::chars_of(a);
    let y = crate::text::chars_of(b);
    let mut i: usize = 0;
    assert(x@.skip(0) =~= a@);
    assert(y@.skip(0) =~= b@);
    while i < x.len() && i < y.len() && x[i] == y[i]
        invariant
            i <= x.len(),
            i <= y.len(),
            key_lt(a@, b@) == key_lt(x@.skip(i as int), y@.skip(i as int)),
        decreases x.len() - i,
    {
        assert(x@.skip(i as int).drop_first() =~= x@.skip(i + 1));
        assert(y@.skip(i as int).drop_first() =~= y@.skip(i + 1));
        i += 1;
    }
    if i == x.len() {
        i < y.len()
    } else if i == y.len() {
        false
    } else {
        x[i] < y[i]
    }
}

/// The items stably sorted by their keys (see [`is_stable_sort`]).
pub fn stable_sort_by_key<T>(items: Vec<(String, T)>) -> (r: Vec<(String, T)>)
    ensures
        exists|idx: Seq<int>| is_stable_sort(items@, r@, idx),
{
    let ghost input = items@;
    let n = items.len();
    // Take the items out in their original order.
    let mut rest = items;
    let mut rev: Vec<(String, T)> = Vec::new();
    while rest.len() > 0
        invariant
            rest@ + rev@.reverse() == input,
        decreases rest.len(),
    {
        let ghost before_rest = rest@;
        let ghost before_rev = rev@;
        let s = rest.pop().unwrap();
        rev.push(s);
        proof {
            assert(rev@.reverse() =~= seq![s] + before_rev.reverse());
            assert(before_rest =~= rest@.push(s));
            assert(rest@ + rev@.reverse() =~= before_rest + before_rev.reverse());
        }
    }
    assert(rev@.reverse() =~= input);
    let mut out: Vec<(String, T)> = Vec::new();
    let ghost mut idx: Seq<int> = seq![];
    let mut i: usize = 0;
    while rev.len() > 0
        invariant
            n == input.len(),
            i + rev@.len() == input.len(),
            rev@.reverse() == input.skip(i as int),
            out@.len() == i,
            idx.len() == i,
            forall|p: int| 0 <= p < idx.len() ==> 0 <= #[trigger] idx[p] < i && out@[p] == input[idx[p]],
            forall|p: int, q: int| 0 <= p < q < idx.len() ==> #[trigger] idx[p] != #[trigger] idx[q],
            forall|p: int, q: int| 0 <= p < q < out@.len() ==> key_le((#[trigger] out@[p]).0@, (#[trigger] out@[q]).0@),
            forall|p: int, q: int| 0 <= p < q < out@.len() && (#[trigger] out@[p]).0@ == (#[trigger] out@[q]).0@ ==> idx[p] < idx[q],
        decreases rev.len(),
    {
        let ghost before_rev = rev@;
        let item = rev.pop().unwrap();
        proof {
            assert(before_rev.reverse()[0] == item);
            assert(input.skip(i as int)[0] == input[i as int]);
            assert(rev@.reverse() =~= before_rev.reverse().drop_first());
            assert(input.skip(i as int).drop_first() =~= input.skip(i + 1));
        }
        let mut j = out.len();
        while j > 0 && key_less(item.0.as_str(), out[j - 1].0.as_str())
            invariant
                j <= out@.len(),
                forall|q: int| j <= q < out@.len() ==> key_lt(item.0@, (#[trigger] out@[q]).0@),
            decreases j,
        {
            j -= 1;
        }
        let ghost k = item.0@;
        proof {
            // Every item before `j` comes no later than the new one.
            assert forall|p: int| 0 <= p < j implies key_le((#[trigger] out@[p]).0@, k) by {
                let last = out@[j - 1].0@;
                assert(!key_lt(k, last));
                if p < j - 1 {
                    assert(key_le(out@[p].0@, last));
                    lemma_key_le_transitive(out@[p].0@, last, k);
                }
            }
        }
        let ghost old_out = out@;
        let ghost old_idx = idx;
        out.insert(j, item);
        proof {
            idx = old_idx.insert(j as int, i as int);
            assert forall|p: int| 0 <= p < idx.len() implies 0 <= #[trigger] idx[p] < i + 1 && out@[p] == input[idx[p]] by {
                if p < j {
                    assert(idx[p] == old_idx[p]);
                    assert(out@[p] == old_out[p]);
                } else if p == j {
                } else {
                    assert(idx[p] == old_idx[p - 1]);
                    assert(out@[p] == old_out[p - 1]);
                }
            }
            assert forall|p: int, q: int| 0 <= p < q < idx.len() implies #[trigger] idx[p] != #[trigger] idx[q] by {
                if p < j && q < j {
                    assert(idx[p] == old_idx[p] && idx[q] == old_idx[q]);
                } else if p < j && q == j {
                    assert(idx[p] == old_idx[p]);
                } else if p < j && q > j {
                    assert(idx[p] == old_idx[p] && idx[q] == old_idx[q - 1]);
                } else if p == j {
                    assert(idx[q] == old_idx[q - 1]);
                } else {
                    assert(idx[p] == old_idx[p - 1] && idx[q] == old_idx[q - 1]);
                }
            }
            assert forall|p: int, q: int| 0 <= p < q < out@.len() implies key_le((#[trigger] out@[p]).0@, (#[trigger] out@[q]).0@) by {
                if p < j && q < j {
                    assert(out@[p] == old_out[p] && out@[q] == old_out[q]);
                } else if p < j && q == j {
                    assert(out@[p] == old_out[p]);
                } else if p < j && q > j {
                    assert(out@[p] == old_out[p] && out@[q] == old_out[q - 1]);
                    assert(key_le(old_out[p].0@, k));
                    assert(key_lt(k, old_out[q - 1].0@));
                    lemma_key_total(k, old_out[q - 1].0@);
                    lemma_key_le_transitive(old_out[p].0@, k, old_out[q - 1].0@);
                } else if p == j {
                    assert(out@[q] == old_out[q - 1]);
                    assert(key_lt(k, old_out[q - 1].0@));
                    lemma_key_total(k, old_out[q - 1].0@);
                } else {
                    assert(out@[p] == old_out[p - 1] && out@[q] == old_out[q - 1]);
                }
            }
            assert forall|p: int, q: int| 0 <= p < q < out@.len() && (#[trigger] out@[p]).0@ == (#[trigger] out@[q]).0@
                implies idx[p] < idx[q] by {
                if p < j && q < j {
                    assert(out@[p] == old_out[p] && out@[q] == old_out[q]);
                } else if p < j && q == j {
                    assert(idx[p] == old_idx[p]);
                } else if p < j && q > j {
                    assert(out@[p] == old_out[p] && out@[q] == old_out[q - 1]);
                    assert(key_lt(k, old_out[q - 1].0@));
                    assert(key_le(old_out[p].0@, k));
                    lemma_key_lt_irreflexive(k);
                    if old_out[p].0@ == old_out[q - 1].0@ {
                        assert(key_le(old_out[q - 1].0@, k));
                        assert(false);
                    }
                } else if p == j {
                    assert(out@[q] == old_out[q - 1]);
                    assert(key_lt(k, old_out[q - 1].0@));
                    lemma_key_lt_irreflexive(k);
                } else {
                    assert(out@[p] == old_out[p - 1] && out@[q] == old_out[q - 1]);
                    assert(idx[p] == old_idx[p - 1] && idx[q] == old_idx[q - 1]);
                }
            }
        }
        i += 1;
    }
    assert(is_stable_sort(input, out@, idx));
    out
}


/// `out` is `items` stably sorted by `keys` (the key of `items[i]` is
/// `keys[i]`): `idx` gives, for each place of `out`, the place of `items` it
/// comes from, each place once; the keys do not decrease; items with equal
/// keys keep their order.
pub open spec fn is_stable_sort_by<T>(items: Seq<T>, keys: Seq<Seq<char>>, out: Seq<T>, idx: Seq<int>) -> bool {
    &&& out.len() == items.len()
    &&& idx.len() == items.len()
    &&& forall|p: int| 0 <= p < idx.len() ==> 0 <= #[trigger] idx[p] < items.len() && out[p] == items[idx[p]]
    &&& forall|p: int, q: int| 0 <= p < q < idx.len() ==> #[trigger] idx[p] != #[trigger] idx[q]
    &&& forall|p: int, q: int| 0 <= p < q < idx.len() ==> key_le(keys[#[trigger] idx[p]], keys[#[trigger] idx[q]])
    &&& forall|p: int, q: int| 0 <= p < q < idx.len() && keys[#[trigger] idx[p]] == keys[#[trigger] idx[q]] ==> idx[p] < idx[q]
}

/// The items stably sorted by their keys (see [`is_stable_sort_by`]).
pub fn sort_by_keys<T>(items: Vec<T>, keys: Vec<String>) -> (r: Vec<T>)
    requires
        keys.len() == items.len(),
    ensures
        exists|idx: Seq<int>| is_stable_sort_by(items@, crate::text::strs_view(keys@), r@, idx),
{
    let ghost iv = items@;
    let ghost kv = crate::text::strs_view(keys@);
    let n = items.len();
    let mut its = items;
    let mut ks = keys;
    let mut rev_pairs: Vec<(String, T)> = Vec::new();
    while its.len() > 0
        invariant
            its.len() == ks.len(),
            its.len() + rev_pairs.len() == n,
            n == iv.len(),
            its@ == iv.take(its.len() as int),
            crate::text::strs_view(ks@) == kv.take(ks.len() as int),
            kv.len() == iv.len(),
            forall|p: int| 0 <= p < rev_pairs.len() ==> {
                let src = n - 1 - p;
                (#[trigger] rev_pairs@[p]).1 == iv[src] && rev_pairs@[p].0@ == kv[src]
            },
        decreases its.len(),
    {
        let ghost m = its.len();
        let it = its.pop().unwrap();
        let k = ks.pop().unwrap();
        proof {
            assert(iv.take(m as int).last() == it);
            assert(its@ =~= iv.take(m - 1));
            assert(crate::text::strs_view(ks@) =~= kv.take(m - 1));
            assert(kv.take(m as int).last() == k@);
        }
        rev_pairs.push((k, it));
    }
    let mut pairs: Vec<(String, T)> = Vec::new();
    while rev_pairs.len() > 0
        invariant
            rev_pairs.len() + pairs.len() == n,
            n == iv.len(),
            kv.len() == iv.len(),
            forall|p: int| 0 <= p < rev_pairs.len() ==> {
                let src = n - 1 - p;
                (#[trigger] rev_pairs@[p]).1 == iv[src] && rev_pairs@[p].0@ == kv[src]
            },
            forall|p: int| 0 <= p < pairs.len() ==> (#[trigger] pairs@[p]).1 == iv[p] && pairs@[p].0@ == kv[p],
        decreases rev_pairs.len(),
    {
        let ghost m = rev_pairs.len();
        let pr = rev_pairs.pop().unwrap();
        proof {
            assert(pr == rev_pairs@.push(pr)[m - 1]);
        }
        pairs.push(pr);
    }
    let ghost pv = pairs@;
    let sorted = stable_sort_by_key(pairs);
    let ghost sv = sorted@;
    let ghost idx = choose|idx: Seq<int>| is_stable_sort(pv, sv, idx);
    // Unzip, keeping the order.
    let mut srt = sorted;
    let mut rev_out: Vec<T> = Vec::new();
    while srt.len() > 0
        invariant
            srt.len() + rev_out.len() == n,
            n == sv.len(),
            srt@ == sv.take(srt.len() as int),
            forall|p: int| 0 <= p < rev_out.len() ==> #[trigger] rev_out@[p] == sv[n - 1 - p].1,
        decreases srt.len(),
    {
        let ghost m = srt.len();
        let pr = srt.pop().unwrap();
        proof {
            assert(sv.take(m as int).last() == pr);
            assert(srt@ =~= sv.take(m - 1));
        }
        rev_out.push(pr.1);
    }
    let mut out: Vec<T> = Vec::new();
    while rev_out.len() > 0
        invariant
            rev_out.len() + out.len() == n,
            n == sv.len(),
            forall|p: int| 0 <= p < rev_out.len() ==> #[trigger] rev_out@[p] == sv[n - 1 - p].1,
            forall|p: int| 0 <= p < out.len() ==> #[trigger] out@[p] == sv[p].1,
        decreases rev_out.len(),
    {
        let ghost m = rev_out.len();
        let x = rev_out.pop().unwrap();
        proof {
            assert(x == rev_out@.push(x)[m - 1]);
        }
        out.push(x);
    }
    proof {
        assert(is_stable_sort(pv, sv, idx));
        assert forall|p: int| 0 <= p < idx.len() implies 0 <= #[trigger] idx[p] < iv.len() && out@[p] == iv[idx[p]] by {
            assert(sv[p] == pv[idx[p]]);
        }
        assert forall|p: int, q: int| 0 <= p < q < idx.len() implies key_le(kv[#[trigger] idx[p]], kv[#[trigger] idx[q]]) by {
            assert(sv[p] == pv[idx[p]]);
            assert(sv[q] == pv[idx[q]]);
            assert(key_le(sv[p].0@, sv[q].0@));
        }
        assert forall|p: int, q: int| 0 <= p < q < idx.len() && kv[#[trigger] idx[p]] == kv[#[trigger] idx[q]] implies idx[p] < idx[q] by {
            assert(sv[p] == pv[idx[p]]);
            assert(sv[q] == pv[idx[q]]);
        }
        assert(is_stable_sort_by(iv, kv, out@, idx));
    }
    out
}


/// Each key comes before the next: the keys are in order and distinct.
pub open spec fn strictly_sorted(keys: Seq<Seq<char>>) -> bool {
    forall|p: int, q: int| 0 <= p < q < keys.len() ==> key_lt(#[trigger] keys[p], #[trigger] keys[q])
}

/// The keys sorted in the order of `String::cmp`, each once, as a sort
/// followed by `dedup` leaves them.
pub fn sorted_unique(keys: &Vec<String>) -> (r: Vec<String>)
    ensures
        strictly_sorted(crate::text::strs_view(r@)),
        crate::text::strs_view(r@).to_set() == crate::text::strs_view(keys@).to_set(),
{
    let mut out: Vec<String> = Vec::new();
    let mut i: usize = 0;
    while i < keys.len()
        invariant
            i <= keys.len(),
            strictly_sorted(crate::text::strs_view(out@)),
            crate::text::strs_view(out@).to_set() == crate::text::strs_view(keys@.take(i as int)).to_set(),
        decreases keys.len() - i,
    {
        let key = keys[i].as_str();
        let ghost ov = crate::text::strs_view(out@);
        let mut p: usize = 0;
        while p < out.len() && key_less(out[p].as_str(), key)
            invariant
                p <= out.len(),
                ov == crate::text::strs_view(out@),
                forall|t: int| 0 <= t < p ==> key_lt(#[trigger] ov[t], key@),
            decreases out.len() - p,
        {
            assert(ov[p as int] == out@[p as int]@);
            p += 1;
        }
        let present = p < out.len() && crate::text::str_eq(out[p].as_str(), key);
        assert(crate::text::strs_view(keys@.take(i as int + 1)) =~= crate::text::strs_view(keys@.take(i as int)).push(key@));
        if !present {
            proof {
                if p < out.len() {
                    assert(ov[p as int] == out@[p as int]@);
                    lemma_key_total(ov[p as int], key@);
                }
            }
            out.insert(p, keys[i].clone());
            let ghost nv = crate::text::strs_view(out@);
            assert(nv =~= ov.insert(p as int, key@));
            proof {
                assert forall|a: int, b: int| 0 <= a < b < nv.len() implies key_lt(#[trigger] nv[a], #[trigger] nv[b]) by {
                    if b < p {
                    } else if b == p {
                        assert(key_lt(ov[a], key@));
                    } else if a < p {
                        assert(nv[b] == ov[b - 1]);
                        if a + 1 < b {
                            assert(key_lt(ov[a], ov[p as int]));
                        }
                        assert(key_lt(ov[a], ov[b - 1]));
                    } else if a == p {
                        assert(nv[b] == ov[b - 1]);
                        assert(key_lt(key@, ov[p as int]));
                        if b - 1 > p {
                            assert(key_lt(ov[p as int], ov[b - 1]));
                            lemma_key_lt_transitive(key@, ov[p as int], ov[b - 1]);
                        }
                    } else {
                        assert(nv[a] == ov[a - 1]);
                        assert(nv[b] == ov[b - 1]);
                    }
                }
                assert(nv.to_set() =~= ov.to_set().insert(key@)) by {
                    assert forall|x: Seq<char>| nv.to_set().contains(x) <==> ov.to_set().insert(key@).contains(x) by {
                        if nv.contains(x) {
                            let t = choose|t: int| 0 <= t < nv.len() && nv[t] == x;
                            if t < p {
                                assert(ov[t] == x);
                            } else if t > p {
                                assert(ov[t - 1] == x);
                            }
                        }
                        if ov.contains(x) {
                            let t = choose|t: int| 0 <= t < ov.len() && ov[t] == x;
                            if t < p {
                                assert(nv[t] == x);
                            } else {
                                assert(nv[t + 1] == x);
                            }
                        }
                        if x == key@ {
                            assert(nv[p as int] == x);
                        }
                    }
                }
            }
        } else {
            proof {
                assert(ov[p as int] == key@);
                assert(ov.to_set().insert(key@) =~= ov.to_set());
            }
        }
        proof {
            let kv = crate::text::strs_view(keys@.take(i as int));
            assert(kv.push(key@).to_set() =~= kv.to_set().insert(key@)) by {
                assert forall|x: Seq<char>| kv.push(key@).to_set().contains(x) <==> kv.to_set().insert(key@).contains(x) by {
                    if kv.push(key@).contains(x) {
                        let t = choose|t: int| 0 <= t < kv.push(key@).len() && kv.push(key@)[t] == x;
                        if t < kv.len() {
                            assert(kv[t] == x);
                        }
                    }
                    if kv.contains(x) {
                        let t = choose|t: int| 0 <= t < kv.len() && kv[t] == x;
                        assert(kv.push(key@)[t] == x);
                    }
                    if x == key@ {
                        assert(kv.push(key@)[kv.len() as int] == x);
                    }
                }
            }
        }
        i += 1;
    }
    assert(keys@.take(keys.len() as int) =~= keys@);
    out
}

} // verus!
