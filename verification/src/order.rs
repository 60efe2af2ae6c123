//! Ordering of listings: by a numeric key, and by name.
use vstd::prelude::*;
use crate::text::chars_of;

verus! {

broadcast use vstd::seq_lib::group_to_multiset_ensures;

/// Keys ascend along `s`.
pub open spec fn keys_ascending<T>(s: Seq<(u128, T)>) -> bool {
    forall|a: int, b: int| 0 <= a < b < s.len() ==> s[a].0 <= s[b].0
}

/// Whether an entry has key `k`.
pub open spec fn key_is<T>(k: u128) -> spec_fn((u128, T)) -> bool {
    |e: (u128, T)| e.0 == k
}

/// The entries of `s` with key `k`, in their order along `s`.
pub open spec fn with_key<T>(s: Seq<(u128, T)>, k: u128) -> Seq<(u128, T)> {
    s.filter(key_is(k))
}

/// Inserting an entry before entries with larger keys only (and after all
/// others) appends it to the entries with its key.
proof fn lemma_insert_with_key<T>(s: Seq<(u128, T)>, pos: int, item: (u128, T), k: u128)
    requires
        0 <= pos <= s.len(),
        forall|j: int| pos <= j < s.len() ==> #[trigger] s[j].0 > item.0,
    ensures
        with_key(s.insert(pos, item), k) == if item.0 == k {
            with_key(s, k).push(item)
        } else {
            with_key(s, k)
        },
{
    let p = key_is::<T>(k);
    let a = s.take(pos);
    let b = s.skip(pos);
    let one = Seq::<(u128, T)>::empty().push(item);
    let t = s.insert(pos, item);
    assert(t =~= a + one + b);
    assert(s =~= a + b);
    Seq::filter_distributes_over_add(a + one, b, p);
    Seq::filter_distributes_over_add(a, one, p);
    Seq::filter_distributes_over_add(a, b, p);
    Seq::<(u128, T)>::empty().lemma_filter_push(item, p);
    assert(Seq::<(u128, T)>::empty().filter(p) =~= Seq::<(u128, T)>::empty()) by {
        reveal(Seq::filter);
    }
    assert(t.filter(p) == a.filter(p) + one.filter(p) + b.filter(p));
    assert(s.filter(p) == a.filter(p) + b.filter(p));
    if item.0 == k {
        assert(one.filter(p) =~= one);
        assert(b.all(|x: (u128, T)| !p(x))) by {
            assert forall|j: int| 0 <= j < b.len() implies !p(#[trigger] b[j]) by {
                assert(b[j] == s[pos + j]);
            }
        }
        b.lemma_all_neg_filter_empty(p);
        assert(b.filter(p) =~= Seq::<(u128, T)>::empty());
        assert(a.filter(p) + one + Seq::<(u128, T)>::empty() =~= (a.filter(p)
            + Seq::<(u128, T)>::empty()).push(item));
    } else {
        assert(one.filter(p) =~= Seq::<(u128, T)>::empty());
        assert(a.filter(p) + Seq::<(u128, T)>::empty() + b.filter(p) =~= a.filter(p) + b.filter(
            p,
        ));
    }
}

/// Sorts entries by their key, smallest first; entries with equal keys keep
/// their order (`sort_by_key`).
pub fn sort_by_key<T>(items: Vec<(u128, T)>) -> (res: Vec<(u128, T)>)
    ensures
        res@.to_multiset() == items@.to_multiset(),
        keys_ascending(res@),
        forall|k: u128| #[trigger] with_key(res@, k) == with_key(items@, k),
{
    let mut res: Vec<(u128, T)> = Vec::new();
    let mut rest = items;
    let ghost given = rest@;
    let ghost mut done: int = 0;
    proof {
        assert forall|j: u128| #[trigger] with_key(res@, j) == with_key(given.take(0), j) by {
            assert(given.take(0) =~= res@);
        }
    }
    while rest.len() > 0
        invariant
            res@.to_multiset().add(rest@.to_multiset()) == given.to_multiset(),
            keys_ascending(res@),
            0 <= done <= given.len(),
            rest@ == given.skip(done),
            forall|j: u128| #[trigger] with_key(res@, j) == with_key(given.take(done), j),
        decreases rest.len(),
    {
        let ghost rest_before = rest@;
        let item = rest.remove(0);
        proof {
            assert(rest_before =~= rest@.insert(0, item));
            vstd::seq_lib::to_multiset_insert(rest@, 0, item);
            assert(item == given[done]);
            assert(rest@ =~= given.skip(done + 1));
            assert(given.take(done + 1) =~= given.take(done).push(item));
        }
        let k = item.0;
        let mut pos = res.len();
        while pos > 0 && res[pos - 1].0 > k
            invariant
                pos <= res.len(),
                forall|j: int| pos <= j < res.len() ==> res@[j].0 > k,
            decreases pos,
        {
            pos = pos - 1;
        }
        let ghost res_before = res@;
        res.insert(pos, item);
        proof {
            assert(res@ == res_before.insert(pos as int, item));
            assert forall|a: int, b: int| 0 <= a < b < res@.len() implies res@[a].0 <= res@[
                b
            ].0 by {
                if b < pos {
                    assert(res@[a] == res_before[a] && res@[b] == res_before[b]);
                } else if b == pos {
                    assert(res@[a] == res_before[a]);
                    if pos > 0 {
                        assert(res_before[pos - 1].0 <= k);
                        assert(res_before[a].0 <= res_before[pos - 1].0);
                    }
                } else if a == pos {
                    assert(res@[b] == res_before[b - 1]);
                } else if a < pos {
                    assert(res@[a] == res_before[a] && res@[b] == res_before[b - 1]);
                } else {
                    assert(res@[a] == res_before[a - 1] && res@[b] == res_before[b - 1]);
                }
            }
            vstd::seq_lib::to_multiset_insert(res_before, pos as int, item);
            assert forall|j: u128| #[trigger] with_key(res@, j) == with_key(
                given.take(done + 1),
                j,
            ) by {
                lemma_insert_with_key(res_before, pos as int, item, j);
                given.take(done).lemma_filter_push(item, key_is::<T>(j));
            }
            done = done + 1;
        }
    }
    proof {
        assert(given.take(done) =~= given);
    }
    res
}

/// `a` comes strictly before `b` in lexicographic (code point) order.
pub open spec fn lex_lt(a: Seq<char>, b: Seq<char>) -> bool
    decreases a.len(),
{
    if a.len() == 0 {
        b.len() > 0
    } else if b.len() == 0 {
        false
    } else if a[0] != b[0] {
        a[0] < b[0]
    } else {
        lex_lt(a.drop_first(), b.drop_first())
    }
}

/// Names descend along `s`.
pub open spec fn names_descending(s: Seq<String>) -> bool {
    forall|i: int| 0 <= i < s.len() - 1 ==> !lex_lt(#[trigger] s[i]@, s[i + 1]@)
}

proof fn lemma_lex_total(a: Seq<char>, b: Seq<char>)
    ensures
        !lex_lt(a, b) ==> (lex_lt(b, a) || a == b),
    decreases a.len(),
{
    if a.len() > 0 && b.len() > 0 && a[0] == b[0] {
        lemma_lex_total(a.drop_first(), b.drop_first());
        if a.drop_first() == b.drop_first() {
            assert(a =~= seq![a[0]] + a.drop_first());
            assert(b =~= seq![b[0]] + b.drop_first());
        }
    } else if a.len() > 0 && b.len() > 0 {
    } else if a.len() == 0 && b.len() == 0 {
        assert(a =~= b);
    }
}

/// Whether `a` comes strictly before `b` (`a < b` on strings).
pub fn less_than(a: &str, b: &str) -> (r: bool)
    ensures
        r == lex_lt(a@, b@),
{
    let x = chars_of(a);
    let y = chars_of(b);
    let mut i: usize = 0;
    assert(x@.skip(0) =~= x@);
    assert(y@.skip(0) =~= y@);
    while i < x.len() && i < y.len() && x[i] == y[i]
        invariant
            i <= x.len(),
            i <= y.len(),
            x@ == a@,
            y@ == b@,
            lex_lt(a@, b@) == lex_lt(x@.skip(i as int), y@.skip(i as int)),
        decreases x.len() - i,
    {
        proof {
            assert(x@.skip(i as int).drop_first() =~= x@.skip(i + 1));
            assert(y@.skip(i as int).drop_first() =~= y@.skip(i + 1));
        }
        i = i + 1;
    }
    proof {
        if i < x.len() && i < y.len() {
            assert(x@.skip(i as int)[0] == x@[i as int]);
            assert(y@.skip(i as int)[0] == y@[i as int]);
        }
    }
    if i == x.len() {
        i < y.len()
    } else if i == y.len() {
        false
    } else {
        x[i] < y[i]
    }
}

/// Sorts names from last to first in lexicographic order (`sort_by_key` with
/// `Reverse`).
pub fn sort_names_descending(names: Vec<String>) -> (res: Vec<String>)
    ensures
        res@.to_multiset() == names@.to_multiset(),
        names_descending(res@),
{
    let mut res: Vec<String> = Vec::new();
    let mut rest = names;
    let ghost given = rest@;
    while rest.len() > 0
        invariant
            res@.to_multiset().add(rest@.to_multiset()) == given.to_multiset(),
            names_descending(res@),
        decreases rest.len(),
    {
        let ghost rest_before = rest@;
        let item = rest.remove(0);
        proof {
            assert(rest_before =~= rest@.insert(0, item));
            vstd::seq_lib::to_multiset_insert(rest@, 0, item);
        }
        let mut pos = res.len();
        while pos > 0 && less_than(res[pos - 1].as_str(), item.as_str())
            invariant
                pos <= res.len(),
                pos < res.len() ==> lex_lt(res@[pos as int]@, item@),
            decreases pos,
        {
            pos = pos - 1;
        }
        proof {
            if pos > 0 {
                lemma_lex_total(res@[pos - 1]@, item@);
            }
        }
        let ghost res_before = res@;
        res.insert(pos, item);
        proof {
            assert(res@ == res_before.insert(pos as int, item));
            assert forall|i: int| 0 <= i < res@.len() - 1 implies !lex_lt(
                #[trigger] res@[i]@,
                res@[i + 1]@,
            ) by {
                if i + 1 < pos {
                    assert(res@[i] == res_before[i] && res@[i + 1] == res_before[i + 1]);
                } else if i + 1 == pos {
                    assert(res@[i] == res_before[i]);
                    if lex_lt(res_before[i]@, item@) {
                        lemma_lex_asym(res_before[i]@, item@);
                    }
                } else if i == pos {
                    assert(res@[i + 1] == res_before[i]);
                    lemma_lex_asym(res_before[i]@, item@);
                } else {
                    assert(res@[i] == res_before[i - 1] && res@[i + 1] == res_before[i]);
                }
            }
            vstd::seq_lib::to_multiset_insert(res_before, pos as int, item);
        }
    }
    res
}

proof fn lemma_lex_asym(a: Seq<char>, b: Seq<char>)
    ensures
        lex_lt(a, b) ==> !lex_lt(b, a),
        !lex_lt(a, a),
    decreases a.len(),
{
    if a.len() > 0 && b.len() > 0 && a[0] == b[0] {
        lemma_lex_asym(a.drop_first(), b.drop_first());
    }
    if a.len() > 0 {
        lemma_lex_asym(a.drop_first(), a.drop_first());
    }
}

} // verus!
