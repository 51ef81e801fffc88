//! Ordering strings as `String`'s `Ord` does (by code point, which is the order of their
//! UTF-8 bytes), and a stable sort of keyed items by that order.
use vstd::prelude::*;
use crate::text::chars_of;

verus! {

/// `a` comes before `b` or equals it, comparing code points from the left; a prefix comes
/// first.
pub open spec fn lex_le(a: Seq<char>, b: Seq<char>) -> bool
    decreases a.len(),
{
    if a.len() == 0 {
        true
    } else if b.len() == 0 {
        false
    } else if a[0] < b[0] {
        true
    } else if a[0] > b[0] {
        false
    } else {
        lex_le(a.drop_first(), b.drop_first())
    }
}

pub proof fn lemma_lex_total(a: Seq<char>, b: Seq<char>)
    ensures
        lex_le(a, b) || lex_le(b, a),
    decreases a.len(),
{
    if a.len() > 0 && b.len() > 0 && a[0] == b[0] {
        lemma_lex_total(a.drop_first(), b.drop_first());
    }
}

pub proof fn lemma_lex_trans(a: Seq<char>, b: Seq<char>, c: Seq<char>)
    requires
        lex_le(a, b),
        lex_le(b, c),
    ensures
        lex_le(a, c),
    decreases a.len(),
{
    if a.len() > 0 && b.len() > 0 && c.len() > 0 && a[0] == b[0] && b[0] == c[0] {
        lemma_lex_trans(a.drop_first(), b.drop_first(), c.drop_first());
    }
}

pub proof fn lemma_lex_antisym(a: Seq<char>, b: Seq<char>)
    requires
        lex_le(a, b),
        lex_le(b, a),
    ensures
        a == b,
    decreases a.len(),
{
    if a.len() > 0 && b.len() > 0 {
        lemma_lex_antisym(a.drop_first(), b.drop_first());
        assert(a[0] == b[0]);
        assert(a =~= seq![a[0]] + a.drop_first());
        assert(b =~= seq![b[0]] + b.drop_first());
    } else {
        assert(a =~= b);
    }
}

/// Whether `a` comes before `b` or equals it (see `lex_le`).
pub fn chars_le(a: &Vec<char>, b: &Vec<char>) -> (r: bool)
    ensures
        r == lex_le(a@, b@),
{
    let mut i: usize = 0;
    assert(a@.skip(0) =~= a@);
    assert(b@.skip(0) =~= b@);
    assert(a@.take(0) =~= b@.take(0));
    while i < a.len() && i < b.len()
        invariant
            i <= a.len(),
            i <= b.len(),
            lex_le(a@, b@) == lex_le(a@.skip(i as int), b@.skip(i as int)),
        decreases a.len() - i,
    {
        let x = a[i];
        let y = b[i];
        let ghost sa = a@.skip(i as int);
        let ghost sb = b@.skip(i as int);
        assert(sa[0] == x && sb[0] == y);
        if x < y {
            return true;
        }
        if x > y {
            return false;
        }
        assert(sa.drop_first() =~= a@.skip(i + 1));
        assert(sb.drop_first() =~= b@.skip(i + 1));
        assert(x == y);
        i = i + 1;
    }
    proof {
        if i == a.len() {
            assert(a@.skip(i as int).len() == 0);
        } else {
            assert(b@.skip(i as int).len() == 0);
        }
    }
    i == a.len()
}

/// Whether `a` comes before `b` or equals it (see `lex_le`).
pub fn str_le(a: &str, b: &str) -> (r: bool)
    ensures
        r == lex_le(a@, b@),
{
    chars_le(&chars_of(a), &chars_of(b))
}

/// The keys come in order.
pub open spec fn keys_sorted<T>(s: Seq<(String, T)>) -> bool {
    forall|i: int, j: int| 0 <= i < j < s.len() ==> lex_le(#[trigger] s[i].0@, #[trigger] s[j].0@)
}

/// The items sorted by key. Items with equal keys keep their order; what the contract
/// states is that the result is in order and holds the same items.
pub fn sort_by_key<T>(items: Vec<(String, T)>) -> (r: Vec<(String, T)>)
    ensures
        keys_sorted(r@),
        r@.to_multiset() == items@.to_multiset(),
        r@.len() == items@.len(),
{
    broadcast use vstd::seq_lib::to_multiset_insert;

    let ghost orig = items@;
    let mut out: Vec<(String, T)> = Vec::new();
    let mut rest = items;
    let mut i: usize = 0;
    assert(orig.take(0) =~= Seq::<(String, T)>::empty());
    assert(orig.skip(0) =~= orig);
    assert(rest.len() <= usize::MAX);
    while rest.len() > 0
        invariant
            i <= orig.len(),
            orig.len() <= usize::MAX,
            rest@ == orig.skip(i as int),
            keys_sorted(out@),
            out@.to_multiset() == orig.take(i as int).to_multiset(),
            out@.len() == i,
        decreases rest.len(),
    {
        let item = rest.remove(0);
        assert(item == orig[i as int]);
        let key = chars_of(item.0.as_str());
        let mut p: usize = 0;
        while p < out.len() && chars_le(&chars_of(out[p].0.as_str()), &key)
            invariant
                p <= out.len(),
                key@ == item.0@,
                forall|q: int| 0 <= q < p ==> lex_le(#[trigger] out@[q].0@, item.0@),
            decreases out.len() - p,
        {
            p = p + 1;
        }
        let ghost before = out@;
        proof {
            if p < before.len() {
                lemma_lex_total(before[p as int].0@, item.0@);
                assert(lex_le(item.0@, before[p as int].0@));
            }
            assert forall|q: int| p <= q < before.len() implies lex_le(
                item.0@,
                #[trigger] before[q].0@,
            ) by {
                if q > p {
                    assert(lex_le(before[p as int].0@, before[q].0@));
                    lemma_lex_trans(item.0@, before[p as int].0@, before[q].0@);
                }
            }
        }
        out.insert(p, item);
        proof {
            let s = out@;
            assert(s == before.insert(p as int, item));
            assert forall|a: int, b: int| 0 <= a < b < s.len() implies lex_le(
                #[trigger] s[a].0@,
                #[trigger] s[b].0@,
            ) by {
                if a < p && b < p {
                    assert(s[a] == before[a] && s[b] == before[b]);
                } else if a < p && b == p {
                    assert(s[a] == before[a]);
                } else if a < p {
                    assert(s[a] == before[a] && s[b] == before[b - 1]);
                    assert(lex_le(before[a].0@, item.0@));
                    assert(lex_le(item.0@, before[b - 1].0@));
                    lemma_lex_trans(before[a].0@, item.0@, before[b - 1].0@);
                } else if a == p {
                    assert(s[b] == before[b - 1]);
                } else {
                    assert(s[a] == before[a - 1] && s[b] == before[b - 1]);
                }
            }
            assert(orig.take(i + 1) =~= orig.take(i as int).push(orig[i as int]));
            vstd::seq_lib::to_multiset_build(orig.take(i as int), orig[i as int]);
            vstd::seq_lib::to_multiset_insert(before, p as int, item);
        }
        i = i + 1;
        assert(rest@ =~= orig.skip(i as int));
    }
    assert(orig.take(i as int) =~= orig);
    out
}

} // verus!
