//! Lexicographic order on names, and a stable insertion sort of a listing.

use vstd::prelude::*;
use crate::tree::Entry;

verus! {

/// `a` comes strictly before `b`, comparing character by character.
pub open spec fn lex_lt(a: Seq<char>, b: Seq<char>) -> bool
    decreases a.len(),
{
    if b.len() == 0 {
        false
    } else if a.len() == 0 {
        true
    } else if a[0] != b[0] {
        (a[0] as u32) < (b[0] as u32)
    } else {
        lex_lt(a.drop_first(), b.drop_first())
    }
}

/// `order` with the index `i` placed before the first index whose entry's
/// name comes after the name of entry `i`.
pub open spec fn insert_index(s: Seq<Entry>, i: int, order: Seq<int>) -> Seq<int>
    decreases order.len(),
{
    if order.len() == 0 {
        seq![i]
    } else if lex_lt(s[i].name@, s[order[0]].name@) {
        seq![i] + order
    } else {
        seq![order[0]] + insert_index(s, i, order.drop_first())
    }
}

/// The indices `0..n` of `s`, ordered by name; equal names keep their order.
pub open spec fn sort_order_upto(s: Seq<Entry>, n: int) -> Seq<int>
    decreases n,
{
    if n <= 0 {
        Seq::empty()
    } else {
        insert_index(s, n - 1, sort_order_upto(s, n - 1))
    }
}

/// The indices of `s`, ordered by the entries' names.
pub open spec fn sort_order(s: Seq<Entry>) -> Seq<int> {
    sort_order_upto(s, s.len() as int)
}

/// Whether `a` comes strictly before `b`.
pub fn name_lt(a: &str, b: &str) -> (r: bool)
    ensures
        r == lex_lt(a@, b@),
{
    let la = a.unicode_len();
    let lb = b.unicode_len();
    let mut i: usize = 0;
    assert(a@.skip(0) =~= a@);
    assert(b@.skip(0) =~= b@);
    while i < la && i < lb
        invariant
            la == a@.len(),
            lb == b@.len(),
            i <= la,
            i <= lb,
            lex_lt(a@, b@) == lex_lt(a@.skip(i as int), b@.skip(i as int)),
        decreases la - i,
    {
        let ca = a.get_char(i);
        let cb = b.get_char(i);
        assert(a@.skip(i as int)[0] == ca);
        assert(b@.skip(i as int)[0] == cb);
        if ca != cb {
            return (ca as u32) < (cb as u32);
        }
        assert(a@.skip(i as int).drop_first() =~= a@.skip(i + 1));
        assert(b@.skip(i as int).drop_first() =~= b@.skip(i + 1));
        i = i + 1;
    }
    assert(b@.skip(i as int).len() == lb - i);
    la < lb
}

/// Where `insert_index` puts its index: before the first index `p` whose
/// entry's name comes after that of entry `i`.
proof fn lemma_insert_index_at(s: Seq<Entry>, i: int, order: Seq<int>, p: int)
    requires
        0 <= p <= order.len(),
        forall|q: int| 0 <= q < p ==> !lex_lt(s[i].name@, #[trigger] s[order[q]].name@),
        p < order.len() ==> lex_lt(s[i].name@, s[order[p]].name@),
    ensures
        insert_index(s, i, order) == order.take(p) + seq![i] + order.skip(p),
    decreases order.len(),
{
    if order.len() == 0 {
        assert(order.take(p) + seq![i] + order.skip(p) =~= seq![i]);
    } else if p == 0 {
        assert(order.take(p) + seq![i] + order.skip(p) =~= seq![i] + order);
    } else {
        let rest = order.drop_first();
        assert forall|q: int| 0 <= q < p - 1 implies !lex_lt(s[i].name@, #[trigger] s[rest[q]].name@) by {
            assert(rest[q] == order[q + 1]);
        }
        if p < order.len() {
            assert(rest[p - 1] == order[p]);
        }
        assert(!lex_lt(s[i].name@, s[order[0]].name@));
        lemma_insert_index_at(s, i, rest, p - 1);
        assert(seq![order[0]] + (rest.take(p - 1) + seq![i] + rest.skip(p - 1))
            =~= order.take(p) + seq![i] + order.skip(p));
    }
}

/// `sort_order_upto(s, n)` holds `n` indices, each below `n`.
pub proof fn lemma_sort_order_bounds(s: Seq<Entry>, n: int)
    requires
        0 <= n,
    ensures
        sort_order_upto(s, n).len() == n,
        forall|k: int| 0 <= k < n ==> 0 <= #[trigger] sort_order_upto(s, n)[k] < n,
    decreases n,
{
    if n > 0 {
        lemma_sort_order_bounds(s, n - 1);
        lemma_insert_index_bounds(s, n - 1, sort_order_upto(s, n - 1));
    }
}

proof fn lemma_insert_index_bounds(s: Seq<Entry>, i: int, order: Seq<int>)
    ensures
        insert_index(s, i, order).len() == order.len() + 1,
        forall|k: int| 0 <= k < order.len() + 1 ==> (#[trigger] insert_index(s, i, order)[k] == i
            || order.contains(insert_index(s, i, order)[k])),
    decreases order.len(),
{
    if order.len() > 0 && !lex_lt(s[i].name@, s[order[0]].name@) {
        let rest = order.drop_first();
        lemma_insert_index_bounds(s, i, rest);
        assert forall|k: int| 0 <= k < order.len() + 1 implies (#[trigger] insert_index(s, i, order)[k] == i
            || order.contains(insert_index(s, i, order)[k])) by {
            if k > 0 {
                let x = insert_index(s, i, rest)[k - 1];
                if x != i {
                    let w = choose|w: int| 0 <= w < rest.len() && rest[w] == x;
                    assert(order[w + 1] == x);
                }
            } else {
                assert(order[0] == insert_index(s, i, order)[0]);
            }
        }
    } else if order.len() > 0 {
        assert forall|k: int| 0 <= k < order.len() + 1 implies (#[trigger] insert_index(s, i, order)[k] == i
            || order.contains(insert_index(s, i, order)[k])) by {
            if k > 0 {
                assert(insert_index(s, i, order)[k] == order[k - 1]);
            }
        }
    }
}

/// The indices in `order` name entries of `s` in order: no later one has a
/// name that comes before that of an earlier one.
pub open spec fn sorted_by_name(s: Seq<Entry>, order: Seq<int>) -> bool {
    forall|p: int, q: int|
        0 <= p < q < order.len() ==> !lex_lt(#[trigger] s[order[q]].name@, #[trigger] s[order[p]].name@)
}

/// No two names each come before the other.
pub proof fn lemma_lex_lt_asymmetric(a: Seq<char>, b: Seq<char>)
    ensures
        lex_lt(a, b) ==> !lex_lt(b, a),
    decreases a.len(),
{
    if a.len() > 0 && b.len() > 0 && a[0] == b[0] {
        lemma_lex_lt_asymmetric(a.drop_first(), b.drop_first());
    }
}

/// The order on names is transitive.
pub proof fn lemma_lex_lt_transitive(a: Seq<char>, b: Seq<char>, c: Seq<char>)
    requires
        lex_lt(a, b),
        lex_lt(b, c),
    ensures
        lex_lt(a, c),
    decreases a.len(),
{
    if a.len() > 0 && b.len() > 0 && c.len() > 0 && a[0] == b[0] && b[0] == c[0] {
        lemma_lex_lt_transitive(a.drop_first(), b.drop_first(), c.drop_first());
    }
}

proof fn lemma_insert_index_sorted(s: Seq<Entry>, i: int, order: Seq<int>)
    requires
        sorted_by_name(s, order),
    ensures
        sorted_by_name(s, insert_index(s, i, order)),
    decreases order.len(),
{
    let x = s[i].name@;
    if order.len() == 0 {
    } else if lex_lt(x, s[order[0]].name@) {
        let r = insert_index(s, i, order);
        assert forall|p: int, q: int| 0 <= p < q < r.len() implies
            !lex_lt(#[trigger] s[r[q]].name@, #[trigger] s[r[p]].name@) by {
            if p == 0 {
                let z = s[order[q - 1]].name@;
                lemma_lex_lt_asymmetric(x, s[order[0]].name@);
                if q - 1 > 0 && lex_lt(z, x) {
                    lemma_lex_lt_transitive(z, x, s[order[0]].name@);
                    assert(!lex_lt(s[order[q - 1]].name@, s[order[0]].name@));
                }
            } else {
                assert(r[p] == order[p - 1] && r[q] == order[q - 1]);
            }
        }
    } else {
        let rest = order.drop_first();
        assert forall|p: int, q: int| 0 <= p < q < rest.len() implies
            !lex_lt(#[trigger] s[rest[q]].name@, #[trigger] s[rest[p]].name@) by {
            assert(rest[p] == order[p + 1] && rest[q] == order[q + 1]);
        }
        lemma_insert_index_sorted(s, i, rest);
        lemma_insert_index_bounds(s, i, rest);
        let t = insert_index(s, i, rest);
        let r = insert_index(s, i, order);
        assert forall|p: int, q: int| 0 <= p < q < r.len() implies
            !lex_lt(#[trigger] s[r[q]].name@, #[trigger] s[r[p]].name@) by {
            if p == 0 {
                assert(r[q] == t[q - 1]);
                if t[q - 1] != i {
                    let w = choose|w: int| 0 <= w < rest.len() && rest[w] == t[q - 1];
                    assert(order[w + 1] == t[q - 1]);
                }
            } else {
                assert(r[p] == t[p - 1] && r[q] == t[q - 1]);
            }
        }
    }
}

/// Sorting a listing puts the entries in name order.
pub proof fn lemma_sort_order_sorted(s: Seq<Entry>, n: int)
    ensures
        sorted_by_name(s, sort_order_upto(s, n)),
    decreases n,
{
    if n > 0 {
        lemma_sort_order_sorted(s, n - 1);
        lemma_insert_index_sorted(s, n - 1, sort_order_upto(s, n - 1));
    }
}

/// The positions of the entries of `list`, ordered by name.
pub fn sort_order_of(list: &Vec<Entry>) -> (order: Vec<usize>)
    ensures
        order@.map_values(|x: usize| x as int) == sort_order(list@),
{
    let n = list.len();
    let mut order: Vec<usize> = Vec::new();
    let mut i: usize = 0;
    while i < n
        invariant
            n == list@.len(),
            i <= n,
            order@.map_values(|x: usize| x as int) == sort_order_upto(list@, i as int),
        decreases n - i,
    {
        proof {
            lemma_sort_order_bounds(list@, i as int);
        }
        assert(order@.len() == i);
        let mut p: usize = 0;
        let mut found = false;
        while p < order.len() && !found
            invariant
                n == list@.len(),
                i < n,
                order@.len() == i,
                p <= i,
                order@.map_values(|x: usize| x as int) == sort_order_upto(list@, i as int),
                forall|k: int| 0 <= k < i ==> 0 <= #[trigger] sort_order_upto(list@, i as int)[k] < i,
                forall|q: int| 0 <= q < p ==> !lex_lt(list@[i as int].name@, #[trigger] list@[order@[q] as int].name@),
                found ==> p < i && lex_lt(list@[i as int].name@, list@[order@[p as int] as int].name@),
            decreases i - p + (if found { 0int } else { 1 }),
        {
            assert(order@[p as int] as int == sort_order_upto(list@, i as int)[p as int]);
            let j = order[p];
            if name_lt(list[i].name.as_str(), list[j].name.as_str()) {
                found = true;
            } else {
                p = p + 1;
            }
        }
        let ghost prev = order@.map_values(|x: usize| x as int);
        proof {
            assert forall|q: int| 0 <= q < p implies !lex_lt(list@[i as int].name@, #[trigger] list@[prev[q]].name@) by {
                assert(prev[q] == order@[q] as int);
            }
            if p < prev.len() {
                assert(prev[p as int] == order@[p as int] as int);
            }
            lemma_insert_index_at(list@, i as int, prev, p as int);
        }
        order.insert(p, i);
        assert(order@.map_values(|x: usize| x as int) =~= prev.take(p as int) + seq![i as int] + prev.skip(p as int));
        i = i + 1;
    }
    order
}

} // verus!
