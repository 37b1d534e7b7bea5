//! Sorting by a text key, ties keeping their order.

use vstd::prelude::*;
use crate::text::{comes_no_later, lex_le};
use crate::text::{
    lemma_lex_antisymmetric, lemma_lex_reflexive, lemma_lex_total, lemma_lex_transitive,
};
use vstd::set_lib::{lemma_int_range, lemma_subset_equality, set_int_range};

verus! {

/// In a list sorted by key, the item at position `a` of the unsorted list
/// stands before the one at position `b`: its key comes first in dictionary
/// order, or the keys are the same and `a` came first.
pub open spec fn goes_before(keys: Seq<Seq<char>>, a: int, b: int) -> bool {
    if keys[a] == keys[b] {
        a < b
    } else {
        lex_le(keys[a], keys[b])
    }
}

/// `order` holds each of the positions from `lo` up to `hi` once.
pub open spec fn lists_range(order: Seq<usize>, lo: int, hi: int) -> bool {
    &&& order.len() == hi - lo
    &&& forall|i: int| 0 <= i < order.len() ==> lo <= #[trigger] order[i] < hi
    &&& forall|i: int, j: int|
        0 <= i < j < order.len() ==> #[trigger] order[i] != #[trigger] order[j]
}

/// The positions in `order` stand as sorting by key puts them.
pub open spec fn in_order(keys: Seq<Seq<char>>, order: Seq<usize>) -> bool {
    forall|i: int, j: int|
        0 <= i < j < order.len() ==> goes_before(
            keys,
            #[trigger] order[i] as int,
            #[trigger] order[j] as int,
        )
}

/// `order` is the stable sort of the positions of `keys`: every position
/// once, by ascending key, equal keys in the order in which they came.
pub open spec fn is_stable_order(keys: Seq<Seq<char>>, order: Seq<usize>) -> bool {
    lists_range(order, 0, keys.len() as int) && in_order(keys, order)
}

/// The keys of a list of texts.
pub open spec fn texts(keys: Seq<Vec<char>>) -> Seq<Seq<char>> {
    Seq::new(keys.len(), |i: int| keys[i]@)
}

proof fn lemma_before_means_no_later(keys: Seq<Seq<char>>, a: int, b: int)
    requires
        goes_before(keys, a, b) || a == b,
    ensures
        lex_le(keys[a], keys[b]),
{
    lemma_lex_reflexive(keys[a]);
}

fn merge(
    keys: &Vec<Vec<char>>,
    left: &Vec<usize>,
    right: &Vec<usize>,
    lo: usize,
    mid: usize,
    hi: usize,
) -> (out: Vec<usize>)
    requires
        lo <= mid <= hi <= keys.len(),
        lists_range(left@, lo as int, mid as int),
        lists_range(right@, mid as int, hi as int),
        in_order(texts(keys@), left@),
        in_order(texts(keys@), right@),
    ensures
        lists_range(out@, lo as int, hi as int),
        in_order(texts(keys@), out@),
{
    let ghost k = texts(keys@);
    let mut out: Vec<usize> = Vec::new();
    let mut i: usize = 0;
    let mut j: usize = 0;
    while i < left.len() || j < right.len()
        invariant
            k == texts(keys@),
            lo <= mid <= hi <= keys.len(),
            lists_range(left@, lo as int, mid as int),
            lists_range(right@, mid as int, hi as int),
            in_order(k, left@),
            in_order(k, right@),
            i <= left.len(),
            j <= right.len(),
            out.len() == i + j,
            forall|x: int| 0 <= x < out.len() ==> lo <= #[trigger] out[x] < hi,
            forall|x: int, y: int|
                0 <= x < y < out.len() ==> #[trigger] out[x] != #[trigger] out[y],
            forall|x: int, p: int|
                0 <= x < out.len() && i <= p < left.len() ==> #[trigger] out[x] != #[trigger] left[p]
                    && goes_before(k, out[x] as int, left[p] as int),
            forall|x: int, q: int|
                0 <= x < out.len() && j <= q < right.len() ==> #[trigger] out[x]
                    != #[trigger] right[q] && goes_before(k, out[x] as int, right[q] as int),
            in_order(k, out@),
        decreases left.len() - i + (right.len() - j),
    {
        let ghost before = out@;
        let take_left = if j >= right.len() {
            true
        } else if i >= left.len() {
            false
        } else {
            comes_no_later(&keys[left[i]], &keys[right[j]])
        };
        if take_left {
            let e = left[i];
            proof {
                assert forall|p: int| i < p < left.len() implies e != #[trigger] left[p]
                    && goes_before(k, e as int, left[p] as int) by {}
                assert forall|q: int| j <= q < right.len() implies e != #[trigger] right[q]
                    && goes_before(k, e as int, right[q] as int) by {
                    lemma_before_means_no_later(k, right[j as int] as int, right[q] as int);
                    let next = right[j as int] as int;
                    lemma_lex_transitive(k[e as int], k[next], k[right[q] as int]);
                }
            }
            out.push(e);
            i = i + 1;
        } else {
            let e = right[j];
            proof {
                assert forall|q: int| j < q < right.len() implies e != #[trigger] right[q]
                    && goes_before(k, e as int, right[q] as int) by {}
                assert forall|p: int| i <= p < left.len() implies e != #[trigger] left[p]
                    && goes_before(k, e as int, left[p] as int) by {
                    let first = left[i as int] as int;
                    lemma_before_means_no_later(k, first, left[p] as int);
                    lemma_lex_total(k[first], k[e as int]);
                    if k[e as int] == k[left[p] as int] {
                        assert(lex_le(k[first], k[e as int]));
                    }
                    lemma_lex_transitive(k[e as int], k[first], k[left[p] as int]);
                }
            }
            out.push(e);
            j = j + 1;
        }
        assert forall|x: int, y: int| 0 <= x < y < out.len() implies goes_before(
            k,
            #[trigger] out[x] as int,
            #[trigger] out[y] as int,
        ) by {
            if y < before.len() {
                assert(out[x] == before[x] && out[y] == before[y]);
            } else {
                assert(out[x] == before[x]);
            }
        }
    }
    out
}

fn sort_range(keys: &Vec<Vec<char>>, lo: usize, hi: usize) -> (order: Vec<usize>)
    requires
        lo <= hi <= keys.len(),
    ensures
        lists_range(order@, lo as int, hi as int),
        in_order(texts(keys@), order@),
    decreases hi - lo,
{
    if hi - lo < 2 {
        let mut order: Vec<usize> = Vec::new();
        if hi - lo == 1 {
            order.push(lo);
        }
        order
    } else {
        let mid = lo + (hi - lo) / 2;
        let left = sort_range(keys, lo, mid);
        let right = sort_range(keys, mid, hi);
        merge(keys, &left, &right, lo, mid, hi)
    }
}

/// The order in which a stable sort by key puts the items of a list:
/// `order[i]` is the position in the list of the item that comes `i`-th.
pub fn stable_order(keys: &Vec<Vec<char>>) -> (order: Vec<usize>)
    ensures
        is_stable_order(texts(keys@), order@),
{
    sort_range(keys, 0, keys.len())
}

proof fn lemma_every_position_listed(order: Seq<usize>, n: nat, v: int)
    requires
        lists_range(order, 0, n as int),
        0 <= v < n,
    ensures
        exists|i: int| 0 <= i < n && order[i] == v,
{
    let positions = order.map_values(|x: usize| x as int);
    assert(positions.no_duplicates()) by {
        assert forall|i: int, j: int|
            0 <= i < positions.len() && 0 <= j < positions.len() && i != j implies positions[i]
            != positions[j] by {
            if i < j {
                assert(order[i] != order[j]);
            } else {
                assert(order[j] != order[i]);
            }
        }
    }
    positions.unique_seq_to_set();
    vstd::seq_lib::seq_to_set_is_finite(positions);
    lemma_int_range(0, n as int);
    assert(positions.to_set().subset_of(set_int_range(0, n as int))) by {
        assert forall|a: int| positions.to_set().contains(a) implies set_int_range(
            0,
            n as int,
        ).contains(a) by {
            let i = choose|i: int| 0 <= i < positions.len() && positions[i] == a;
            assert(order[i] == a);
        }
    }
    lemma_subset_equality(positions.to_set(), set_int_range(0, n as int));
    assert(set_int_range(0, n as int).contains(v));
    assert(positions.contains(v));
    let i = choose|i: int| 0 <= i < positions.len() && positions[i] == v;
    assert(order[i] == v);
}

proof fn lemma_never_both_before(keys: Seq<Seq<char>>, a: int, b: int)
    requires
        goes_before(keys, a, b),
    ensures
        !goes_before(keys, b, a),
{
    if keys[a] != keys[b] && lex_le(keys[b], keys[a]) {
        lemma_lex_antisymmetric(keys[a], keys[b]);
    }
}

proof fn lemma_orders_agree_up_to(keys: Seq<Seq<char>>, a: Seq<usize>, b: Seq<usize>, upto: int)
    requires
        is_stable_order(keys, a),
        is_stable_order(keys, b),
        0 <= upto <= keys.len(),
    ensures
        forall|i: int| 0 <= i < upto ==> a[i] == b[i],
    decreases upto,
{
    if upto > 0 {
        let i = upto - 1;
        lemma_orders_agree_up_to(keys, a, b, i);
        let v = a[i] as int;
        let w = b[i] as int;
        if v != w {
            lemma_every_position_listed(b, keys.len(), v);
            let p = choose|p: int| 0 <= p < keys.len() && b[p] == v;
            lemma_every_position_listed(a, keys.len(), w);
            let q = choose|q: int| 0 <= q < keys.len() && a[q] == w;
            if p < i {
                assert(a[p] == b[p]);
                assert(a[p] != a[i]);
            }
            if q < i {
                assert(a[q] == b[q]);
                assert(b[q] != b[i]);
            }
            assert(goes_before(keys, b[i] as int, b[p] as int));
            assert(goes_before(keys, a[i] as int, a[q] as int));
            lemma_never_both_before(keys, v, w);
        }
    }
}

/// There is one stable order of a list of keys, and no other.
pub proof fn lemma_stable_order_is_unique(keys: Seq<Seq<char>>, a: Seq<usize>, b: Seq<usize>)
    requires
        is_stable_order(keys, a),
        is_stable_order(keys, b),
    ensures
        a == b,
{
    lemma_orders_agree_up_to(keys, a, b, keys.len() as int);
    assert(a =~= b);
}

} // verus!
