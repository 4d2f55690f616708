//! Merging two price-sorted level sequences into one unified ladder.
//!
//! Each side of the book is merged separately: asks ascend by price, bids
//! descend. The merge is the classic two-way merge with a left bias: on equal
//! prices the first source's level is emitted first. The public entry points
//! defensively re-sort each input first (out-of-order upstream data is
//! tolerated rather than trusted), so the resulting ladder is always sorted
//! in the side's direction; when the inputs already are sorted, the output is
//! exactly the two-way merge of the translated inputs, order preserved.

use vstd::prelude::*;
use vstd::seq_lib::lemma_multiset_commutative;
use vstd::multiset::Multiset;
use crate::decimal::Decimal;
use crate::types::{CoinbaseOrder, GeminiOrder, OrderBook, level_of_coinbase, level_of_gemini};

verus! {

/// Price order for one side of the book: `x` may precede `y`.
/// Ascending (asks) compares with `<=`, descending (bids) with `>=`.
pub open spec fn price_le(asc: bool, x: Decimal, y: Decimal) -> bool {
    if asc {
        x.units <= y.units
    } else {
        x.units >= y.units
    }
}

/// The sequence of levels is sorted in the side's direction.
pub open spec fn sorted_dir(s: Seq<OrderBook>, asc: bool) -> bool {
    forall|i: int, j: int| 0 <= i < j < s.len() ==> price_le(asc, s[i].price, s[j].price)
}

/// The two-way merge of two level sequences, with a left bias on ties:
/// whenever both heads may precede each other (equal prices), the left
/// sequence's head is emitted first.
pub open spec fn merge_spec(a: Seq<OrderBook>, b: Seq<OrderBook>, asc: bool) -> Seq<OrderBook>
    decreases a.len() + b.len(),
{
    if a.len() == 0 {
        b
    } else if b.len() == 0 {
        a
    } else if price_le(asc, a[0].price, b[0].price) {
        seq![a[0]] + merge_spec(a.drop_first(), b, asc)
    } else {
        seq![b[0]] + merge_spec(a, b.drop_first(), asc)
    }
}

/// The unified levels a sequence of first-source records translates to.
pub open spec fn coinbase_levels(s: Seq<CoinbaseOrder>) -> Seq<OrderBook> {
    s.map_values(|o: CoinbaseOrder| level_of_coinbase(o))
}

/// The unified levels a sequence of second-source records translates to.
pub open spec fn gemini_levels(s: Seq<GeminiOrder>) -> Seq<OrderBook> {
    s.map_values(|o: GeminiOrder| level_of_gemini(o))
}

/// Merge completeness, counting part: the merge of two sequences has exactly
/// as many levels as the two inputs together; none is dropped or coalesced.
pub proof fn lemma_merge_spec_len(a: Seq<OrderBook>, b: Seq<OrderBook>, asc: bool)
    ensures
        merge_spec(a, b, asc).len() == a.len() + b.len(),
    decreases a.len() + b.len(),
{
    if a.len() == 0 {
    } else if b.len() == 0 {
    } else if price_le(asc, a[0].price, b[0].price) {
        lemma_merge_spec_len(a.drop_first(), b, asc);
    } else {
        lemma_merge_spec_len(a, b.drop_first(), asc);
    }
}

/// Merge completeness, content part: every input level appears in the output
/// exactly as often as in the inputs together, and nothing else appears.
pub proof fn lemma_merge_spec_multiset(a: Seq<OrderBook>, b: Seq<OrderBook>, asc: bool)
    ensures
        merge_spec(a, b, asc).to_multiset() == a.to_multiset().add(b.to_multiset()),
    decreases a.len() + b.len(),
{
    broadcast use vstd::seq_lib::group_to_multiset_ensures;
    broadcast use vstd::multiset::group_multiset_axioms;

    if a.len() == 0 {
        assert(a.to_multiset() =~= Multiset::<OrderBook>::empty());
        assert(merge_spec(a, b, asc).to_multiset() =~= a.to_multiset().add(b.to_multiset()));
    } else if b.len() == 0 {
        assert(b.to_multiset() =~= Multiset::<OrderBook>::empty());
        assert(merge_spec(a, b, asc).to_multiset() =~= a.to_multiset().add(b.to_multiset()));
    } else if price_le(asc, a[0].price, b[0].price) {
        let rest = merge_spec(a.drop_first(), b, asc);
        lemma_merge_spec_multiset(a.drop_first(), b, asc);
        lemma_multiset_commutative(seq![a[0]], rest);
        assert(seq![a[0]] =~= Seq::<OrderBook>::empty().push(a[0]));
        assert(Seq::<OrderBook>::empty().to_multiset() =~= Multiset::<OrderBook>::empty());
        assert(a =~= a.drop_first().insert(0, a[0]));
        vstd::seq_lib::to_multiset_insert(a.drop_first(), 0, a[0]);
        assert(merge_spec(a, b, asc).to_multiset() =~= a.to_multiset().add(b.to_multiset()));
    } else {
        let rest = merge_spec(a, b.drop_first(), asc);
        lemma_merge_spec_multiset(a, b.drop_first(), asc);
        lemma_multiset_commutative(seq![b[0]], rest);
        assert(seq![b[0]] =~= Seq::<OrderBook>::empty().push(b[0]));
        assert(Seq::<OrderBook>::empty().to_multiset() =~= Multiset::<OrderBook>::empty());
        assert(b =~= b.drop_first().insert(0, b[0]));
        vstd::seq_lib::to_multiset_insert(b.drop_first(), 0, b[0]);
        assert(merge_spec(a, b, asc).to_multiset() =~= a.to_multiset().add(b.to_multiset()));
    }
}

/// Merge ordering: merging two sequences that are sorted in the side's
/// direction yields a sequence sorted in that direction.
pub proof fn lemma_merge_spec_sorted(a: Seq<OrderBook>, b: Seq<OrderBook>, asc: bool)
    requires
        sorted_dir(a, asc),
        sorted_dir(b, asc),
    ensures
        sorted_dir(merge_spec(a, b, asc), asc),
    decreases a.len() + b.len(),
{
    broadcast use vstd::seq_lib::group_to_multiset_ensures;
    broadcast use vstd::multiset::group_multiset_axioms;

    if a.len() == 0 {
    } else if b.len() == 0 {
    } else if price_le(asc, a[0].price, b[0].price) {
        let rest = merge_spec(a.drop_first(), b, asc);
        let m = seq![a[0]] + rest;
        assert(sorted_dir(a.drop_first(), asc)) by {
            assert(forall|i: int| 0 <= i < a.drop_first().len() ==> a.drop_first()[i] == a[i + 1]);
        }
        lemma_merge_spec_sorted(a.drop_first(), b, asc);
        lemma_merge_spec_multiset(a.drop_first(), b, asc);
        assert forall|i: int, j: int| 0 <= i < j < m.len() implies price_le(
            asc,
            m[i].price,
            m[j].price,
        ) by {
            if i == 0 {
                let x = m[j];
                assert(rest[j - 1] == x);
                assert(rest.contains(x));
                assert(rest.to_multiset().count(x) > 0);
                if a.drop_first().to_multiset().count(x) > 0 {
                    assert(a.drop_first().contains(x));
                    let k = choose|k: int|
                        0 <= k < a.drop_first().len() && a.drop_first()[k] == x;
                    assert(a[k + 1] == x);
                } else {
                    assert(b.contains(x));
                    let k = choose|k: int| 0 <= k < b.len() && b[k] == x;
                    assert(price_le(asc, b[0].price, b[k].price) || k == 0);
                }
            } else {
                assert(m[i] == rest[i - 1] && m[j] == rest[j - 1]);
            }
        }
    } else {
        let rest = merge_spec(a, b.drop_first(), asc);
        let m = seq![b[0]] + rest;
        assert(sorted_dir(b.drop_first(), asc)) by {
            assert(forall|i: int| 0 <= i < b.drop_first().len() ==> b.drop_first()[i] == b[i + 1]);
        }
        lemma_merge_spec_sorted(a, b.drop_first(), asc);
        lemma_merge_spec_multiset(a, b.drop_first(), asc);
        assert forall|i: int, j: int| 0 <= i < j < m.len() implies price_le(
            asc,
            m[i].price,
            m[j].price,
        ) by {
            if i == 0 {
                let x = m[j];
                assert(rest[j - 1] == x);
                assert(rest.contains(x));
                assert(rest.to_multiset().count(x) > 0);
                if a.to_multiset().count(x) > 0 {
                    assert(a.contains(x));
                    let k = choose|k: int| 0 <= k < a.len() && a[k] == x;
                    assert(price_le(asc, a[0].price, a[k].price) || k == 0);
                } else {
                    assert(b.drop_first().contains(x));
                    let k = choose|k: int|
                        0 <= k < b.drop_first().len() && b.drop_first()[k] == x;
                    assert(b[k + 1] == x);
                }
            } else {
                assert(m[i] == rest[i - 1] && m[j] == rest[j - 1]);
            }
        }
    }
}

/// Levels with exactly this price.
pub open spec fn price_is(p: Decimal) -> spec_fn(OrderBook) -> bool {
    |l: OrderBook| l.price == p
}

/// The subsequence of levels whose price is exactly `p`, in order.
pub open spec fn levels_at_price(s: Seq<OrderBook>, p: Decimal) -> Seq<OrderBook> {
    s.filter(price_is(p))
}

/// Filtering a sequence in which nothing matches yields the empty sequence.
proof fn lemma_filter_none(s: Seq<OrderBook>, pred: spec_fn(OrderBook) -> bool)
    requires
        forall|i: int| 0 <= i < s.len() ==> !pred(#[trigger] s[i]),
    ensures
        s.filter(pred) == Seq::<OrderBook>::empty(),
    decreases s.len(),
{
    reveal_with_fuel(Seq::<_>::filter, 2);
    if s.len() > 0 {
        assert(forall|i: int| 0 <= i < s.len() - 1 ==> s.drop_last()[i] == s[i]);
        lemma_filter_none(s.drop_last(), pred);
        assert(!pred(s.last()));
    }
}

/// Filtering a singleton keeps or drops its one element.
proof fn lemma_filter_singleton(x: OrderBook, pred: spec_fn(OrderBook) -> bool)
    ensures
        pred(x) ==> seq![x].filter(pred) == seq![x],
        !pred(x) ==> seq![x].filter(pred) == Seq::<OrderBook>::empty(),
{
    reveal_with_fuel(Seq::<_>::filter, 3);
    assert(seq![x].drop_last() =~= Seq::<OrderBook>::empty());
    assert(seq![x].last() == x);
    if pred(x) {
        assert(seq![x].filter(pred) =~= Seq::<OrderBook>::empty().push(x));
        assert(Seq::<OrderBook>::empty().push(x) =~= seq![x]);
    }
}

/// Merge tie-break: at any one price, the merged sequence carries the first
/// source's levels of that price before the second source's, each side in
/// its original order.
pub proof fn lemma_merge_spec_tie_break(
    a: Seq<OrderBook>,
    b: Seq<OrderBook>,
    asc: bool,
    p: Decimal,
)
    requires
        sorted_dir(a, asc),
        sorted_dir(b, asc),
    ensures
        levels_at_price(merge_spec(a, b, asc), p) == levels_at_price(a, p) + levels_at_price(b, p),
    decreases a.len() + b.len(),
{
    let pred = price_is(p);
    if a.len() == 0 {
        lemma_filter_none(a, pred);
        assert(levels_at_price(a, p) + levels_at_price(b, p) =~= levels_at_price(b, p));
    } else if b.len() == 0 {
        lemma_filter_none(b, pred);
        assert(levels_at_price(a, p) + levels_at_price(b, p) =~= levels_at_price(a, p));
    } else if price_le(asc, a[0].price, b[0].price) {
        assert(sorted_dir(a.drop_first(), asc)) by {
            assert(forall|i: int| 0 <= i < a.drop_first().len() ==> a.drop_first()[i] == a[i + 1]);
        }
        lemma_merge_spec_tie_break(a.drop_first(), b, asc, p);
        let rest = merge_spec(a.drop_first(), b, asc);
        Seq::filter_distributes_over_add(seq![a[0]], rest, pred);
        assert(a =~= seq![a[0]] + a.drop_first());
        Seq::filter_distributes_over_add(seq![a[0]], a.drop_first(), pred);
        assert(levels_at_price(merge_spec(a, b, asc), p) =~= levels_at_price(a, p)
            + levels_at_price(b, p));
    } else {
        assert(sorted_dir(b.drop_first(), asc)) by {
            assert(forall|i: int| 0 <= i < b.drop_first().len() ==> b.drop_first()[i] == b[i + 1]);
        }
        lemma_merge_spec_tie_break(a, b.drop_first(), asc, p);
        let rest = merge_spec(a, b.drop_first(), asc);
        Seq::filter_distributes_over_add(seq![b[0]], rest, pred);
        assert(b =~= seq![b[0]] + b.drop_first());
        Seq::filter_distributes_over_add(seq![b[0]], b.drop_first(), pred);
        if pred(b[0]) {
            // The second source's head undercuts every level of the first
            // source, so no level of the first source has this price.
            assert forall|i: int| 0 <= i < a.len() implies !pred(#[trigger] a[i]) by {
                if i > 0 {
                    assert(price_le(asc, a[0].price, a[i].price));
                }
            }
            lemma_filter_none(a, pred);
            lemma_filter_singleton(b[0], pred);
            assert(levels_at_price(merge_spec(a, b, asc), p) =~= levels_at_price(a, p)
                + levels_at_price(b, p));
        } else {
            lemma_filter_singleton(b[0], pred);
            assert(levels_at_price(merge_spec(a, b, asc), p) =~= levels_at_price(a, p)
                + levels_at_price(b, p));
        }
    }
}

/// Merging with an empty input returns the other input unchanged, order
/// preserved; the empty side contributes nothing.
pub proof fn lemma_merge_spec_empty(a: Seq<OrderBook>, b: Seq<OrderBook>, asc: bool)
    ensures
        merge_spec(Seq::<OrderBook>::empty(), b, asc) == b,
        merge_spec(a, Seq::<OrderBook>::empty(), asc) == a,
{
    if a.len() == 0 {
        assert(a =~= Seq::<OrderBook>::empty());
        assert(merge_spec(a, Seq::<OrderBook>::empty(), asc) =~= a);
    }
}

/// `x` may precede `y` on this side; executable form of [`price_le`].
fn price_le_exec(asc: bool, x: Decimal, y: Decimal) -> (r: bool)
    ensures
        r == price_le(asc, x, y),
{
    if asc {
        x.units <= y.units
    } else {
        x.units >= y.units
    }
}

/// Whether the levels are already sorted in the side's direction; the scan
/// stops at the first violation.
pub(crate) fn is_sorted_dir(v: &Vec<OrderBook>, asc: bool) -> (r: bool)
    ensures
        r == sorted_dir(v@, asc),
{
    let mut idx: usize = 1;
    while idx < v.len()
        invariant
            1 <= idx,
            v.len() > 0 ==> idx <= v.len(),
            v.len() == 0 ==> idx == 1,
            forall|i: int, j: int| 0 <= i < j < idx && j < v@.len() ==> price_le(
                asc,
                v@[i].price,
                v@[j].price,
            ),
        decreases v.len() - idx,
    {
        if !price_le_exec(asc, v[idx - 1].price, v[idx].price) {
            return false;
        }
        proof {
            assert forall|i: int, j: int|
                0 <= i < j < idx + 1 && j < v@.len() implies price_le(
                asc,
                v@[i].price,
                v@[j].price,
            ) by {
                if j == idx as int && i < j - 1 {
                    assert(price_le(asc, v@[i].price, v@[idx - 1].price));
                }
            }
        }
        idx = idx + 1;
    }
    true
}

/// Re-sort the levels in the side's direction (stable for already sorted
/// input: a sorted vector is returned unchanged).
fn sort_levels(v: Vec<OrderBook>, asc: bool) -> (r: Vec<OrderBook>)
    ensures
        sorted_dir(r@, asc),
        r@.to_multiset() == v@.to_multiset(),
        r@.len() == v@.len(),
        sorted_dir(v@, asc) ==> r@ == v@,
{
    if is_sorted_dir(&v, asc) {
        return v;
    }
    let mut out: Vec<OrderBook> = Vec::new();
    let mut i: usize = 0;
    proof {
        assert(v@.take(0) =~= Seq::<OrderBook>::empty());
        assert(out@.to_multiset() =~= v@.take(0).to_multiset());
    }
    while i < v.len()
        invariant
            i <= v.len(),
            out@.len() == i,
            sorted_dir(out@, asc),
            out@.to_multiset() == v@.take(i as int).to_multiset(),
        decreases v.len() - i,
    {
        let x = v[i];
        let mut k: usize = 0;
        while k < out.len() && price_le_exec(asc, out[k].price, x.price)
            invariant
                k <= out.len(),
                forall|m: int| 0 <= m < k ==> price_le(asc, out@[m].price, x.price),
            decreases out.len() - k,
        {
            k = k + 1;
        }
        let ghost old_out = out@;
        out.insert(k, x);
        proof {
            assert(out@ == old_out.insert(k as int, x));
            old_out.insert_ensures(k as int, x);
            vstd::seq_lib::to_multiset_insert(old_out, k as int, x);
            assert(v@.take(i as int + 1) =~= v@.take(i as int).push(v@[i as int]));
            vstd::seq_lib::to_multiset_build(v@.take(i as int), v@[i as int]);
            assert forall|p: int, q: int|
                0 <= p < q < out@.len() implies price_le(asc, out@[p].price, out@[q].price) by {
                if q < k as int {
                    assert(out@[p] == old_out[p] && out@[q] == old_out[q]);
                } else if q == k as int {
                    assert(out@[p] == old_out[p] && out@[q] == x);
                } else {
                    // q > k, so x was not placed at the end and the scan
                    // stopped at a strictly later level.
                    assert(out@[q] == old_out[q - 1]);
                    assert(k < old_out.len());
                    assert(!price_le(asc, old_out[k as int].price, x.price));
                    if p < k as int {
                        assert(out@[p] == old_out[p]);
                    } else if p == k as int {
                        assert(out@[p] == x);
                        assert(price_le(asc, x.price, old_out[k as int].price));
                        if q - 1 > k as int {
                            assert(price_le(
                                asc,
                                old_out[k as int].price,
                                old_out[q - 1].price,
                            ));
                        }
                    } else {
                        assert(out@[p] == old_out[p - 1]);
                    }
                }
            }
        }
        i = i + 1;
    }
    proof {
        assert(v@.take(v@.len() as int) =~= v@);
    }
    out
}

/// Two-way merge of two level vectors; the exact result is [`merge_spec`]
/// of the two inputs.
fn merge_levels(a: Vec<OrderBook>, b: Vec<OrderBook>, asc: bool) -> (r: Vec<OrderBook>)
    ensures
        r@ == merge_spec(a@, b@, asc),
{
    let mut out: Vec<OrderBook> = Vec::new();
    let mut i: usize = 0;
    let mut j: usize = 0;
    proof {
        assert(a@.skip(0) =~= a@);
        assert(b@.skip(0) =~= b@);
        assert(Seq::<OrderBook>::empty() + merge_spec(a@, b@, asc) =~= merge_spec(a@, b@, asc));
    }
    while i < a.len() || j < b.len()
        invariant
            i <= a.len(),
            j <= b.len(),
            merge_spec(a@, b@, asc) == out@ + merge_spec(
                a@.skip(i as int),
                b@.skip(j as int),
                asc,
            ),
        decreases a.len() - i + b.len() - j,
    {
        let ghost sa = a@.skip(i as int);
        let ghost sb = b@.skip(j as int);
        if i < a.len() && (j == b.len() || price_le_exec(asc, a[i].price, b[j].price)) {
            proof {
                assert(sa =~= seq![a@[i as int]] + a@.skip(i as int + 1));
                if sb.len() == 0 {
                    assert(merge_spec(sa, sb, asc) == sa);
                    assert(merge_spec(a@.skip(i as int + 1), sb, asc) == a@.skip(i as int + 1));
                } else {
                    assert(sa[0] == a@[i as int] && sb[0] == b@[j as int]);
                    assert(sa.drop_first() =~= a@.skip(i as int + 1));
                }
                assert(merge_spec(sa, sb, asc) == seq![a@[i as int]] + merge_spec(
                    a@.skip(i as int + 1),
                    sb,
                    asc,
                ));
                assert(out@.push(a@[i as int]) + merge_spec(a@.skip(i as int + 1), sb, asc)
                    =~= out@ + merge_spec(sa, sb, asc));
            }
            let level = a[i];
            out.push(level);
            i = i + 1;
        } else {
            proof {
                assert(sb =~= seq![b@[j as int]] + b@.skip(j as int + 1));
                if sa.len() == 0 {
                    assert(merge_spec(sa, sb, asc) == sb);
                    assert(merge_spec(sa, b@.skip(j as int + 1), asc) == b@.skip(j as int + 1));
                } else {
                    assert(sa[0] == a@[i as int] && sb[0] == b@[j as int]);
                    assert(!price_le(asc, sa[0].price, sb[0].price));
                    assert(sb.drop_first() =~= b@.skip(j as int + 1));
                }
                assert(merge_spec(sa, sb, asc) == seq![b@[j as int]] + merge_spec(
                    sa,
                    b@.skip(j as int + 1),
                    asc,
                ));
                assert(out@.push(b@[j as int]) + merge_spec(sa, b@.skip(j as int + 1), asc)
                    =~= out@ + merge_spec(sa, sb, asc));
            }
            let level = b[j];
            out.push(level);
            j = j + 1;
        }
    }
    proof {
        assert(a@.skip(i as int) =~= Seq::<OrderBook>::empty());
        assert(b@.skip(j as int) =~= Seq::<OrderBook>::empty());
        assert(out@ + merge_spec(a@.skip(i as int), b@.skip(j as int), asc) =~= out@);
    }
    out
}

/// Translate first-source records to unified levels, order preserved.
fn coinbase_to_levels(orders: Vec<CoinbaseOrder>) -> (r: Vec<OrderBook>)
    ensures
        r@ == coinbase_levels(orders@),
{
    let mut out: Vec<OrderBook> = Vec::new();
    let mut i: usize = 0;
    while i < orders.len()
        invariant
            i <= orders.len(),
            out@ == coinbase_levels(orders@).take(i as int),
        decreases orders.len() - i,
    {
        let o = orders[i];
        out.push(OrderBook { price: o.price, size: o.size });
        proof {
            assert(coinbase_levels(orders@).take(i as int + 1) =~= coinbase_levels(
                orders@,
            ).take(i as int).push(level_of_coinbase(orders@[i as int])));
        }
        i = i + 1;
    }
    proof {
        assert(coinbase_levels(orders@).take(orders@.len() as int) =~= coinbase_levels(orders@));
    }
    out
}

/// Translate second-source records to unified levels, order preserved.
fn gemini_to_levels(orders: Vec<GeminiOrder>) -> (r: Vec<OrderBook>)
    ensures
        r@ == gemini_levels(orders@),
{
    let mut out: Vec<OrderBook> = Vec::new();
    let mut i: usize = 0;
    while i < orders.len()
        invariant
            i <= orders.len(),
            out@ == gemini_levels(orders@).take(i as int),
        decreases orders.len() - i,
    {
        let o = orders[i];
        out.push(OrderBook { price: o.price, size: o.amount });
        proof {
            assert(gemini_levels(orders@).take(i as int + 1) =~= gemini_levels(orders@).take(
                i as int,
            ).push(level_of_gemini(orders@[i as int])));
        }
        i = i + 1;
    }
    proof {
        assert(gemini_levels(orders@).take(orders@.len() as int) =~= gemini_levels(orders@));
    }
    out
}

/// Merge one side of the book in the given direction: translate both inputs
/// to unified levels, defensively re-sort each, and two-way merge them.
fn merge_side(
    coinbase: Vec<CoinbaseOrder>,
    gemini: Vec<GeminiOrder>,
    asc: bool,
) -> (r: Vec<OrderBook>)
    ensures
        r@.len() == coinbase@.len() + gemini@.len(),
        r@.to_multiset() == coinbase_levels(coinbase@).to_multiset().add(
            gemini_levels(gemini@).to_multiset(),
        ),
        sorted_dir(r@, asc),
        sorted_dir(coinbase_levels(coinbase@), asc) && sorted_dir(gemini_levels(gemini@), asc)
            ==> r@ == merge_spec(coinbase_levels(coinbase@), gemini_levels(gemini@), asc),
        coinbase@.len() == 0 && sorted_dir(gemini_levels(gemini@), asc) ==> r@ == gemini_levels(
            gemini@,
        ),
        gemini@.len() == 0 && sorted_dir(coinbase_levels(coinbase@), asc) ==> r@
            == coinbase_levels(coinbase@),
{
    let a = coinbase_to_levels(coinbase);
    let b = gemini_to_levels(gemini);
    let sa = sort_levels(a, asc);
    let sb = sort_levels(b, asc);
    let r = merge_levels(sa, sb, asc);
    proof {
        lemma_merge_spec_len(sa@, sb@, asc);
        lemma_merge_spec_multiset(sa@, sb@, asc);
        lemma_merge_spec_sorted(sa@, sb@, asc);
        lemma_merge_spec_empty(sa@, sb@, asc);
        broadcast use vstd::seq_lib::group_to_multiset_ensures;
        if coinbase@.len() == 0 {
            assert(coinbase_levels(coinbase@) =~= Seq::<OrderBook>::empty());
            assert(sorted_dir(coinbase_levels(coinbase@), asc));
        }
        if gemini@.len() == 0 {
            assert(gemini_levels(gemini@) =~= Seq::<OrderBook>::empty());
            assert(sorted_dir(gemini_levels(gemini@), asc));
        }
    }
    r
}

/// Merge sorted asks from both sources into one ascending ladder.
///
/// Every input level appears exactly once in the output (translated to a
/// unified level) and the output is non-decreasing by price. If both inputs
/// are already ascending, the result is exactly the left-biased two-way
/// merge [`merge_spec`] of the translated inputs: on equal prices the first
/// source's level comes first, and each input's relative order is kept.
pub fn merge_sorted_asks(
    coinbase_asks: Vec<CoinbaseOrder>,
    gemini_asks: Vec<GeminiOrder>,
) -> (r: Vec<OrderBook>)
    ensures
        r@.len() == coinbase_asks@.len() + gemini_asks@.len(),
        r@.to_multiset() == coinbase_levels(coinbase_asks@).to_multiset().add(
            gemini_levels(gemini_asks@).to_multiset(),
        ),
        sorted_dir(r@, true),
        sorted_dir(coinbase_levels(coinbase_asks@), true) && sorted_dir(
            gemini_levels(gemini_asks@),
            true,
        ) ==> r@ == merge_spec(coinbase_levels(coinbase_asks@), gemini_levels(gemini_asks@), true),
        coinbase_asks@.len() == 0 && sorted_dir(gemini_levels(gemini_asks@), true) ==> r@
            == gemini_levels(gemini_asks@),
        gemini_asks@.len() == 0 && sorted_dir(coinbase_levels(coinbase_asks@), true) ==> r@
            == coinbase_levels(coinbase_asks@),
{
    merge_side(coinbase_asks, gemini_asks, true)
}

/// Merge sorted bids from both sources into one descending ladder.
///
/// The exact mirror of [`merge_sorted_asks`]: the output is non-increasing
/// by price, and on equal prices the first source's level comes first.
pub fn merge_sorted_bids(
    coinbase_bids: Vec<CoinbaseOrder>,
    gemini_bids: Vec<GeminiOrder>,
) -> (r: Vec<OrderBook>)
    ensures
        r@.len() == coinbase_bids@.len() + gemini_bids@.len(),
        r@.to_multiset() == coinbase_levels(coinbase_bids@).to_multiset().add(
            gemini_levels(gemini_bids@).to_multiset(),
        ),
        sorted_dir(r@, false),
        sorted_dir(coinbase_levels(coinbase_bids@), false) && sorted_dir(
            gemini_levels(gemini_bids@),
            false,
        ) ==> r@ == merge_spec(
            coinbase_levels(coinbase_bids@),
            gemini_levels(gemini_bids@),
            false,
        ),
        coinbase_bids@.len() == 0 && sorted_dir(gemini_levels(gemini_bids@), false) ==> r@
            == gemini_levels(gemini_bids@),
        gemini_bids@.len() == 0 && sorted_dir(coinbase_levels(coinbase_bids@), false) ==> r@
            == coinbase_levels(coinbase_bids@),
{
    merge_side(coinbase_bids, gemini_bids, false)
}

} // verus!
