//! Splitting item prices into shares, and simplifying chains of debts.
use crate::models::money::Currency;
use crate::models::room::RoomItem;
use crate::text::{lemma_text_order_total, text_le, text_le_exec, text_order};
use std::collections::HashMap;
use vstd::prelude::*;
use vstd::relations::{sorted_by, total_ordering};

verus! {

broadcast use vstd::seq_lib::group_to_multiset_ensures;

/// One user's share of one item.
#[derive(Debug, Clone)]
pub struct ItemShare {
    pub user_id: String,
    pub amount_minor: i64,
}

/// The characters of each id.
pub open spec fn ids_view(ids: Seq<String>) -> Seq<Seq<char>> {
    ids.map_values(|s: String| s@)
}

/// The ids in ascending `String` order.
pub open spec fn sorted_ids(ids: Seq<String>) -> Seq<Seq<char>> {
    ids_view(ids).sort_by(text_order())
}

/// The share of the `i`-th of `n` people in a price `total > 0`: the quotient, and the
/// first person also takes the whole remainder `total % n`.
pub open spec fn share_amount(total: int, n: int, i: int) -> int {
    total / n + (if i == 0 { total % n } else { 0int })
}

/// The sum of the shares' amounts.
pub open spec fn shares_total(s: Seq<ItemShare>) -> int
    decreases s.len(),
{
    if s.len() == 0 {
        0
    } else {
        shares_total(s.drop_last()) + s.last().amount_minor
    }
}

proof fn lemma_insert_sorted<T>(s: Seq<T>, p: int, x: T, leq: spec_fn(T, T) -> bool)
    requires
        0 <= p <= s.len(),
        sorted_by(s, leq),
        total_ordering(leq),
        forall|q: int| 0 <= q < p ==> leq(#[trigger] s[q], x),
        p < s.len() ==> leq(x, s[p]),
    ensures
        sorted_by(s.insert(p, x), leq),
{
    let t = s.insert(p, x);
    assert forall|i: int, j: int| 0 <= i < j < t.len() implies #[trigger] leq(t[i], t[j]) by {
        if j < p {
            assert(leq(s[i], s[j]));
        } else if j == p {
            assert(leq(s[i], x));
        } else if i < p {
            assert(leq(s[i], x));
            assert(leq(x, s[p]));
            if j - 1 > p {
                assert(leq(s[p], s[j - 1]));
            }
            assert(leq(x, s[j - 1]));
        } else if i == p {
            if j - 1 > p {
                assert(leq(s[p], s[j - 1]));
                assert(leq(x, s[p]));
            }
        } else {
            assert(leq(s[i - 1], s[j - 1]));
        }
    }
}

/// The ids in ascending order (the order of `String`'s `Ord`).
fn sort_ids(ids: &Vec<String>) -> (out: Vec<String>)
    ensures
        ids_view(out@) == sorted_ids(ids@),
        out@.len() == ids@.len(),
{
    proof {
        lemma_text_order_total();
    }
    let mut out: Vec<String> = Vec::new();
    let mut k: usize = 0;
    while k < ids.len()
        invariant
            k <= ids.len(),
            total_ordering(text_order()),
            sorted_by(ids_view(out@), text_order()),
            out@.len() == k,
            ids_view(out@).to_multiset() == ids_view(ids@.take(k as int)).to_multiset(),
        decreases ids.len() - k,
    {
        let x = ids[k].clone();
        let mut p: usize = 0;
        while p < out.len() && text_le_exec(out[p].as_str(), x.as_str())
            invariant
                p <= out.len(),
                forall|q: int| 0 <= q < p ==> text_le((#[trigger] out@[q])@, x@),
            decreases out.len() - p,
        {
            p += 1;
        }
        let ghost before = ids_view(out@);
        proof {
            if p < out.len() {
                assert(!text_le(out@[p as int]@, x@));
                assert(text_order()(x@, out@[p as int]@) || text_order()(out@[p as int]@, x@));
            }
            assert forall|q: int| 0 <= q < p implies text_order()(#[trigger] before[q], x@) by {
                assert(text_le(out@[q]@, x@));
            }
            lemma_insert_sorted(before, p as int, x@, text_order());
        }
        out.insert(p, x);
        assert(ids_view(out@) == before.insert(p as int, ids@[k as int]@));
        assert(ids_view(ids@.take(k + 1)) == ids_view(ids@.take(k as int)).push(ids@[k as int]@));
        k += 1;
    }
    assert(ids@.take(ids.len() as int) == ids@);
    proof {
        ids_view(ids@).lemma_sort_by_ensures(text_order());
        vstd::seq_lib::lemma_sorted_unique(ids_view(out@), sorted_ids(ids@), text_order());
    }
    out
}

/// Splits an item's price between those who picked it. The shares add up to the
/// price exactly: the whole remainder of the division goes to the first id in
/// ascending order, so that the result does not depend on the order of
/// `selected_by`. Nothing is split for an empty selection or a price that is not
/// positive.
pub fn split_item(item: &RoomItem) -> (shares: Vec<ItemShare>)
    ensures
        (item.selected_by@.len() == 0 || item.total_price_minor <= 0) ==> shares@.len() == 0,
        (item.selected_by@.len() > 0 && item.total_price_minor > 0) ==> {
            &&& shares@.len() == item.selected_by@.len()
            &&& forall|i: int|
                0 <= i < shares@.len() ==> {
                    &&& (#[trigger] shares@[i]).user_id@ == sorted_ids(item.selected_by@)[i]
                    &&& shares@[i].amount_minor == share_amount(
                        item.total_price_minor as int,
                        item.selected_by@.len() as int,
                        i,
                    )
                }
            &&& shares_total(shares@) == item.total_price_minor
        },
{
    let mut shares: Vec<ItemShare> = Vec::new();
    if item.selected_by.len() == 0 || item.total_price_minor <= 0 {
        return shares;
    }
    let ids = sort_ids(&item.selected_by);
    let total = item.total_price_minor as i128;
    let n = ids.len() as i128;
    let base = total / n;
    assert(base * n <= total) by (nonlinear_arith)
        requires
            total > 0,
            n > 0,
            base == total / n,
    ;
    let rem = total - base * n;
    assert(base == total / n && rem == total % n) by (nonlinear_arith)
        requires
            total > 0,
            n > 0,
            base == total / n,
            rem == total - base * n,
    ;
    assert(0 <= base <= total) by (nonlinear_arith)
        requires
            total > 0,
            n > 0,
            base == total / n,
    ;
    assert(base + rem <= total) by (nonlinear_arith)
        requires
            total > 0,
            n > 0,
            rem == total - base * n,
            base >= 0,
    ;
    let mut i: usize = 0;
    while i < ids.len()
        invariant
            i <= ids.len(),
            ids@.len() == item.selected_by@.len(),
            ids_view(ids@) == sorted_ids(item.selected_by@),
            total == item.total_price_minor,
            n == ids@.len(),
            n > 0,
            total > 0,
            base == total / n,
            rem == total % n,
            0 <= rem < n,
            0 <= base <= total,
            base + rem <= total,
            shares@.len() == i,
            forall|j: int|
                0 <= j < i ==> {
                    &&& (#[trigger] shares@[j]).user_id@ == sorted_ids(item.selected_by@)[j]
                    &&& shares@[j].amount_minor == share_amount(total as int, n as int, j)
                },
            shares_total(shares@) == i * base + (if i > 0 { rem as int } else { 0 }),
        decreases ids.len() - i,
    {
        let extra: i128 = if i == 0 { rem } else { 0 };
        let amount = (base + extra) as i64;
        let id = ids[i].clone();
        assert(id@ == ids_view(ids@)[i as int]);
        let ghost before = shares@;
        shares.push(ItemShare { user_id: id, amount_minor: amount });
        assert(shares@.drop_last() == before);
        assert((i + 1) * base == i * base + base) by (nonlinear_arith);
        i += 1;
    }
    assert(n * base + rem == total) by (nonlinear_arith)
        requires
            n > 0,
            base == total / n,
            rem == total % n,
    ;
    shares
}

/// The (user id, amount) pairs of an item's split, as `split_item` gives them.
pub open spec fn split_of(item: RoomItem) -> Seq<(Seq<char>, int)> {
    if item.selected_by@.len() == 0 || item.total_price_minor <= 0 {
        Seq::empty()
    } else {
        Seq::new(
            item.selected_by@.len(),
            |i: int|
                (
                    sorted_ids(item.selected_by@)[i],
                    share_amount(item.total_price_minor as int, item.selected_by@.len() as int, i),
                ),
        )
    }
}

/// What the pairs `s` give to `u` in all.
pub open spec fn share_sum(s: Seq<(Seq<char>, int)>, u: Seq<char>) -> int
    decreases s.len(),
{
    if s.len() == 0 {
        0
    } else {
        share_sum(s.drop_last(), u) + (if s.last().0 == u { s.last().1 } else { 0 })
    }
}

/// What `u` owes for all the items.
pub open spec fn user_total(items: Seq<RoomItem>, u: Seq<char>) -> int
    decreases items.len(),
{
    if items.len() == 0 {
        0
    } else {
        user_total(items.drop_last(), u) + share_sum(split_of(items.last()), u)
    }
}

/// Whether `u` has a share in some item.
pub open spec fn has_share(items: Seq<RoomItem>, u: Seq<char>) -> bool {
    exists|i: int, k: int|
        0 <= i < items.len() && 0 <= k < split_of(items[i]).len() && (#[trigger] split_of(
            items[i],
        )[k]).0 == u
}

/// Whether one of the first `j` pairs of `sp` is for `u`.
pub open spec fn appears_before(sp: Seq<(Seq<char>, int)>, j: int, u: Seq<char>) -> bool {
    exists|m: int| 0 <= m < j && (#[trigger] sp[m]).0 == u
}

/// Whether the entries name each user once.
pub open spec fn distinct_keys(r: Seq<(String, i64)>) -> bool {
    forall|a: int, b: int| 0 <= a < b < r.len() ==> (#[trigger] r[a]).0@ != (#[trigger] r[b]).0@
}

/// Whether `r` holds a total for `u`.
pub open spec fn has_key(r: Seq<(String, i64)>, u: Seq<char>) -> bool {
    exists|k: int| 0 <= k < r.len() && (#[trigger] r[k]).0@ == u
}

proof fn lemma_split_nonneg(item: RoomItem)
    ensures
        forall|k: int| 0 <= k < split_of(item).len() ==> (#[trigger] split_of(item)[k]).1 >= 0,
{
    if item.selected_by@.len() > 0 && item.total_price_minor > 0 {
        assert forall|k: int| 0 <= k < split_of(item).len() implies (#[trigger] split_of(item)[k]).1 >= 0 by {
            let t = item.total_price_minor as int;
            let n = item.selected_by@.len() as int;
            assert(t / n >= 0) by (nonlinear_arith)
                requires
                    t > 0,
                    n > 0,
            ;
        }
    }
}

proof fn lemma_share_sum_prefix(s: Seq<(Seq<char>, int)>, j: int, u: Seq<char>)
    requires
        0 <= j <= s.len(),
        forall|k: int| 0 <= k < s.len() ==> (#[trigger] s[k]).1 >= 0,
    ensures
        0 <= share_sum(s.take(j), u) <= share_sum(s, u),
    decreases s.len() - j,
{
    assert forall|k: int| 0 <= k < s.take(j).len() implies (#[trigger] s.take(j)[k]).1 >= 0 by {
        assert(s.take(j)[k] == s[k]);
    }
    lemma_share_sum_nonneg(s.take(j), u);
    if j < s.len() {
        lemma_share_sum_prefix(s, j + 1, u);
        assert(s.take(j + 1).drop_last() == s.take(j));
        assert(s.take(j + 1).last() == s[j]);
        assert(s[j].1 >= 0);
    } else {
        assert(s.take(j) == s);
    }
}

proof fn lemma_share_sum_nonneg(s: Seq<(Seq<char>, int)>, u: Seq<char>)
    requires
        forall|k: int| 0 <= k < s.len() ==> (#[trigger] s[k]).1 >= 0,
    ensures
        share_sum(s, u) >= 0,
    decreases s.len(),
{
    if s.len() > 0 {
        lemma_share_sum_nonneg(s.drop_last(), u);
    }
}

proof fn lemma_user_total_prefix(items: Seq<RoomItem>, i: int, u: Seq<char>)
    requires
        0 <= i <= items.len(),
    ensures
        0 <= user_total(items.take(i), u) <= user_total(items, u),
    decreases items.len() - i,
{
    lemma_user_total_nonneg(items.take(i), u);
    if i < items.len() {
        lemma_user_total_prefix(items, i + 1, u);
        assert(items.take(i + 1).drop_last() == items.take(i));
        assert(items.take(i + 1).last() == items[i]);
        lemma_split_nonneg(items[i]);
        lemma_share_sum_nonneg(split_of(items[i]), u);
    } else {
        assert(items.take(i) == items);
    }
}

proof fn lemma_user_total_nonneg(items: Seq<RoomItem>, u: Seq<char>)
    ensures
        user_total(items, u) >= 0,
    decreases items.len(),
{
    if items.len() > 0 {
        lemma_user_total_nonneg(items.drop_last(), u);
        lemma_split_nonneg(items.last());
        lemma_share_sum_nonneg(split_of(items.last()), u);
    }
}

/// The index of `id` among the keys of `r`.
fn key_index(r: &Vec<(String, i64)>, id: &String) -> (k: Option<usize>)
    ensures
        match k {
            Some(k) => k < r@.len() && r@[k as int].0@ == id@,
            None => !has_key(r@, id@),
        },
{
    let mut k: usize = 0;
    while k < r.len()
        invariant
            k <= r.len(),
            forall|m: int| 0 <= m < k ==> (#[trigger] r@[m]).0@ != id@,
        decreases r.len() - k,
    {
        if r[k].0 == *id {
            return Some(k);
        }
        k += 1;
    }
    None
}

/// The amounts of `r` added up.
pub open spec fn pairs_total(r: Seq<(String, i64)>) -> int
    decreases r.len(),
{
    if r.len() == 0 {
        0
    } else {
        pairs_total(r.drop_last()) + r.last().1
    }
}

/// The amounts of the pairs `s` added up.
pub open spec fn split_amounts(s: Seq<(Seq<char>, int)>) -> int
    decreases s.len(),
{
    if s.len() == 0 {
        0
    } else {
        split_amounts(s.drop_last()) + s.last().1
    }
}

/// The prices of the items that someone took (at a positive price) added up: what
/// the shares of a room come to.
pub open spec fn taken_total(items: Seq<RoomItem>) -> int
    decreases items.len(),
{
    if items.len() == 0 {
        0
    } else {
        let it = items.last();
        taken_total(items.drop_last()) + (if it.selected_by@.len() > 0 && it.total_price_minor > 0 {
            it.total_price_minor as int
        } else {
            0
        })
    }
}

proof fn lemma_pairs_total_update(r: Seq<(String, i64)>, k: int, x: (String, i64))
    requires
        0 <= k < r.len(),
    ensures
        pairs_total(r.update(k, x)) == pairs_total(r) - r[k].1 + x.1,
    decreases r.len(),
{
    if k < r.len() - 1 {
        lemma_pairs_total_update(r.drop_last(), k, x);
        assert(r.update(k, x).drop_last() == r.drop_last().update(k, x));
    } else {
        assert(r.update(k, x).drop_last() == r.drop_last());
    }
}

proof fn lemma_split_amounts_of_shares(sp: Seq<(Seq<char>, int)>, shares: Seq<ItemShare>)
    requires
        sp.len() == shares.len(),
        forall|k: int| 0 <= k < sp.len() ==> (#[trigger] sp[k]).1 == shares[k].amount_minor,
    ensures
        split_amounts(sp) == shares_total(shares),
    decreases sp.len(),
{
    if sp.len() > 0 {
        assert forall|k: int| 0 <= k < sp.drop_last().len() implies (#[trigger] sp.drop_last()[k]).1
            == shares.drop_last()[k].amount_minor by {
            assert(sp.drop_last()[k] == sp[k]);
        }
        lemma_split_amounts_of_shares(sp.drop_last(), shares.drop_last());
        assert(sp.last() == sp[sp.len() - 1]);
    }
}

/// `room_totals`, or `None` where some user's total leaves the `i64` range.
fn totals_checked(items: &Vec<RoomItem>) -> (res: Option<Vec<(String, i64)>>)
    ensures
        res is None <==> exists|u: Seq<char>| #[trigger] user_total(items@, u) > i64::MAX,
        res matches Some(r) ==> {
            &&& distinct_keys(r@)
            &&& forall|k: int| 0 <= k < r@.len() ==> (#[trigger] r@[k]).1 == user_total(items@, r@[k].0@)
            &&& forall|u: Seq<char>| #[trigger] has_key(r@, u) <==> has_share(items@, u)
            &&& pairs_total(r@) == taken_total(items@)
        },
{
    let mut r: Vec<(String, i64)> = Vec::new();
    let mut i: usize = 0;
    while i < items.len()
        invariant
            i <= items.len(),
            distinct_keys(r@),
            forall|k: int| 0 <= k < r@.len() ==> (#[trigger] r@[k]).1 == user_total(items@.take(i as int), r@[k].0@),
            forall|u: Seq<char>| #[trigger] has_key(r@, u) <==> has_share(items@.take(i as int), u),
            pairs_total(r@) == taken_total(items@.take(i as int)),
        decreases items.len() - i,
    {
        let shares = split_item(&items[i]);
        let ghost sp = split_of(items@[i as int]);
        let ghost pre = items@.take(i as int);
        assert(items@.take(i + 1).drop_last() == pre);
        assert(items@.take(i + 1).last() == items@[i as int]);
        assert(shares@.len() == sp.len());
        assert forall|k: int| 0 <= k < sp.len() implies (#[trigger] sp[k]) == (shares@[k].user_id@, shares@[k].amount_minor as int) by {}
        proof {
            lemma_split_nonneg(items@[i as int]);
        }
        let mut j: usize = 0;
        while j < shares.len()
            invariant
                j <= shares.len(),
                i < items.len(),
                sp == split_of(items@[i as int]),
                pre == items@.take(i as int),
                shares@.len() == sp.len(),
                forall|k: int| 0 <= k < sp.len() ==> (#[trigger] sp[k]) == (shares@[k].user_id@, shares@[k].amount_minor as int),
                forall|k: int| 0 <= k < sp.len() ==> (#[trigger] sp[k]).1 >= 0,
                distinct_keys(r@),
                forall|k: int| 0 <= k < r@.len() ==> (#[trigger] r@[k]).1 == user_total(pre, r@[k].0@) + share_sum(sp.take(j as int), r@[k].0@),
                forall|u: Seq<char>| #[trigger] has_key(r@, u) <==> (has_share(pre, u) || appears_before(sp, j as int, u)),
                pairs_total(r@) == taken_total(pre) + split_amounts(sp.take(j as int)),
            decreases shares.len() - j,
        {
            let id = &shares[j].user_id;
            let amt = shares[j].amount_minor;
            let ghost u = id@;
            assert(sp.take(j + 1).drop_last() == sp.take(j as int));
            assert(sp.take(j + 1).last() == sp[j as int]);
            let ghost old_r = r@;
            match key_index(&r, id) {
                Some(k) => {
                    proof {
                        lemma_share_sum_prefix(sp, j + 1, u);
                        lemma_user_total_prefix(items@, i as int + 1, u);
                        assert(items@.take(i + 1).drop_last() == pre);
                        assert(items@.take(i + 1).last() == items@[i as int]);
                        assert(user_total(items@.take(i + 1), u) == user_total(pre, u) + share_sum(sp, u));
                        assert(r@[k as int].1 + amt == user_total(pre, u) + share_sum(sp.take(j + 1), u));
                        lemma_user_total_prefix(items@, i as int, u);
                    }
                    let cur = r[k].1;
                    let sum = match cur.checked_add(amt) {
                        Some(v) => v,
                        None => {
                            assert(user_total(items@, u) > i64::MAX);
                            return None;
                        },
                    };
                    let key = r[k].0.clone();
                    proof {
                        lemma_pairs_total_update(r@, k as int, (key, sum));
                    }
                    r.set(k, (key, sum));
                    assert forall|a: int, b: int| 0 <= a < b < r@.len() implies (#[trigger] r@[a]).0@ != (#[trigger] r@[b]).0@ by {
                        assert(old_r[a].0@ != old_r[b].0@);
                    }
                    assert forall|w: Seq<char>| #[trigger] has_key(r@, w) <==> has_key(old_r, w) by {
                        if has_key(old_r, w) {
                            let q = choose|q: int| 0 <= q < old_r.len() && (#[trigger] old_r[q]).0@ == w;
                            assert(r@[q].0@ == w);
                        }
                        if has_key(r@, w) {
                            let q = choose|q: int| 0 <= q < r@.len() && (#[trigger] r@[q]).0@ == w;
                            assert(old_r[q].0@ == w);
                        }
                    }
                },
                None => {
                    proof {
                        lemma_share_sum_prefix(sp, j + 1, u);
                        lemma_user_total_prefix(items@, i as int + 1, u);
                        assert(items@.take(i + 1).drop_last() == pre);
                        assert(items@.take(i + 1).last() == items@[i as int]);
                        assert(user_total(items@.take(i + 1), u) == user_total(pre, u) + share_sum(sp, u));
                        assert(!has_share(pre, u));
                        assert(user_total(pre, u) == 0) by {
                            lemma_no_share_zero(pre, u);
                        }
                        assert(share_sum(sp.take(j as int), u) == 0) by {
                            lemma_absent_zero(sp.take(j as int), u);
                        }
                    }
                    r.push((id.clone(), amt));
                    assert(r@.drop_last() == old_r);
                    assert forall|w: Seq<char>| #[trigger] has_key(r@, w) <==> (has_key(old_r, w) || w == u) by {
                        if has_key(old_r, w) {
                            let q = choose|q: int| 0 <= q < old_r.len() && (#[trigger] old_r[q]).0@ == w;
                            assert(r@[q].0@ == w);
                        }
                        if w == u {
                            assert(r@[old_r.len() as int].0@ == w);
                        }
                    }
                },
            }
            assert forall|w: Seq<char>| #[trigger] appears_before(sp, j + 1, w) <==> (appears_before(sp, j as int, w) || w == u) by {
                if w == u {
                    assert(sp[j as int].0 == w);
                }
                if appears_before(sp, j + 1, w) && w != u {
                    let m = choose|m: int| 0 <= m < j + 1 && (#[trigger] sp[m]).0 == w;
                    assert(m < j);
                }
            }
            j += 1;
        }
        assert(sp.take(sp.len() as int) == sp);
        proof {
            lemma_split_amounts_of_shares(sp, shares@);
        }
        assert forall|w: Seq<char>| #[trigger] has_share(items@.take(i + 1), w) <==> (has_share(pre, w) || appears_before(sp, sp.len() as int, w)) by {
            let t = items@.take(i + 1);
            if has_share(t, w) {
                let (a, b) = choose|a: int, b: int| 0 <= a < t.len() && 0 <= b < split_of(t[a]).len() && (#[trigger] split_of(t[a])[b]).0 == w;
                if a < i {
                    assert(t[a] == pre[a]);
                    assert(split_of(pre[a])[b].0 == w);
                } else {
                    assert(sp[b].0 == w);
                }
            }
            if has_share(pre, w) {
                let (a, b) = choose|a: int, b: int| 0 <= a < pre.len() && 0 <= b < split_of(pre[a]).len() && (#[trigger] split_of(pre[a])[b]).0 == w;
                assert(t[a] == pre[a]);
                assert(split_of(t[a])[b].0 == w);
            }
            if appears_before(sp, sp.len() as int, w) {
                let m = choose|m: int| 0 <= m < sp.len() && (#[trigger] sp[m]).0 == w;
                assert(t[i as int] == items@[i as int]);
                assert(split_of(t[i as int])[m].0 == w);
            }
        }
        i += 1;
    }
    assert(items@.take(items.len() as int) == items@);
    assert forall|u: Seq<char>| #[trigger] user_total(items@, u) <= i64::MAX by {
        if has_key(r@, u) {
            let k = choose|k: int| 0 <= k < r@.len() && (#[trigger] r@[k]).0@ == u;
            assert(r@[k].1 == user_total(items@, u));
        } else {
            lemma_no_share_zero(items@, u);
        }
    }
    Some(r)
}

/// What each participant owes for all the items of a room: one entry per user who
/// has a share in some item, with the sum of their shares (`split_item`). The
/// entries add up to the prices of the items taken.
pub fn room_totals(items: &Vec<RoomItem>) -> (r: Vec<(String, i64)>)
    requires
        forall|u: Seq<char>| #[trigger] user_total(items@, u) <= i64::MAX,
    ensures
        distinct_keys(r@),
        forall|k: int| 0 <= k < r@.len() ==> (#[trigger] r@[k]).1 == user_total(items@, r@[k].0@),
        forall|u: Seq<char>| #[trigger] has_key(r@, u) <==> has_share(items@, u),
        pairs_total(r@) == taken_total(items@),
{
    match totals_checked(items) {
        Some(r) => r,
        None => {
            proof {
                let u = choose|u: Seq<char>| #[trigger] user_total(items@, u) > i64::MAX;
                assert(user_total(items@, u) <= i64::MAX);
            }
            Vec::new()
        },
    }
}

/// Whether every user's total over `items` fits in an `i64`, as `room_totals` and
/// `settlement_owes` need.
pub fn user_totals_fit(items: &Vec<RoomItem>) -> (r: bool)
    ensures
        r == forall|u: Seq<char>| #[trigger] user_total(items@, u) <= i64::MAX,
{
    totals_checked(items).is_some()
}

proof fn lemma_absent_zero(s: Seq<(Seq<char>, int)>, u: Seq<char>)
    requires
        forall|m: int| 0 <= m < s.len() ==> (#[trigger] s[m]).0 != u,
    ensures
        share_sum(s, u) == 0,
    decreases s.len(),
{
    if s.len() > 0 {
        lemma_absent_zero(s.drop_last(), u);
    }
}

pub(crate) proof fn lemma_no_share_zero(items: Seq<RoomItem>, u: Seq<char>)
    requires
        !has_share(items, u),
    ensures
        user_total(items, u) == 0,
    decreases items.len(),
{
    if items.len() > 0 {
        let p = items.drop_last();
        assert(!has_share(p, u)) by {
            if has_share(p, u) {
                let (a, b) = choose|a: int, b: int| 0 <= a < p.len() && 0 <= b < split_of(p[a]).len() && (#[trigger] split_of(p[a])[b]).0 == u;
                assert(items[a] == p[a]);
                assert(split_of(items[a])[b].0 == u);
            }
        }
        lemma_no_share_zero(p, u);
        let sp = split_of(items.last());
        assert forall|m: int| 0 <= m < sp.len() implies (#[trigger] sp[m]).0 != u by {
            if sp[m].0 == u {
                assert(split_of(items[items.len() - 1])[m].0 == u);
            }
        }
        lemma_absent_zero(sp, u);
    }
}

/// A payment between two people after the chain of debts is simplified.
#[derive(Debug, Clone, PartialEq, Eq)]
pub struct Transfer {
    pub from_user_id: String,
    pub to_user_id: String,
    pub amount_minor: i64,
    pub currency: Currency,
}

/// Larger amounts first; equal amounts in the order of their positions.
pub open spec fn amount_order() -> spec_fn((int, int), (int, int)) -> bool {
    |a: (int, int), b: (int, int)| a.1 > b.1 || (a.1 == b.1 && a.0 <= b.0)
}

/// (position, balance) of each entry with a positive balance, in entry order.
pub open spec fn creditors_of(e: Seq<(String, i64)>) -> Seq<(int, int)>
    decreases e.len(),
{
    if e.len() == 0 {
        Seq::empty()
    } else {
        let r = creditors_of(e.drop_last());
        if e.last().1 > 0 {
            r.push(((e.len() - 1) as int, e.last().1 as int))
        } else {
            r
        }
    }
}

/// (position, debt) of each entry with a negative balance, the debt being the
/// balance negated, in entry order.
pub open spec fn debtors_of(e: Seq<(String, i64)>) -> Seq<(int, int)>
    decreases e.len(),
{
    if e.len() == 0 {
        Seq::empty()
    } else {
        let r = debtors_of(e.drop_last());
        if e.last().1 < 0 {
            r.push(((e.len() - 1) as int, -(e.last().1 as int)))
        } else {
            r
        }
    }
}

/// The greedy matching of debtors `d` with creditors `c`, both given as (position,
/// amount): the first debtor pays the first creditor the smaller of their amounts,
/// whoever is then at zero leaves the line, and so on until one line is empty.
/// Each transfer is (debtor position, creditor position, amount).
pub open spec fn greedy(d: Seq<(int, int)>, c: Seq<(int, int)>) -> Seq<(int, int, int)>
    decreases d.len() + c.len(),
{
    if d.len() == 0 || c.len() == 0 {
        Seq::empty()
    } else {
        let pay = if d[0].1 <= c[0].1 { d[0].1 } else { c[0].1 };
        let d2 = if d[0].1 <= pay { d.drop_first() } else { d.update(0, (d[0].0, d[0].1 - pay)) };
        let c2 = if c[0].1 <= pay { c.drop_first() } else { c.update(0, (c[0].0, c[0].1 - pay)) };
        (if pay > 0 { seq![(d[0].0, c[0].0, pay)] } else { Seq::empty() }) + greedy(d2, c2)
    }
}

/// The transfers that settle the balances `e`: debtors and creditors each sorted by
/// amount, largest first (ties in entry order), then matched greedily.
pub open spec fn settle_plan(e: Seq<(String, i64)>) -> Seq<(int, int, int)> {
    greedy(debtors_of(e).sort_by(amount_order()), creditors_of(e).sort_by(amount_order()))
}

/// Whether `v` and the plan transfer `t` agree, the positions read in `e`.
pub open spec fn transfer_matches(
    v: Transfer,
    t: (int, int, int),
    e: Seq<(String, i64)>,
    currency: Currency,
) -> bool {
    &&& v.from_user_id == e[t.0].0
    &&& v.to_user_id == e[t.1].0
    &&& v.amount_minor == t.2
    &&& v.currency == currency
}

/// Whether the entries `e` list exactly the balances `m`, each user once.
pub open spec fn entries_of(e: Seq<(String, i64)>, m: Map<String, i64>) -> bool {
    &&& forall|i: int, j: int| 0 <= i < j < e.len() ==> (#[trigger] e[i]).0 != (#[trigger] e[j]).0
    &&& forall|i: int| 0 <= i < e.len() ==> m.contains_key((#[trigger] e[i]).0) && m[e[i].0] == e[i].1
    &&& forall|k: String| m.contains_key(k) ==> exists|i: int| 0 <= i < e.len() && (#[trigger] e[i]).0 == k
}

proof fn lemma_amount_order_total()
    ensures
        total_ordering(amount_order()),
{
}

/// The entries of a balance map, in the map's own (unspecified) order of iteration
/// (`HashMap::into_iter`, collected). They list each key once with its value.
#[verifier::external_body]
fn balance_entries(balances: HashMap<String, i64>) -> (e: Vec<(String, i64)>)
    ensures
        entries_of(e@, balances@),
{
    balances.into_iter().collect()
}

fn sort_by_amount(v: Vec<(usize, i64)>, bound: usize) -> (out: Vec<(usize, i64)>)
    requires
        forall|q: int| 0 <= q < v@.len() ==> (#[trigger] v@[q]).0 < bound && v@[q].1 > 0,
    ensures
        pairs_view(out@) == pairs_view(v@).sort_by(amount_order()),
        out@.len() == v@.len(),
        forall|q: int| 0 <= q < out@.len() ==> (#[trigger] out@[q]).0 < bound && out@[q].1 > 0,
{
    proof {
        lemma_amount_order_total();
    }
    let mut out: Vec<(usize, i64)> = Vec::new();
    let mut k: usize = 0;
    while k < v.len()
        invariant
            k <= v.len(),
            total_ordering(amount_order()),
            sorted_by(pairs_view(out@), amount_order()),
            out@.len() == k,
            pairs_view(out@).to_multiset() == pairs_view(v@.take(k as int)).to_multiset(),
            forall|q: int| 0 <= q < v@.len() ==> (#[trigger] v@[q]).0 < bound && v@[q].1 > 0,
            forall|q: int| 0 <= q < out@.len() ==> (#[trigger] out@[q]).0 < bound && out@[q].1 > 0,
        decreases v.len() - k,
    {
        let x = v[k];
        let mut p: usize = 0;
        while p < out.len() && (out[p].1 > x.1 || (out[p].1 == x.1 && out[p].0 <= x.0))
            invariant
                p <= out.len(),
                forall|q: int| 0 <= q < p ==> amount_order()(pair_view(#[trigger] out@[q]), pair_view(x)),
            decreases out.len() - p,
        {
            p += 1;
        }
        let ghost before = pairs_view(out@);
        let ghost old_out = out@;
        proof {
            assert forall|q: int| 0 <= q < p implies amount_order()(#[trigger] before[q], pair_view(x)) by {
                assert(amount_order()(pair_view(out@[q]), pair_view(x)));
            }
            lemma_insert_sorted(before, p as int, pair_view(x), amount_order());
        }
        out.insert(p, x);
        assert(pairs_view(out@) == before.insert(p as int, pair_view(v@[k as int])));
        assert(pairs_view(v@.take(k + 1)) == pairs_view(v@.take(k as int)).push(pair_view(v@[k as int])));
        assert forall|q: int| 0 <= q < out@.len() implies (#[trigger] out@[q]).0 < bound && out@[q].1 > 0 by {
            if q < p {
                assert(out@[q] == old_out[q]);
            } else if q == p {
                assert(out@[q] == v@[k as int]);
            } else {
                assert(out@[q] == old_out[q - 1]);
            }
        }
        k += 1;
    }
    assert(v@.take(v.len() as int) == v@);
    proof {
        pairs_view(v@).lemma_sort_by_ensures(amount_order());
        vstd::seq_lib::lemma_sorted_unique(pairs_view(out@), pairs_view(v@).sort_by(amount_order()), amount_order());
    }
    out
}

/// A (position, amount) pair as integers.
pub open spec fn pair_view(p: (usize, i64)) -> (int, int) {
    (p.0 as int, p.1 as int)
}

/// Pairs as integers.
pub open spec fn pairs_view(v: Seq<(usize, i64)>) -> Seq<(int, int)> {
    v.map_values(|p: (usize, i64)| pair_view(p))
}

/// Greedy simplification of `entries`, each user's net balance (positive: others
/// owe them; negative: they owe): transfers from the debtors, largest first, to the
/// creditors, largest first, that zero the balances. Equal amounts keep the order of
/// `entries`.
pub fn simplify_entries(entries: &Vec<(String, i64)>, currency: Currency) -> (r: Vec<Transfer>)
    requires
        forall|i: int| 0 <= i < entries@.len() ==> (#[trigger] entries@[i]).1 != i64::MIN,
    ensures
        r@.len() == settle_plan(entries@).len(),
        forall|k: int|
            0 <= k < r@.len() ==> transfer_matches(
                #[trigger] r@[k],
                settle_plan(entries@)[k],
                entries@,
                currency,
            ),
{
    let mut cred: Vec<(usize, i64)> = Vec::new();
    let mut debt: Vec<(usize, i64)> = Vec::new();
    let mut i: usize = 0;
    while i < entries.len()
        invariant
            i <= entries.len(),
            forall|q: int| 0 <= q < entries@.len() ==> (#[trigger] entries@[q]).1 != i64::MIN,
            pairs_view(cred@) == creditors_of(entries@.take(i as int)),
            pairs_view(debt@) == debtors_of(entries@.take(i as int)),
            forall|q: int| 0 <= q < cred@.len() ==> (#[trigger] cred@[q]).0 < i && cred@[q].1 > 0,
            forall|q: int| 0 <= q < debt@.len() ==> (#[trigger] debt@[q]).0 < i && debt@[q].1 > 0,
        decreases entries.len() - i,
    {
        let v = entries[i].1;
        assert(entries@.take(i + 1).drop_last() == entries@.take(i as int));
        if v > 0 {
            cred.push((i, v));
        } else if v < 0 {
            debt.push((i, -v));
        }
        assert(pairs_view(cred@) == creditors_of(entries@.take(i + 1)));
        assert(pairs_view(debt@) == debtors_of(entries@.take(i + 1)));
        i += 1;
    }
    assert(entries@.take(entries.len() as int) == entries@);
    let mut cred = sort_by_amount(cred, entries.len());
    let mut debt = sort_by_amount(debt, entries.len());
    let ghost plan = settle_plan(entries@);
    assert(pairs_view(debt@).skip(0) == pairs_view(debt@));
    assert(pairs_view(cred@).skip(0) == pairs_view(cred@));
    assert(plan == greedy(pairs_view(debt@).skip(0), pairs_view(cred@).skip(0)));
    let mut out: Vec<Transfer> = Vec::new();
    let mut a: usize = 0;
    let mut b: usize = 0;
    while a < debt.len() && b < cred.len()
        invariant
            a <= debt.len(),
            b <= cred.len(),
            forall|q: int| a <= q < debt@.len() ==> (#[trigger] debt@[q]).0 < entries@.len() && debt@[q].1 > 0,
            forall|q: int| b <= q < cred@.len() ==> (#[trigger] cred@[q]).0 < entries@.len() && cred@[q].1 > 0,
            out@.len() + greedy(pairs_view(debt@).skip(a as int), pairs_view(cred@).skip(b as int)).len() == plan.len(),
            forall|k: int| 0 <= k < out@.len() ==> transfer_matches(#[trigger] out@[k], plan[k], entries@, currency),
            forall|k: int| 0 <= k < plan.len() - out@.len() ==> plan[out@.len() + k] == #[trigger] greedy(
                pairs_view(debt@).skip(a as int),
                pairs_view(cred@).skip(b as int),
            )[k],
        decreases (debt.len() - a) + (cred.len() - b),
    {
        let ghost g = greedy(pairs_view(debt@).skip(a as int), pairs_view(cred@).skip(b as int));
        let ghost dv = pairs_view(debt@).skip(a as int);
        let ghost cv = pairs_view(cred@).skip(b as int);
        assert(dv[0] == pair_view(debt@[a as int]));
        assert(cv[0] == pair_view(cred@[b as int]));
        let da = debt[a];
        let cb = cred[b];
        let pay = if da.1 <= cb.1 { da.1 } else { cb.1 };
        let from = entries[da.0].0.clone();
        let to = entries[cb.0].0.clone();
        out.push(Transfer { from_user_id: from, to_user_id: to, amount_minor: pay, currency });
        debt.set(a, (da.0, da.1 - pay));
        cred.set(b, (cb.0, cb.1 - pay));
        let ghost d2 = if dv[0].1 <= pay { dv.drop_first() } else { dv.update(0, (dv[0].0, dv[0].1 - pay)) };
        let ghost c2 = if cv[0].1 <= pay { cv.drop_first() } else { cv.update(0, (cv[0].0, cv[0].1 - pay)) };
        assert(g == seq![(dv[0].0, cv[0].0, pay as int)] + greedy(d2, c2));
        let ghost n0 = (out@.len() - 1) as int;
        assert(plan[n0 + 0] == g[0]);
        assert(g[0] == (da.0 as int, cb.0 as int, pay as int));
        assert(transfer_matches(out@[n0], plan[n0], entries@, currency));
        assert forall|k: int| 0 <= k < plan.len() - out@.len() implies plan[out@.len() + k] == #[trigger] greedy(d2, c2)[k] by {
            assert(plan[n0 + (k + 1)] == g[k + 1]);
            assert(g[k + 1] == greedy(d2, c2)[k]);
        }
        if debt[a].1 == 0 {
            a += 1;
        }
        if cred[b].1 == 0 {
            b += 1;
        }
        assert(pairs_view(debt@).skip(a as int) == d2);
        assert(pairs_view(cred@).skip(b as int) == c2);
    }
    assert(greedy(pairs_view(debt@).skip(a as int), pairs_view(cred@).skip(b as int)).len() == 0);
    out
}

/// Greedy simplification of a chain of debts. `balances` holds each user's net
/// balance (positive: others owe them; negative: they owe). The result is a small
/// (not always the smallest) set of transfers, from debtors to creditors, largest
/// amounts first, that zero every balance when the balances add up to zero. Among
/// equal amounts the order is that in which the map is walked.
pub fn simplify(balances: HashMap<String, i64>, currency: Currency) -> (r: Vec<Transfer>)
    requires
        forall|k: String| balances@.contains_key(k) ==> balances@[k] != i64::MIN,
    ensures
        exists|e: Seq<(String, i64)>|
            {
                &&& entries_of(e, balances@)
                &&& r@.len() == settle_plan(e).len()
                &&& forall|k: int|
                    0 <= k < r@.len() ==> transfer_matches(
                        #[trigger] r@[k],
                        settle_plan(e)[k],
                        e,
                        currency,
                    )
            },
{
    let ghost m = balances@;
    let entries = balance_entries(balances);
    assert forall|i: int| 0 <= i < entries@.len() implies (#[trigger] entries@[i]).1 != i64::MIN by {
        assert(m.contains_key(entries@[i].0));
    }
    simplify_entries(&entries, currency)
}


/// The sum of `f` over the pairs of `s`.
pub open spec fn sum_by(s: Seq<(int, int)>, f: spec_fn((int, int)) -> int) -> int
    decreases s.len(),
{
    if s.len() == 0 {
        0
    } else {
        f(s[0]) + sum_by(s.drop_first(), f)
    }
}

/// The amount of a pair when its position is `k`, else zero.
pub open spec fn weight_at(k: int) -> spec_fn((int, int)) -> int {
    |p: (int, int)| if p.0 == k { p.1 } else { 0 }
}

/// The amount of a pair.
pub open spec fn weight() -> spec_fn((int, int)) -> int {
    |p: (int, int)| p.1
}

/// The amount that the pairs of `s` hold for position `k`.
pub open spec fn amount_at(s: Seq<(int, int)>, k: int) -> int {
    sum_by(s, weight_at(k))
}

/// The amounts of `s` added up.
pub open spec fn amount_total(s: Seq<(int, int)>) -> int {
    sum_by(s, weight())
}

/// Whether every amount of `s` is positive.
pub open spec fn all_positive(s: Seq<(int, int)>) -> bool {
    forall|i: int| 0 <= i < s.len() ==> (#[trigger] s[i]).1 > 0
}

/// What position `k` pays in the transfers `p` (debtor, creditor, amount).
pub open spec fn paid_by(p: Seq<(int, int, int)>, k: int) -> int
    decreases p.len(),
{
    if p.len() == 0 {
        0
    } else {
        (if p[0].0 == k { p[0].2 } else { 0 }) + paid_by(p.drop_first(), k)
    }
}

/// What position `k` receives in the transfers `p` (debtor, creditor, amount).
pub open spec fn paid_to(p: Seq<(int, int, int)>, k: int) -> int
    decreases p.len(),
{
    if p.len() == 0 {
        0
    } else {
        (if p[0].1 == k { p[0].2 } else { 0 }) + paid_to(p.drop_first(), k)
    }
}

/// The balances of `e` added up.
pub open spec fn balance_sum(e: Seq<(String, i64)>) -> int
    decreases e.len(),
{
    if e.len() == 0 {
        0
    } else {
        balance_sum(e.drop_last()) + e.last().1
    }
}

proof fn lemma_sum_by_remove(s: Seq<(int, int)>, j: int, f: spec_fn((int, int)) -> int)
    requires
        0 <= j < s.len(),
    ensures
        sum_by(s, f) == f(s[j]) + sum_by(s.remove(j), f),
    decreases j,
{
    if j == 0 {
        assert(s.remove(0) == s.drop_first());
    } else {
        lemma_sum_by_remove(s.drop_first(), j - 1, f);
        assert(s.remove(j).drop_first() == s.drop_first().remove(j - 1));
        assert(s.remove(j)[0] == s[0]);
    }
}

proof fn lemma_sum_by_permutation(s1: Seq<(int, int)>, s2: Seq<(int, int)>, f: spec_fn((int, int)) -> int)
    requires
        s1.to_multiset() == s2.to_multiset(),
    ensures
        sum_by(s1, f) == sum_by(s2, f),
    decreases s1.len(),
{
    if s1.len() == 0 {
        assert(s2.to_multiset().len() == 0);
    } else {
        let x = s1[0];
        assert(s1.contains(x));
        assert(s1.to_multiset().count(x) > 0);
        assert(s2.contains(x));
        let j = choose|j: int| 0 <= j < s2.len() && s2[j] == x;
        assert(s1.remove(0) == s1.drop_first());
        assert(s1.remove(0).to_multiset() == s1.to_multiset().remove(x));
        assert(s2.remove(j).to_multiset() == s2.to_multiset().remove(x));
        lemma_sum_by_permutation(s1.drop_first(), s2.remove(j), f);
        lemma_sum_by_remove(s2, j, f);
    }
}

proof fn lemma_sum_by_push(s: Seq<(int, int)>, x: (int, int), f: spec_fn((int, int)) -> int)
    ensures
        sum_by(s.push(x), f) == sum_by(s, f) + f(x),
    decreases s.len(),
{
    if s.len() == 0 {
        assert(s.push(x).drop_first() == s);
    } else {
        lemma_sum_by_push(s.drop_first(), x, f);
        assert(s.push(x).drop_first() == s.drop_first().push(x));
    }
}

proof fn lemma_positive_total(s: Seq<(int, int)>)
    requires
        all_positive(s),
    ensures
        amount_total(s) >= 0,
        s.len() > 0 ==> amount_total(s) > 0,
    decreases s.len(),
{
    if s.len() > 0 {
        lemma_positive_total(s.drop_first());
    }
}

proof fn lemma_positive_permutation(s1: Seq<(int, int)>, s2: Seq<(int, int)>)
    requires
        s1.to_multiset() == s2.to_multiset(),
        all_positive(s1),
    ensures
        all_positive(s2),
{
    assert forall|i: int| 0 <= i < s2.len() implies (#[trigger] s2[i]).1 > 0 by {
        assert(s2.contains(s2[i]));
        assert(s2.to_multiset().count(s2[i]) > 0);
        assert(s1.contains(s2[i]));
    }
}

proof fn lemma_transfer_front(t: (int, int, int), g: Seq<(int, int, int)>, k: int)
    ensures
        paid_by(seq![t] + g, k) == (if t.0 == k { t.2 } else { 0 }) + paid_by(g, k),
        paid_to(seq![t] + g, k) == (if t.1 == k { t.2 } else { 0 }) + paid_to(g, k),
{
    assert((seq![t] + g).drop_first() == g);
    assert((seq![t] + g)[0] == t);
}

proof fn lemma_greedy_pays(d: Seq<(int, int)>, c: Seq<(int, int)>, k: int)
    requires
        all_positive(d),
        all_positive(c),
        amount_total(d) == amount_total(c),
    ensures
        paid_by(greedy(d, c), k) == amount_at(d, k),
        paid_to(greedy(d, c), k) == amount_at(c, k),
    decreases d.len() + c.len(),
{
    lemma_positive_total(d);
    lemma_positive_total(c);
    if d.len() == 0 || c.len() == 0 {
        assert(d.len() == 0 && c.len() == 0);
    } else {
        let pay = if d[0].1 <= c[0].1 { d[0].1 } else { c[0].1 };
        let d2 = if d[0].1 <= pay { d.drop_first() } else { d.update(0, (d[0].0, d[0].1 - pay)) };
        let c2 = if c[0].1 <= pay { c.drop_first() } else { c.update(0, (c[0].0, c[0].1 - pay)) };
        assert(d.update(0, (d[0].0, d[0].1 - pay)).drop_first() == d.drop_first());
        assert(c.update(0, (c[0].0, c[0].1 - pay)).drop_first() == c.drop_first());
        assert(all_positive(d2)) by {
            assert forall|i: int| 0 <= i < d2.len() implies (#[trigger] d2[i]).1 > 0 by {
                if d[0].1 <= pay {
                    assert(d2[i] == d[i + 1]);
                }
            }
        }
        assert(all_positive(c2)) by {
            assert forall|i: int| 0 <= i < c2.len() implies (#[trigger] c2[i]).1 > 0 by {
                if c[0].1 <= pay {
                    assert(c2[i] == c[i + 1]);
                }
            }
        }
        assert(amount_total(d2) == amount_total(d) - pay);
        assert(amount_total(c2) == amount_total(c) - pay);
        assert(amount_at(d2, k) == amount_at(d, k) - (if d[0].0 == k { pay } else { 0 }));
        assert(amount_at(c2, k) == amount_at(c, k) - (if c[0].0 == k { pay } else { 0 }));
        lemma_greedy_pays(d2, c2, k);
        lemma_transfer_front((d[0].0, c[0].0, pay), greedy(d2, c2), k);
    }
}

proof fn lemma_sides_of(e: Seq<(String, i64)>, k: int)
    ensures
        all_positive(debtors_of(e)),
        all_positive(creditors_of(e)),
        amount_at(debtors_of(e), k) == (if 0 <= k < e.len() && e[k].1 < 0 { -e[k].1 } else { 0 }),
        amount_at(creditors_of(e), k) == (if 0 <= k < e.len() && e[k].1 > 0 { e[k].1 as int } else { 0 }),
        amount_total(creditors_of(e)) - amount_total(debtors_of(e)) == balance_sum(e),
    decreases e.len(),
{
    if e.len() > 0 {
        let e0 = e.drop_last();
        let n = (e.len() - 1) as int;
        lemma_sides_of(e0, k);
        lemma_sides_of(e0, n);
        let x = e.last();
        lemma_sum_by_push(debtors_of(e0), (n, -(x.1 as int)), weight_at(k));
        lemma_sum_by_push(creditors_of(e0), (n, x.1 as int), weight_at(k));
        lemma_sum_by_push(debtors_of(e0), (n, -(x.1 as int)), weight());
        lemma_sum_by_push(creditors_of(e0), (n, x.1 as int), weight());
        assert(0 <= k < n ==> e0[k] == e[k]);
    }
}

/// Settling a chain of debts zeroes it: when the balances `e` add up to zero,
/// every person, after paying what the plan has them pay and receiving what it
/// has them receive, stands at zero.
pub proof fn lemma_settle_plan_zeroes_balances(e: Seq<(String, i64)>)
    requires
        balance_sum(e) == 0,
    ensures
        forall|k: int|
            0 <= k < e.len() ==> e[k].1 + paid_by(settle_plan(e), k) - #[trigger] paid_to(settle_plan(e), k)
                == 0,
{
    let d = debtors_of(e);
    let c = creditors_of(e);
    let ds = d.sort_by(amount_order());
    let cs = c.sort_by(amount_order());
    lemma_amount_order_total();
    d.lemma_sort_by_ensures(amount_order());
    c.lemma_sort_by_ensures(amount_order());
    lemma_sides_of(e, 0);
    lemma_positive_permutation(d, ds);
    lemma_positive_permutation(c, cs);
    lemma_sum_by_permutation(d, ds, weight());
    lemma_sum_by_permutation(c, cs, weight());
    assert forall|k: int| 0 <= k < e.len() implies e[k].1 + paid_by(settle_plan(e), k) - #[trigger] paid_to(
        settle_plan(e),
        k,
    ) == 0 by {
        lemma_sides_of(e, k);
        lemma_sum_by_permutation(d, ds, weight_at(k));
        lemma_sum_by_permutation(c, cs, weight_at(k));
        lemma_greedy_pays(ds, cs, k);
    }
}

} // verus!
