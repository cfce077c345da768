//! The order-book engine: two price-ordered sides, cached best prices and
//! depth-limit enforcement.
//!
//! Each side is held as a vector of levels sorted by strictly ascending
//! price, so prices are unique per side, the best bid is the last bid entry
//! and the best ask is the first ask entry.  The engine performs no I/O and
//! raises no errors of its own; zero-quantity events mean removal and are
//! never stored as levels.

use vstd::prelude::*;

use crate::messages::{OrderBookUpdate, Side};

verus! {

/// One resting price level: an aggregated absolute quantity at one price.
#[derive(Clone, Copy, Debug, PartialEq, Eq, Structural)]
pub struct Order {
    pub price: u64,
    pub quantity: u64,
}

/// The levels of `s` are sorted by strictly ascending price (so each price
/// occurs at most once).
pub open spec fn sorted_by_price(s: Seq<Order>) -> bool {
    forall|i: int, j: int| 0 <= i < j < s.len() ==> s[i].price < s[j].price
}

/// Every stored level has a non-zero quantity.
pub open spec fn positive_quantities(s: Seq<Order>) -> bool {
    forall|i: int| 0 <= i < s.len() ==> s[i].quantity > 0
}

/// Some level of `s` rests at price `p`.
pub open spec fn has_price(s: Seq<Order>, p: u64) -> bool {
    exists|i: int| 0 <= i < s.len() && s[i].price == p
}

/// `s` with `o` upserted: the level at `o.price` is overwritten if present,
/// inserted at its sorted position otherwise.
pub open spec fn insert_level(s: Seq<Order>, o: Order) -> Seq<Order>
    decreases s.len(),
{
    if s.len() == 0 {
        seq![o]
    } else if o.price < s[0].price {
        seq![o] + s
    } else if o.price == s[0].price {
        seq![o] + s.drop_first()
    } else {
        seq![s[0]] + insert_level(s.drop_first(), o)
    }
}

/// `s` with the level at price `p` removed, unchanged if no level rests
/// there.
pub open spec fn remove_level(s: Seq<Order>, p: u64) -> Seq<Order>
    decreases s.len(),
{
    if s.len() == 0 {
        s
    } else if s[0].price == p {
        s.drop_first()
    } else {
        seq![s[0]] + remove_level(s.drop_first(), p)
    }
}

/// The `d` highest-priced levels of an ascending side (the bid eviction
/// rule keeps these, dropping the lowest prices first).
pub open spec fn keep_highest(s: Seq<Order>, d: nat) -> Seq<Order> {
    if s.len() <= d {
        s
    } else {
        s.subrange(s.len() - d, s.len() as int)
    }
}

/// The `d` lowest-priced levels of an ascending side (the ask eviction
/// rule keeps these, dropping the highest prices first).
pub open spec fn keep_lowest(s: Seq<Order>, d: nat) -> Seq<Order> {
    if s.len() <= d {
        s
    } else {
        s.subrange(0, d as int)
    }
}

/// The best bid of an ascending bid side: its highest price, i.e. the last
/// entry.
pub open spec fn best_of_bids(s: Seq<Order>) -> Option<u64> {
    if s.len() == 0 {
        None
    } else {
        Some(s.last().price)
    }
}

/// The best ask of an ascending ask side: its lowest price, i.e. the first
/// entry.
pub open spec fn best_of_asks(s: Seq<Order>) -> Option<u64> {
    if s.len() == 0 {
        None
    } else {
        Some(s[0].price)
    }
}

/// The level an update carries.
pub open spec fn order_of(u: OrderBookUpdate) -> Order {
    Order { price: u.price, quantity: u.quantity }
}

/// One incremental update applied to the bid side: removal if the quantity
/// is zero, upsert followed by eviction of the lowest prices otherwise.
pub open spec fn apply_bid(s: Seq<Order>, o: Order, d: nat) -> Seq<Order> {
    if o.quantity == 0 {
        remove_level(s, o.price)
    } else {
        keep_highest(insert_level(s, o), d)
    }
}

/// One incremental update applied to the ask side: removal if the quantity
/// is zero, upsert followed by eviction of the highest prices otherwise.
pub open spec fn apply_ask(s: Seq<Order>, o: Order, d: nat) -> Seq<Order> {
    if o.quantity == 0 {
        remove_level(s, o.price)
    } else {
        keep_lowest(insert_level(s, o), d)
    }
}

/// A sequence of updates folded over the bid side, first event first.
pub open spec fn apply_bids(s: Seq<Order>, us: Seq<OrderBookUpdate>, d: nat) -> Seq<Order>
    decreases us.len(),
{
    if us.len() == 0 {
        s
    } else {
        apply_bids(apply_bid(s, order_of(us[0]), d), us.drop_first(), d)
    }
}

/// A sequence of updates folded over the ask side, first event first.
pub open spec fn apply_asks(s: Seq<Order>, us: Seq<OrderBookUpdate>, d: nat) -> Seq<Order>
    decreases us.len(),
{
    if us.len() == 0 {
        s
    } else {
        apply_asks(apply_ask(s, order_of(us[0]), d), us.drop_first(), d)
    }
}

/// The bid side a snapshot leaves behind: its levels applied, in order, to
/// an empty side.  It depends on the snapshot and the depth limit alone.
pub open spec fn snapshot_bids(us: Seq<OrderBookUpdate>, d: nat) -> Seq<Order> {
    apply_bids(Seq::empty(), us, d)
}

/// The ask side a snapshot leaves behind.
pub open spec fn snapshot_asks(us: Seq<OrderBookUpdate>, d: nat) -> Seq<Order> {
    apply_asks(Seq::empty(), us, d)
}

/// Where the scan of a sorted side stops, `insert_level` lands: an
/// overwrite at `i` when the price already rests there, an insertion at `i`
/// otherwise.
proof fn lemma_insert_level_at(s: Seq<Order>, o: Order, i: int)
    requires
        sorted_by_price(s),
        0 <= i <= s.len(),
        forall|k: int| 0 <= k < i ==> s[k].price < o.price,
        i < s.len() ==> o.price <= s[i].price,
    ensures
        i < s.len() && s[i].price == o.price ==> insert_level(s, o) =~= s.update(i, o),
        !(i < s.len() && s[i].price == o.price) ==> insert_level(s, o) =~= s.insert(i, o),
    decreases s.len(),
{
    if s.len() == 0 {
        assert(insert_level(s, o) =~= s.insert(0, o));
    } else if i == 0 {
        if o.price == s[0].price {
            assert(insert_level(s, o) == seq![o] + s.drop_first());
            assert(insert_level(s, o) =~= s.update(0, o));
        } else {
            assert(o.price < s[0].price);
            assert(insert_level(s, o) == seq![o] + s);
            assert(insert_level(s, o) =~= s.insert(0, o));
        }
    } else {
        assert(s[0].price < o.price);
        let t = s.drop_first();
        assert(forall|k: int| 0 <= k < i - 1 ==> t[k] == s[k + 1]);
        lemma_insert_level_at(t, o, i - 1);
        assert(insert_level(s, o) == seq![s[0]] + insert_level(t, o));
        if i < s.len() && s[i].price == o.price {
            assert(t[i - 1] == s[i]);
            assert(insert_level(t, o) =~= t.update(i - 1, o));
            assert(insert_level(s, o) =~= s.update(i, o));
        } else {
            assert(insert_level(t, o) =~= t.insert(i - 1, o));
            assert(insert_level(s, o) =~= s.insert(i, o));
        }
    }
}

/// Where the scan of a sorted side stops on a resting price, `remove_level`
/// removes exactly that entry.
proof fn lemma_remove_level_at(s: Seq<Order>, p: u64, i: int)
    requires
        0 <= i < s.len(),
        s[i].price == p,
        forall|k: int| 0 <= k < i ==> s[k].price != p,
    ensures
        remove_level(s, p) =~= s.remove(i),
    decreases s.len(),
{
    if i == 0 {
        assert(remove_level(s, p) =~= s.remove(0));
    } else {
        let t = s.drop_first();
        assert(forall|k: int| 0 <= k < i - 1 ==> t[k] == s[k + 1]);
        assert(t[i - 1] == s[i]);
        lemma_remove_level_at(t, p, i - 1);
        assert(s[0].price != p);
        assert(remove_level(s, p) == seq![s[0]] + remove_level(t, p));
        assert(remove_level(s, p) =~= s.remove(i));
    }
}

/// Removing a price at which no level rests is a no-op: the side is
/// returned unchanged.
pub proof fn lemma_remove_level_absent(s: Seq<Order>, p: u64)
    requires
        !has_price(s, p),
    ensures
        remove_level(s, p) == s,
    decreases s.len(),
{
    if s.len() > 0 {
        assert(s[0].price != p);
        let t = s.drop_first();
        assert(forall|k: int| 0 <= k < t.len() ==> t[k] == s[k + 1]);
        assert(!has_price(t, p)) by {
            if has_price(t, p) {
                let k = choose|k: int| 0 <= k < t.len() && t[k].price == p;
                assert(s[k + 1].price == p);
            }
        }
        lemma_remove_level_absent(t, p);
        assert(remove_level(s, p) =~= s);
    } else {
        assert(remove_level(s, p) =~= s);
    }
}

/// Removing a price from a sorted side removes exactly that level: no
/// level rests at the removed price afterwards, and every other price
/// rests afterwards iff it rested before.
pub proof fn lemma_remove_level_removes(s: Seq<Order>, p: u64)
    requires
        sorted_by_price(s),
    ensures
        !has_price(remove_level(s, p), p),
        forall|q: u64|
            q != p ==> (has_price(remove_level(s, p), q) <==> has_price(s, q)),
    decreases s.len(),
{
    if s.len() == 0 {
        assert(!has_price(remove_level(s, p), p));
    } else if s[0].price == p {
        let t = s.drop_first();
        assert(forall|k: int| 0 <= k < t.len() ==> t[k] == s[k + 1]);
        assert(remove_level(s, p) == t);
        assert(!has_price(t, p)) by {
            if has_price(t, p) {
                let k = choose|k: int| 0 <= k < t.len() && t[k].price == p;
                assert(s[0].price < s[k + 1].price);
            }
        }
        assert forall|q: u64| q != p implies (has_price(t, q) <==> has_price(s, q)) by {
            if has_price(t, q) {
                let k = choose|k: int| 0 <= k < t.len() && t[k].price == q;
                assert(s[k + 1].price == q);
            }
            if has_price(s, q) {
                let k = choose|k: int| 0 <= k < s.len() && s[k].price == q;
                assert(k != 0);
                assert(t[k - 1].price == q);
            }
        }
    } else {
        let t = s.drop_first();
        assert(forall|k: int| 0 <= k < t.len() ==> t[k] == s[k + 1]);
        lemma_remove_level_removes(t, p);
        let rt = remove_level(t, p);
        let r = remove_level(s, p);
        assert(r == seq![s[0]] + rt);
        assert(r[0] == s[0]);
        assert(forall|k: int| 0 <= k < rt.len() ==> r[k + 1] == rt[k]);
        assert(!has_price(r, p)) by {
            if has_price(r, p) {
                let k = choose|k: int| 0 <= k < r.len() && r[k].price == p;
                if k > 0 {
                    assert(rt[k - 1].price == p);
                    assert(has_price(rt, p));
                }
            }
        }
        assert forall|q: u64| q != p implies (has_price(r, q) <==> has_price(s, q)) by {
            if has_price(r, q) {
                let k = choose|k: int| 0 <= k < r.len() && r[k].price == q;
                if k == 0 {
                    assert(s[0].price == q);
                } else {
                    assert(rt[k - 1].price == q);
                    assert(has_price(rt, q));
                    assert(has_price(t, q));
                    let m = choose|m: int| 0 <= m < t.len() && t[m].price == q;
                    assert(s[m + 1].price == q);
                }
            }
            if has_price(s, q) {
                let k = choose|k: int| 0 <= k < s.len() && s[k].price == q;
                if k == 0 {
                    assert(r[0].price == q);
                    assert(has_price(r, q));
                } else {
                    assert(t[k - 1].price == q);
                    assert(has_price(t, q));
                    assert(has_price(rt, q));
                    let m = choose|m: int| 0 <= m < rt.len() && rt[m].price == q;
                    assert(r[m + 1].price == q);
                    assert(has_price(r, q));
                }
            }
        }
    }
}

/// Upserting a level rests it at its price — overwriting whatever rested
/// there — and leaves every other price resting iff it rested before.
pub proof fn lemma_insert_level_upserts(s: Seq<Order>, o: Order)
    requires
        sorted_by_price(s),
    ensures
        insert_level(s, o).contains(o),
        has_price(insert_level(s, o), o.price),
        forall|q: u64|
            q != o.price ==> (has_price(insert_level(s, o), q) <==> has_price(s, q)),
    decreases s.len(),
{
    let r = insert_level(s, o);
    if s.len() == 0 {
        assert(r == seq![o]);
        assert(r[0] == o);
        assert(has_price(r, o.price));
    } else if o.price < s[0].price {
        assert(r == seq![o] + s);
        assert(r[0] == o);
        assert(has_price(r, o.price));
        assert(forall|k: int| 0 <= k < s.len() ==> r[k + 1] == s[k]);
        assert forall|q: u64| q != o.price implies (has_price(r, q) <==> has_price(s, q)) by {
            if has_price(r, q) {
                let k = choose|k: int| 0 <= k < r.len() && r[k].price == q;
                assert(k != 0);
                assert(s[k - 1].price == q);
            }
            if has_price(s, q) {
                let k = choose|k: int| 0 <= k < s.len() && s[k].price == q;
                assert(r[k + 1].price == q);
            }
        }
    } else if o.price == s[0].price {
        let t = s.drop_first();
        assert(r == seq![o] + t);
        assert(r[0] == o);
        assert(has_price(r, o.price));
        assert(forall|k: int| 0 <= k < t.len() ==> r[k + 1] == t[k] && t[k] == s[k + 1]);
        assert forall|q: u64| q != o.price implies (has_price(r, q) <==> has_price(s, q)) by {
            if has_price(r, q) {
                let k = choose|k: int| 0 <= k < r.len() && r[k].price == q;
                assert(k != 0);
                assert(s[k].price == q);
            }
            if has_price(s, q) {
                let k = choose|k: int| 0 <= k < s.len() && s[k].price == q;
                assert(k != 0);
                assert(r[k].price == q);
            }
        }
    } else {
        let t = s.drop_first();
        assert(forall|k: int| 0 <= k < t.len() ==> t[k] == s[k + 1]);
        lemma_insert_level_upserts(t, o);
        let rt = insert_level(t, o);
        assert(r == seq![s[0]] + rt);
        assert(r[0] == s[0]);
        assert(forall|k: int| 0 <= k < rt.len() ==> r[k + 1] == rt[k]);
        assert(r.contains(o)) by {
            let k = choose|k: int| 0 <= k < rt.len() && rt[k] == o;
            assert(r[k + 1] == o);
        }
        assert(has_price(r, o.price)) by {
            let k = choose|k: int| 0 <= k < rt.len() && rt[k].price == o.price;
            assert(r[k + 1].price == o.price);
        }
        assert forall|q: u64| q != o.price implies (has_price(r, q) <==> has_price(s, q)) by {
            if has_price(r, q) {
                let k = choose|k: int| 0 <= k < r.len() && r[k].price == q;
                if k == 0 {
                    assert(s[0].price == q);
                } else {
                    assert(rt[k - 1].price == q);
                    assert(has_price(rt, q));
                    assert(has_price(t, q));
                    let m = choose|m: int| 0 <= m < t.len() && t[m].price == q;
                    assert(s[m + 1].price == q);
                }
            }
            if has_price(s, q) {
                let k = choose|k: int| 0 <= k < s.len() && s[k].price == q;
                if k == 0 {
                    assert(r[0].price == q);
                    assert(has_price(r, q));
                } else {
                    assert(t[k - 1].price == q);
                    assert(has_price(t, q));
                    assert(has_price(rt, q));
                    let m = choose|m: int| 0 <= m < rt.len() && rt[m].price == q;
                    assert(r[m + 1].price == q);
                    assert(has_price(r, q));
                }
            }
        }
    }
}

/// Upsert one level into a side kept ascending by price.
fn insert_sorted(v: &mut Vec<Order>, o: Order)
    requires
        sorted_by_price(old(v)@),
    ensures
        final(v)@ == insert_level(old(v)@, o),
        sorted_by_price(final(v)@),
        positive_quantities(old(v)@) && o.quantity > 0 ==> positive_quantities(final(v)@),
        old(v)@.len() <= final(v)@.len() <= old(v)@.len() + 1,
{
    let ghost s0 = v@;
    let mut i: usize = 0;
    while i < v.len() && v[i].price < o.price
        invariant
            v@ == s0,
            sorted_by_price(s0),
            0 <= i <= s0.len(),
            forall|k: int| 0 <= k < i ==> s0[k].price < o.price,
        decreases s0.len() - i,
    {
        i = i + 1;
    }
    proof {
        lemma_insert_level_at(s0, o, i as int);
    }
    if i < v.len() && v[i].price == o.price {
        v.set(i, o);
        assert(v@ =~= insert_level(s0, o));
    } else {
        v.insert(i, o);
        assert(v@ =~= insert_level(s0, o));
        proof {
            s0.insert_ensures(i as int, o);
        }
    }
    assert forall|a: int, b: int| 0 <= a < b < v@.len() implies v@[a].price < v@[b].price by {
        s0.insert_ensures(i as int, o);
    }
}

/// Remove the level resting at `p` from a side kept ascending by price; a
/// no-op when no level rests there.
fn remove_at_price(v: &mut Vec<Order>, p: u64)
    requires
        sorted_by_price(old(v)@),
    ensures
        final(v)@ == remove_level(old(v)@, p),
        sorted_by_price(final(v)@),
        positive_quantities(old(v)@) ==> positive_quantities(final(v)@),
        final(v)@.len() <= old(v)@.len(),
    {
    let ghost s0 = v@;
    let mut i: usize = 0;
    while i < v.len() && v[i].price < p
        invariant
            v@ == s0,
            sorted_by_price(s0),
            0 <= i <= s0.len(),
            forall|k: int| 0 <= k < i ==> s0[k].price < p,
        decreases s0.len() - i,
    {
        i = i + 1;
    }
    if i < v.len() && v[i].price == p {
        v.remove(i);
        proof {
            lemma_remove_level_at(s0, p, i as int);
            s0.remove_ensures(i as int);
        }
        assert(v@ =~= remove_level(s0, p));
    } else {
        proof {
            let ii = i as int;
            assert(!has_price(s0, p)) by {
                if has_price(s0, p) {
                    let k = choose|k: int| 0 <= k < s0.len() && s0[k].price == p;
                    assert(k >= ii);
                    if ii < k {
                        assert(s0[ii].price < s0[k].price);
                    }
                }
            }
            lemma_remove_level_absent(s0, p);
        }
    }
}

/// Evict the least competitive bid levels: drop the lowest prices until at
/// most `d` levels rest.
fn evict_lowest(v: &mut Vec<Order>, d: usize)
    requires
        sorted_by_price(old(v)@),
        1 <= d,
    ensures
        final(v)@ == keep_highest(old(v)@, d as nat),
        sorted_by_price(final(v)@),
        positive_quantities(old(v)@) ==> positive_quantities(final(v)@),
        final(v)@.len() <= d,
{
    let ghost s0 = v@;
    while v.len() > d
        invariant
            1 <= d,
            sorted_by_price(v@),
            positive_quantities(s0) ==> positive_quantities(v@),
            keep_highest(v@, d as nat) == keep_highest(s0, d as nat),
        decreases v@.len(),
    {
        let ghost cur = v@;
        v.remove(0);
        proof {
            cur.remove_ensures(0);
            assert(keep_highest(v@, d as nat) =~= keep_highest(cur, d as nat));
        }
    }
    proof {
        assert(v@ == keep_highest(v@, d as nat));
    }
}

/// Evict the least competitive ask levels: drop the highest prices until
/// at most `d` levels rest.
fn evict_highest(v: &mut Vec<Order>, d: usize)
    requires
        sorted_by_price(old(v)@),
        1 <= d,
    ensures
        final(v)@ == keep_lowest(old(v)@, d as nat),
        sorted_by_price(final(v)@),
        positive_quantities(old(v)@) ==> positive_quantities(final(v)@),
        final(v)@.len() <= d,
{
    let ghost s0 = v@;
    while v.len() > d
        invariant
            1 <= d,
            sorted_by_price(v@),
            positive_quantities(s0) ==> positive_quantities(v@),
            keep_lowest(v@, d as nat) == keep_lowest(s0, d as nat),
        decreases v@.len(),
    {
        let ghost cur = v@;
        v.pop();
        proof {
            assert(v@ =~= cur.subrange(0, cur.len() - 1));
            assert(keep_lowest(v@, d as nat) =~= keep_lowest(cur, d as nat));
        }
    }
    proof {
        assert(v@ == keep_lowest(v@, d as nat));
    }
}

/// Folding one more update over the bid side applies it to the side the
/// earlier updates left behind.
proof fn lemma_apply_bids_snoc(s: Seq<Order>, us: Seq<OrderBookUpdate>, u: OrderBookUpdate, d: nat)
    ensures
        apply_bids(s, us.push(u), d) == apply_bid(apply_bids(s, us, d), order_of(u), d),
    decreases us.len(),
{
    if us.len() == 0 {
        assert(us.push(u)[0] == u);
        assert(us.push(u).drop_first() =~= Seq::<OrderBookUpdate>::empty());
        assert(apply_bids(s, us, d) == s);
        assert(apply_bids(apply_bid(s, order_of(u), d), us.push(u).drop_first(), d) == apply_bid(
            s,
            order_of(u),
            d,
        ));
    } else {
        assert(us.push(u)[0] == us[0]);
        assert(us.push(u).drop_first() =~= us.drop_first().push(u));
        lemma_apply_bids_snoc(apply_bid(s, order_of(us[0]), d), us.drop_first(), u, d);
        assert(apply_bids(s, us.push(u), d) == apply_bids(
            apply_bid(s, order_of(us[0]), d),
            us.push(u).drop_first(),
            d,
        ));
    }
}

/// Folding one more update over the ask side applies it to the side the
/// earlier updates left behind.
proof fn lemma_apply_asks_snoc(s: Seq<Order>, us: Seq<OrderBookUpdate>, u: OrderBookUpdate, d: nat)
    ensures
        apply_asks(s, us.push(u), d) == apply_ask(apply_asks(s, us, d), order_of(u), d),
    decreases us.len(),
{
    if us.len() == 0 {
        assert(us.push(u)[0] == u);
        assert(us.push(u).drop_first() =~= Seq::<OrderBookUpdate>::empty());
        assert(apply_asks(s, us, d) == s);
        assert(apply_asks(apply_ask(s, order_of(u), d), us.push(u).drop_first(), d) == apply_ask(
            s,
            order_of(u),
            d,
        ));
    } else {
        assert(us.push(u)[0] == us[0]);
        assert(us.push(u).drop_first() =~= us.drop_first().push(u));
        lemma_apply_asks_snoc(apply_ask(s, order_of(us[0]), d), us.drop_first(), u, d);
        assert(apply_asks(s, us.push(u), d) == apply_asks(
            apply_ask(s, order_of(us[0]), d),
            us.push(u).drop_first(),
            d,
        ));
    }
}

/// The engine's state: both sides kept ascending by price, the cached best
/// prices, and the per-side depth limit fixed at construction.
#[derive(Clone, Debug)]
pub struct OrderBook {
    /// Bid levels, ascending by price; the last entry is the best bid.
    pub bids: Vec<Order>,
    /// Ask levels, ascending by price; the first entry is the best ask.
    pub asks: Vec<Order>,
    /// Cached highest bid price, `None` iff no bids rest.
    pub best_bid: Option<u64>,
    /// Cached lowest ask price, `None` iff no asks rest.
    pub best_ask: Option<u64>,
    /// Maximum number of levels retained per side; positive.
    pub depth_limit: usize,
}

impl OrderBook {
    /// The invariant every public operation preserves: both sides sorted
    /// with unique prices, no zero-quantity level stored, both sides within
    /// the depth limit, and the cached best prices consistent with the
    /// sides.
    pub open spec fn wf(&self) -> bool {
        &&& 1 <= self.depth_limit
        &&& sorted_by_price(self.bids@)
        &&& sorted_by_price(self.asks@)
        &&& positive_quantities(self.bids@)
        &&& positive_quantities(self.asks@)
        &&& self.bids@.len() <= self.depth_limit
        &&& self.asks@.len() <= self.depth_limit
        &&& self.best_bid == best_of_bids(self.bids@)
        &&& self.best_ask == best_of_asks(self.asks@)
    }

    /// An empty book retaining at most `depth_limit` levels per side.
    pub fn new(depth_limit: usize) -> (book: OrderBook)
        requires
            1 <= depth_limit,
        ensures
            book.wf(),
            book.depth_limit == depth_limit,
            book.bids@ == Seq::<Order>::empty(),
            book.asks@ == Seq::<Order>::empty(),
            book.best_bid is None,
            book.best_ask is None,
    {
        OrderBook {
            bids: Vec::new(),
            asks: Vec::new(),
            best_bid: None,
            best_ask: None,
            depth_limit,
        }
    }

    /// The cached best bid price, `None` before any bid has rested.  O(1):
    /// reads the cache, never the side.
    pub fn get_best_bid(&self) -> (r: Option<u64>)
        ensures
            r == self.best_bid,
    {
        self.best_bid
    }

    /// The cached best ask price, `None` before any ask has rested.  O(1):
    /// reads the cache, never the side.
    pub fn get_best_ask(&self) -> (r: Option<u64>)
        ensures
            r == self.best_ask,
    {
        self.best_ask
    }

    /// Recompute the cached best bid from the bid side.
    fn update_best_bid(&mut self)
        ensures
            final(self).best_bid == best_of_bids(old(self).bids@),
            final(self).bids == old(self).bids,
            final(self).asks == old(self).asks,
            final(self).best_ask == old(self).best_ask,
            final(self).depth_limit == old(self).depth_limit,
    {
        if self.bids.len() == 0 {
            self.best_bid = None;
        } else {
            self.best_bid = Some(self.bids[self.bids.len() - 1].price);
        }
    }

    /// Recompute the cached best ask from the ask side.
    fn update_best_ask(&mut self)
        ensures
            final(self).best_ask == best_of_asks(old(self).asks@),
            final(self).bids == old(self).bids,
            final(self).asks == old(self).asks,
            final(self).best_bid == old(self).best_bid,
            final(self).depth_limit == old(self).depth_limit,
    {
        if self.asks.len() == 0 {
            self.best_ask = None;
        } else {
            self.best_ask = Some(self.asks[0].price);
        }
    }

    /// Insert or overwrite the level at `order.price` on `side` with the
    /// given absolute quantity, evict the least competitive levels beyond
    /// the depth limit, and recompute that side's best price.  The other
    /// side is untouched.
    pub fn add_order(&mut self, order: Order, side: Side)
        requires
            old(self).wf(),
            order.quantity > 0,
        ensures
            final(self).wf(),
            final(self).depth_limit == old(self).depth_limit,
            side == Side::Buy ==> final(self).bids@ == apply_bid(
                old(self).bids@,
                order,
                old(self).depth_limit as nat,
            ) && final(self).asks@ == old(self).asks@ && final(self).best_ask == old(
                self,
            ).best_ask,
            side == Side::Sell ==> final(self).asks@ == apply_ask(
                old(self).asks@,
                order,
                old(self).depth_limit as nat,
            ) && final(self).bids@ == old(self).bids@ && final(self).best_bid == old(
                self,
            ).best_bid,
    {
        match side {
            Side::Buy => {
                insert_sorted(&mut self.bids, order);
                evict_lowest(&mut self.bids, self.depth_limit);
                self.update_best_bid();
            },
            Side::Sell => {
                insert_sorted(&mut self.asks, order);
                evict_highest(&mut self.asks, self.depth_limit);
                self.update_best_ask();
            },
        }
    }

    /// Remove any level resting at `price` on `side` and recompute that
    /// side's best price.  Absence of a matching price is a no-op, not an
    /// error.  The other side is untouched.
    pub fn remove_order(&mut self, price: u64, side: Side)
        requires
            old(self).wf(),
        ensures
            final(self).wf(),
            final(self).depth_limit == old(self).depth_limit,
            side == Side::Buy ==> final(self).bids@ == remove_level(old(self).bids@, price)
                && final(self).asks@ == old(self).asks@ && final(self).best_ask == old(
                self,
            ).best_ask,
            side == Side::Sell ==> final(self).asks@ == remove_level(old(self).asks@, price)
                && final(self).bids@ == old(self).bids@ && final(self).best_bid == old(
                self,
            ).best_bid,
    {
        match side {
            Side::Buy => {
                remove_at_price(&mut self.bids, price);
                self.update_best_bid();
            },
            Side::Sell => {
                remove_at_price(&mut self.asks, price);
                self.update_best_ask();
            },
        }
    }

    /// Apply one incremental update: a zero quantity removes the level at
    /// that price on the update's side (a no-op if absent); any other
    /// quantity fully overwrites or inserts the level, after which levels
    /// beyond the depth limit are evicted.  The side's best price is
    /// recomputed either way.
    pub fn process_update(&mut self, update: OrderBookUpdate)
        requires
            old(self).wf(),
        ensures
            final(self).wf(),
            final(self).depth_limit == old(self).depth_limit,
            update.side == Side::Buy ==> final(self).bids@ == apply_bid(
                old(self).bids@,
                order_of(update),
                old(self).depth_limit as nat,
            ) && final(self).asks@ == old(self).asks@ && final(self).best_ask == old(
                self,
            ).best_ask,
            update.side == Side::Sell ==> final(self).asks@ == apply_ask(
                old(self).asks@,
                order_of(update),
                old(self).depth_limit as nat,
            ) && final(self).bids@ == old(self).bids@ && final(self).best_bid == old(
                self,
            ).best_bid,
    {
        if update.quantity == 0 {
            self.remove_order(update.price, update.side);
        } else {
            self.add_order(Order { price: update.price, quantity: update.quantity }, update.side);
        }
    }

    /// Replace the whole book state from a full feed payload: clear both
    /// sides, then apply every supplied level to its list's side with the
    /// same upsert-or-remove and eviction rule as an incremental update, in
    /// list order, and recompute both best prices.  The `side` tag of the
    /// supplied levels is ignored: membership in `bids` or `asks` fixes the
    /// side.  The resulting state depends on the payload and the depth
    /// limit alone, never on the state the book held before.
    pub fn process_snapshot(&mut self, bids: Vec<OrderBookUpdate>, asks: Vec<OrderBookUpdate>)
        requires
            old(self).wf(),
        ensures
            final(self).wf(),
            final(self).depth_limit == old(self).depth_limit,
            final(self).bids@ == snapshot_bids(bids@, old(self).depth_limit as nat),
            final(self).asks@ == snapshot_asks(asks@, old(self).depth_limit as nat),
    {
        let ghost d = self.depth_limit as nat;
        self.bids.clear();
        self.asks.clear();
        self.best_bid = None;
        self.best_ask = None;
        let mut i: usize = 0;
        while i < bids.len()
            invariant
                self.wf(),
                self.depth_limit as nat == d,
                i <= bids.len(),
                self.bids@ == apply_bids(Seq::empty(), bids@.take(i as int), d),
                self.asks@ == Seq::<Order>::empty(),
            decreases bids.len() - i,
        {
            let u = bids[i];
            let ghost prefix = bids@.take(i as int);
            if u.quantity == 0 {
                self.remove_order(u.price, Side::Buy);
            } else {
                self.add_order(Order { price: u.price, quantity: u.quantity }, Side::Buy);
            }
            proof {
                lemma_apply_bids_snoc(Seq::empty(), prefix, u, d);
                assert(bids@.take(i + 1) =~= prefix.push(u));
            }
            i = i + 1;
        }
        proof {
            assert(bids@.take(bids@.len() as int) =~= bids@);
        }
        let mut j: usize = 0;
        while j < asks.len()
            invariant
                self.wf(),
                self.depth_limit as nat == d,
                j <= asks.len(),
                self.bids@ == snapshot_bids(bids@, d),
                self.asks@ == apply_asks(Seq::empty(), asks@.take(j as int), d),
            decreases asks.len() - j,
        {
            let u = asks[j];
            let ghost prefix = asks@.take(j as int);
            if u.quantity == 0 {
                self.remove_order(u.price, Side::Sell);
            } else {
                self.add_order(Order { price: u.price, quantity: u.quantity }, Side::Sell);
            }
            proof {
                lemma_apply_asks_snoc(Seq::empty(), prefix, u, d);
                assert(asks@.take(j + 1) =~= prefix.push(u));
            }
            j = j + 1;
        }
        proof {
            assert(asks@.take(asks@.len() as int) =~= asks@);
        }
    }

    /// The resting levels of one side, most competitive first: bids from
    /// the highest price down, asks from the lowest price up.  A finite,
    /// restartable view for display or depth queries.
    pub fn get_levels(&self, side: Side) -> (r: Vec<Order>)
        ensures
            side == Side::Buy ==> r@ == self.bids@.reverse(),
            side == Side::Sell ==> r@ == self.asks@,
    {
        let mut r: Vec<Order> = Vec::new();
        match side {
            Side::Buy => {
                let mut i: usize = self.bids.len();
                while i > 0
                    invariant
                        i <= self.bids@.len(),
                        r@.len() == self.bids@.len() - i,
                        forall|k: int|
                            0 <= k < r@.len() ==> r@[k] == self.bids@[self.bids@.len() - 1 - k],
                    decreases i,
                {
                    i = i - 1;
                    r.push(self.bids[i]);
                }
                proof {
                    assert(r@ =~= self.bids@.reverse());
                }
            },
            Side::Sell => {
                let mut i: usize = 0;
                while i < self.asks.len()
                    invariant
                        i <= self.asks@.len(),
                        r@ == self.asks@.take(i as int),
                    decreases self.asks@.len() - i,
                {
                    let ghost prefix = r@;
                    r.push(self.asks[i]);
                    proof {
                        assert(self.asks@.take(i + 1) =~= prefix.push(self.asks@[i as int]));
                    }
                    i = i + 1;
                }
                proof {
                    assert(self.asks@.take(self.asks@.len() as int) =~= self.asks@);
                }
            },
        }
        r
    }

    /// Whether a level rests at `price` on `side`.
    pub fn contains_price(&self, price: u64, side: Side) -> (r: bool)
        requires
            self.wf(),
        ensures
            side == Side::Buy ==> r == has_price(self.bids@, price),
            side == Side::Sell ==> r == has_price(self.asks@, price),
    {
        self.get_level(price, side).is_some()
    }

    /// The level resting at `price` on `side`, `None` if that price is not
    /// resting there.
    pub fn get_level(&self, price: u64, side: Side) -> (r: Option<Order>)
        requires
            self.wf(),
        ensures
            match r {
                Some(o) => {
                    &&& o.price == price
                    &&& (side == Side::Buy ==> has_price(self.bids@, price) && self.bids@.contains(
                        o,
                    ))
                    &&& (side == Side::Sell ==> has_price(self.asks@, price)
                        && self.asks@.contains(o))
                },
                None => {
                    &&& (side == Side::Buy ==> !has_price(self.bids@, price))
                    &&& (side == Side::Sell ==> !has_price(self.asks@, price))
                },
            },
    {
        match side {
            Side::Buy => find_level(&self.bids, price),
            Side::Sell => find_level(&self.asks, price),
        }
    }
}

/// Bid eviction drops the least competitive levels: any price it drops
/// from a sorted bid side is lower than every price it keeps.
pub proof fn lemma_bid_eviction_drops_least_competitive(s: Seq<Order>, d: nat)
    requires
        sorted_by_price(s),
    ensures
        forall|p: u64, q: u64|
            has_price(s, p) && !has_price(keep_highest(s, d), p) && has_price(
                keep_highest(s, d),
                q,
            ) ==> p < q,
{
    let kept = keep_highest(s, d);
    if s.len() > d {
        let cut = s.len() - d;
        assert(forall|k: int| 0 <= k < kept.len() ==> kept[k] == s[cut + k]);
        assert forall|p: u64, q: u64|
            has_price(s, p) && !has_price(kept, p) && has_price(kept, q) implies p < q by {
            let i = choose|i: int| 0 <= i < s.len() && s[i].price == p;
            let j = choose|j: int| 0 <= j < kept.len() && kept[j].price == q;
            assert(i < cut) by {
                if i >= cut {
                    assert(kept[i - cut].price == p);
                    assert(has_price(kept, p));
                }
            }
            assert(s[cut + j].price == q);
        }
    }
}

/// Ask eviction drops the least competitive levels: any price it drops
/// from a sorted ask side is higher than every price it keeps.
pub proof fn lemma_ask_eviction_drops_least_competitive(s: Seq<Order>, d: nat)
    requires
        sorted_by_price(s),
    ensures
        forall|p: u64, q: u64|
            has_price(s, p) && !has_price(keep_lowest(s, d), p) && has_price(
                keep_lowest(s, d),
                q,
            ) ==> p > q,
{
    let kept = keep_lowest(s, d);
    if s.len() > d {
        assert(forall|k: int| 0 <= k < kept.len() ==> kept[k] == s[k]);
        assert forall|p: u64, q: u64|
            has_price(s, p) && !has_price(kept, p) && has_price(kept, q) implies p > q by {
            let i = choose|i: int| 0 <= i < s.len() && s[i].price == p;
            let j = choose|j: int| 0 <= j < kept.len() && kept[j].price == q;
            assert(i >= kept.len()) by {
                if i < kept.len() {
                    assert(kept[i].price == p);
                    assert(has_price(kept, p));
                }
            }
            assert(s[j].price == q);
        }
    }
}

/// The cached best prices of a well-formed book are exactly the extreme
/// resting prices: the best bid is the maximum bid price and is absent iff
/// no bid rests; the best ask is the minimum ask price and is absent iff
/// no ask rests.
pub proof fn lemma_best_prices_are_extreme(book: OrderBook)
    requires
        book.wf(),
    ensures
        book.best_bid is None <==> book.bids@.len() == 0,
        book.best_ask is None <==> book.asks@.len() == 0,
        book.best_bid matches Some(p) ==> has_price(book.bids@, p) && (forall|i: int|
            0 <= i < book.bids@.len() ==> book.bids@[i].price <= p),
        book.best_ask matches Some(p) ==> has_price(book.asks@, p) && (forall|i: int|
            0 <= i < book.asks@.len() ==> book.asks@[i].price >= p),
{
    let bs = book.bids@;
    if bs.len() > 0 {
        let last = bs.len() - 1;
        assert(bs[last].price == book.best_bid->0);
        assert(has_price(bs, bs[last].price));
        assert(forall|i: int| 0 <= i < last ==> bs[i].price < bs[last].price);
    }
    let As = book.asks@;
    if As.len() > 0 {
        assert(As[0].price == book.best_ask->0);
        assert(has_price(As, As[0].price));
        assert(forall|i: int| 0 < i < As.len() ==> As[0].price < #[trigger] As[i].price);
    }
}

/// A well-formed book — the state every public operation establishes —
/// retains at most `depth_limit` levels on each side.
pub proof fn lemma_depth_bounded(book: OrderBook)
    requires
        book.wf(),
    ensures
        book.bids@.len() <= book.depth_limit,
        book.asks@.len() <= book.depth_limit,
{
}

/// A snapshot determines the observable state: two well-formed books with
/// the same depth limit that each hold the result of the same snapshot
/// agree on their sides and best prices.  In particular, applying one
/// snapshot twice leaves the same state as applying it once.
pub proof fn lemma_snapshot_idempotent(
    b1: OrderBook,
    b2: OrderBook,
    bids: Seq<OrderBookUpdate>,
    asks: Seq<OrderBookUpdate>,
)
    requires
        b1.wf(),
        b2.wf(),
        b1.depth_limit == b2.depth_limit,
        b1.bids@ == snapshot_bids(bids, b1.depth_limit as nat),
        b1.asks@ == snapshot_asks(asks, b1.depth_limit as nat),
        b2.bids@ == snapshot_bids(bids, b2.depth_limit as nat),
        b2.asks@ == snapshot_asks(asks, b2.depth_limit as nat),
    ensures
        b1.bids@ == b2.bids@,
        b1.asks@ == b2.asks@,
        b1.best_bid == b2.best_bid,
        b1.best_ask == b2.best_ask,
{
}

/// Scan a side for the level resting at `price`.
fn find_level(v: &Vec<Order>, price: u64) -> (r: Option<Order>)
    ensures
        match r {
            Some(o) => o.price == price && has_price(v@, price) && v@.contains(o),
            None => !has_price(v@, price),
        },
{
    let mut i: usize = 0;
    while i < v.len()
        invariant
            i <= v@.len(),
            forall|k: int| 0 <= k < i ==> v@[k].price != price,
        decreases v@.len() - i,
    {
        if v[i].price == price {
            proof {
                assert(v@.contains(v@[i as int]));
                assert(has_price(v@, price)) by {
                    assert(0 <= i < v@.len() && v@[i as int].price == price);
                }
            }
            return Some(v[i]);
        }
        i = i + 1;
    }
    proof {
        assert(!has_price(v@, price)) by {
            if has_price(v@, price) {
                let k = choose|k: int| 0 <= k < v@.len() && v@[k].price == price;
            }
        }
    }
    None
}

} // verus!
