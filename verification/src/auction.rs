//! Resolution of the day's sealed-bid auctions.
//!
//! Each auction holds bids on a few items. Every round, each remaining bid is
//! capped to what its bidder can still afford (their points minus the reserve
//! they asked to keep), the highest capped bid wins (ties go to the bid that
//! comes last in the auction's order), and the winner pays the highest capped
//! bid that anybody else made on the same item (or nothing). The winner's other
//! bids and every other bid on that item then leave the auction. Rounds go on
//! until no bid is left or the best capped bid is zero.
use vstd::prelude::*;
use std::collections::HashMap;
use rand::rngs::StdRng;
use rand::SeedableRng;
use rand::seq::SliceRandom;

verus! {

broadcast use vstd::std_specs::hash::group_hash_axioms;

/// A bid of `user` on `item`: pay up to `price`, but keep `reserve` points.
pub struct Bid {
    pub item: String,
    pub user: i64,
    pub price: i32,
    pub reserve: i32,
}

/// `user` won `item` and pays `cost` for it.
pub struct Win {
    pub user: i64,
    pub item: String,
    pub cost: i32,
}

/// Largest offer that `b` can still make when its bidder holds `points`:
/// its price, at most `points - reserve`, and never below zero.
pub open spec fn capped_price(b: Bid, points: i32) -> int {
    let limit = points - b.reserve;
    let m = if b.price <= limit { b.price as int } else { limit };
    if m < 0 { 0 } else { m }
}

/// `b` with its price capped to what its bidder can afford under `points`.
pub open spec fn capped(b: Bid, points: Map<i64, i32>) -> Bid {
    Bid { item: b.item, user: b.user, price: capped_price(b, points[b.user]) as i32, reserve: b.reserve }
}

/// Every bid of `bids` capped under `points`, in the same order.
pub open spec fn cap_all(bids: Seq<Bid>, points: Map<i64, i32>) -> Seq<Bid> {
    Seq::new(bids.len(), |i: int| capped(bids[i], points))
}

/// Index of the winning bid: the highest price, and among equal prices the
/// one that comes last.
pub open spec fn top_bid_index(s: Seq<Bid>) -> int
    decreases s.len(),
{
    if s.len() <= 1 {
        0
    } else {
        let j = top_bid_index(s.drop_last());
        if s[j].price <= s.last().price {
            s.len() - 1
        } else {
            j
        }
    }
}

/// What the winner of `item` pays: the highest price among the bids of `rest`
/// on that item, or zero.
pub open spec fn second_price(rest: Seq<Bid>, item: Seq<char>) -> int
    decreases rest.len(),
{
    if rest.len() == 0 {
        0
    } else {
        let p = second_price(rest.drop_last(), item);
        if rest.last().item@ == item && rest.last().price > p {
            rest.last().price as int
        } else {
            p
        }
    }
}

/// The bids of `s` that are neither by `user` nor on `item`, in order.
pub open spec fn without_conflicts(s: Seq<Bid>, user: i64, item: Seq<char>) -> Seq<Bid>
    decreases s.len(),
{
    if s.len() == 0 {
        s
    } else {
        let front = without_conflicts(s.drop_last(), user, item);
        if s.last().user != user && s.last().item@ != item {
            front.push(s.last())
        } else {
            front
        }
    }
}

/// Every bidder of `bids` has an entry in `points`.
pub open spec fn bidders_known(bids: Seq<Bid>, points: Map<i64, i32>) -> bool {
    forall|i: int| 0 <= i < bids.len() ==> points.contains_key(#[trigger] bids[i].user)
}

/// The wins of one auction, in the order in which they are decided, and the
/// points that every player holds afterwards.
pub open spec fn resolve(bids: Seq<Bid>, points: Map<i64, i32>) -> (Seq<Win>, Map<i64, i32>)
    decreases bids.len(),
{
    if bids.len() == 0 {
        (Seq::empty(), points)
    } else {
        let c = cap_all(bids, points);
        let i = top_bid_index(c);
        let w = c[i];
        if w.price <= 0 {
            (Seq::empty(), points)
        } else {
            let rest = c.remove(i);
            let cost = second_price(rest, w.item@);
            let next = without_conflicts(rest, w.user, w.item@);
            let after = points.insert(w.user, (points[w.user] - cost) as i32);
            proof {
                lemma_top_bid_index(c);
                lemma_without_conflicts_len(rest, w.user, w.item@);
            }
            let r = resolve(next, after);
            (seq![Win { user: w.user, item: w.item, cost: cost as i32 }] + r.0, r.1)
        }
    }
}

/// The auctions of one day, resolved one after the other, each starting from
/// the points that the previous one left.
pub open spec fn resolve_all(auctions: Seq<Seq<Bid>>, points: Map<i64, i32>) -> (Seq<Win>, Map<i64, i32>)
    decreases auctions.len(),
{
    if auctions.len() == 0 {
        (Seq::empty(), points)
    } else {
        let first = resolve(auctions[0], points);
        let others = resolve_all(auctions.drop_first(), first.1);
        (first.0 + others.0, others.1)
    }
}

/// Sum of what `user` pays over `wins`.
pub open spec fn charged(wins: Seq<Win>, user: i64) -> int
    decreases wins.len(),
{
    if wins.len() == 0 {
        0
    } else {
        charged(wins.drop_last(), user) + if wins.last().user == user { wins.last().cost as int } else { 0 }
    }
}

// ---------------------------------------------------------------------------
// Lemmas on the pieces of a round
// ---------------------------------------------------------------------------

/// The winning index lies in the auction, no bid beats it, and every bid
/// after it is strictly lower.
pub proof fn lemma_top_bid_index(s: Seq<Bid>)
    requires
        s.len() > 0,
    ensures
        0 <= top_bid_index(s) < s.len(),
        forall|k: int| 0 <= k < s.len() ==> #[trigger] s[k].price <= s[top_bid_index(s)].price,
        forall|k: int| top_bid_index(s) < k < s.len() ==> #[trigger] s[k].price < s[top_bid_index(s)].price,
    decreases s.len(),
{
    if s.len() > 1 {
        let t = s.drop_last();
        lemma_top_bid_index(t);
        assert forall|k: int| 0 <= k < t.len() implies #[trigger] s[k] == t[k] by {}
    }
}

/// Dropping conflicting bids never lengthens an auction.
pub proof fn lemma_without_conflicts_len(s: Seq<Bid>, user: i64, item: Seq<char>)
    ensures
        without_conflicts(s, user, item).len() <= s.len(),
    decreases s.len(),
{
    if s.len() > 0 {
        lemma_without_conflicts_len(s.drop_last(), user, item);
    }
}

/// Each bid that `without_conflicts` keeps is a bid of `s`, by another user
/// and on another item.
proof fn lemma_without_conflicts_elems(s: Seq<Bid>, user: i64, item: Seq<char>)
    ensures
        forall|k: int| 0 <= k < without_conflicts(s, user, item).len() ==> {
            &&& (#[trigger] without_conflicts(s, user, item)[k]).user != user
            &&& without_conflicts(s, user, item)[k].item@ != item
            &&& exists|j: int| 0 <= j < s.len() && s[j] == without_conflicts(s, user, item)[k]
        },
    decreases s.len(),
{
    if s.len() > 0 {
        lemma_without_conflicts_elems(s.drop_last(), user, item);
        let front = without_conflicts(s.drop_last(), user, item);
        assert forall|k: int| 0 <= k < without_conflicts(s, user, item).len() implies {
            &&& (#[trigger] without_conflicts(s, user, item)[k]).user != user
            &&& without_conflicts(s, user, item)[k].item@ != item
            &&& exists|j: int| 0 <= j < s.len() && s[j] == without_conflicts(s, user, item)[k]
        } by {
            if k < front.len() {
                let j = choose|j: int| 0 <= j < s.drop_last().len() && s.drop_last()[j] == front[k];
                assert(s[j] == front[k]);
            } else {
                assert(s[s.len() - 1] == without_conflicts(s, user, item)[k]);
            }
        }
    }
}

proof fn lemma_second_price_bounds(s: Seq<Bid>, item: Seq<char>, bound: int)
    requires
        bound >= 0,
        forall|k: int| 0 <= k < s.len() ==> #[trigger] s[k].price <= bound,
    ensures
        0 <= second_price(s, item) <= bound,
    decreases s.len(),
{
    if s.len() > 0 {
        lemma_second_price_bounds(s.drop_last(), item, bound);
    }
}

proof fn lemma_capped_facts(b: Bid, points: Map<i64, i32>)
    ensures
        0 <= capped(b, points).price <= if b.price < 0 { 0 } else { b.price as int },
        capped(b, points).price > 0 ==> capped(b, points).price <= points[b.user] - b.reserve,
        capped(b, points).price == capped_price(b, points[b.user]),
        capped(b, points).user == b.user,
        capped(b, points).item == b.item,
        capped(b, points).reserve == b.reserve,
{
}

/// One round keeps every bidder of the next round known and the set of
/// players unchanged.
proof fn lemma_round_keeps_bidders(bids: Seq<Bid>, points: Map<i64, i32>)
    requires
        bids.len() > 0,
        bidders_known(bids, points),
    ensures
        ({
            let c = cap_all(bids, points);
            let i = top_bid_index(c);
            let w = c[i];
            let rest = c.remove(i);
            let cost = second_price(rest, w.item@);
            let next = without_conflicts(rest, w.user, w.item@);
            let after = points.insert(w.user, (points[w.user] - cost) as i32);
            &&& bidders_known(next, after)
            &&& after.dom() == points.dom()
        }),
{
    let c = cap_all(bids, points);
    lemma_top_bid_index(c);
    let i = top_bid_index(c);
    let w = c[i];
    let rest = c.remove(i);
    let cost = second_price(rest, w.item@);
    let next = without_conflicts(rest, w.user, w.item@);
    let after = points.insert(w.user, (points[w.user] - cost) as i32);
    lemma_without_conflicts_elems(rest, w.user, w.item@);
    assert(points.contains_key(bids[i].user));
    assert forall|k: int| 0 <= k < next.len() implies after.contains_key(#[trigger] next[k].user) by {
        let j = choose|j: int| 0 <= j < rest.len() && rest[j] == next[k];
        if j < i {
            assert(rest[j] == c[j]);
            assert(points.contains_key(bids[j].user));
        } else {
            assert(rest[j] == c[j + 1]);
            assert(points.contains_key(bids[j + 1].user));
        }
    }
    assert(after.dom() =~= points.dom());
}

// ---------------------------------------------------------------------------
// Executable resolution
// ---------------------------------------------------------------------------

fn cap_bids(bids: &Vec<Bid>, points: &HashMap<i64, i32>) -> (c: Vec<Bid>)
    requires
        bidders_known(bids@, points@),
    ensures
        c@ == cap_all(bids@, points@),
{
    let mut c: Vec<Bid> = Vec::new();
    let mut k: usize = 0;
    while k < bids.len()
        invariant
            k <= bids@.len(),
            bidders_known(bids@, points@),
            c@ =~= cap_all(bids@, points@).take(k as int),
        decreases bids@.len() - k,
    {
        let b = &bids[k];
        assert(points@.contains_key(bids@[k as int].user));
        let p: i32 = match points.get(&b.user) {
            Some(v) => *v,
            None => 0,
        };
        let limit: i64 = p as i64 - b.reserve as i64;
        let m: i64 = if (b.price as i64) <= limit { b.price as i64 } else { limit };
        let price: i32 = if m < 0 { 0 } else { m as i32 };
        c.push(Bid { item: b.item.clone(), user: b.user, price, reserve: b.reserve });
        k = k + 1;
    }
    c
}

fn find_top(c: &Vec<Bid>) -> (i: usize)
    requires
        c@.len() > 0,
    ensures
        i == top_bid_index(c@),
        i < c@.len(),
{
    let mut best: usize = 0;
    let mut k: usize = 1;
    while k < c.len()
        invariant
            1 <= k <= c@.len(),
            best < k,
            best == top_bid_index(c@.take(k as int)),
        decreases c@.len() - k,
    {
        assert(c@.take(k as int + 1).drop_last() =~= c@.take(k as int));
        if c[best].price <= c[k].price {
            best = k;
        }
        k = k + 1;
    }
    assert(c@.take(c@.len() as int) =~= c@);
    best
}

fn find_second_price(rest: &Vec<Bid>, item: &String) -> (p: i32)
    requires
        forall|k: int| 0 <= k < rest@.len() ==> #[trigger] rest@[k].price >= 0,
    ensures
        p == second_price(rest@, item@),
{
    let mut p: i32 = 0;
    let mut k: usize = 0;
    while k < rest.len()
        invariant
            k <= rest@.len(),
            p == second_price(rest@.take(k as int), item@),
        decreases rest@.len() - k,
    {
        assert(rest@.take(k as int + 1).drop_last() =~= rest@.take(k as int));
        if rest[k].item == *item && rest[k].price > p {
            p = rest[k].price;
        }
        k = k + 1;
    }
    assert(rest@.take(rest@.len() as int) =~= rest@);
    p
}

fn drop_conflicts(rest: &Vec<Bid>, user: i64, item: &String) -> (next: Vec<Bid>)
    ensures
        next@ == without_conflicts(rest@, user, item@),
{
    let mut next: Vec<Bid> = Vec::new();
    let mut k: usize = 0;
    while k < rest.len()
        invariant
            k <= rest@.len(),
            next@ == without_conflicts(rest@.take(k as int), user, item@),
        decreases rest@.len() - k,
    {
        assert(rest@.take(k as int + 1).drop_last() =~= rest@.take(k as int));
        let b = &rest[k];
        if b.user != user && !(b.item == *item) {
            next.push(Bid { item: b.item.clone(), user: b.user, price: b.price, reserve: b.reserve });
        }
        k = k + 1;
    }
    assert(rest@.take(rest@.len() as int) =~= rest@);
    next
}

/// Resolves one auction whose bids stand in `bids` in the order that decides
/// ties; `points` holds every player's points and is updated with what the
/// winners pay.
pub fn resolve_auction(bids: Vec<Bid>, points: &mut HashMap<i64, i32>) -> (wins: Vec<Win>)
    requires
        bidders_known(bids@, old(points)@),
    ensures
        (wins@, final(points)@) == resolve(bids@, old(points)@),
{
    let ghost target = resolve(bids@, points@);
    let mut wins: Vec<Win> = Vec::new();
    let mut cur = bids;
    loop
        invariant
            bidders_known(cur@, points@),
            wins@ + resolve(cur@, points@).0 == target.0,
            resolve(cur@, points@).1 == target.1,
            target == resolve(bids@, old(points)@),
        decreases cur@.len(),
    {
        if cur.len() == 0 {
            assert(resolve(cur@, points@).0 =~= Seq::<Win>::empty());
            assert(wins@ + Seq::<Win>::empty() =~= wins@);
            return wins;
        }
        let ghost pts = points@;
        let mut c = cap_bids(&cur, points);
        proof {
            lemma_top_bid_index(c@);
        }
        let top = find_top(&c);
        if c[top].price <= 0 {
            assert(resolve(cur@, points@).0 =~= Seq::<Win>::empty());
            assert(wins@ + Seq::<Win>::empty() =~= wins@);
            return wins;
        }
        let winner = c.remove(top);
        let ghost rest = c@;
        proof {
            lemma_capped_facts(cur@[top as int], pts);
            assert forall|k: int| 0 <= k < rest.len() implies #[trigger] rest[k].price >= 0 && rest[k].price <= winner.price by {
                if k < top {
                    assert(rest[k] == cap_all(cur@, pts)[k]);
                    lemma_capped_facts(cur@[k], pts);
                } else {
                    assert(rest[k] == cap_all(cur@, pts)[k + 1]);
                    lemma_capped_facts(cur@[k + 1], pts);
                }
            }
            lemma_second_price_bounds(rest, winner.item@, winner.price as int);
            lemma_round_keeps_bidders(cur@, pts);
            lemma_without_conflicts_len(rest, winner.user, winner.item@);
            assert(pts.contains_key(cur@[top as int].user));
        }
        let cost = find_second_price(&c, &winner.item);
        let before: i32 = match points.get(&winner.user) {
            Some(v) => *v,
            None => 0,
        };
        points.insert(winner.user, before - cost);
        let next = drop_conflicts(&c, winner.user, &winner.item);
        let ghost old_wins = wins@;
        wins.push(Win { user: winner.user, item: winner.item, cost });
        proof {
            assert(old_wins.push(wins@.last()) == wins@);
            assert(old_wins + resolve(cur@, pts).0 == target.0);
            assert(resolve(cur@, pts).0 =~= seq![wins@.last()] + resolve(next@, points@).0);
            assert(wins@ + resolve(next@, points@).0 =~= old_wins + (seq![wins@.last()] + resolve(next@, points@).0));
        }
        cur = next;
    }
}

// ---------------------------------------------------------------------------
// Shuffling (rand)
// ---------------------------------------------------------------------------

/// `rand::rngs::StdRng`, declared so that a generator can be carried through
/// verified code; nothing inside it is visible.
#[verifier::external_type_specification]
#[verifier::external_body]
pub struct ExStdRng(StdRng);

/// `StdRng::from_entropy`: a generator seeded from the operating system.
/// Nothing is claimed of the state it starts in; it panics only where the
/// operating system gives no randomness.
#[verifier::external_body]
fn fresh_rng() -> StdRng {
    StdRng::from_entropy()
}

/// `SliceRandom::shuffle` on the bids: a Fisher-Yates shuffle, made of swaps,
/// so the bids afterwards are the same bids in some order. Which order comes
/// out depends on the generator and is left open.
#[verifier::external_body]
fn shuffle_bids(bids: &mut Vec<Bid>, rng: &mut StdRng)
    ensures
        final(bids)@.to_multiset() == old(bids)@.to_multiset(),
{
    bids.as_mut_slice().shuffle(rng);
}


// ---------------------------------------------------------------------------
// What a resolved auction guarantees
// ---------------------------------------------------------------------------

proof fn lemma_charged_concat(a: Seq<Win>, b: Seq<Win>, user: i64)
    ensures
        charged(a + b, user) == charged(a, user) + charged(b, user),
    decreases b.len(),
{
    if b.len() == 0 {
        assert(a + b =~= a);
    } else {
        lemma_charged_concat(a, b.drop_last(), user);
        assert((a + b).drop_last() =~= a + b.drop_last());
    }
}

proof fn lemma_charged_absent(wins: Seq<Win>, user: i64)
    requires
        forall|k: int| 0 <= k < wins.len() ==> (#[trigger] wins[k]).user != user,
    ensures
        charged(wins, user) == 0,
    decreases wins.len(),
{
    if wins.len() > 0 {
        lemma_charged_absent(wins.drop_last(), user);
    }
}

/// A bid of `bids` on which `w` was won: same bidder and item, a positive
/// price at least the cost, and a reserve that the bidder's `final_points`
/// still cover.
pub open spec fn backed_by(w: Win, bids: Seq<Bid>, final_points: Map<i64, i32>) -> bool {
    exists|j: int|
        0 <= j < bids.len() && #[trigger] bids[j].user == w.user && bids[j].item@ == w.item@
            && 0 < bids[j].price && 0 <= w.cost <= bids[j].price && final_points[w.user]
            >= bids[j].reserve
}

proof fn lemma_resolve_facts(bids: Seq<Bid>, points: Map<i64, i32>)
    requires
        bidders_known(bids, points),
    ensures
        ({
            let (wins, fin) = resolve(bids, points);
            &&& fin.dom() == points.dom()
            &&& forall|u: i64| points.contains_key(u) ==> fin[u] + charged(wins, u) == points[u]
            &&& forall|k: int| 0 <= k < wins.len() ==> backed_by(#[trigger] wins[k], bids, fin)
            &&& forall|a: int, b: int|
                0 <= a < b < wins.len() ==> (#[trigger] wins[a]).user != (#[trigger] wins[b]).user
                    && wins[a].item@ != wins[b].item@
        }),
    decreases bids.len(),
{
    lemma_resolve_keeps_players(bids, points);
    if bids.len() == 0 {
        return;
    }
    let c = cap_all(bids, points);
    lemma_top_bid_index(c);
    let i = top_bid_index(c);
    let w = c[i];
    if w.price <= 0 {
        return;
    }
    let rest = c.remove(i);
    let cost = second_price(rest, w.item@);
    let next = without_conflicts(rest, w.user, w.item@);
    let after = points.insert(w.user, (points[w.user] - cost) as i32);
    lemma_round_keeps_bidders(bids, points);
    lemma_without_conflicts_len(rest, w.user, w.item@);
    lemma_without_conflicts_elems(rest, w.user, w.item@);
    lemma_resolve_facts(next, after);
    let r = resolve(next, after);
    let head = Win { user: w.user, item: w.item, cost: cost as i32 };
    let wins = seq![head] + r.0;
    let fin = r.1;
    assert(resolve(bids, points) == (wins, fin));
    lemma_capped_facts(bids[i], points);
    assert forall|k: int| 0 <= k < rest.len() implies #[trigger] rest[k].price <= w.price by {
        if k < i {
            assert(rest[k] == c[k]);
        } else {
            assert(rest[k] == c[k + 1]);
        }
    }
    lemma_second_price_bounds(rest, w.item@, w.price as int);
    // every later win is by another user, on another item, backed by a bid of `next`
    assert forall|k: int| 0 <= k < r.0.len() implies (#[trigger] r.0[k]).user != w.user && r.0[k].item@ != w.item@ by {
        assert(backed_by(r.0[k], next, fin));
        let j = choose|j: int|
            0 <= j < next.len() && #[trigger] next[j].user == r.0[k].user && next[j].item@ == r.0[k].item@
                && 0 < next[j].price && 0 <= r.0[k].cost <= next[j].price && fin[r.0[k].user] >= next[j].reserve;
        assert(next[j].user == r.0[k].user);
    }
    // the points of the first winner are settled in this round
    lemma_charged_absent(r.0, w.user);
    lemma_charged_concat(seq![head], r.0, w.user);
    assert(seq![head].drop_last() =~= Seq::<Win>::empty());
    assert(fin[w.user] == after[w.user]);
    // balance
    assert forall|u: i64| points.contains_key(u) implies fin[u] + charged(wins, u) == points[u] by {
        lemma_charged_concat(seq![head], r.0, u);
        assert(charged(seq![head].drop_last(), u) == 0);
        assert(seq![head].last() == head);
        assert(charged(seq![head], u) == if u == w.user { cost } else { 0 });
        assert(after.contains_key(u));
        if u != w.user {
            assert(fin[u] + charged(r.0, u) == after[u]);
        }
    }
    // backing bids
    assert forall|k: int| 0 <= k < wins.len() implies backed_by(#[trigger] wins[k], bids, fin) by {
        if k == 0 {
            assert(wins[0] == head);
            assert(bids[i].user == head.user);
        } else {
            assert(wins[k] == r.0[k - 1]);
            let v = r.0[k - 1];
            assert(backed_by(v, next, fin));
            let j = choose|j: int|
                0 <= j < next.len() && #[trigger] next[j].user == v.user && next[j].item@ == v.item@
                    && 0 < next[j].price && 0 <= v.cost <= next[j].price && fin[v.user] >= next[j].reserve;
            let m = choose|m: int| 0 <= m < rest.len() && rest[m] == next[j];
            let jj = if m < i { m } else { m + 1 };
            assert(rest[m] == c[jj]);
            lemma_capped_facts(bids[jj], points);
            assert(bids[jj].user == v.user);
        }
    }
    // distinct winners and items
    assert forall|a: int, b: int| 0 <= a < b < wins.len() implies (#[trigger] wins[a]).user != (#[trigger] wins[b]).user
        && wins[a].item@ != wins[b].item@ by {
        assert(wins[b] == r.0[b - 1]);
        if a > 0 {
            assert(wins[a] == r.0[a - 1]);
        } else {
            assert(wins[a] == head);
        }
    }
}

/// What bid `b` can offer when its bidder holds `points[b.user]`.
pub open spec fn offer(b: Bid, points: Map<i64, i32>) -> int {
    capped_price(b, points[b.user])
}

proof fn lemma_second_price_is_max(s: Seq<Bid>, item: Seq<char>)
    requires
        forall|k: int| 0 <= k < s.len() ==> #[trigger] s[k].price >= 0,
    ensures
        forall|k: int| 0 <= k < s.len() && (#[trigger] s[k]).item@ == item ==> s[k].price <= second_price(s, item),
        second_price(s, item) == 0 || exists|k: int|
            0 <= k < s.len() && (#[trigger] s[k]).item@ == item && s[k].price == second_price(s, item),
    decreases s.len(),
{
    if s.len() > 0 {
        let t = s.drop_last();
        assert forall|k: int| 0 <= k < t.len() implies #[trigger] t[k].price >= 0 by {
            assert(t[k] == s[k]);
        }
        lemma_second_price_is_max(t, item);
        assert forall|k: int| 0 <= k < s.len() && (#[trigger] s[k]).item@ == item implies s[k].price <= second_price(s, item) by {
            if k < t.len() {
                assert(t[k] == s[k]);
            }
        }
        if second_price(s, item) != 0 {
            if second_price(s, item) == second_price(t, item) {
                let k = choose|k: int| 0 <= k < t.len() && (#[trigger] t[k]).item@ == item && t[k].price == second_price(t, item);
                assert(s[k] == t[k]);
            } else {
                assert(s[s.len() - 1].item@ == item);
            }
        }
    }
}

/// Law: the first win of an auction goes to the bid with the highest offer
/// (the offer being the bid capped to what its bidder can afford), ties going
/// to the later bid, and its cost is the highest offer that any other bid
/// makes on the same item: at least each of those offers, and either zero or
/// one of them.
pub proof fn law_winner_pays_highest_other_offer(bids: Seq<Bid>, points: Map<i64, i32>)
    requires
        bidders_known(bids, points),
        resolve(bids, points).0.len() > 0,
    ensures
        ({
            let w = resolve(bids, points).0[0];
            exists|i: int|
                0 <= i < bids.len() && bids[i].user == w.user && bids[i].item@ == w.item@
                    && offer(bids[i], points) > 0
                    && (forall|j: int| 0 <= j < bids.len() ==> #[trigger] offer(bids[j], points) <= offer(bids[i], points))
                    && (forall|j: int| i < j < bids.len() ==> #[trigger] offer(bids[j], points) < offer(bids[i], points))
                    && (forall|j: int|
                        0 <= j < bids.len() && j != i && bids[j].item@ == w.item@ ==> #[trigger] offer(bids[j], points) <= w.cost)
                    && (w.cost == 0 || exists|j: int|
                        0 <= j < bids.len() && j != i && bids[j].item@ == w.item@ && #[trigger] offer(bids[j], points) == w.cost)
        }),
{
    let c = cap_all(bids, points);
    lemma_top_bid_index(c);
    let i = top_bid_index(c);
    let w = c[i];
    assert(w.price > 0);
    let rest = c.remove(i);
    let cost = second_price(rest, w.item@);
    assert forall|k: int| 0 <= k < bids.len() implies #[trigger] c[k].price == offer(bids[k], points) by {
        lemma_capped_facts(bids[k], points);
    }
    assert forall|k: int| 0 <= k < rest.len() implies #[trigger] rest[k].price >= 0 && rest[k].price <= w.price by {
        if k < i {
            assert(rest[k] == c[k]);
            assert(c[k].price == offer(bids[k], points));
        } else {
            assert(rest[k] == c[k + 1]);
            assert(c[k + 1].price == offer(bids[k + 1], points));
        }
    }
    lemma_second_price_is_max(rest, w.item@);
    lemma_second_price_bounds(rest, w.item@, w.price as int);
    let r = resolve(bids, points);
    assert(r.0[0] == Win { user: w.user, item: w.item, cost: cost as i32 });
    assert(c[i].price == offer(bids[i], points));
    assert forall|j: int| 0 <= j < bids.len() implies #[trigger] offer(bids[j], points) <= offer(bids[i], points) by {
        assert(c[j].price == offer(bids[j], points));
    }
    assert forall|j: int| i < j < bids.len() implies #[trigger] offer(bids[j], points) < offer(bids[i], points) by {
        assert(c[j].price == offer(bids[j], points));
    }
    assert forall|j: int| 0 <= j < bids.len() && j != i && bids[j].item@ == w.item@ implies #[trigger] offer(bids[j], points) <= cost by {
        assert(c[j].price == offer(bids[j], points));
        if j < i {
            assert(rest[j] == c[j]);
        } else {
            assert(rest[j - 1] == c[j]);
        }
    }
    if cost != 0 {
        let k = choose|k: int| 0 <= k < rest.len() && (#[trigger] rest[k]).item@ == w.item@ && rest[k].price == cost;
        let j = if k < i { k } else { k + 1 };
        assert(rest[k] == c[j]);
        assert(c[j].price == offer(bids[j], points));
        assert(offer(bids[j], points) == cost);
    }
}

/// `u` won one of the first `k` wins.
pub open spec fn earlier_winner(wins: Seq<Win>, k: int, u: i64) -> bool {
    exists|m: int| 0 <= m < k && #[trigger] wins[m].user == u
}

/// Win `k` rests on a bid `i` of its winner on its item, and costs the highest
/// offer among the other bids on that item whose bidders had not won before:
/// at least each of those offers, and either zero or one of them.
pub open spec fn pays_highest_other_offer(wins: Seq<Win>, k: int, bids: Seq<Bid>, points: Map<i64, i32>) -> bool {
    let w = wins[k];
    exists|i: int|
        0 <= i < bids.len() && bids[i].user == w.user && bids[i].item@ == w.item@
            && (forall|j: int|
                0 <= j < bids.len() && j != i && bids[j].item@ == w.item@ && !earlier_winner(wins, k, bids[j].user)
                    ==> #[trigger] offer(bids[j], points) <= w.cost)
            && (w.cost == 0 || exists|j: int|
                0 <= j < bids.len() && j != i && bids[j].item@ == w.item@ && !earlier_winner(wins, k, bids[j].user)
                    && #[trigger] offer(bids[j], points) == w.cost)
}

proof fn lemma_without_conflicts_index(s: Seq<Bid>, user: i64, item: Seq<char>) -> (idx: Seq<int>)
    ensures
        idx.len() == without_conflicts(s, user, item).len(),
        forall|m: int| 0 <= m < idx.len() ==> 0 <= #[trigger] idx[m] < s.len()
            && without_conflicts(s, user, item)[m] == s[idx[m]],
        forall|a: int, b: int| 0 <= a < b < idx.len() ==> #[trigger] idx[a] < #[trigger] idx[b],
        forall|r: int| 0 <= r < s.len() && (#[trigger] s[r]).user != user && s[r].item@ != item
            ==> exists|m: int| 0 <= m < idx.len() && idx[m] == r,
    decreases s.len(),
{
    if s.len() == 0 {
        Seq::empty()
    } else {
        let t = s.drop_last();
        let front = lemma_without_conflicts_index(t, user, item);
        let last = s.len() - 1;
        assert forall|r: int| 0 <= r < t.len() implies #[trigger] t[r] == s[r] by {}
        if s.last().user != user && s.last().item@ != item {
            let idx = front.push(last);
            assert forall|r: int| 0 <= r < s.len() && (#[trigger] s[r]).user != user && s[r].item@ != item
                implies exists|m: int| 0 <= m < idx.len() && idx[m] == r by {
                if r < last {
                    assert(t[r] == s[r]);
                    let m = choose|m: int| 0 <= m < front.len() && front[m] == r;
                    assert(idx[m] == r);
                } else {
                    assert(idx[front.len() as int] == r);
                }
            }
            idx
        } else {
            assert forall|r: int| 0 <= r < s.len() && (#[trigger] s[r]).user != user && s[r].item@ != item
                implies exists|m: int| 0 <= m < front.len() && front[m] == r by {
                assert(t[r] == s[r]);
            }
            front
        }
    }
}

proof fn lemma_recap(b: Bid, p: Map<i64, i32>, q: Map<i64, i32>)
    requires
        q[b.user] == p[b.user],
    ensures
        offer(capped(b, p), q) == offer(b, p),
{
    lemma_capped_facts(b, p);
}

proof fn lemma_first_win_cost(bids: Seq<Bid>, points: Map<i64, i32>)
    requires
        bidders_known(bids, points),
        resolve(bids, points).0.len() > 0,
    ensures
        pays_highest_other_offer(resolve(bids, points).0, 0, bids, points),
{
    let wins = resolve(bids, points).0;
    law_winner_pays_highest_other_offer(bids, points);
    let wk = wins[0];
    assert forall|u: i64| !earlier_winner(wins, 0, u) by {}
    let i0 = choose|i0: int|
        0 <= i0 < bids.len() && bids[i0].user == wk.user && bids[i0].item@ == wk.item@
            && offer(bids[i0], points) > 0
            && (forall|j: int| 0 <= j < bids.len() ==> #[trigger] offer(bids[j], points) <= offer(bids[i0], points))
            && (forall|j: int| i0 < j < bids.len() ==> #[trigger] offer(bids[j], points) < offer(bids[i0], points))
            && (forall|j: int|
                0 <= j < bids.len() && j != i0 && bids[j].item@ == wk.item@ ==> #[trigger] offer(bids[j], points) <= wk.cost)
            && (wk.cost == 0 || exists|j: int|
                0 <= j < bids.len() && j != i0 && bids[j].item@ == wk.item@ && #[trigger] offer(bids[j], points) == wk.cost);
    if wk.cost != 0 {
        let j = choose|j: int|
            0 <= j < bids.len() && j != i0 && bids[j].item@ == wk.item@ && #[trigger] offer(bids[j], points) == wk.cost;
        assert(!earlier_winner(wins, 0, bids[j].user));
    }
}

/// From an index of `next` back to the index of `bids` whose capped bid it is.
spec fn origin(idx: Seq<int>, i: int, m: int) -> int {
    if idx[m] < i { idx[m] } else { idx[m] + 1 }
}

#[verifier::spinoff_prover]
#[verifier::rlimit(60)]
proof fn lemma_later_win_cost(
    bids: Seq<Bid>,
    points: Map<i64, i32>,
    i: int,
    next: Seq<Bid>,
    after: Map<i64, i32>,
    idx: Seq<int>,
    wins: Seq<Win>,
    rw: Seq<Win>,
    k: int,
)
    requires
        0 <= i < bids.len(),
        1 <= k < wins.len(),
        wins.len() == rw.len() + 1,
        forall|e: int| 0 <= e < rw.len() ==> #[trigger] wins[e + 1] == rw[e],
        wins[0].user == bids[i].user,
        idx.len() == next.len(),
        forall|m: int| 0 <= m < next.len() ==> 0 <= #[trigger] origin(idx, i, m) < bids.len() && origin(idx, i, m) != i
            && next[m] == capped(bids[origin(idx, i, m)], points),
        forall|a: int, b: int| 0 <= a < next.len() && 0 <= b < next.len() && a != b
            ==> #[trigger] origin(idx, i, a) != #[trigger] origin(idx, i, b),
        forall|j: int| 0 <= j < bids.len() && j != i && bids[j].user != bids[i].user && bids[j].item@ != bids[i].item@
            ==> exists|m: int| 0 <= m < next.len() && #[trigger] origin(idx, i, m) == j,
        forall|m: int| 0 <= m < next.len() ==> (#[trigger] next[m]).user != bids[i].user && next[m].item@ != bids[i].item@,
        forall|u: i64| u != bids[i].user ==> #[trigger] after[u] == points[u],
        pays_highest_other_offer(rw, k - 1, next, after),
    ensures
        pays_highest_other_offer(wins, k, bids, points),
{
    let wk = wins[k];
    assert(wins[(k - 1) + 1] == rw[k - 1]);
    assert(wk == rw[k - 1]);
    let ip = choose|ip: int|
        0 <= ip < next.len() && next[ip].user == wk.user && next[ip].item@ == wk.item@
            && (forall|j: int|
                0 <= j < next.len() && j != ip && next[j].item@ == wk.item@ && !earlier_winner(rw, k - 1, next[j].user)
                    ==> #[trigger] offer(next[j], after) <= wk.cost)
            && (wk.cost == 0 || exists|j: int|
                0 <= j < next.len() && j != ip && next[j].item@ == wk.item@ && !earlier_winner(rw, k - 1, next[j].user)
                    && #[trigger] offer(next[j], after) == wk.cost);
    let io = origin(idx, i, ip);
    assert(next[ip] == capped(bids[io], points));
    lemma_capped_facts(bids[io], points);
    assert(next[ip].item@ != bids[i].item@);
    assert forall|j: int|
        0 <= j < bids.len() && j != io && bids[j].item@ == wk.item@ && !earlier_winner(wins, k, bids[j].user)
            implies #[trigger] offer(bids[j], points) <= wk.cost by {
        assert(bids[j].user != bids[i].user) by {
            if bids[j].user == bids[i].user {
                assert(wins[0].user == bids[j].user);
            }
        }
        assert(j != i);
        let m = choose|m: int| 0 <= m < next.len() && #[trigger] origin(idx, i, m) == j;
        assert(next[m] == capped(bids[j], points));
        lemma_capped_facts(bids[j], points);
        assert(m != ip);
        assert(!earlier_winner(rw, k - 1, next[m].user)) by {
            if earlier_winner(rw, k - 1, next[m].user) {
                let e = choose|e: int| 0 <= e < k - 1 && #[trigger] rw[e].user == next[m].user;
                assert(wins[e + 1] == rw[e]);
            }
        }
        lemma_recap(bids[j], points, after);
        assert(offer(next[m], after) <= wk.cost);
    }
    if wk.cost != 0 {
        let m = choose|m: int|
            0 <= m < next.len() && m != ip && next[m].item@ == wk.item@ && !earlier_winner(rw, k - 1, next[m].user)
                && #[trigger] offer(next[m], after) == wk.cost;
        let j = origin(idx, i, m);
        assert(next[m] == capped(bids[j], points));
        lemma_capped_facts(bids[j], points);
        assert(j != io);
        lemma_recap(bids[j], points, after);
        assert(!earlier_winner(wins, k, bids[j].user)) by {
            if earlier_winner(wins, k, bids[j].user) {
                let e = choose|e: int| 0 <= e < k && #[trigger] wins[e].user == bids[j].user;
                if e > 0 {
                    assert(wins[(e - 1) + 1] == rw[e - 1]);
                    assert(earlier_winner(rw, k - 1, next[m].user));
                }
            }
        }
        assert(offer(bids[j], points) == wk.cost);
    }
}

/// The bids of the second round, each traced back to the bid of the first
/// round it was capped from.
#[verifier::spinoff_prover]
proof fn lemma_round_origin(bids: Seq<Bid>, points: Map<i64, i32>) -> (idx: Seq<int>)
    requires
        bids.len() > 0,
    ensures
        ({
            let c = cap_all(bids, points);
            let i = top_bid_index(c);
            let w = c[i];
            let rest = c.remove(i);
            let next = without_conflicts(rest, w.user, w.item@);
            &&& 0 <= i < bids.len()
            &&& idx.len() == next.len()
            &&& forall|m: int| 0 <= m < next.len() ==> 0 <= #[trigger] origin(idx, i, m) < bids.len()
                && origin(idx, i, m) != i && next[m] == capped(bids[origin(idx, i, m)], points)
            &&& forall|a: int, b: int| 0 <= a < next.len() && 0 <= b < next.len() && a != b
                ==> #[trigger] origin(idx, i, a) != #[trigger] origin(idx, i, b)
            &&& forall|j: int| 0 <= j < bids.len() && j != i && bids[j].user != bids[i].user
                && bids[j].item@ != bids[i].item@
                ==> exists|m: int| 0 <= m < next.len() && #[trigger] origin(idx, i, m) == j
            &&& forall|m: int| 0 <= m < next.len() ==> (#[trigger] next[m]).user != bids[i].user
                && next[m].item@ != bids[i].item@
        }),
{
    let c = cap_all(bids, points);
    lemma_top_bid_index(c);
    let i = top_bid_index(c);
    let w = c[i];
    let rest = c.remove(i);
    let next = without_conflicts(rest, w.user, w.item@);
    lemma_without_conflicts_elems(rest, w.user, w.item@);
    let idx = lemma_without_conflicts_index(rest, w.user, w.item@);
    lemma_capped_facts(bids[i], points);
    assert forall|m: int| 0 <= m < next.len() implies 0 <= #[trigger] origin(idx, i, m) < bids.len()
        && origin(idx, i, m) != i && next[m] == capped(bids[origin(idx, i, m)], points) by {
        if idx[m] < i {
            assert(rest[idx[m]] == c[idx[m]]);
        } else {
            assert(rest[idx[m]] == c[idx[m] + 1]);
        }
    }
    assert forall|a: int, b: int| 0 <= a < next.len() && 0 <= b < next.len() && a != b
        implies #[trigger] origin(idx, i, a) != #[trigger] origin(idx, i, b) by {
        if a < b {
            assert(idx[a] < idx[b]);
        } else {
            assert(idx[b] < idx[a]);
        }
    }
    assert forall|j: int| 0 <= j < bids.len() && j != i && bids[j].user != bids[i].user && bids[j].item@ != bids[i].item@
        implies exists|m: int| 0 <= m < next.len() && #[trigger] origin(idx, i, m) == j by {
        let rj = if j < i { j } else { j - 1 };
        assert(rest[rj] == c[j]);
        lemma_capped_facts(bids[j], points);
        let m = choose|m: int| 0 <= m < idx.len() && idx[m] == rj;
        assert(origin(idx, i, m) == j);
    }
    idx
}

#[verifier::spinoff_prover]
#[verifier::rlimit(60)]
proof fn lemma_costs_of_all_wins(bids: Seq<Bid>, points: Map<i64, i32>)
    requires
        bidders_known(bids, points),
    ensures
        forall|k: int| 0 <= k < resolve(bids, points).0.len() ==> pays_highest_other_offer(
            resolve(bids, points).0,
            k,
            bids,
            points,
        ),
    decreases bids.len(),
{
    if bids.len() == 0 {
        return;
    }
    let c = cap_all(bids, points);
    lemma_top_bid_index(c);
    let i = top_bid_index(c);
    let w = c[i];
    if w.price <= 0 {
        return;
    }
    let rest = c.remove(i);
    let cost = second_price(rest, w.item@);
    let next = without_conflicts(rest, w.user, w.item@);
    let after = points.insert(w.user, (points[w.user] - cost) as i32);
    lemma_round_keeps_bidders(bids, points);
    lemma_without_conflicts_len(rest, w.user, w.item@);
    lemma_costs_of_all_wins(next, after);
    let idx = lemma_round_origin(bids, points);
    let rw = resolve(next, after).0;
    let wins = resolve(bids, points).0;
    assert(wins == seq![Win { user: w.user, item: w.item, cost: cost as i32 }] + rw);
    lemma_capped_facts(bids[i], points);
    assert forall|u: i64| u != bids[i].user implies #[trigger] after[u] == points[u] by {}
    assert forall|e: int| 0 <= e < rw.len() implies #[trigger] wins[e + 1] == rw[e] by {}
    assert forall|k: int| 0 <= k < wins.len() implies pays_highest_other_offer(wins, k, bids, points) by {
        if k == 0 {
            lemma_first_win_cost(bids, points);
        } else {
            lemma_later_win_cost(bids, points, i, next, after, idx, wins, rw, k);
        }
    }
}

/// Law: every win of an auction, not only the first, rests on a bid of its
/// winner on its item and costs the highest offer that another bid on that
/// item made, among the bids of players who had not won before (their offers
/// taken at the points they started with).
pub proof fn law_every_winner_pays_highest_other_offer(bids: Seq<Bid>, points: Map<i64, i32>)
    requires
        bidders_known(bids, points),
    ensures
        forall|k: int| 0 <= k < resolve(bids, points).0.len() ==> pays_highest_other_offer(
            resolve(bids, points).0,
            k,
            bids,
            points,
        ),
{
    lemma_costs_of_all_wins(bids, points);
}

/// Law: nobody wins twice in one auction, and no item is sold twice.
pub proof fn law_one_win_per_player_and_item(bids: Seq<Bid>, points: Map<i64, i32>)
    requires
        bidders_known(bids, points),
    ensures
        forall|a: int, b: int|
            0 <= a < b < resolve(bids, points).0.len() ==> (#[trigger] resolve(bids, points).0[a]).user
                != (#[trigger] resolve(bids, points).0[b]).user && resolve(bids, points).0[a].item@
                != resolve(bids, points).0[b].item@,
{
    lemma_resolve_facts(bids, points);
}

/// Law: every point a player loses in an auction pays for one of their wins,
/// and the set of players stays the same.
pub proof fn law_points_pay_for_wins(bids: Seq<Bid>, points: Map<i64, i32>)
    requires
        bidders_known(bids, points),
    ensures
        resolve(bids, points).1.dom() == points.dom(),
        forall|u: i64|
            points.contains_key(u) ==> #[trigger] resolve(bids, points).1[u] + charged(resolve(bids, points).0, u)
                == points[u],
{
    lemma_resolve_facts(bids, points);
}

/// Law: each win rests on a positive bid of the winner on that item; the winner
/// pays nothing negative and never more than that bid, and keeps at least the
/// reserve that the bid asked for.
pub proof fn law_wins_honour_bids(bids: Seq<Bid>, points: Map<i64, i32>)
    requires
        bidders_known(bids, points),
    ensures
        forall|k: int|
            0 <= k < resolve(bids, points).0.len() ==> backed_by(
                #[trigger] resolve(bids, points).0[k],
                bids,
                resolve(bids, points).1,
            ),
{
    lemma_resolve_facts(bids, points);
}

/// Every bidder of every auction has an entry in `points`.
pub open spec fn all_bidders_known(auctions: Seq<Seq<Bid>>, points: Map<i64, i32>) -> bool {
    forall|k: int| 0 <= k < auctions.len() ==> bidders_known(#[trigger] auctions[k], points)
}

/// Resolving an auction changes the points of known players only.
pub proof fn lemma_resolve_keeps_players(bids: Seq<Bid>, points: Map<i64, i32>)
    requires
        bidders_known(bids, points),
    ensures
        resolve(bids, points).1.dom() == points.dom(),
    decreases bids.len(),
{
    if bids.len() > 0 {
        let c = cap_all(bids, points);
        lemma_top_bid_index(c);
        let i = top_bid_index(c);
        let w = c[i];
        if w.price > 0 {
            let rest = c.remove(i);
            let cost = second_price(rest, w.item@);
            let next = without_conflicts(rest, w.user, w.item@);
            let after = points.insert(w.user, (points[w.user] - cost) as i32);
            lemma_round_keeps_bidders(bids, points);
            lemma_without_conflicts_len(rest, w.user, w.item@);
            lemma_resolve_keeps_players(next, after);
        }
    }
}

proof fn lemma_resolve_all_push(orders: Seq<Seq<Bid>>, o: Seq<Bid>, points: Map<i64, i32>)
    ensures
        resolve_all(orders.push(o), points) == ({
            let r = resolve_all(orders, points);
            let last = resolve(o, r.1);
            (r.0 + last.0, last.1)
        }),
    decreases orders.len(),
{
    if orders.len() == 0 {
        assert(orders.push(o).drop_first() =~= Seq::<Seq<Bid>>::empty());
        assert(resolve(o, points).0 + Seq::<Win>::empty() =~= resolve(o, points).0);
        assert(Seq::<Win>::empty() + resolve(o, points).0 =~= resolve(o, points).0);
        assert(orders.push(o)[0] == o);
        assert(orders =~= Seq::<Seq<Bid>>::empty());
        assert(resolve_all(orders, points) == (Seq::<Win>::empty(), points));
        let first = resolve(o, points);
        assert(resolve_all(orders.push(o).drop_first(), first.1) == (Seq::<Win>::empty(), first.1));
        assert(resolve_all(orders.push(o), points) == (first.0 + Seq::<Win>::empty(), first.1));
    } else {
        let first = resolve(orders[0], points);
        assert(orders.push(o).drop_first() =~= orders.drop_first().push(o));
        assert(orders.push(o)[0] == orders[0]);
        lemma_resolve_all_push(orders.drop_first(), o, first.1);
        let r = resolve_all(orders.drop_first(), first.1);
        let last = resolve(o, r.1);
        assert(first.0 + (r.0 + last.0) =~= (first.0 + r.0) + last.0);
        assert(resolve_all(orders, points) == (first.0 + r.0, r.1));
        assert(resolve_all(orders.push(o), points) == (first.0 + (r.0 + last.0), last.1));
    }
}

/// Law: over a whole day of auctions, every point a player loses pays for one
/// of their wins, and the set of players stays the same.
pub proof fn law_day_points_pay_for_wins(auctions: Seq<Seq<Bid>>, points: Map<i64, i32>)
    requires
        all_bidders_known(auctions, points),
    ensures
        resolve_all(auctions, points).1.dom() == points.dom(),
        forall|u: i64|
            points.contains_key(u) ==> #[trigger] resolve_all(auctions, points).1[u] + charged(
                resolve_all(auctions, points).0,
                u,
            ) == points[u],
    decreases auctions.len(),
{
    if auctions.len() > 0 {
        let first = resolve(auctions[0], points);
        assert(bidders_known(auctions[0], points));
        lemma_resolve_facts(auctions[0], points);
        let tail = auctions.drop_first();
        assert forall|k: int| 0 <= k < tail.len() implies bidders_known(#[trigger] tail[k], first.1) by {
            assert(tail[k] == auctions[k + 1]);
            assert(bidders_known(auctions[k + 1], points));
        }
        law_day_points_pay_for_wins(tail, first.1);
        let others = resolve_all(tail, first.1);
        assert forall|u: i64| points.contains_key(u) implies #[trigger] resolve_all(auctions, points).1[u]
            + charged(resolve_all(auctions, points).0, u) == points[u] by {
            lemma_charged_concat(first.0, others.0, u);
            assert(first.1.contains_key(u));
        }
    }
}

/// Resolves the day's auctions one after the other, each in an order drawn at
/// random from its bids. The wins come out auction by auction, in the order
/// they are decided; `points` is updated with what the winners pay.
pub fn auction(auctions: Vec<Vec<Bid>>, points: &mut HashMap<i64, i32>) -> (wins: Vec<Win>)
    requires
        all_bidders_known(auctions@.map_values(|a: Vec<Bid>| a@), old(points)@),
    ensures
        exists|orders: Seq<Seq<Bid>>| {
            &&& orders.len() == auctions@.len()
            &&& forall|k: int| 0 <= k < orders.len() ==> (#[trigger] orders[k]).to_multiset()
                == auctions@[k]@.to_multiset()
            &&& (wins@, final(points)@) == resolve_all(orders, old(points)@)
        },
{
    let ghost input = auctions@.map_values(|a: Vec<Bid>| a@);
    let ghost start = points@;
    let mut rng = fresh_rng();
    let mut remaining = auctions;
    let mut wins: Vec<Win> = Vec::new();
    let ghost mut orders: Seq<Seq<Bid>> = Seq::empty();
    let n = remaining.len();
    let mut k: usize = 0;
    while k < n
        invariant
            n == input.len(),
            n == auctions@.len(),
            input == auctions@.map_values(|a: Vec<Bid>| a@),
            start == old(points)@,
            k <= n,
            remaining@.len() == n - k,
            forall|j: int| 0 <= j < remaining@.len() ==> #[trigger] remaining@[j]@ == input[j + k],
            orders.len() == k,
            forall|j: int| 0 <= j < k ==> (#[trigger] orders[j]).to_multiset() == input[j].to_multiset(),
            all_bidders_known(input, start),
            points@.dom() == start.dom(),
            wins@ == resolve_all(orders, start).0,
            points@ == resolve_all(orders, start).1,
        decreases n - k,
    {
        let mut bids = remaining.remove(0);
        assert(bids@ == input[k as int]);
        let ghost before = bids@;
        shuffle_bids(&mut bids, &mut rng);
        proof {
            assert(bidders_known(before, start));
            assert forall|i: int| 0 <= i < bids@.len() implies points@.contains_key(#[trigger] bids@[i].user) by {
                assert(bids@.contains(bids@[i]));
                vstd::seq_lib::to_multiset_contains(bids@, bids@[i]);
                vstd::seq_lib::to_multiset_contains(before, bids@[i]);
                assert(before.contains(bids@[i]));
                let j = choose|j: int| 0 <= j < before.len() && before[j] == bids@[i];
                assert(start.contains_key(before[j].user));
            }
            lemma_resolve_keeps_players(bids@, points@);
            lemma_resolve_all_push(orders, bids@, start);
        }
        let ghost shuffled = bids@;
        let mut ws = resolve_auction(bids, points);
        wins.append(&mut ws);
        proof {
            orders = orders.push(shuffled);
            assert forall|j: int| 0 <= j < k + 1 implies (#[trigger] orders[j]).to_multiset() == input[j].to_multiset() by {
                if j < k {
                    assert(orders[j] == orders.drop_last()[j]);
                }
            }
        }
        k = k + 1;
    }
    proof {
        assert forall|j: int| 0 <= j < orders.len() implies (#[trigger] orders[j]).to_multiset() == auctions@[j]@.to_multiset() by {
            assert(input[j] == auctions@[j]@);
        }
    }
    wins
}
} // verus!
