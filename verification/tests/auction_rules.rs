use auction_bot::auction::{auction, resolve_auction, Bid, Win};
use std::collections::HashMap;

fn bid(item: &str, user: i64, price: i32, reserve: i32) -> Bid {
    Bid { item: item.to_string(), user, price, reserve }
}

fn points(entries: &[(i64, i32)]) -> HashMap<i64, i32> {
    entries.iter().cloned().collect()
}

fn summary(wins: &[Win]) -> Vec<(i64, String, i32)> {
    wins.iter().map(|w| (w.user, w.item.clone(), w.cost)).collect()
}

#[test]
fn highest_bid_wins_and_pays_second_price() {
    let mut pts = points(&[(1, 200), (2, 200)]);
    let bids = vec![bid("SWORD", 1, 100, 0), bid("SWORD", 2, 50, 0), bid("SHIELD", 2, 30, 0)];
    let wins = resolve_auction(bids, &mut pts);
    assert_eq!(summary(&wins), vec![(1, "SWORD".to_string(), 50), (2, "SHIELD".to_string(), 0)]);
    assert_eq!(pts[&1], 150);
    assert_eq!(pts[&2], 200);
}

#[test]
fn bids_are_capped_by_points_minus_reserve() {
    // player 1 may offer at most 100 - 30 = 70; player 2 offers 80 and wins, paying 70
    let mut pts = points(&[(1, 100), (2, 80)]);
    let bids = vec![bid("BOW", 1, 200, 30), bid("BOW", 2, 80, 0)];
    let wins = resolve_auction(bids, &mut pts);
    assert_eq!(summary(&wins), vec![(2, "BOW".to_string(), 70)]);
    assert_eq!(pts[&2], 10);
    assert_eq!(pts[&1], 100);
}

#[test]
fn tie_goes_to_the_later_bid() {
    let mut pts = points(&[(1, 100), (2, 100)]);
    let bids = vec![bid("AXE", 1, 50, 0), bid("AXE", 2, 50, 0)];
    let wins = resolve_auction(bids, &mut pts);
    assert_eq!(summary(&wins), vec![(2, "AXE".to_string(), 50)]);
    assert_eq!(pts[&2], 50);
}

#[test]
fn zero_bids_win_nothing() {
    let mut pts = points(&[(1, 0), (2, 100)]);
    // player 1 cannot afford anything, player 2 bids zero
    let bids = vec![bid("AXE", 1, 50, 0), bid("AXE", 2, 0, 0)];
    let wins = resolve_auction(bids, &mut pts);
    assert!(wins.is_empty());
    assert_eq!(pts, points(&[(1, 0), (2, 100)]));
}

#[test]
fn empty_auction_wins_nothing() {
    let mut pts = points(&[(1, 10)]);
    let wins = resolve_auction(Vec::new(), &mut pts);
    assert!(wins.is_empty());
    assert_eq!(pts[&1], 10);
}

#[test]
fn reserve_larger_than_points_caps_bid_to_zero() {
    let mut pts = points(&[(1, 10), (2, 10)]);
    let bids = vec![bid("GEM", 1, 5, 20), bid("GEM", 2, 3, 0)];
    let wins = resolve_auction(bids, &mut pts);
    assert_eq!(summary(&wins), vec![(2, "GEM".to_string(), 0)]);
    assert_eq!(pts[&2], 10);
}

#[test]
fn one_win_per_player_and_item() {
    // player 1 bids highest on both items but wins only one; the other item
    // goes to the next bidder.
    let mut pts = points(&[(1, 500), (2, 500), (3, 500)]);
    let bids = vec![
        bid("RING", 1, 300, 0),
        bid("CROWN", 1, 200, 0),
        bid("RING", 2, 100, 0),
        bid("CROWN", 3, 150, 0),
        bid("RING", 3, 90, 0),
    ];
    let wins = resolve_auction(bids, &mut pts);
    assert_eq!(
        summary(&wins),
        vec![(1, "RING".to_string(), 100), (3, "CROWN".to_string(), 0)]
    );
    let mut users: Vec<i64> = wins.iter().map(|w| w.user).collect();
    users.dedup();
    assert_eq!(users.len(), wins.len());
    assert_eq!(pts[&1], 400);
    assert_eq!(pts[&3], 500);
}

#[test]
fn points_lost_equal_costs_paid() {
    let start = points(&[(1, 300), (2, 250), (3, 120)]);
    let mut pts = start.clone();
    let bids = vec![
        bid("A", 1, 120, 10),
        bid("A", 2, 110, 0),
        bid("B", 2, 90, 50),
        bid("B", 3, 100, 0),
        bid("C", 3, 40, 0),
        bid("C", 1, 35, 0),
    ];
    let wins = resolve_auction(bids.clone_bids(), &mut pts);
    for (id, before) in &start {
        let paid: i32 = wins.iter().filter(|w| w.user == *id).map(|w| w.cost).sum();
        assert_eq!(pts[id] + paid, *before);
    }
    // each win rests on a bid of the winner at least as high as the cost,
    // and the winner keeps that bid's reserve
    for w in &wins {
        assert!(bids.iter().any(|b| b.user == w.user
            && b.item == w.item
            && b.price > 0
            && 0 <= w.cost
            && w.cost <= b.price
            && pts[&w.user] >= b.reserve));
    }
}

trait CloneBids {
    fn clone_bids(&self) -> Vec<Bid>;
}

impl CloneBids for Vec<Bid> {
    fn clone_bids(&self) -> Vec<Bid> {
        self.iter().map(|b| bid(&b.item, b.user, b.price, b.reserve)).collect()
    }
}

#[test]
fn day_of_auctions_shares_points() {
    // without ties the order drawn at random does not matter
    let mut pts = points(&[(1, 100), (2, 100)]);
    let day = vec![
        vec![bid("X", 1, 60, 0), bid("X", 2, 40, 0)],
        vec![bid("Y", 1, 50, 0), bid("Y", 2, 30, 0)],
    ];
    let wins = auction(day, &mut pts);
    // player 1 wins X for 40, keeps 60, and can still offer 50 on Y
    assert_eq!(summary(&wins), vec![(1, "X".to_string(), 40), (1, "Y".to_string(), 30)]);
    assert_eq!(pts[&1], 30);
    assert_eq!(pts[&2], 100);
}

#[test]
fn shuffled_auction_keeps_every_bid() {
    // whatever the order, exactly one of the two equal bids wins
    for _ in 0..20 {
        let mut pts = points(&[(1, 100), (2, 100)]);
        let wins = auction(vec![vec![bid("X", 1, 50, 0), bid("X", 2, 50, 0)]], &mut pts);
        assert_eq!(wins.len(), 1);
        assert_eq!(wins[0].cost, 50);
        assert_eq!(pts[&wins[0].user], 50);
    }
}
