use auction_bot::clock::Timestamp;
use auction_bot::gamestate::GameState;
use auction_bot::replies::{
    channel_announcement, get_bids, get_wins, getuid_i64, notify_targets, player_announcement,
    state_report, status_message, uid_to_u64, users, BidRow, UserRow, WinRow,
};

fn now() -> Timestamp {
    Timestamp { secs: 1614834360, nanos: 0 }
}

#[test]
fn status_texts() {
    assert_eq!(status_message(&GameState::Closed, &now()), "game is closed");
    assert_eq!(status_message(&GameState::Registration, &now()), "game is accepting registrations");
    assert_eq!(status_message(&GameState::Finished, &now()), "finished");
    let s = GameState::Auction { day: 3, deadline: Timestamp { secs: 1614834360 + 3660, nanos: 0 }, rate: 60 };
    assert_eq!(status_message(&s, &now()), "Auctions for day 3 are open, and there are 1 hours 1 minutes remaining.");
}

#[test]
fn state_reports() {
    assert_eq!(state_report(&GameState::Registration), "Game is in registration!");
    assert_eq!(state_report(&GameState::Closed), "Game is closed!");
    assert_eq!(state_report(&GameState::Finished), "Game is finished!");
    let s = GameState::Auction { day: 3, deadline: now(), rate: 60 };
    assert_eq!(state_report(&s), "Auctions are open. It is day: 3, current deadline is 2021-03-04 05:06:00, and rate is 60");
}

#[test]
fn tables() {
    let wins = vec![WinRow { user_name: "ann".to_string(), item: "SWORD".to_string(), day: 2, cost: 150 }];
    let expected = format!("```day|cost|             item             |winner\n{:>3}|{:>4}|{:>30}|{}\n```", 2, 150, "SWORD", "ann");
    assert_eq!(get_wins(&wins), expected);
    assert_eq!(get_wins(&Vec::new()), "```day|cost|             item             |winner\n```");

    let bids = vec![
        BidRow { item: "SWORD".to_string(), price: 20, reserve: 5 },
        BidRow { item: "SHIELD".to_string(), price: 0, reserve: 0 },
    ];
    assert_eq!(get_bids(&bids, 80), "```cost|reserve|item\n  20|      5|SWORD\npoints remaining : 80```");

    let players = vec![UserRow { name: "bob".to_string(), points: -5 }, UserRow { name: "eve".to_string(), points: 1000 }];
    assert_eq!(users(&players), "```points|name\n    -5|bob\n  1000|eve\n```");
}

#[test]
fn announcements() {
    let next = GameState::Auction { day: 4, deadline: Timestamp { secs: 1614834360 + 30, nanos: 0 }, rate: 60 };
    assert_eq!(
        channel_announcement(3, "TABLE", &next, &now()),
        "Auctions for day 3 were resolved.\nTABLEauctions for day 4 are open. there are 30 seconds remaining."
    );
    assert_eq!(
        channel_announcement(3, "TABLE", &GameState::Finished, &now()),
        "Auctions for day 3 were resolved.\nTABLE\n Game is finished.\n"
    );
    assert_eq!(
        player_announcement(3, "T", &GameState::Registration, &now(), 12),
        "Auctions for day 3 were resolved.\nT\nYou have 12 points remaining."
    );
}

#[test]
fn ids_and_notified_players() {
    assert_eq!(uid_to_u64(-1), u64::MAX);
    assert_eq!(getuid_i64(u64::MAX), -1);
    assert_eq!(getuid_i64(uid_to_u64(123456789)), 123456789);
    let rows = vec![(5i64, 10i32), (13, 20), (-1, 30), (12, 40)];
    assert_eq!(notify_targets(&rows), vec![(13u64, 20i32), (u64::MAX, 30)]);
}

#[test]
fn due_auction_shows_passed_deadline() {
    let s = GameState::Auction { day: 2, deadline: Timestamp { secs: 100, nanos: 0 }, rate: 60 };
    let later = Timestamp { secs: 100, nanos: 1 };
    assert!(s.should_auction(&later));
    assert_eq!(status_message(&s, &later), "Auctions for day 2 are open, and deadline has passed");
}
