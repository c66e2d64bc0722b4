use auction_bot::clock::Timestamp;
use auction_bot::gamestate::{from_admin, needs_schedule, parse_admin_command, AdminError, GameState, GameStateRow};

fn auction_state(day: i16, secs: i64, rate: i32) -> GameState {
    GameState::Auction { day, deadline: Timestamp { secs, nanos: 0 }, rate }
}

#[test]
fn rows_read_as_states() {
    assert_eq!(GameState::fromdb(None), GameState::Closed);
    assert_eq!(
        GameState::fromdb(Some(GameStateRow { phase: 0, deadline: None, rate: None })),
        GameState::Registration
    );
    assert_eq!(
        GameState::fromdb(Some(GameStateRow { phase: -1, deadline: None, rate: None })),
        GameState::Finished
    );
    let d = Timestamp { secs: 1614834360, nanos: 0 };
    assert_eq!(
        GameState::fromdb(Some(GameStateRow { phase: 3, deadline: Some(d), rate: Some(60) })),
        GameState::Auction { day: 3, deadline: d, rate: 60 }
    );
}

#[test]
fn stored_states_read_back() {
    let states = [
        GameState::Closed,
        GameState::Registration,
        GameState::Finished,
        auction_state(1, 1614834360, 1440),
        auction_state(-2, 0, 5),
    ];
    for s in states {
        assert_eq!(GameState::fromdb(s.to_row()), s);
    }
    // an auction day numbered 0 reads back as the registration
    let zero = auction_state(0, 0, 5);
    assert_eq!(GameState::fromdb(zero.to_row()), GameState::Registration);
}

#[test]
fn advancing_a_day() {
    let s = auction_state(4, 1614834360, 1440);
    assert!(s.can_advance());
    assert_eq!(s.advance(2), auction_state(5, 1614834360 + 1440 * 60, 1440));
    assert_eq!(s.advance(0), GameState::Finished);
    assert!(!GameState::Registration.can_advance());
    assert!(!auction_state(i16::MAX, 0, 1).can_advance());
    assert!(!auction_state(1, auction_bot::clock::LATEST_SECS, 1).can_advance());
}

#[test]
fn queries_on_states() {
    let s = auction_state(2, 100, 10);
    assert_eq!(s.auction_day(), Some(2));
    assert_eq!(GameState::Finished.auction_day(), None);
    assert!(GameState::Registration.accepts_registration());
    assert!(!s.accepts_registration());
    assert!(s.should_auction(&Timestamp { secs: 100, nanos: 1 }));
    assert!(!s.should_auction(&Timestamp { secs: 100, nanos: 0 }));
    assert!(!GameState::Closed.should_auction(&Timestamp { secs: 1000, nanos: 0 }));
}

#[test]
fn administrator_sets_states() {
    let d = Timestamp { secs: 60, nanos: 0 };
    assert_eq!(from_admin(-2, None), Some(GameState::Closed));
    assert_eq!(from_admin(-1, None), Some(GameState::Finished));
    assert_eq!(from_admin(0, None), Some(GameState::Registration));
    assert_eq!(from_admin(7, Some((30, d))), Some(GameState::Auction { day: 7, deadline: d, rate: 30 }));
    assert_eq!(from_admin(7, None), None);
    assert!(needs_schedule(-3));
    assert!(!needs_schedule(0));
}

fn arg(s: &str) -> Option<String> {
    Some(s.to_string())
}

#[test]
fn administrator_commands() {
    assert_eq!(parse_admin_command(&arg("0"), &None, &None), Ok(GameState::Registration));
    assert_eq!(parse_admin_command(&arg("-2"), &None, &None), Ok(GameState::Closed));
    assert_eq!(parse_admin_command(&None, &None, &None), Err(AdminError::BadPhase));
    assert_eq!(parse_admin_command(&arg("x"), &None, &None), Err(AdminError::BadPhase));
    assert_eq!(parse_admin_command(&arg("1"), &None, &None), Err(AdminError::BadRate));
    assert_eq!(parse_admin_command(&arg("1"), &arg("1440"), &None), Err(AdminError::BadDeadline));
    assert_eq!(
        parse_admin_command(&arg("1"), &arg("1440"), &arg("2021-13-01 00:00")),
        Err(AdminError::BadDeadline)
    );
    assert_eq!(
        parse_admin_command(&arg("1"), &arg("1440"), &arg("2021-03-04 05:06")),
        Ok(auction_state(1, 1614834360, 1440))
    );
}
