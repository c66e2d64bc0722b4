use auction_bot::commands::{
    bid_confirmation, check_bid, check_item_day, help, register_reply, registration_closed,
    unregister_reply, wins_request, BidRejection, Removal, WinsReply, WinsRequest,
};

fn args(items: &[&str]) -> Vec<String> {
    items.iter().map(|s| s.to_string()).collect()
}

#[test]
fn help_texts() {
    assert_eq!(help(None), "commands:\nbids wins bid status users register unregister \ntry !help <command>");
    assert_eq!(help(Some("register")), "adds you to a game, works during registration only");
    assert_eq!(help(Some("users")), "displays all users and their points\nusage:\nusers");
    assert_eq!(help(Some("nonsense")), help(None));
}

#[test]
fn wins_requests() {
    assert_eq!(wins_request(&args(&[])), WinsRequest::Own);
    assert_eq!(wins_request(&args(&["all"])), WinsRequest::All);
    assert_eq!(wins_request(&args(&["3"])), WinsRequest::Day(3));
    assert_eq!(wins_request(&args(&["help"])), WinsRequest::Reply(WinsReply::Usage));
    assert_eq!(wins_request(&args(&["x"])), WinsRequest::Reply(WinsReply::Unrecognized));
    assert_eq!(wins_request(&args(&["1", "2"])), WinsRequest::Reply(WinsReply::TooMany));
    assert_eq!(WinsReply::TooMany.message(), "too many parameters");
    assert_eq!(WinsReply::Unrecognized.message(), "unrecognized parameter");
}

#[test]
fn accepted_bids() {
    let b = check_bid(&args(&["magePriests", "200", "400"]), 600).ok().unwrap();
    assert_eq!((b.item.as_str(), b.price, b.reserve), ("MAGEPRIESTS", 200, 400));
    let b = check_bid(&args(&["sword", "10"]), 10).ok().unwrap();
    assert_eq!((b.item.as_str(), b.price, b.reserve), ("SWORD", 10, 0));
}

fn rejection(a: &[&str], points: i32) -> BidRejection {
    match check_bid(&args(a), points) {
        Ok(_) => panic!("accepted"),
        Err(e) => e,
    }
}

#[test]
fn refused_bids() {
    assert_eq!(rejection(&["sword"], 10), BidRejection::ArgumentCount);
    assert_eq!(rejection(&["sword", "1", "2", "3"], 10), BidRejection::ArgumentCount);
    assert_eq!(rejection(&[&"x".repeat(31), "1"], 10), BidRejection::ItemTooLong);
    assert_eq!(rejection(&["sword", "lots"], 10), BidRejection::BadPrice);
    assert_eq!(rejection(&["sword", "1", "some"], 10), BidRejection::BadReserve);
    assert_eq!(rejection(&["sword", "-1"], 10), BidRejection::NegativePrice);
    assert_eq!(rejection(&["sword", "1", "-1"], 10), BidRejection::NegativeReserve);
    assert_eq!(rejection(&["sword", "6", "5"], 10), BidRejection::OverBudget);
    assert_eq!(rejection(&["sword", "2147483647", "2147483647"], 10), BidRejection::OverBudget);
    assert_eq!(BidRejection::OverBudget.message(), "the sum of your bid and reserve may not be more than your remaining points");
    assert_eq!(BidRejection::BiddingClosed.message(), "Bidding is not open");
}

#[test]
fn item_days() {
    assert_eq!(check_item_day(None, 2), Err(BidRejection::UnknownItem));
    assert_eq!(check_item_day(Some(1), 2), Err(BidRejection::NotToday));
    assert_eq!(check_item_day(Some(2), 2), Ok(()));
    assert_eq!(BidRejection::NotToday.message(), "The item you specified is not up for auction today");
}

#[test]
fn confirmations() {
    assert_eq!(bid_confirmation(0), "successfully removed bid");
    assert_eq!(bid_confirmation(5), "successfully inserted bid");
    assert_eq!(registration_closed(), "Registration is closed!");
    assert_eq!(register_reply(true), "Successfully registered!");
    assert_eq!(register_reply(false), "Failed to register. Are you already registered?");
    assert_eq!(unregister_reply(Removal::Removed), "Successfully unregistered!");
    assert_eq!(unregister_reply(Removal::NotFound), "Failed to find you. Were you even registered?");
    assert_eq!(unregister_reply(Removal::Failed), "Database error!");
}
