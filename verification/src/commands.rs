//! What the players' and administrator's commands decide from their
//! arguments: help texts, which wins to list, and whether a bid is accepted.
use vstd::prelude::*;
use crate::text::{
    ascii_upper, parse_in_range, parse_i16, parse_i32, str_eq, to_ascii_upper, utf8_len,
    utf8_longer_than,
};

verus! {

// ---------------------------------------------------------------------------
// help
// ---------------------------------------------------------------------------

/// The help text on `topic`.
pub open spec fn help_text(topic: Seq<char>) -> Seq<char> {
    if topic == "register"@ {
        "adds you to a game, works during registration only"@
    } else if topic == "unregister"@ {
        "removes you from the game, works during registration only"@
    } else if topic == "bids"@ {
        "lists what bids you have made today, and how much points you have left.\nusage:\n bids : lists bids\n"@
    } else if topic == "wins"@ {
        "lists what auction results have been decided.\nusage:\n wins : lists what you have won\n wins <day> : lists what everyone won on a given day\n wins all : lists what everyone has won so far"@
    } else if topic == "bid"@ {
        "places a bid on an item.\n usage:\n bid <ITEM> <price> <reserve> : places a bid on an item, with a reserve set\n bid <ITEM> <price> : places a bid on an item without reserve"@
    } else if topic == "status"@ {
        "displays game state and the time until deadline\nusage:\nstatus"@
    } else if topic == "users"@ {
        "displays all users and their points\nusage:\nusers"@
    } else {
        "commands:\nbids wins bid status users register unregister \ntry !help <command>"@
    }
}

/// The help text on the first argument, if any (without one: the list of
/// commands).
pub fn help(topic: Option<&str>) -> (r: &'static str)
    ensures
        r@ == help_text(
            match topic {
                Some(t) => t@,
                None => "all"@,
            },
        ),
{
    let t = match topic {
        Some(t) => t,
        None => "all",
    };
    if str_eq(t, "register") {
        "adds you to a game, works during registration only"
    } else if str_eq(t, "unregister") {
        "removes you from the game, works during registration only"
    } else if str_eq(t, "bids") {
        "lists what bids you have made today, and how much points you have left.\nusage:\n bids : lists bids\n"
    } else if str_eq(t, "wins") {
        "lists what auction results have been decided.\nusage:\n wins : lists what you have won\n wins <day> : lists what everyone won on a given day\n wins all : lists what everyone has won so far"
    } else if str_eq(t, "bid") {
        "places a bid on an item.\n usage:\n bid <ITEM> <price> <reserve> : places a bid on an item, with a reserve set\n bid <ITEM> <price> : places a bid on an item without reserve"
    } else if str_eq(t, "status") {
        "displays game state and the time until deadline\nusage:\nstatus"
    } else if str_eq(t, "users") {
        "displays all users and their points\nusage:\nusers"
    } else {
        "commands:\nbids wins bid status users register unregister \ntry !help <command>"
    }
}

// ---------------------------------------------------------------------------
// wins
// ---------------------------------------------------------------------------

/// An answer of the wins command that lists nothing.
#[derive(Clone, Copy, PartialEq, Eq, Structural, Debug)]
pub enum WinsReply {
    /// How to use the command.
    Usage,
    /// The argument is neither `all`, `help` nor a day.
    Unrecognized,
    /// More than one argument.
    TooMany,
}

/// The text of a wins answer.
pub open spec fn wins_reply_text(r: WinsReply) -> Seq<char> {
    match r {
        WinsReply::Usage => "usage:\n to list bids you've won: listbids\nto list bids anyone has won: listbids all\n to list bids anyone won on a given day: listbids <day>\n"@,
        WinsReply::Unrecognized => "unrecognized parameter"@,
        WinsReply::TooMany => "too many parameters"@,
    }
}

impl WinsReply {
    /// The text of this answer.
    pub fn message(&self) -> (r: &'static str)
        ensures
            r@ == wins_reply_text(*self),
    {
        match *self {
            WinsReply::Usage => "usage:\n to list bids you've won: listbids\nto list bids anyone has won: listbids all\n to list bids anyone won on a given day: listbids <day>\n",
            WinsReply::Unrecognized => "unrecognized parameter",
            WinsReply::TooMany => "too many parameters",
        }
    }
}

/// Which wins a player asks to see, or the answer where the request lists
/// nothing.
#[derive(Clone, Copy, PartialEq, Eq, Structural, Debug)]
pub enum WinsRequest {
    /// The player's own wins.
    Own,
    /// Everybody's wins.
    All,
    /// Everybody's wins on one day.
    Day(i16),
    /// No listing: this answer instead.
    Reply(WinsReply),
}

/// Which wins the arguments ask for: none for the player's own, `all`, a day
/// number, or `help`; anything else, or more than one argument, is answered.
pub open spec fn wins_request_spec(args: Seq<Seq<char>>) -> WinsRequest {
    if args.len() == 0 {
        WinsRequest::Own
    } else if args.len() == 1 {
        let a = args[0];
        if a == "help"@ {
            WinsRequest::Reply(WinsReply::Usage)
        } else if a == "all"@ {
            WinsRequest::All
        } else {
            match parse_in_range(a, i16::MIN as int, i16::MAX as int) {
                Some(d) => WinsRequest::Day(d as i16),
                None => WinsRequest::Reply(WinsReply::Unrecognized),
            }
        }
    } else {
        WinsRequest::Reply(WinsReply::TooMany)
    }
}

/// The characters of each argument.
pub open spec fn arg_views(args: Seq<String>) -> Seq<Seq<char>> {
    args.map_values(|a: String| a@)
}

/// Which wins the arguments of the wins command ask for.
pub fn wins_request(args: &Vec<String>) -> (r: WinsRequest)
    ensures
        r == wins_request_spec(arg_views(args@)),
{
    if args.len() == 0 {
        WinsRequest::Own
    } else if args.len() == 1 {
        let a = args[0].as_str();
        if str_eq(a, "help") {
            WinsRequest::Reply(WinsReply::Usage)
        } else if str_eq(a, "all") {
            WinsRequest::All
        } else {
            match parse_i16(a) {
                Some(d) => WinsRequest::Day(d),
                None => WinsRequest::Reply(WinsReply::Unrecognized),
            }
        }
    } else {
        WinsRequest::Reply(WinsReply::TooMany)
    }
}


// ---------------------------------------------------------------------------
// bid
// ---------------------------------------------------------------------------

/// Why a bid is refused.
#[derive(Clone, Copy, PartialEq, Eq, Structural, Debug)]
pub enum BidRejection {
    /// No auction day is open.
    BiddingClosed,
    /// The bidder is not a registered player.
    NotRegistered,
    /// Fewer than two or more than three arguments.
    ArgumentCount,
    /// The item's name takes more than 30 bytes.
    ItemTooLong,
    /// The price is no `i32`.
    BadPrice,
    /// The reserve is no `i32`.
    BadReserve,
    /// The price is negative.
    NegativePrice,
    /// The reserve is negative.
    NegativeReserve,
    /// Price and reserve together exceed the bidder's points.
    OverBudget,
    /// No item has that name.
    UnknownItem,
    /// The item is up for auction on another day.
    NotToday,
}

/// What the bidder is told when a bid is refused.
pub open spec fn rejection_text(r: BidRejection) -> Seq<char> {
    match r {
        BidRejection::BiddingClosed => "Bidding is not open"@,
        BidRejection::NotRegistered => "You are not registered to bid"@,
        BidRejection::ArgumentCount => "Your bid must have a target, price and may optionally have reserve, as in\n bid MAGEPRIESTS 200 400"@,
        BidRejection::ItemTooLong => "the item you selected to bid for is not valid (too long)"@,
        BidRejection::BadPrice => "the second argument to a bid must be the price you are willing to pay."@,
        BidRejection::BadReserve => "the third argument must be the amount you wish to reserve"@,
        BidRejection::NegativePrice => "your bid may not be negative"@,
        BidRejection::NegativeReserve => "your reserve may not be negative"@,
        BidRejection::OverBudget => "the sum of your bid and reserve may not be more than your remaining points"@,
        BidRejection::UnknownItem => "The item you specified was not found"@,
        BidRejection::NotToday => "The item you specified is not up for auction today"@,
    }
}

impl BidRejection {
    /// What the bidder is told.
    pub fn message(&self) -> (r: &'static str)
        ensures
            r@ == rejection_text(*self),
    {
        match *self {
            BidRejection::BiddingClosed => "Bidding is not open",
            BidRejection::NotRegistered => "You are not registered to bid",
            BidRejection::ArgumentCount => "Your bid must have a target, price and may optionally have reserve, as in\n bid MAGEPRIESTS 200 400",
            BidRejection::ItemTooLong => "the item you selected to bid for is not valid (too long)",
            BidRejection::BadPrice => "the second argument to a bid must be the price you are willing to pay.",
            BidRejection::BadReserve => "the third argument must be the amount you wish to reserve",
            BidRejection::NegativePrice => "your bid may not be negative",
            BidRejection::NegativeReserve => "your reserve may not be negative",
            BidRejection::OverBudget => "the sum of your bid and reserve may not be more than your remaining points",
            BidRejection::UnknownItem => "The item you specified was not found",
            BidRejection::NotToday => "The item you specified is not up for auction today",
        }
    }
}

/// A bid that passed the checks on its arguments: the item's name in upper
/// case, the price and the reserve.
pub struct BidRequest {
    pub item: String,
    pub price: i32,
    pub reserve: i32,
}

/// The longest item name, in bytes.
pub const MAX_ITEM_BYTES: usize = 30;

/// The checks on a bid's arguments, in the order they are made, for a bidder
/// holding `points`: two or three arguments; the item (upper-cased) at most 30
/// bytes; the price, and the reserve where given (zero otherwise), both
/// `i32`s, neither negative; and together no more than the points. On
/// success: the item, the price and the reserve.
pub open spec fn bid_check(args: Seq<Seq<char>>, points: i32) -> Result<(Seq<char>, i32, i32), BidRejection> {
    if args.len() > 3 || args.len() < 2 {
        Err(BidRejection::ArgumentCount)
    } else {
        let item = ascii_upper(args[0]);
        if utf8_len(item) > MAX_ITEM_BYTES {
            Err(BidRejection::ItemTooLong)
        } else {
            match parse_in_range(args[1], i32::MIN as int, i32::MAX as int) {
                None => Err(BidRejection::BadPrice),
                Some(price) => {
                    let reserve = if args.len() == 3 {
                        parse_in_range(args[2], i32::MIN as int, i32::MAX as int)
                    } else {
                        Some(0int)
                    };
                    match reserve {
                        None => Err(BidRejection::BadReserve),
                        Some(r) => if price < 0 {
                            Err(BidRejection::NegativePrice)
                        } else if r < 0 {
                            Err(BidRejection::NegativeReserve)
                        } else if r + price > points {
                            Err(BidRejection::OverBudget)
                        } else {
                            Ok((item, price as i32, r as i32))
                        },
                    }
                },
            }
        }
    }
}

/// Checks the arguments of a bid by a player holding `points`.
pub fn check_bid(args: &Vec<String>, points: i32) -> (r: Result<BidRequest, BidRejection>)
    ensures
        match (r, bid_check(arg_views(args@), points)) {
            (Ok(b), Ok((item, price, reserve))) => b.item@ == item && b.price == price && b.reserve
                == reserve,
            (Err(e), Err(f)) => e == f,
            _ => false,
        },
{
    let ghost views = arg_views(args@);
    if args.len() > 3 || args.len() < 2 {
        return Err(BidRejection::ArgumentCount);
    }
    assert(views[0] == args@[0]@);
    assert(views[1] == args@[1]@);
    let item = to_ascii_upper(args[0].as_str());
    if utf8_longer_than(item.as_str(), MAX_ITEM_BYTES) {
        return Err(BidRejection::ItemTooLong);
    }
    let price = match parse_i32(args[1].as_str()) {
        Some(p) => p,
        None => return Err(BidRejection::BadPrice),
    };
    let reserve: i32 = if args.len() == 3 {
        assert(views[2] == args@[2]@);
        match parse_i32(args[2].as_str()) {
            Some(v) => v,
            None => return Err(BidRejection::BadReserve),
        }
    } else {
        0
    };
    if price < 0 {
        return Err(BidRejection::NegativePrice);
    }
    if reserve < 0 {
        return Err(BidRejection::NegativeReserve);
    }
    if reserve as i64 + price as i64 > points as i64 {
        return Err(BidRejection::OverBudget);
    }
    Ok(BidRequest { item, price, reserve })
}

/// The check on the item of an accepted bid: it must exist (`item_day` is the
/// day it is auctioned on) and be auctioned on the open `day`.
pub open spec fn item_check(item_day: Option<i16>, day: i16) -> Result<(), BidRejection> {
    match item_day {
        None => Err(BidRejection::UnknownItem),
        Some(d) => if d != day { Err(BidRejection::NotToday) } else { Ok(()) },
    }
}

/// Checks that the item of a bid is auctioned on the open `day`.
pub fn check_item_day(item_day: Option<i16>, day: i16) -> (r: Result<(), BidRejection>)
    ensures
        r == item_check(item_day, day),
{
    match item_day {
        None => Err(BidRejection::UnknownItem),
        Some(d) => if d != day {
            Err(BidRejection::NotToday)
        } else {
            Ok(())
        },
    }
}

/// What the bidder is told once the bid is stored: a zero price withdraws it.
pub fn bid_confirmation(price: i32) -> (r: &'static str)
    ensures
        r@ == if price == 0 { "successfully removed bid"@ } else { "successfully inserted bid"@ },
{
    if price == 0 {
        "successfully removed bid"
    } else {
        "successfully inserted bid"
    }
}

/// Law: an accepted bid has a price and a reserve that are not negative, that
/// together stay within the bidder's points, and an item name in upper case of
/// at most 30 bytes.
pub proof fn law_accepted_bid_is_affordable(args: Seq<Seq<char>>, points: i32)
    requires
        bid_check(args, points) is Ok,
    ensures
        ({
            let (item, price, reserve) = bid_check(args, points)->Ok_0;
            &&& 0 <= price
            &&& 0 <= reserve
            &&& price + reserve <= points
            &&& utf8_len(item) <= MAX_ITEM_BYTES
            &&& ascii_upper(item) == item
        }),
{
    let item = ascii_upper(args[0]);
    assert(ascii_upper(item) =~= item);
}

/// Law: a bid is accepted exactly when it has two or three arguments, its
/// upper-cased item takes at most 30 bytes, its price (and its reserve, where
/// given) reads as an `i32`, neither is negative, and together they stay
/// within the bidder's points; a price of zero is accepted. The accepted bid
/// carries the upper-cased item, the price, and the reserve or zero.
pub proof fn law_bid_accepted_exactly_when_affordable(args: Seq<Seq<char>>, points: i32)
    ensures
        ({
            let n = args.len();
            let price = parse_in_range(args[1], i32::MIN as int, i32::MAX as int);
            let reserve = if n == 3 {
                parse_in_range(args[2], i32::MIN as int, i32::MAX as int)
            } else {
                Some(0int)
            };
            let well_formed = 2 <= n <= 3 && utf8_len(ascii_upper(args[0])) <= MAX_ITEM_BYTES
                && price is Some && reserve is Some;
            &&& (bid_check(args, points) is Ok) <==> (well_formed && price.unwrap() >= 0
                && reserve.unwrap() >= 0 && price.unwrap() + reserve.unwrap() <= points)
            &&& bid_check(args, points) is Ok ==> bid_check(args, points)->Ok_0 == (
                ascii_upper(args[0]),
                price.unwrap() as i32,
                reserve.unwrap() as i32,
            )
        }),
{
}

// ---------------------------------------------------------------------------
// register, unregister
// ---------------------------------------------------------------------------

/// The answer while registration is closed.
pub fn registration_closed() -> (r: &'static str)
    ensures
        r@ == "Registration is closed!"@,
{
    "Registration is closed!"
}

/// What a player is told after trying to register: whether the player could
/// be stored.
pub fn register_reply(stored: bool) -> (r: &'static str)
    ensures
        r@ == if stored { "Successfully registered!"@ } else { "Failed to register. Are you already registered?"@ },
{
    if stored {
        "Successfully registered!"
    } else {
        "Failed to register. Are you already registered?"
    }
}

/// What came of removing a player from the store.
#[derive(Clone, Copy, PartialEq, Eq, Structural, Debug)]
pub enum Removal {
    Removed,
    NotFound,
    Failed,
}

/// What a player is told after trying to unregister.
pub fn unregister_reply(outcome: Removal) -> (r: &'static str)
    ensures
        r@ == match outcome {
            Removal::Removed => "Successfully unregistered!"@,
            Removal::NotFound => "Failed to find you. Were you even registered?"@,
            Removal::Failed => "Database error!"@,
        },
{
    match outcome {
        Removal::Removed => "Successfully unregistered!",
        Removal::NotFound => "Failed to find you. Were you even registered?",
        Removal::Failed => "Database error!",
    }
}
} // verus!
