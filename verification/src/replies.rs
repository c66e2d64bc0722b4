//! What the bot writes: time left, game status, tables of wins, bids and
//! players, and the announcements after an auction day.
use vstd::prelude::*;
use crate::clock::{Timestamp, chrono_text, datetime_text, lemma_order_by_nanos};
use crate::gamestate::{GameState, auction_due};
use crate::text::{
    decimal, pad_left, push_str, push_int, push_int_right_aligned, push_right_aligned,
};

verus! {

/// `n` followed by `unit`, or nothing where `n` is zero.
pub open spec fn count_text(n: int, unit: Seq<char>) -> Seq<char> {
    if n == 0 {
        Seq::empty()
    } else {
        decimal(n) + unit
    }
}

/// The time left before a deadline that lies `nanos` nanoseconds ahead, in
/// whole hours, minutes and seconds (zero parts left out).
pub open spec fn remaining_text(nanos: int) -> Seq<char> {
    if nanos <= 0 {
        "deadline has passed"@
    } else {
        let s = nanos / 1_000_000_000;
        "there are "@ + count_text(s / 3600, " hours "@) + count_text((s / 60) % 60, " minutes "@)
            + count_text(s % 60, " seconds "@) + "remaining."@
    }
}

fn push_count(out: &mut String, n: i64, unit: &str)
    ensures
        final(out)@ == old(out)@ + count_text(n as int, unit@),
{
    if n != 0 {
        push_int(out, n);
        push_str(out, unit);
        assert(final(out)@ =~= old(out)@ + count_text(n as int, unit@));
    } else {
        assert(old(out)@ + Seq::<char>::empty() =~= old(out)@);
    }
}

/// Text telling how much time is left before `deadline`, seen at `now`.
pub fn pretty_print_deadline(deadline: &Timestamp, now: &Timestamp) -> (s: String)
    requires
        deadline.wf(),
        now.wf(),
    ensures
        s@ == remaining_text(deadline.total_nanos() - now.total_nanos()),
{
    let d: i128 = now.nanos_until(deadline);
    if d <= 0 {
        let mut s = String::new();
        push_str(&mut s, "deadline has passed");
        assert(s@ =~= "deadline has passed"@);
        return s;
    }
    let total: i128 = d / 1_000_000_000i128;
    assert(total <= 0x1_0000_0000_0000);
    let secs: i64 = (total % 60) as i64;
    let mins: i64 = ((total / 60) % 60) as i64;
    let hours: i64 = (total / 3600) as i64;
    let mut s = String::new();
    push_str(&mut s, "there are ");
    push_count(&mut s, hours, " hours ");
    push_count(&mut s, mins, " minutes ");
    push_count(&mut s, secs, " seconds ");
    push_str(&mut s, "remaining.");
    assert(s@ =~= remaining_text(deadline.total_nanos() - now.total_nanos()));
    s
}


/// What the status command answers in state `s` at time `now`.
pub open spec fn status_text(s: GameState, now: Timestamp) -> Seq<char> {
    match s {
        GameState::Closed => "game is closed"@,
        GameState::Registration => "game is accepting registrations"@,
        GameState::Auction { day, deadline, .. } => "Auctions for day "@ + decimal(day as int)
            + " are open, and "@ + remaining_text(deadline.total_nanos() - now.total_nanos()),
        GameState::Finished => "finished"@,
    }
}

/// An auction day whose deadline chrono can represent.
pub open spec fn deadline_wf(s: GameState) -> bool {
    match s {
        GameState::Auction { deadline, .. } => deadline.wf(),
        _ => true,
    }
}

fn literal(text: &str) -> (s: String)
    ensures
        s@ == text@,
{
    let mut s = String::new();
    push_str(&mut s, text);
    assert(s@ =~= text@);
    s
}

/// What the status command answers in state `s` at time `now`.
pub fn status_message(s: &GameState, now: &Timestamp) -> (r: String)
    requires
        deadline_wf(*s),
        now.wf(),
    ensures
        r@ == status_text(*s, *now),
{
    match *s {
        GameState::Closed => literal("game is closed"),
        GameState::Registration => literal("game is accepting registrations"),
        GameState::Auction { day, deadline, .. } => {
            let mut r = String::new();
            push_str(&mut r, "Auctions for day ");
            push_int(&mut r, day as i64);
            push_str(&mut r, " are open, and ");
            let left = pretty_print_deadline(&deadline, now);
            push_str(&mut r, left.as_str());
            assert(r@ =~= status_text(*s, *now));
            r
        },
        GameState::Finished => literal("finished"),
    }
}

/// What the administrator's state query answers in state `s`.
pub open spec fn state_report_text(s: GameState) -> Seq<char> {
    match s {
        GameState::Registration => "Game is in registration!"@,
        GameState::Closed => "Game is closed!"@,
        GameState::Finished => "Game is finished!"@,
        GameState::Auction { day, deadline, rate } => "Auctions are open. It is day: "@ + decimal(
            day as int,
        ) + ", current deadline is "@ + chrono_text(deadline.secs, deadline.nanos)
            + ", and rate is "@ + decimal(rate as int),
    }
}

/// What the administrator's state query answers in state `s`.
pub fn state_report(s: &GameState) -> (r: String)
    requires
        deadline_wf(*s),
    ensures
        r@ == state_report_text(*s),
{
    match *s {
        GameState::Registration => literal("Game is in registration!"),
        GameState::Closed => literal("Game is closed!"),
        GameState::Finished => literal("Game is finished!"),
        GameState::Auction { day, deadline, rate } => {
            let mut r = String::new();
            push_str(&mut r, "Auctions are open. It is day: ");
            push_int(&mut r, day as i64);
            push_str(&mut r, ", current deadline is ");
            let d = datetime_text(&deadline);
            push_str(&mut r, d.as_str());
            push_str(&mut r, ", and rate is ");
            push_int(&mut r, rate as i64);
            assert(r@ =~= state_report_text(*s));
            r
        },
    }
}

/// Law: once the auctions of a day are due, the status tells that the
/// deadline has passed.
pub proof fn law_due_auction_shows_passed_deadline(s: GameState, now: Timestamp)
    requires
        deadline_wf(s),
        now.wf(),
        auction_due(s, now),
    ensures
        status_text(s, now) == ({
            let day = s->Auction_day;
            "Auctions for day "@ + decimal(day as int) + " are open, and "@ + "deadline has passed"@
        }),
{
    if let GameState::Auction { deadline, .. } = s {
        lemma_order_by_nanos(deadline, now);
    }
}

// ---------------------------------------------------------------------------
// Tables
// ---------------------------------------------------------------------------

/// One won item: who won it, on which day, for how much.
pub struct WinRow {
    pub user_name: String,
    pub item: String,
    pub day: i16,
    pub cost: i32,
}

/// The line of a won item: day, cost and item right-aligned, then the winner.
pub open spec fn win_line(r: WinRow) -> Seq<char> {
    pad_left(decimal(r.day as int), 3) + "|"@ + pad_left(decimal(r.cost as int), 4) + "|"@ + pad_left(
        r.item@,
        30,
    ) + "|"@ + r.user_name@ + "\n"@
}

/// The lines of `rows`, in order.
pub open spec fn win_lines(rows: Seq<WinRow>) -> Seq<char>
    decreases rows.len(),
{
    if rows.len() == 0 {
        Seq::empty()
    } else {
        win_lines(rows.drop_last()) + win_line(rows.last())
    }
}

/// The table of won items, as a code block.
pub open spec fn wins_table(rows: Seq<WinRow>) -> Seq<char> {
    "```day|cost|             item             |winner\n"@ + win_lines(rows) + "```"@
}

fn win_line_string(r: &WinRow) -> (s: String)
    ensures
        s@ == win_line(*r),
{
    let mut s = String::new();
    push_int_right_aligned(&mut s, r.day as i64, 3);
    push_str(&mut s, "|");
    push_int_right_aligned(&mut s, r.cost as i64, 4);
    push_str(&mut s, "|");
    push_right_aligned(&mut s, r.item.as_str(), 30);
    push_str(&mut s, "|");
    push_str(&mut s, r.user_name.as_str());
    push_str(&mut s, "\n");
    assert(s@ =~= win_line(*r));
    s
}

/// Writes the table of won items.
pub fn get_wins(rows: &Vec<WinRow>) -> (s: String)
    ensures
        s@ == wins_table(rows@),
{
    let mut s = String::new();
    push_str(&mut s, "```day|cost|             item             |winner\n");
    let ghost head = s@;
    let mut k: usize = 0;
    while k < rows.len()
        invariant
            k <= rows@.len(),
            s@ == head + win_lines(rows@.take(k as int)),
        decreases rows@.len() - k,
    {
        let line = win_line_string(&rows[k]);
        let ghost before = s@;
        push_str(&mut s, line.as_str());
        proof {
            assert(rows@.take(k as int + 1).drop_last() =~= rows@.take(k as int));
            assert(rows@.take(k as int + 1).last() == rows@[k as int]);
            assert(s@ =~= head + win_lines(rows@.take(k as int + 1)));
        }
        k = k + 1;
    }
    push_str(&mut s, "```");
    assert(rows@.take(rows@.len() as int) =~= rows@);
    assert(s@ =~= wins_table(rows@));
    s
}

/// One bid of a player: item, price and reserve.
pub struct BidRow {
    pub item: String,
    pub price: i32,
    pub reserve: i32,
}

/// The lines of the bids with a price other than zero: price and reserve
/// right-aligned, then the item.
pub open spec fn bid_lines(rows: Seq<BidRow>) -> Seq<char>
    decreases rows.len(),
{
    if rows.len() == 0 {
        Seq::empty()
    } else {
        let r = rows.last();
        bid_lines(rows.drop_last()) + if r.price != 0 {
            pad_left(decimal(r.price as int), 4) + "|"@ + pad_left(decimal(r.reserve as int), 7)
                + "|"@ + r.item@ + "\n"@
        } else {
            Seq::empty()
        }
    }
}

/// A player's bids of the day and the points they have left, as a code block.
pub open spec fn bids_table(rows: Seq<BidRow>, points: i32) -> Seq<char> {
    "```cost|reserve|item\n"@ + bid_lines(rows) + "points remaining : "@ + decimal(points as int)
        + "```"@
}

/// Writes a player's bids of the day and the points they have left.
pub fn get_bids(rows: &Vec<BidRow>, points: i32) -> (s: String)
    ensures
        s@ == bids_table(rows@, points),
{
    let mut s = String::new();
    push_str(&mut s, "```cost|reserve|item\n");
    let ghost head = s@;
    let mut k: usize = 0;
    while k < rows.len()
        invariant
            k <= rows@.len(),
            s@ == head + bid_lines(rows@.take(k as int)),
        decreases rows@.len() - k,
    {
        let r = &rows[k];
        let ghost before = s@;
        if r.price != 0 {
            push_int_right_aligned(&mut s, r.price as i64, 4);
            push_str(&mut s, "|");
            push_int_right_aligned(&mut s, r.reserve as i64, 7);
            push_str(&mut s, "|");
            push_str(&mut s, r.item.as_str());
            push_str(&mut s, "\n");
        }
        proof {
            assert(rows@.take(k as int + 1).drop_last() =~= rows@.take(k as int));
            assert(rows@.take(k as int + 1).last() == rows@[k as int]);
            if r.price == 0 {
                assert(before + Seq::<char>::empty() =~= before);
            }
            assert(s@ =~= head + bid_lines(rows@.take(k as int + 1)));
        }
        k = k + 1;
    }
    push_str(&mut s, "points remaining : ");
    push_int(&mut s, points as i64);
    push_str(&mut s, "```");
    assert(rows@.take(rows@.len() as int) =~= rows@);
    assert(s@ =~= bids_table(rows@, points));
    s
}

/// A player and their points.
pub struct UserRow {
    pub name: String,
    pub points: i32,
}

/// The lines of the players: points right-aligned, then the name.
pub open spec fn user_lines(rows: Seq<UserRow>) -> Seq<char>
    decreases rows.len(),
{
    if rows.len() == 0 {
        Seq::empty()
    } else {
        user_lines(rows.drop_last()) + pad_left(decimal(rows.last().points as int), 6) + "|"@
            + rows.last().name@ + "\n"@
    }
}

/// The table of players and their points, as a code block.
pub open spec fn users_table(rows: Seq<UserRow>) -> Seq<char> {
    "```points|name\n"@ + user_lines(rows) + "```"@
}

/// Writes the table of players and their points.
pub fn users(rows: &Vec<UserRow>) -> (s: String)
    ensures
        s@ == users_table(rows@),
{
    let mut s = String::new();
    push_str(&mut s, "```points|name\n");
    let ghost head = s@;
    let mut k: usize = 0;
    while k < rows.len()
        invariant
            k <= rows@.len(),
            s@ == head + user_lines(rows@.take(k as int)),
        decreases rows@.len() - k,
    {
        let r = &rows[k];
        let ghost before = s@;
        push_int_right_aligned(&mut s, r.points as i64, 6);
        push_str(&mut s, "|");
        push_str(&mut s, r.name.as_str());
        push_str(&mut s, "\n");
        proof {
            assert(rows@.take(k as int + 1).drop_last() =~= rows@.take(k as int));
            assert(rows@.take(k as int + 1).last() == rows@[k as int]);
            assert(s@ =~= head + user_lines(rows@.take(k as int + 1)));
        }
        k = k + 1;
    }
    push_str(&mut s, "```");
    assert(rows@.take(rows@.len() as int) =~= rows@);
    assert(s@ =~= users_table(rows@));
    s
}

// ---------------------------------------------------------------------------
// What the tables hold
// ---------------------------------------------------------------------------

/// Law: the wins table is its header, then one line for every row, in order
/// (day in 3 columns, cost in 4, item in 30, then the winner, separated by
/// `|`), then the closing fence.
pub proof fn law_wins_table_lists_every_row(rows: Seq<WinRow>)
    ensures
        wins_table(rows) == "```day|cost|             item             |winner\n"@ + rows.map_values(
            |r: WinRow|
                pad_left(decimal(r.day as int), 3) + "|"@ + pad_left(decimal(r.cost as int), 4) + "|"@
                    + pad_left(r.item@, 30) + "|"@ + r.user_name@ + "\n"@,
        ).flatten() + "```"@,
    decreases rows.len(),
{
    lemma_win_lines_flat(rows);
}

proof fn lemma_win_lines_flat(rows: Seq<WinRow>)
    ensures
        win_lines(rows) == rows.map_values(
            |r: WinRow|
                pad_left(decimal(r.day as int), 3) + "|"@ + pad_left(decimal(r.cost as int), 4) + "|"@
                    + pad_left(r.item@, 30) + "|"@ + r.user_name@ + "\n"@,
        ).flatten(),
    decreases rows.len(),
{
    let f = |r: WinRow|
        pad_left(decimal(r.day as int), 3) + "|"@ + pad_left(decimal(r.cost as int), 4) + "|"@
            + pad_left(r.item@, 30) + "|"@ + r.user_name@ + "\n"@;
    if rows.len() == 0 {
        assert(rows.map_values(f) =~= Seq::<Seq<char>>::empty());
    } else {
        lemma_win_lines_flat(rows.drop_last());
        assert(rows.map_values(f) =~= rows.drop_last().map_values(f).push(f(rows.last())));
        rows.drop_last().map_values(f).lemma_flatten_push(f(rows.last()));
    }
}

/// Law: the bids table is its header, then one line for every bid whose price
/// is not zero, in order and whatever its reserve (price in 4 columns, reserve
/// in 7, then the item), then the points left and the closing fence.
pub proof fn law_bids_table_lists_every_priced_bid(rows: Seq<BidRow>, points: i32)
    ensures
        bids_table(rows, points) == "```cost|reserve|item\n"@ + rows.filter(|r: BidRow| r.price != 0).map_values(
            |r: BidRow|
                pad_left(decimal(r.price as int), 4) + "|"@ + pad_left(decimal(r.reserve as int), 7) + "|"@
                    + r.item@ + "\n"@,
        ).flatten() + "points remaining : "@ + decimal(points as int) + "```"@,
{
    lemma_bid_lines_flat(rows);
}

proof fn lemma_bid_lines_flat(rows: Seq<BidRow>)
    ensures
        bid_lines(rows) == rows.filter(|r: BidRow| r.price != 0).map_values(
            |r: BidRow|
                pad_left(decimal(r.price as int), 4) + "|"@ + pad_left(decimal(r.reserve as int), 7) + "|"@
                    + r.item@ + "\n"@,
        ).flatten(),
    decreases rows.len(),
{
    let p = |r: BidRow| r.price != 0;
    let f = |r: BidRow|
        pad_left(decimal(r.price as int), 4) + "|"@ + pad_left(decimal(r.reserve as int), 7) + "|"@
            + r.item@ + "\n"@;
    if rows.len() == 0 {
        reveal(Seq::filter);
        assert(rows.filter(p).map_values(f) =~= Seq::<Seq<char>>::empty());
    } else {
        let front = rows.drop_last();
        let last = rows.last();
        lemma_bid_lines_flat(front);
        assert(front.push(last) =~= rows);
        front.lemma_filter_push(last, p);
        if p(last) {
            assert(rows.filter(p).map_values(f) =~= front.filter(p).map_values(f).push(f(last)));
            front.filter(p).map_values(f).lemma_flatten_push(f(last));
        } else {
            assert(rows.filter(p) == front.filter(p));
            assert(bid_lines(rows) =~= bid_lines(front));
        }
    }
}

/// Law: the players table is its header, then one line for every row, in
/// order (points in 6 columns, then the name), then the closing fence.
pub proof fn law_users_table_lists_every_row(rows: Seq<UserRow>)
    ensures
        users_table(rows) == "```points|name\n"@ + rows.map_values(
            |r: UserRow| pad_left(decimal(r.points as int), 6) + "|"@ + r.name@ + "\n"@,
        ).flatten() + "```"@,
{
    lemma_user_lines_flat(rows);
}

proof fn lemma_user_lines_flat(rows: Seq<UserRow>)
    ensures
        user_lines(rows) == rows.map_values(
            |r: UserRow| pad_left(decimal(r.points as int), 6) + "|"@ + r.name@ + "\n"@,
        ).flatten(),
    decreases rows.len(),
{
    let f = |r: UserRow| pad_left(decimal(r.points as int), 6) + "|"@ + r.name@ + "\n"@;
    if rows.len() == 0 {
        assert(rows.map_values(f) =~= Seq::<Seq<char>>::empty());
    } else {
        lemma_user_lines_flat(rows.drop_last());
        assert(rows.map_values(f) =~= rows.drop_last().map_values(f).push(f(rows.last())));
        rows.drop_last().map_values(f).lemma_flatten_push(f(rows.last()));
        assert(user_lines(rows) =~= user_lines(rows.drop_last()) + f(rows.last()));
    }
}

// ---------------------------------------------------------------------------
// Announcements after an auction day
// ---------------------------------------------------------------------------

/// What the announcement says of the state the game moved on to.
pub open spec fn next_state_text(s: GameState, now: Timestamp) -> Seq<char> {
    match s {
        GameState::Finished => "\n Game is finished.\n"@,
        GameState::Auction { day, deadline, .. } => "auctions for day "@ + decimal(day as int)
            + " are open. "@ + remaining_text(deadline.total_nanos() - now.total_nanos()),
        _ => Seq::empty(),
    }
}

/// The announcement to the game's channel after the auctions of `old_day`:
/// the day, the table of its wins, and the state that follows.
pub open spec fn channel_announcement_text(old_day: i16, wins_table: Seq<char>, next: GameState, now: Timestamp) -> Seq<char> {
    "Auctions for day "@ + decimal(old_day as int) + " were resolved.\n"@ + wins_table
        + next_state_text(next, now)
}

/// The message to one player after the auctions of `old_day`: the channel's
/// announcement with their own wins, and the points they have left.
pub open spec fn player_announcement_text(old_day: i16, wins_table: Seq<char>, next: GameState, now: Timestamp, points: i32) -> Seq<char> {
    channel_announcement_text(old_day, wins_table, next, now) + "\nYou have "@ + decimal(points as int)
        + " points remaining."@
}

/// Writes the announcement to the game's channel after the auctions of
/// `old_day`.
pub fn channel_announcement(old_day: i16, wins_table: &str, next: &GameState, now: &Timestamp) -> (s: String)
    requires
        deadline_wf(*next),
        now.wf(),
    ensures
        s@ == channel_announcement_text(old_day, wins_table@, *next, *now),
{
    let mut s = String::new();
    push_str(&mut s, "Auctions for day ");
    push_int(&mut s, old_day as i64);
    push_str(&mut s, " were resolved.\n");
    push_str(&mut s, wins_table);
    let ghost before = s@;
    match *next {
        GameState::Finished => {
            push_str(&mut s, "\n Game is finished.\n");
        },
        GameState::Auction { day, deadline, .. } => {
            push_str(&mut s, "auctions for day ");
            push_int(&mut s, day as i64);
            push_str(&mut s, " are open. ");
            let left = pretty_print_deadline(&deadline, now);
            push_str(&mut s, left.as_str());
        },
        _ => {
            assert(before + Seq::<char>::empty() =~= before);
        },
    }
    assert(s@ =~= channel_announcement_text(old_day, wins_table@, *next, *now));
    s
}

/// Writes the message to one player after the auctions of `old_day`.
pub fn player_announcement(old_day: i16, wins_table: &str, next: &GameState, now: &Timestamp, points: i32) -> (s: String)
    requires
        deadline_wf(*next),
        now.wf(),
    ensures
        s@ == player_announcement_text(old_day, wins_table@, *next, *now, points),
{
    let mut s = channel_announcement(old_day, wins_table, next, now);
    push_str(&mut s, "\nYou have ");
    push_int(&mut s, points as i64);
    push_str(&mut s, " points remaining.");
    assert(s@ =~= player_announcement_text(old_day, wins_table@, *next, *now, points));
    s
}

/// A player's id as the chat service writes it: the bits of the stored `i64`
/// read as a `u64`.
pub fn uid_to_u64(id: i64) -> (r: u64)
    ensures
        r == id as u64,
{
    id as u64
}

/// A chat user id as it is stored: the bits of the `u64` read as an `i64`.
pub fn getuid_i64(id: u64) -> (r: i64)
    ensures
        r == id as i64,
{
    id as i64
}

/// The players to write to after an auction day: those whose id, read as a
/// chat user id, is above 12, each with their points, in order.
pub open spec fn notified(rows: Seq<(i64, i32)>) -> Seq<(u64, i32)>
    decreases rows.len(),
{
    if rows.len() == 0 {
        Seq::empty()
    } else {
        let front = notified(rows.drop_last());
        let (id, points) = rows.last();
        if (id as u64) > 12 {
            front.push((id as u64, points))
        } else {
            front
        }
    }
}

/// The players to write to after an auction day, from the stored ids and
/// points.
pub fn notify_targets(rows: &Vec<(i64, i32)>) -> (r: Vec<(u64, i32)>)
    ensures
        r@ == notified(rows@),
{
    let mut r: Vec<(u64, i32)> = Vec::new();
    let mut k: usize = 0;
    while k < rows.len()
        invariant
            k <= rows@.len(),
            r@ == notified(rows@.take(k as int)),
        decreases rows@.len() - k,
    {
        assert(rows@.take(k as int + 1).drop_last() =~= rows@.take(k as int));
        assert(rows@.take(k as int + 1).last() == rows@[k as int]);
        let (id, points) = rows[k];
        let uid = uid_to_u64(id);
        if uid > 12 {
            r.push((uid, points));
        }
        k = k + 1;
    }
    assert(rows@.take(rows@.len() as int) =~= rows@);
    r
}
} // verus!
