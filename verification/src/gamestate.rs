//! The phase the game is in, how it is stored, and how it moves on.
//!
//! The database holds at most one row for the game state: none while the game
//! is closed, phase `0` during registration, phase `-1` once the game is
//! finished, and otherwise the auction day together with its deadline and the
//! number of minutes by which each new day pushes the deadline back.
use vstd::prelude::*;
use crate::clock::{
    Timestamp, plus_minutes, minutes_fit, add_minutes, fits_after_minutes, chrono_parse,
    deadline_format, parse_deadline,
};
use crate::text::{parse_in_range, parse_i16, parse_i32};

verus! {

/// The phase of the game.
#[derive(Clone, Copy, PartialEq, Eq, Structural, Debug)]
pub enum GameState {
    Closed,
    Registration,
    Auction { day: i16, deadline: Timestamp, rate: i32 },
    Finished,
}

/// The stored row of the game state: its phase, and for an auction day its
/// deadline and rate.
#[derive(Clone, Copy, PartialEq, Eq, Structural, Debug)]
pub struct GameStateRow {
    pub phase: i16,
    pub deadline: Option<Timestamp>,
    pub rate: Option<i32>,
}

/// A stored row from which the game state can be read: an auction day has its
/// deadline and rate.
pub open spec fn row_complete(row: Option<GameStateRow>) -> bool {
    match row {
        Some(r) => r.phase != 0 && r.phase != -1 ==> r.deadline is Some && r.rate is Some,
        None => true,
    }
}

/// The game state that a stored row stands for.
pub open spec fn state_of_row(row: Option<GameStateRow>) -> GameState {
    match row {
        None => GameState::Closed,
        Some(r) => if r.phase == 0 {
            GameState::Registration
        } else if r.phase == -1 {
            GameState::Finished
        } else {
            GameState::Auction { day: r.phase, deadline: r.deadline.unwrap(), rate: r.rate.unwrap() }
        },
    }
}

/// The row that stores a game state.
pub open spec fn row_of_state(s: GameState) -> Option<GameStateRow> {
    match s {
        GameState::Closed => None,
        GameState::Registration => Some(GameStateRow { phase: 0i16, deadline: None, rate: None }),
        GameState::Finished => Some(GameStateRow { phase: -1i16, deadline: None, rate: None }),
        GameState::Auction { day, deadline, rate } => Some(
            GameStateRow { phase: day, deadline: Some(deadline), rate: Some(rate) },
        ),
    }
}

/// The state after an auction day is resolved, when `auctions_on_next_day`
/// auctions are planned for the next day.
pub open spec fn advanced(s: GameState, auctions_on_next_day: i32) -> GameState {
    match s {
        GameState::Auction { day, deadline, rate } => if auctions_on_next_day == 0 {
            GameState::Finished
        } else {
            GameState::Auction {
                day: (day + 1) as i16,
                deadline: plus_minutes(deadline, rate as int),
                rate,
            }
        },
        _ => s,
    }
}

/// An auction day whose deadline lies before `now`.
pub open spec fn auction_due(s: GameState, now: Timestamp) -> bool {
    match s {
        GameState::Auction { deadline, .. } => deadline.secs < now.secs || (deadline.secs == now.secs
            && deadline.nanos < now.nanos),
        _ => false,
    }
}

/// An auction day that can move on to the next: the day number and the
/// deadline both have room.
pub open spec fn can_advance_spec(s: GameState) -> bool {
    match s {
        GameState::Auction { day, deadline, rate } => day < i16::MAX && minutes_fit(deadline, rate as int),
        _ => false,
    }
}

/// A phase that the administrator sets with a deadline and a rate: any number
/// but those of the closed game (`-2`), the finished game and registration.
pub open spec fn phase_needs_schedule(phase: i16) -> bool {
    phase != -2 && phase != -1 && phase != 0
}

/// The state that the administrator sets with `phase`, given the rate and
/// deadline where that phase needs them.
pub open spec fn admin_state(phase: i16, schedule: Option<(i32, Timestamp)>) -> Option<GameState> {
    if phase == -2 {
        Some(GameState::Closed)
    } else if phase == -1 {
        Some(GameState::Finished)
    } else if phase == 0 {
        Some(GameState::Registration)
    } else {
        match schedule {
            Some((rate, deadline)) => Some(GameState::Auction { day: phase, deadline, rate }),
            None => None,
        }
    }
}

impl GameState {
    /// The game state that the stored row stands for (none: the game is closed).
    pub fn fromdb(row: Option<GameStateRow>) -> (s: GameState)
        requires
            row_complete(row),
        ensures
            s == state_of_row(row),
    {
        match row {
            None => GameState::Closed,
            Some(r) => if r.phase == 0 {
                GameState::Registration
            } else if r.phase == -1 {
                GameState::Finished
            } else {
                let deadline = match r.deadline {
                    Some(d) => d,
                    None => Timestamp { secs: 0, nanos: 0 },
                };
                let rate = match r.rate {
                    Some(x) => x,
                    None => 0,
                };
                GameState::Auction { day: r.phase, deadline, rate }
            },
        }
    }

    /// The row that stores this state (none: the game is closed).
    pub fn to_row(&self) -> (row: Option<GameStateRow>)
        ensures
            row == row_of_state(*self),
    {
        match *self {
            GameState::Closed => None,
            GameState::Registration => Some(GameStateRow { phase: 0, deadline: None, rate: None }),
            GameState::Finished => Some(GameStateRow { phase: -1, deadline: None, rate: None }),
            GameState::Auction { day, deadline, rate } => Some(
                GameStateRow { phase: day, deadline: Some(deadline), rate: Some(rate) },
            ),
        }
    }

    /// Tells whether this is an auction day that can move on to the next.
    pub fn can_advance(&self) -> (b: bool)
        ensures
            b == can_advance_spec(*self),
    {
        match *self {
            GameState::Auction { day, deadline, rate } => day < i16::MAX && fits_after_minutes(
                &deadline,
                rate,
            ),
            _ => false,
        }
    }

    /// The state after this auction day is resolved: the game is finished
    /// where no auction is planned for the next day; otherwise the next day
    /// opens, its deadline `rate` minutes after this one.
    pub fn advance(self, auctions_on_next_day: i32) -> (s: GameState)
        requires
            can_advance_spec(self),
        ensures
            s == advanced(self, auctions_on_next_day),
    {
        match self {
            GameState::Auction { day, deadline, rate } => {
                if auctions_on_next_day == 0 {
                    GameState::Finished
                } else {
                    GameState::Auction { day: day + 1, deadline: add_minutes(&deadline, rate), rate }
                }
            },
            _ => self,
        }
    }

    /// The day of the auctions now open, if any.
    pub fn auction_day(&self) -> (d: Option<i16>)
        ensures
            d == match *self {
                GameState::Auction { day, .. } => Some(day),
                _ => None::<i16>,
            },
    {
        match *self {
            GameState::Auction { day, .. } => Some(day),
            _ => None,
        }
    }

    /// Players may register or unregister.
    pub fn accepts_registration(&self) -> (b: bool)
        ensures
            b == (*self == GameState::Registration),
    {
        match *self {
            GameState::Registration => true,
            _ => false,
        }
    }

    /// The auctions of the day are due: their deadline lies before `now`.
    pub fn should_auction(&self, now: &Timestamp) -> (b: bool)
        ensures
            b == auction_due(*self, *now),
    {
        match *self {
            GameState::Auction { deadline, .. } => deadline.is_before(now),
            _ => false,
        }
    }
}

/// Tells whether the administrator's `phase` needs a rate and a deadline.
pub fn needs_schedule(phase: i16) -> (b: bool)
    ensures
        b == phase_needs_schedule(phase),
{
    phase != -2 && phase != -1 && phase != 0
}

/// The state that the administrator sets with `phase`: `-2` closes the game,
/// `-1` finishes it, `0` opens registration, and any other number opens that
/// auction day with the given rate and deadline (none where they are missing).
pub fn from_admin(phase: i16, schedule: Option<(i32, Timestamp)>) -> (s: Option<GameState>)
    ensures
        s == admin_state(phase, schedule),
{
    if phase == -2 {
        Some(GameState::Closed)
    } else if phase == -1 {
        Some(GameState::Finished)
    } else if phase == 0 {
        Some(GameState::Registration)
    } else {
        match schedule {
            Some((rate, deadline)) => Some(GameState::Auction { day: phase, deadline, rate }),
            None => None,
        }
    }
}

/// Why an administrator's command to set the state was refused.
#[derive(Clone, Copy, PartialEq, Eq, Structural, Debug)]
pub enum AdminError {
    /// The phase is missing or is no `i16`.
    BadPhase,
    /// The rate is missing or is no `i32`.
    BadRate,
    /// The deadline is missing or is not written as `YYYY-MM-DD HH:MM`.
    BadDeadline,
}

/// The outcome of the administrator's command to set the state, from its
/// phase, rate and deadline arguments.
pub open spec fn admin_command(phase: Option<Seq<char>>, rate: Option<Seq<char>>, deadline: Option<Seq<char>>) -> Result<GameState, AdminError> {
    match phase {
        None => Err(AdminError::BadPhase),
        Some(p) => match parse_in_range(p, i16::MIN as int, i16::MAX as int) {
            None => Err(AdminError::BadPhase),
            Some(ph) => if !phase_needs_schedule(ph as i16) {
                Ok(admin_state(ph as i16, None).unwrap())
            } else {
                match rate {
                    None => Err(AdminError::BadRate),
                    Some(r) => match parse_in_range(r, i32::MIN as int, i32::MAX as int) {
                        None => Err(AdminError::BadRate),
                        Some(rt) => match deadline {
                            None => Err(AdminError::BadDeadline),
                            Some(d) => match chrono_parse(d, deadline_format()) {
                                None => Err(AdminError::BadDeadline),
                                Some((secs, nanos)) => Ok(
                                    GameState::Auction {
                                        day: ph as i16,
                                        deadline: Timestamp { secs, nanos },
                                        rate: rt as i32,
                                    },
                                ),
                            },
                        },
                    },
                }
            },
        },
    }
}

fn opt_str_view(s: &Option<String>) -> (r: Option<&str>)
    ensures
        r is Some <==> s is Some,
        r matches Some(t) ==> t@ == s->Some_0@,
{
    match s {
        Some(t) => Some(t.as_str()),
        None => None,
    }
}

/// Reads the administrator's command to set the state: the phase, and for an
/// auction day the rate and the deadline.
pub fn parse_admin_command(phase: &Option<String>, rate: &Option<String>, deadline: &Option<String>) -> (r: Result<GameState, AdminError>)
    ensures
        r == admin_command(
            match phase { Some(s) => Some(s@), None => None },
            match rate { Some(s) => Some(s@), None => None },
            match deadline { Some(s) => Some(s@), None => None },
        ),
{
    let p = match opt_str_view(phase) {
        Some(t) => t,
        None => return Err(AdminError::BadPhase),
    };
    let ph = match parse_i16(p) {
        Some(v) => v,
        None => return Err(AdminError::BadPhase),
    };
    if !needs_schedule(ph) {
        return match from_admin(ph, None) {
            Some(s) => Ok(s),
            None => Err(AdminError::BadPhase),
        };
    }
    let rt = match opt_str_view(rate) {
        Some(t) => match parse_i32(t) {
            Some(v) => v,
            None => return Err(AdminError::BadRate),
        },
        None => return Err(AdminError::BadRate),
    };
    let d = match opt_str_view(deadline) {
        Some(t) => match parse_deadline(t) {
            Some(v) => v,
            None => return Err(AdminError::BadDeadline),
        },
        None => return Err(AdminError::BadDeadline),
    };
    Ok(GameState::Auction { day: ph, deadline: d, rate: rt })
}

/// Law: a stored state reads back as itself, except an auction day numbered
/// `0` or `-1`, whose phase number the registration and the finished game use.
pub proof fn law_stored_state_reads_back(s: GameState)
    requires
        !(s matches GameState::Auction { day, .. } && (day == 0 || day == -1)),
    ensures
        row_complete(row_of_state(s)),
        state_of_row(row_of_state(s)) == s,
{
}

/// Law: every state that the administrator can set survives being stored and
/// read back.
pub proof fn law_admin_state_survives_storage(phase: i16, schedule: Option<(i32, Timestamp)>)
    requires
        admin_state(phase, schedule) is Some,
    ensures
        row_complete(row_of_state(admin_state(phase, schedule).unwrap())),
        state_of_row(row_of_state(admin_state(phase, schedule).unwrap())) == admin_state(
            phase,
            schedule,
        ).unwrap(),
{
}

/// Law: moving on from an auction day keeps the rate, counts the day up by one
/// and pushes the deadline back by `rate` minutes, or finishes the game; the
/// new state survives being stored unless the new day is numbered `0` or `-1`.
pub proof fn law_advance_moves_one_day(s: GameState, auctions_on_next_day: i32)
    requires
        can_advance_spec(s),
    ensures
        auctions_on_next_day == 0 ==> advanced(s, auctions_on_next_day) == GameState::Finished,
        auctions_on_next_day != 0 ==> match (s, advanced(s, auctions_on_next_day)) {
            (GameState::Auction { day, deadline, rate }, GameState::Auction { day: d2, deadline: t2, rate: r2 }) => {
                &&& d2 == day + 1
                &&& r2 == rate
                &&& t2.total_nanos() == deadline.total_nanos() + 60_000_000_000 * rate
                &&& t2.wf()
            },
            _ => false,
        },
        !(advanced(s, auctions_on_next_day) matches GameState::Auction { day, .. } && (day == 0 || day == -1))
            ==> state_of_row(row_of_state(advanced(s, auctions_on_next_day))) == advanced(s, auctions_on_next_day),
{
    if let GameState::Auction { day, deadline, rate } = s {
        assert((deadline.secs + 60 * rate) * 1_000_000_000 == deadline.secs * 1_000_000_000 + 60_000_000_000 * rate) by (nonlinear_arith);
    }
}

} // verus!
