//! Core rules of a sealed-bid auction game played over chat.
use vstd::prelude::*;

pub mod text;
pub mod auction;
pub mod clock;
pub mod gamestate;
pub mod replies;
pub mod commands;

verus! {

} // verus!
