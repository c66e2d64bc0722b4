# auction_bot

The rules of a sealed-bid auction game that is played in a chat channel,
verified with Verus.

- `src/auction.rs`: resolution of a day's auctions (capping bids to what a
  player can afford, choosing winners, second-price costs) and its laws.
- `src/gamestate.rs`: the game's phases, how they are stored, and how an
  auction day moves on.
- `src/clock.rs`: deadlines and the current time; reading and writing dates
  through chrono.
- `src/commands.rs`, `src/replies.rs`: what the commands decide from their
  arguments and the texts the bot writes.
- `src/text.rs`: decimal numerals, columns, integer parsing, ASCII upper case.
- `app/main.rs`: the bot itself (chat service, database, timer), which leaves
  every decision to the library.
