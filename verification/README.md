# hokm

The rules of the trick-taking card games Hokm (four or six players) and
Baloot, as a library whose functions carry contracts proved with Verus, and a
terminal program that plays a match with them.

- `src/` — the library: cards and their ranking within a trick (`cards`),
  the decks of each mode (`deck`), bids (`bid`), the table with its deal and
  play rules (`game`), the order in which a hand is shown (`hand`), the bidding
  round (`bidding`), trick play and scoring (`tricks`), the match around the
  hands (`session`), face-up/face-down cards and the full deck (`card_rules`),
  and the character-level reading and writing behind them (`text`).
- `app/` — the program: prompts, input and output, and the loops that ask the
  players and hand their answers to the library.
- `tests/` — tests of the library on concrete games.
