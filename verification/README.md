# klondike

A Klondike solitaire game for the terminal, with its rules verified by Verus.

- `src/card.rs`: suits, values and cards.
- `src/logic.rs`: the tableau, the foundation, the stock and the game; every move is stated
  as a step of an abstract game state (`GameView`), and each function is proved to make that step.
- `src/renderer.rs`: places on the table and the player's events; where the piles stand on
  the screen, which card a screen cell shows, the sprites that draw a game, and the handling
  of one event of the player.
- `src/laws.rs`: what every move keeps: no card is lost or made, the foundation piles stay in
  order, the stock cycles, picked-up cards can be put back, and a new game holds the whole deck.
- `app/`: the terminal front end (crossterm): reading events, drawing sprites, the game loop.
