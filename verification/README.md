# ccweb

The game flow of a browser front end for two-player falling-block battles
(a human on the keyboard against a bot, or any mix), written in Verus.

`src/` is the verified library:

- `match_flow`: the round control of a match (start countdown, win counts,
  the pause after a lost game, the start of the next round) and the numbers
  the page shows for it.
- `player_view`: what one board view remembers and decides on each battle
  event (sounds, changes to the displayed board, captions).
- `plan`: the row maps through which the bot's planned placements are drawn.
- `input`: key bindings, held keys and the controller they give; the
  requests made of the bot and the play-out of its moves.
- `options`: the players' settings and their defaults.
- `model`: plain models of pieces, lock results and battle events.
- `lines`: the rows cleared by a lock, kept in an `arrayvec` collection.

`app/` is the page itself: loading resources, reading the options from local
storage, the frame loop, the event listeners and the drawing.  It hands the
library plain values and carries out the actions the library returns.
