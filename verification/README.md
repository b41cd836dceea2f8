# threepole

The decision logic of a Destiny 2 activity overlay, verified with Verus:
which character snapshot the activity timer trusts, how the current
activity and the daily clear history are refreshed, how activities are
classified as raids, dungeons, strikes and lost sectors, and what the
frontend is told after each poll.

- `src/` — the verified library: `time` (instants and the daily reset),
  `timing` (the activity timer and its laws), `modes` (activity modes),
  `responses` (the data read from Bungie), `sources` (definition and
  profile caches), `history` (history order, pages and replacement),
  `playerdata` (current activity and poll status), `preferences`.
- `app/` — HTTP, files, JSON, the polling loops and the frontend events.
- `tests/` — scenarios run against the library.
