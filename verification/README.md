# multipass-video

Schedule one video file on disk to play for every viewer at the same moment,
now or at a set time, once or looping.

- `src/` is the library, verified with Verus: every decision the server takes.
  - `state`: the schedule, intermissions, and what viewers are told.
  - `admin`: admin calls, step by step.
  - `access`: the admin token, the viewers' cookie, logging in.
  - `secrets`: comparing and minting secrets.
  - `media`: which files are offered, and the intermission music.
  - `trace`: viewers' accounts for the log.
  - `clock`, `text`: the server clock and text functions.
- `app/` is the server around it: HTTP, files, the clock. It reads its pages and
  the built-in intermission music from `--static-dir`.
- `tests/` runs the library.

Proof functions named `law_...` state what holds of the library as a whole.
What is taken on trust of other code stands in `external_body` functions and
`assume_specification` items, in `clock`, `secrets` and `text`.
