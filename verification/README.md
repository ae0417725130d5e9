# betting_api

The rules of the office football-prediction game as a verified library:
how a tip is scored against a result, how users are rated over all finished
games (with the tournament-champion bonus), and how ratings are ranked into
the leaderboard.

- `src/scoring.rs`: points of one tip (`calculate_score`) and the laws of scoring.
- `src/rating.rs`: per-user ratings (`get_user_rating`, `rate_users`, `can_rate`).
- `src/ranking.rs`: the leaderboard (`calculate_positions`, with a stable merge sort) and its laws.
- `src/records.rs`: the data types.
- `src/text.rs`: decimal notation of match numbers and the trimming of the champion's name.
- `app/`: the HTTP server, the SQLite queries and the JSON forms of the types.
