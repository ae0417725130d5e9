//! Scoring, rating and ranking rules of the office football-prediction game.
//!
//! The library turns users, their match tips and the finished games into
//! per-user ratings, and ranks those ratings into the leaderboard that the
//! API serves.

pub mod ranking;
pub mod rating;
pub mod records;
pub mod scoring;
pub mod text;

pub use records::{Game, MatchInfo, Team, Tip, User, UserRating};
pub use ranking::calculate_positions;
pub use rating::{can_rate, get_user_rating, rate_users};
pub use scoring::{calculate_score, ScoreConfig};
pub use text::decimal_string;
