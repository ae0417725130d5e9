use vstd::prelude::*;

verus! {

/// A participant of the prediction game, with the champion picks that earn
/// the tournament bonus.
#[derive(Debug)]
pub struct User {
    pub id: i32,
    pub username: String,
    pub department: String,
    pub winner: String,
    pub secret_winner: String,
}

/// One predicted result of a user for one match.
#[derive(Debug, Clone, Copy)]
pub struct Tip {
    pub id: i32,
    pub user_id: i32,
    pub match_id: i32,
    pub score_home: i32,
    pub score_away: i32,
}

/// A finished match. The two team fields hold the teams as JSON text, as
/// they are stored.
#[derive(Debug)]
pub struct Game {
    pub id: i32,
    pub home_team: String,
    pub away_team: String,
    pub home_score: i32,
    pub away_score: i32,
    pub date: i64,
}

/// A football team.
#[derive(Debug)]
pub struct Team {
    pub name: String,
    pub tla: String,
}

impl Default for Team {
    fn default() -> (team: Self)
        ensures
            team.name@ == Seq::<char>::empty(),
            team.tla@ == Seq::<char>::empty(),
    {
        Team { name: String::new(), tla: String::new() }
    }
}

impl Clone for Team {
    fn clone(&self) -> (copy: Self)
        ensures
            copy == *self,
    {
        Team { name: self.name.clone(), tla: self.tla.clone() }
    }
}

/// One user's view of one match: the result, the user's tip and the points
/// that the tip earned.
#[derive(Debug, Clone)]
pub struct MatchInfo {
    pub match_id: String,
    pub user: String,
    pub user_id: i32,
    pub score: i32,
    pub team1: Team,
    pub team2: Team,
    pub tip_home: Option<i32>,
    pub tip_away: Option<i32>,
    pub score_home: Option<i32>,
    pub score_away: Option<i32>,
    pub date: i64,
}

/// A user's standing: the point totals per kind of hit, the leaderboard
/// position and the per-match details.
#[derive(Debug, Clone)]
pub struct UserRating {
    pub name: String,
    pub user_id: i32,
    pub department: String,
    pub position: i32,
    /// All points: the bonus and the points of every tip.
    pub score_sum: i32,
    /// The number of exactly predicted results.
    pub sum_win_exact: i32,
    /// The number of predicted goal differences of decided matches.
    pub sum_score_diff: i32,
    /// The points earned by predicting the winning side or a draw.
    pub sum_team: i32,
    /// The tournament bonus.
    pub extra_point: i32,
    pub tips: Vec<MatchInfo>,
}

} // verus!
