use vstd::prelude::*;

use crate::records::MatchInfo;

verus! {

/// Points and bonuses of the game.
pub struct ScoreConfig;

impl ScoreConfig {
    /// No point: the tip missed the winning side.
    pub const NO_WIN_TEAM: i32 = 0;
    /// The exact result was predicted.
    pub const WIN_EXACT: i32 = 5;
    /// The goal difference of a decided match was predicted.
    pub const WIN_SCORE_DIFF: i32 = 3;
    /// The winning side, or a draw, was predicted.
    pub const WIN_TEAM: i32 = 2;
    /// Bonus for having picked the tournament champion.
    pub const WINNER_BONUS: i32 = 12;
    /// Bonus for having picked the tournament champion as secret pick.
    pub const SECRET_WINNER_BONUS: i32 = 6;
}

/// The points a tip (`tip_home`:`tip_away`) earns for the result
/// `score_home`:`score_away`, where `previous` is what the match held before
/// and stays when the tip hits nothing.
pub open spec fn match_points(score_home: int, score_away: int, tip_home: int, tip_away: int, previous: i32) -> i32 {
    if score_home == tip_home && score_away == tip_away {
        ScoreConfig::WIN_EXACT
    } else if score_home - score_away == tip_home - tip_away {
        if score_home == score_away {
            ScoreConfig::WIN_TEAM
        } else {
            ScoreConfig::WIN_SCORE_DIFF
        }
    } else if (score_home > score_away && tip_home > tip_away) || (score_home < score_away
        && tip_home < tip_away) {
        ScoreConfig::WIN_TEAM
    } else {
        previous
    }
}

/// The score a match carries once it has been scored: the points of the tip
/// where result and tip are both complete, the old score otherwise.
pub open spec fn scored(m: MatchInfo) -> i32 {
    match (m.score_home, m.score_away, m.tip_home, m.tip_away) {
        (Some(sh), Some(sa), Some(th), Some(ta)) => match_points(
            sh as int,
            sa as int,
            th as int,
            ta as int,
            m.score,
        ),
        _ => m.score,
    }
}

/// `a - b` can be computed in an `i32`.
pub open spec fn difference_fits(a: i32, b: i32) -> bool {
    i32::MIN <= a - b <= i32::MAX
}

/// The goal differences that scoring computes fit in an `i32`.
pub open spec fn scorable(m: MatchInfo) -> bool {
    match (m.score_home, m.score_away, m.tip_home, m.tip_away) {
        (Some(sh), Some(sa), Some(th), Some(ta)) => difference_fits(sh, sa) && difference_fits(
            th,
            ta,
        ),
        _ => true,
    }
}

/// `m` with its score replaced by `score`.
pub open spec fn with_score(m: MatchInfo, score: i32) -> MatchInfo {
    MatchInfo { score, ..m }
}

/// Scores the tip of `match_info` against its result.
pub fn calculate_score(match_info: &mut MatchInfo)
    requires
        scorable(*old(match_info)),
    ensures
        *final(match_info) == with_score(*old(match_info), scored(*old(match_info))),
{
    if let (Some(score_home), Some(score_away), Some(tip_home), Some(tip_away)) = (
        match_info.score_home,
        match_info.score_away,
        match_info.tip_home,
        match_info.tip_away,
    ) {
        if (score_home > score_away && tip_home > tip_away) || (score_home < score_away
            && tip_home < tip_away) {
            match_info.score = ScoreConfig::WIN_TEAM;
        }
        if score_home - score_away == tip_home - tip_away {
            if score_home == score_away {
                match_info.score = ScoreConfig::WIN_TEAM;
            } else {
                match_info.score = ScoreConfig::WIN_SCORE_DIFF;
            }
        }
        if score_home == tip_home && score_away == tip_away {
            match_info.score = ScoreConfig::WIN_EXACT;
        }
    }
}

} // verus!

verus! {

/// The outcome of a result: 1 for a home win, 0 for a draw, -1 for an away
/// win.
pub open spec fn outcome(home: int, away: int) -> int {
    if home > away {
        1
    } else if home < away {
        -1
    } else {
        0
    }
}

/// An exact tip earns the points of an exact hit, whatever the match held
/// before.
pub proof fn law_exact_tip_earns_win_exact(home: int, away: int, previous: i32)
    ensures
        match_points(home, away, home, away, previous) == ScoreConfig::WIN_EXACT,
{
}

/// A tip scored from nothing earns 0, 2, 3 or 5 points.
pub proof fn law_points_are_game_values(score_home: int, score_away: int, tip_home: int, tip_away: int)
    ensures
        ({
            let p = match_points(score_home, score_away, tip_home, tip_away, ScoreConfig::NO_WIN_TEAM);
            p == ScoreConfig::NO_WIN_TEAM || p == ScoreConfig::WIN_TEAM || p
                == ScoreConfig::WIN_SCORE_DIFF || p == ScoreConfig::WIN_EXACT
        }),
{
}

/// Swapping home and away, in the result and in the tip alike, does not
/// change the points.
pub proof fn law_scoring_is_symmetric(
    score_home: int,
    score_away: int,
    tip_home: int,
    tip_away: int,
    previous: i32,
)
    ensures
        match_points(score_away, score_home, tip_away, tip_home, previous) == match_points(
            score_home,
            score_away,
            tip_home,
            tip_away,
            previous,
        ),
{
}

/// A tip scored from nothing earns points exactly when it predicts the
/// outcome (home win, draw or away win) right.
pub proof fn law_points_iff_right_outcome(score_home: int, score_away: int, tip_home: int, tip_away: int)
    ensures
        (match_points(score_home, score_away, tip_home, tip_away, ScoreConfig::NO_WIN_TEAM) > 0)
            == (outcome(score_home, score_away) == outcome(tip_home, tip_away)),
{
}

/// A tip with the right goal difference of a decided match that misses the
/// exact result earns the points of a goal difference; one with only the
/// right outcome earns the points of a winning side.
pub proof fn law_difference_beats_outcome(score_home: int, score_away: int, tip_home: int, tip_away: int)
    requires
        !(score_home == tip_home && score_away == tip_away),
        outcome(score_home, score_away) == outcome(tip_home, tip_away),
    ensures
        score_home - score_away == tip_home - tip_away && score_home != score_away
            ==> match_points(score_home, score_away, tip_home, tip_away, ScoreConfig::NO_WIN_TEAM)
            == ScoreConfig::WIN_SCORE_DIFF,
        score_home - score_away != tip_home - tip_away || score_home == score_away
            ==> match_points(score_home, score_away, tip_home, tip_away, ScoreConfig::NO_WIN_TEAM)
            == ScoreConfig::WIN_TEAM,
{
}

} // verus!

verus! {

/// What `calculate_score` makes of a match with a complete result
/// `score_home`:`score_away` and a complete tip `tip_home`:`tip_away`, in
/// plain terms: an exact tip earns 5; otherwise the right goal difference
/// of a decided match earns 3, a draw tipped on a draw earns 2, the right
/// winner earns 2; a tip with the wrong outcome (home win, draw, away win)
/// earns nothing, so the match keeps its old score.
pub proof fn law_scoring_rules(m: MatchInfo, score_home: i32, score_away: i32, tip_home: i32, tip_away: i32)
    requires
        m.score_home == Some(score_home),
        m.score_away == Some(score_away),
        m.tip_home == Some(tip_home),
        m.tip_away == Some(tip_away),
    ensures
        score_home == tip_home && score_away == tip_away ==> scored(m) == 5,
        !(score_home == tip_home && score_away == tip_away) && score_home - score_away == tip_home
            - tip_away && score_home != score_away ==> scored(m) == 3,
        !(score_home == tip_home && score_away == tip_away) && score_home == score_away && tip_home
            == tip_away ==> scored(m) == 2,
        score_home - score_away != tip_home - tip_away && ((score_home > score_away && tip_home
            > tip_away) || (score_home < score_away && tip_home < tip_away)) ==> scored(m) == 2,
        (score_home > score_away) != (tip_home > tip_away) || (score_home < score_away) != (tip_home
            < tip_away) ==> scored(m) == m.score,
        scored(m) == match_points(
            score_home as int,
            score_away as int,
            tip_home as int,
            tip_away as int,
            m.score,
        ),
{
}

/// Scoring a match that starts with no points gives points exactly when
/// the tip has the right outcome (home win, draw or away win).
pub proof fn law_scoring_pays_right_outcomes(m: MatchInfo, score_home: i32, score_away: i32, tip_home: i32, tip_away: i32)
    requires
        m.score == 0,
        m.score_home == Some(score_home),
        m.score_away == Some(score_away),
        m.tip_home == Some(tip_home),
        m.tip_away == Some(tip_away),
    ensures
        (scored(m) > 0) == ((score_home > score_away) == (tip_home > tip_away) && (score_home
            < score_away) == (tip_home < tip_away)),
        scored(m) == 0 || scored(m) == 2 || scored(m) == 3 || scored(m) == 5,
{
}

/// Swapping home and away, in the result and in the tip alike, does not
/// change what scoring a match gives.
pub proof fn law_scored_is_symmetric(m: MatchInfo)
    ensures
        scored(
            MatchInfo {
                score_home: m.score_away,
                score_away: m.score_home,
                tip_home: m.tip_away,
                tip_away: m.tip_home,
                ..m
            },
        ) == scored(m),
{
}

/// A match without a complete result or without a complete tip keeps its
/// score.
pub proof fn law_incomplete_matches_keep_their_score(m: MatchInfo)
    requires
        m.score_home is None || m.score_away is None || m.tip_home is None || m.tip_away is None,
    ensures
        scored(m) == m.score,
{
}

} // verus!
