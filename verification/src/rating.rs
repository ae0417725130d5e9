use std::collections::HashMap;

use vstd::prelude::*;

use crate::records::{Game, MatchInfo, Team, Tip, User, UserRating};
use crate::scoring::{calculate_score, difference_fits, match_points, scored, with_score, ScoreConfig};
use crate::text::{decimal, decimal_string, is_decimal_notation_of, law_decimal_reads_back, trim_text, trimmed};

verus! {

broadcast use vstd::std_specs::hash::group_hash_axioms;

/// The tip that counts for a user and a match: the last one in `tips` that
/// the user gave for the match.
pub open spec fn last_tip(tips: Seq<Tip>, user_id: i32, match_id: i32) -> Option<Tip>
    decreases tips.len(),
{
    if tips.len() == 0 {
        None
    } else if tips.last().user_id == user_id && tips.last().match_id == match_id {
        Some(tips.last())
    } else {
        last_tip(tips.drop_last(), user_id, match_id)
    }
}

/// The tournament bonus of a user who picked `winner` and `secret_winner`,
/// once `champion` has won (an empty `champion`: no champion yet). A hit
/// of the secret pick takes precedence over one of the open pick.
pub open spec fn bonus_points(winner: Seq<char>, secret_winner: Seq<char>, champion: Seq<char>) -> i32 {
    if champion.len() == 0 {
        ScoreConfig::NO_WIN_TEAM
    } else if secret_winner == champion {
        ScoreConfig::SECRET_WINNER_BONUS
    } else if winner == champion {
        ScoreConfig::WINNER_BONUS
    } else {
        ScoreConfig::NO_WIN_TEAM
    }
}

/// The points that a user earns on `game`: those of the user's counting tip,
/// none without a tip.
pub open spec fn game_points(user_id: i32, game: Game, tips: Seq<Tip>) -> i32 {
    match last_tip(tips, user_id, game.id) {
        Some(tip) => match_points(
            game.home_score as int,
            game.away_score as int,
            tip.score_home as int,
            tip.score_away as int,
            ScoreConfig::NO_WIN_TEAM,
        ),
        None => ScoreConfig::NO_WIN_TEAM,
    }
}

/// The points that a user earns on all of `games`.
pub open spec fn points_total(user_id: i32, games: Seq<Game>, tips: Seq<Tip>) -> int
    decreases games.len(),
{
    if games.len() == 0 {
        0
    } else {
        points_total(user_id, games.drop_last(), tips) + game_points(user_id, games.last(), tips)
    }
}

/// The number of `games` on which a user earns exactly `points`.
pub open spec fn hits(user_id: i32, games: Seq<Game>, tips: Seq<Tip>, points: i32) -> int
    decreases games.len(),
{
    if games.len() == 0 {
        0
    } else {
        hits(user_id, games.drop_last(), tips, points) + if game_points(
            user_id,
            games.last(),
            tips,
        ) == points {
            1int
        } else {
            0int
        }
    }
}

/// Scoring the counting tip of a user on `game` computes within `i32`.
pub open spec fn tip_scorable(user_id: i32, game: Game, tips: Seq<Tip>) -> bool {
    match last_tip(tips, user_id, game.id) {
        Some(tip) => difference_fits(game.home_score, game.away_score) && difference_fits(
            tip.score_home,
            tip.score_away,
        ),
        None => true,
    }
}

/// The point total of `user` (bonus and tips) fits in an `i32`.
pub open spec fn total_fits(user: User, games: Seq<Game>, tips: Seq<Tip>, champion: Seq<char>) -> bool {
    bonus_points(user.winner@, user.secret_winner@, champion) + points_total(user.id, games, tips)
        <= i32::MAX
}

/// What the rating computation needs of its inputs: one pair of teams per
/// game, point totals that fit in an `i32`, and goal differences of the
/// counting tips that fit in an `i32`.
pub open spec fn ratable(
    games: Seq<Game>,
    users: Seq<User>,
    tips: Seq<Tip>,
    teams: Seq<(Team, Team)>,
    champion: Seq<char>,
) -> bool {
    &&& teams.len() == games.len()
    &&& forall|u: int| 0 <= u < users.len() ==> total_fits(#[trigger] users[u], games, tips, champion)
    &&& forall|u: int, g: int|
        0 <= u < users.len() && 0 <= g < games.len() ==> tip_scorable(
            #[trigger] users[u].id,
            #[trigger] games[g],
            tips,
        )
}

/// `info` is the record of `user` on `game`, played by the two `teams`.
pub open spec fn match_info_of(info: MatchInfo, user: User, game: Game, teams: (Team, Team), tips: Seq<Tip>) -> bool {
    let tip = last_tip(tips, user.id, game.id);
    &&& info.match_id@ == decimal(game.id as int)
    &&& info.user == user.username
    &&& info.user_id == user.id
    &&& info.team1 == teams.0
    &&& info.team2 == teams.1
    &&& info.score_home == Some(game.home_score)
    &&& info.score_away == Some(game.away_score)
    &&& info.date == game.date
    &&& info.tip_home == match tip {
        Some(t) => Some(t.score_home),
        None => None,
    }
    &&& info.tip_away == match tip {
        Some(t) => Some(t.score_away),
        None => None,
    }
    &&& info.score == game_points(user.id, game, tips)
}

/// `rating` is the rating of `user` over `games` once `champion` is known:
/// not yet ranked, with the bonus, the point total, the number of exact and
/// of goal-difference hits, the points of the winning-side hits, and one
/// match record per game in the order of the games.
pub open spec fn rating_of(
    rating: UserRating,
    user: User,
    games: Seq<Game>,
    teams: Seq<(Team, Team)>,
    tips: Seq<Tip>,
    champion: Seq<char>,
) -> bool {
    &&& rating.name == user.username
    &&& rating.user_id == user.id
    &&& rating.department == user.department
    &&& rating.position == 0
    &&& rating.extra_point == bonus_points(user.winner@, user.secret_winner@, champion)
    &&& rating.score_sum == rating.extra_point + points_total(user.id, games, tips)
    &&& rating.sum_win_exact == hits(user.id, games, tips, ScoreConfig::WIN_EXACT)
    &&& rating.sum_score_diff == hits(user.id, games, tips, ScoreConfig::WIN_SCORE_DIFF)
    &&& rating.sum_team == ScoreConfig::WIN_TEAM * hits(user.id, games, tips, ScoreConfig::WIN_TEAM)
    &&& rating.tips@.len() == games.len()
    &&& forall|g: int|
        0 <= g < games.len() ==> match_info_of(
            #[trigger] rating.tips@[g],
            user,
            games[g],
            teams[g],
            tips,
        )
}

/// `ratings` holds the rating of each of `users`, in their order.
pub open spec fn ratings_of(
    ratings: Seq<UserRating>,
    games: Seq<Game>,
    users: Seq<User>,
    tips: Seq<Tip>,
    teams: Seq<(Team, Team)>,
    champion: Seq<char>,
) -> bool {
    &&& ratings.len() == users.len()
    &&& forall|u: int|
        0 <= u < users.len() ==> rating_of(
            #[trigger] ratings[u],
            users[u],
            games,
            teams,
            tips,
            champion,
        )
}

/// The tip of `index` for a user and a match, where the index holds one.
pub open spec fn indexed_tip(index: Map<i32, HashMap<i32, Tip>>, user_id: i32, match_id: i32) -> Option<Tip> {
    if index.contains_key(user_id) && index[user_id]@.contains_key(match_id) {
        Some(index[user_id]@[match_id])
    } else {
        None
    }
}

/// Groups the tips by user and then by match; a later tip for the same user
/// and match replaces an earlier one.
fn index_tips(tips: &Vec<Tip>) -> (index: HashMap<i32, HashMap<i32, Tip>>)
    ensures
        forall|user_id: i32, match_id: i32|
            #[trigger] indexed_tip(index@, user_id, match_id) == last_tip(tips@, user_id, match_id),
{
    let mut index: HashMap<i32, HashMap<i32, Tip>> = HashMap::new();
    let mut k: usize = 0;
    while k < tips.len()
        invariant
            k <= tips.len(),
            forall|user_id: i32, match_id: i32|
                #[trigger] indexed_tip(index@, user_id, match_id) == last_tip(
                    tips@.take(k as int),
                    user_id,
                    match_id,
                ),
        decreases tips.len() - k,
    {
        let tip = tips[k];
        let ghost before = index@;
        let mut per_match: HashMap<i32, Tip> = match index.remove(&tip.user_id) {
            Some(existing) => existing,
            None => HashMap::new(),
        };
        let ghost per_match_before = per_match@;
        per_match.insert(tip.match_id, tip);
        index.insert(tip.user_id, per_match);
        assert(tips@.take(k + 1).drop_last() =~= tips@.take(k as int));
        assert(tips@.take(k + 1).last() == tip);
        assert forall|user_id: i32, match_id: i32|
            #[trigger] indexed_tip(index@, user_id, match_id) == last_tip(
                tips@.take(k + 1),
                user_id,
                match_id,
            ) by {
            assert(indexed_tip(before, user_id, match_id) == last_tip(
                tips@.take(k as int),
                user_id,
                match_id,
            ));
            if user_id == tip.user_id {
                assert(index@[user_id]@ == per_match_before.insert(tip.match_id, tip));
                if match_id != tip.match_id {
                    assert(per_match_before.contains_key(match_id) <==> (before.contains_key(
                        user_id,
                    ) && before[user_id]@.contains_key(match_id)));
                }
            }
        }
        k = k + 1;
    }
    assert(tips@.take(k as int) =~= tips@);
    index
}

/// Rates one user over all games.
fn rate_user(
    user: &User,
    games: &Vec<Game>,
    teams: &Vec<(Team, Team)>,
    index: &HashMap<i32, HashMap<i32, Tip>>,
    no_tips: &HashMap<i32, Tip>,
    champion: &String,
    Ghost(tips): Ghost<Seq<Tip>>,
) -> (rating: UserRating)
    requires
        no_tips@ == Map::<i32, Tip>::empty(),
        forall|user_id: i32, match_id: i32|
            #[trigger] indexed_tip(index@, user_id, match_id) == last_tip(tips, user_id, match_id),
        teams@.len() == games@.len(),
        total_fits(*user, games@, tips, champion@),
        forall|g: int| 0 <= g < games@.len() ==> tip_scorable(user.id, #[trigger] games@[g], tips),
    ensures
        rating_of(rating, *user, games@, teams@, tips, champion@),
{
    let extra_point = extra_points(user, champion);
    let mut user_rating = UserRating {
        name: user.username.clone(),
        user_id: user.id,
        department: user.department.clone(),
        position: 0,
        score_sum: extra_point,
        sum_win_exact: 0,
        sum_score_diff: 0,
        sum_team: 0,
        extra_point,
        tips: Vec::new(),
    };
    let user_tips: &HashMap<i32, Tip> = match index.get(&user.id) {
        Some(per_match) => per_match,
        None => no_tips,
    };
    assert forall|match_id: i32|
        #[trigger] user_tips@.contains_key(match_id) == (indexed_tip(index@, user.id, match_id) is Some)
            && (user_tips@.contains_key(match_id) ==> indexed_tip(index@, user.id, match_id)
            == Some(user_tips@[match_id])) by {}
    let ghost gs = games@;
    assert(gs.take(0) =~= Seq::<Game>::empty());
    proof {
        lemma_points_total_prefix(user.id, gs, tips, 0);
    }
    let mut i: usize = 0;
    while i < games.len()
        invariant
            gs == games@,
            i <= gs.len(),
            teams@.len() == gs.len(),
            total_fits(*user, gs, tips, champion@),
            forall|g: int| 0 <= g < gs.len() ==> tip_scorable(user.id, #[trigger] gs[g], tips),
            forall|match_id: i32|
                #[trigger] user_tips@.contains_key(match_id) <==> last_tip(
                    tips,
                    user.id,
                    match_id,
                ) is Some,
            forall|match_id: i32|
                #[trigger] user_tips@.contains_key(match_id) ==> last_tip(
                    tips,
                    user.id,
                    match_id,
                ) == Some(user_tips@[match_id]),
            user_rating.name == user.username,
            user_rating.user_id == user.id,
            user_rating.department == user.department,
            user_rating.position == 0,
            user_rating.extra_point == bonus_points(user.winner@, user.secret_winner@, champion@),
            0 <= user_rating.extra_point <= ScoreConfig::WINNER_BONUS,
            points_total(user.id, gs.take(i as int), tips) <= points_total(user.id, gs, tips),
            user_rating.score_sum == user_rating.extra_point + points_total(
                user.id,
                gs.take(i as int),
                tips,
            ),
            user_rating.sum_win_exact == hits(
                user.id,
                gs.take(i as int),
                tips,
                ScoreConfig::WIN_EXACT,
            ),
            user_rating.sum_score_diff == hits(
                user.id,
                gs.take(i as int),
                tips,
                ScoreConfig::WIN_SCORE_DIFF,
            ),
            user_rating.sum_team == ScoreConfig::WIN_TEAM * hits(
                user.id,
                gs.take(i as int),
                tips,
                ScoreConfig::WIN_TEAM,
            ),
            user_rating.tips@.len() == i,
            forall|g: int|
                0 <= g < i ==> match_info_of(
                    #[trigger] user_rating.tips@[g],
                    *user,
                    gs[g],
                    teams@[g],
                    tips,
                ),
        decreases gs.len() - i,
    {
        let game = &games[i];
        let teams_of_game = &teams[i];
        let mut match_info = MatchInfo {
            match_id: decimal_string(game.id),
            user: user.username.clone(),
            user_id: user.id,
            score: 0,
            team1: teams_of_game.0.clone(),
            team2: teams_of_game.1.clone(),
            tip_home: None,
            tip_away: None,
            score_home: Some(game.home_score),
            score_away: Some(game.away_score),
            date: game.date,
        };
        assert(gs.take(i + 1).drop_last() =~= gs.take(i as int));
        assert(gs.take(i + 1).last() == gs[i as int]);
        assert(tip_scorable(user.id, gs[i as int], tips));
        proof {
            lemma_points_total_prefix(user.id, gs, tips, i + 1);
            lemma_totals_from_hits(user.id, gs.take(i + 1), tips);
            lemma_totals_from_hits(user.id, gs.take(i as int), tips);
        }
        match user_tips.get(&game.id) {
            Some(tip) => {
                match_info.tip_home = Some(tip.score_home);
                match_info.tip_away = Some(tip.score_away);
                calculate_score(&mut match_info);
                user_rating.score_sum = user_rating.score_sum + match_info.score;
                if match_info.score == ScoreConfig::WIN_EXACT {
                    user_rating.sum_win_exact = user_rating.sum_win_exact + 1;
                } else if match_info.score == ScoreConfig::WIN_SCORE_DIFF {
                    user_rating.sum_score_diff = user_rating.sum_score_diff + 1;
                } else if match_info.score == ScoreConfig::WIN_TEAM {
                    user_rating.sum_team = user_rating.sum_team + ScoreConfig::WIN_TEAM;
                }
            },
            None => {},
        }
        user_rating.tips.push(match_info);
        i = i + 1;
    }
    assert(gs.take(i as int) =~= gs);
    user_rating
}

/// Rates every user over all games, with `tournament_winner` as the
/// champion (empty: none yet), and the tips of `tips` (a later tip of a
/// user for a match replaces an earlier one). `teams` holds the two teams of
/// each game. The ratings are not yet ranked.
pub fn rate_users(
    games: &Vec<Game>,
    users: &Vec<User>,
    tips: &Vec<Tip>,
    teams: &Vec<(Team, Team)>,
    tournament_winner: &str,
) -> (ratings: Vec<UserRating>)
    requires
        ratable(games@, users@, tips@, teams@, tournament_winner@),
    ensures
        ratings_of(ratings@, games@, users@, tips@, teams@, tournament_winner@),
{
    let champion: String = tournament_winner.to_owned();
    let index = index_tips(tips);
    let no_tips: HashMap<i32, Tip> = HashMap::new();
    let mut ratings: Vec<UserRating> = Vec::new();
    let mut u: usize = 0;
    while u < users.len()
        invariant
            u <= users@.len(),
            champion@ == tournament_winner@,
            no_tips@ == Map::<i32, Tip>::empty(),
            ratable(games@, users@, tips@, teams@, tournament_winner@),
            forall|user_id: i32, match_id: i32|
                #[trigger] indexed_tip(index@, user_id, match_id) == last_tip(
                    tips@,
                    user_id,
                    match_id,
                ),
            ratings@.len() == u,
            forall|k: int|
                0 <= k < u ==> rating_of(
                    #[trigger] ratings@[k],
                    users@[k],
                    games@,
                    teams@,
                    tips@,
                    tournament_winner@,
                ),
        decreases users@.len() - u,
    {
        let user = &users[u];
        assert forall|g: int| 0 <= g < games@.len() implies tip_scorable(
            user.id,
            #[trigger] games@[g],
            tips@,
        ) by {
            assert(tip_scorable(users@[u as int].id, games@[g], tips@));
        }
        assert(total_fits(users@[u as int], games@, tips@, tournament_winner@));
        let rating = rate_user(user, games, teams, &index, &no_tips, &champion, Ghost(tips@));
        ratings.push(rating);
        u = u + 1;
    }
    ratings
}

/// `a - b` fits in an `i32`, checked without overflow.
fn fits_difference(a: i32, b: i32) -> (ok: bool)
    ensures
        ok == difference_fits(a, b),
{
    let d: i64 = a as i64 - b as i64;
    i32::MIN as i64 <= d && d <= i32::MAX as i64
}

/// The tournament bonus of `user` with `champion` as the champion.
fn extra_points(user: &User, champion: &String) -> (points: i32)
    ensures
        points == bonus_points(user.winner@, user.secret_winner@, champion@),
{
    let mut extra_point = ScoreConfig::NO_WIN_TEAM;
    if !champion.as_str().is_empty() {
        if user.winner == *champion {
            extra_point = ScoreConfig::WINNER_BONUS;
        }
        if user.secret_winner == *champion {
            extra_point = ScoreConfig::SECRET_WINNER_BONUS;
        }
    }
    extra_point
}

/// The points that `tip` earns on `game`.
fn tip_points(game: &Game, tip: &Tip) -> (points: i32)
    requires
        difference_fits(game.home_score, game.away_score),
        difference_fits(tip.score_home, tip.score_away),
    ensures
        points == match_points(
            game.home_score as int,
            game.away_score as int,
            tip.score_home as int,
            tip.score_away as int,
            ScoreConfig::NO_WIN_TEAM,
        ),
{
    let (score_home, score_away) = (game.home_score, game.away_score);
    let (tip_home, tip_away) = (tip.score_home, tip.score_away);
    let mut points = ScoreConfig::NO_WIN_TEAM;
    if (score_home > score_away && tip_home > tip_away) || (score_home < score_away && tip_home
        < tip_away) {
        points = ScoreConfig::WIN_TEAM;
    }
    if score_home - score_away == tip_home - tip_away {
        if score_home == score_away {
            points = ScoreConfig::WIN_TEAM;
        } else {
            points = ScoreConfig::WIN_SCORE_DIFF;
        }
    }
    if score_home == tip_home && score_away == tip_away {
        points = ScoreConfig::WIN_EXACT;
    }
    points
}

/// Tells whether the rating computation can be run on these inputs with
/// `tournament_winner` as the champion, that is, whether they meet the
/// precondition of `get_user_rating`.
pub fn can_rate(
    games: &Vec<Game>,
    users: &Vec<User>,
    tips: &Vec<Tip>,
    teams: &Vec<(Team, Team)>,
    tournament_winner: &str,
) -> (ok: bool)
    ensures
        ok == ratable(games@, users@, tips@, teams@, trimmed(tournament_winner@)),
{
    if teams.len() != games.len() {
        return false;
    }
    let champion: String = trim_text(tournament_winner).to_owned();
    let ghost champ = trimmed(tournament_winner@);
    let index = index_tips(tips);
    let ghost gs = games@;
    let mut u: usize = 0;
    while u < users.len()
        invariant
            u <= users@.len(),
            gs == games@,
            champion@ == champ,
            champ == trimmed(tournament_winner@),
            teams@.len() == games@.len(),
            forall|user_id: i32, match_id: i32|
                #[trigger] indexed_tip(index@, user_id, match_id) == last_tip(
                    tips@,
                    user_id,
                    match_id,
                ),
            forall|k: int| 0 <= k < u ==> total_fits(#[trigger] users@[k], gs, tips@, champ),
            forall|k: int, g: int|
                0 <= k < u && 0 <= g < games@.len() ==> tip_scorable(
                    #[trigger] users@[k].id,
                    #[trigger] games@[g],
                    tips@,
                ),
        decreases users@.len() - u,
    {
        let user = &users[u];
        let user_id = user.id;
        let bonus = extra_points(user, &champion);
        let mut total: i64 = bonus as i64;
        assert(gs.take(0) =~= Seq::<Game>::empty());
        let mut g: usize = 0;
        while g < games.len()
            invariant
                u < users@.len(),
                gs == games@,
                champ == trimmed(tournament_winner@),
                user_id == users@[u as int].id,
                bonus == bonus_points(users@[u as int].winner@, users@[u as int].secret_winner@, champ),
                g <= games@.len(),
                forall|user_id: i32, match_id: i32|
                    #[trigger] indexed_tip(index@, user_id, match_id) == last_tip(
                        tips@,
                        user_id,
                        match_id,
                    ),
                total == bonus + points_total(user_id, gs.take(g as int), tips@),
                total <= i32::MAX,
                forall|h: int| 0 <= h < g ==> tip_scorable(user_id, #[trigger] games@[h], tips@),
            decreases games@.len() - g,
        {
            let game = &games[g];
            assert(indexed_tip(index@, user_id, game.id) == last_tip(tips@, user_id, game.id));
            let found = match index.get(&user_id) {
                Some(per_match) => match per_match.get(&game.id) {
                    Some(tip) => Some(*tip),
                    None => None,
                },
                None => None,
            };
            assert(found == last_tip(tips@, user_id, game.id));
            assert(gs.take(g + 1).drop_last() =~= gs.take(g as int));
            assert(gs.take(g + 1).last() == gs[g as int]);
            if let Some(tip) = found {
                if !fits_difference(game.home_score, game.away_score) || !fits_difference(
                    tip.score_home,
                    tip.score_away,
                ) {
                    assert(!tip_scorable(users@[u as int].id, games@[g as int], tips@));
                    return false;
                }
                let points = tip_points(game, &tip);
                assert(game_points(user_id, gs[g as int], tips@) == points);
                assert(points_total(user_id, gs.take(g + 1), tips@) == points_total(
                    user_id,
                    gs.take(g as int),
                    tips@,
                ) + points);
                total = total + points as i64;
                if total > i32::MAX as i64 {
                    proof {
                        lemma_points_total_prefix(user_id, gs, tips@, g + 1);
                    }
                    assert(!total_fits(users@[u as int], gs, tips@, champ));
                    return false;
                }
            }
            g = g + 1;
        }
        assert(gs.take(g as int) =~= gs);
        u = u + 1;
    }
    true
}

/// Computes the unranked ratings of all users: the champion is
/// `tournament_winner` with surrounding white space removed (empty: none
/// yet, so nobody earns the bonus); everything else is as `rate_users`
/// says.
pub fn get_user_rating(
    games: Vec<Game>,
    users: Vec<User>,
    tips: Vec<Tip>,
    teams: Vec<(Team, Team)>,
    tournament_winner: &str,
) -> (ratings: Vec<UserRating>)
    requires
        ratable(games@, users@, tips@, teams@, trimmed(tournament_winner@)),
    ensures
        ratings_of(ratings@, games@, users@, tips@, teams@, trimmed(tournament_winner@)),
        trimmed(tournament_winner@).len() == 0 ==> forall|u: int|
            0 <= u < ratings@.len() ==> (#[trigger] ratings@[u]).extra_point
                == ScoreConfig::NO_WIN_TEAM,
{
    let champion = trim_text(tournament_winner);
    let ratings = rate_users(&games, &users, &tips, &teams, champion);
    proof {
        if champion@.len() == 0 {
            law_no_champion_no_bonus(ratings@, games@, users@, tips@, teams@, champion@);
        }
    }
    ratings
}

} // verus!

verus! {

proof fn lemma_totals_from_hits(user_id: i32, games: Seq<Game>, tips: Seq<Tip>)
    ensures
        points_total(user_id, games, tips) == ScoreConfig::WIN_EXACT * hits(
            user_id,
            games,
            tips,
            ScoreConfig::WIN_EXACT,
        ) + ScoreConfig::WIN_SCORE_DIFF * hits(user_id, games, tips, ScoreConfig::WIN_SCORE_DIFF)
            + ScoreConfig::WIN_TEAM * hits(user_id, games, tips, ScoreConfig::WIN_TEAM),
        0 <= hits(user_id, games, tips, ScoreConfig::WIN_EXACT),
        0 <= hits(user_id, games, tips, ScoreConfig::WIN_SCORE_DIFF),
        0 <= hits(user_id, games, tips, ScoreConfig::WIN_TEAM),
        hits(user_id, games, tips, ScoreConfig::WIN_EXACT) + hits(
            user_id,
            games,
            tips,
            ScoreConfig::WIN_SCORE_DIFF,
        ) + hits(user_id, games, tips, ScoreConfig::WIN_TEAM) <= games.len(),
    decreases games.len(),
{
    if games.len() > 0 {
        lemma_totals_from_hits(user_id, games.drop_last(), tips);
        let game = games.last();
        match last_tip(tips, user_id, game.id) {
            Some(tip) => crate::scoring::law_points_are_game_values(
                game.home_score as int,
                game.away_score as int,
                tip.score_home as int,
                tip.score_away as int,
            ),
            None => {},
        }
    }
}

/// A rating's point total is its bonus, plus 5 and 3 points per exact and
/// goal-difference hit, plus the points of its winning-side hits (2 each);
/// the hits are at most one per game,
/// the bonus is 0, 6 or 12, and the total is never negative.
pub proof fn law_total_is_bonus_plus_hits(
    rating: UserRating,
    user: User,
    games: Seq<Game>,
    teams: Seq<(Team, Team)>,
    tips: Seq<Tip>,
    champion: Seq<char>,
)
    requires
        rating_of(rating, user, games, teams, tips, champion),
    ensures
        rating.score_sum == rating.extra_point + ScoreConfig::WIN_EXACT * rating.sum_win_exact
            + ScoreConfig::WIN_SCORE_DIFF * rating.sum_score_diff + rating.sum_team,
        rating.sum_team % ScoreConfig::WIN_TEAM == 0,
        rating.sum_win_exact + rating.sum_score_diff + rating.sum_team / ScoreConfig::WIN_TEAM
            <= rating.tips@.len(),
        rating.extra_point == ScoreConfig::NO_WIN_TEAM || rating.extra_point
            == ScoreConfig::SECRET_WINNER_BONUS || rating.extra_point == ScoreConfig::WINNER_BONUS,
        rating.score_sum >= 0,
{
    lemma_totals_from_hits(user.id, games, tips);
}

/// Without a champion nobody earns a bonus: each total is the points of the
/// tips alone.
pub proof fn law_no_champion_no_bonus(
    ratings: Seq<UserRating>,
    games: Seq<Game>,
    users: Seq<User>,
    tips: Seq<Tip>,
    teams: Seq<(Team, Team)>,
    champion: Seq<char>,
)
    requires
        ratings_of(ratings, games, users, tips, teams, champion),
        champion.len() == 0,
    ensures
        forall|u: int|
            0 <= u < ratings.len() ==> (#[trigger] ratings[u]).extra_point == ScoreConfig::NO_WIN_TEAM
                && ratings[u].score_sum == points_total(users[u].id, games, tips),
{
    assert forall|u: int| 0 <= u < ratings.len() implies (#[trigger] ratings[u]).extra_point
        == ScoreConfig::NO_WIN_TEAM && ratings[u].score_sum == points_total(
        users[u].id,
        games,
        tips,
    ) by {
        assert(rating_of(ratings[u], users[u], games, teams, tips, champion));
    }
}

/// Ranking the ratings gives every user the position one more than the
/// number of users with more points: equal totals share a position, and
/// the next position skips as many places as users share the one before.
pub proof fn law_ranked_ratings_count_better_users(
    ratings: Seq<UserRating>,
    games: Seq<Game>,
    users: Seq<User>,
    tips: Seq<Tip>,
    teams: Seq<(Team, Team)>,
    champion: Seq<char>,
    ranked: Seq<UserRating>,
    clear_tips: bool,
    i: int,
)
    requires
        ratings_of(ratings, games, users, tips, teams, champion),
        ratings.len() <= i32::MAX,
        crate::ranking::leaderboard(ratings, ranked, clear_tips),
        0 <= i < ranked.len(),
    ensures
        ranked[i].position == 1 + crate::ranking::count_above(ranked, ranked[i].score_sum),
{
    assert forall|k: int| 0 <= k < ratings.len() implies (#[trigger] ratings[k]).score_sum >= 0 by {
        law_total_is_bonus_plus_hits(ratings[k], users[k], games, teams, tips, champion);
    }
    crate::ranking::law_position_counts_better_entries(ratings, ranked, clear_tips, i);
}

/// The tips that `user_id` gave.
pub open spec fn own_tips(tips: Seq<Tip>, user_id: i32) -> Seq<Tip> {
    tips.filter(|t: Tip| t.user_id == user_id)
}

proof fn lemma_counting_tip_is_own(tips: Seq<Tip>, user_id: i32, match_id: i32)
    ensures
        last_tip(own_tips(tips, user_id), user_id, match_id) == last_tip(tips, user_id, match_id),
    decreases tips.len(),
{
    reveal(Seq::filter);
    if tips.len() > 0 {
        lemma_counting_tip_is_own(tips.drop_last(), user_id, match_id);
        let sub = own_tips(tips.drop_last(), user_id);
        if tips.last().user_id == user_id {
            assert(own_tips(tips, user_id) == sub.push(tips.last()));
            assert(sub.push(tips.last()).drop_last() =~= sub);
        } else {
            assert(own_tips(tips, user_id) == sub);
        }
    }
}

proof fn lemma_same_counting_tips(user_id: i32, games: Seq<Game>, tips1: Seq<Tip>, tips2: Seq<Tip>)
    requires
        forall|match_id: i32|
            #[trigger] last_tip(tips1, user_id, match_id) == last_tip(tips2, user_id, match_id),
    ensures
        points_total(user_id, games, tips1) == points_total(user_id, games, tips2),
        forall|points: i32|
            #[trigger] hits(user_id, games, tips1, points) == hits(user_id, games, tips2, points),
    decreases games.len(),
{
    if games.len() > 0 {
        lemma_same_counting_tips(user_id, games.drop_last(), tips1, tips2);
        assert(last_tip(tips1, user_id, games.last().id) == last_tip(tips2, user_id, games.last().id));
        assert forall|points: i32| #[trigger] hits(user_id, games, tips1, points) == hits(
            user_id,
            games,
            tips2,
            points,
        ) by {
            assert(hits(user_id, games.drop_last(), tips1, points) == hits(
                user_id,
                games.drop_last(),
                tips2,
                points,
            ));
        }
    }
}

/// A user's rating depends on the user's own tips alone: with the same own
/// tips, whatever the others tipped, every field of the rating is the same
/// (the match numbers as text, the rest as values).
pub proof fn law_rating_uses_own_tips_only(
    ratings1: Seq<UserRating>,
    ratings2: Seq<UserRating>,
    games: Seq<Game>,
    users: Seq<User>,
    tips1: Seq<Tip>,
    tips2: Seq<Tip>,
    teams: Seq<(Team, Team)>,
    champion: Seq<char>,
    i: int,
)
    requires
        ratings_of(ratings1, games, users, tips1, teams, champion),
        ratings_of(ratings2, games, users, tips2, teams, champion),
        0 <= i < users.len(),
        own_tips(tips1, users[i].id) == own_tips(tips2, users[i].id),
    ensures
        ratings1[i] == (UserRating { tips: ratings1[i].tips, ..ratings2[i] }),
        ratings1[i].tips@.len() == ratings2[i].tips@.len(),
        forall|g: int|
            0 <= g < ratings1[i].tips@.len() ==> #[trigger] ratings1[i].tips@[g] == (MatchInfo {
                match_id: ratings1[i].tips@[g].match_id,
                ..ratings2[i].tips@[g]
            }) && ratings1[i].tips@[g].match_id@ == ratings2[i].tips@[g].match_id@,
{
    let user = users[i];
    let r1 = ratings1[i];
    let r2 = ratings2[i];
    assert(rating_of(r1, user, games, teams, tips1, champion));
    assert(rating_of(r2, user, games, teams, tips2, champion));
    assert forall|match_id: i32| #[trigger] last_tip(tips1, user.id, match_id) == last_tip(
        tips2,
        user.id,
        match_id,
    ) by {
        lemma_counting_tip_is_own(tips1, user.id, match_id);
        lemma_counting_tip_is_own(tips2, user.id, match_id);
    }
    lemma_same_counting_tips(user.id, games, tips1, tips2);
    assert(hits(user.id, games, tips1, ScoreConfig::WIN_EXACT) == hits(user.id, games, tips2, ScoreConfig::WIN_EXACT));
    assert(hits(user.id, games, tips1, ScoreConfig::WIN_SCORE_DIFF) == hits(user.id, games, tips2, ScoreConfig::WIN_SCORE_DIFF));
    assert(hits(user.id, games, tips1, ScoreConfig::WIN_TEAM) == hits(user.id, games, tips2, ScoreConfig::WIN_TEAM));
    assert forall|g: int| 0 <= g < r1.tips@.len() implies #[trigger] r1.tips@[g] == (MatchInfo {
        match_id: r1.tips@[g].match_id,
        ..r2.tips@[g]
    }) && r1.tips@[g].match_id@ == r2.tips@[g].match_id@ by {
        assert(match_info_of(r1.tips@[g], user, games[g], teams[g], tips1));
        assert(match_info_of(r2.tips@[g], user, games[g], teams[g], tips2));
        assert(last_tip(tips1, user.id, games[g].id) == last_tip(tips2, user.id, games[g].id));
    }
}

proof fn lemma_points_total_prefix(user_id: i32, games: Seq<Game>, tips: Seq<Tip>, i: int)
    requires
        0 <= i <= games.len(),
    ensures
        points_total(user_id, games.take(i), tips) <= points_total(user_id, games, tips),
    decreases games.len(),
{
    if i == games.len() {
        assert(games.take(i) =~= games);
    } else {
        let rest = games.drop_last();
        lemma_points_total_prefix(user_id, rest, tips, i);
        assert(rest.take(i) =~= games.take(i));
        let game = games.last();
        match last_tip(tips, user_id, game.id) {
            Some(tip) => crate::scoring::law_points_are_game_values(
                game.home_score as int,
                game.away_score as int,
                tip.score_home as int,
                tip.score_away as int,
            ),
            None => {},
        }
    }
}

/// The sum of the scores of `records`.
pub open spec fn points_of_records(records: Seq<MatchInfo>) -> int
    decreases records.len(),
{
    if records.len() == 0 {
        0
    } else {
        points_of_records(records.drop_last()) + records.last().score
    }
}

/// The number of `records` whose score is `points`.
pub open spec fn records_scoring(records: Seq<MatchInfo>, points: i32) -> int
    decreases records.len(),
{
    if records.len() == 0 {
        0
    } else {
        records_scoring(records.drop_last(), points) + if records.last().score == points {
            1int
        } else {
            0int
        }
    }
}

/// The tip that counts for a user and a match is the latest one of theirs:
/// there is none exactly when the user gave no tip for the match, and
/// otherwise it is a tip of the user for the match with no such tip after
/// it.
pub proof fn law_counting_tip_is_the_latest(tips: Seq<Tip>, user_id: i32, match_id: i32)
    ensures
        last_tip(tips, user_id, match_id) is None <==> forall|k: int|
            0 <= k < tips.len() ==> !((#[trigger] tips[k]).user_id == user_id && tips[k].match_id
                == match_id),
        last_tip(tips, user_id, match_id) is Some ==> exists|k: int|
            0 <= k < tips.len() && tips[k] == last_tip(tips, user_id, match_id).unwrap()
                && tips[k].user_id == user_id && tips[k].match_id == match_id && forall|j: int|
                k < j < tips.len() ==> !((#[trigger] tips[j]).user_id == user_id && tips[j].match_id
                    == match_id),
    decreases tips.len(),
{
    if tips.len() > 0 {
        let rest = tips.drop_last();
        law_counting_tip_is_the_latest(rest, user_id, match_id);
        let n = tips.len() - 1;
        if tips.last().user_id == user_id && tips.last().match_id == match_id {
            assert(tips[n] == last_tip(tips, user_id, match_id).unwrap());
        } else {
            if last_tip(rest, user_id, match_id) is Some {
                let k = choose|k: int|
                    0 <= k < rest.len() && rest[k] == last_tip(rest, user_id, match_id).unwrap()
                        && rest[k].user_id == user_id && rest[k].match_id == match_id && forall|
                        j: int,
                    |
                        k < j < rest.len() ==> !((#[trigger] rest[j]).user_id == user_id
                            && rest[j].match_id == match_id);
                assert(tips[k] == rest[k]);
                assert forall|j: int| k < j < tips.len() implies !((#[trigger] tips[j]).user_id
                    == user_id && tips[j].match_id == match_id) by {
                    if j < n {
                        assert(tips[j] == rest[j]);
                    }
                }
            } else {
                assert forall|k: int| 0 <= k < tips.len() implies !((#[trigger] tips[k]).user_id
                    == user_id && tips[k].match_id == match_id) by {
                    if k < n {
                        assert(tips[k] == rest[k]);
                    }
                }
            }
        }
    }
}

/// The tournament bonus goes by the picks alone: without a champion nobody
/// earns one; a user whose secret pick is the champion earns the secret
/// bonus; one whose open pick alone is the champion earns the winner bonus;
/// one whose two picks both differ from the champion earns nothing.
pub proof fn law_bonus_needs_a_matching_pick(
    rating: UserRating,
    user: User,
    games: Seq<Game>,
    teams: Seq<(Team, Team)>,
    tips: Seq<Tip>,
    champion: Seq<char>,
)
    requires
        rating_of(rating, user, games, teams, tips, champion),
    ensures
        champion.len() == 0 ==> rating.extra_point == 0,
        champion.len() > 0 && user.secret_winner@ == champion ==> rating.extra_point
            == ScoreConfig::SECRET_WINNER_BONUS,
        champion.len() > 0 && user.winner@ == champion && user.secret_winner@ != champion
            ==> rating.extra_point == ScoreConfig::WINNER_BONUS,
        user.winner@ != champion && user.secret_winner@ != champion ==> rating.extra_point == 0,
        rating.extra_point == ScoreConfig::WINNER_BONUS ==> user.winner@ == champion,
        rating.extra_point > 0 ==> champion.len() > 0 && (user.winner@ == champion
            || user.secret_winner@ == champion),
{
}

/// Each match record of a rating carries the points that scoring its tip
/// from nothing gives (so an exact tip, a draw or not, earns the points of
/// an exact hit), and no points without a tip.
pub proof fn law_match_records_score_their_tips(
    rating: UserRating,
    user: User,
    games: Seq<Game>,
    teams: Seq<(Team, Team)>,
    tips: Seq<Tip>,
    champion: Seq<char>,
    g: int,
)
    requires
        rating_of(rating, user, games, teams, tips, champion),
        0 <= g < games.len(),
    ensures
        rating.tips@[g].tip_home is Some ==> rating.tips@[g].score == scored(
            with_score(rating.tips@[g], ScoreConfig::NO_WIN_TEAM),
        ),
        rating.tips@[g].tip_home is None ==> rating.tips@[g].score == ScoreConfig::NO_WIN_TEAM
            && rating.tips@[g].tip_away is None,
        (rating.tips@[g].tip_home is Some) == (last_tip(tips, user.id, games[g].id) is Some),
        rating.tips@[g].score_home == Some(games[g].home_score),
        rating.tips@[g].score_away == Some(games[g].away_score),
{
    assert(match_info_of(rating.tips@[g], user, games[g], teams[g], tips));
}

proof fn lemma_records_add_up(
    rating: UserRating,
    user: User,
    games: Seq<Game>,
    teams: Seq<(Team, Team)>,
    tips: Seq<Tip>,
    champion: Seq<char>,
    i: int,
)
    requires
        rating_of(rating, user, games, teams, tips, champion),
        0 <= i <= games.len(),
    ensures
        points_of_records(rating.tips@.take(i)) == points_total(user.id, games.take(i), tips),
        forall|points: i32|
            #[trigger] records_scoring(rating.tips@.take(i), points) == hits(
                user.id,
                games.take(i),
                tips,
                points,
            ),
    decreases i,
{
    if i > 0 {
        lemma_records_add_up(rating, user, games, teams, tips, champion, i - 1);
        assert(rating.tips@.take(i).drop_last() =~= rating.tips@.take(i - 1));
        assert(games.take(i).drop_last() =~= games.take(i - 1));
        assert(match_info_of(rating.tips@[i - 1], user, games[i - 1], teams[i - 1], tips));
        assert(rating.tips@.take(i).last() == rating.tips@[i - 1]);
        assert(games.take(i).last() == games[i - 1]);
        assert forall|points: i32| #[trigger] records_scoring(rating.tips@.take(i), points) == hits(
            user.id,
            games.take(i),
            tips,
            points,
        ) by {
            assert(records_scoring(rating.tips@.take(i - 1), points) == hits(
                user.id,
                games.take(i - 1),
                tips,
                points,
            ));
        }
    } else {
        assert(rating.tips@.take(0) =~= Seq::<MatchInfo>::empty());
        assert(games.take(0) =~= Seq::<Game>::empty());
    }
}

/// A rating's totals add up its match records: the point total is the
/// bonus plus the scores of the records; the exact and goal-difference
/// counters count the records with 5 and 3 points; the winning-side points
/// are 2 per record with 2 points.
pub proof fn law_totals_add_up_the_records(
    rating: UserRating,
    user: User,
    games: Seq<Game>,
    teams: Seq<(Team, Team)>,
    tips: Seq<Tip>,
    champion: Seq<char>,
)
    requires
        rating_of(rating, user, games, teams, tips, champion),
    ensures
        rating.score_sum == rating.extra_point + points_of_records(rating.tips@),
        rating.sum_win_exact == records_scoring(rating.tips@, ScoreConfig::WIN_EXACT),
        rating.sum_score_diff == records_scoring(rating.tips@, ScoreConfig::WIN_SCORE_DIFF),
        rating.sum_team == ScoreConfig::WIN_TEAM * records_scoring(
            rating.tips@,
            ScoreConfig::WIN_TEAM,
        ),
{
    lemma_records_add_up(rating, user, games, teams, tips, champion, games.len() as int);
    assert(rating.tips@.take(games.len() as int) =~= rating.tips@);
    assert(games.take(games.len() as int) =~= games);
}

/// Every match record of a rating belongs to the rating's user, and its
/// match number reads back as the game's id.
pub proof fn law_records_identify_user_and_game(
    rating: UserRating,
    user: User,
    games: Seq<Game>,
    teams: Seq<(Team, Team)>,
    tips: Seq<Tip>,
    champion: Seq<char>,
    g: int,
)
    requires
        rating_of(rating, user, games, teams, tips, champion),
        0 <= g < games.len(),
    ensures
        rating.tips@[g].user == rating.name,
        rating.tips@[g].user_id == rating.user_id,
        games[g].id >= 0 ==> is_decimal_notation_of(rating.tips@[g].match_id@, games[g].id as int),
        games[g].id < 0 ==> rating.tips@[g].match_id@[0] == '-' && is_decimal_notation_of(
            rating.tips@[g].match_id@.drop_first(),
            -games[g].id,
        ),
{
    assert(match_info_of(rating.tips@[g], user, games[g], teams[g], tips));
    law_decimal_reads_back(games[g].id as int);
}

/// Inputs of ordinary size can always be rated: one pair of teams per game,
/// at most 400 million games, and every score of the games and the tips
/// within 2^29 of zero.
pub proof fn law_ordinary_inputs_are_ratable(
    games: Seq<Game>,
    users: Seq<User>,
    tips: Seq<Tip>,
    teams: Seq<(Team, Team)>,
    champion: Seq<char>,
)
    requires
        teams.len() == games.len(),
        games.len() <= 400_000_000,
        forall|g: int|
            0 <= g < games.len() ==> -0x2000_0000 <= (#[trigger] games[g]).home_score <= 0x2000_0000
                && -0x2000_0000 <= games[g].away_score <= 0x2000_0000,
        forall|k: int|
            0 <= k < tips.len() ==> -0x2000_0000 <= (#[trigger] tips[k]).score_home <= 0x2000_0000
                && -0x2000_0000 <= tips[k].score_away <= 0x2000_0000,
    ensures
        ratable(games, users, tips, teams, champion),
{
    assert forall|u: int| 0 <= u < users.len() implies total_fits(
        #[trigger] users[u],
        games,
        tips,
        champion,
    ) by {
        lemma_totals_from_hits(users[u].id, games, tips);
    }
    assert forall|u: int, g: int| 0 <= u < users.len() && 0 <= g < games.len() implies tip_scorable(
        #[trigger] users[u].id,
        #[trigger] games[g],
        tips,
    ) by {
        law_counting_tip_is_the_latest(tips, users[u].id, games[g].id);
        if last_tip(tips, users[u].id, games[g].id) is Some {
            let t = last_tip(tips, users[u].id, games[g].id).unwrap();
            let k = choose|k: int|
                0 <= k < tips.len() && tips[k] == t && tips[k].user_id == users[u].id
                    && tips[k].match_id == games[g].id && forall|j: int|
                    k < j < tips.len() ==> !((#[trigger] tips[j]).user_id == users[u].id
                        && tips[j].match_id == games[g].id);
            assert(tips[k] == t);
        }
    }
}

} // verus!
