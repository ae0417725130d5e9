use betting_api::{
    calculate_positions, can_rate, get_user_rating, rate_users, Game, ScoreConfig, Team, Tip,
    User,
};

fn team(name: &str, tla: &str) -> Team {
    Team {
        name: name.to_string(),
        tla: tla.to_string(),
    }
}

fn no_team() -> Team {
    team("", "")
}

fn game(id: i32, home_score: i32, away_score: i32, date: i64) -> Game {
    Game {
        id,
        home_team: String::from("{}"),
        away_team: String::from("{}"),
        home_score,
        away_score,
        date,
    }
}

fn user(id: i32, name: &str, winner: &str, secret_winner: &str) -> User {
    User {
        id,
        username: name.to_string(),
        department: "test".to_string(),
        winner: winner.to_string(),
        secret_winner: secret_winner.to_string(),
    }
}

fn tip(id: i32, user_id: i32, match_id: i32, score_home: i32, score_away: i32) -> Tip {
    Tip {
        id,
        user_id,
        match_id,
        score_home,
        score_away,
    }
}

#[test]
fn test_get_user_rating_with_default_teams() {
    let games = vec![game(1, 1, 0, 1718048296), game(2, 2, 2, 1718048297)];
    let teams = vec![(no_team(), no_team()), (no_team(), team("France", "FRA"))];
    let users = vec![user(999, "TestUser", "", "")];
    let result = get_user_rating(games, users, Vec::new(), teams, "");

    assert_eq!(result.len(), 1);
    let tips = &result[0].tips;
    assert_eq!(tips.len(), 2);
    assert_eq!(tips[0].team1.name, "");
    assert_eq!(tips[0].team1.tla, "");
    assert_eq!(tips[0].team2.name, "");
    assert_eq!(tips[0].team2.tla, "");
    assert_eq!(tips[1].team2.name, "France");
    assert_eq!(tips[1].team2.tla, "FRA");
    assert_eq!(result[0].score_sum, 0);
    assert_eq!(result[0].position, 0);
}

#[test]
fn test_rating_counts_points_and_hits() {
    let games = vec![
        game(428759, 0, 1, 1718564400),
        game(2, 2, 0, 10),
        game(3, 1, 1, 20),
        game(4, 3, 1, 30),
        game(5, 0, 2, 40),
    ];
    let teams = vec![
        (team("Serbia", "SRB"), team("England", "ENG")),
        (no_team(), no_team()),
        (no_team(), no_team()),
        (no_team(), no_team()),
        (no_team(), no_team()),
    ];
    let tips = vec![
        tip(1, 1, 428759, 0, 2),
        tip(2, 1, 2, 2, 0),
        tip(3, 1, 3, 0, 0),
        tip(4, 1, 4, 2, 0),
        tip(5, 1, 5, 2, 0),
    ];
    let users = vec![user(1, "ninja", "", "")];
    let ratings = rate_users(&games, &users, &tips, &teams, "");
    let r = &ratings[0];
    assert_eq!(r.name, "ninja");
    assert_eq!(r.user_id, 1);
    assert_eq!(r.department, "test");
    assert_eq!(r.sum_win_exact, 1);
    assert_eq!(r.sum_score_diff, 1);
    assert_eq!(r.sum_team, 2 * ScoreConfig::WIN_TEAM);
    assert_eq!(r.extra_point, 0);
    assert_eq!(r.score_sum, 5 + 3 + 2 + 2);
    assert_eq!(
        r.score_sum,
        r.extra_point
            + ScoreConfig::WIN_EXACT * r.sum_win_exact
            + ScoreConfig::WIN_SCORE_DIFF * r.sum_score_diff
            + r.sum_team
    );
    let first = &r.tips[0];
    assert_eq!(first.match_id, "428759");
    assert_eq!(first.user, "ninja");
    assert_eq!(first.score, ScoreConfig::WIN_TEAM);
    assert_eq!(first.team1.name, "Serbia");
    assert_eq!(first.team2.tla, "ENG");
    assert_eq!(first.tip_home, Some(0));
    assert_eq!(first.tip_away, Some(2));
    assert_eq!(first.score_home, Some(0));
    assert_eq!(first.score_away, Some(1));
    assert_eq!(first.date, 1718564400);
    assert_eq!(r.tips[1].score, ScoreConfig::WIN_EXACT);
    assert_eq!(r.tips[3].score, ScoreConfig::WIN_SCORE_DIFF);
    assert_eq!(r.tips[4].score, ScoreConfig::NO_WIN_TEAM);
}

#[test]
fn test_game_without_tip_has_no_points() {
    let games = vec![game(-3, 1, 0, 5)];
    let teams = vec![(no_team(), no_team())];
    let tips = vec![tip(1, 2, -3, 1, 0)];
    let users = vec![user(1, "a", "", ""), user(2, "b", "", "")];
    let ratings = rate_users(&games, &users, &tips, &teams, "");
    assert_eq!(ratings.len(), 2);
    assert_eq!(ratings[0].name, "a");
    assert_eq!(ratings[0].tips[0].match_id, "-3");
    assert_eq!(ratings[0].tips[0].tip_home, None);
    assert_eq!(ratings[0].tips[0].tip_away, None);
    assert_eq!(ratings[0].tips[0].score, 0);
    assert_eq!(ratings[0].score_sum, 0);
    assert_eq!(ratings[1].name, "b");
    assert_eq!(ratings[1].tips[0].score, ScoreConfig::WIN_EXACT);
    assert_eq!(ratings[1].score_sum, ScoreConfig::WIN_EXACT);
}

#[test]
fn test_later_tip_replaces_earlier_one() {
    let games = vec![game(10, 2, 1, 0)];
    let teams = vec![(no_team(), no_team())];
    let tips = vec![tip(1, 1, 10, 2, 1), tip(2, 1, 10, 0, 3)];
    let users = vec![user(1, "a", "", "")];
    let ratings = rate_users(&games, &users, &tips, &teams, "");
    assert_eq!(ratings[0].tips[0].tip_home, Some(0));
    assert_eq!(ratings[0].tips[0].tip_away, Some(3));
    assert_eq!(ratings[0].score_sum, 0);
}

#[test]
fn test_tips_of_other_games_do_not_count() {
    let games = vec![game(10, 2, 1, 0)];
    let teams = vec![(no_team(), no_team())];
    let tips = vec![tip(1, 1, 11, 2, 1)];
    let users = vec![user(1, "a", "", "")];
    let ratings = rate_users(&games, &users, &tips, &teams, "");
    assert_eq!(ratings[0].tips.len(), 1);
    assert_eq!(ratings[0].tips[0].tip_home, None);
    assert_eq!(ratings[0].score_sum, 0);
}

#[test]
fn test_winner_bonus() {
    let users = vec![
        user(1, "a", "Spain", "France"),
        user(2, "b", "France", "Spain"),
        user(3, "c", "Spain", "Spain"),
        user(4, "d", "Italy", "England"),
    ];
    let ratings = rate_users(&Vec::new(), &users, &Vec::new(), &Vec::new(), "Spain");
    assert_eq!(ratings[0].extra_point, ScoreConfig::WINNER_BONUS);
    assert_eq!(ratings[0].score_sum, ScoreConfig::WINNER_BONUS);
    assert_eq!(ratings[1].extra_point, ScoreConfig::SECRET_WINNER_BONUS);
    assert_eq!(ratings[2].extra_point, ScoreConfig::SECRET_WINNER_BONUS);
    assert_eq!(ratings[3].extra_point, ScoreConfig::NO_WIN_TEAM);
}

#[test]
fn test_no_champion_no_bonus() {
    let users = vec![user(1, "a", "", ""), user(2, "b", "Spain", "")];
    let ratings = rate_users(&Vec::new(), &users, &Vec::new(), &Vec::new(), "");
    assert_eq!(ratings[0].extra_point, 0);
    assert_eq!(ratings[1].extra_point, 0);
    let ratings = get_user_rating(Vec::new(), users, Vec::new(), Vec::new(), "   ");
    assert_eq!(ratings[0].extra_point, 0);
    assert_eq!(ratings[1].extra_point, 0);
}

#[test]
fn test_champion_is_trimmed() {
    let users = vec![user(1, "a", "Germany", ""), user(2, "b", "", "Germany")];
    let ratings = get_user_rating(Vec::new(), users, Vec::new(), Vec::new(), "  Germany \n");
    assert_eq!(ratings[0].extra_point, ScoreConfig::WINNER_BONUS);
    assert_eq!(ratings[1].extra_point, ScoreConfig::SECRET_WINNER_BONUS);
}

#[test]
fn test_rating_then_positions() {
    let games = vec![game(1, 2, 0, 0), game(2, 1, 1, 0)];
    let teams = vec![(no_team(), no_team()), (no_team(), no_team())];
    let tips = vec![
        tip(1, 1, 1, 2, 0),
        tip(2, 1, 2, 1, 0),
        tip(3, 2, 1, 1, 0),
        tip(4, 2, 2, 0, 0),
        tip(5, 3, 1, 0, 1),
    ];
    let users = vec![
        user(1, "a", "", ""),
        user(2, "b", "", ""),
        user(3, "c", "", ""),
        user(4, "d", "", ""),
    ];
    let mut ratings = get_user_rating(games, users, tips, teams, "");
    calculate_positions(&mut ratings, true);
    let names: Vec<&str> = ratings.iter().map(|r| r.name.as_str()).collect();
    let positions: Vec<i32> = ratings.iter().map(|r| r.position).collect();
    let sums: Vec<i32> = ratings.iter().map(|r| r.score_sum).collect();
    assert_eq!(sums, vec![5, 4, 0, 0]);
    assert_eq!(names, vec!["a", "b", "c", "d"]);
    assert_eq!(positions, vec![1, 2, 3, 3]);
    assert!(ratings.iter().all(|r| r.tips.is_empty()));
}

#[test]
fn test_can_rate_accepts_ordinary_inputs() {
    let games = vec![game(1, 2, 0, 0)];
    let teams = vec![(no_team(), no_team())];
    let tips = vec![tip(1, 1, 1, 2, 0)];
    let users = vec![user(1, "a", "", "")];
    assert!(can_rate(&games, &users, &tips, &teams, ""));
}

#[test]
fn test_can_rate_refuses_missing_teams() {
    let games = vec![game(1, 2, 0, 0)];
    let users = vec![user(1, "a", "", "")];
    assert!(!can_rate(&games, &users, &Vec::new(), &Vec::new(), ""));
}

#[test]
fn test_can_rate_refuses_overflowing_counted_tip() {
    let games = vec![game(1, 2, 0, 0)];
    let teams = vec![(no_team(), no_team())];
    let tips = vec![tip(1, 1, 1, i32::MIN, 1)];
    let users = vec![user(1, "a", "", "")];
    assert!(!can_rate(&games, &users, &tips, &teams, ""));
}

#[test]
fn test_can_rate_ignores_tips_that_do_not_count() {
    let games = vec![game(1, 2, 0, 0)];
    let teams = vec![(no_team(), no_team())];
    let tips = vec![tip(1, 1, 1, i32::MIN, 1), tip(2, 1, 1, 3, 1), tip(3, 9, 1, i32::MIN, 1)];
    let users = vec![user(1, "a", "", "")];
    assert!(can_rate(&games, &users, &tips, &teams, ""));
    let ratings = rate_users(&games, &users, &tips, &teams, "");
    assert_eq!(ratings[0].score_sum, ScoreConfig::WIN_SCORE_DIFF);
}

#[test]
fn test_sum_team_counts_points_of_winning_side_hits() {
    let games = vec![game(1, 2, 0, 0), game(2, 1, 1, 0), game(3, 0, 3, 0)];
    let teams = vec![(no_team(), no_team()), (no_team(), no_team()), (no_team(), no_team())];
    let tips = vec![tip(1, 1, 1, 3, 0), tip(2, 1, 2, 0, 0), tip(3, 1, 3, 1, 2)];
    let users = vec![user(1, "a", "", "")];
    let ratings = rate_users(&games, &users, &tips, &teams, "");
    assert_eq!(ratings[0].sum_team, 6);
    assert_eq!(ratings[0].score_sum, 6);
    assert_eq!(ratings[0].sum_win_exact, 0);
    assert_eq!(ratings[0].sum_score_diff, 0);
}

#[test]
fn test_rating_depends_on_own_tips_only() {
    let games = vec![game(1, 2, 0, 0), game(2, 1, 1, 0)];
    let teams = vec![(no_team(), no_team()), (no_team(), no_team())];
    let users = vec![user(1, "a", "", ""), user(2, "b", "", "")];
    let tips1 = vec![tip(1, 1, 1, 2, 0), tip(2, 2, 1, 0, 1), tip(3, 1, 2, 0, 0)];
    let tips2 = vec![tip(1, 2, 2, 1, 1), tip(2, 1, 1, 2, 0), tip(3, 1, 2, 0, 0)];
    let r1 = rate_users(&games, &users, &tips1, &teams, "");
    let r2 = rate_users(&games, &users, &tips2, &teams, "");
    assert_eq!(r1[0].score_sum, r2[0].score_sum);
    assert_eq!(r1[0].sum_win_exact, r2[0].sum_win_exact);
    assert_eq!(r1[0].sum_team, r2[0].sum_team);
    for g in 0..2 {
        assert_eq!(r1[0].tips[g].tip_home, r2[0].tips[g].tip_home);
        assert_eq!(r1[0].tips[g].score, r2[0].tips[g].score);
    }
    assert_ne!(r1[1].score_sum, r2[1].score_sum);
}

#[test]
fn test_champion_trim_removes_unicode_white_space() {
    let users = vec![user(1, "a", "Germany", "")];
    let ratings = get_user_rating(Vec::new(), users, Vec::new(), Vec::new(), "\u{3000}Germany\u{a0}\t");
    assert_eq!(ratings[0].extra_point, ScoreConfig::WINNER_BONUS);
    let users = vec![user(1, "a", "Germany", "")];
    let ratings = get_user_rating(Vec::new(), users, Vec::new(), Vec::new(), "\u{2028}\u{85} ");
    assert_eq!(ratings[0].extra_point, ScoreConfig::NO_WIN_TEAM);
}
