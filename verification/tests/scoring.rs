use betting_api::{calculate_score, MatchInfo, ScoreConfig, Team};

fn match_info(
    score_home: Option<i32>,
    score_away: Option<i32>,
    tip_home: Option<i32>,
    tip_away: Option<i32>,
) -> MatchInfo {
    MatchInfo {
        match_id: "1".to_string(),
        user: "user".to_string(),
        user_id: 1,
        score: 0,
        team1: Team {
            name: String::from("Team1"),
            tla: String::from("te1"),
        },
        team2: Team {
            name: String::from("Team2"),
            tla: String::from("te2"),
        },
        tip_home,
        tip_away,
        score_home,
        score_away,
        date: 1718048296,
    }
}

fn score_of(score_home: i32, score_away: i32, tip_home: i32, tip_away: i32) -> i32 {
    let mut info = match_info(Some(score_home), Some(score_away), Some(tip_home), Some(tip_away));
    calculate_score(&mut info);
    info.score
}

#[test]
fn test_calculate_score_1_2_tip_1_2() {
    assert_eq!(score_of(1, 2, 1, 2), ScoreConfig::WIN_EXACT);
}

#[test]
fn test_calculate_score_2_1_tip_2_1() {
    assert_eq!(score_of(2, 1, 2, 1), ScoreConfig::WIN_EXACT);
}

#[test]
fn test_calculate_score_2_0_tip_2_0() {
    assert_eq!(score_of(2, 0, 2, 0), ScoreConfig::WIN_EXACT);
}

#[test]
fn test_calculate_score_0_2_tip_0_2() {
    assert_eq!(score_of(0, 2, 0, 2), ScoreConfig::WIN_EXACT);
}

#[test]
fn test_calculate_score_2_2_tip_2_2() {
    assert_eq!(score_of(2, 2, 2, 2), ScoreConfig::WIN_EXACT);
}

#[test]
fn test_calculate_score_2_1_tip_0_1() {
    assert_eq!(score_of(2, 1, 0, 1), ScoreConfig::NO_WIN_TEAM);
}

#[test]
fn test_calculate_score_1_3_tip_3_2() {
    assert_eq!(score_of(1, 3, 3, 2), ScoreConfig::NO_WIN_TEAM);
}

#[test]
fn test_calculate_score_0_0_tip_2_0() {
    assert_eq!(score_of(0, 0, 2, 0), ScoreConfig::NO_WIN_TEAM);
}

#[test]
fn test_calculate_score_0_1_tip_0_0() {
    assert_eq!(score_of(0, 1, 0, 0), ScoreConfig::NO_WIN_TEAM);
}

#[test]
fn test_calculate_score_1_3_tip_2_4() {
    assert_eq!(score_of(1, 3, 2, 4), ScoreConfig::WIN_SCORE_DIFF);
}

#[test]
fn test_calculate_score_4_2_tip_3_1() {
    assert_eq!(score_of(4, 2, 3, 1), ScoreConfig::WIN_SCORE_DIFF);
}

#[test]
fn test_calculate_score_1_0_tip_2_1() {
    assert_eq!(score_of(1, 0, 2, 1), ScoreConfig::WIN_SCORE_DIFF);
}

#[test]
fn test_calculate_score_1_2_tip_0_1() {
    assert_eq!(score_of(1, 2, 0, 1), ScoreConfig::WIN_SCORE_DIFF);
}

#[test]
fn test_calculate_score_3_3_tip_0_0() {
    assert_eq!(score_of(3, 3, 0, 0), ScoreConfig::WIN_TEAM);
}

#[test]
fn test_calculate_score_3_3_tip_4_4() {
    assert_eq!(score_of(3, 3, 4, 4), ScoreConfig::WIN_TEAM);
}

#[test]
fn test_calculate_score_1_3_tip_1_2() {
    assert_eq!(score_of(1, 3, 1, 2), ScoreConfig::WIN_TEAM);
}

#[test]
fn test_calculate_score_2_1_tip_3_1() {
    assert_eq!(score_of(2, 1, 3, 1), ScoreConfig::WIN_TEAM);
}

#[test]
fn test_calculate_score_1_0_tip_2_0() {
    assert_eq!(score_of(1, 0, 2, 0), ScoreConfig::WIN_TEAM);
}

#[test]
fn test_calculate_score_0_5_tip_0_2() {
    assert_eq!(score_of(0, 5, 0, 2), ScoreConfig::WIN_TEAM);
}

#[test]
fn test_calculate_score_2_3_tip_2_5() {
    assert_eq!(score_of(2, 3, 2, 5), ScoreConfig::WIN_TEAM);
}

#[test]
fn test_calculate_score_with_none_case_1() {
    let mut info = match_info(Some(0), Some(1), None, None);
    calculate_score(&mut info);
    assert_eq!(info.score, ScoreConfig::NO_WIN_TEAM);
}

#[test]
fn test_calculate_score_with_none_case_2() {
    let mut info = match_info(Some(0), Some(0), None, None);
    calculate_score(&mut info);
    assert_eq!(info.score, ScoreConfig::NO_WIN_TEAM);
}

#[test]
fn test_calculate_score_with_none_case_3() {
    let mut info = match_info(Some(1), Some(0), None, None);
    calculate_score(&mut info);
    assert_eq!(info.score, ScoreConfig::NO_WIN_TEAM);
}

#[test]
fn test_calculate_score_with_none_case_4() {
    let mut info = match_info(None, None, Some(1), Some(0));
    calculate_score(&mut info);
    assert_eq!(info.score, ScoreConfig::NO_WIN_TEAM);
}

#[test]
fn test_calculate_score_with_none_case_5() {
    let mut info = match_info(None, None, Some(0), Some(0));
    calculate_score(&mut info);
    assert_eq!(info.score, ScoreConfig::NO_WIN_TEAM);
}

#[test]
fn test_calculate_score_with_none_case_6() {
    let mut info = match_info(None, None, Some(0), Some(1));
    calculate_score(&mut info);
    assert_eq!(info.score, ScoreConfig::NO_WIN_TEAM);
}

#[test]
fn test_calculate_score_keeps_score_without_tip() {
    let mut info = match_info(Some(2), Some(1), None, Some(1));
    info.score = 7;
    calculate_score(&mut info);
    assert_eq!(info.score, 7);
    assert_eq!(info.match_id, "1");
    assert_eq!(info.tip_away, Some(1));
}

#[test]
fn test_calculate_score_keeps_other_fields() {
    let mut info = match_info(Some(2), Some(1), Some(3), Some(1));
    calculate_score(&mut info);
    assert_eq!(info.score, ScoreConfig::WIN_TEAM);
    assert_eq!(info.user, "user");
    assert_eq!(info.team1.name, "Team1");
    assert_eq!(info.team2.tla, "te2");
    assert_eq!(info.date, 1718048296);
}

#[test]
fn test_scoring_is_symmetric_on_values() {
    for (sh, sa, th, ta) in [(1, 3, 2, 4), (2, 1, 3, 1), (0, 0, 2, 0), (4, 4, 1, 1), (2, 5, 2, 5)] {
        assert_eq!(score_of(sh, sa, th, ta), score_of(sa, sh, ta, th));
    }
}

#[test]
fn test_points_only_for_right_outcome() {
    assert_eq!(score_of(3, 0, 0, 3), ScoreConfig::NO_WIN_TEAM);
    assert_eq!(score_of(1, 1, 1, 0), ScoreConfig::NO_WIN_TEAM);
    assert!(score_of(3, 0, 1, 0) > 0);
    assert!(score_of(1, 1, 3, 3) > 0);
}

#[test]
fn test_calculate_score_large_values() {
    assert_eq!(score_of(i32::MAX, 0, i32::MAX, 0), ScoreConfig::WIN_EXACT);
    assert_eq!(score_of(-5, -5, 7, 7), ScoreConfig::WIN_TEAM);
}
