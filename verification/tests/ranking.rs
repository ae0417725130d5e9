use betting_api::{calculate_positions, MatchInfo, Team, UserRating};

#[test]
fn test_calculate_positions() {
    let mut user_rating_list = vec![
        UserRating {
            name: "jahnedoe".to_string(),
            score_sum: 2,
            user_id: 1,
            department: "test".to_string(),
            position: 0,
            sum_win_exact: 0,
            sum_score_diff: 0,
            sum_team: 0,
            extra_point: 0,
            tips: Vec::new(),
        },
        UserRating {
            name: "ninja".to_string(),
            score_sum: 5,
            user_id: 1,
            department: "test".to_string(),
            position: 0,
            sum_win_exact: 0,
            sum_score_diff: 0,
            sum_team: 0,
            extra_point: 0,
            tips: Vec::new(),
        },
        UserRating {
            name: "babo".to_string(),
            score_sum: 10,
            user_id: 1,
            department: "test".to_string(),
            position: 0,
            sum_win_exact: 0,
            sum_score_diff: 0,
            sum_team: 0,
            extra_point: 0,
            tips: Vec::new(),
        },
        UserRating {
            name: "abdul".to_string(),
            score_sum: 9,
            user_id: 1,
            department: "test".to_string(),
            position: 0,
            sum_win_exact: 0,
            sum_score_diff: 0,
            sum_team: 0,
            extra_point: 0,
            tips: Vec::new(),
        },
        UserRating {
            name: "rockstar".to_string(),
            score_sum: 5,
            user_id: 1,
            department: "test".to_string(),
            position: 0,
            sum_win_exact: 0,
            sum_score_diff: 0,
            sum_team: 0,
            extra_point: 0,
            tips: Vec::new(),
        },
        UserRating {
            name: "theBest".to_string(),
            score_sum: 8,
            user_id: 1,
            department: "test".to_string(),
            position: 0,
            sum_win_exact: 0,
            sum_score_diff: 0,
            sum_team: 0,
            extra_point: 0,
            tips: Vec::new(),
        },
        UserRating {
            name: "johndoe".to_string(),
            score_sum: 9,
            user_id: 1,
            department: "test".to_string(),
            position: 0,
            sum_win_exact: 0,
            sum_score_diff: 0,
            sum_team: 0,
            extra_point: 0,
            tips: Vec::new(),
        },
    ];

    calculate_positions(&mut user_rating_list, true);

    assert_eq!(user_rating_list[0].position, 1);
    assert_eq!(user_rating_list[0].name, "babo");
    assert_eq!(user_rating_list[1].position, 2);
    assert_eq!(user_rating_list[1].name, "abdul");
    assert_eq!(user_rating_list[2].position, 2);
    assert_eq!(user_rating_list[2].name, "johndoe");
    assert_eq!(user_rating_list[3].position, 4);
    assert_eq!(user_rating_list[3].name, "theBest");
    assert_eq!(user_rating_list[4].position, 5);
    assert_eq!(user_rating_list[4].name, "ninja");
    assert_eq!(user_rating_list[5].position, 5);
    assert_eq!(user_rating_list[5].name, "rockstar");
    assert_eq!(user_rating_list[6].position, 7);
    assert_eq!(user_rating_list[6].name, "jahnedoe");
}

#[test]
fn test_calculate_positions_when_two_first_place() {
    let mut user_rating_list = vec![
        UserRating {
            name: "jahnedoe".to_string(),
            score_sum: 8,
            user_id: 1,
            department: "test".to_string(),
            position: 0,
            sum_win_exact: 0,
            sum_score_diff: 0,
            sum_team: 0,
            extra_point: 0,
            tips: Vec::new(),
        },
        UserRating {
            name: "ninja".to_string(),
            score_sum: 10,
            user_id: 1,
            department: "test".to_string(),
            position: 0,
            sum_win_exact: 0,
            sum_score_diff: 0,
            sum_team: 0,
            extra_point: 0,
            tips: Vec::new(),
        },
        UserRating {
            name: "babo".to_string(),
            score_sum: 10,
            user_id: 1,
            department: "test".to_string(),
            position: 0,
            sum_win_exact: 0,
            sum_score_diff: 0,
            sum_team: 0,
            extra_point: 0,
            tips: Vec::new(),
        },
        UserRating {
            name: "abdul".to_string(),
            score_sum: 9,
            user_id: 1,
            department: "test".to_string(),
            position: 0,
            sum_win_exact: 0,
            sum_score_diff: 0,
            sum_team: 0,
            extra_point: 0,
            tips: Vec::new(),
        },
        UserRating {
            name: "rockstar".to_string(),
            score_sum: 5,
            user_id: 1,
            department: "test".to_string(),
            position: 0,
            sum_win_exact: 0,
            sum_score_diff: 0,
            sum_team: 0,
            extra_point: 0,
            tips: Vec::new(),
        },
        UserRating {
            name: "theBest".to_string(),
            score_sum: 5,
            user_id: 1,
            department: "test".to_string(),
            position: 0,
            sum_win_exact: 0,
            sum_score_diff: 0,
            sum_team: 0,
            extra_point: 0,
            tips: Vec::new(),
        },
        UserRating {
            name: "johndoe".to_string(),
            score_sum: 9,
            user_id: 1,
            department: "test".to_string(),
            position: 0,
            sum_win_exact: 0,
            sum_score_diff: 0,
            sum_team: 0,
            extra_point: 0,
            tips: Vec::new(),
        },
    ];

    calculate_positions(&mut user_rating_list, true);

    assert_eq!(user_rating_list[0].position, 1);
    assert_eq!(user_rating_list[0].name, "ninja");
    assert_eq!(user_rating_list[1].position, 1);
    assert_eq!(user_rating_list[1].name, "babo");
    assert_eq!(user_rating_list[2].position, 3);
    assert_eq!(user_rating_list[2].name, "abdul");
    assert_eq!(user_rating_list[3].position, 3);
    assert_eq!(user_rating_list[3].name, "johndoe");
    assert_eq!(user_rating_list[4].position, 5);
    assert_eq!(user_rating_list[4].name, "jahnedoe");
    assert_eq!(user_rating_list[5].position, 6);
    assert_eq!(user_rating_list[5].name, "rockstar");
    assert_eq!(user_rating_list[6].position, 6);
    assert_eq!(user_rating_list[6].name, "theBest");
}

fn rating(name: &str, score_sum: i32) -> UserRating {
    UserRating {
        name: name.to_string(),
        user_id: 1,
        department: "test".to_string(),
        position: 0,
        score_sum,
        sum_win_exact: 0,
        sum_score_diff: 0,
        sum_team: 0,
        extra_point: 0,
        tips: Vec::new(),
    }
}

fn one_tip() -> MatchInfo {
    MatchInfo {
        match_id: "7".to_string(),
        user: "u".to_string(),
        user_id: 1,
        score: 2,
        team1: Team { name: "A".to_string(), tla: "AAA".to_string() },
        team2: Team { name: "B".to_string(), tla: "BBB".to_string() },
        tip_home: Some(1),
        tip_away: Some(0),
        score_home: Some(2),
        score_away: Some(0),
        date: 1,
    }
}

fn names(list: &[UserRating]) -> Vec<String> {
    list.iter().map(|r| r.name.clone()).collect()
}

fn positions(list: &[UserRating]) -> Vec<i32> {
    list.iter().map(|r| r.position).collect()
}

#[test]
fn test_positions_count_better_entries() {
    let mut list = vec![rating("a", 3), rating("b", 7), rating("c", 3), rating("d", 7), rating("e", 1)];
    calculate_positions(&mut list, true);
    assert_eq!(names(&list), vec!["b", "d", "a", "c", "e"]);
    assert_eq!(positions(&list), vec![1, 1, 3, 3, 5]);
    for r in &list {
        let better = list.iter().filter(|o| o.score_sum > r.score_sum).count() as i32;
        assert_eq!(r.position, better + 1);
    }
}

#[test]
fn test_sorted_input_keeps_its_order() {
    let mut list = vec![rating("x", 9), rating("y", 9), rating("z", 4), rating("w", 4)];
    calculate_positions(&mut list, false);
    assert_eq!(names(&list), vec!["x", "y", "z", "w"]);
    assert_eq!(positions(&list), vec![1, 1, 3, 3]);
}

#[test]
fn test_ranking_twice_changes_nothing() {
    let mut list = vec![rating("a", 2), rating("b", 5), rating("c", 5), rating("d", 11)];
    calculate_positions(&mut list, true);
    let first_names = names(&list);
    let first_positions = positions(&list);
    calculate_positions(&mut list, true);
    assert_eq!(names(&list), first_names);
    assert_eq!(positions(&list), first_positions);
}

#[test]
fn test_clear_tips_empties_match_details() {
    let mut first = rating("a", 4);
    first.tips.push(one_tip());
    let mut list = vec![first, rating("b", 6)];
    calculate_positions(&mut list, true);
    assert!(list.iter().all(|r| r.tips.is_empty()));
}

#[test]
fn test_keep_tips_keeps_match_details() {
    let mut first = rating("a", 4);
    first.tips.push(one_tip());
    let mut list = vec![first, rating("b", 6)];
    calculate_positions(&mut list, false);
    assert_eq!(list[0].name, "b");
    assert!(list[0].tips.is_empty());
    assert_eq!(list[1].tips.len(), 1);
    assert_eq!(list[1].tips[0].match_id, "7");
    assert_eq!(list[1].position, 2);
}

#[test]
fn test_calculate_positions_empty_list() {
    let mut list: Vec<UserRating> = Vec::new();
    calculate_positions(&mut list, true);
    assert!(list.is_empty());
}

#[test]
fn test_top_score_minus_one_gets_position_zero() {
    let mut list = vec![rating("a", -1), rating("b", -1), rating("c", -3)];
    calculate_positions(&mut list, true);
    assert_eq!(positions(&list), vec![0, 0, 3]);
}

#[test]
fn test_negative_scores_below_others_are_ranked() {
    let mut list = vec![rating("a", -1), rating("b", 0)];
    calculate_positions(&mut list, true);
    assert_eq!(names(&list), vec!["b", "a"]);
    assert_eq!(positions(&list), vec![1, 2]);
}
