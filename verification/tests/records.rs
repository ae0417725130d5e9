use betting_api::Team;

#[test]
fn test_team_default_is_empty() {
    let team = Team::default();
    assert_eq!(team.name, "");
    assert_eq!(team.tla, "");
}

#[test]
fn test_team_clone_keeps_fields() {
    let team = Team {
        name: "Germany".to_string(),
        tla: "GER".to_string(),
    };
    let copy = team.clone();
    assert_eq!(copy.name, "Germany");
    assert_eq!(copy.tla, "GER");
}

#[test]
fn test_decimal_string_matches_to_string() {
    for x in [0, 7, 10, 99, 428759, -1, -3, -10, i32::MAX, i32::MIN] {
        assert_eq!(betting_api::decimal_string(x), x.to_string());
    }
    assert_eq!(betting_api::decimal_string(-2147483648), "-2147483648");
}
