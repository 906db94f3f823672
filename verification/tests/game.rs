use chrono::Datelike;
use score_cli::game::{Game, Games};

#[test]
fn build_game_error_parsing_time_string() {
    let game = Game::build(
        "game-name".to_string(),
        vec!["player1::10".to_string(), "player2::20".to_string()],
        Some("impossible-to-parse"),
    );
    assert!(game.is_err());
    assert_eq!(
        game.unwrap_err(),
        "Error parsing date. The input format is YYYY-MM-DD."
    );
}

#[test]
fn build_game_well_formatted_data() {
    let game = Game::build(
        "game-name".to_string(),
        vec!["player1::10".to_string(), "player2::20".to_string()],
        Some("2025-01-01"),
    );
    assert!(game.is_ok());
    let game = game.unwrap();
    assert_eq!(game.get_name(), "game-name");
    assert_eq!(game.get_scores().get_score("player1"), Some(10));
    assert_eq!(game.get_scores().get_score("player1"), Some(10));

    let expected = chrono::NaiveDate::parse_from_str("2025-01-01", "%Y-%m-%d").unwrap();
    let date = game.get_datetime();
    assert_eq!(date.year, expected.year());
    assert_eq!(date.month as u32, expected.month());
    assert_eq!(date.day as u32, expected.day());
}

#[test]
fn test_parse_scores_valid_input() {
    let input = vec!["alice::10".to_string(), "bob::20".to_string()];
    let result = Game::parse_scores(&input);
    assert!(result.is_ok());
    let map = result.unwrap();
    assert_eq!(map.get_score("alice"), Some(10));
    assert_eq!(map.get_score("bob"), Some(20));
}

#[test]
fn test_parse_scores_invalid_format_single_colon() {
    let input = vec!["alice:10".to_string()];
    let result = Game::parse_scores(&input);
    assert!(result.is_err());
    assert_eq!(
        result.unwrap_err(),
        "Error parsing scores. The input format is player::score."
    );
}

#[test]
fn test_parse_scores_invalid_number() {
    let input = vec!["alice::ten".to_string()];
    let result = Game::parse_scores(&input);
    assert!(result.is_err());
    assert_eq!(
        result.unwrap_err(),
        "Error parsing scores. The input format is player::score."
    );
}

#[test]
fn test_parse_scores_empty_input() {
    let input: Vec<String> = vec![];
    let result = Game::parse_scores(&input);
    assert!(result.is_ok());
    assert!(result.unwrap().is_empty());
}

#[test]
fn test_parse_scores_too_many_colons() {
    let input = vec!["alice::10::bonus".to_string()];
    let result = Game::parse_scores(&input);
    assert!(result.is_err());
    assert_eq!(
        result.unwrap_err(),
        "Error parsing scores. The input format is player::score."
    );
}

#[test]
fn parse_scores_rejects_a_numeric_overflow() {
    let input = vec!["alice::99999999999999999999999999999".to_string()];
    let result = Game::parse_scores(&input);
    assert!(result.is_err());
    assert_eq!(
        result.unwrap_err(),
        "Error parsing scores. The input format is player::score."
    );
}

#[test]
fn parse_scores_keeps_the_last_score_for_a_repeated_player() {
    let input = vec!["alice::10".to_string(), "alice::20".to_string()];
    let map = Game::parse_scores(&input).unwrap();
    assert_eq!(map.len(), 1);
    assert_eq!(map.get_score("alice"), Some(20));
}

#[test]
fn order_by_date_lists_the_earlier_game_first() {
    let first = Game::build(
        "catan".to_string(),
        vec!["alice::10".to_string()],
        Some("2025-08-07"),
    )
    .unwrap();
    let second = Game::build(
        "catan".to_string(),
        vec!["bob::20".to_string()],
        Some("2025-01-01"),
    )
    .unwrap();

    let mut games = Games::create_empy();
    games.add_game(first);
    games.add_game(second);

    let ordered = games.order_by_date();
    assert_eq!(ordered.len(), 2);
    assert_eq!(ordered[0].get_datetime().month, 1);
    assert_eq!(ordered[1].get_datetime().month, 8);
}

#[test]
fn extend_merges_two_collections() {
    let a = Game::build(
        "catan".to_string(),
        vec!["alice::10".to_string()],
        Some("2025-01-01"),
    )
    .unwrap();
    let b = Game::build(
        "chess".to_string(),
        vec!["bob::1".to_string()],
        Some("2025-02-02"),
    )
    .unwrap();

    let mut all = Games::create_empy();
    all.add_game(a);
    let mut other = Games::create_empy();
    other.add_game(b);

    all.extend(&other);
    assert_eq!(all.get_games().len(), 2);
}

#[test]
fn fresh_games_get_distinct_ids() {
    let a = Game::build("catan".to_string(), vec!["alice::1".to_string()], None).unwrap();
    let b = Game::build("catan".to_string(), vec!["alice::1".to_string()], None).unwrap();
    assert_ne!(a.get_id(), b.get_id());
}
