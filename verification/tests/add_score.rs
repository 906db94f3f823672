use score_cli::add_score::AddScore;
use score_cli::args::{OptArgs, TIME_OPTIONAL_ARGUMENT};
use score_cli::player::{Player, Players};

#[test]
fn add_score_test_create_valid_input() {
    let args = vec![
        "Catan".to_string(),
        "player1-name::10".to_string(),
        "player2-name::8".to_string(),
    ];
    let mut optional_args = OptArgs::new();
    optional_args.insert(TIME_OPTIONAL_ARGUMENT.to_string(), "2025-07-25".to_string());

    let result = AddScore::create(&args, &optional_args);
    assert!(result.is_ok());

    let add_score = result.unwrap();
    assert_eq!(add_score.game.get_name(), "Catan");
    assert_eq!(
        add_score.optional_args.get(TIME_OPTIONAL_ARGUMENT),
        Some("2025-07-25".to_string())
    );
}

#[test]
fn add_score_test_create_with_unknown_optional_arg() {
    let args = vec!["Catan".to_string(), "player1-name::10".to_string()];
    let mut optional_args = OptArgs::new();
    optional_args.insert("--unknown".to_string(), "value".to_string());

    let result = AddScore::create(&args, &optional_args);
    assert!(result.is_err());
    assert_eq!(
        result.unwrap_err(),
        "Unknown optional command for add-score --unknown."
    );
}

#[test]
fn test_create_game_build_failure() {
    let args = vec!["Catan".to_string()];
    let optional_args = OptArgs::new();

    let result = AddScore::create(&args, &optional_args);
    assert!(result.is_err());
    assert!(result.unwrap_err().contains("No scores provided."));
}

#[test]
fn check_players_fails_without_a_players_document() {
    let args = vec!["Catan".to_string(), "alice::10".to_string()];
    let command = AddScore::create(&args, &OptArgs::new()).unwrap();

    let result = command.check_players_existance(None);
    assert!(result.is_err());
    assert_eq!(result.unwrap_err(), "No Players' data found.");
}

#[test]
fn check_players_names_the_first_missing_player() {
    let args = vec![
        "Catan".to_string(),
        "alice::10".to_string(),
        "bob::8".to_string(),
    ];
    let command = AddScore::create(&args, &OptArgs::new()).unwrap();

    let players = Players::from_players(vec![Player::new("alice".to_string())]);
    let result = command.check_players_existance(Some(&players));
    assert!(result.is_err());
    assert_eq!(result.unwrap_err(), "Player bob does not exist.");
}

#[test]
fn check_players_accepts_a_full_roster() {
    let args = vec![
        "Catan".to_string(),
        "alice::10".to_string(),
        "bob::8".to_string(),
    ];
    let command = AddScore::create(&args, &OptArgs::new()).unwrap();

    let players = Players::from_players(vec![
        Player::new("alice".to_string()),
        Player::new("bob".to_string()),
    ]);
    assert!(command.check_players_existance(Some(&players)).is_ok());
}

#[test]
fn apply_starts_a_fresh_games_collection_when_no_document_exists() {
    let args = vec!["Catan".to_string(), "alice::10".to_string()];
    let command = AddScore::create(&args, &OptArgs::new()).unwrap();

    let games = command.apply(None);
    assert_eq!(games.get_games().len(), 1);
    assert_eq!(games.get_games()[0].get_id(), command.game.get_id());
}

#[test]
fn create_rejects_a_malformed_date() {
    let args = vec!["Catan".to_string(), "alice::10".to_string()];
    let mut optional_args = OptArgs::new();
    optional_args.insert(TIME_OPTIONAL_ARGUMENT.to_string(), "July 2025".to_string());

    let result = AddScore::create(&args, &optional_args);
    assert!(result.is_err());
    assert_eq!(
        result.unwrap_err(),
        "Error parsing date. The input format is YYYY-MM-DD."
    );
}

#[test]
fn create_with_no_arguments_is_an_argument_error() {
    let args: Vec<String> = vec![];
    let result = AddScore::create(&args, &OptArgs::new());
    assert!(result.is_err());
    assert_eq!(
        result.unwrap_err(),
        "Invalid number of arguments for add-score."
    );
}
