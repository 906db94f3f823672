use score_cli::add_player::AddPlayer;
use score_cli::args::{OptArgs, SAVE_DIR_OPTIONAL_ARGUMENT};
use score_cli::player::{Player, Players};

#[test]
fn add_player_test_create_valid_input() {
    let args = vec!["player-name".to_string()];
    let mut optional_args = OptArgs::new();
    optional_args.insert(
        SAVE_DIR_OPTIONAL_ARGUMENT.to_string(),
        "path/to/dir".to_string(),
    );

    let result = AddPlayer::create(&args, &optional_args);
    assert!(result.is_ok());

    let add_player = result.unwrap();
    assert_eq!(add_player.player.get_name(), "player-name");
    assert_eq!(
        add_player.optional_args.get(SAVE_DIR_OPTIONAL_ARGUMENT),
        Some("path/to/dir".to_string())
    );
}

#[test]
fn test_create_invalid_number_of_args() {
    let args = vec![];
    let optional_args = OptArgs::new();

    let result = AddPlayer::create(&args, &optional_args);
    assert!(result.is_err());
    assert_eq!(
        result.unwrap_err(),
        "Invalid number of arguments for add-player."
    );
}

#[test]
fn test_create_unknown_optional_argument() {
    let args = vec!["player-name".to_string()];
    let mut optional_args = OptArgs::new();
    optional_args.insert("--unknown-flag".to_string(), "value".to_string());

    let result = AddPlayer::create(&args, &optional_args);
    assert!(result.is_err());
    assert_eq!(
        result.unwrap_err(),
        "Unknown optional command for add-player --unknown-flag."
    );
}

#[test]
fn apply_starts_a_fresh_collection_when_no_document_exists() {
    let args = vec!["alice".to_string()];
    let command = AddPlayer::create(&args, &OptArgs::new()).unwrap();

    let players = command.apply(None).unwrap();
    assert_eq!(players.len(), 1);
    assert!(players.has_player(Player::new("alice".to_string())));
}

#[test]
fn apply_inserts_into_an_existing_collection() {
    let args = vec!["bob".to_string()];
    let command = AddPlayer::create(&args, &OptArgs::new()).unwrap();

    let existing = Players::from_players(vec![Player::new("alice".to_string())]);
    let players = command.apply(Some(existing)).unwrap();
    assert_eq!(players.len(), 2);
    assert!(players.has_player(Player::new("alice".to_string())));
    assert!(players.has_player(Player::new("bob".to_string())));
}

#[test]
fn apply_rejects_a_duplicate_name_and_changes_nothing() {
    let args = vec!["alice".to_string()];
    let command = AddPlayer::create(&args, &OptArgs::new()).unwrap();

    let existing = Players::from_players(vec![Player::new("alice".to_string())]);
    let result = command.apply(Some(existing));
    assert!(result.is_err());
    assert_eq!(result.unwrap_err(), "Player alice already exists.");
}

#[test]
fn add_then_delete_restores_the_prior_collection() {
    let mut players = Players::from_players(vec![Player::new("alice".to_string())]);

    players.add_player(Player::new("bob".to_string())).unwrap();
    assert_eq!(players.len(), 2);

    players.remove_player(Player::new("bob".to_string())).unwrap();
    assert_eq!(players.len(), 1);
    assert!(players.has_player(Player::new("alice".to_string())));
    assert!(!players.has_player(Player::new("bob".to_string())));
}

#[test]
fn second_add_of_the_same_name_fails_and_keeps_the_collection() {
    let mut players = Players::from_players(vec![]);
    players.add_player(Player::new("alice".to_string())).unwrap();

    let second = players.add_player(Player::new("alice".to_string()));
    assert!(second.is_err());
    assert_eq!(second.unwrap_err(), "Player alice already exists.");
    assert_eq!(players.len(), 1);
    assert!(players.has_player(Player::new("alice".to_string())));
}
