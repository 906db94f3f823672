use score_cli::args::{OptArgs, SAVE_DIR_OPTIONAL_ARGUMENT};
use score_cli::delete_player::DeletePlayer;
use score_cli::player::{Player, Players};

#[test]
fn delete_player_test_create_valid_input() {
    let args = vec!["player-name".to_string()];
    let mut optional_args = OptArgs::new();
    optional_args.insert(SAVE_DIR_OPTIONAL_ARGUMENT.to_string(), "some/path".to_string());

    let result = DeletePlayer::create(&args, &optional_args);
    assert!(result.is_ok());

    let command = result.unwrap();
    assert_eq!(command.player.get_name(), "player-name");
    assert_eq!(
        command.optional_args.get(SAVE_DIR_OPTIONAL_ARGUMENT),
        Some("some/path".to_string())
    );
}

#[test]
fn delete_player_test_create_with_unknown_optional_arg() {
    let args = vec!["player-name".to_string()];
    let mut optional_args = OptArgs::new();
    optional_args.insert("--unknown".to_string(), "value".to_string());

    let result = DeletePlayer::create(&args, &optional_args);
    assert!(result.is_err());
    assert_eq!(
        result.unwrap_err(),
        "Unknown optional command for delete-player --unknown."
    );
}

#[test]
fn test_create_with_missing_arguments() {
    let args: Vec<String> = vec![];
    let optional_args = OptArgs::new();

    let result = DeletePlayer::create(&args, &optional_args);
    assert!(result.is_err());
    assert_eq!(
        result.unwrap_err(),
        "Invalid number of arguments for delete-player."
    );
}

#[test]
fn test_create_with_extra_arguments() {
    let args = vec!["Alice".to_string(), "Extra".to_string()];
    let optional_args = OptArgs::new();

    let result = DeletePlayer::create(&args, &optional_args);
    assert!(result.is_err());
    assert_eq!(
        result.unwrap_err(),
        "Invalid number of arguments for delete-player."
    );
}

#[test]
fn apply_fails_when_no_document_exists() {
    let args = vec!["alice".to_string()];
    let command = DeletePlayer::create(&args, &OptArgs::new()).unwrap();

    let result = command.apply(None);
    assert!(result.is_err());
    assert_eq!(result.unwrap_err(), "No players' data found.");
}

#[test]
fn apply_fails_for_an_absent_name_and_changes_nothing() {
    let args = vec!["bob".to_string()];
    let command = DeletePlayer::create(&args, &OptArgs::new()).unwrap();

    let existing = Players::from_players(vec![Player::new("alice".to_string())]);
    let result = command.apply(Some(existing));
    assert!(result.is_err());
    assert_eq!(result.unwrap_err(), "Player bob not found.");
}

#[test]
fn apply_removes_a_present_name() {
    let args = vec!["alice".to_string()];
    let command = DeletePlayer::create(&args, &OptArgs::new()).unwrap();

    let existing = Players::from_players(vec![
        Player::new("alice".to_string()),
        Player::new("bob".to_string()),
    ]);
    let players = command.apply(Some(existing)).unwrap();
    assert_eq!(players.len(), 1);
    assert!(!players.has_player(Player::new("alice".to_string())));
    assert!(players.has_player(Player::new("bob".to_string())));
}
