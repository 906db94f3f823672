use score_cli::add_score::AddScore;
use score_cli::args::OptArgs;
use score_cli::delete_score::DeleteScore;

#[test]
fn delete_score_test_create_valid_input() {
    let args = vec!["game-id".to_string()];
    let optional_args = OptArgs::new();

    let result = DeleteScore::create(&args, &optional_args);
    assert!(result.is_ok());

    let add_score = result.unwrap();
    assert_eq!(add_score.game_id, "game-id");
}

#[test]
fn test_create_no_arguments() {
    let args = vec![];
    let optional_args = OptArgs::new();

    let result = DeleteScore::create(&args, &optional_args);
    assert!(result.is_err());
    assert_eq!(
        result.unwrap_err(),
        "Invalid number of arguments for delete-score."
    );
}

#[test]
fn test_create_no_admitted_arguments() {
    let args = vec![];
    let mut optional_args = OptArgs::new();
    optional_args.insert("--unknown".to_string(), "value".to_string());

    let result = DeleteScore::create(&args, &optional_args);
    assert!(result.is_err());
    assert_eq!(
        result.unwrap_err(),
        "Unknown optional command for delete-score --unknown."
    );
}

#[test]
fn decode_id_reads_a_well_formed_identifier() {
    let args = vec!["3990e3b4-123d-4d7f-9461-335269897805".to_string()];
    let command = DeleteScore::create(&args, &OptArgs::new()).unwrap();

    let value = command.decode_id().unwrap();
    let expected = uuid::Uuid::parse_str("3990e3b4-123d-4d7f-9461-335269897805")
        .unwrap()
        .as_u128();
    assert_eq!(value, expected);
}

#[test]
fn decode_id_rejects_a_malformed_identifier() {
    let args = vec!["id-not-uuid".to_string()];
    let command = DeleteScore::create(&args, &OptArgs::new()).unwrap();

    let result = command.decode_id();
    assert!(result.is_err());
    assert_eq!(result.unwrap_err(), "Impossible to decode id id-not-uuid.");
}

#[test]
fn not_found_error_names_the_identifier() {
    let args = vec!["3990e3b4-123d-4d7f-9461-335269897805".to_string()];
    let command = DeleteScore::create(&args, &OptArgs::new()).unwrap();
    assert_eq!(
        command.not_found_error(),
        "Game with id 3990e3b4-123d-4d7f-9461-335269897805 not found."
    );
}

#[test]
fn recorded_score_is_deleted_by_its_fresh_id_and_gone_afterwards() {
    let args = vec!["catan".to_string(), "alice::10".to_string()];
    let command = AddScore::create(&args, &OptArgs::new()).unwrap();

    let mut games = command.apply(None);
    let id = command.game.get_id();
    assert_eq!(games.get_games().len(), 1);

    let removed = games.delete(id).unwrap();
    assert_eq!(removed.get_id(), id);
    assert_eq!(games.get_games().len(), 0);

    let second = games.delete(id);
    assert!(second.is_err());
    assert_eq!(second.unwrap_err(), "Game not found.");
}
