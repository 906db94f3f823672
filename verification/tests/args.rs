use score_cli::args::{get_optional_args, get_positional_args, parse_args, Command, CommandType};

#[test]
fn parse_args_correct_input() {
    let args = vec![
        "player-name".to_string(),
        "--save-dir".to_string(),
        "path/to/dir".to_string(),
    ];

    let result = parse_args(&args);
    assert!(result.is_ok());

    let (positional, optional) = result.unwrap();
    assert_eq!(positional, vec!["player-name"]);
    assert_eq!(optional.get("--save-dir"), Some("path/to/dir".to_string()));
}

#[test]
fn parse_args_empty_input() {
    let args = vec![];
    let result = parse_args(&args);
    assert!(result.is_ok());

    let (positional, optional) = result.unwrap();
    assert!(positional.is_empty());
    assert!(optional.is_empty());
}

#[test]
fn parse_args_only_positional() {
    let args = vec!["player-name".to_string()];
    let result = parse_args(&args);
    assert!(result.is_ok());

    let (positional, optional) = result.unwrap();
    assert_eq!(positional, vec!["player-name"]);
    assert!(optional.is_empty());
}

#[test]
fn parse_args_missing_optional_value() {
    let args = vec![
        "player-name".to_string(),
        "--save-dir".to_string(),
        "--other".to_string(),
    ];
    let result = parse_args(&args);
    assert!(result.is_err());

    let err = result.unwrap_err();
    assert_eq!(err, "Missing value for optional argument --save-dir");
}

#[test]
fn parse_args_unknown_optional_argument() {
    let args = vec![
        "player-name".to_string(),
        "--unknown-flag".to_string(),
        "value".to_string(),
    ];
    let result = parse_args(&args);
    assert!(result.is_err());

    let err = result.unwrap_err();
    assert_eq!(err, "Unknown optional argument --unknown-flag");
}

#[test]
fn get_positional_args_with_flag_in_middle() {
    let args = vec![
        "player-name1".to_string(),
        "--save-dir".to_string(),
        "player-name2".to_string(),
    ];
    let positional_args = get_positional_args(&args);
    assert_eq!(positional_args, vec!["player-name1"]);
}

#[test]
fn get_positional_args_only_optional_arguments() {
    let args = vec!["--save-dir".to_string(), "path".to_string()];
    let positional_args = get_positional_args(&args);
    assert!(positional_args.is_empty());
}

#[test]
fn get_positional_args_empty_input() {
    let args = vec![];
    let positional_args = get_positional_args(&args);
    assert_eq!(positional_args.len(), 0);
}

#[test]
fn get_positional_args_standard_behaviour() {
    let args = vec![
        "player-name".to_string(),
        "--save-dir".to_string(),
        "path/to/dir".to_string(),
    ];

    let expected_positional_args = vec!["player-name".to_string()];
    let positional_args = get_positional_args(&args);

    assert_eq!(expected_positional_args.len(), positional_args.len());

    for (expected, actual) in expected_positional_args.iter().zip(positional_args.iter()) {
        assert_eq!(expected, actual);
    }
}

#[test]
fn get_positional_args_multiple_before_flag() {
    let args = vec![
        "player-name1".to_string(),
        "player-name2".to_string(),
        "--save-dir".to_string(),
        "path".to_string(),
    ];
    let positional_args = get_positional_args(&args);
    assert_eq!(positional_args, vec!["player-name1", "player-name2"]);
}

#[test]
fn get_positional_args_no_optional_args() {
    let args = vec!["player-name1".to_string(), "player-name2".to_string()];
    let positional_args = get_positional_args(&args);
    assert_eq!(positional_args, vec!["player-name1", "player-name2"]);
}

#[test]
fn get_optional_args_unknown_optional_argument() {
    let args = vec!["--unknown-argument".to_string()];
    let optional_args_result = get_optional_args(&args);

    assert!(optional_args_result.is_err());

    let err_msg = optional_args_result.unwrap_err();

    assert_eq!(err_msg, "Unknown optional argument --unknown-argument");
}

#[test]
fn get_optional_args_missing_value_for_optional_arguments() {
    let args = vec!["--save-dir".to_string()];
    let optional_args_result = get_optional_args(&args);

    assert!(optional_args_result.is_err());

    let err_msg = optional_args_result.unwrap_err();

    assert_eq!(err_msg, "Missing value for optional argument --save-dir");
}

#[test]
fn get_optional_args_consecutive_optional_commands() {
    let args = vec![
        "--save-dir".to_string(),
        "--another-optional-command".to_string(),
    ];
    let optional_args_result = get_optional_args(&args);

    assert!(optional_args_result.is_err());

    let err_msg = optional_args_result.unwrap_err();

    assert_eq!(err_msg, "Missing value for optional argument --save-dir");
}

#[test]
fn get_optional_args_standard_behaviour() {
    let args = vec!["--save-dir".to_string(), "path/to/dir".to_string()];
    let optional_args_result = get_optional_args(&args);

    assert!(optional_args_result.is_ok());

    let optional_args = optional_args_result.unwrap();
    let save_dir = optional_args.get("--save-dir");

    assert!(save_dir.is_some());
    assert_eq!(save_dir.unwrap(), "path/to/dir");
}

#[test]
fn command_parse_reads_tag_and_arguments() {
    let args = vec![
        "add-player".to_string(),
        "player-name".to_string(),
        "--save-dir".to_string(),
        "path".to_string(),
    ];
    let command = Command::parse(&args).unwrap();
    assert!(matches!(command.get_command(), CommandType::AddPlayer));
    assert_eq!(command.get_args(), vec!["player-name"]);
    assert_eq!(
        command.get_optional_args().get("--save-dir"),
        Some("path".to_string())
    );
}

#[test]
fn command_parse_unknown_name_is_invalid() {
    let args = vec!["frobnicate".to_string()];
    let command = Command::parse(&args).unwrap();
    assert!(matches!(command.get_command(), CommandType::Invalid));
}

#[test]
fn time_flag_is_tokenized_for_add_score() {
    let args = vec!["--time".to_string(), "2025-01-01".to_string()];
    let optional = get_optional_args(&args).unwrap();
    assert_eq!(optional.get("--time"), Some("2025-01-01".to_string()));
}
