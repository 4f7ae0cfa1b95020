use lof::cli::get_flag_value;

#[test]
fn test_get_flag_value_returns_the_following_argument() {
    let args: Vec<String> = vec![
        "run".to_string(),
        ".".to_string(),
        "--config".to_string(),
        "path/to/config.yml".to_string(),
    ];

    assert_eq!(
        get_flag_value(&args, "--config"),
        Some("path/to/config.yml".to_string()),
        "must return the value following the flag, not the flag itself"
    );
    assert_eq!(
        get_flag_value(&args, "--missing"),
        None,
        "must return None for a flag that isn't present"
    );
    assert_eq!(
        get_flag_value(&vec!["run".to_string(), "--config".to_string()], "--config"),
        None,
        "must return None rather than panic when the flag is the last argument with no value after it"
    );
}

#[test]
fn flag_value_is_taken_from_the_first_occurrence() {
    let args: Vec<String> = vec![
        "--level".to_string(),
        "a".to_string(),
        "--level".to_string(),
        "b".to_string(),
    ];
    assert_eq!(get_flag_value(&args, "--level"), Some("a".to_string()));
    assert_eq!(get_flag_value(&[], "--level"), None);
}
