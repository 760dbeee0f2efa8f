use lyrical::cli::{is_blank, sanitize, split_groups, Args, InvalidArgsError};

fn fake_args(args: &[&str]) -> Vec<String> {
    let mut all = vec![String::new()];
    all.extend(args.iter().map(|a| a.to_string()));
    all
}

#[test]
fn error_on_missing_args() {
    assert_eq!(
        Args::parse(fake_args(&[""])).err(),
        Some(InvalidArgsError::MissingArgument)
    );
}

#[test]
fn can_parse_arg_with_value() {
    assert_eq!(
        Args::parse(fake_args(&["--title"])),
        Err(InvalidArgsError::MissingValue("--title".to_string()))
    );
    assert!(Args::parse(fake_args(&["--title", "test"])).is_ok());
}

#[test]
fn can_parse_multiple_args_with_value() {
    assert_eq!(
        Args::parse(fake_args(&["--title", "test", "--artist"])),
        Err(InvalidArgsError::MissingValue("--artist".to_string()))
    );

    assert_eq!(
        Args::parse(fake_args(&["--title", "--artist", "test"])),
        Err(InvalidArgsError::MissingValue("--title".to_string()))
    );

    assert_eq!(
        Args::parse(fake_args(&["--title", "test", "--artist", "test"])),
        Ok(Args {
            title: "test".to_string(),
            artist: "test".to_string(),
            url: None,
            list: false,
            max_results: None,
            help: false
        })
    );

    assert_eq!(
        Args::parse(fake_args(&["--url", "--title", "test", "--artist", "test"])),
        Err(InvalidArgsError::MissingValue("--url".to_string()))
    );

    assert_eq!(
        Args::parse(fake_args(&[
            "--url", "test", "--title", "test", "--artist", "test"
        ])),
        Ok(Args {
            title: "test".to_string(),
            artist: "test".to_string(),
            url: Some("test".to_string()),
            list: false,
            max_results: None,
            help: false
        })
    );
}

#[test]
fn can_parse_arg_with_optional_value() {
    assert_eq!(
        Args::parse(fake_args(&[
            "--list", "--title", "test", "--artist", "test"
        ])),
        Ok(Args {
            title: "test".to_string(),
            artist: "test".to_string(),
            url: None,
            list: true,
            max_results: None,
            help: false
        })
    );

    assert_eq!(
        Args::parse(fake_args(&[
            "--list", "30", "--title", "test", "--artist", "test"
        ])),
        Ok(Args {
            title: "test".to_string(),
            artist: "test".to_string(),
            url: None,
            list: true,
            max_results: Some(30),
            help: false
        })
    );

    assert!(matches!(
        Args::parse(fake_args(&["--list", "notAnumber"])),
        Err(InvalidArgsError::InvalidValue(_))
    ));
}

#[test]
fn no_title_nor_url_is_missing_argument() {
    for args in [
        &["--artist", "someone"][..],
        &["--help"][..],
        &["--list", "5"][..],
        &["--list", "--artist", "x"][..],
    ] {
        assert_eq!(
            Args::parse(fake_args(args)),
            Err(InvalidArgsError::MissingArgument)
        );
    }
}

#[test]
fn blank_input_shows_usage() {
    assert!(is_blank(&fake_args(&[])));
    assert!(is_blank(&fake_args(&["", "  ", "\t"])));
    assert!(!is_blank(&fake_args(&["--help"])));
    assert!(is_blank(&vec![]));
    assert_eq!(
        Args::parse(fake_args(&["   "])),
        Err(InvalidArgsError::MissingArgument)
    );
    assert_eq!(Args::parse(vec![]), Err(InvalidArgsError::MissingArgument));
}

#[test]
fn lone_value_flags_miss_their_value() {
    for flag in ["--title", "--artist", "--url"] {
        assert_eq!(
            Args::parse(fake_args(&[flag])),
            Err(InvalidArgsError::MissingValue(flag.to_string()))
        );
        assert_eq!(
            Args::parse(fake_args(&[flag, "--list"])),
            Err(InvalidArgsError::MissingValue(flag.to_string()))
        );
    }
}

#[test]
fn list_with_bad_count_is_invalid_value() {
    for value in ["notAnumber", "-3", "3.5", "99999999999999999999999"] {
        assert_eq!(
            Args::parse(fake_args(&["--list", value, "--title", "t"])),
            Err(InvalidArgsError::InvalidValue((
                "list".to_string(),
                value.to_string()
            )))
        );
    }
}

#[test]
fn title_and_artist_parse() {
    assert_eq!(
        Args::parse(fake_args(&["--title", "test", "--artist", "test"])),
        Ok(Args {
            title: "test".to_string(),
            artist: "test".to_string(),
            url: None,
            list: false,
            max_results: None,
            help: false
        })
    );
}

#[test]
fn list_count_parses() {
    let parsed = Args::parse(fake_args(&["--list", "30", "--title", "test", "--artist", "test"]))
        .unwrap();
    assert_eq!(parsed.max_results, Some(30));
    assert!(parsed.list);
    let plus = Args::parse(fake_args(&["--list", "+7", "--title", "t"])).unwrap();
    assert_eq!(plus.max_results, Some(7));
}

#[test]
fn arguments_are_trimmed_and_last_write_wins() {
    let parsed = Args::parse(fake_args(&[
        "  --title ", " first ", "", "--title", "second", "--help",
    ]))
    .unwrap();
    assert_eq!(parsed.title, "second");
    assert!(parsed.help);
    assert_eq!(parsed.url, None);
}

#[test]
fn url_alone_parses() {
    let parsed = Args::parse(fake_args(&["--url", "https://example.com/a"])).unwrap();
    assert_eq!(parsed.url, Some("https://example.com/a".to_string()));
    assert_eq!(parsed.title, "");
}

#[test]
fn unknown_flags_are_refused() {
    assert_eq!(
        Args::parse(fake_args(&["--colour"])),
        Err(InvalidArgsError::Unknown("--colour".to_string()))
    );
    assert_eq!(
        Args::parse(fake_args(&["--colour", "red"])),
        Err(InvalidArgsError::Unknown("colour".to_string()))
    );
    assert_eq!(
        Args::parse(fake_args(&["--title", "a", "b"])),
        Err(InvalidArgsError::Unknown("b".to_string()))
    );
}

#[test]
fn repeated_dashes_are_stripped() {
    let parsed = Args::parse(fake_args(&["----title", "x"])).unwrap();
    assert_eq!(parsed.title, "x");
}

#[test]
fn sanitize_and_group() {
    let clean = sanitize(&fake_args(&[" --a ", "", "v", "--b", "--c", "w", "x"]));
    assert_eq!(clean, vec!["--a", "v", "--b", "--c", "w", "x"]);
    let groups = split_groups(&clean);
    assert_eq!(
        groups,
        vec![
            vec!["--a".to_string(), "v".to_string()],
            vec!["--b".to_string()],
            vec!["--c".to_string(), "w".to_string()],
            vec!["x".to_string()],
        ]
    );
}

#[test]
fn error_messages() {
    assert_eq!(
        InvalidArgsError::MissingArgument.message(),
        "At least one of `--title` or `--url` arguments is required"
    );
    assert_eq!(
        InvalidArgsError::Unknown("x".to_string()).message(),
        "Argument `x` unknown"
    );
    assert_eq!(
        InvalidArgsError::MissingValue("--title".to_string()).message(),
        "Argument `--title` requires a value"
    );
    assert_eq!(
        InvalidArgsError::InvalidValue(("list".to_string(), "z".to_string())).message(),
        "Argument `list` has invalid value z"
    );
}
