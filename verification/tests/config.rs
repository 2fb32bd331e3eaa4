use agentx_ifstack::config::{
    load, parse_arguments, selected_path, validate, Action, Arguments, Config, FileOutcome,
    LogLevel, DEFAULT_PATH,
};

fn arguments(texts: &[&str]) -> Vec<Vec<u8>> {
    texts.iter().map(|text| text.as_bytes().to_vec()).collect()
}

fn asked(texts: &[&str]) -> Arguments {
    parse_arguments(&arguments(texts)).unwrap()
}

fn default_path() -> Vec<u8> {
    b"/nowhere/absent.toml".to_vec()
}

fn run(texts: &[&str], file: FileOutcome) -> Config {
    match load(asked(texts), &default_path(), file).unwrap() {
        Action::Run(config) => config,
        action => panic!("expected configuration, got {action:?}"),
    }
}

fn file() -> Config {
    Config {
        socket: b"file-socket".to_vec(),
        priority: 1,
        ..Config::default()
    }
}

#[test]
fn absent_default_uses_built_in_defaults() {
    let config = run(&[], FileOutcome::Absent("absent".to_owned()));
    assert_eq!(config.socket, b"/var/agentx/master");
    assert_eq!(config.reconcile, 3600);
    assert_eq!(config.priority, 127);
    assert_eq!(config.log_level.filter(), log::LevelFilter::Info);
}

#[test]
fn absent_explicit_file_is_an_error_even_at_default_path() {
    let error = load(
        asked(&["--config", "/nowhere/absent.toml"]),
        &default_path(),
        FileOutcome::Absent("No such file".to_owned()),
    )
    .unwrap_err();
    assert!(error.contains("absent.toml"), "{error}");
    assert_eq!(error, "config /nowhere/absent.toml: No such file");
}

#[test]
fn cli_socket_overrides_file_in_either_argument_order() {
    for texts in [
        ["--config", "config.toml", "--socket", "cli-socket"],
        ["--socket", "cli-socket", "--config", "config.toml"],
    ] {
        let config = run(&texts, FileOutcome::Said(file()));
        assert_eq!(config.socket, b"cli-socket");
        assert_eq!(config.priority, 1);
        assert_eq!(config.reconcile, 3600);
    }
}

#[test]
fn cli_socket_overrides_an_empty_file_socket() {
    let empty = || Config {
        socket: vec![],
        ..file()
    };
    let config = run(&["--socket", "master"], FileOutcome::Said(empty()));
    assert_eq!(config.socket, b"master");
    let error = load(asked(&[]), &default_path(), FileOutcome::Said(empty())).unwrap_err();
    assert_eq!(error, "socket must not be empty");
}

#[test]
fn help_and_version_exit_without_reading_configuration() {
    for (option, help) in [("--help", true), ("-h", true), ("--version", false)] {
        let arguments = asked(&["--config", "absent.toml", option, "--unknown"]);
        let action = load(
            arguments,
            &default_path(),
            FileOutcome::Unreadable("unread".to_owned()),
        )
        .unwrap();
        if help {
            assert!(matches!(action, Action::Help));
        } else {
            assert!(matches!(action, Action::Version));
        }
    }
}

#[test]
fn invalid_cli_arguments_exit_nonzero() {
    for (texts, expected) in [
        (vec!["--config"], "--config requires a path"),
        (vec!["--socket"], "--socket requires a path"),
        (vec!["--socket", ""], "--socket requires a path"),
        (vec!["--config", "--socket"], "--config requires a path"),
        (vec!["--unknown"], "Unknown argument: --unknown"),
    ] {
        assert_eq!(
            parse_arguments(&arguments(&texts)).unwrap_err(),
            expected
        );
    }
    let invalid = vec![vec![b'-', 0xff, b'x']];
    assert_eq!(
        parse_arguments(&invalid).unwrap_err(),
        "Unknown argument: -\u{fffd}x"
    );
}

#[test]
fn a_later_value_replaces_an_earlier_one() {
    match asked(&["--socket", "a", "--config", "-", "--socket", "b"]) {
        Arguments::Run { path, socket } => {
            assert_eq!(path, Some(b"-".to_vec()));
            assert_eq!(socket, Some(b"b".to_vec()));
        }
        arguments => panic!("expected a run, got {arguments:?}"),
    }
}

#[test]
fn what_cannot_be_read_or_understood_is_an_error() {
    for (texts, outcome, expected) in [
        (
            vec![],
            FileOutcome::Unreadable("permission denied".to_owned()),
            "config /nowhere/absent.toml: permission denied",
        ),
        (
            vec![],
            FileOutcome::Invalid("unknown field `refresh`".to_owned()),
            "/nowhere/absent.toml: unknown field `refresh`",
        ),
        (
            vec!["--config", "mine.toml"],
            FileOutcome::Invalid("bad".to_owned()),
            "mine.toml: bad",
        ),
        (
            vec![],
            FileOutcome::Said(Config {
                reconcile: 0,
                ..file()
            }),
            "reconcile must be at least 1 second",
        ),
        (
            vec![],
            FileOutcome::Said(Config {
                priority: 0,
                ..file()
            }),
            "priority must be between 1 and 255",
        ),
    ] {
        let error = load(asked(&texts), &default_path(), outcome).unwrap_err();
        assert_eq!(error, expected);
    }
    assert!(validate(&file()).is_ok());
}

#[test]
fn the_named_file_is_the_one_to_read() {
    assert_eq!(DEFAULT_PATH, "/etc/agentx-ifstack.toml");
    let fallback = b"fallback".to_vec();
    assert_eq!(selected_path(&None, &fallback), b"fallback");
    assert_eq!(selected_path(&Some(b"named".to_vec()), &fallback), b"named");
}

#[test]
fn every_level_has_its_filter() {
    for (level, filter) in [
        (LogLevel::Error, log::LevelFilter::Error),
        (LogLevel::Warn, log::LevelFilter::Warn),
        (LogLevel::Info, log::LevelFilter::Info),
        (LogLevel::Debug, log::LevelFilter::Debug),
        (LogLevel::Trace, log::LevelFilter::Trace),
    ] {
        assert_eq!(level.filter(), filter);
    }
}
