use okf::cli::{api_base_url_for, cli_from_outcome, Cli, CliErrorKind, ClapOutcome, Command, MatchedValue};
use okf::launcher;

fn args(v: &[&str]) -> Vec<String> {
    v.iter().map(|s| s.to_string()).collect()
}

#[test]
fn lib_parses_server_subcommand() {
    let cli = Cli::try_parse_from(&args(&["okf", "server", "--bind", "127.0.0.1:9000"])).unwrap();
    match cli.command {
        Some(Command::Server(args)) => assert_eq!(args.bind, "127.0.0.1:9000"),
        _ => panic!("expected server subcommand"),
    }
}

#[test]
fn lib_parses_gui_subcommand_with_defaults() {
    let cli = Cli::try_parse_from(&args(&["okf", "gui"])).unwrap();
    match cli.command {
        Some(Command::Gui(args)) => {
            assert_eq!(args.bind, "127.0.0.1:8081");
            assert_eq!(args.api_base_url, "http://127.0.0.1:8080");
        }
        _ => panic!("expected gui subcommand"),
    }
}

#[test]
fn lib_parses_search_subcommand_with_defaults() {
    let cli = Cli::try_parse_from(&args(&["okf", "search"])).unwrap();
    match cli.command {
        Some(Command::Search(args)) => {
            assert_eq!(args.bind, "127.0.0.1:8082");
            assert_eq!(args.data, "./docs");
        }
        _ => panic!("expected search subcommand"),
    }
}

#[test]
fn lib_defaults_to_no_subcommand() {
    let cli = Cli::try_parse_from(&args(&["okf"])).unwrap();
    assert!(cli.command.is_none());
    assert_eq!(cli.data, "./docs");
    assert_eq!(cli.bind, "127.0.0.1:8080");
}

#[test]
fn parses_install_subcommand_with_default_dir() {
    let cli = Cli::try_parse_from(&args(&["okf", "install"])).unwrap();
    match cli.command {
        Some(Command::Install(args)) => {
            assert_eq!(args.dir, ".agents/skills");
        }
        _ => panic!("expected install subcommand"),
    }
}

#[test]
fn parses_install_subcommand_with_dir() {
    let cli = Cli::try_parse_from(&args(&["okf", "install", "--dir", "/tmp/skills"])).unwrap();
    match cli.command {
        Some(Command::Install(args)) => assert_eq!(args.dir, "/tmp/skills"),
        _ => panic!("expected install subcommand"),
    }
}

#[test]
fn launcher_parses_server_subcommand() {
    let cli = launcher::Cli::try_parse_from(&args(&["okf", "server", "--bind", "127.0.0.1:9000"])).unwrap();
    match cli.command {
        Some(launcher::Command::Server(args)) => assert_eq!(args.bind, "127.0.0.1:9000"),
        _ => panic!("expected server subcommand"),
    }
}

#[test]
fn launcher_parses_gui_subcommand_with_defaults() {
    let cli = launcher::Cli::try_parse_from(&args(&["okf", "gui"])).unwrap();
    match cli.command {
        Some(launcher::Command::Gui(args)) => {
            assert_eq!(args.bind, "127.0.0.1:8081");
            assert_eq!(args.api_base_url, "http://127.0.0.1:8080");
        }
        _ => panic!("expected gui subcommand"),
    }
}

#[test]
fn launcher_parses_search_subcommand_with_defaults() {
    let cli = launcher::Cli::try_parse_from(&args(&["okf", "search"])).unwrap();
    match cli.command {
        Some(launcher::Command::Search(args)) => {
            assert_eq!(args.bind, "127.0.0.1:8082");
            assert_eq!(args.data, "./docs");
        }
        _ => panic!("expected search subcommand"),
    }
}

#[test]
fn launcher_defaults_to_no_subcommand() {
    let cli = launcher::Cli::try_parse_from(&args(&["okf"])).unwrap();
    assert!(cli.command.is_none());
}

fn kind_of(r: Result<Cli, okf::cli::CliError>) -> CliErrorKind {
    match r {
        Err(e) => e.kind,
        Ok(c) => panic!("expected an error, got {c:?}"),
    }
}

#[test]
fn launcher_has_no_install_and_no_own_options() {
    match launcher::Cli::try_parse_from(&args(&["okf", "install"])) {
        Err(e) => {
            assert_eq!(e.kind, CliErrorKind::InvalidSubcommand);
            assert!(e.message.contains("install"));
        }
        Ok(c) => panic!("expected an error, got {c:?}"),
    }
    match launcher::Cli::try_parse_from(&args(&["okf", "--data", "x"])) {
        Err(e) => assert_eq!(e.kind, CliErrorKind::UnknownArgument),
        Ok(c) => panic!("expected an error, got {c:?}"),
    }
}

#[test]
fn options_take_attached_or_following_values() {
    let cli = Cli::try_parse_from(&args(&["okf", "--data=./bundle", "--bind", "0.0.0.0:1", "gui", "--api-base-url=http://x"])).unwrap();
    assert_eq!(cli.data, "./bundle");
    assert_eq!(cli.bind, "0.0.0.0:1");
    match cli.command {
        Some(Command::Gui(a)) => {
            assert_eq!(a.api_base_url, "http://x");
            assert_eq!(a.bind, "127.0.0.1:8081");
        }
        _ => panic!("expected gui subcommand"),
    }
}

#[test]
fn rejects_bad_command_lines() {
    assert_eq!(kind_of(Cli::try_parse_from(&args(&["okf", "serve"]))), CliErrorKind::InvalidSubcommand);
    assert_eq!(kind_of(Cli::try_parse_from(&args(&["okf", "--bind"]))), CliErrorKind::InvalidValue);
    assert_eq!(kind_of(Cli::try_parse_from(&args(&["okf", "--bind", "a", "--bind", "b"]))), CliErrorKind::ArgumentConflict);
    assert_eq!(kind_of(Cli::try_parse_from(&args(&["okf", "--port", "1"]))), CliErrorKind::UnknownArgument);
    assert_eq!(kind_of(Cli::try_parse_from(&args(&["okf", "gui", "--data", "x"]))), CliErrorKind::UnknownArgument);
    assert_eq!(kind_of(Cli::try_parse_from(&args(&["okf", "server", "extra"]))), CliErrorKind::UnknownArgument);
    assert_eq!(kind_of(Cli::try_parse_from(&args(&["okf", "-x"]))), CliErrorKind::UnknownArgument);
    match Cli::try_parse_from(&args(&["okf", "--port", "1"])) {
        Err(e) => {
            assert!(e.message.contains("--port"));
            assert!(!e.is_request());
        }
        Ok(c) => panic!("expected an error, got {c:?}"),
    }
}

#[test]
fn help_and_version() {
    match Cli::try_parse_from(&args(&["okf", "--help"])) {
        Err(e) => {
            assert_eq!(e.kind, CliErrorKind::DisplayHelp);
            assert!(e.is_request());
            assert!(e.message.contains("Unified OKF launcher"));
            assert!(e.message.contains("Usage: okf"));
            assert!(e.message.contains("[default: ./docs]"));
        }
        Ok(c) => panic!("expected help, got {c:?}"),
    }
    assert_eq!(kind_of(Cli::try_parse_from(&args(&["okf", "server", "-h"]))), CliErrorKind::DisplayHelp);
    assert_eq!(kind_of(Cli::try_parse_from(&args(&["okf", "help"]))), CliErrorKind::DisplayHelp);
    match Cli::try_parse_from(&args(&["okf", "-V"])) {
        Err(e) => {
            assert_eq!(e.kind, CliErrorKind::DisplayVersion);
            assert_eq!(e.message.trim(), "okf 0.1.0");
        }
        Ok(c) => panic!("expected the version, got {c:?}"),
    }
    assert_eq!(kind_of(Cli::try_parse_from(&args(&["okf", "server", "--version"]))), CliErrorKind::UnknownArgument);
}

#[test]
fn dash_alone_is_a_value_and_double_dash_ends_options() {
    let cli = Cli::try_parse_from(&args(&["okf", "--data", "-", "--"])).unwrap();
    assert_eq!(cli.data, "-");
    assert!(cli.command.is_none());
}

fn value(id: &str, v: Option<&str>) -> MatchedValue {
    MatchedValue { id: id.to_string(), value: v.map(|s| s.to_string()) }
}

#[test]
fn outcomes_become_command_lines() {
    let o = ClapOutcome::Matched {
        values: vec![value("data", Some("./b")), value("bind", None)],
        subcommand: Some(("search".to_string(), vec![value("bind", Some("0.0.0.0:9")), value("bind", Some("ignored"))])),
    };
    let cli = cli_from_outcome(o).unwrap();
    assert_eq!(cli.data, "./b");
    assert_eq!(cli.bind, "127.0.0.1:8080");
    match cli.command {
        Some(Command::Search(a)) => {
            assert_eq!(a.data, "./docs");
            assert_eq!(a.bind, "0.0.0.0:9");
        }
        _ => panic!("expected search subcommand"),
    }
    let unknown = ClapOutcome::Matched { values: vec![], subcommand: Some(("deploy".to_string(), vec![])) };
    match cli_from_outcome(unknown) {
        Err(e) => {
            assert_eq!(e.kind, CliErrorKind::InvalidSubcommand);
            assert_eq!(e.message, "deploy");
        }
        Ok(c) => panic!("expected an error, got {c:?}"),
    }
    let failed = ClapOutcome::Failed { kind: CliErrorKind::TooManyValues, message: "no".to_string() };
    match cli_from_outcome(failed) {
        Err(e) => {
            assert_eq!(e.kind, CliErrorKind::TooManyValues);
            assert_eq!(e.message, "no");
        }
        Ok(c) => panic!("expected an error, got {c:?}"),
    }
    let install = ClapOutcome::Matched { values: vec![], subcommand: Some(("install".to_string(), vec![])) };
    assert!(matches!(launcher::launcher_from_outcome(install), Err(e) if e.kind == CliErrorKind::InvalidSubcommand));
    let bare = ClapOutcome::Matched { values: vec![], subcommand: None };
    assert!(launcher::launcher_from_outcome(bare).unwrap().command.is_none());
}

#[test]
fn loopback_api_url_uses_the_port_of_the_bind_address() {
    assert_eq!(api_base_url_for("0.0.0.0:9000"), "http://127.0.0.1:9000");
    assert_eq!(api_base_url_for("8080"), "http://127.0.0.1:8080");
}

#[test]
fn compact_launcher_plan() {
    let plan = launcher::launch_plan();
    assert_eq!(plan.data, "./docs");
    assert_eq!(plan.server_bind, "127.0.0.1:8080");
    assert_eq!(plan.gui_bind, "127.0.0.1:8081");
    assert_eq!(plan.api_base_url, "http://127.0.0.1:8080");
    assert_eq!(plan.search_bind, "127.0.0.1:8082");
}
