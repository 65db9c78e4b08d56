use maze_runner::parse::parse_runners;
use maze_runner::resolve::resolve_config_path;
use maze_runner::structs::{MazeRunner, MazeRunnerError, MazeRunnerErrorKind, MazeRunners};

fn catalog(entries: Vec<(&str, Vec<&str>)>) -> MazeRunners {
    let runners = entries
        .into_iter()
        .map(|(name, command)| {
            MazeRunner::new(
                name.to_string(),
                command.into_iter().map(|c| c.to_string()).collect(),
            )
        })
        .collect();
    MazeRunners { runners }
}

#[test]
fn dev_flag_wins_over_everything() {
    let p = resolve_config_path(true, true, true, Some("custom.toml".to_string()));
    assert_eq!(p, "dev.runner.toml");
    let p = resolve_config_path(true, true, false, None);
    assert_eq!(p, "dev.runner.toml");
}

#[test]
fn test_flag_wins_over_release_and_path() {
    let p = resolve_config_path(false, true, true, Some("custom.toml".to_string()));
    assert_eq!(p, "test.runner.toml");
}

#[test]
fn release_flag_wins_over_path() {
    let p = resolve_config_path(false, false, true, Some("custom.toml".to_string()));
    assert_eq!(p, "release.runner.toml");
}

#[test]
fn path_wins_over_default() {
    let p = resolve_config_path(false, false, false, Some("custom.toml".to_string()));
    assert_eq!(p, "custom.toml");
}

#[test]
fn nothing_set_reads_the_default() {
    let p = resolve_config_path(false, false, false, None);
    assert_eq!(p, "runner.toml");
}

#[test]
fn parse_keeps_count_and_order() {
    let text = "[[runners]]\nname = \"build\"\ncommand = [\"cargo\", \"build\"]\n\n\
                [[runners]]\nname = \"ping\"\ncommand = [\"echo\", \"hi\"]\n";
    let cat = parse_runners(text).unwrap();
    assert_eq!(cat.runners.len(), 2);
    assert_eq!(cat.runners[0].name(), "build");
    assert_eq!(cat.runners[0].command(), &vec!["cargo".to_string(), "build".to_string()]);
    assert_eq!(cat.runners[1].name(), "ping");
    assert_eq!(cat.runners[1].command(), &vec!["echo".to_string(), "hi".to_string()]);
}

#[test]
fn parse_accepts_inline_tables() {
    let text = "runners = [ { name = \"a\", command = [\"echo\"] } ]\n";
    let cat = parse_runners(text).unwrap();
    assert_eq!(cat.runners.len(), 1);
    assert_eq!(cat.runners[0].name(), "a");
}

#[test]
fn parse_accepts_an_empty_list() {
    let cat = parse_runners("runners = []\n").unwrap();
    assert_eq!(cat.runners.len(), 0);
}

#[test]
fn parse_ignores_unknown_keys() {
    let text = "extra = 1\n\n[[runners]]\nname = \"a\"\ncommand = [\"echo\"]\nnote = \"x\"\n";
    let cat = parse_runners(text).unwrap();
    assert_eq!(cat.runners.len(), 1);
    assert_eq!(cat.runners[0].name(), "a");
    assert_eq!(cat.runners[0].command(), &vec!["echo".to_string()]);
}

fn expect_toml_error(r: Result<MazeRunners, MazeRunnerError>) {
    let e = r.err().expect("the text must be rejected");
    assert!(matches!(e.kind(), MazeRunnerErrorKind::Toml));
}

#[test]
fn parse_rejects_a_missing_command_field() {
    expect_toml_error(parse_runners("[[runners]]\nname = \"a\"\n"));
}

#[test]
fn parse_rejects_a_missing_name_field() {
    expect_toml_error(parse_runners("[[runners]]\ncommand = [\"echo\"]\n"));
}

#[test]
fn parse_rejects_runners_that_are_no_array() {
    expect_toml_error(parse_runners("runners = 3\n"));
}

#[test]
fn parse_rejects_a_missing_runners_key() {
    expect_toml_error(parse_runners("other = []\n"));
}

#[test]
fn parse_rejects_a_non_string_command_element() {
    expect_toml_error(parse_runners("[[runners]]\nname = \"a\"\ncommand = [\"echo\", 3]\n"));
}

#[test]
fn parse_rejects_a_non_string_name() {
    expect_toml_error(parse_runners("[[runners]]\nname = 3\ncommand = [\"echo\"]\n"));
}

#[test]
fn parse_rejects_invalid_toml_text() {
    expect_toml_error(parse_runners("this is not toml ["));
}

#[test]
fn shape_errors_carry_the_catalog_message() {
    let e = parse_runners("runners = 3\n").err().unwrap();
    assert_eq!(e.message(), "TOML Error: the text does not describe a runner catalog");
}

#[test]
fn lookup_finds_a_named_runner() {
    let cat = catalog(vec![("build", vec!["cargo", "build"]), ("ping", vec!["echo", "hi"])]);
    let found = cat.lookup("build").expect("build must be found");
    assert_eq!(found.name(), "build");
    assert_eq!(found.command(), &vec!["cargo".to_string(), "build".to_string()]);
}

#[test]
fn lookup_misses_an_absent_name() {
    let cat = catalog(vec![("build", vec!["cargo", "build"])]);
    assert!(cat.lookup("missing-name").is_none());
}

#[test]
fn lookup_is_exact_and_case_sensitive() {
    let cat = catalog(vec![("build", vec!["cargo"])]);
    assert!(cat.lookup("Build").is_none());
    assert!(cat.lookup("buil").is_none());
    assert!(cat.lookup("builds").is_none());
}

#[test]
fn lookup_takes_the_first_of_equal_names() {
    let cat = catalog(vec![("a", vec!["first"]), ("a", vec!["second"])]);
    let found = cat.lookup("a").unwrap();
    assert_eq!(found.command(), &vec!["first".to_string()]);
}

#[test]
fn select_runner_reports_not_found_without_spawning() {
    let cat = catalog(vec![("build", vec!["cargo", "build"])]);
    let e = cat.select_runner("missing-name").err().expect("must fail");
    assert!(matches!(e.kind(), MazeRunnerErrorKind::Unplanned));
    assert_eq!(e.message(), "Runner not found");
}

#[test]
fn select_runner_hands_out_the_named_entry() {
    let cat = catalog(vec![("build", vec!["cargo", "build"])]);
    let r = cat.select_runner("build").unwrap();
    assert_eq!(r.name(), "build");
}

#[test]
fn errors_keep_kind_and_message() {
    let e = MazeRunnerError::new(MazeRunnerErrorKind::Io, "IO Error: gone".to_string());
    assert!(matches!(e.kind(), MazeRunnerErrorKind::Io));
    assert_eq!(e.message(), "IO Error: gone");
}

#[test]
fn default_error_is_unplanned_and_silent() {
    let e = MazeRunnerError::default();
    assert!(matches!(e.kind(), MazeRunnerErrorKind::Unplanned));
    assert_eq!(e.message(), "");
    assert!(matches!(MazeRunnerErrorKind::default(), MazeRunnerErrorKind::Unplanned));
}

#[test]
fn runner_accessors_split_the_argv() {
    let r = MazeRunner::new(
        "ping".to_string(),
        vec!["echo".to_string(), "line1".to_string(), "line2".to_string()],
    );
    assert_eq!(r.program().as_str(), "echo");
    assert_eq!(r.arguments(), vec!["line1".to_string(), "line2".to_string()]);
}
