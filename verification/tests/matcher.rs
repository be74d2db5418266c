use fw::config::{
    eq_ignoring_case, same_text, to_lower_ascii, Action, Command, CommandDetails, Config,
    ConfigFormat, PathDetails, Target,
    Transition, DEFAULT_INTERVAL_MS,
};
use fw::util::transtion_to_string;

fn detailed(path: &str, names: &[&str]) -> Target {
    let mut transitions = Vec::new();
    for n in names {
        transitions.push(Transition::from_name(n).unwrap());
    }
    Target::PathDetails(PathDetails { path: path.to_string(), transitions })
}

#[test]
fn bare_path_matches_every_change() {
    let t = Target::Path("p".to_string());
    assert!(t.matches_transition(Transition::Created));
    assert!(t.matches_transition(Transition::Modified));
    assert!(t.matches_transition(Transition::Deleted));
    assert!(!t.matches_transition(Transition::Unchanged));
}

#[test]
fn detailed_target_matches_listed_transitions_only() {
    let t = detailed("p", &["created"]);
    assert!(t.matches_transition(Transition::Created));
    assert!(!t.matches_transition(Transition::Modified));
    assert!(!t.matches_transition(Transition::Deleted));
    assert!(!t.matches_transition(Transition::Unchanged));
}

#[test]
fn detailed_target_names_in_any_case() {
    let t = detailed("p", &["Created"]);
    assert!(t.matches_transition(Transition::Created));
    assert!(!t.matches_transition(Transition::Modified));
    let t = detailed("p", &["CREATED", "dEleted"]);
    assert!(t.matches_transition(Transition::Created));
    assert!(t.matches_transition(Transition::Deleted));
    assert!(!t.matches_transition(Transition::Modified));
}

#[test]
fn detailed_target_without_transitions_matches_nothing() {
    let t = detailed("p", &[]);
    assert!(!t.matches_transition(Transition::Created));
    assert!(!t.matches_transition(Transition::Unchanged));
}

#[test]
fn detailed_target_may_list_no_change() {
    let t = detailed("p", &["none"]);
    assert!(t.matches_transition(Transition::Unchanged));
    assert!(!t.matches_transition(Transition::Created));
}

#[test]
fn transition_names() {
    assert_eq!(transtion_to_string(&Transition::Unchanged), "none");
    assert_eq!(transtion_to_string(&Transition::Created), "created");
    assert_eq!(transtion_to_string(&Transition::Modified), "modified");
    assert_eq!(transtion_to_string(&Transition::Deleted), "deleted");
}

#[test]
fn transition_from_name() {
    assert_eq!(Transition::from_name("none"), Some(Transition::Unchanged));
    assert_eq!(Transition::from_name("created"), Some(Transition::Created));
    assert_eq!(Transition::from_name("MODIFIED"), Some(Transition::Modified));
    assert_eq!(Transition::from_name("Deleted"), Some(Transition::Deleted));
    assert_eq!(Transition::from_name("create"), None);
    assert_eq!(Transition::from_name("createdd"), None);
    assert_eq!(Transition::from_name(""), None);
    assert_eq!(Transition::from_name("renamed"), None);
}

#[test]
fn transition_name_round_trip() {
    for t in [
        Transition::Unchanged,
        Transition::Created,
        Transition::Modified,
        Transition::Deleted,
    ] {
        assert_eq!(Transition::from_name(transtion_to_string(&t)), Some(t));
    }
}

#[test]
fn case_folding() {
    assert_eq!(to_lower_ascii('A'), 'a');
    assert_eq!(to_lower_ascii('Z'), 'z');
    assert_eq!(to_lower_ascii('a'), 'a');
    assert_eq!(to_lower_ascii('@'), '@');
    assert_eq!(to_lower_ascii('['), '[');
    assert_eq!(to_lower_ascii('É'), 'É');
    assert!(eq_ignoring_case("AbC", "aBc"));
    assert!(eq_ignoring_case("", ""));
    assert!(!eq_ignoring_case("abc", "abd"));
    assert!(!eq_ignoring_case("abc", "ab"));
    assert!(!eq_ignoring_case("@", "`"));
}

#[test]
fn target_path() {
    assert_eq!(Target::Path("a/b".to_string()).path(), "a/b");
    assert_eq!(detailed("./x y", &["created"]).path(), "./x y");
}

#[test]
fn bare_command() {
    let c = Command::Command("echo \"a b\" cd".to_string());
    assert_eq!(c.command(), "echo \"a b\" cd");
    assert_eq!(c.split_command(), vec!["echo", "a b", "cd"]);
    assert_eq!(c.cwd(), "./");
    assert!(!c.is_async());
}

#[test]
fn detailed_command() {
    let c = Command::CommandDetails(CommandDetails {
        cmd: "make all".to_string(),
        cwd: Some("/tmp/build".to_string()),
        exec_async: Some(true),
    });
    assert_eq!(c.command(), "make all");
    assert_eq!(c.split_command(), vec!["make", "all"]);
    assert_eq!(c.cwd(), "/tmp/build");
    assert!(c.is_async());
}

#[test]
fn detailed_command_defaults() {
    let c = Command::CommandDetails(CommandDetails {
        cmd: "make all".to_string(),
        cwd: None,
        exec_async: None,
    });
    assert_eq!(c.cwd(), "./");
    assert!(!c.is_async());
    let c = Command::CommandDetails(CommandDetails {
        cmd: "make all".to_string(),
        cwd: None,
        exec_async: Some(false),
    });
    assert!(!c.is_async());
}

#[test]
fn poll_interval() {
    let mut cfg = Config { check_interval_ms: None, actions: Vec::new() };
    assert_eq!(cfg.interval_ms(), 1000);
    assert_eq!(DEFAULT_INTERVAL_MS, 1000);
    cfg.check_interval_ms = Some(250);
    assert_eq!(cfg.interval_ms(), 250);
}

#[test]
fn startup_list_rule() {
    let regular = vec![Command::Command("echo regular".to_string())];
    let dedicated = vec![Command::Command("echo startup".to_string())];
    let mut a = Action {
        run_commands_on_startup: Some(true),
        startup_commands: None,
        targets: Vec::new(),
        commands: regular,
    };
    assert_eq!(a.startup_list().unwrap()[0].command(), "echo regular");
    a.startup_commands = Some(dedicated);
    assert_eq!(a.startup_list().unwrap()[0].command(), "echo startup");
    a.run_commands_on_startup = None;
    assert_eq!(a.startup_list().unwrap()[0].command(), "echo startup");
    a.startup_commands = None;
    assert!(a.startup_list().is_none());
    a.run_commands_on_startup = Some(false);
    assert!(a.startup_list().is_none());
}

#[test]
fn config_format_by_extension() {
    assert_eq!(ConfigFormat::from_extension("yml"), Some(ConfigFormat::Yaml));
    assert_eq!(ConfigFormat::from_extension("yaml"), Some(ConfigFormat::Yaml));
    assert_eq!(ConfigFormat::from_extension("toml"), Some(ConfigFormat::Toml));
    assert_eq!(ConfigFormat::from_extension("json"), Some(ConfigFormat::Json));
    assert_eq!(ConfigFormat::from_extension("JSON"), None);
    assert_eq!(ConfigFormat::from_extension(""), None);
    assert_eq!(ConfigFormat::from_extension("ini"), None);
    assert!(same_text("abc", "abc"));
    assert!(!same_text("abc", "abd"));
    assert!(!same_text("abc", "abcd"));
}

#[test]
fn action_names_unique() {
    let a = || Action {
        run_commands_on_startup: None,
        startup_commands: None,
        targets: Vec::new(),
        commands: Vec::new(),
    };
    let mut cfg = Config {
        check_interval_ms: None,
        actions: vec![("a".to_string(), a()), ("b".to_string(), a()), ("c".to_string(), a())],
    };
    assert!(cfg.has_unique_names());
    cfg.actions.push(("b".to_string(), a()));
    assert!(!cfg.has_unique_names());
    let empty = Config { check_interval_ms: None, actions: Vec::new() };
    assert!(empty.has_unique_names());
}
