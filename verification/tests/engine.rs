use fw::config::{Action, Command, CommandDetails, Config, PathDetails, Target, Transition};
use fw::runner::Progress;
use fw::watcher::{is_selected, select_actions, Polled, Watch, WatchError};

fn bare(cmd: &str) -> Command {
    Command::Command(cmd.to_string())
}

fn action(targets: Vec<Target>, commands: Vec<Command>) -> Action {
    Action { run_commands_on_startup: None, startup_commands: None, targets, commands }
}

fn sample() -> Config {
    let mut build = action(
        vec![Target::Path("src".to_string()), Target::Path("Cargo.toml".to_string())],
        vec![bare("cargo build")],
    );
    build.run_commands_on_startup = Some(true);
    let mut docs = action(
        vec![Target::PathDetails(PathDetails {
            path: "src".to_string(),
            transitions: vec![Transition::Created, Transition::Deleted],
        })],
        vec![bare("make docs")],
    );
    docs.startup_commands = Some(vec![bare("echo docs ready")]);
    let lint = action(
        vec![Target::Path("src".to_string()), Target::Path("src".to_string())],
        vec![bare("make lint")],
    );
    Config {
        check_interval_ms: None,
        actions: vec![
            ("build".to_string(), build),
            ("docs".to_string(), docs),
            ("lint".to_string(), lint),
        ],
    }
}

fn polled(path: Option<&str>, transition: Transition) -> Polled {
    Polled { path: path.map(|p| p.to_string()), transition }
}

#[test]
fn filter_selects_by_name() {
    let cfg = sample();
    assert_eq!(select_actions(&cfg, &None), vec![0, 1, 2]);
    let filter = Some(vec!["lint".to_string(), "build".to_string(), "other".to_string()]);
    assert_eq!(select_actions(&cfg, &filter), vec![0, 2]);
    assert!(is_selected(&filter, &"lint".to_string()));
    assert!(!is_selected(&filter, &"Lint".to_string()));
    assert!(is_selected(&None, &"anything".to_string()));
    assert!(!is_selected(&Some(Vec::new()), &"lint".to_string()));
}

#[test]
fn filter_without_a_match_aborts() {
    let cfg = sample();
    let filter = Some(vec!["nothing".to_string()]);
    assert!(matches!(Watch::begin(&cfg, &filter), Err(WatchError::NoActions)));
    assert!(matches!(Watch::begin(&cfg, &Some(Vec::new())), Err(WatchError::NoActions)));
    let empty = Config { check_interval_ms: None, actions: Vec::new() };
    assert!(matches!(Watch::begin(&empty, &None), Err(WatchError::NoActions)));
}

#[test]
fn paths_come_in_declaration_order() {
    let cfg = sample();
    let watch = Watch::begin(&cfg, &None).unwrap();
    assert_eq!(watch.actions(), &vec![0, 1, 2]);
    assert_eq!(watch.paths(), vec!["src", "Cargo.toml", "src", "src", "src"]);
    let filter = Some(vec!["docs".to_string()]);
    let watch = Watch::begin(&cfg, &filter).unwrap();
    assert_eq!(watch.actions(), &vec![1]);
    assert_eq!(watch.paths(), vec!["src"]);
}

#[test]
fn startup_runs_regular_commands_once_where_flagged() {
    let cfg = sample();
    let watch = Watch::begin(&cfg, &None).unwrap();
    let runs = watch.startup_runs();
    assert_eq!(runs.len(), 2);
    assert_eq!(runs[0].action, 0);
    assert_eq!(runs[0].commands.len(), 1);
    assert_eq!(runs[0].commands[0].command(), "cargo build");
    assert_eq!(runs[1].action, 1);
    assert_eq!(runs[1].commands[0].command(), "echo docs ready");
}

#[test]
fn startup_skips_actions_that_are_not_watched() {
    let cfg = sample();
    let filter = Some(vec!["lint".to_string()]);
    let watch = Watch::begin(&cfg, &filter).unwrap();
    assert!(watch.startup_runs().is_empty());
    let filter = Some(vec!["docs".to_string(), "lint".to_string()]);
    let watch = Watch::begin(&cfg, &filter).unwrap();
    let runs = watch.startup_runs();
    assert_eq!(runs.len(), 1);
    assert_eq!(runs[0].action, 1);
}

#[test]
fn tick_without_changes_dispatches_nothing() {
    let cfg = sample();
    let watch = Watch::begin(&cfg, &None).unwrap();
    let tick = watch.dispatch(&vec![
        polled(Some("src"), Transition::Unchanged),
        polled(None, Transition::Unchanged),
    ]);
    assert!(tick.dispatches.is_empty());
    assert!(tick.unresolved.is_empty());
    let tick = watch.dispatch(&Vec::new());
    assert!(tick.dispatches.is_empty());
}

#[test]
fn tick_dispatches_each_matching_target() {
    let cfg = sample();
    let watch = Watch::begin(&cfg, &None).unwrap();
    let tick = watch.dispatch(&vec![
        polled(Some("src"), Transition::Modified),
        polled(Some("Cargo.toml"), Transition::Unchanged),
        polled(Some("src"), Transition::Created),
    ]);
    let got: Vec<(usize, &str, Transition)> =
        tick.dispatches.iter().map(|d| (d.action, d.path.as_str(), d.transition)).collect();
    assert_eq!(
        got,
        vec![
            (0, "src", Transition::Modified),
            (2, "src", Transition::Modified),
            (2, "src", Transition::Modified),
            (0, "src", Transition::Created),
            (1, "src", Transition::Created),
            (2, "src", Transition::Created),
            (2, "src", Transition::Created),
        ]
    );
    assert!(tick.unresolved.is_empty());
}

#[test]
fn tick_compares_paths_exactly() {
    let cfg = sample();
    let watch = Watch::begin(&cfg, &None).unwrap();
    let tick = watch.dispatch(&vec![
        polled(Some("./src"), Transition::Modified),
        polled(Some("SRC"), Transition::Modified),
        polled(Some("src/"), Transition::Modified),
    ]);
    assert!(tick.dispatches.is_empty());
}

#[test]
fn tick_reports_unresolved_changes() {
    let cfg = sample();
    let watch = Watch::begin(&cfg, &None).unwrap();
    let tick = watch.dispatch(&vec![
        polled(None, Transition::Deleted),
        polled(Some("Cargo.toml"), Transition::Deleted),
        polled(None, Transition::Unchanged),
        polled(None, Transition::Created),
    ]);
    assert_eq!(tick.unresolved, vec![0, 3]);
    assert_eq!(tick.dispatches.len(), 1);
    assert_eq!(tick.dispatches[0].action, 0);
    assert_eq!(tick.dispatches[0].path, "Cargo.toml");
}

#[test]
fn tick_leaves_out_actions_that_are_not_watched() {
    let cfg = sample();
    let filter = Some(vec!["docs".to_string()]);
    let watch = Watch::begin(&cfg, &filter).unwrap();
    let tick = watch.dispatch(&vec![polled(Some("src"), Transition::Modified)]);
    assert!(tick.dispatches.is_empty());
    let tick = watch.dispatch(&vec![polled(Some("src"), Transition::Deleted)]);
    assert_eq!(tick.dispatches.len(), 1);
    assert_eq!(tick.dispatches[0].action, 1);
}

#[test]
fn dispatch_environment() {
    let cfg = sample();
    let watch = Watch::begin(&cfg, &None).unwrap();
    let tick = watch.dispatch(&vec![polled(Some("Cargo.toml"), Transition::Modified)]);
    assert_eq!(tick.dispatches.len(), 1);
    assert_eq!(
        tick.dispatches[0].env(),
        vec![
            ("FW_PATH".to_string(), "Cargo.toml".to_string()),
            ("FW_TRANSITION".to_string(), "modified".to_string()),
        ]
    );
}

#[test]
fn run_starts_commands_in_order() {
    let cmds = vec![
        bare("echo 'a b' cd"),
        Command::CommandDetails(CommandDetails {
            cmd: "sleep 10".to_string(),
            cwd: Some("/tmp".to_string()),
            exec_async: Some(true),
        }),
        bare("ls -la"),
    ];
    let state = Progress::begin();
    assert_eq!(state, Progress::At(0));
    let inv = state.next(&cmds).unwrap();
    assert_eq!(inv.index, 0);
    assert_eq!(inv.program, "echo");
    assert_eq!(inv.args, vec!["a b", "cd"]);
    assert_eq!(inv.cwd, "./");
    assert!(!inv.detached);
    let state = Progress::after(inv.index, true);
    assert_eq!(state, Progress::At(1));
    let inv = state.next(&cmds).unwrap();
    assert_eq!(inv.index, 1);
    assert_eq!(inv.program, "sleep");
    assert_eq!(inv.args, vec!["10"]);
    assert_eq!(inv.cwd, "/tmp");
    assert!(inv.detached);
    let state = Progress::after(inv.index, true);
    let inv = state.next(&cmds).unwrap();
    assert_eq!(inv.index, 2);
    assert_eq!(inv.program, "ls");
    assert_eq!(inv.args, vec!["-la"]);
    let state = Progress::after(inv.index, true);
    assert_eq!(state, Progress::At(3));
    assert!(state.next(&cmds).is_none());
}

#[test]
fn run_passes_over_commands_without_tokens() {
    let cmds = vec![bare(""), bare("   "), bare("x"), bare("true"), bare(" ")];
    let inv = Progress::begin().next(&cmds).unwrap();
    assert_eq!(inv.index, 3);
    assert_eq!(inv.program, "true");
    assert!(inv.args.is_empty());
    assert!(Progress::after(inv.index, true).next(&cmds).is_none());
    assert!(Progress::begin().next(&Vec::new()).is_none());
}

#[test]
fn failure_ends_the_run() {
    let cmds = vec![bare("does-not-exist"), bare("touch marker")];
    let inv = Progress::begin().next(&cmds).unwrap();
    assert_eq!(inv.index, 0);
    let state = Progress::after(inv.index, false);
    assert_eq!(state, Progress::Aborted);
    assert!(state.next(&cmds).is_none());
}

#[test]
fn detached_command_does_not_hold_the_next() {
    let cmds = vec![
        Command::CommandDetails(CommandDetails {
            cmd: "sleep 100".to_string(),
            cwd: None,
            exec_async: Some(true),
        }),
        bare("echo next"),
    ];
    let inv = Progress::begin().next(&cmds).unwrap();
    assert!(inv.detached);
    let inv = Progress::after(inv.index, true).next(&cmds).unwrap();
    assert_eq!(inv.index, 1);
    assert!(!inv.detached);
}
