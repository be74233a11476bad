use beautytips::actions::ActionDefinition;
use beautytips::actions::ActionDefinitionIterator;
use beautytips::actions::ActionResult;
use beautytips::actions::OutputCondition;
use beautytips::args::Args;
use beautytips::args::ResolvedInputs;
use beautytips::cache::InputCache;
use beautytips::cache::QueryOutcome;
use beautytips::config::map_environment;
use beautytips::filters::InputFilters;
use beautytips::generate_input_files;
use beautytips::reporter::render_result_line;
use beautytips::reporter::Reporter;
use beautytips::runner::env_union;
use beautytips::runner::plan_action;
use beautytips::runner::ActionPlan;
use beautytips::runner::InvocationLoop;
use beautytips::scheduler::Scheduler;
use beautytips::vcs::known_vcses;
use beautytips::vcs::vcs_by_name;
use beautytips::vcs::zero_split_files;
use beautytips::vcs::Vcs;
use beautytips::vcs::VcsKind;
use beautytips::InputFiles;

fn action(id: &str, source: &str, command: &[&str], sequential: bool) -> ActionDefinition {
    ActionDefinition {
        id: id.to_string(),
        source: source.to_string(),
        description: String::new(),
        run_sequentially: sequential,
        command: command.iter().map(|c| c.to_string()).collect(),
        expected_exit_code: 0,
        show_output: OutputCondition::Failure,
        input_filters: InputFilters::new(),
        environment: Vec::new(),
    }
}

fn resolved_files(values: &[&str]) -> ResolvedInputs {
    let mut resolved = ResolvedInputs::new();
    resolved.insert(
        "files".to_string(),
        Ok(values.iter().map(|v| v.to_string()).collect()),
    );
    resolved
}

// --- input resolution cache ---

#[test]
fn cache_single_flight() {
    // Two concurrent queries for an unresolved generated input: the first
    // spawns the one generator, the second only waits; the completion hands
    // back both waiters with the one shared result.
    let mut cache = InputCache::new("/repo".to_string(), vec!["/repo/a.rs".to_string()]);
    let first = cache.handle_input_query("cargo_targets", 1);
    match first {
        QueryOutcome::Spawn(task) => {
            assert_eq!(task.input, "cargo_targets");
            assert_eq!(task.files, vec!["/repo/a.rs".to_string()]);
            assert_eq!(task.top_directory, "/repo");
        }
        _ => panic!("the first query must spawn the generator"),
    }
    let second = cache.handle_input_query("cargo_targets", 2);
    assert!(matches!(second, QueryOutcome::Wait));

    let waiters = cache.handle_generator_reply("cargo_targets", Ok(vec!["pkg".to_string()]));
    assert_eq!(waiters, vec![1, 2]);

    // Later queries answer from the cache without spawning anything.
    let third = cache.handle_input_query("cargo_targets", 3);
    match third {
        QueryOutcome::Reply(Ok(v)) => assert_eq!(v, vec!["pkg".to_string()]),
        _ => panic!("the cached value must be answered at once"),
    }
}

#[test]
fn cache_memoizes_errors() {
    let mut cache = InputCache::new("/repo".to_string(), vec!["/repo/a.rs".to_string()]);
    let first = cache.handle_input_query("cargo_targets", 7);
    assert!(matches!(first, QueryOutcome::Spawn(_)));
    let waiters = cache.handle_generator_reply("cargo_targets", Err("boom".to_string()));
    assert_eq!(waiters, vec![7]);

    // The failure is cached: every later query gets the same error and no
    // generator runs again.
    for w in 0..3u64 {
        match cache.handle_input_query("cargo_targets", w) {
            QueryOutcome::Reply(Err(e)) => assert_eq!(e, "boom"),
            _ => panic!("the memoized error must be answered at once"),
        }
    }
}

#[test]
fn cache_seeded_and_unknown_inputs() {
    let mut cache = InputCache::new("/repo".to_string(), vec!["/repo/a.rs".to_string()]);
    match cache.handle_input_query("files", 1) {
        QueryOutcome::Reply(Ok(v)) => assert_eq!(v, vec!["/repo/a.rs".to_string()]),
        _ => panic!("the seeded file list must be answered at once"),
    }
    match cache.handle_input_query("top:directory", 1) {
        QueryOutcome::Reply(Ok(v)) => assert_eq!(v, vec!["/repo".to_string()]),
        _ => panic!("the seeded root must be answered at once"),
    }
    match cache.handle_input_query("no_such_input", 1) {
        QueryOutcome::Reply(Err(e)) => {
            assert_eq!(e, "Input 'no_such_input' is not supported");
        }
        _ => panic!("an unknown input must be answered with an error"),
    }
}

// --- planning one action ---

#[test]
fn plan_not_applicable_when_filters_match_nothing() {
    // The only filter matches no file: the action is not applicable and no
    // subprocess may be spawned (the plan carries no invocation schedule).
    let mut a = action("fmt", "mysrc", &["echo", "{{files}}"], false);
    a.input_filters = InputFilters::from_pairs(vec![(
        "files".to_string(),
        vec!["*.ignoreme".to_string()],
    )])
    .unwrap();
    let resolved = resolved_files(&["/r/a.txt", "/r/b.txt"]);
    let plan = plan_action(&a, &resolved, "", "/r");
    assert!(matches!(plan, ActionPlan::NotApplicable));
}

#[test]
fn plan_skips_listed_action() {
    // SKIP="mysrc/myid" forces the action to Skipped even though its command
    // would succeed.
    let a = action("myid", "mysrc", &["echo", "hello"], false);
    let resolved = ResolvedInputs::new();
    let plan = plan_action(&a, &resolved, "mysrc/myid", "/r");
    assert!(matches!(plan, ActionPlan::Skipped));

    let plan2 = plan_action(&a, &resolved, "other/skip,mysrc/myid", "/r");
    assert!(matches!(plan2, ActionPlan::Skipped));

    let plan3 = plan_action(&a, &resolved, "other/skip", "/r");
    assert!(matches!(plan3, ActionPlan::Run(_)));
}

#[test]
fn plan_rejects_missing_command() {
    let a = action("myid", "mysrc", &[], false);
    let resolved = ResolvedInputs::new();
    let plan = plan_action(&a, &resolved, "", "/r");
    match plan {
        ActionPlan::Error(message) => {
            assert_eq!(message, "No command defined in action 'mysrc/myid'");
        }
        _ => panic!("a missing command is this action's error"),
    }
}

// --- the invocation loop ---

fn run_schedule(a: &ActionDefinition, resolved: &ResolvedInputs, exits: &[Option<i32>]) -> ActionResult {
    let plan = plan_action(a, resolved, "", "/r");
    let args: Args = match plan {
        ActionPlan::Run(args) => args,
        _ => panic!("the action must be runnable"),
    };
    let mut invocation = InvocationLoop::new(
        a.command[0].clone(),
        args,
        a.expected_exit_code,
        a.show_output,
    );
    let mut i = 0;
    loop {
        let argv = invocation.current_command();
        assert!(!argv.is_empty());
        let finished = invocation.record_invocation(exits[i], b"out", b"err");
        i += 1;
        if finished {
            break;
        }
    }
    assert_eq!(i, exits.len());
    invocation.into_result()
}

#[test]
fn exit_code_mismatch_classifies_as_warn() {
    // expected_exit_code = 0: exiting 1 warns, exiting 0 succeeds.
    let a = action("fmt", "mysrc", &["echo", "x"], false);
    let resolved = ResolvedInputs::new();

    let warn = run_schedule(&a, &resolved, &[Some(1)]);
    assert!(matches!(warn, ActionResult::Warn { .. }));

    let ok = run_schedule(&a, &resolved, &[Some(0)]);
    assert!(matches!(ok, ActionResult::Success { .. }));
}

#[test]
fn show_output_never_blanks_success_output() {
    let mut a = action("fmt", "mysrc", &["echo", "x"], false);
    a.show_output = OutputCondition::Never;
    let resolved = ResolvedInputs::new();
    match run_schedule(&a, &resolved, &[Some(0)]) {
        ActionResult::Success { stdout, stderr } => {
            assert!(stdout.is_empty());
            assert!(stderr.is_empty());
        }
        _ => panic!("the run succeeded"),
    }
}

#[test]
fn show_output_failure_keeps_warn_output() {
    let mut a = action("fmt", "mysrc", &["echo", "x"], false);
    a.show_output = OutputCondition::Failure;
    let resolved = ResolvedInputs::new();
    match run_schedule(&a, &resolved, &[Some(3)]) {
        ActionResult::Warn { stdout, stderr } => {
            assert_eq!(stdout, b"out\n");
            assert_eq!(stderr, b"err\n");
        }
        _ => panic!("the mismatched exit code warns"),
    }
}

#[test]
fn scalar_schedule_runs_once_per_value() {
    let a = action("fmt", "mysrc", &["echo", "{{files}}"], false);
    let resolved = resolved_files(&["a", "b", "c"]);
    // Three values: three invocations; all match, so the result is a success.
    let ok = run_schedule(&a, &resolved, &[Some(0), Some(0), Some(0)]);
    assert!(matches!(ok, ActionResult::Success { .. }));
}

// --- the scheduler ---

#[test]
fn scheduler_partitions_and_orders_phases() {
    // One parallel and one sequential action: the sequential one cannot be
    // reported started until every parallel action is done.
    let actions = vec![
        action("par", "mysrc", &["echo"], false),
        action("seq", "mysrc", &["echo"], true),
    ];
    let mut s = Scheduler::new(&actions);
    assert_eq!(s.parallel_count(), 1);
    assert_eq!(s.sequential_count(), 1);
    assert_eq!(s.parallel_action(0), 0);
    assert_eq!(s.sequential_action(0), 1);

    assert!(!s.all_parallel_done());
    s.note_parallel_started(0);
    assert!(!s.all_parallel_done());
    s.note_parallel_done(0);
    assert!(s.all_parallel_done());

    s.begin_sequential();
    s.note_sequential_started(0);
    s.note_sequential_done(0);
}

// --- the subprocess environment ---

#[test]
fn action_environment_wins_on_collision() {
    let extra = vec![
        ("A".to_string(), "run".to_string()),
        ("B".to_string(), "run".to_string()),
    ];
    let act = vec![
        ("B".to_string(), "action".to_string()),
        ("C".to_string(), "action".to_string()),
    ];
    let merged = env_union(&extra, &act);
    assert_eq!(
        merged,
        vec![
            ("A".to_string(), "run".to_string()),
            ("B".to_string(), "action".to_string()),
            ("C".to_string(), "action".to_string()),
        ]
    );
}

#[test]
fn map_environment_splits_at_first_equals() {
    let entries = vec![
        "KEY=value".to_string(),
        "EMPTY".to_string(),
        "EQ=a=b".to_string(),
    ];
    let mapped = map_environment(&entries);
    assert_eq!(
        mapped,
        vec![
            ("KEY".to_string(), "value".to_string()),
            ("EMPTY".to_string(), String::new()),
            ("EQ".to_string(), "a=b".to_string()),
        ]
    );
}

// --- the action iterator ---

#[test]
fn iterator_visits_distinct_indices_in_order() {
    let actions = vec![
        action("a", "s", &["echo"], false),
        action("b", "s", &["echo"], false),
        action("c", "s", &["echo"], false),
    ];
    let mut it = ActionDefinitionIterator::new(&actions, vec![2, 0, 2, 5]);
    assert_eq!(it.next().unwrap().id, "a");
    assert_eq!(it.next().unwrap().id, "c");
    assert!(it.next().is_none());
    assert!(it.next().is_none());
}

// --- version control helpers ---

#[test]
fn vcs_names_and_lookup() {
    assert_eq!(known_vcses(), vec![VcsKind::Jj, VcsKind::Git]);
    assert_eq!(vcs_by_name("git"), Some(VcsKind::Git));
    assert_eq!(vcs_by_name("jj"), Some(VcsKind::Jj));
    assert_eq!(vcs_by_name("svn"), None);
}

#[test]
fn git_command_lines() {
    let git = beautytips::vcs::Git::new();
    assert_eq!(git.name(), "git");
    assert_eq!(
        git.changed_files_args(&None, &None),
        vec!["diff", "--name-only", "--no-ext-diff", "-z"]
    );
    assert_eq!(
        git.changed_files_args(&None, &Some("abc".to_string())),
        vec!["diff", "--name-only", "--no-ext-diff", "-z", "abc~", "abc"]
    );
    assert_eq!(git.repository_root_args(), vec!["rev-parse", "--show-toplevel"]);
    assert!(git.query_ok(Some(1), true));
    assert!(git.failure_yields_empty());
}

#[test]
fn zero_split_files_drops_empty_segments() {
    let out = b"a.rs\0\0dir/b.rs\0";
    assert_eq!(
        zero_split_files(out),
        vec!["a.rs".to_string(), "dir/b.rs".to_string()]
    );
}

#[test]
fn jj_parse_skips_deletions_and_short_lines() {
    let jj = beautytips::vcs::Jj::new();
    assert_eq!(jj.name(), "jj");
    let out = b"M a.rs\nD gone.rs\nA dir/new.rs\nX\n";
    assert_eq!(
        jj.parse_changed_files(out),
        vec!["a.rs".to_string(), "dir/new.rs".to_string()]
    );
    assert!(!jj.query_ok(Some(1), false));
    assert!(jj.query_ok(Some(0), false));
    assert!(!jj.failure_yields_empty());
}

// --- the reporter ---

#[test]
fn reporter_renders_and_tracks_running() {
    let mut r = Reporter::new();
    r.report_start("s/a".to_string());
    r.report_start("s/b".to_string());
    assert_eq!(
        r.running_actions(),
        &vec!["s/a".to_string(), "s/b".to_string()]
    );
    r.report_done(
        "s/a".to_string(),
        ActionResult::Success { stdout: b"hi\n".to_vec(), stderr: Vec::new() },
    );
    assert_eq!(r.running_actions(), &vec!["s/b".to_string()]);
    assert_eq!(r.rendered_lines(), &vec!["s/a [OK]\n    hi\n".to_string()]);
    r.finish();
}

#[test]
fn render_result_lines() {
    assert_eq!(
        render_result_line("s/a", &ActionResult::Skipped),
        "s/a [SKIPPED]"
    );
    assert_eq!(
        render_result_line("s/a", &ActionResult::NotApplicable),
        "s/a [NOT APPLICABLE]"
    );
    assert_eq!(
        render_result_line(
            "s/a",
            &ActionResult::Error { message: "bad".to_string() }
        ),
        "s/a [ERROR]: bad"
    );
    assert_eq!(
        render_result_line(
            "s/a",
            &ActionResult::Warn { stdout: Vec::new(), stderr: b"oops\n".to_vec() }
        ),
        "s/a [WARN]\n    oops"
    );
}

// --- input selection ---

#[test]
fn generate_input_files_prefers_vcs_then_files_then_directory() {
    let vcs = generate_input_files(
        &Some(Some("git".to_string())),
        &Some("a".to_string()),
        &None,
        &None,
        &None,
    )
    .unwrap();
    match vcs {
        InputFiles::Vcs(v) => {
            assert_eq!(v.tool, Some("git".to_string()));
            assert_eq!(v.from_revision, Some("a".to_string()));
            assert_eq!(v.to_revision, None);
        }
        _ => panic!("a version control selection was given"),
    }

    let files = generate_input_files(&None, &None, &None, &Some(vec!["f".to_string()]), &None)
        .unwrap();
    assert!(matches!(files, InputFiles::FileList(ref l) if l == &vec!["f".to_string()]));

    let dir = generate_input_files(&None, &None, &None, &None, &Some("d".to_string())).unwrap();
    assert!(matches!(dir, InputFiles::AllFiles(ref d) if d == "d"));

    assert!(generate_input_files(&None, &None, &None, &None, &None).is_err());
}

#[test]
fn update_from_replaces_and_removes_filters() {
    let mut filters = InputFilters::from_pairs(vec![
        ("files".to_string(), vec!["*.rs".to_string()]),
        ("docs".to_string(), vec!["*.md".to_string()]),
    ])
    .unwrap();

    // Replace one input's patterns, remove another, add a third.
    filters
        .update_from(vec![
            ("files".to_string(), vec!["*.toml".to_string()]),
            ("docs".to_string(), Vec::new()),
            ("extra".to_string(), vec!["*.txt".to_string()]),
        ])
        .unwrap();

    assert_eq!(filters.get("files"), Some(&vec!["*.toml".to_string()]));
    assert_eq!(filters.get("docs"), None);
    assert_eq!(filters.get("extra"), Some(&vec!["*.txt".to_string()]));

    // Removing an input that was never set is this layer's error.
    assert!(filters
        .update_from(vec![("missing".to_string(), Vec::new())])
        .is_err());
}
