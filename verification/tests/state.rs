use dev_monitor::marker_syntax::MarkerSyntax;
use dev_monitor::state::{
    auth_reminder_due, default_args, launch_note, run_button_text, status_label, AppState, Choice, Environment, Exit, HistoryEntry, LogMsg, ScriptState, ScriptStatus, StreamType, TraceBlock, Verdict,
};
use dev_monitor::scripts::{DeclaredSteps, ScriptArg, ScriptMeta};
use dev_monitor::steps::StepCatalog;

const BASE: i64 = 1_786_000_000_000;

fn log(content: &str) -> LogMsg {
    LogMsg { timestamp: BASE, stream: StreamType::Stdout, content: content.to_string() }
}

fn at(secs: i64) -> i64 {
    BASE + secs * 1000
}

fn app() -> AppState {
    AppState::new(StepCatalog::defaults(), MarkerSyntax::default())
}

#[test]
fn two_scripts_keep_their_own_logs() {
    let mut state = app();
    state.entry("tools/flow_1_park.py").logs.push(log("park output"));
    state.entry("tools/flow_2_promote.py").logs.push(log("promote output"));

    assert_eq!(state.script("tools/flow_1_park.py").unwrap().logs.len(), 1);
    assert_eq!(state.script("tools/flow_1_park.py").unwrap().logs[0].content, "park output");
    assert_eq!(state.script("tools/flow_2_promote.py").unwrap().logs[0].content, "promote output");
}

#[test]
fn selecting_another_script_does_not_disturb_a_running_one() {
    let mut state = app();
    state.running_script = Some("tools/flow_3_extract.py".into());
    let running = state.entry("tools/flow_3_extract.py");
    running.status = ScriptStatus::Running;
    running.logs.push(log("still going"));
    running.step_history.push("raw".to_string());

    state.selected_script = Some("tools/verify_ingestion.py".into());

    let live = state.script("tools/flow_3_extract.py").unwrap();
    assert_eq!(live.status, ScriptStatus::Running);
    assert_eq!(live.logs.len(), 1);
    assert_eq!(live.step_history, vec!["raw".to_string()]);
    assert_eq!(state.running_script.as_deref(), Some("tools/flow_3_extract.py"));
}

#[test]
fn coming_back_to_a_script_finds_its_run_where_it_was_left() {
    let mut state = app();
    let e = state.entry("tools/flow_3_extract.py");
    e.logs.push(log("line one"));
    e.verdicts.push(Verdict { label: "flow_3_extract".into(), ok: true });
    e.active_step = Some("servicebus".to_string());

    state.selected_script = Some("tools/verify_ingestion.py".into());
    assert!(state.current().logs.is_empty(), "a script never run shows nothing");

    state.selected_script = Some("tools/flow_3_extract.py".into());
    let back = state.current();
    assert_eq!(back.logs.len(), 1);
    assert_eq!(back.verdicts.len(), 1);
    assert_eq!(back.active_step, Some("servicebus".to_string()));
}

#[test]
fn a_script_never_run_reads_as_idle_rather_than_missing() {
    let mut state = app();
    state.entry("tools/flow_1_park.py").status = ScriptStatus::Failed(2);
    state.selected_script = Some("tools/flow_9_new.py".into());

    let current = state.current();
    assert_eq!(current.status, ScriptStatus::Idle);
    assert!(!current.has_started());
}

#[test]
fn enabled_flags_are_remembered_per_script() {
    let mut state = app();
    state.entry("tools/reset_test_documents.py").enabled_args = vec!["--apply".into()];
    state.entry("tools/verify_ingestion.py").enabled_args = vec!["--json".into()];

    state.selected_script = Some("tools/reset_test_documents.py".into());
    assert_eq!(state.current().enabled_args, vec!["--apply".to_string()]);
    state.selected_script = Some("tools/verify_ingestion.py".into());
    assert_eq!(state.current().enabled_args, vec!["--json".to_string()]);
}

#[test]
fn a_choice_reaches_the_command_line_as_two_argv_entries() {
    let mut state = app();
    let e = state.entry("tools/flows/dev_corpus_e2e.py");
    e.enabled_args = vec!["--refresh".into()];
    e.set_choice("--case".into(), "001.17033.000001-AA001-10 - A.pdf".into());
    state.selected_script = Some("tools/flows/dev_corpus_e2e.py".into());

    assert_eq!(
        state.current().command_args(),
        vec![
            "--refresh".to_string(),
            "--case".to_string(),
            "001.17033.000001-AA001-10 - A.pdf".to_string(),
        ]
    );
}

#[test]
fn an_unchosen_value_is_left_off_rather_than_sent_empty() {
    let mut state = app();
    state.entry("x.py").set_choice("--case".into(), String::new());
    state.selected_script = Some("x.py".into());
    assert!(state.current().command_args().is_empty());
}

#[test]
fn a_chosen_case_is_remembered_per_script_like_the_toggles() {
    let mut state = app();
    state.entry("a.py").set_choice("--case".into(), "one".into());
    state.entry("b.py").set_choice("--case".into(), "two".into());
    state.selected_script = Some("a.py".into());
    assert_eq!(state.current().chosen_value("--case").as_deref(), Some("one"));
    state.selected_script = Some("b.py".into());
    assert_eq!(state.current().chosen_value("--case").as_deref(), Some("two"));
}

#[test]
fn a_trace_block_files_its_lines_under_its_component() {
    let mut state = app();
    let e = state.entry("tools/flow_7.py");
    e.in_trace = Some("HttpUploadSmall".into());
    e.push_trace("HttpUploadSmall".into(), log("boom"));
    e.in_trace = None;

    let run = state.script("tools/flow_7.py").unwrap();
    assert_eq!(run.trace("HttpUploadSmall").unwrap().len(), 1);
    assert!(run.in_trace.is_none());
}

#[test]
fn traces_belong_to_their_script_like_everything_else() {
    let mut state = app();
    state.entry("a.py").push_trace("Fn".into(), log("a"));
    state.entry("b.py").push_trace("Fn".into(), log("b"));
    assert_eq!(state.script("a.py").unwrap().trace("Fn").unwrap()[0].content, "a");
    assert_eq!(state.script("b.py").unwrap().trace("Fn").unwrap()[0].content, "b");
}

#[test]
fn a_script_with_no_traces_reads_as_empty_rather_than_missing() {
    let state = app();
    assert!(state.current().traces.is_empty());
    assert!(state.current().in_trace.is_none());
}

#[test]
fn components_keep_a_stable_order() {
    let mut state = app();
    let e = state.entry("x.py");
    for name in ["Zeta", "Alpha", "Middle"] {
        e.push_trace(name.into(), log("x"));
    }
    let order = state.script("x.py").unwrap().trace_names();
    assert_eq!(order, ["Alpha", "Middle", "Zeta"]);
}

#[test]
fn a_stage_is_timed_until_the_next_stage_starts() {
    let mut run = ScriptState::default();
    run.begin_step("neo".into(), BASE);
    run.begin_step("landing".into(), at(5));

    assert_eq!(run.seconds_of("neo"), Some(5));
}

#[test]
fn a_completion_marker_does_not_stop_the_clock() {
    let mut run = ScriptState::default();
    run.begin_step("neo".into(), BASE);
    run.finish_step("neo".into());
    run.begin_step("raw".into(), at(7));

    assert_eq!(run.seconds_of("neo"), Some(7));
    assert_eq!(run.step_history, vec!["neo".to_string()]);
}

#[test]
fn the_last_stage_is_closed_when_the_process_ends() {
    let mut run = ScriptState::default();
    run.begin_step("curated".into(), BASE);
    run.stop_step_clock(at(3));

    assert_eq!(run.seconds_of("curated"), Some(3));
    assert_eq!(run.active_step.as_deref(), Some("curated"));
    assert!(run.step_started.is_none());
}

#[test]
fn a_stage_entered_twice_accumulates_rather_than_restarting() {
    let mut run = ScriptState::default();
    run.begin_step("apim".into(), BASE);
    run.begin_step("landing".into(), at(4));
    run.begin_step("apim".into(), at(10));
    run.stop_step_clock(at(16));

    assert_eq!(run.seconds_of("apim"), Some(10));
    assert_eq!(run.seconds_of("landing"), Some(6));
}

#[test]
fn re_announcing_the_running_stage_does_not_restart_its_clock() {
    let mut run = ScriptState::default();
    run.begin_step("raw".into(), BASE);
    run.begin_step("raw".into(), at(5));
    run.stop_step_clock(at(9));

    assert_eq!(run.seconds_of("raw"), Some(9));
}

#[test]
fn a_new_pass_over_the_chain_forgets_the_previous_timings() {
    let mut run = ScriptState::default();
    run.begin_step("neo".into(), BASE);
    run.begin_step("raw".into(), at(8));
    run.restart_steps();

    assert!(run.step_seconds.is_empty());
    assert!(run.active_step.is_none());
    assert!(run.step_started.is_none());
    assert!(run.step_history.is_empty());
}

#[test]
fn a_clock_the_wall_ran_backwards_on_is_not_a_negative_stage() {
    let mut run = ScriptState::default();
    run.begin_step("neo".into(), BASE);
    run.stop_step_clock(at(-30));

    assert_eq!(run.seconds_of("neo"), Some(0));
}

#[test]
fn history_spans_every_script() {
    let mut state = app();
    for name in ["tools/a.py", "tools/b.py"] {
        state.history.push(HistoryEntry {
            script_name: name.into(),
            environment: Environment::Dev,
            start_time: BASE,
            end_time: BASE,
            status: ScriptStatus::Succeeded,
        });
    }
    assert_eq!(state.history.len(), 2);
}

#[test]
fn part_of_a_second_is_not_a_second() {
    let mut run = ScriptState::default();
    run.begin_step("neo".into(), BASE);
    run.stop_step_clock(BASE + 1999);
    assert_eq!(run.seconds_of("neo"), Some(1));
}

#[test]
fn the_choices_are_sent_in_flag_order_whatever_order_they_were_made_in() {
    let mut a = ScriptState::default();
    a.set_choice("--zone".into(), "raw".into());
    a.set_choice("--case".into(), "x.pdf".into());
    let mut b = ScriptState::default();
    b.set_choice("--case".into(), "x.pdf".into());
    b.set_choice("--zone".into(), "raw".into());
    assert_eq!(a.command_args(), b.command_args());
    assert_eq!(a.command_args(), vec!["--case", "x.pdf", "--zone", "raw"]);
    a.set_choice("--case".into(), "y.pdf".into());
    assert_eq!(a.chosen_value("--case").as_deref(), Some("y.pdf"));
    assert_eq!(a.chosen.len(), 2);
}

#[test]
fn environments_name_themselves() {
    assert_eq!(Environment::Dev.as_str(), "dev");
    assert_eq!(Environment::Stg.as_str(), "stg");
    assert_eq!(Environment::Dev.label(), "Development");
    assert_eq!(Environment::Stg.label(), "Staging");
}

#[test]
fn a_run_starts_clean_and_its_markers_move_the_stepper() {
    let cat = StepCatalog::defaults();
    let syn = MarkerSyntax::default();
    let mut run = ScriptState::default();
    run.logs.push(log("left from before"));
    run.verdicts.push(Verdict { label: "old".into(), ok: false });
    let launch = LogMsg { timestamp: BASE, stream: StreamType::System, content: launch_note(Environment::Dev, "tools/x.py", &vec!["--apply".to_string()]) };
    run.start_run(launch, BASE);
    assert_eq!(run.status, ScriptStatus::Running);
    assert_eq!(run.start_time, Some(BASE));
    assert_eq!(run.logs.len(), 1);
    assert_eq!(
        run.logs[0].content,
        "$ bash -c \"export CDW_ENV=dev; source deploy/00-variables.sh && ... tools/x.py --apply\""
    );
    assert!(run.verdicts.is_empty());

    let line = |secs: i64, text: &str| LogMsg { timestamp: at(secs), stream: StreamType::Stdout, content: text.into() };
    run.take_line(line(0, "[CDW_STEP: Raw]"), &cat, &syn);
    assert_eq!(run.active_step.as_deref(), Some("raw"));
    run.take_line(line(2, "[CDW_STEP_DONE: Raw]"), &cat, &syn);
    assert_eq!(run.step_history, vec!["raw".to_string()]);
    run.take_line(line(4, "[CDW_STEP: Curated]"), &cat, &syn);
    assert_eq!(run.seconds_of("raw"), Some(4));
    run.take_line(line(5, "[CDW_RESULT: PASS flow_1]"), &cat, &syn);
    assert_eq!(run.verdicts, vec![Verdict { label: "flow_1".into(), ok: true }]);
    run.take_line(line(6, "  [CDW_RESULT: MAYBE x] "), &cat, &syn);
    let n = run.logs.len();
    assert_eq!(run.logs[n - 2].stream, StreamType::System);
    assert_eq!(run.logs[n - 2].content, "unrecognised CDW marker, ignored: [CDW_RESULT: MAYBE x]");
    assert_eq!(run.logs[n - 1].content, "  [CDW_RESULT: MAYBE x] ");
    run.take_line(line(7, "[CDW_RUN: second pass]"), &cat, &syn);
    assert!(run.active_step.is_none());
    assert!(run.step_history.is_empty());
    assert_eq!(run.logs.len(), 8);
}

#[test]
fn the_end_of_a_run_is_logged_and_recorded() {
    let mut run = ScriptState::default();
    run.start_run(log("$"), BASE);
    run.begin_step("raw".into(), BASE);
    let h = run.finish("tools/x.py", Environment::Stg, Exit::Exited(Some(3)), at(12));
    assert_eq!(run.status, ScriptStatus::Failed(3));
    assert_eq!(run.end_time, Some(at(12)));
    assert_eq!(run.seconds_of("raw"), Some(12));
    assert_eq!(run.logs.last().unwrap().content, "Process exited with code 3");
    assert_eq!(h.script_name, "tools/x.py");
    assert_eq!(h.environment, Environment::Stg);
    assert_eq!((h.start_time, h.end_time), (BASE, at(12)));
    assert_eq!(h.status, ScriptStatus::Failed(3));

    let mut ok = ScriptState::default();
    assert_eq!(ok.finish("y", Environment::Dev, Exit::Exited(Some(0)), BASE).status, ScriptStatus::Succeeded);
    let mut killed = ScriptState::default();
    assert_eq!(killed.finish("y", Environment::Dev, Exit::Exited(None), BASE).status, ScriptStatus::Failed(-1));
    assert_eq!(killed.logs.last().unwrap().content, "Process exited with code -1");
    let mut lost = ScriptState::default();
    assert_eq!(
        lost.finish("y", Environment::Dev, Exit::WaitFailed, BASE).status,
        ScriptStatus::AppError("Failed to wait on process".into())
    );
}

#[test]
fn a_cancelled_or_unstartable_run_says_so() {
    let mut run = ScriptState::default();
    run.cancel(BASE);
    assert_eq!(run.status, ScriptStatus::Cancelled);
    assert_eq!(run.logs.last().unwrap().content, "Process killed by user.");
    let mut broken = ScriptState::default();
    broken.spawn_failed("No such file", BASE);
    assert_eq!(broken.status, ScriptStatus::AppError("No such file".into()));
    assert_eq!(broken.logs.last().unwrap().content, "Failed to spawn process: No such file");
}

#[test]
fn choices_held_out_of_order_are_still_sent_in_flag_order() {
    let mut a = ScriptState::default();
    a.chosen.push(Choice { flag: "--zone".into(), value: "raw".into() });
    a.chosen.push(Choice { flag: "--case".into(), value: "x.pdf".into() });
    a.chosen.push(Choice { flag: "--indicator".into(), value: String::new() });
    assert_eq!(a.command_args(), vec!["--case", "x.pdf", "--zone", "raw"]);
}

#[test]
fn every_environment_has_its_name_label_and_badge() {
    assert_eq!(Environment::all(), vec![Environment::Sandbox, Environment::Dev, Environment::Stg]);
    assert_eq!(Environment::Sandbox.as_str(), "sandbox");
    assert_eq!(Environment::Sandbox.label(), "Sandbox");
    let badges: Vec<&str> = Environment::all().iter().map(|e| e.badge()).collect();
    assert_eq!(badges, vec!["SBX", "DEV", "STG"]);
}

#[test]
fn each_status_has_its_word_and_a_finished_run_is_offered_again() {
    assert_eq!(status_label(&ScriptStatus::Idle), "Idle");
    assert_eq!(status_label(&ScriptStatus::Failed(3)), "Failed");
    assert_eq!(status_label(&ScriptStatus::AppError("x".into())), "App Error");
    assert_eq!(run_button_text(&ScriptStatus::Succeeded), "Rerun Script");
    assert_eq!(run_button_text(&ScriptStatus::Cancelled), "Rerun Script");
    assert_eq!(run_button_text(&ScriptStatus::Idle), "Run Script");
    assert_eq!(run_button_text(&ScriptStatus::Running), "Run Script");
    assert_eq!(run_button_text(&ScriptStatus::AppError("x".into())), "Run Script");
}

#[test]
fn another_script_mid_run_blocks_a_second_run() {
    let mut state = AppState::new(StepCatalog::defaults(), MarkerSyntax::defaults());
    assert!(!state.can_run());
    state.selected_env = Some(Environment::Sandbox);
    state.selected_script = Some("tools/a.py".into());
    assert!(state.can_run());
    state.running_script = Some("tools/b.py".into());
    assert_eq!(state.busy_with().map(|s| s.as_str()), Some("tools/b.py"));
    assert!(!state.can_run());
    state.selected_script = Some("tools/b.py".into());
    assert_eq!(state.busy_with(), None);
    assert!(state.can_run());
}

#[test]
fn the_sign_in_reminder_comes_back_every_twelve_hours() {
    assert!(auth_reminder_due(None, BASE));
    assert!(!auth_reminder_due(Some(BASE), BASE + 43_199_999));
    assert!(auth_reminder_due(Some(BASE), BASE + 43_200_000));
    assert!(auth_reminder_due(Some(i64::MIN), i64::MAX));
}

#[test]
fn a_flag_held_twice_is_sent_once_at_the_value_it_is_held_at() {
    let mut a = ScriptState::default();
    a.chosen.push(Choice { flag: "--case".into(), value: "x.pdf".into() });
    a.chosen.push(Choice { flag: "--case".into(), value: "y.pdf".into() });
    assert_eq!(a.chosen_value("--case").as_deref(), Some("x.pdf"));
    assert_eq!(a.command_args(), vec!["--case", "x.pdf"]);
}

fn script_meta(path: &str) -> ScriptMeta {
    let arg = |flag: &str, on: bool| ScriptArg { flag: flag.into(), help: String::new(), default_on: on };
    ScriptMeta {
        path: path.into(),
        category: "Flows".into(),
        declared_steps: DeclaredSteps::Unknown,
        args: vec![arg("--apply", false), arg("--verbose", true), arg("--keep", true)],
        choices: vec![],
        summary: String::new(),
        library: false,
    }
}

#[test]
fn a_toggle_turns_off_when_on_and_on_when_off() {
    let mut s = ScriptState::default();
    s.toggle_arg("--apply".into());
    s.toggle_arg("--keep".into());
    assert_eq!(s.enabled_args, vec!["--apply", "--keep"]);
    s.toggle_arg("--apply".into());
    assert_eq!(s.enabled_args, vec!["--keep"]);
    assert_eq!(s.status, ScriptStatus::Idle);
}

#[test]
fn a_script_selected_first_starts_with_its_default_flags_and_keeps_them_after() {
    let mut state = AppState::new(StepCatalog::defaults(), MarkerSyntax::defaults());
    assert_eq!(default_args(&script_meta("tools/a.py")), vec!["--verbose", "--keep"]);
    state.select_script(script_meta("tools/a.py"));
    assert_eq!(state.selected_script.as_deref(), Some("tools/a.py"));
    assert_eq!(state.current().enabled_args, vec!["--verbose", "--keep"]);
    state.entry("tools/a.py").toggle_arg("--verbose".into());
    state.select_script(script_meta("tools/b.py"));
    state.select_script(script_meta("tools/a.py"));
    assert_eq!(state.current().enabled_args, vec!["--keep"]);
    assert_eq!(state.scripts.len(), 2);
}

#[test]
fn trace_components_are_named_once_each_in_order_however_they_are_held() {
    let mut s = ScriptState::default();
    s.traces.push(TraceBlock { component: "worker".into(), lines: vec![] });
    s.traces.push(TraceBlock { component: "api".into(), lines: vec![] });
    s.traces.push(TraceBlock { component: "worker".into(), lines: vec![] });
    assert_eq!(s.trace_names(), vec!["api", "worker"]);
}
