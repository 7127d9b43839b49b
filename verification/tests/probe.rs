use dev_monitor::probe::{answer_line, azure_profile_names, command_line, no_answer_message, quote, Request};

#[test]
fn query_is_quoted_so_it_cannot_break_out_of_the_shell() {
    let line = command_line("dev", &Request::Trace("a'; rm -rf /".into()), "/w/CentralDocumentWarehouse/tools/monitor_probe.py", None);
    assert!(line.ends_with(r#" 'trace' 'a'\''; rm -rf /'"#), "{line}");
}

#[test]
fn reads_the_last_json_line_past_sdk_noise() {
    let out = "warning: something\n{\"status\":\"ok\",\"data\":{\"catalogRows\":3}}\n";
    let line = answer_line(out).expect("a JSON line");
    let value: serde_json::Value = serde_json::from_str(&line).unwrap();
    assert_eq!(value["status"], "ok");
    assert_eq!(value["data"]["catalogRows"], 3);
}

#[test]
fn no_json_surfaces_stderr_rather_than_nothing() {
    assert_eq!(answer_line(""), None);
    let message = no_answer_message("Traceback\nImportError: azure");
    assert!(message.contains("ImportError"), "{message}");
    assert_eq!(message, "The probe exited without a result: Traceback ⏎ ImportError: azure");
}

#[test]
fn silence_on_both_streams_still_says_something() {
    assert_eq!(no_answer_message(""), "The probe exited without a result.");
}

#[test]
fn only_the_last_six_stderr_lines_are_kept() {
    let message = no_answer_message("1\n2\n3\n4\n5\n6\n7\n8");
    assert_eq!(message, "The probe exited without a result: 3 ⏎ 4 ⏎ 5 ⏎ 6 ⏎ 7 ⏎ 8");
}

#[test]
fn the_environment_s_own_profile_is_tried_in_both_cases() {
    assert_eq!(azure_profile_names("dev"), vec!["sbm-DEV".to_string(), "sbm-dev".to_string()]);
}

#[test]
fn a_profile_directory_is_exported_quoted() {
    let line = command_line("stg", &Request::Overview, "/p.py", Some("/home/a b/.azure/sbm-STG"));
    assert_eq!(
        line,
        "export AZURE_CONFIG_DIR='/home/a b/.azure/sbm-STG'; export CDW_ENV='stg'; source deploy/00-variables.sh >/dev/null 2>&1 && exec .venv/bin/python '/p.py' 'overview'"
    );
}

#[test]
fn each_request_has_its_arguments() {
    assert_eq!(Request::Overview.args(), vec!["overview".to_string()]);
    assert_eq!(Request::Trace("k".into()).args(), vec!["trace".to_string(), "k".to_string()]);
    assert_eq!(Request::DeadLetters.args(), vec!["deadletters".to_string()]);
    assert_eq!(Request::Timing.args(), vec!["timing".to_string()]);
}

#[test]
fn a_quote_in_the_text_is_closed_escaped_and_reopened() {
    assert_eq!(quote("it's"), r#"'it'\''s'"#);
    assert_eq!(quote(""), "''");
}
