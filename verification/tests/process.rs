use dev_monitor::process::command_line;

#[test]
fn a_python_script_runs_unbuffered_with_each_argument_quoted() {
    let line = command_line("tools/x.py", "dev", &vec!["--case".to_string(), "a b'c".to_string()]);
    assert_eq!(
        line,
        "export CDW_ENV=dev; source deploy/00-variables.sh && exec .venv/bin/python -u tools/x.py '--case' 'a b'\\''c'"
    );
}

#[test]
fn a_shell_script_runs_under_bash() {
    assert_eq!(
        command_line("tools/x.sh", "stg", &vec![]),
        "export CDW_ENV=stg; source deploy/00-variables.sh && exec bash tools/x.sh"
    );
}
