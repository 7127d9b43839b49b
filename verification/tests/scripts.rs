use dev_monitor::marker_syntax::MarkerSyntax;
use dev_monitor::scripts::{
    category_rank, discover, fill_choice_values, parse_meta, parse_pairs, read_column, DeclaredSteps, Language,
    ScriptMeta, HEADER_LINES,
};
use dev_monitor::steps::StepCatalog;

fn meta(text: &str, path: &str) -> ScriptMeta {
    parse_meta(text, path, &StepCatalog::defaults(), &MarkerSyntax::default())
}

#[test]
fn a_declared_script_yields_its_category_steps_and_args() {
    let meta = meta(
        "#!/usr/bin/env python3\n\
         # CDW_SCRIPT: category=Flows; steps=Neo,Landing; summary=does a thing\n\
         # CDW_ARG: --apply  Actually delete.\n\
         print('hi')\n",
        "tools/x.py",
    );
    assert_eq!(meta.category, "Flows");
    assert_eq!(meta.summary, "does a thing");
    assert_eq!(meta.declared_steps, DeclaredSteps::Only(vec!["neo".into(), "landing".into()]));
    assert_eq!(meta.args.len(), 1);
    assert_eq!(meta.args[0].flag, "--apply");
    assert_eq!(meta.args[0].help, "Actually delete.");
}

#[test]
fn an_undeclared_script_still_appears_and_claims_nothing() {
    let meta = meta("#!/usr/bin/env bash\necho hello\n", "tools/old.sh");
    assert_eq!(meta.category, "Other");
    assert!(meta.args.is_empty());
    assert_eq!(meta.steps(), None, "unknown must not be reported as none");
}

#[test]
fn an_unknown_step_name_is_dropped_not_guessed() {
    let meta = meta("# CDW_SCRIPT: steps=Neo,Sausages,Landing\n", "tools/x.py");
    assert_eq!(meta.declared_steps, DeclaredSteps::Only(vec!["neo".into(), "landing".into()]));
}

#[test]
fn step_names_are_matched_the_way_markers_are() {
    let meta = meta("# CDW_SCRIPT: steps=event grid,CONTAINERAPPJOBS\n", "tools/x.py");
    assert_eq!(meta.declared_steps, DeclaredSteps::Only(vec!["eventgrid".into(), "containerappjobs".into()]));
}

#[test]
fn a_declaration_below_the_header_window_is_ignored() {
    let body = format!("{}# CDW_SCRIPT: category=Flows\n", "x\n".repeat(HEADER_LINES + 5));
    assert_eq!(meta(&body, "tools/x.py").category, "Other");
}

#[test]
fn an_arg_without_a_leading_dash_is_not_an_arg() {
    let meta = meta("# CDW_ARG: apply  no dash\n# CDW_ARG: --ok  fine\n", "tools/x.py");
    assert_eq!(meta.args.len(), 1);
    assert_eq!(meta.args[0].flag, "--ok");
}

#[test]
fn steps_none_is_a_claim_to_touch_nothing_and_hides_the_stepper() {
    let meta = meta("# CDW_SCRIPT: steps=none\n", "tools/x.py");
    assert_eq!(meta.declared_steps, DeclaredSteps::NoSteps);
    assert!(meta.has_no_steps());
    assert_eq!(meta.steps(), Some(&[][..]));
}

#[test]
fn an_undeclared_script_is_not_treated_as_touching_nothing() {
    let meta = meta("# CDW_SCRIPT: category=Flows\n", "tools/x.py");
    assert_eq!(meta.declared_steps, DeclaredSteps::Unknown);
    assert!(!meta.has_no_steps());
    assert_eq!(meta.steps(), None);
}

#[test]
fn a_declaration_of_only_typos_is_broken_not_empty() {
    assert_eq!(meta("# CDW_SCRIPT: steps=Sausages,Custard\n", "tools/x.py").declared_steps, DeclaredSteps::Unknown);
}

#[test]
fn the_language_is_read_from_the_extension() {
    assert_eq!(meta("#\n", "tools/a.py").language(), "py");
    assert_eq!(meta("#\n", "tools/b.sh").language(), "sh");
}

#[test]
fn libraries_are_not_offered_as_runnable() {
    let found = vec![meta("# a library\n", "tools/cdw_client.py"), meta("# CDW_SCRIPT: category=Flows\n", "tools/flow_x.py")];
    let names: Vec<String> = discover(found).into_iter().flat_map(|(_, list)| list).map(|m| m.path).collect();
    assert_eq!(names, vec!["tools/flow_x.py"]);
}

#[test]
fn a_script_may_declare_itself_a_library() {
    assert!(meta("# CDW_SCRIPT: library=true\n", "tools/helper.py").library);
}

#[test]
fn groups_come_back_in_reading_order_not_alphabetical() {
    let found = vec![
        meta("# CDW_SCRIPT: category=Maintenance\n", "tools/a.py"),
        meta("# CDW_SCRIPT: category=Flows\n", "tools/b.py"),
        meta("# no declaration\n", "tools/c.py"),
        meta("# CDW_SCRIPT: category=Verification\n", "tools/d.py"),
    ];
    let categories: Vec<String> = discover(found).into_iter().map(|(c, _)| c).collect();
    assert_eq!(categories, vec!["Flows", "Verification", "Maintenance", "Other"]);
}

#[test]
fn scripts_within_a_group_are_ordered_by_name_not_by_the_filesystem() {
    let found: Vec<ScriptMeta> = ["flow_3.py", "flow_1.py", "flow_2.py"]
        .iter()
        .map(|n| meta("# CDW_SCRIPT: category=Flows\n", &format!("tools/{n}")))
        .collect();
    let (_, list) = discover(found).into_iter().next().unwrap();
    let names: Vec<&str> = list.iter().map(|m| m.file_name()).collect();
    assert_eq!(names, vec!["flow_1.py", "flow_2.py", "flow_3.py"]);
}

#[test]
fn a_library_in_a_subdirectory_stays_out_of_the_sidebar() {
    let found = vec![
        meta("# CDW_SCRIPT: library=true\n", "tools/cdw_workflows/flow.py"),
        meta("# CDW_SCRIPT: category=Flows\n", "tools/real.py"),
    ];
    let names: Vec<String> = discover(found).iter().flat_map(|(_, v)| v.iter().map(|m| m.file_name().to_string())).collect();
    assert_eq!(names, vec!["real.py"]);
}

const CORPUS: &str = "# CDW_SCRIPT: category=Flows\n\
                      # CDW_CHOICE: --case @tools/fixtures/m.csv:source_filename  Which document to send\n\
                      # CDW_ARG: --all  Every row\n";

fn with_manifest(csv: &str) -> ScriptMeta {
    let mut m = meta(CORPUS, "tools/corpus.py");
    fill_choice_values(&mut m.choices[0], Some(csv));
    m
}

#[test]
fn a_choice_header_yields_its_flag_column_and_help() {
    let meta = with_manifest("source_filename;ext\na.pdf;PDF\n");
    assert_eq!(meta.choices.len(), 1);
    assert_eq!(meta.choices[0].flag, "--case");
    assert_eq!(meta.choices[0].source, "tools/fixtures/m.csv");
    assert_eq!(meta.choices[0].column, "source_filename");
    assert_eq!(meta.choices[0].help, "Which document to send");
}

#[test]
fn the_values_come_from_the_named_column_of_the_named_file() {
    let meta = with_manifest("source_filename;ext\na.pdf;PDF\nb.ZIP;ZIP\n");
    assert_eq!(meta.choices[0].values, vec!["a.pdf", "b.ZIP"]);
}

#[test]
fn a_byte_order_mark_does_not_hide_the_first_column() {
    let meta = with_manifest("\u{feff}source_filename;ext\na.pdf;PDF\n");
    assert_eq!(meta.choices[0].values, vec!["a.pdf"]);
}

#[test]
fn a_comma_delimited_file_is_read_too() {
    let meta = with_manifest("source_filename,ext\na.pdf,PDF\n");
    assert_eq!(meta.choices[0].values, vec!["a.pdf"]);
}

#[test]
fn a_value_containing_the_other_delimiter_survives() {
    let meta = with_manifest("source_filename;ext\n001.1-AA, B.pdf;PDF\n");
    assert_eq!(meta.choices[0].values, vec!["001.1-AA, B.pdf"]);
}

#[test]
fn a_missing_file_leaves_the_choice_present_with_no_values() {
    let mut m = meta(
        "# CDW_SCRIPT: category=Flows\n\
         # CDW_CHOICE: --case @tools/fixtures/absent.csv:source_filename  Which document\n",
        "tools/corpus.py",
    );
    fill_choice_values(&mut m.choices[0], None);
    assert_eq!(m.choices.len(), 1);
    assert!(m.choices[0].values.is_empty());
}

#[test]
fn a_column_that_is_not_in_the_file_yields_no_values_rather_than_the_first_column() {
    let meta = with_manifest("other;ext\na.pdf;PDF\n");
    assert!(meta.choices[0].values.is_empty());
}

#[test]
fn a_choice_and_a_toggle_coexist() {
    let meta = with_manifest("source_filename;ext\na.pdf;PDF\n");
    assert_eq!(meta.args.len(), 1);
    assert_eq!(meta.args[0].flag, "--all");
    assert_eq!(meta.choices.len(), 1);
}

#[test]
fn a_document_delivered_as_two_copies_is_offered_once() {
    let meta = with_manifest("source_filename;file_type_indicator\nHEER.ZIP;RO\nHEER.ZIP;RW\nb.pdf;RO\n");
    assert_eq!(meta.choices[0].values, vec!["HEER.ZIP", "b.pdf"]);
}

#[test]
fn a_choice_can_list_its_values_inline() {
    let meta = meta(
        "# CDW_SCRIPT: category=Flows\n\
         # CDW_CHOICE: --indicator RO|RW  Which copy to send\n",
        "tools/corpus.py",
    );
    assert_eq!(meta.choices.len(), 1);
    assert_eq!(meta.choices[0].flag, "--indicator");
    assert_eq!(meta.choices[0].values, vec!["RO", "RW"]);
    assert_eq!(meta.choices[0].help, "Which copy to send");
}

#[test]
fn a_choice_with_no_source_is_ignored_rather_than_offered_empty() {
    let meta = meta("# CDW_CHOICE: --case  no source given\n", "tools/x.py");
    assert!(meta.choices.is_empty());
}

#[test]
fn a_column_is_read_in_file_order_without_blank_rows() {
    assert_eq!(read_column("a;b\n1;x\n\n2;y\n", "b"), vec!["x", "y"]);
}

#[test]
fn pairs_are_split_on_semicolons_and_trimmed() {
    let pairs = parse_pairs(" category=Flows; steps = Neo ,Raw ;noequals");
    assert_eq!(pairs, vec![("category".to_string(), "Flows".to_string()), ("steps".to_string(), "Neo ,Raw".to_string())]);
}

#[test]
fn known_categories_come_first_in_reading_order() {
    assert_eq!(
        ["Flows", "Verification", "Simulation", "Maintenance", "Other"].map(category_rank),
        [0, 1, 2, 3, 9]
    );
}

#[test]
fn the_language_filter_keeps_one_language_or_all() {
    let py = meta("print(1)\n", "tools/a.py");
    let sh = meta("echo 1\n", "tools/b.sh");
    assert!(Language::All.matches(&py) && Language::All.matches(&sh));
    assert!(Language::Python.matches(&py) && !Language::Python.matches(&sh));
    assert!(Language::Shell.matches(&sh) && !Language::Shell.matches(&py));
}
