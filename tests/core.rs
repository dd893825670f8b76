use lintrunner::aggregate::{
    get_paths_from_input, group_lints_by_file, plan_patches, remove_patchable_lints,
    sort_and_dedup_paths, LintResults,
};
use lintrunner::lint_config::{
    get_linters_from_config, is_false, ConfigError, LintConfig, LintRunnerConfig,
};
use lintrunner::lint_message::{with_resolved_path, LintMessage, LintSeverity, MessageError, RawLintMessage};
use lintrunner::linter::{init_plan, matches_relative_path, output_lines, paths_file_text, Linter, LinterOutcome};
use lintrunner::path::{get_display_path, path_relative_from, AbsPath, PathError};
use lintrunner::render::{
    context_range, exit_code, line_number_width, oneline, printed_for, summary_line,
    PrintedLintErrors,
};
use lintrunner::diff::{change_sign, pad_left, pad_right, render_diff, ChangeKind};
use lintrunner::render::{context_gutter, detail_of, MessageDetail};
use lintrunner::run::collect_results;
use lintrunner::text::{compare_text, decimal_text, replace_text, split_nonempty};

fn abs(p: &str) -> AbsPath {
    AbsPath::new(p.to_string()).unwrap()
}

fn strings(v: &[&str]) -> Vec<String> {
    v.iter().map(|s| s.to_string()).collect()
}

fn config(code: &str, globs: &[&str], command: &[&str]) -> LintConfig {
    LintConfig {
        code: code.to_string(),
        include_patterns: strings(globs),
        exclude_patterns: None,
        command: strings(command),
        init_command: None,
        is_formatter: false,
    }
}

fn linter(code: &str, globs: &[&str], command: &[&str]) -> Linter {
    Linter {
        code: code.to_string(),
        include_patterns: strings(globs),
        exclude_patterns: vec![],
        commands: strings(command),
        init_commands: None,
        config_path: abs("/repo/.lintrunner.toml"),
    }
}

fn raw(path: Option<&str>, severity: &str, original: Option<&str>, replacement: Option<&str>) -> RawLintMessage {
    RawLintMessage {
        path: path.map(|p| p.to_string()),
        line: Some(1),
        char: Some(1),
        code: "X".to_string(),
        severity: severity.to_string(),
        name: "n".to_string(),
        description: Some("d".to_string()),
        original: original.map(|s| s.to_string()),
        replacement: replacement.map(|s| s.to_string()),
    }
}

fn message(code: &str, path: Option<&str>, replacement: Option<&str>) -> LintMessage {
    LintMessage {
        path: path.map(|p| p.to_string()),
        line: Some(1),
        char: Some(2),
        code: code.to_string(),
        severity: LintSeverity::Warning,
        name: "name".to_string(),
        description: None,
        original: replacement.map(|_| "old".to_string()),
        replacement: replacement.map(|s| s.to_string()),
    }
}

fn error_of(r: Result<Vec<Linter>, ConfigError>) -> ConfigError {
    match r {
        Ok(_) => panic!("expected a configuration error"),
        Err(e) => e,
    }
}

// Check that `*` does not match across path segments.
#[test]
fn test_glob_with_separator() {
    assert!(!matches_relative_path("", "foo/bar/baz", "foo/b*"));
}

#[test]
fn star_stays_within_a_directory_double_star_crosses() {
    assert!(!matches_relative_path("/repo", "/repo/src/sub/a.py", "src/*.py"));
    assert!(matches_relative_path("/repo", "/repo/src/sub/a.py", "src/**/*.py"));
    assert!(matches_relative_path("/repo", "/repo/src/a.py", "src/*.py"));
}

#[test]
fn glob_matching_is_case_sensitive_and_dotfiles_match_star() {
    assert!(!matches_relative_path("/repo", "/repo/A.PY", "*.py"));
    assert!(matches_relative_path("/repo", "/repo/.hidden", "*"));
}

#[test]
fn malformed_pattern_matches_nothing_and_is_refused() {
    assert!(!matches_relative_path("/repo", "/repo/a", "[a"));
    let configs = vec![config("BAD", &["[a"], &["true"])];
    match error_of(get_linters_from_config(&configs, None, None, &abs("/repo/.lintrunner.toml"))) {
        ConfigError::InvalidPattern { code, pattern, .. } => {
            assert_eq!(code, "BAD");
            assert_eq!(pattern, "[a");
        }
        _ => panic!("wrong error"),
    }
}

#[test]
fn linter_star_pattern_stays_in_directory() {
    let l = linter("PY", &["src/*.py"], &["true"]);
    let files = vec![abs("/repo/src/sub/a.py")];
    assert!(l.get_matches(&files).is_empty());
    let l = linter("PY", &["src/**/*.py"], &["true"]);
    assert_eq!(l.get_matches(&files).len(), 1);
}

#[test]
fn exclude_patterns_win_over_include() {
    let mut l = linter("PY", &["**/*.py"], &["true"]);
    l.exclude_patterns = strings(&["gen/**"]);
    let files = vec![abs("/repo/gen/a.py"), abs("/repo/src/b.py"), abs("/repo/c.txt")];
    let matched = l.get_matches(&files);
    assert_eq!(matched.len(), 1);
    assert_eq!(matched[0].as_pathbuf(), "/repo/src/b.py");
}

#[test]
fn no_match_means_no_invocation() {
    let l = linter("PY", &["**/*.py"], &["true"]);
    assert!(l.plan_run(&vec![abs("/repo/a.txt")]).is_none());
    assert!(l.plan_run(&vec![]).is_none());
}

#[test]
fn invocation_lists_matched_files() {
    let l = linter("ALL", &["**"], &["cat", "{{PATHSFILE}}"]);
    let inv = l.plan_run(&vec![abs("/repo/a.txt"), abs("/repo/b/c.txt")]).unwrap();
    assert_eq!(inv.paths_text, "/repo/a.txt\n/repo/b/c.txt\n");
    assert_eq!(inv.cwd, "/repo");
    assert_eq!(inv.matched.len(), 2);
}

#[test]
fn command_args_substitute_paths_file() {
    let l = linter("ALL", &["**"], &["run{{PATHSFILE}}", "--file={{PATHSFILE}}", "@{{PATHSFILE}}{{PATHSFILE}}", "plain"]);
    let args = l.command_args("/tmp/p");
    assert_eq!(args, strings(&["run{{PATHSFILE}}", "--file=/tmp/p", "@/tmp/p/tmp/p", "plain"]));
}

#[test]
fn init_args_substitute_dry_run() {
    let mut l = linter("ALL", &["**"], &["true"]);
    assert!(l.init_args(true).is_none());
    l.init_commands = Some(strings(&["setup", "--dry-run={{DRYRUN}}"]));
    assert_eq!(l.init_args(true).unwrap(), strings(&["setup", "--dry-run=1"]));
    assert_eq!(l.init_args(false).unwrap(), strings(&["setup", "--dry-run=0"]));
    l.init_commands = Some(vec![]);
    assert!(l.init_args(false).is_none());
}

#[test]
fn simple_linter_reports_advice() {
    let l = linter("X", &["**"], &["echo"]);
    let files = vec![abs("/repo/a.txt")];
    assert!(l.plan_run(&files).is_some());
    let outcome = LinterOutcome::Parsed(vec![Ok(raw(Some("/repo/a.txt"), "advice", None, None))]);
    let msgs = l.messages_from_outcome(outcome);
    assert_eq!(msgs.len(), 1);
    let run = collect_results(&vec![msgs], false).ok().unwrap();
    let keys = run.results.sorted_keys();
    assert_eq!(keys, vec![Some("/repo/a.txt".to_string())]);
    let lints = run.results.lints_for(&keys[0]).unwrap();
    assert_eq!(lints.len(), 1);
    assert_eq!(lints[0].severity, LintSeverity::Advice);
    assert_eq!(exit_code(printed_for(&run.results)), 1);
}

#[test]
fn no_files_means_nothing_reported() {
    let l = linter("X", &["**"], &["echo"]);
    assert!(l.plan_run(&vec![]).is_none());
    let run = collect_results(&vec![vec![]], false).ok().unwrap();
    assert!(run.results.is_empty());
    assert_eq!(printed_for(&run.results), PrintedLintErrors::No);
    assert_eq!(exit_code(printed_for(&run.results)), 0);
}

#[test]
fn linter_hard_failure_is_caught() {
    let l = linter("TESTLINTER", &["**"], &["false"]);
    assert!(l.plan_run(&vec![abs("/repo/tests/integration_test.rs")]).is_some());
    let msgs = l.messages_from_outcome(LinterOutcome::Failed {
        stdout: String::new(),
        stderr: String::new(),
    });
    assert_eq!(msgs.len(), 1);
    assert!(msgs[0].path.is_none());
    assert_eq!(msgs[0].severity, LintSeverity::Error);
    assert_eq!(msgs[0].name, "Linter failed");
    assert_eq!(msgs[0].code, "TESTLINTER");
    assert_eq!(
        msgs[0].description.clone().unwrap(),
        "Linter failed. This a bug, please file an issue against the linter maintainer.\n\nCONTEXT:\nLinter command failed with non-zero exit code.\nSTDERR:\n\n\nSTDOUT:\n"
    );
    let run = collect_results(&vec![msgs], false).ok().unwrap();
    assert_eq!(run.results.sorted_keys(), vec![None]);
    assert_eq!(exit_code(printed_for(&run.results)), 1);
}

#[test]
fn linter_nonexistent_command() {
    let l = linter("TESTLINTER", &["**"], &["idonotexist"]);
    let msgs = l.messages_from_outcome(LinterOutcome::SpawnFailed("No such file or directory".to_string()));
    assert_eq!(msgs.len(), 1);
    assert!(msgs[0].path.is_none());
    let d = msgs[0].description.clone().unwrap();
    assert!(d.ends_with("Failed to execute linter command idonotexist: No such file or directory"));
}

#[test]
fn malformed_output_line_becomes_one_failure() {
    let l = linter("TESTLINTER", &["**"], &["echo"]);
    let lines = vec![
        Ok(raw(Some("/repo/a"), "error", None, None)),
        Err("expected value at line 1 column 1".to_string()),
        Ok(raw(Some("/repo/b"), "error", None, None)),
    ];
    let msgs = l.messages_from_outcome(LinterOutcome::Parsed(lines));
    assert_eq!(msgs.len(), 1);
    assert!(msgs[0].path.is_none());
    assert!(msgs[0]
        .description
        .clone()
        .unwrap()
        .contains("Failed to deserialize output for lint adapter: 'TESTLINTER': expected value"));
}

#[test]
fn unknown_severity_is_refused() {
    assert_eq!(LintMessage::from_raw(&raw(None, "fatal", None, None)).unwrap_err(), MessageError::UnknownSeverity);
    let l = linter("T", &["**"], &["echo"]);
    let msgs = l.messages_from_outcome(LinterOutcome::Parsed(vec![Ok(raw(None, "fatal", None, None))]));
    assert_eq!(msgs.len(), 1);
    assert_eq!(msgs[0].name, "Linter failed");
}

#[test]
fn patch_needs_both_texts() {
    assert_eq!(
        LintMessage::from_raw(&raw(Some("/a"), "error", Some("x"), None)).unwrap_err(),
        MessageError::UnpairedPatch
    );
    assert_eq!(
        LintMessage::from_raw(&raw(Some("/a"), "error", None, Some("y"))).unwrap_err(),
        MessageError::UnpairedPatch
    );
    let m = LintMessage::from_raw(&raw(Some("/a"), "error", Some("x"), Some("y"))).unwrap();
    assert_eq!(m.original.as_deref(), Some("x"));
    assert_eq!(m.replacement.as_deref(), Some("y"));
    assert_eq!(m.severity, LintSeverity::Error);
}

#[test]
fn conflicting_patches_fail_the_run() {
    let a = vec![message("A", Some("/repo/x.py"), Some("one"))];
    let b = vec![message("B", Some("/repo/x.py"), Some("two"))];
    match collect_results(&vec![a, b], true) {
        Ok(_) => panic!("expected a conflict"),
        Err(c) => {
            assert_eq!(c.path, "/repo/x.py");
            assert!(c.message().contains("/repo/x.py"));
        }
    }
}

#[test]
fn patches_are_planned_and_fixed_messages_dropped() {
    let a = vec![message("A", Some("/repo/x.py"), Some("fixed")), message("A", Some("/repo/y.py"), None)];
    let run = collect_results(&vec![a], true).ok().unwrap();
    assert_eq!(run.patches.len(), 1);
    assert_eq!(run.patches[0].path, "/repo/x.py");
    assert_eq!(run.patches[0].replacement, "fixed");
    assert_eq!(run.results.sorted_keys(), vec![Some("/repo/y.py".to_string())]);
}

#[test]
fn without_apply_patches_everything_is_reported() {
    let a = vec![message("A", Some("/repo/x.py"), Some("one"))];
    let b = vec![message("B", Some("/repo/x.py"), Some("two"))];
    let run = collect_results(&vec![a, b], false).ok().unwrap();
    assert!(run.patches.is_empty());
    assert_eq!(run.results.lints_for(&Some("/repo/x.py".to_string())).unwrap().len(), 2);
}

#[test]
fn plan_patches_lists_replacements_in_order() {
    let msgs = vec![message("A", Some("/b"), Some("2")), message("A", None, Some("x")), message("A", Some("/a"), Some("1"))];
    let ps = plan_patches(&msgs).ok().unwrap();
    assert_eq!(ps.len(), 2);
    assert_eq!(ps[0].path, "/b");
    assert_eq!(ps[1].replacement, "1");
}

#[test]
fn remove_patchable_lints_keeps_plain_messages() {
    let msgs = vec![message("A", Some("/b"), Some("2")), message("A", Some("/c"), None)];
    let kept = remove_patchable_lints(msgs);
    assert_eq!(kept.len(), 1);
    assert_eq!(kept[0].path.as_deref(), Some("/c"));
}

#[test]
fn failed_linter_does_not_hide_other_findings() {
    let failing = linter("BAD", &["**"], &["false"]).messages_from_outcome(LinterOutcome::Failed {
        stdout: String::new(),
        stderr: "boom".to_string(),
    });
    let good = vec![message("GOOD", Some("/repo/a.py"), None)];
    let run = collect_results(&vec![failing, good], false).ok().unwrap();
    assert_eq!(run.results.sorted_keys(), vec![None, Some("/repo/a.py".to_string())]);
    assert_eq!(run.results.lints_for(&Some("/repo/a.py".to_string())).unwrap()[0].code, "GOOD");
}

#[test]
fn merge_order_does_not_change_files() {
    let a = vec![message("A", Some("/z"), None), message("A", Some("/a"), None)];
    let b = vec![message("B", Some("/m"), None), message("B", None, None)];
    let one = collect_results(&vec![a.clone(), b.clone()], false).ok().unwrap();
    let two = collect_results(&vec![b, a], false).ok().unwrap();
    assert_eq!(one.results.sorted_keys(), two.results.sorted_keys());
    assert_eq!(
        one.results.sorted_keys(),
        vec![None, Some("/a".to_string()), Some("/m".to_string()), Some("/z".to_string())]
    );
}

#[test]
fn grouping_appends_under_each_file() {
    let mut all = LintResults::new();
    group_lints_by_file(&mut all, vec![message("A", Some("/f"), None), message("A", None, None)]);
    group_lints_by_file(&mut all, vec![message("B", Some("/f"), None)]);
    let f = all.lints_for(&Some("/f".to_string())).unwrap();
    assert_eq!(f.len(), 2);
    assert_eq!(f[0].code, "A");
    assert_eq!(f[1].code, "B");
    assert_eq!(all.lints_for(&None).unwrap().len(), 1);
    assert!(all.lints_for(&Some("/g".to_string())).is_none());
}

#[test]
fn skip_nonexistent_linter() {
    let configs = vec![config("TESTLINTER", &["**"], &["wont_be_run"])];
    let e = error_of(get_linters_from_config(&configs, Some(strings(&["MENOEXIST"])), None, &abs("/repo/.lintrunner.toml")));
    match &e {
        ConfigError::UnknownSkipped(c) => assert_eq!(c, "MENOEXIST"),
        _ => panic!("wrong error"),
    }
    assert_eq!(e.message(), "Unknown linter specified in --skip: MENOEXIST");
}

#[test]
fn take_nonexistent_linter() {
    let configs = vec![config("TESTLINTER", &["**"], &["wont_be_run"])];
    match error_of(get_linters_from_config(&configs, None, Some(strings(&["MENOEXIST"])), &abs("/repo/.lintrunner.toml"))) {
        ConfigError::UnknownTaken(c) => assert_eq!(c, "MENOEXIST"),
        _ => panic!("wrong error"),
    }
}

#[test]
fn duplicate_code_fails() {
    let configs = vec![config("DUPE", &["**"], &["wont_be_run"]), config("DUPE", &["**"], &["wont_be_run"])];
    match error_of(get_linters_from_config(&configs, None, None, &abs("/repo/.lintrunner.toml"))) {
        ConfigError::DuplicateCode(c) => assert_eq!(c, "DUPE"),
        _ => panic!("wrong error"),
    }
}

#[test]
fn empty_command_fails() {
    let configs = vec![config("TESTLINTER", &["**"], &[])];
    match error_of(get_linters_from_config(&configs, None, None, &abs("/repo/.lintrunner.toml"))) {
        ConfigError::EmptyCommand(c) => assert_eq!(c, "TESTLINTER"),
        _ => panic!("wrong error"),
    }
}

#[test]
fn excluding_dryrun_fails() {
    let mut c = config("TESTLINTER", &[], &["echo", "foo"]);
    c.init_command = Some(strings(&["echo", "bar"]));
    let cfg = LintRunnerConfig { linters: vec![c], merge_base_with: None };
    match cfg.validate_init_commands() {
        Err(ConfigError::MissingDryRun(code)) => assert_eq!(code, "TESTLINTER"),
        _ => panic!("expected a missing dry-run error"),
    }
    let mut ok = config("OK", &[], &["echo"]);
    ok.init_command = Some(strings(&["init", "--dry={{DRYRUN}}"]));
    let cfg = LintRunnerConfig { linters: vec![ok], merge_base_with: None };
    assert!(cfg.validate_init_commands().is_ok());
}

#[test]
fn take_and_skip_select_linters_in_order() {
    let configs = vec![config("A", &["**"], &["a"]), config("B", &["**"], &["b"]), config("C", &["**"], &["c"])];
    let path = abs("/repo/.lintrunner.toml");
    let all = get_linters_from_config(&configs, None, None, &path).ok().unwrap();
    assert_eq!(all.iter().map(|l| l.code.as_str()).collect::<Vec<_>>(), vec!["A", "B", "C"]);
    let some = get_linters_from_config(&configs, Some(strings(&["B"])), Some(strings(&["C", "B"])), &path).ok().unwrap();
    assert_eq!(some.len(), 1);
    assert_eq!(some[0].code, "C");
    assert_eq!(some[0].commands, strings(&["c"]));
    assert_eq!(some[0].get_config_dir(), "/repo");
}

#[test]
fn abs_path_requires_canonical_text() {
    assert!(AbsPath::new("/".to_string()).is_ok());
    assert!(AbsPath::new("/a/b".to_string()).is_ok());
    assert_eq!(AbsPath::new("a/b".to_string()).unwrap_err(), PathError::NotCanonical);
    assert!(AbsPath::new("/a/../b".to_string()).is_err());
    assert!(AbsPath::new("/a//b".to_string()).is_err());
    assert!(AbsPath::new("/a/./b".to_string()).is_err());
    assert!(AbsPath::new("/a/".to_string()).is_err());
    assert!(AbsPath::new("".to_string()).is_err());
    assert_eq!(abs("/a/b").parent(), "/a");
    assert_eq!(abs("/a").parent(), "/");
    assert_eq!(abs("/").parent(), "/");
}

#[test]
fn relative_paths() {
    assert_eq!(path_relative_from("/foo/bar", "/foo").unwrap(), "bar");
    assert_eq!(path_relative_from("/a/b", "/a/c/d").unwrap(), "../../b");
    assert_eq!(path_relative_from("/a", "/a").unwrap(), "");
    assert_eq!(path_relative_from("/a", "/").unwrap(), "a");
    assert_eq!(path_relative_from("/x/y", "/a/b").unwrap(), "../../x/y");
    assert_eq!(path_relative_from("/foo", "bar").unwrap(), "/foo");
    assert!(path_relative_from("foo", "/bar").is_none());
    assert!(path_relative_from("a/b", "../c").is_none());
    assert!(path_relative_from("a/b", "a/../c").is_none());
    assert_eq!(path_relative_from("a/b", "a/c/..").unwrap(), "../../b");
}

#[test]
fn display_path_falls_back_to_reported_path() {
    assert_eq!(get_display_path("i_dont_exist_wow", &None, "/repo"), "i_dont_exist_wow");
    assert_eq!(get_display_path("src/a.rs", &Some(abs("/repo/src/a.rs")), "/repo"), "src/a.rs");
    assert_eq!(get_display_path("x", &Some(abs("/other/x")), "/repo/sub"), "../../other/x");
}

#[test]
fn files_are_sorted_and_deduplicated() {
    let files = vec![abs("/b"), abs("/a/z"), abs("/b"), abs("/a-b"), abs("/a/z")];
    let sorted = sort_and_dedup_paths(&files);
    let texts: Vec<&str> = sorted.iter().map(|p| p.as_pathbuf()).collect();
    assert_eq!(texts, vec!["/a-b", "/a/z", "/b"]);
    assert!(sort_and_dedup_paths(&vec![]).is_empty());
}

#[test]
fn input_paths_must_all_resolve() {
    let paths = strings(&["a", "b"]);
    let ok = get_paths_from_input(&paths, vec![Some(abs("/r/a")), Some(abs("/r/b"))]).ok().unwrap();
    assert_eq!(ok.len(), 2);
    let err = get_paths_from_input(&paths, vec![Some(abs("/r/a")), None]).unwrap_err();
    assert_eq!(err, "Failed to find provided file: 'b'");
}

#[test]
fn text_helpers() {
    assert_eq!(replace_text("aXXbXX", "XX", "-"), "a-b-");
    assert_eq!(replace_text("aaa", "aa", "b"), "ba");
    assert_eq!(decimal_text(0), "0");
    assert_eq!(decimal_text(1234), "1234");
    assert!(compare_text("a", "b") < 0);
    assert!(compare_text("b", "ab") > 0);
    assert_eq!(compare_text("ab", "ab"), 0);
    assert!(compare_text("ab", "abc") < 0);
    assert_eq!(split_nonempty("a//b/", '/'), strings(&["a", "b"]));
    assert_eq!(output_lines("{}\n\n{}\n"), strings(&["{}", "{}"]));
}

#[test]
fn paths_file_has_one_path_per_line() {
    assert_eq!(paths_file_text(&vec![abs("/a"), abs("/b/c")]), "/a\n/b/c\n");
    assert_eq!(paths_file_text(&vec![]), "");
}

#[test]
fn rendering_text() {
    let m = message("FLAKE8", Some("/repo/a.py"), None);
    assert_eq!(summary_line(&m), "  Warning (FLAKE8) name");
    assert_eq!(oneline(&m, "a.py"), "a.py:1:2 FLAKE8 name");
    let mut g = message("X", None, None);
    g.line = None;
    g.char = None;
    assert_eq!(oneline(&g, "[General linter failure]"), "[General linter failure]:: X name");
    assert_eq!(context_range(10, 100), (6, 12));
    assert_eq!(context_range(1, 2), (0, 1));
    assert_eq!(context_range(0, 0), (0, 0));
    assert_eq!(context_range(50, 10), (46, 9));
    assert_eq!(line_number_width(0), 1);
    assert_eq!(line_number_width(100), 3);
    assert_eq!(exit_code(PrintedLintErrors::No), 0);
}

#[test]
fn severity_names() {
    assert_eq!(LintSeverity::Error.label(), "Error");
    assert_eq!(LintSeverity::Disabled.label(), "Disabled");
    for s in [LintSeverity::Error, LintSeverity::Warning, LintSeverity::Advice, LintSeverity::Disabled] {
        assert_eq!(LintSeverity::from_wire(s.wire_name()), Some(s));
    }
    assert_eq!(LintSeverity::from_wire("Error"), None);
}

#[test]
fn flags_and_messages() {
    assert!(is_false(&false));
    assert!(!is_false(&true));
    assert!(MessageError::UnpairedPatch.message().len() > 0);
}

#[test]
fn diff_hunks_and_gutters() {
    let d = render_diff("a\nb\nc\n", "a\nB\nc\n").unwrap();
    assert_eq!(d.hunks.len(), 1);
    let kinds: Vec<ChangeKind> = d.hunks[0].iter().map(|l| l.kind).collect();
    assert_eq!(kinds, vec![ChangeKind::Equal, ChangeKind::Delete, ChangeKind::Insert, ChangeKind::Equal]);
    let texts: Vec<&str> = d.hunks[0].iter().map(|l| l.text.as_str()).collect();
    assert_eq!(texts, vec!["a\n", "b\n", "B\n", "c\n"]);
    assert_eq!(d.gutters[0], strings(&["1  1", "2   ", "   2", "3  3"]));
    assert_eq!(change_sign(ChangeKind::Delete), "-");
    assert_eq!(change_sign(ChangeKind::Insert), "+");
    assert!(render_diff("same\n", "same\n").unwrap().hunks.is_empty());
}

#[test]
fn diff_gutters_align_to_widest_number() {
    let original: String = (1..=12).map(|i| format!("{}\n", i)).collect();
    let replacement = original.replace("11\n", "eleven\n");
    let d = render_diff(&original, &replacement).unwrap();
    assert_eq!(d.hunks.len(), 1);
    assert_eq!(d.gutters[0][0], " 8   8");
}

#[test]
fn padding_helpers() {
    assert_eq!(pad_left("7", 3), "  7");
    assert_eq!(pad_left("1234", 3), "1234");
    assert_eq!(pad_right("a", 3), "a  ");
}

#[test]
fn message_detail_choice() {
    assert_eq!(detail_of(&message("A", Some("/f"), Some("new"))), MessageDetail::Diff);
    assert_eq!(detail_of(&message("A", Some("/f"), None)), MessageDetail::Context(1));
    assert_eq!(detail_of(&message("A", None, None)), MessageDetail::Nothing);
    assert_eq!(context_gutter(4, true, 2), "    >>>  5  |");
    assert_eq!(context_gutter(9, false, 2), "        10  |");
}

#[test]
fn reported_paths_are_keyed_canonically_or_kept() {
    let m = with_resolved_path(message("A", Some("src/a.py"), None), Some(abs("/repo/src/a.py")));
    assert_eq!(m.path.as_deref(), Some("/repo/src/a.py"));
    assert_eq!(m.code, "A");
    let kept = with_resolved_path(message("A", Some("i_dont_exist_wow"), None), None);
    assert_eq!(kept.path.as_deref(), Some("i_dont_exist_wow"));
    let general = with_resolved_path(message("A", None, None), Some(abs("/x")));
    assert!(general.path.is_none());
}

#[test]
fn init_plan_runs_init_commands_in_config_dir() {
    let mut a = linter("A", &["**"], &["true"]);
    a.init_commands = Some(strings(&["pip", "install", "--dry={{DRYRUN}}"]));
    let b = linter("B", &["**"], &["true"]);
    let plan = init_plan(&vec![a, b], true);
    assert_eq!(plan.len(), 1);
    assert_eq!(plan[0].argv, strings(&["pip", "install", "--dry=1"]));
    assert_eq!(plan[0].cwd, "/repo");
    assert!(init_plan(&vec![], false).is_empty());
}

#[test]
fn ordered_messages_follow_sorted_files() {
    let a = vec![message("A", Some("/z"), None), message("A", Some("/a"), None)];
    let b = vec![message("B", Some("/a"), None), message("B", None, None)];
    let run = collect_results(&vec![a, b], false).ok().unwrap();
    let order: Vec<(Option<String>, String)> = run
        .results
        .ordered_messages()
        .iter()
        .map(|m| (m.path.clone(), m.code.clone()))
        .collect();
    assert_eq!(
        order,
        vec![
            (None, "B".to_string()),
            (Some("/a".to_string()), "A".to_string()),
            (Some("/a".to_string()), "B".to_string()),
            (Some("/z".to_string()), "A".to_string()),
        ]
    );
}

#[test]
fn largest_sizes_do_not_overflow() {
    assert_eq!(context_range(usize::MAX, usize::MAX), (usize::MAX - 4, usize::MAX - 1));
    assert_eq!(decimal_text(usize::MAX), usize::MAX.to_string());
    assert_eq!(line_number_width(usize::MAX), usize::MAX.to_string().len());
    assert_eq!(context_gutter(usize::MAX - 1, false, 0), format!("        {}  |", usize::MAX));
}
