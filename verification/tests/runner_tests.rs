use erunner::registry::{default_document, FileCache, Files, Test};
use erunner::runner::{
    classify_execution, decide_rebuild, execution_step, mark_pending, outputs_match,
    pending_recompilation_sentinel, prepare_build_command, summarize_ref_run, BuildError,
    DetailedStatus, ExecutionStatus, RetryState, RunError, RunResult, StepDirective,
};
use erunner::selector::{SubTestsRange, TestsRange};

fn entry_with_tests(hash: &str) -> FileCache {
    FileCache {
        source_hash: String::from(hash),
        tests: vec![Test::StringTest {
            input: String::from("5\n"),
            expected_output: String::from("25\n"),
        }],
    }
}

// ---------------------------------------------------------------------------
// the rebuild decision table
// ---------------------------------------------------------------------------
#[test]
fn no_entry_means_rebuild_with_a_fresh_empty_test_list() {
    let (rebuild, cache) = decide_rebuild(None, "NEWHASH", false);
    assert!(rebuild);
    assert_eq!(cache.source_hash, "NEWHASH");
    assert!(cache.tests.is_empty());
}

#[test]
fn a_hash_mismatch_means_rebuild_with_the_tests_preserved() {
    let (rebuild, cache) = decide_rebuild(Some(entry_with_tests("OLDHASH")), "NEWHASH", false);
    assert!(rebuild);
    assert_eq!(cache.source_hash, "NEWHASH");
    assert_eq!(cache.tests.len(), 1);
}

#[test]
fn a_hash_match_means_no_rebuild_and_the_entry_untouched() {
    let entry = entry_with_tests("SAMEHASH");
    let (rebuild, cache) = decide_rebuild(Some(entry.clone()), "SAMEHASH", false);
    assert!(!rebuild);
    assert_eq!(cache, entry);
}

#[test]
fn the_sentinel_forces_a_rebuild_whatever_the_hash_says() {
    let entry = entry_with_tests(pending_recompilation_sentinel());
    let (rebuild, cache) = decide_rebuild(Some(entry), pending_recompilation_sentinel(), false);
    assert!(rebuild);
    assert_eq!(cache.source_hash, pending_recompilation_sentinel());
    assert_eq!(cache.tests.len(), 1);
}

#[test]
fn a_forced_run_rebuilds_even_on_a_hash_match() {
    let (rebuild, _) = decide_rebuild(Some(entry_with_tests("H")), "H", true);
    assert!(rebuild);
}

#[test]
fn marking_pending_replaces_the_hash_and_keeps_the_tests() {
    let marked = mark_pending(entry_with_tests("H"));
    assert_eq!(marked.source_hash, pending_recompilation_sentinel());
    assert_eq!(marked.tests.len(), 1);
}

// ---------------------------------------------------------------------------
// build command preparation
// ---------------------------------------------------------------------------
#[test]
fn the_default_c_template_produces_the_gcc_command() {
    let doc = default_document(String::from("bin"));
    let words = prepare_build_command(&doc, "/proj/src/foo.c", "out").unwrap();
    assert_eq!(words, vec!["gcc", "/proj/src/foo.c", "-o", "bin/foo.c.out"]);
}

#[test]
fn quoted_arguments_survive_word_splitting_in_one_piece() {
    let mut doc = default_document(String::from("bin"));
    doc.languages_config.push((
        String::from("zig"),
        String::from("zig build-exe \"$(FILE)\" -femit-bin='$(BIN_DIR)/$(FILENAME).$(EXE_EXT)'"),
    ));
    let words = prepare_build_command(&doc, "/proj/my dir/foo.zig", "out").unwrap();
    assert_eq!(
        words,
        vec![
            "zig",
            "build-exe",
            "/proj/my dir/foo.zig",
            "-femit-bin=bin/foo.zig.out"
        ]
    );
}

#[test]
fn an_unconfigured_extension_is_unsupported() {
    let doc = default_document(String::from("bin"));
    assert_eq!(
        prepare_build_command(&doc, "/proj/foo.zz", "out"),
        Err(BuildError::UnsupportedExtension(String::from("zz")))
    );
}

#[test]
fn a_path_without_an_extension_has_no_file_type() {
    let doc = default_document(String::from("bin"));
    assert_eq!(
        prepare_build_command(&doc, "/proj/foo", "out"),
        Err(BuildError::MissingFileType)
    );
    assert_eq!(
        prepare_build_command(&doc, "/proj/.bashrc", "out"),
        Err(BuildError::MissingFileType)
    );
}

#[test]
fn a_bare_file_name_surfaces_the_template_error() {
    let doc = default_document(String::from("bin"));
    assert_eq!(
        prepare_build_command(&doc, "foo.c", "out"),
        Err(BuildError::TemplateError(String::from(
            "Invalid source file parent directory name"
        )))
    );
}

#[test]
fn run_errors_render_with_their_category() {
    assert_eq!(RunError::Io(String::from("gone")).message(), "I/O Error: gone");
    assert_eq!(
        RunError::CompilationError(String::from("cc")).message(),
        "Compilation Error: cc"
    );
    assert_eq!(RunError::Other(String::from("x")).message(), "Other Error: x");
}

#[test]
fn a_template_of_only_whitespace_leaves_an_empty_command() {
    let doc = Files {
        binary_dir_path: String::from("bin"),
        files: vec![],
        languages_config: vec![(String::from("c"), String::from("   "))],
    };
    assert_eq!(
        prepare_build_command(&doc, "/proj/foo.c", "out"),
        Err(BuildError::EmptyCommand)
    );
}

// ---------------------------------------------------------------------------
// execution classification and the retry step
// ---------------------------------------------------------------------------
#[test]
fn a_missing_binary_asks_for_recompilation() {
    let status = classify_execution(false, true, String::new(), 0);
    assert!(matches!(status, ExecutionStatus::NeedRecompilation));
}

#[test]
fn a_zero_exit_is_successful_with_its_output_and_time() {
    match classify_execution(true, true, String::from("25\n"), 7) {
        ExecutionStatus::Successful { output, time_elapsed } => {
            assert_eq!(output, "25\n");
            assert_eq!(time_elapsed, 7);
        }
        _ => panic!("expected a successful classification"),
    }
}

#[test]
fn a_non_zero_exit_is_a_failure() {
    assert!(matches!(
        classify_execution(true, false, String::new(), 0),
        ExecutionStatus::Failed(_)
    ));
}

#[test]
fn outputs_are_compared_with_both_sides_trimmed() {
    assert!(outputs_match("25\n", " 25 "));
    assert!(outputs_match("a b", "a b\n"));
    assert!(!outputs_match("a b", "a  b"));
}

#[test]
fn a_successful_run_finishes_the_test_by_trimmed_comparison() {
    let state = RetryState { recompiled: false };
    let status = ExecutionStatus::Successful { output: String::from("25\n"), time_elapsed: 3 };
    match execution_step(state, status, "25") {
        (st, StepDirective::Finished { passed, time_elapsed, output }) => {
            assert!(passed);
            assert_eq!(time_elapsed, 3);
            assert_eq!(output, "25\n");
            assert!(!st.recompiled);
        }
        _ => panic!("expected the test to finish"),
    }
}

#[test]
fn a_failed_run_finishes_unpassed_with_nothing_captured() {
    let state = RetryState { recompiled: false };
    match execution_step(state, ExecutionStatus::Failed(String::from("boom")), "25") {
        (_, StepDirective::Finished { passed, time_elapsed, output }) => {
            assert!(!passed);
            assert_eq!(time_elapsed, 0);
            assert_eq!(output, "");
        }
        _ => panic!("expected the test to finish"),
    }
}

#[test]
fn a_missing_binary_is_granted_exactly_one_recompilation() {
    let state = RetryState { recompiled: false };
    let (state, directive) = execution_step(state, ExecutionStatus::NeedRecompilation, "x");
    assert!(matches!(directive, StepDirective::RecompileAndRetry));
    assert!(state.recompiled);
    let (_, directive) = execution_step(state, ExecutionStatus::NeedRecompilation, "x");
    assert!(matches!(directive, StepDirective::Abort(_)));
}

// ---------------------------------------------------------------------------
// aggregation and selection
// ---------------------------------------------------------------------------
fn detail(index: usize, status: bool) -> DetailedStatus {
    DetailedStatus { ref_test_index: index, status, time_elapsed: 1, output: String::new() }
}

#[test]
fn the_aggregate_counts_passes_and_demands_all_of_them() {
    match summarize_ref_run(vec![detail(0, true), detail(1, false), detail(2, true)], false) {
        RunResult::RefTest { status, total_test, passed_test, detailed_status } => {
            assert!(!status);
            assert_eq!(total_test, 3);
            assert_eq!(passed_test, 2);
            assert_eq!(detailed_status.len(), 3);
        }
        _ => panic!("expected an aggregate result"),
    }
}

#[test]
fn an_all_pass_aggregate_succeeds() {
    match summarize_ref_run(vec![detail(0, true), detail(1, true)], false) {
        RunResult::RefTest { status, total_test, passed_test, .. } => {
            assert!(status);
            assert_eq!((total_test, passed_test), (2, 2));
        }
        _ => panic!("expected an aggregate result"),
    }
}

#[test]
fn a_selection_that_matched_nothing_fails_with_zero_totals() {
    match summarize_ref_run(vec![], true) {
        RunResult::RefTest { status, total_test, passed_test, .. } => {
            assert!(!status);
            assert_eq!((total_test, passed_test), (0, 0));
        }
        _ => panic!("expected an aggregate result"),
    }
}

#[test]
fn the_binary_name_follows_the_platform() {
    assert_eq!(erunner::runner::binary_file_name("a.c", false), "a.c.out");
    assert_eq!(erunner::runner::binary_file_name("a.c", true), "a.c.exe");
}

#[test]
fn the_verdict_strip_shows_one_letter_per_sub_test() {
    let details = vec![detail(0, true), detail(1, false), detail(2, true)];
    assert_eq!(erunner::runner::ref_testcases_minimized(&details), "[P-P]");
}

#[test]
fn a_whole_test_selector_includes_every_sub_index() {
    let tr = TestsRange { main_test: 2, sub_tests: None };
    assert!(tr.includes_sub_index(1));
    assert!(tr.includes_sub_index(999));
}

#[test]
fn a_sub_range_selector_includes_exactly_its_inclusive_range() {
    let tr = TestsRange { main_test: 2, sub_tests: Some(SubTestsRange { start: 2, end: 4 }) };
    assert!(!tr.includes_sub_index(1));
    assert!(tr.includes_sub_index(2));
    assert!(tr.includes_sub_index(4));
    assert!(!tr.includes_sub_index(5));
}
