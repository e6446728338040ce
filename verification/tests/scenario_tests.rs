//! The whole flow for one C source file, simulated at the value
//! level: registration, the first compile, a passing run, then an
//! edit that forces recompilation while the registered test survives.
use erunner::hash::fingerprint;
use erunner::registry::{default_document, CacheStore, FileCache, Test};
use erunner::runner::{
    classify_execution, decide_rebuild, execution_step, outputs_match, prepare_build_command,
    ExecutionStatus, RetryState, StepDirective,
};

#[test]
fn register_compile_run_and_recompile_on_edit() {
    let source_v1: &[u8] = b"int main() { int x; scanf(\"%d\", &x); printf(\"%d\\n\", x * x); }";
    let source_v2: &[u8] = b"int main() { int y; scanf(\"%d\", &y); printf(\"%d\\n\", y * y); }";

    // Project initialization: the store gets its first document.
    let mut store = CacheStore::new_uninitialized();
    store.initialize(default_document(String::from("bin")));
    assert!(store.check_initialized());

    // First run: no entry yet, so the decision is to compile.
    let hash_v1 = fingerprint(source_v1);
    assert!(store.get_entry("square.c").unwrap().is_none());
    let (rebuild, mut cache) = decide_rebuild(None, &hash_v1, false);
    assert!(rebuild);
    assert!(cache.tests.is_empty());

    // The build command comes from the configured C template.
    let config = store.get_config().unwrap();
    let command = prepare_build_command(config, "/proj/square.c", "out").unwrap();
    assert_eq!(command[0], "gcc");

    // One literal test is registered and the entry persisted.
    cache.tests.push(Test::StringTest {
        input: String::from("5\n"),
        expected_output: String::from("25\n"),
    });
    store.put_entry("square.c", cache).unwrap();

    // The compiled binary runs and prints the square: the test passes.
    let status = classify_execution(true, true, String::from("25\n"), 4);
    match execution_step(RetryState { recompiled: false }, status, "25\n") {
        (_, StepDirective::Finished { passed, .. }) => assert!(passed),
        _ => panic!("expected the test to finish"),
    }
    assert!(outputs_match("25\n", "25\n"));

    // The source is edited: the fingerprint changes, the next decision
    // pass recompiles, and the registered test list is preserved.
    let hash_v2 = fingerprint(source_v2);
    assert_ne!(hash_v1, hash_v2);
    let entry = store.get_entry("square.c").unwrap().unwrap().clone();
    let (rebuild, cache) = decide_rebuild(Some(entry), &hash_v2, false);
    assert!(rebuild);
    assert_eq!(cache.source_hash, hash_v2);
    assert_eq!(cache.tests.len(), 1);
    match &cache.tests[0] {
        Test::StringTest { input, expected_output } => {
            assert_eq!(input, "5\n");
            assert_eq!(expected_output, "25\n");
        }
        _ => panic!("expected the literal test to survive the edit"),
    }

    // A run whose output is wrong is judged failed by the comparison.
    let wrong = classify_execution(true, true, String::from("24\n"), 4);
    match execution_step(RetryState { recompiled: false }, wrong, "25\n") {
        (_, StepDirective::Finished { passed, .. }) => assert!(!passed),
        _ => panic!("expected the test to finish"),
    }
}

#[test]
fn a_missing_binary_marks_the_entry_pending_and_recovers_once() {
    let mut store = CacheStore::from_document(default_document(String::from("bin")));
    let hash = fingerprint(b"content");
    let entry = FileCache { source_hash: hash.clone(), tests: vec![] };
    store.put_entry("a.c", entry.clone()).unwrap();

    // The binary is gone: the step grants one recompilation, and the
    // entry is marked with the sentinel for the next decision pass.
    let status = classify_execution(false, true, String::new(), 0);
    let (state, directive) = execution_step(RetryState { recompiled: false }, status, "");
    assert!(matches!(directive, StepDirective::RecompileAndRetry));
    let marked = erunner::runner::mark_pending(entry);
    store.put_entry("a.c", marked).unwrap();

    // The sentinel forces the rebuild even though the content hash
    // still matches.
    let stored = store.get_entry("a.c").unwrap().unwrap().clone();
    let (rebuild, _) = decide_rebuild(Some(stored), &hash, false);
    assert!(rebuild);

    // If the binary still does not appear, the cycle stops rather
    // than spinning.
    let status = classify_execution(false, true, String::new(), 0);
    let (_, directive) = execution_step(state, status, "");
    assert!(matches!(directive, StepDirective::Abort(_)));
}
