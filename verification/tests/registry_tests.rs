use erunner::registry::{
    clean, default_document, CacheError, CacheStore, FileCache, Files, Test,
};

fn sample_entry(hash: &str) -> FileCache {
    FileCache {
        source_hash: String::from(hash),
        tests: vec![Test::StringTest {
            input: String::from("5\n"),
            expected_output: String::from("25\n"),
        }],
    }
}

#[test]
fn an_uninitialized_store_refuses_every_operation() {
    let mut store = CacheStore::new_uninitialized();
    assert!(!store.check_initialized());
    assert_eq!(store.get_config().err(), Some(CacheError::NotInitialized));
    assert_eq!(store.get_entry("a.c").err(), Some(CacheError::NotInitialized));
    let doc = default_document(String::from("bin"));
    assert_eq!(store.put_config(doc).err(), Some(CacheError::NotInitialized));
    assert_eq!(
        store.put_entry("a.c", sample_entry("H")).err(),
        Some(CacheError::NotInitialized)
    );
}

#[test]
fn put_config_then_get_config_returns_an_equal_document() {
    let mut store = CacheStore::new_uninitialized();
    store.initialize(default_document(String::from("bin")));
    let mut doc = default_document(String::from("elsewhere"));
    doc.languages_config.push((String::from("rs"), String::from("rustc $(FILE)")));
    store.put_config(doc.clone()).unwrap();
    assert_eq!(store.get_config().unwrap(), &doc);
}

#[test]
fn put_entry_then_get_entry_returns_the_written_entry() {
    let mut store = CacheStore::from_document(default_document(String::from("bin")));
    let entry = sample_entry("HASH-A");
    store.put_entry("main.c", entry.clone()).unwrap();
    assert_eq!(store.get_entry("main.c").unwrap(), Some(&entry));
}

#[test]
fn put_entry_overwrites_and_leaves_other_entries_alone() {
    let mut store = CacheStore::from_document(default_document(String::from("bin")));
    store.put_entry("a.c", sample_entry("H1")).unwrap();
    store.put_entry("b.c", sample_entry("H2")).unwrap();
    let replacement = FileCache { source_hash: String::from("H3"), tests: vec![] };
    store.put_entry("a.c", replacement.clone()).unwrap();
    assert_eq!(store.get_entry("a.c").unwrap(), Some(&replacement));
    assert_eq!(store.get_entry("b.c").unwrap(), Some(&sample_entry("H2")));
}

#[test]
fn a_missing_entry_reads_as_none_not_as_an_error() {
    let store = CacheStore::from_document(default_document(String::from("bin")));
    assert_eq!(store.get_entry("missing.c").unwrap(), None);
}

#[test]
fn the_default_document_configures_c_and_cpp() {
    let doc = default_document(String::from("bin"));
    assert_eq!(doc.binary_dir_path, "bin");
    assert!(doc.files.is_empty());
    assert_eq!(doc.languages_config.len(), 2);
    assert_eq!(doc.languages_config[0].0, "cpp");
    assert_eq!(doc.languages_config[1].0, "c");
}

#[test]
fn clean_keeps_exactly_the_entries_whose_files_still_exist() {
    let mut doc = default_document(String::from("bin"));
    doc.files.push((String::from("a.c"), sample_entry("H1")));
    doc.files.push((String::from("gone.c"), sample_entry("H2")));
    doc.files.push((String::from("b.c"), sample_entry("H3")));
    let existing = vec![String::from("a.c"), String::from("b.c")];
    let cleaned = clean(doc, &existing);
    let names: Vec<&str> = cleaned.files.iter().map(|p| p.0.as_str()).collect();
    assert_eq!(names, vec!["a.c", "b.c"]);
    assert_eq!(cleaned.files[0].1, sample_entry("H1"));
    assert_eq!(cleaned.files[1].1, sample_entry("H3"));
}

#[test]
fn tests_render_with_their_kind_and_contents() {
    let literal = Test::StringTest {
        input: String::from("5"),
        expected_output: String::from("25"),
    };
    assert_eq!(literal.describe(), "Test: (5), Expected: (25)");
    let linked = Test::RefTest {
        input: String::from("t.txt"),
        expected_output: Some(String::from("o.txt")),
    };
    assert_eq!(
        linked.describe(),
        "Test from file: (t.txt), Expected from file: (o.txt)"
    );
    let single = Test::RefTest { input: String::from("t.txt"), expected_output: None };
    assert_eq!(
        single.describe(),
        "Test from file: (t.txt), Expected from file: (none)"
    );
}

#[test]
fn test_kinds_render_as_one_letter_each() {
    let tests = vec![
        Test::StringTest { input: String::from("a"), expected_output: String::from("b") },
        Test::RefTest { input: String::from("t.txt"), expected_output: None },
        Test::StringTest { input: String::new(), expected_output: String::new() },
    ];
    assert_eq!(erunner::registry::test_types_string(&tests), "SRS");
}

#[test]
fn into_document_surrenders_the_backing_document() {
    let store = CacheStore::from_document(default_document(String::from("bin")));
    let doc = store.into_document().unwrap();
    assert_eq!(doc.binary_dir_path, "bin");
    assert!(CacheStore::new_uninitialized().into_document().is_none());
}
