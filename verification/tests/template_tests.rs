use erunner::template::{exe_extension_for, template_config_replacement};

#[test]
fn all_six_macros_are_substituted() {
    let mut config = String::from(
        "g++ $(FILE) -o $(BIN_DIR)/$(FILENAME).$(EXE_EXT) -d $(DIR) -n $(DIRNAME)",
    );
    template_config_replacement(&mut config, "/proj/bin", "/proj/src/main.cpp", "out").unwrap();
    assert_eq!(
        config,
        "g++ /proj/src/main.cpp -o /proj/bin/main.cpp.out -d /proj/src -n src"
    );
}

#[test]
fn a_macro_may_occur_more_than_once() {
    let mut config = String::from("$(FILENAME) $(FILENAME)");
    template_config_replacement(&mut config, "bin", "/a/b.c", "out").unwrap();
    assert_eq!(config, "b.c b.c");
}

#[test]
fn a_template_without_macros_is_left_as_it_is() {
    let mut config = String::from("make all");
    template_config_replacement(&mut config, "bin", "/a/b.c", "out").unwrap();
    assert_eq!(config, "make all");
}

#[test]
fn an_empty_source_path_is_rejected_as_a_missing_stem() {
    let mut config = String::from("cc $(FILE)");
    let err = template_config_replacement(&mut config, "bin", "", "out").unwrap_err();
    assert_eq!(err, "Invalid source file stem");
    assert_eq!(config, "cc $(FILE)");
}

#[test]
fn a_bare_file_name_has_no_parent_directory_name() {
    let mut config = String::from("cc $(FILE)");
    let err = template_config_replacement(&mut config, "bin", "main.c", "out").unwrap_err();
    assert_eq!(err, "Invalid source file parent directory name");
    assert_eq!(config, "cc $(FILE)");
}

#[test]
fn the_executable_extension_follows_the_platform() {
    assert_eq!(exe_extension_for(true), "exe");
    assert_eq!(exe_extension_for(false), "out");
}
