use erunner::testfile::{merge_test_file, read_test_file, ParseError, SimpleTest};

fn record(it: &mut erunner::testfile::TestFileIterator) -> SimpleTest {
    it.next().expect("expected another record").expect("expected a record, not an error")
}

#[test]
fn a_standalone_block_becomes_one_record_with_empty_output() {
    let mut it = read_test_file("#standalone\n{hello}\n");
    let t = record(&mut it);
    assert_eq!(t.input, "hello");
    assert_eq!(t.expected_output, "");
    assert!(it.next().is_none());
}

#[test]
fn arrow_separated_blocks_pair_into_records_line_by_line() {
    let mut it = read_test_file("{1}->{2}\n{3}->{4}\n");
    let a = record(&mut it);
    assert_eq!((a.input.as_str(), a.expected_output.as_str()), ("1", "2"));
    let b = record(&mut it);
    assert_eq!((b.input.as_str(), b.expected_output.as_str()), ("3", "4"));
    assert!(it.next().is_none());
}

#[test]
fn an_unmatched_closing_bracket_is_a_format_error_and_ends_the_stream() {
    let mut it = read_test_file("}\n{1}->{2}\n");
    match it.next() {
        Some(Err(ParseError::UnmatchedBracket)) => {}
        other => panic!("expected the bracket error, got {:?}", other.map(|r| r.map(|t| t.input))),
    }
    assert!(it.next().is_none());
}

#[test]
fn a_block_without_its_arrow_is_a_format_error() {
    let mut it = read_test_file("{a}{b}\n");
    match it.next() {
        Some(Err(ParseError::MissingArrow)) => {}
        other => panic!("expected the arrow error, got {:?}", other.map(|r| r.map(|t| t.input))),
    }
    assert!(it.next().is_none());
}

#[test]
fn trimming_is_on_by_default() {
    let mut it = read_test_file("{  a  }->{ b }\n");
    let t = record(&mut it);
    assert_eq!((t.input.as_str(), t.expected_output.as_str()), ("a", "b"));
}

#[test]
fn disabling_trim_preserves_surrounding_whitespace() {
    let mut it = read_test_file("#disable:trim\n{  a  }->{ b }\n");
    let t = record(&mut it);
    assert_eq!((t.input.as_str(), t.expected_output.as_str()), ("  a  ", " b "));
}

#[test]
fn multi_line_blocks_are_trimmed_line_by_line() {
    let mut it = read_test_file("{\n hello \n world \n}->{x}\n");
    let t = record(&mut it);
    assert_eq!(t.input, "hello\nworld");
    assert_eq!(t.expected_output, "x");
}

#[test]
fn standalone_emits_each_block_alone() {
    let mut it = read_test_file("#standalone\n{a}\n{b}\n");
    assert_eq!(record(&mut it).input, "a");
    assert_eq!(record(&mut it).input, "b");
    assert!(it.next().is_none());
}

#[test]
fn modifier_words_are_matched_case_insensitively() {
    let mut it = read_test_file("#DISABLE:trim\n{ a }->{b}\n");
    let t = record(&mut it);
    assert_eq!(t.input, " a ");
}

#[test]
fn unrecognized_flag_names_are_silently_ignored() {
    let mut it = read_test_file("#frobnicate\n{a}->{b}\n");
    let t = record(&mut it);
    assert_eq!((t.input.as_str(), t.expected_output.as_str()), ("a", "b"));
}

#[test]
fn explicit_newline_embeds_escaped_newlines() {
    let mut it = read_test_file("#explicit-newline\n{a\\nb}->{c}\n");
    let t = record(&mut it);
    assert_eq!(t.input, "a\nb");
    assert_eq!(t.expected_output, "c");
}

#[test]
fn without_explicit_newline_backslashes_pass_through() {
    let mut it = read_test_file("{a\\nb}->{c}\n");
    let t = record(&mut it);
    assert_eq!(t.input, "a\\nb");
}

#[test]
fn the_rest_of_a_line_after_an_emitted_record_is_discarded() {
    let mut it = read_test_file("{1}->{2}{3}->{4}\n");
    let t = record(&mut it);
    assert_eq!((t.input.as_str(), t.expected_output.as_str()), ("1", "2"));
    assert!(it.next().is_none());
}

#[test]
fn end_of_file_with_an_open_block_yields_nothing_more() {
    let mut it = read_test_file("{unclosed\n");
    assert!(it.next().is_none());
}

#[test]
fn a_dash_inside_a_block_is_literal_content() {
    let mut it = read_test_file("{a-b}->{c}\n");
    let t = record(&mut it);
    assert_eq!(t.input, "a-b");
}

#[test]
fn an_arrow_inside_a_block_counts_and_keeps_its_angle() {
    // The dash of an arrow is always dropped; the angle bracket is
    // ordinary content while a block is open.
    let mut it = read_test_file("{a->b}->{c}\n");
    let t = record(&mut it);
    assert_eq!((t.input.as_str(), t.expected_output.as_str()), ("a>b", "c"));
}

#[test]
fn the_line_end_newline_leaks_into_the_next_block_when_trim_is_off() {
    // The newline appended at each line end goes into the buffer
    // whatever the nesting depth; only trimming normally hides it.
    let mut it = read_test_file("#disable:trim\n{a}->\n{b}\n");
    let t = record(&mut it);
    assert_eq!((t.input.as_str(), t.expected_output.as_str()), ("a", "\nb"));
}

#[test]
fn trimming_hides_the_leaked_newline_by_default() {
    let mut it = read_test_file("{a}->\n{b}\n");
    let t = record(&mut it);
    assert_eq!((t.input.as_str(), t.expected_output.as_str()), ("a", "b"));
}

#[test]
fn a_directive_may_stand_between_the_blocks_of_one_record() {
    let mut it = read_test_file("{a}->\n#disable:trim\n{ b }\n");
    let t = record(&mut it);
    assert_eq!((t.input.as_str(), t.expected_output.as_str()), ("a", "\n b "));
}

#[test]
fn parse_errors_render_with_their_texts() {
    assert_eq!(
        ParseError::UnmatchedBracket.message(),
        "Unmatched closing bracket"
    );
    assert_eq!(
        ParseError::MissingArrow.message(),
        "Each input must be piped to output using '->'."
    );
}

#[test]
fn an_empty_file_yields_nothing() {
    let mut it = read_test_file("");
    assert!(it.next().is_none());
}

#[test]
fn directive_lines_may_be_indented() {
    let mut it = read_test_file("   #standalone\n{a}\n");
    let t = record(&mut it);
    assert_eq!((t.input.as_str(), t.expected_output.as_str()), ("a", ""));
}

#[test]
fn an_empty_block_counts_as_no_captured_input() {
    // An empty input block leaves the record still waiting for its
    // input, so the next block is taken as the input, not the output.
    let mut it = read_test_file("#standalone\n{}\n{a}\n");
    assert_eq!(record(&mut it).input, "");
    assert_eq!(record(&mut it).input, "a");
}

#[test]
fn nested_braces_are_stripped_and_their_content_kept() {
    let mut it = read_test_file("{a{b}c}->{d}\n");
    let t = record(&mut it);
    assert_eq!(t.input, "abc");
}

#[test]
fn simple_test_new_is_empty() {
    let t = SimpleTest::new();
    assert_eq!(t.input, "");
    assert_eq!(t.expected_output, "");
}

#[test]
fn merging_pairs_the_nth_records_and_stops_at_the_shorter_stream() {
    let inputs = read_test_file("#standalone\n{1}\n{2}\n{3}\n");
    let outputs = read_test_file("#standalone\n{a}\n{b}\n");
    let mut merged = merge_test_file(inputs, outputs);
    let first = merged.next().unwrap().unwrap();
    assert_eq!((first.input.as_str(), first.expected_output.as_str()), ("1", "a"));
    let second = merged.next().unwrap().unwrap();
    assert_eq!((second.input.as_str(), second.expected_output.as_str()), ("2", "b"));
    assert!(merged.next().is_none());
}

#[test]
fn a_parse_error_on_either_side_is_passed_on_by_the_merge() {
    let inputs = read_test_file("#standalone\n{1}\n");
    let outputs = read_test_file("}\n");
    let mut merged = merge_test_file(inputs, outputs);
    match merged.next() {
        Some(Err(ParseError::UnmatchedBracket)) => {}
        other => panic!("expected the bracket error, got {:?}", other.map(|r| r.map(|t| t.input))),
    }
}
