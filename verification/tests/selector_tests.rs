use erunner::selector::{
    evaluate, process_expression, RangeEvaluationError, SubTestsRange, TestsRange,
};

fn whole(main: usize) -> TestsRange {
    TestsRange { main_test: main, sub_tests: None }
}

fn sub(main: usize, start: usize, end: usize) -> TestsRange {
    TestsRange { main_test: main, sub_tests: Some(SubTestsRange { start, end }) }
}

#[test]
fn a_bare_integer_selects_the_whole_main_test() {
    assert_eq!(evaluate("3").unwrap(), vec![whole(3)]);
}

#[test]
fn a_dotted_pair_selects_one_sub_test() {
    assert_eq!(evaluate("2.4").unwrap(), vec![sub(2, 4, 4)]);
}

#[test]
fn a_range_within_one_main_test_is_a_single_selector() {
    assert_eq!(evaluate("1.2-1.5").unwrap(), vec![sub(1, 2, 5)]);
}

#[test]
fn a_range_across_main_tests_opens_spans_and_closes() {
    assert_eq!(
        evaluate("1.2-3.2").unwrap(),
        vec![sub(1, 2, usize::MAX), whole(2), sub(3, 1, 2)]
    );
}

#[test]
fn a_comma_list_concatenates_the_results_in_order() {
    assert_eq!(
        evaluate("1,2.2,3-4").unwrap(),
        vec![
            whole(1),
            sub(2, 2, 2),
            sub(3, 1, usize::MAX),
            sub(4, 1, usize::MAX)
        ]
    );
}

#[test]
fn pieces_are_trimmed_before_evaluation() {
    assert_eq!(evaluate(" 3 , 4 ").unwrap(), vec![whole(3), whole(4)]);
}

#[test]
fn a_non_numeric_expression_is_rejected_with_its_token() {
    match evaluate("abc") {
        Err(RangeEvaluationError::InvalidNumber(tok)) => assert_eq!(tok, "abc"),
        other => panic!("expected an invalid-number error, got {:?}", other),
    }
}

#[test]
fn a_double_dash_range_is_rejected_as_malformed() {
    match evaluate("1-2-3") {
        Err(RangeEvaluationError::InvalidRangeFormat(_)) => {}
        other => panic!("expected an invalid-range error, got {:?}", other),
    }
}

#[test]
fn evaluation_fails_fast_on_the_first_bad_piece() {
    match evaluate("1,x,2") {
        Err(RangeEvaluationError::InvalidNumber(tok)) => assert_eq!(tok, "x"),
        other => panic!("expected an invalid-number error, got {:?}", other),
    }
}

#[test]
fn missing_sub_bounds_default_to_one_and_unbounded() {
    assert_eq!(
        process_expression("2-4.7").unwrap(),
        vec![sub(2, 1, usize::MAX), whole(3), sub(4, 1, 7)]
    );
}

#[test]
fn a_double_dot_reference_is_rejected_as_malformed() {
    match evaluate("1.2.3") {
        Err(RangeEvaluationError::InvalidRangeFormat(_)) => {}
        other => panic!("expected an invalid-range error, got {:?}", other),
    }
}

#[test]
fn an_empty_expression_is_rejected_with_an_empty_token() {
    match evaluate("") {
        Err(RangeEvaluationError::InvalidNumber(tok)) => assert_eq!(tok, ""),
        other => panic!("expected an invalid-number error, got {:?}", other),
    }
}

#[test]
fn the_largest_index_parses_and_one_past_it_does_not() {
    assert_eq!(
        evaluate("18446744073709551615").unwrap(),
        vec![whole(usize::MAX)]
    );
    match evaluate("18446744073709551616") {
        Err(RangeEvaluationError::InvalidNumber(tok)) => {
            assert_eq!(tok, "18446744073709551616")
        }
        other => panic!("expected an invalid-number error, got {:?}", other),
    }
}

#[test]
fn a_plus_sign_is_accepted_before_a_numeral() {
    assert_eq!(evaluate("+7").unwrap(), vec![whole(7)]);
}

#[test]
fn an_error_message_names_the_offending_token() {
    let err = RangeEvaluationError::InvalidNumber(String::from("zz"));
    assert_eq!(err.message(), "Invalid number: zz");
}
