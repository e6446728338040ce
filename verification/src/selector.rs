//! The selector range evaluator: turns comma-separated index
//! expressions such as `3`, `2.4` or `1.2-3.4` into ordered selectors,
//! each naming one main test and, optionally, an inclusive sub-test
//! range within it.
use vstd::prelude::*;

use crate::text::{
    chars_of_str, chars_to_string, contains_char, digits_val, is_usize_numeral, numeral_body,
    parse_usize_range, scan_char, split_on, split_on_chars, trim_chars, trim_of, views_of,
};

verus! {

/// Why a selector expression was rejected; each variant carries the
/// offending token or a description of the malformed shape.
#[derive(Debug, Clone, PartialEq, Eq)]
pub enum RangeEvaluationError {
    InvalidRangeFormat(String),
    InvalidNumber(String),
}

impl RangeEvaluationError {
    /// A rendering of the error for display by callers.
    pub fn message(&self) -> (r: String)
        ensures
            match self {
                RangeEvaluationError::InvalidRangeFormat(part) => r@ == "Invalid range format: "@
                    + part@,
                RangeEvaluationError::InvalidNumber(part) => r@ == "Invalid number: "@ + part@,
            },
    {
        match self {
            RangeEvaluationError::InvalidRangeFormat(part) => String::from_str(
                "Invalid range format: ",
            ).concat(part.as_str()),
            RangeEvaluationError::InvalidNumber(part) => String::from_str(
                "Invalid number: ",
            ).concat(part.as_str()),
        }
    }
}

/// An inclusive range of 1-based sub-test indices.
#[derive(Debug, Clone, Copy, PartialEq, Eq)]
pub struct SubTestsRange {
    pub start: usize,
    pub end: usize,
}

/// One selector: a 1-based main test index and, optionally, the
/// sub-tests of it to run; `None` means all of them.
#[derive(Debug, Clone, Copy, PartialEq, Eq)]
pub struct TestsRange {
    pub main_test: usize,
    pub sub_tests: Option<SubTestsRange>,
}

/// What evaluating a selector expression yields: either the selectors
/// in order, or the first error with its offending text.
pub enum SelectorOutcome {
    Ranges(Seq<TestsRange>),
    BadFormat(Seq<char>),
    BadNumber(Seq<char>),
}

pub open spec fn range_format_error_text() -> Seq<char> {
    "Range must have exactly one '-'"@
}

pub open spec fn subtest_format_error_text() -> Seq<char> {
    "Ref-test format must have exactly one '.'"@
}

pub open spec fn numeral_value(s: Seq<char>) -> usize {
    digits_val(numeral_body(s)) as usize
}

/// The selectors for the main indices strictly between `ms` and `me`.
pub open spec fn middle_ranges(ms: usize, me: usize) -> Seq<TestsRange> {
    if me > ms + 1 {
        Seq::new(
            (me - ms - 1) as nat,
            |i: int| TestsRange { main_test: (ms + 1 + i) as usize, sub_tests: None },
        )
    } else {
        Seq::empty()
    }
}

/// The selectors a range expression `A[.a]-B[.b]` denotes: one selector
/// when the main indices agree, otherwise an opening selector running
/// to the end of `A`, one whole-test selector per index in between, and
/// a closing selector from the first sub-test of `B`.
pub open spec fn range_selectors(ms: usize, me: usize, ss: usize, se: usize) -> Seq<TestsRange> {
    if ms == me {
        seq![TestsRange { main_test: ms, sub_tests: Some(SubTestsRange { start: ss, end: se }) }]
    } else {
        seq![
            TestsRange {
                main_test: ms,
                sub_tests: Some(SubTestsRange { start: ss, end: usize::MAX }),
            },
        ] + middle_ranges(ms, me) + seq![
            TestsRange { main_test: me, sub_tests: Some(SubTestsRange { start: 1, end: se }) },
        ]
    }
}

pub open spec fn spec_process_range(expr: Seq<char>) -> SelectorOutcome {
    let parts = split_on(expr, '-');
    if parts.len() != 2 {
        SelectorOutcome::BadFormat(range_format_error_text())
    } else {
        let lp = split_on(parts[0], '.');
        let rp = split_on(parts[1], '.');
        if !is_usize_numeral(lp[0]) {
            SelectorOutcome::BadNumber(lp[0])
        } else if !is_usize_numeral(rp[0]) {
            SelectorOutcome::BadNumber(rp[0])
        } else if lp.len() == 2 && !is_usize_numeral(lp[1]) {
            SelectorOutcome::BadNumber(lp[1])
        } else if rp.len() == 2 && !is_usize_numeral(rp[1]) {
            SelectorOutcome::BadNumber(rp[1])
        } else {
            let ms = numeral_value(lp[0]);
            let me = numeral_value(rp[0]);
            let ss = if lp.len() == 2 {
                numeral_value(lp[1])
            } else {
                1
            };
            let se = if rp.len() == 2 {
                numeral_value(rp[1])
            } else {
                usize::MAX
            };
            SelectorOutcome::Ranges(range_selectors(ms, me, ss, se))
        }
    }
}

pub open spec fn spec_process_subtest(expr: Seq<char>) -> SelectorOutcome {
    let parts = split_on(expr, '.');
    if parts.len() != 2 {
        SelectorOutcome::BadFormat(subtest_format_error_text())
    } else if !is_usize_numeral(parts[0]) {
        SelectorOutcome::BadNumber(parts[0])
    } else if !is_usize_numeral(parts[1]) {
        SelectorOutcome::BadNumber(parts[1])
    } else {
        let sub = numeral_value(parts[1]);
        SelectorOutcome::Ranges(
            seq![
                TestsRange {
                    main_test: numeral_value(parts[0]),
                    sub_tests: Some(SubTestsRange { start: sub, end: sub }),
                },
            ],
        )
    }
}

/// What one selector expression denotes, tried in this order: a range
/// when it holds a `-`, a single sub-test when it holds a `.`, else a
/// bare main index.
pub open spec fn spec_process(expr: Seq<char>) -> SelectorOutcome {
    if contains_char(expr, '-') {
        spec_process_range(expr)
    } else if contains_char(expr, '.') {
        spec_process_subtest(expr)
    } else if is_usize_numeral(expr) {
        SelectorOutcome::Ranges(
            seq![TestsRange { main_test: numeral_value(expr), sub_tests: None }],
        )
    } else {
        SelectorOutcome::BadNumber(expr)
    }
}

/// Evaluation of trimmed expression pieces in order, concatenating
/// their selectors and stopping at the first error.
pub open spec fn spec_eval_pieces(ps: Seq<Seq<char>>) -> SelectorOutcome
    decreases ps.len(),
{
    if ps.len() == 0 {
        SelectorOutcome::Ranges(Seq::empty())
    } else {
        match spec_process(trim_of(ps[0])) {
            SelectorOutcome::Ranges(rs) => match spec_eval_pieces(ps.skip(1)) {
                SelectorOutcome::Ranges(rest) => SelectorOutcome::Ranges(rs + rest),
                e => e,
            },
            e => e,
        }
    }
}

/// What a whole comma-separated selector list denotes.
pub open spec fn spec_evaluate(s: Seq<char>) -> SelectorOutcome {
    spec_eval_pieces(split_on(s, ','))
}

/// How an evaluation result must relate to the outcome the
/// specification assigns to its input.
pub open spec fn outcome_matches(
    o: SelectorOutcome,
    r: Result<Vec<TestsRange>, RangeEvaluationError>,
) -> bool {
    match o {
        SelectorOutcome::Ranges(rs) => r matches Ok(v) && v@ == rs,
        SelectorOutcome::BadFormat(m) => r matches Err(RangeEvaluationError::InvalidRangeFormat(s))
            && s@ == m,
        SelectorOutcome::BadNumber(t) => r matches Err(RangeEvaluationError::InvalidNumber(s))
            && s@ == t,
    }
}

/// Parses one whole piece as a `usize` numeral.
fn parse_piece(piece: &Vec<char>) -> (r: Option<usize>)
    ensures
        match r {
            Some(n) => is_usize_numeral(piece@) && n == numeral_value(piece@),
            None => !is_usize_numeral(piece@),
        },
{
    proof {
        assert(piece@.subrange(0, piece@.len() as int) =~= piece@);
    }
    parse_usize_range(piece, 0, piece.len())
}

fn process_range_expr(expr: &Vec<char>) -> (r: Result<Vec<TestsRange>, RangeEvaluationError>)
    ensures
        outcome_matches(spec_process_range(expr@), r),
{
    let parts = split_on_chars(expr, '-');
    proof {
        assert(views_of(parts@).len() == parts@.len());
    }
    if parts.len() != 2 {
        return Err(
            RangeEvaluationError::InvalidRangeFormat(
                String::from_str("Range must have exactly one '-'"),
            ),
        );
    }
    let lp = split_on_chars(&parts[0], '.');
    let rp = split_on_chars(&parts[1], '.');
    proof {
        assert(views_of(parts@)[0] == parts@[0]@);
        assert(views_of(parts@)[1] == parts@[1]@);
        assert(views_of(lp@).len() == lp@.len());
        assert(views_of(rp@).len() == rp@.len());
        assert(views_of(lp@)[0] == lp@[0]@);
        assert(views_of(rp@)[0] == rp@[0]@);
    }
    let ms = match parse_piece(&lp[0]) {
        Some(n) => n,
        None => {
            return Err(RangeEvaluationError::InvalidNumber(chars_to_string(&lp[0])));
        },
    };
    let me = match parse_piece(&rp[0]) {
        Some(n) => n,
        None => {
            return Err(RangeEvaluationError::InvalidNumber(chars_to_string(&rp[0])));
        },
    };
    let mut ss: usize = 1;
    if lp.len() == 2 {
        proof {
            assert(views_of(lp@)[1] == lp@[1]@);
        }
        ss = match parse_piece(&lp[1]) {
            Some(n) => n,
            None => {
                return Err(RangeEvaluationError::InvalidNumber(chars_to_string(&lp[1])));
            },
        };
    }
    let mut se: usize = usize::MAX;
    if rp.len() == 2 {
        proof {
            assert(views_of(rp@)[1] == rp@[1]@);
        }
        se = match parse_piece(&rp[1]) {
            Some(n) => n,
            None => {
                return Err(RangeEvaluationError::InvalidNumber(chars_to_string(&rp[1])));
            },
        };
    }
    let mut result: Vec<TestsRange> = Vec::new();
    if ms == me {
        result.push(TestsRange { main_test: ms, sub_tests: Some(SubTestsRange { start: ss, end: se }) });
        proof {
            assert(result@ =~= range_selectors(ms, me, ss, se));
        }
    } else {
        result.push(
            TestsRange { main_test: ms, sub_tests: Some(SubTestsRange { start: ss, end: usize::MAX }) },
        );
        if me > ms {
            let mut i: usize = ms + 1;
            while i < me
                invariant
                    ms < i <= me,
                    result@.len() == i - ms,
                    result@[0] == (TestsRange {
                        main_test: ms,
                        sub_tests: Some(SubTestsRange { start: ss, end: usize::MAX }),
                    }),
                    forall|j: int|
                        1 <= j < result@.len() ==> result@[j] == (TestsRange {
                            main_test: (ms + j) as usize,
                            sub_tests: None,
                        }),
                decreases me - i,
            {
                result.push(TestsRange { main_test: i, sub_tests: None });
                i = i + 1;
            }
        }
        result.push(TestsRange { main_test: me, sub_tests: Some(SubTestsRange { start: 1, end: se }) });
        proof {
            assert(result@ =~= range_selectors(ms, me, ss, se));
        }
    }
    Ok(result)
}

fn process_subtest_expr(expr: &Vec<char>) -> (r: Result<Vec<TestsRange>, RangeEvaluationError>)
    ensures
        outcome_matches(spec_process_subtest(expr@), r),
{
    let parts = split_on_chars(expr, '.');
    proof {
        assert(views_of(parts@).len() == parts@.len());
    }
    if parts.len() != 2 {
        return Err(
            RangeEvaluationError::InvalidRangeFormat(
                String::from_str("Ref-test format must have exactly one '.'"),
            ),
        );
    }
    proof {
        assert(views_of(parts@)[0] == parts@[0]@);
        assert(views_of(parts@)[1] == parts@[1]@);
    }
    let main = match parse_piece(&parts[0]) {
        Some(n) => n,
        None => {
            return Err(RangeEvaluationError::InvalidNumber(chars_to_string(&parts[0])));
        },
    };
    let sub = match parse_piece(&parts[1]) {
        Some(n) => n,
        None => {
            return Err(RangeEvaluationError::InvalidNumber(chars_to_string(&parts[1])));
        },
    };
    let mut result: Vec<TestsRange> = Vec::new();
    result.push(
        TestsRange { main_test: main, sub_tests: Some(SubTestsRange { start: sub, end: sub }) },
    );
    proof {
        assert(result@ =~= spec_process_subtest(expr@)->Ranges_0);
    }
    Ok(result)
}

fn process_expr_chars(expr: &Vec<char>) -> (r: Result<Vec<TestsRange>, RangeEvaluationError>)
    ensures
        outcome_matches(spec_process(expr@), r),
{
    let dash = scan_char(expr, 0, '-');
    proof {
        assert(expr@.skip(0) =~= expr@);
    }
    if dash < expr.len() {
        return process_range_expr(expr);
    }
    let dot = scan_char(expr, 0, '.');
    if dot < expr.len() {
        return process_subtest_expr(expr);
    }
    match parse_piece(expr) {
        Some(n) => {
            let mut result: Vec<TestsRange> = Vec::new();
            result.push(TestsRange { main_test: n, sub_tests: None });
            proof {
                assert(result@ =~= spec_process(expr@)->Ranges_0);
            }
            Ok(result)
        },
        None => Err(RangeEvaluationError::InvalidNumber(chars_to_string(expr))),
    }
}

/// Evaluates one selector expression; `evaluate` applies this to each
/// comma-separated piece.
pub fn process_expression(expression: &str) -> (r: Result<Vec<TestsRange>, RangeEvaluationError>)
    ensures
        outcome_matches(spec_process(expression@), r),
{
    let chars = chars_of_str(expression);
    process_expr_chars(&chars)
}

/// Splits the list on commas, trims and evaluates each piece in order,
/// and concatenates the selectors; fails on the first malformed piece,
/// naming it.
pub fn evaluate(expressions: &str) -> (r: Result<Vec<TestsRange>, RangeEvaluationError>)
    ensures
        outcome_matches(spec_evaluate(expressions@), r),
{
    let chars = chars_of_str(expressions);
    let pieces = split_on_chars(&chars, ',');
    let ghost all = views_of(pieces@);
    let mut acc: Vec<TestsRange> = Vec::new();
    let mut i: usize = 0;
    proof {
        assert(all.skip(0) =~= all);
    }
    while i < pieces.len()
        invariant
            i <= pieces.len(),
            all == split_on(expressions@, ','),
            all == views_of(pieces@),
            all.len() == pieces@.len(),
            spec_eval_pieces(all) == match spec_eval_pieces(all.skip(i as int)) {
                SelectorOutcome::Ranges(rest) => SelectorOutcome::Ranges(acc@ + rest),
                e => e,
            },
        decreases pieces.len() - i,
    {
        let trimmed = trim_chars(&pieces[i]);
        proof {
            assert(all[i as int] == pieces@[i as int]@);
            assert(all.skip(i as int).len() > 0);
            assert(all.skip(i as int)[0] == all[i as int]);
            assert(all.skip(i as int).skip(1) =~= all.skip(i as int + 1));
        }
        match process_expr_chars(&trimmed) {
            Ok(mut rs) => {
                let ghost prev = acc@;
                let ghost got = rs@;
                acc.append(&mut rs);
                proof {
                    assert(acc@ == prev + got);
                    let next = spec_eval_pieces(all.skip(i as int + 1));
                    match next {
                        SelectorOutcome::Ranges(rest2) => {
                            assert((prev + got) + rest2 =~= prev + (got + rest2));
                        },
                        _ => {},
                    }
                }
                i = i + 1;
            },
            Err(e) => {
                return Err(e);
            },
        }
    }
    proof {
        assert(all.skip(pieces@.len() as int) =~= Seq::<Seq<char>>::empty());
        assert(acc@ + Seq::<TestsRange>::empty() =~= acc@);
    }
    Ok(acc)
}

} // verus!
