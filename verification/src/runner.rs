//! The recompile-and-execute orchestrator's decisions: the rebuild
//! decision table, build command preparation with quote-aware word
//! splitting, execution outcome classification, trimmed output
//! comparison, the capped recompile-retry step, and per-test result
//! aggregation. The caller does the hashing I/O, spawns processes and
//! measures time; every decision in between is made here.
use vstd::prelude::*;

use crate::registry::{assoc_get, FileCache, FileCacheModel, Files};
use crate::selector::TestsRange;
use crate::template::{
    file_name_chars, file_name_of, find_last, scan_last, spec_template,
    template_config_replacement, TemplateOutcome,
};
use crate::text::{
    chars_eq, chars_of_str, chars_to_string, is_space, str_eq, strings_views, trim_chars, trim_of,
    views_of,
};

verus! {

// ---------------------------------------------------------------------------
// errors and outcomes
// ---------------------------------------------------------------------------
/// A failure of a run: an I/O fault reported by the caller, a
/// compiler that exited non-zero, or anything else.
#[derive(Debug, Clone, PartialEq, Eq)]
pub enum RunError {
    Io(String),
    CompilationError(String),
    Other(String),
}

impl RunError {
    /// A rendering of the failure for display by callers.
    pub fn message(&self) -> (r: String)
        ensures
            match self {
                RunError::Io(m) => r@ == "I/O Error: "@ + m@,
                RunError::CompilationError(m) => r@ == "Compilation Error: "@ + m@,
                RunError::Other(m) => r@ == "Other Error: "@ + m@,
            },
    {
        match self {
            RunError::Io(m) => String::from_str("I/O Error: ").concat(m.as_str()),
            RunError::CompilationError(m) => String::from_str("Compilation Error: ").concat(
                m.as_str(),
            ),
            RunError::Other(m) => String::from_str("Other Error: ").concat(m.as_str()),
        }
    }
}

/// What a spawned binary is fed: the caller's own terminal, or a
/// test's literal input piped to it.
pub enum ExecutionInput {
    InheritFromTerminal,
    CustomInput(String),
}

/// How one execution of the compiled binary ended: a zero exit with
/// its captured output and elapsed milliseconds, a missing binary
/// asking for recompilation, or a non-zero exit.
pub enum ExecutionStatus {
    Successful { output: String, time_elapsed: u64 },
    NeedRecompilation,
    Failed(String),
}

// ---------------------------------------------------------------------------
// the rebuild decision
// ---------------------------------------------------------------------------
/// The reserved fingerprint meaning "the binary is known stale or
/// missing: rebuild next time whatever the content hash says".
pub open spec fn is_pending_sentinel(h: Seq<char>) -> bool {
    h == "PENDING_RECOMPILATION"@
}

/// The sentinel fingerprint value itself.
pub fn pending_recompilation_sentinel() -> (r: &'static str)
    ensures
        is_pending_sentinel(r@),
{
    "PENDING_RECOMPILATION"
}

/// Whether a rebuild is due: always without an entry, and otherwise
/// on a forced run, a fingerprint mismatch, or the sentinel.
pub open spec fn spec_rebuild_needed(
    entry: Option<FileCacheModel>,
    new_hash: Seq<char>,
    force: bool,
) -> bool {
    match entry {
        None => true,
        Some(fc) => force || fc.source_hash != new_hash || is_pending_sentinel(fc.source_hash),
    }
}

/// The rebuild decision table. The returned entry is the one to run
/// with and, after a rebuild, to persist: a fresh entry with no tests
/// when none existed, the old entry untouched on a cache hit, and
/// otherwise the new fingerprint with the existing tests preserved.
pub fn decide_rebuild(entry: Option<FileCache>, new_hash: &str, force_recompile: bool) -> (r: (
    bool,
    FileCache,
))
    ensures
        r.0 == spec_rebuild_needed(
            match entry {
                Some(fc) => Some(fc@),
                None => None,
            },
            new_hash@,
            force_recompile,
        ),
        entry is None ==> r.1@.source_hash == new_hash@ && r.1@.tests == Seq::<
            crate::registry::TestModel,
        >::empty(),
        entry matches Some(fc) ==> {
            &&& !r.0 ==> r.1@ == fc@
            &&& r.0 ==> r.1@.source_hash == new_hash@ && r.1@.tests == fc@.tests
        },
{
    match entry {
        None => {
            let fresh = FileCache { source_hash: String::from_str(new_hash), tests: Vec::new() };
            proof {
                assert(fresh@.tests =~= Seq::<crate::registry::TestModel>::empty());
            }
            (true, fresh)
        },
        Some(fc) => {
            let sentinel = str_eq(fc.source_hash.as_str(), "PENDING_RECOMPILATION");
            let matched = str_eq(fc.source_hash.as_str(), new_hash);
            if matched && !sentinel && !force_recompile {
                (false, fc)
            } else {
                (true, FileCache { source_hash: String::from_str(new_hash), tests: fc.tests })
            }
        },
    }
}

/// The entry with its fingerprint replaced by the sentinel, so that
/// the next decision pass is forced into a rebuild; registered tests
/// stay.
pub fn mark_pending(entry: FileCache) -> (r: FileCache)
    ensures
        is_pending_sentinel(r@.source_hash),
        r@.tests == entry@.tests,
{
    FileCache { source_hash: String::from_str("PENDING_RECOMPILATION"), tests: entry.tests }
}

// ---------------------------------------------------------------------------
// build command preparation
// ---------------------------------------------------------------------------
/// The extension of the path's file name: what follows its last dot,
/// absent when there is no dot or only a leading one.
pub open spec fn extension_of(path: Seq<char>) -> Option<Seq<char>> {
    let f = file_name_of(path);
    if find_last(f, '.') <= 0 {
        None
    } else {
        Some(f.skip(find_last(f, '.') + 1))
    }
}

/// One step of quote-aware word splitting: the words closed so far,
/// the word being built, whether one is being built, and the quote
/// character awaiting its match.
pub struct SplitState {
    pub words: Seq<Seq<char>>,
    pub cur: Seq<char>,
    pub in_word: bool,
    pub quote: Option<char>,
}

pub open spec fn split_init() -> SplitState {
    SplitState { words: Seq::empty(), cur: Seq::empty(), in_word: false, quote: None }
}

/// Inside quotes every character is literal until the matching quote;
/// outside them, a quote of either kind opens a span, whitespace
/// closes the word in progress, and anything else extends it.
pub open spec fn split_step(st: SplitState, c: char) -> SplitState {
    match st.quote {
        Some(q) => {
            if c == q {
                SplitState { words: st.words, cur: st.cur, in_word: st.in_word, quote: None }
            } else {
                SplitState {
                    words: st.words,
                    cur: st.cur.push(c),
                    in_word: st.in_word,
                    quote: st.quote,
                }
            }
        },
        None => {
            if c == '"' || c == '\'' {
                SplitState { words: st.words, cur: st.cur, in_word: true, quote: Some(c) }
            } else if is_space(c) {
                if st.in_word {
                    SplitState {
                        words: st.words.push(st.cur),
                        cur: Seq::empty(),
                        in_word: false,
                        quote: None,
                    }
                } else {
                    st
                }
            } else {
                SplitState { words: st.words, cur: st.cur.push(c), in_word: true, quote: None }
            }
        },
    }
}

pub open spec fn split_run(st: SplitState, s: Seq<char>) -> SplitState
    decreases s.len(),
{
    if s.len() == 0 {
        st
    } else {
        split_run(split_step(st, s[0]), s.skip(1))
    }
}

/// The shell-style words of `s`: separated by unquoted whitespace,
/// with quoted spans taken literally; an unclosed quote runs to the
/// end.
pub open spec fn shell_split(s: Seq<char>) -> Seq<Seq<char>> {
    let e = split_run(split_init(), s);
    if e.in_word {
        e.words.push(e.cur)
    } else {
        e.words
    }
}

/// Splits `v` into shell-style words.
fn shell_split_chars(v: &Vec<char>) -> (r: Vec<String>)
    ensures
        strings_views(r@) == shell_split(v@),
{
    let mut words: Vec<Vec<char>> = Vec::new();
    let mut cur: Vec<char> = Vec::new();
    let mut in_word: bool = false;
    let mut quote_ch: char = ' ';
    let mut quoted: bool = false;
    let mut i: usize = 0;
    proof {
        assert(v@.skip(0) =~= v@);
        assert(views_of(words@) =~= Seq::<Seq<char>>::empty());
    }
    while i < v.len()
        invariant
            i <= v.len(),
            split_run(split_init(), v@) == split_run(
                SplitState {
                    words: views_of(words@),
                    cur: cur@,
                    in_word,
                    quote: if quoted {
                        Some(quote_ch)
                    } else {
                        None
                    },
                },
                v@.skip(i as int),
            ),
        decreases v.len() - i,
    {
        let ghost rest = v@.skip(i as int);
        let ghost stc = SplitState {
            words: views_of(words@),
            cur: cur@,
            in_word,
            quote: if quoted {
                Some(quote_ch)
            } else {
                None
            },
        };
        proof {
            assert(rest[0] == v@[i as int]);
            assert(rest.skip(1) =~= v@.skip(i as int + 1));
        }
        let c = v[i];
        if quoted {
            if c == quote_ch {
                quoted = false;
            } else {
                cur.push(c);
            }
        } else {
            if c == '"' || c == '\'' {
                quote_ch = c;
                quoted = true;
                in_word = true;
            } else if c == ' ' || c == '\t' || c == '\n' || c == '\r' || c == '\u{b}' || c
                == '\u{c}' {
                if in_word {
                    proof {
                        assert(views_of(words@.push(cur)) =~= views_of(words@) + seq![cur@]);
                        assert(views_of(words@).push(cur@) =~= views_of(words@) + seq![cur@]);
                    }
                    words.push(cur);
                    cur = Vec::new();
                    in_word = false;
                }
            } else {
                cur.push(c);
                in_word = true;
            }
        }
        proof {
            let st2 = SplitState {
                words: views_of(words@),
                cur: cur@,
                in_word,
                quote: if quoted {
                    Some(quote_ch)
                } else {
                    None
                },
            };
            assert(split_step(stc, v@[i as int]) == st2);
        }
        i = i + 1;
    }
    proof {
        assert(v@.skip(v@.len() as int) =~= Seq::<char>::empty());
    }
    let mut out: Vec<String> = Vec::new();
    let ghost target = shell_split(v@);
    let ghost closed = if in_word {
        views_of(words@).push(cur@)
    } else {
        views_of(words@)
    };
    if in_word {
        proof {
            assert(views_of(words@.push(cur)) =~= views_of(words@) + seq![cur@]);
            assert(views_of(words@).push(cur@) =~= views_of(words@) + seq![cur@]);
        }
        words.push(cur);
    }
    proof {
        assert(views_of(words@) =~= target);
    }
    let mut k: usize = 0;
    proof {
        assert(strings_views(out@) =~= target.take(0));
    }
    while k < words.len()
        invariant
            k <= words.len(),
            target == views_of(words@),
            target.len() == words@.len(),
            strings_views(out@) =~= target.take(k as int),
        decreases words.len() - k,
    {
        let s = chars_to_string(&words[k]);
        proof {
            assert(views_of(words@)[k as int] == words@[k as int]@);
            assert(strings_views(out@.push(s)) =~= strings_views(out@) + seq![s@]);
            assert(target.take(k as int).push(target[k as int]) =~= target.take(k as int + 1));
        }
        out.push(s);
        k = k + 1;
    }
    proof {
        assert(target.take(words@.len() as int) =~= target);
    }
    out
}

/// Why no runnable build command came out of the configuration.
#[derive(Debug, Clone, PartialEq, Eq)]
pub enum BuildError {
    /// The source path's file name carries no extension.
    MissingFileType,
    /// No build command is configured for the extension.
    UnsupportedExtension(String),
    /// The template rejected the source path; the text names the part.
    TemplateError(String),
    /// The substituted template split into no words at all.
    EmptyCommand,
}

/// What preparing the build command yields.
pub enum BuildOutcome {
    Command(Seq<Seq<char>>),
    NoFileType,
    Unsupported(Seq<char>),
    BadTemplate(Seq<char>),
    Empty,
}

/// The whole preparation: extension, template lookup, substitution,
/// quote-aware split, and the demand that something runnable is left.
pub open spec fn spec_prepare(doc: crate::registry::FilesModel, src: Seq<char>, exe: Seq<char>) -> BuildOutcome {
    match extension_of(src) {
        None => BuildOutcome::NoFileType,
        Some(ext) => match assoc_get(doc.languages_config, ext) {
            None => BuildOutcome::Unsupported(ext),
            Some(template) => match spec_template(template, doc.binary_dir_path, src, exe) {
                TemplateOutcome::BadStem => BuildOutcome::BadTemplate(
                    "Invalid source file stem"@,
                ),
                TemplateOutcome::BadParentName => BuildOutcome::BadTemplate(
                    "Invalid source file parent directory name"@,
                ),
                TemplateOutcome::Done(t) => {
                    if shell_split(t).len() == 0 {
                        BuildOutcome::Empty
                    } else {
                        BuildOutcome::Command(shell_split(t))
                    }
                },
            },
        },
    }
}

/// The argument vector of the build command for `source_path`, from
/// the configured template for its extension.
pub fn prepare_build_command(config: &Files, source_path: &str, exe_extension: &str) -> (r: Result<
    Vec<String>,
    BuildError,
>)
    ensures
        match spec_prepare(config@, source_path@, exe_extension@) {
            BuildOutcome::Command(ws) => r matches Ok(v) && strings_views(v@) == ws,
            BuildOutcome::NoFileType => r == Err::<Vec<String>, BuildError>(
                BuildError::MissingFileType,
            ),
            BuildOutcome::Unsupported(e) => r matches Err(BuildError::UnsupportedExtension(s))
                && s@ == e,
            BuildOutcome::BadTemplate(m) => r matches Err(BuildError::TemplateError(s)) && s@ == m,
            BuildOutcome::Empty => r == Err::<Vec<String>, BuildError>(BuildError::EmptyCommand),
        },
{
    let src = chars_of_str(source_path);
    let fname = file_name_chars(&src);
    let dot = scan_last(&fname, '.');
    if dot <= 1 {
        return Err(BuildError::MissingFileType);
    }
    let ext_chars = crate::text::copy_range(&fname, dot, fname.len());
    proof {
        assert(fname@.subrange(dot as int, fname@.len() as int) =~= fname@.skip(
            find_last(fname@, '.') + 1,
        ));
    }
    let ext = chars_to_string(&ext_chars);
    let template = match config.get_build_command(ext.as_str()) {
        Some(t) => t,
        None => {
            return Err(BuildError::UnsupportedExtension(ext));
        },
    };
    let mut command = template.clone();
    match template_config_replacement(
        &mut command,
        config.binary_dir_path.as_str(),
        source_path,
        exe_extension,
    ) {
        Ok(()) => {},
        Err(m) => {
            return Err(BuildError::TemplateError(String::from_str(m)));
        },
    }
    let cv = chars_of_str(command.as_str());
    let words = shell_split_chars(&cv);
    if words.len() == 0 {
        proof {
            assert(strings_views(words@).len() == 0);
        }
        return Err(BuildError::EmptyCommand);
    }
    Ok(words)
}

// ---------------------------------------------------------------------------
// execution classification and the retry step
// ---------------------------------------------------------------------------
/// The outcome of one attempted execution: a missing binary asks for
/// recompilation, a zero exit succeeds with its output and elapsed
/// time, a non-zero exit fails.
pub fn classify_execution(
    binary_exists: bool,
    exit_success: bool,
    stdout: String,
    elapsed_ms: u64,
) -> (r: ExecutionStatus)
    ensures
        !binary_exists ==> r is NeedRecompilation,
        binary_exists && exit_success ==> (r matches ExecutionStatus::Successful {
            output,
            time_elapsed,
        } && output@ == stdout@ && time_elapsed == elapsed_ms),
        binary_exists && !exit_success ==> (r matches ExecutionStatus::Failed(m) && m@
            == "Binary execution failed"@),
{
    if !binary_exists {
        ExecutionStatus::NeedRecompilation
    } else if exit_success {
        ExecutionStatus::Successful { output: stdout, time_elapsed: elapsed_ms }
    } else {
        ExecutionStatus::Failed(String::from_str("Binary execution failed"))
    }
}

/// Whether the captured output answers the expected output, both
/// sides trimmed of surrounding whitespace.
pub fn outputs_match(expected: &str, actual: &str) -> (r: bool)
    ensures
        r == (trim_of(expected@) == trim_of(actual@)),
{
    let ev = chars_of_str(expected);
    let av = chars_of_str(actual);
    let et = trim_chars(&ev);
    let at = trim_chars(&av);
    chars_eq(&et, &at)
}

/// How far the recompile-retry cycle has gone for one test.
#[derive(Debug, Clone, Copy, PartialEq, Eq, Structural)]
pub struct RetryState {
    pub recompiled: bool,
}

/// What the caller must do next with one test.
pub enum StepDirective {
    /// The test finished: whether it passed, the elapsed
    /// milliseconds, and the captured output.
    Finished { passed: bool, time_elapsed: u64, output: String },
    /// Rebuild the binary and execute once more.
    RecompileAndRetry,
    /// A rebuild was already granted and the binary is still missing:
    /// stop rather than spin.
    Abort(String),
}

/// One step of the per-test execution cycle. A successful run is
/// judged by trimmed output comparison; a failed run finishes the
/// test unpassed with nothing captured; a missing binary is granted
/// exactly one recompilation — the step never asks for a second one.
pub fn execution_step(state: RetryState, status: ExecutionStatus, expected_output: &str) -> (r: (
    RetryState,
    StepDirective,
))
    ensures
        state.recompiled ==> !(r.1 is RecompileAndRetry),
        match status {
            ExecutionStatus::Successful { output, time_elapsed } => r.0 == state && (
            r.1 matches StepDirective::Finished { passed, time_elapsed: t, output: o } && passed
                == (trim_of(expected_output@) == trim_of(output@)) && t == time_elapsed && o@
                == output@),
            ExecutionStatus::Failed(_) => r.0 == state && (r.1 matches StepDirective::Finished {
                passed,
                time_elapsed: t,
                output: o,
            } && passed == false && t == 0 && o@ == Seq::<char>::empty()),
            ExecutionStatus::NeedRecompilation => {
                if !state.recompiled {
                    r == (
                        RetryState { recompiled: true },
                        StepDirective::RecompileAndRetry,
                    )
                } else {
                    r.0 == state && (r.1 matches StepDirective::Abort(m) && m@
                        == "Build succeeded but the binary is still missing"@)
                }
            },
        },
{
    match status {
        ExecutionStatus::Successful { output, time_elapsed } => {
            let passed = outputs_match(expected_output, output.as_str());
            (state, StepDirective::Finished { passed, time_elapsed, output })
        },
        ExecutionStatus::Failed(_) => (
            state,
            StepDirective::Finished { passed: false, time_elapsed: 0, output: String::new() },
        ),
        ExecutionStatus::NeedRecompilation => {
            if !state.recompiled {
                (RetryState { recompiled: true }, StepDirective::RecompileAndRetry)
            } else {
                (
                    state,
                    StepDirective::Abort(
                        String::from_str("Build succeeded but the binary is still missing"),
                    ),
                )
            }
        },
    }
}

// ---------------------------------------------------------------------------
// per-test aggregation
// ---------------------------------------------------------------------------
/// One executed sub-test of a file-linked test: its zero-based index
/// in the definition file, whether it passed, the elapsed
/// milliseconds, and the captured output.
pub struct DetailedStatus {
    pub ref_test_index: usize,
    pub status: bool,
    pub time_elapsed: u64,
    pub output: String,
}

/// The result of running one registered test: a literal test's single
/// verdict, or a file-linked test's aggregate with its per-record
/// details.
pub enum RunResult {
    SingleTest { status: bool, time_elapsed: u64, output: String },
    RefTest {
        status: bool,
        total_test: usize,
        passed_test: usize,
        detailed_status: Vec<DetailedStatus>,
    },
}

/// How many of the executed sub-tests passed.
pub open spec fn count_passed(s: Seq<DetailedStatus>) -> nat
    decreases s.len(),
{
    if s.len() == 0 {
        0
    } else {
        (if s[0].status {
            1nat
        } else {
            0
        }) + count_passed(s.skip(1))
    }
}

/// The platform-appropriate name of the compiled binary for a source
/// file: the file name with `.exe` appended on Windows and `.out`
/// elsewhere; the caller says which platform it is on.
pub fn binary_file_name(filename: &str, windows: bool) -> (r: String)
    ensures
        windows ==> r@ == filename@ + "."@ + "exe"@,
        !windows ==> r@ == filename@ + "."@ + "out"@,
{
    let ext = crate::template::exe_extension_for(windows);
    crate::format::append_extension(ext, String::from_str(filename))
}

/// The verdict letter of one executed sub-test: `P` for a pass, `-`
/// for a failure.
pub open spec fn verdict_letter(d: DetailedStatus) -> char {
    if d.status {
        'P'
    } else {
        '-'
    }
}

/// The one-line verdict strip for a file-linked test: one letter per
/// executed sub-test, in brackets.
pub fn ref_testcases_minimized(detailed_statuses: &Vec<DetailedStatus>) -> (r: String)
    ensures
        r@ == seq!['['] + detailed_statuses@.map_values(|d: DetailedStatus| verdict_letter(d))
            + seq![']'],
{
    let ghost mids = detailed_statuses@.map_values(|d: DetailedStatus| verdict_letter(d));
    let mut letters: Vec<char> = Vec::new();
    letters.push('[');
    let mut i: usize = 0;
    proof {
        assert(letters@ =~= seq!['['] + mids.take(0));
    }
    while i < detailed_statuses.len()
        invariant
            i <= detailed_statuses.len(),
            mids == detailed_statuses@.map_values(|d: DetailedStatus| verdict_letter(d)),
            mids.len() == detailed_statuses@.len(),
            letters@ =~= seq!['['] + mids.take(i as int),
        decreases detailed_statuses.len() - i,
    {
        let c = if detailed_statuses[i].status {
            'P'
        } else {
            '-'
        };
        proof {
            assert(mids[i as int] == verdict_letter(detailed_statuses@[i as int]));
            assert((seq!['['] + mids.take(i as int)).push(mids[i as int]) =~= seq!['['] + mids.take(
                i as int + 1,
            ));
        }
        letters.push(c);
        i = i + 1;
    }
    letters.push(']');
    proof {
        assert(mids.take(detailed_statuses@.len() as int) =~= mids);
        assert((seq!['['] + mids).push(']') =~= seq!['['] + mids + seq![']']);
    }
    chars_to_string(&letters)
}

impl TestsRange {
    /// Whether the 1-based sub-test index falls under this selector:
    /// always when it names the whole main test, else exactly inside
    /// its inclusive sub-range.
    pub fn includes_sub_index(&self, index1: usize) -> (r: bool)
        ensures
            r == match self.sub_tests {
                None => true,
                Some(sr) => sr.start <= index1 && index1 <= sr.end,
            },
    {
        match &self.sub_tests {
            None => true,
            Some(sr) => sr.start <= index1 && index1 <= sr.end,
        }
    }
}

/// The aggregate verdict over the executed sub-tests: all of them
/// passed — trivially so when none ran and none was asked for. When a
/// selection was given and nothing fell under it, the verdict is a
/// failure with zero totals, so an empty selection cannot pass.
pub fn summarize_ref_run(detailed: Vec<DetailedStatus>, selection_missed: bool) -> (r: RunResult)
    ensures
        r matches RunResult::RefTest { status, total_test, passed_test, detailed_status } && (
        detailed_status@ == detailed@) && (if selection_missed {
            status == false && total_test == 0 && passed_test == 0
        } else {
            status == (count_passed(detailed@) == detailed@.len()) && total_test == detailed@.len()
                && passed_test == count_passed(detailed@)
        }),
{
    if selection_missed {
        return RunResult::RefTest {
            status: false,
            total_test: 0,
            passed_test: 0,
            detailed_status: detailed,
        };
    }
    let ghost all = detailed@;
    let mut passed: usize = 0;
    let mut i: usize = 0;
    proof {
        assert(all.skip(0) =~= all);
    }
    while i < detailed.len()
        invariant
            i <= detailed.len(),
            all == detailed@,
            passed <= i,
            count_passed(all) == passed + count_passed(all.skip(i as int)),
        decreases detailed.len() - i,
    {
        proof {
            assert(all.skip(i as int)[0] == all[i as int]);
            assert(all.skip(i as int).skip(1) =~= all.skip(i as int + 1));
        }
        if detailed[i].status {
            passed = passed + 1;
        }
        i = i + 1;
    }
    proof {
        assert(all.skip(detailed@.len() as int) =~= Seq::<DetailedStatus>::empty());
    }
    let total = detailed.len();
    let status = passed == total;
    RunResult::RefTest { status, total_test: total, passed_test: passed, detailed_status: detailed }
}

} // verus!
