//! The test-definition parser: a stateful, line-driven scanner that
//! turns brace-delimited blocks, `->` separators and `#` directive
//! lines into a forward-only sequence of input / expected-output
//! records; and the merge iterator that pairs two such streams.
use vstd::prelude::*;

use crate::text::{
    chars_to_string, chars_of_str, copy_range, is_space, is_space_char, join_chars, join_with,
    lower_ascii, range_eq_str, range_eq_str_ignore_ascii_case, scan_char, split_lines,
    split_lines_chars, trim_back, trim_chars, trim_of, views_of,
};

verus! {

/// A literal input / expected-output pair: the unit a test-definition
/// file is parsed into.
#[derive(Clone)]
pub struct SimpleTest {
    pub input: String,
    pub expected_output: String,
}

impl SimpleTest {
    /// An empty record: both sides are empty strings.
    pub fn new() -> (t: Self)
        ensures
            t.input@ == Seq::<char>::empty(),
            t.expected_output@ == Seq::<char>::empty(),
    {
        SimpleTest { input: String::new(), expected_output: String::new() }
    }
}

impl Default for SimpleTest {
    fn default() -> (t: Self)
        ensures
            t.input@ == Seq::<char>::empty(),
            t.expected_output@ == Seq::<char>::empty(),
    {
        SimpleTest::new()
    }
}

/// A format fault in a test-definition file. Such a fault is fatal for
/// the enclosing parse: the stream yields nothing after reporting it.
#[derive(Debug, Clone, Copy, PartialEq, Eq, Structural)]
pub enum ParseError {
    /// A closing bracket appeared with no block open.
    UnmatchedBracket,
    /// A block closed as expected output without exactly one `->`
    /// since the input block.
    MissingArrow,
}

impl ParseError {
    /// A rendering of the fault for display by callers.
    pub fn message(&self) -> (r: String)
        ensures
            match self {
                ParseError::UnmatchedBracket => r@ == "Unmatched closing bracket"@,
                ParseError::MissingArrow => r@
                    == "Each input must be piped to output using '->'."@,
            },
    {
        match self {
            ParseError::UnmatchedBracket => String::from_str("Unmatched closing bracket"),
            ParseError::MissingArrow => String::from_str(
                "Each input must be piped to output using '->'.",
            ),
        }
    }
}

/// The three directive-controlled flags, with their defaults.
#[derive(Debug, Clone, Copy, PartialEq, Eq, Structural)]
pub struct ParserFlags {
    /// Emit a record from each input block alone, with empty expected
    /// output.
    pub standalone: bool,
    /// Trim each closed block: the whole text and every line of it.
    pub trim: bool,
    /// Treat `\n` in the source as an embedded newline and append no
    /// newline at the ends of physical lines.
    pub explicit_newline: bool,
}

pub open spec fn default_flags() -> ParserFlags {
    ParserFlags { standalone: false, trim: true, explicit_newline: false }
}

/// The scanning state carried across characters and lines: the brace
/// nesting depth, the arrow counter, the block buffer, and the input
/// text of a record still waiting for its output block.
pub struct ScanState {
    pub depth: nat,
    pub arrows: nat,
    pub buffer: Seq<char>,
    pub pending: Seq<char>,
}

pub open spec fn reset_state() -> ScanState {
    ScanState { depth: 0, arrows: 0, buffer: Seq::empty(), pending: Seq::empty() }
}

/// The arrow counter saturates at two: only "exactly one arrow" is
/// ever asked of it, so higher counts need not be distinguished.
pub open spec fn bump_arrows(a: nat) -> nat {
    if a < 2 {
        a + 1
    } else {
        a
    }
}

/// What scanning one line can end in: the line consumed with a new
/// state, a record emitted (the rest of the line is discarded), or a
/// fatal format fault.
pub enum LineOutcome {
    Proceed(ScanState),
    Emit(ScanState, Seq<char>, Seq<char>),
    Fail(ParseError),
}

/// A closed block's text: trimmed as a whole and line by line when the
/// trim flag is on, otherwise taken as buffered.
pub open spec fn block_text(raw: Seq<char>, trim_flag: bool) -> Seq<char> {
    if trim_flag {
        join_with(split_lines(trim_of(raw)).map_values(|l: Seq<char>| trim_of(l)), seq!['\n'])
    } else {
        raw
    }
}

/// One line of a test-definition file, scanned character by character.
/// Braces adjust the nesting depth and are never kept; characters are
/// buffered only inside a block; `-` immediately before `>` counts an
/// arrow and is dropped; with `explicit-newline` on, `\` followed by
/// `n` buffers a newline and consumes both characters. A block closing
/// at depth zero becomes the pending input — emitted at once when
/// `standalone` is on — or, after exactly one arrow, the expected
/// output of the record, which is then emitted.
pub open spec fn scan_chars(fl: ParserFlags, st: ScanState, cs: Seq<char>) -> LineOutcome
    decreases cs.len(),
{
    if cs.len() == 0 {
        LineOutcome::Proceed(st)
    } else {
        let c = cs[0];
        if c == '{' {
            scan_chars(
                fl,
                ScanState {
                    depth: st.depth + 1,
                    arrows: st.arrows,
                    buffer: st.buffer,
                    pending: st.pending,
                },
                cs.skip(1),
            )
        } else if c == '-' && cs.len() >= 2 && cs[1] == '>' {
            scan_chars(
                fl,
                ScanState {
                    depth: st.depth,
                    arrows: bump_arrows(st.arrows),
                    buffer: st.buffer,
                    pending: st.pending,
                },
                cs.skip(1),
            )
        } else if c == '\\' && fl.explicit_newline && cs.len() >= 2 && cs[1] == 'n' {
            scan_chars(
                fl,
                ScanState {
                    depth: st.depth,
                    arrows: st.arrows,
                    buffer: st.buffer.push('\n'),
                    pending: st.pending,
                },
                cs.skip(2),
            )
        } else if c == '}' {
            if st.depth == 0 {
                LineOutcome::Fail(ParseError::UnmatchedBracket)
            } else if st.depth == 1 {
                let inner = block_text(st.buffer, fl.trim);
                if st.pending.len() == 0 {
                    if fl.standalone {
                        LineOutcome::Emit(reset_state(), inner, Seq::empty())
                    } else {
                        scan_chars(
                            fl,
                            ScanState {
                                depth: 0,
                                arrows: 0,
                                buffer: Seq::empty(),
                                pending: inner,
                            },
                            cs.skip(1),
                        )
                    }
                } else if st.arrows == 1 {
                    LineOutcome::Emit(reset_state(), st.pending, inner)
                } else {
                    LineOutcome::Fail(ParseError::MissingArrow)
                }
            } else {
                scan_chars(
                    fl,
                    ScanState {
                        depth: (st.depth - 1) as nat,
                        arrows: st.arrows,
                        buffer: st.buffer,
                        pending: st.pending,
                    },
                    cs.skip(1),
                )
            }
        } else {
            if st.depth > 0 {
                scan_chars(
                    fl,
                    ScanState {
                        depth: st.depth,
                        arrows: st.arrows,
                        buffer: st.buffer.push(c),
                        pending: st.pending,
                    },
                    cs.skip(1),
                )
            } else {
                scan_chars(fl, st, cs.skip(1))
            }
        }
    }
}

// ---------------------------------------------------------------------------
// directives
// ---------------------------------------------------------------------------
/// Whether a line is a directive: its trimmed text starts with `#`.
pub open spec fn is_directive_line(l: Seq<char>) -> bool {
    trim_of(l).len() > 0 && trim_of(l)[0] == '#'
}

pub open spec fn lowered_ascii(s: Seq<char>) -> Seq<char> {
    s.map_values(|c: char| lower_ascii(c))
}

/// What a modifier word asks: enable, disable, or (for any other word)
/// no change. The comparison ignores ASCII case.
pub open spec fn modifier_action(m: Seq<char>) -> Option<bool> {
    if lowered_ascii(m) == "disable"@ {
        Some(false)
    } else if lowered_ascii(m) == "enable"@ {
        Some(true)
    } else {
        None
    }
}

/// The flags with one named flag set as asked; an unrecognized name
/// changes nothing.
pub open spec fn flag_update(fl: ParserFlags, name: Seq<char>, action: Option<bool>) -> ParserFlags {
    match action {
        None => fl,
        Some(b) => {
            if name == "standalone"@ {
                ParserFlags { standalone: b, trim: fl.trim, explicit_newline: fl.explicit_newline }
            } else if name == "trim"@ {
                ParserFlags {
                    standalone: fl.standalone,
                    trim: b,
                    explicit_newline: fl.explicit_newline,
                }
            } else if name == "explicit-newline"@ {
                ParserFlags { standalone: fl.standalone, trim: fl.trim, explicit_newline: b }
            } else {
                fl
            }
        },
    }
}

/// The flags after a directive line: the text after the first `#` is
/// either `modifier:flag-name` — the name trimmed, the modifier
/// compared case-insensitively — or a bare flag name, untrimmed, which
/// enables the flag.
pub open spec fn apply_directive(fl: ParserFlags, l: Seq<char>) -> ParserFlags {
    let h = crate::text::sep_break(l, '#');
    if h == l.len() {
        fl
    } else {
        let full = l.skip(h as int + 1);
        let ci = crate::text::sep_break(full, ':');
        if ci == full.len() {
            flag_update(fl, full, Some(true))
        } else {
            flag_update(fl, trim_of(full.skip(ci as int + 1)), modifier_action(full.take(ci as int)))
        }
    }
}

// ---------------------------------------------------------------------------
// the stream model
// ---------------------------------------------------------------------------
/// The abstract state of a parser: its flags, its scanning state, the
/// lines not yet consumed, and whether a fatal fault was reported.
pub struct ParserModel {
    pub flags: ParserFlags,
    pub st: ScanState,
    pub rest: Seq<Seq<char>>,
    pub failed: bool,
}

pub open spec fn initial_model(text: Seq<char>) -> ParserModel {
    ParserModel {
        flags: default_flags(),
        st: reset_state(),
        rest: split_lines(text),
        failed: false,
    }
}

/// One pull on the stream: directive lines adjust the flags; a content
/// line is scanned, and — unless `explicit-newline` is on — ends by
/// appending a newline to the buffer, whatever the nesting depth; a
/// record or fault ends the pull, consuming the rest of its line; the
/// end of the lines ends the stream.
pub open spec fn spec_next(m: ParserModel) -> (ParserModel, Option<
    Result<(Seq<char>, Seq<char>), ParseError>,
>)
    decreases m.rest.len(),
{
    if m.failed || m.rest.len() == 0 {
        (m, None)
    } else {
        let line = m.rest[0];
        if is_directive_line(line) {
            spec_next(
                ParserModel {
                    flags: apply_directive(m.flags, line),
                    st: m.st,
                    rest: m.rest.skip(1),
                    failed: false,
                },
            )
        } else {
            match scan_chars(m.flags, m.st, line) {
                LineOutcome::Proceed(st) => {
                    let st2 = if m.flags.explicit_newline {
                        st
                    } else {
                        ScanState {
                            depth: st.depth,
                            arrows: st.arrows,
                            buffer: st.buffer.push('\n'),
                            pending: st.pending,
                        }
                    };
                    spec_next(
                        ParserModel { flags: m.flags, st: st2, rest: m.rest.skip(1), failed: false },
                    )
                },
                LineOutcome::Emit(st, input, output) => (
                    ParserModel { flags: m.flags, st, rest: m.rest.skip(1), failed: false },
                    Some(Ok((input, output))),
                ),
                LineOutcome::Fail(e) => (
                    ParserModel {
                        flags: m.flags,
                        st: reset_state(),
                        rest: m.rest.skip(1),
                        failed: true,
                    },
                    Some(Err(e)),
                ),
            }
        }
    }
}

/// Law: the stream is forward-only and finite. A pull never grows
/// what is left to read, and a pull that yields an item consumes at
/// least one line — so a file of `n` lines yields at most `n` items.
pub proof fn lemma_next_advances(m: ParserModel)
    ensures
        spec_next(m).0.rest.len() <= m.rest.len(),
        spec_next(m).1 is Some ==> spec_next(m).0.rest.len() < m.rest.len(),
    decreases m.rest.len(),
{
    if m.failed || m.rest.len() == 0 {
    } else {
        let line = m.rest[0];
        if is_directive_line(line) {
            lemma_next_advances(
                ParserModel {
                    flags: apply_directive(m.flags, line),
                    st: m.st,
                    rest: m.rest.skip(1),
                    failed: false,
                },
            );
        } else {
            match scan_chars(m.flags, m.st, line) {
                LineOutcome::Proceed(st) => {
                    let st2 = if m.flags.explicit_newline {
                        st
                    } else {
                        ScanState {
                            depth: st.depth,
                            arrows: st.arrows,
                            buffer: st.buffer.push('\n'),
                            pending: st.pending,
                        }
                    };
                    lemma_next_advances(
                        ParserModel { flags: m.flags, st: st2, rest: m.rest.skip(1), failed: false },
                    );
                },
                LineOutcome::Emit(_, _, _) => {
                },
                LineOutcome::Fail(_) => {
                },
            }
        }
    }
}

/// Law: a format fault is fatal for the enclosing parse — once the
/// stream has failed, a pull changes nothing and yields nothing.
pub proof fn lemma_failed_stream_is_over(m: ParserModel)
    requires
        m.failed,
    ensures
        spec_next(m) == (m, None::<Result<(Seq<char>, Seq<char>), ParseError>>),
{
}

/// How an emitted item must relate to the item the model yields.
pub open spec fn item_matches(
    i: Option<Result<(Seq<char>, Seq<char>), ParseError>>,
    r: Option<Result<SimpleTest, ParseError>>,
) -> bool {
    match (i, r) {
        (None, None) => true,
        (Some(Ok((a, b))), Some(Ok(t))) => t.input@ == a && t.expected_output@ == b,
        (Some(Err(e1)), Some(Err(e2))) => e1 == e2,
        _ => false,
    }
}

// ---------------------------------------------------------------------------
// helpers shared by the executable parser
// ---------------------------------------------------------------------------
pub proof fn lemma_trim_back_keeps_head(s: Seq<char>)
    requires
        s.len() > 0,
        !is_space(s[0]),
    ensures
        trim_back(s).len() > 0,
        trim_back(s)[0] == s[0],
    decreases s.len(),
{
    if s.len() > 0 && is_space(s[s.len() - 1]) {
        let t = s.take(s.len() - 1);
        assert(t[0] == s[0]);
        lemma_trim_back_keeps_head(t);
    }
}

/// Whether the line is a directive line.
fn directive_check(line: &Vec<char>) -> (r: bool)
    ensures
        r == is_directive_line(line@),
{
    let mut a: usize = 0;
    proof {
        assert(line@.skip(0) =~= line@);
    }
    while a < line.len() && is_space_char(line[a])
        invariant
            a <= line.len(),
            crate::text::trim_front(line@) == crate::text::trim_front(line@.skip(a as int)),
        decreases line.len() - a,
    {
        proof {
            assert(line@.skip(a as int).skip(1) =~= line@.skip(a as int + 1));
        }
        a = a + 1;
    }
    if a == line.len() {
        proof {
            assert(line@.skip(a as int) =~= Seq::<char>::empty());
            assert(trim_of(line@).len() == 0);
        }
        false
    } else {
        proof {
            let s = line@.skip(a as int);
            assert(s[0] == line@[a as int]);
            assert(crate::text::trim_front(line@) == s);
            lemma_trim_back_keeps_head(s);
        }
        line[a] == '#'
    }
}

/// The flags after one directive line.
fn apply_directive_exec(line: &Vec<char>, fl: ParserFlags) -> (r: ParserFlags)
    ensures
        r == apply_directive(fl, line@),
{
    let h = scan_char(line, 0, '#');
    proof {
        assert(line@.skip(0) =~= line@);
        crate::text::lemma_find_char_idx_le(line@, '#');
    }
    if h == line.len() {
        return fl;
    }
    let ghost full = line@.skip(h as int + 1);
    let ci = scan_char(line, h + 1, ':');
    proof {
        crate::text::lemma_find_char_idx_le(full, ':');
        assert(ci - (h + 1) == crate::text::find_char_idx(full, ':'));
    }
    if ci == line.len() {
        proof {
            assert(crate::text::sep_break(full, ':') == full.len());
            assert(full =~= line@.subrange(h as int + 1, line@.len() as int));
        }
        let enabled = flag_name_update(line, h + 1, line.len(), fl, true);
        proof {
            assert(line@.subrange(h as int + 1, line@.len() as int) =~= full);
        }
        enabled
    } else {
        proof {
            assert(crate::text::sep_break(full, ':') == ci - (h + 1));
            assert(full.take(ci - (h + 1)) =~= line@.subrange(h as int + 1, ci as int));
            assert(full.skip(ci - (h + 1) + 1) =~= line@.subrange(ci as int + 1, line@.len() as int));
        }
        let action_disable = range_eq_str_ignore_ascii_case(line, h + 1, ci, "disable");
        let action_enable = range_eq_str_ignore_ascii_case(line, h + 1, ci, "enable");
        let name_raw = copy_range(line, ci + 1, line.len());
        let name = trim_chars(&name_raw);
        proof {
            assert(name@ == trim_of(full.skip(ci - (h + 1) + 1)));
        }
        if action_disable {
            let updated = flag_name_vec_update(&name, fl, false);
            updated
        } else if action_enable {
            let updated = flag_name_vec_update(&name, fl, true);
            updated
        } else {
            proof {
                assert(modifier_action(full.take(ci - (h + 1))) is None);
            }
            fl
        }
    }
}

/// The flags with the named range of `line` set to `value`, as
/// `flag_update` describes.
fn flag_name_update(line: &Vec<char>, from: usize, to: usize, fl: ParserFlags, value: bool) -> (r:
    ParserFlags)
    requires
        from <= to <= line@.len(),
    ensures
        r == flag_update(fl, line@.subrange(from as int, to as int), Some(value)),
{
    if range_eq_str(line, from, to, "standalone") {
        ParserFlags { standalone: value, trim: fl.trim, explicit_newline: fl.explicit_newline }
    } else if range_eq_str(line, from, to, "trim") {
        ParserFlags { standalone: fl.standalone, trim: value, explicit_newline: fl.explicit_newline }
    } else if range_eq_str(line, from, to, "explicit-newline") {
        ParserFlags { standalone: fl.standalone, trim: fl.trim, explicit_newline: value }
    } else {
        fl
    }
}

/// The flags with the named flag set to `value`.
fn flag_name_vec_update(name: &Vec<char>, fl: ParserFlags, value: bool) -> (r: ParserFlags)
    ensures
        r == flag_update(fl, name@, Some(value)),
{
    proof {
        assert(name@.subrange(0, name@.len() as int) =~= name@);
    }
    flag_name_update(name, 0, name.len(), fl, value)
}

/// A closed block's text, as `block_text` describes.
fn block_text_exec(raw: &Vec<char>, trim_flag: bool) -> (r: Vec<char>)
    ensures
        r@ == block_text(raw@, trim_flag),
{
    if !trim_flag {
        let whole = copy_range(raw, 0, raw.len());
        proof {
            assert(whole@ =~= raw@);
        }
        whole
    } else {
        let t = trim_chars(raw);
        let ls = split_lines_chars(&t);
        let ghost target = split_lines(trim_of(raw@)).map_values(|l: Seq<char>| trim_of(l));
        let mut trimmed: Vec<Vec<char>> = Vec::new();
        let mut k: usize = 0;
        proof {
            assert(views_of(trimmed@) =~= target.take(0));
        }
        while k < ls.len()
            invariant
                k <= ls.len(),
                views_of(ls@) == split_lines(trim_of(raw@)),
                target == split_lines(trim_of(raw@)).map_values(|l: Seq<char>| trim_of(l)),
                target.len() == ls@.len(),
                views_of(trimmed@) =~= target.take(k as int),
            decreases ls.len() - k,
        {
            let piece = trim_chars(&ls[k]);
            proof {
                assert(views_of(ls@)[k as int] == ls@[k as int]@);
                assert(target[k as int] == trim_of(ls@[k as int]@));
                assert(views_of(trimmed@.push(piece)) =~= views_of(trimmed@) + seq![piece@]);
                assert(target.take(k as int).push(target[k as int]) =~= target.take(k as int + 1));
            }
            trimmed.push(piece);
            k = k + 1;
        }
        proof {
            assert(target.take(ls@.len() as int) =~= target);
        }
        join_chars(&trimmed, '\n')
    }
}

// ---------------------------------------------------------------------------
// the executable parser
// ---------------------------------------------------------------------------
/// The total character count of a sequence of lines.
pub open spec fn seqs_total_len(ls: Seq<Seq<char>>) -> nat
    decreases ls.len(),
{
    if ls.len() == 0 {
        0
    } else {
        ls[0].len() + seqs_total_len(ls.skip(1))
    }
}

pub proof fn lemma_split_lines_total(s: Seq<char>)
    ensures
        seqs_total_len(split_lines(s)) <= s.len(),
    decreases s.len(),
{
    if s.len() > 0 {
        let i = crate::text::sep_break(s, '\n');
        if i == s.len() {
            assert(split_lines(s) =~= seq![s]);
            assert(seq![s].skip(1) =~= Seq::<Seq<char>>::empty());
            assert(seqs_total_len(Seq::<Seq<char>>::empty()) == 0);
            assert(seq![s][0] == s);
            assert(seqs_total_len(seq![s]) == s.len() + seqs_total_len(seq![s].skip(1)));
        } else {
            lemma_split_lines_total(s.skip(i as int + 1));
            let head = crate::text::strip_cr(s.take(i as int));
            let rest = split_lines(s.skip(i as int + 1));
            assert((seq![head] + rest).skip(1) =~= rest);
            assert((seq![head] + rest)[0] == head);
            assert(head.len() <= i);
        }
    }
}

/// A pull-based parser over the text of one test-definition file.
/// The stream is forward-only and not restartable; after a format
/// fault it yields nothing further.
pub struct TestFileIterator {
    lines: Vec<Vec<char>>,
    idx: usize,
    depth: usize,
    arrows: usize,
    buffer: Vec<char>,
    pending: Vec<char>,
    flags: ParserFlags,
    failed: bool,
}

impl View for TestFileIterator {
    type V = ParserModel;

    closed spec fn view(&self) -> ParserModel {
        ParserModel {
            flags: self.flags,
            st: ScanState {
                depth: self.depth as nat,
                arrows: self.arrows as nat,
                buffer: self.buffer@,
                pending: self.pending@,
            },
            rest: views_of(self.lines@).skip(self.idx as int),
            failed: self.failed,
        }
    }
}

impl TestFileIterator {
    /// Well-formedness: the consumed prefix is in range, the arrow
    /// counter is saturated, and the depth counter cannot outrun the
    /// characters still unread.
    pub closed spec fn wf(self) -> bool {
        &&& self.idx <= self.lines@.len()
        &&& self.arrows <= 2
        &&& self.depth + seqs_total_len(views_of(self.lines@).skip(self.idx as int)) <= usize::MAX
    }

    /// A parser over the given file contents, with default flags.
    pub fn new(contents: &str) -> (p: Self)
        ensures
            p.wf(),
            p@ == initial_model(contents@),
    {
        let chars = chars_of_str(contents);
        let lines = split_lines_chars(&chars);
        let p = TestFileIterator {
            lines,
            idx: 0,
            depth: 0,
            arrows: 0,
            buffer: Vec::new(),
            pending: Vec::new(),
            flags: ParserFlags { standalone: false, trim: true, explicit_newline: false },
            failed: false,
        };
        proof {
            lemma_split_lines_total(chars@);
            assert(views_of(p.lines@).skip(0) =~= views_of(p.lines@));
            assert(p@.st == reset_state());
            assert(p@.rest == split_lines(contents@));
            assert(p@ == initial_model(contents@));
        }
        p
    }

    /// The next record of the stream: `None` at the end of the file —
    /// also after a fault, and even if a block was left open —
    /// otherwise the next complete record or the fatal format fault.
    pub fn next(&mut self) -> (r: Option<Result<SimpleTest, ParseError>>)
        requires
            old(self).wf(),
        ensures
            final(self).wf(),
            final(self)@ == spec_next(old(self)@).0,
            item_matches(spec_next(old(self)@).1, r),
    {
        let ghost m0 = old(self)@;
        loop
            invariant
                self.wf(),
                m0 == old(self)@,
                spec_next(m0) == spec_next(self@),
            decreases self.lines@.len() - self.idx,
        {
            if self.failed || self.idx == self.lines.len() {
                proof {
                    if !self.failed {
                        assert(views_of(self.lines@).skip(self.idx as int)
                            =~= Seq::<Seq<char>>::empty());
                    }
                    assert(spec_next(self@) == (self@, None::<
                        Result<(Seq<char>, Seq<char>), ParseError>,
                    >));
                }
                return None;
            }
            let ghost mcur = self@;
            let ghost line = mcur.rest[0];
            proof {
                assert(mcur.rest[0] == views_of(self.lines@)[self.idx as int]);
                assert(line == self.lines@[self.idx as int]@);
                assert(mcur.rest.skip(1) =~= views_of(self.lines@).skip(self.idx as int + 1));
                assert(seqs_total_len(mcur.rest) == line.len() + seqs_total_len(mcur.rest.skip(1)));
            }
            if directive_check(&self.lines[self.idx]) {
                let new_flags = apply_directive_exec(&self.lines[self.idx], self.flags);
                self.flags = new_flags;
                self.idx = self.idx + 1;
                proof {
                    assert(views_of(self.lines@).skip(self.idx as int) =~= mcur.rest.skip(1));
                    assert(self@ == ParserModel {
                        flags: apply_directive(mcur.flags, line),
                        st: mcur.st,
                        rest: mcur.rest.skip(1),
                        failed: false,
                    });
                    assert(spec_next(mcur) == spec_next(self@));
                }
            } else {
                let line_len = self.lines[self.idx].len();
                let ghost st_entry = mcur.st;
                let mut j: usize = 0;
                proof {
                    assert(line.skip(0) =~= line);
                }
                while j < line_len
                    invariant
                        m0 == old(self)@,
                        j <= line_len,
                        line_len == line.len(),
                        self.idx < self.lines@.len(),
                        self.lines@.len() <= usize::MAX,
                        line == self.lines@[self.idx as int]@,
                        self.flags == mcur.flags,
                        self.failed == false,
                        views_of(self.lines@).skip(self.idx as int) == mcur.rest,
                        self.arrows <= 2,
                        self.depth + (line_len - j) + seqs_total_len(mcur.rest.skip(1))
                            <= usize::MAX,
                        scan_chars(mcur.flags, st_entry, line) == scan_chars(
                            mcur.flags,
                            self@.st,
                            line.skip(j as int),
                        ),
                        spec_next(m0) == spec_next(mcur),
                        mcur.failed == false,
                        mcur.rest.len() > 0,
                        mcur.rest[0] == line,
                        !is_directive_line(line),
                        mcur.st == st_entry,
                    decreases line_len - j,
                {
                    let ghost stj = self@.st;
                    let ghost cs = line.skip(j as int);
                    proof {
                        assert(cs.len() == line_len - j);
                        assert(cs[0] == line[j as int]);
                        assert(cs.skip(1) =~= line.skip(j as int + 1));
                    }
                    let c = self.lines[self.idx][j];
                    if c == '{' {
                        self.depth = self.depth + 1;
                        j = j + 1;
                        proof {
                            assert(scan_chars(mcur.flags, stj, cs) == scan_chars(
                                mcur.flags,
                                self@.st,
                                line.skip(j as int),
                            ));
                        }
                    } else if c == '-' && j + 1 < line_len && self.lines[self.idx][j + 1] == '>' {
                        proof {
                            assert(cs[1] == line[j as int + 1]);
                        }
                        if self.arrows < 2 {
                            self.arrows = self.arrows + 1;
                        }
                        j = j + 1;
                        proof {
                            assert(self@.st.arrows == bump_arrows(stj.arrows));
                            assert(scan_chars(mcur.flags, stj, cs) == scan_chars(
                                mcur.flags,
                                self@.st,
                                line.skip(j as int),
                            ));
                        }
                    } else if c == '\\' && self.flags.explicit_newline && j + 1 < line_len
                        && self.lines[self.idx][j + 1] == 'n' {
                        proof {
                            assert(cs[1] == line[j as int + 1]);
                            assert(cs.skip(2) =~= line.skip(j as int + 2));
                        }
                        self.buffer.push('\n');
                        j = j + 2;
                        proof {
                            assert(scan_chars(mcur.flags, stj, cs) == scan_chars(
                                mcur.flags,
                                self@.st,
                                line.skip(j as int),
                            ));
                        }
                    } else if c == '}' {
                        if self.depth == 0 {
                            proof {
                                assert(scan_chars(mcur.flags, stj, cs) == LineOutcome::Fail(
                                    ParseError::UnmatchedBracket,
                                ));
                            }
                            self.failed = true;
                            self.arrows = 0;
                            self.buffer = Vec::new();
                            self.pending = Vec::new();
                            self.idx = self.idx + 1;
                            proof {
                                assert(views_of(self.lines@).skip(self.idx as int) =~= mcur
                                    .rest.skip(1));
                                assert(self@.st == reset_state());
                                assert(self@ == spec_next(mcur).0);
                            }
                            return Some(Err(ParseError::UnmatchedBracket));
                        } else if self.depth == 1 {
                            let inner = block_text_exec(&self.buffer, self.flags.trim);
                            proof {
                                assert(inner@ == block_text(stj.buffer, mcur.flags.trim));
                            }
                            if self.pending.len() == 0 {
                                if self.flags.standalone {
                                    let t = SimpleTest {
                                        input: chars_to_string(&inner),
                                        expected_output: String::new(),
                                    };
                                    proof {
                                        assert(scan_chars(mcur.flags, stj, cs)
                                            == LineOutcome::Emit(
                                            reset_state(),
                                            inner@,
                                            Seq::empty(),
                                        ));
                                    }
                                    self.depth = 0;
                                    self.arrows = 0;
                                    self.buffer = Vec::new();
                                    self.pending = Vec::new();
                                    self.idx = self.idx + 1;
                                    proof {
                                        assert(views_of(self.lines@).skip(self.idx as int) =~= mcur
                                            .rest.skip(1));
                                        assert(self@.st == reset_state());
                                        assert(self@ == spec_next(mcur).0);
                                    }
                                    return Some(Ok(t));
                                } else {
                                    self.depth = 0;
                                    self.arrows = 0;
                                    self.buffer = Vec::new();
                                    self.pending = inner;
                                    j = j + 1;
                                    proof {
                                        assert(self@.st == ScanState {
                                            depth: 0,
                                            arrows: 0,
                                            buffer: Seq::<char>::empty(),
                                            pending: block_text(stj.buffer, mcur.flags.trim),
                                        });
                                        assert(scan_chars(mcur.flags, stj, cs) == scan_chars(
                                            mcur.flags,
                                            self@.st,
                                            line.skip(j as int),
                                        ));
                                    }
                                }
                            } else if self.arrows == 1 {
                                let t = SimpleTest {
                                    input: chars_to_string(&self.pending),
                                    expected_output: chars_to_string(&inner),
                                };
                                proof {
                                    assert(scan_chars(mcur.flags, stj, cs) == LineOutcome::Emit(
                                        reset_state(),
                                        stj.pending,
                                        inner@,
                                    ));
                                }
                                self.depth = 0;
                                self.arrows = 0;
                                self.buffer = Vec::new();
                                self.pending = Vec::new();
                                self.idx = self.idx + 1;
                                proof {
                                    assert(views_of(self.lines@).skip(self.idx as int) =~= mcur
                                        .rest.skip(1));
                                    assert(self@.st == reset_state());
                                    assert(self@ == spec_next(mcur).0);
                                }
                                return Some(Ok(t));
                            } else {
                                proof {
                                    assert(scan_chars(mcur.flags, stj, cs) == LineOutcome::Fail(
                                        ParseError::MissingArrow,
                                    ));
                                }
                                self.failed = true;
                                self.depth = 0;
                                self.arrows = 0;
                                self.buffer = Vec::new();
                                self.pending = Vec::new();
                                self.idx = self.idx + 1;
                                proof {
                                    assert(views_of(self.lines@).skip(self.idx as int) =~= mcur
                                        .rest.skip(1));
                                    assert(self@.st == reset_state());
                                    assert(self@ == spec_next(mcur).0);
                                }
                                return Some(Err(ParseError::MissingArrow));
                            }
                        } else {
                            self.depth = self.depth - 1;
                            j = j + 1;
                            proof {
                                assert(scan_chars(mcur.flags, stj, cs) == scan_chars(
                                    mcur.flags,
                                    self@.st,
                                    line.skip(j as int),
                                ));
                            }
                        }
                    } else {
                        if self.depth > 0 {
                            self.buffer.push(c);
                        }
                        j = j + 1;
                        proof {
                            assert(scan_chars(mcur.flags, stj, cs) == scan_chars(
                                mcur.flags,
                                self@.st,
                                line.skip(j as int),
                            ));
                        }
                    }
                }
                proof {
                    assert(line.skip(line_len as int) =~= Seq::<char>::empty());
                    assert(scan_chars(mcur.flags, st_entry, line) == LineOutcome::Proceed(
                        self@.st,
                    ));
                }
                let ghost st_exit = self@.st;
                if !self.flags.explicit_newline {
                    self.buffer.push('\n');
                }
                self.idx = self.idx + 1;
                proof {
                    assert(views_of(self.lines@).skip(self.idx as int) =~= mcur.rest.skip(1));
                    if mcur.flags.explicit_newline {
                        assert(self@.st == st_exit);
                    } else {
                        assert(self@.st == ScanState {
                            depth: st_exit.depth,
                            arrows: st_exit.arrows,
                            buffer: st_exit.buffer.push('\n'),
                            pending: st_exit.pending,
                        });
                    }
                    assert(spec_next(mcur) == spec_next(self@));
                }
            }
        }
    }
}

/// A parser over the contents of a test-definition file.
pub fn read_test_file(contents: &str) -> (p: TestFileIterator)
    ensures
        p.wf(),
        p@ == initial_model(contents@),
{
    TestFileIterator::new(contents)
}

// ---------------------------------------------------------------------------
// the merge iterator
// ---------------------------------------------------------------------------
/// One pull on a pair of streams: the input stream is pulled first,
/// and the output stream only when the input stream yielded an item;
/// the pair ends when either side ends, a record pairs the input texts
/// of the two items, and either side's fault is passed on — the input
/// side's first.
pub open spec fn spec_merged_next(mi: ParserModel, mo: ParserModel) -> (
    ParserModel,
    ParserModel,
    Option<Result<(Seq<char>, Seq<char>), ParseError>>,
) {
    let (mi2, ri) = spec_next(mi);
    match ri {
        None => (mi2, mo, None),
        Some(item_in) => {
            let (mo2, ro) = spec_next(mo);
            match ro {
                None => (mi2, mo2, None),
                Some(item_out) => match (item_in, item_out) {
                    (Err(e), _) => (mi2, mo2, Some(Err(e))),
                    (Ok(_), Err(e)) => (mi2, mo2, Some(Err(e))),
                    (Ok(a), Ok(b)) => (mi2, mo2, Some(Ok((a.0, b.0)))),
                },
            }
        },
    }
}

/// Two test-definition streams pulled in step: the first supplies each
/// record's input, the second its expected output.
pub struct MergedTestFileTterator {
    input_iterator: TestFileIterator,
    output_iterator: TestFileIterator,
}

impl MergedTestFileTterator {
    pub closed spec fn wf(self) -> bool {
        self.input_iterator.wf() && self.output_iterator.wf()
    }

    pub closed spec fn input_model(self) -> ParserModel {
        self.input_iterator@
    }

    pub closed spec fn output_model(self) -> ParserModel {
        self.output_iterator@
    }

    pub fn new(
        input_test_file_iterator: TestFileIterator,
        output_test_file_iterator: TestFileIterator,
    ) -> (m: Self)
        requires
            input_test_file_iterator.wf(),
            output_test_file_iterator.wf(),
        ensures
            m.wf(),
            m.input_model() == input_test_file_iterator@,
            m.output_model() == output_test_file_iterator@,
    {
        MergedTestFileTterator {
            input_iterator: input_test_file_iterator,
            output_iterator: output_test_file_iterator,
        }
    }

    /// The next paired record: `None` as soon as either stream is
    /// exhausted — a leftover item on the longer side makes no record.
    pub fn next(&mut self) -> (r: Option<Result<SimpleTest, ParseError>>)
        requires
            old(self).wf(),
        ensures
            final(self).wf(),
            ({
                let (mi2, mo2, item) = spec_merged_next(
                    old(self).input_model(),
                    old(self).output_model(),
                );
                &&& final(self).input_model() == mi2
                &&& final(self).output_model() == mo2
                &&& item_matches(item, r)
            }),
    {
        let first = self.input_iterator.next();
        match first {
            None => None,
            Some(item_in) => {
                let second = self.output_iterator.next();
                match second {
                    None => None,
                    Some(item_out) => match (item_in, item_out) {
                        (Err(e), _) => Some(Err(e)),
                        (Ok(_), Err(e)) => Some(Err(e)),
                        (Ok(a), Ok(b)) => Some(
                            Ok(SimpleTest { input: a.input, expected_output: b.input }),
                        ),
                    },
                }
            },
        }
    }
}

/// The paired stream over an input-definition file and an
/// output-definition file.
pub fn merge_test_file(
    input_test_file_iterator: TestFileIterator,
    output_test_file_iterator: TestFileIterator,
) -> (m: MergedTestFileTterator)
    requires
        input_test_file_iterator.wf(),
        output_test_file_iterator.wf(),
    ensures
        m.wf(),
        m.input_model() == input_test_file_iterator@,
        m.output_model() == output_test_file_iterator@,
{
    MergedTestFileTterator::new(input_test_file_iterator, output_test_file_iterator)
}

} // verus!
