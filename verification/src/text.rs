//! Character-sequence utilities shared by the parser, the selector
//! evaluator and the formatting helpers: trimming, splitting, joining,
//! searching and decimal parsing, all specified over `Seq<char>`.
use vstd::prelude::*;

verus! {

// ---------------------------------------------------------------------------
// character classes
// ---------------------------------------------------------------------------
/// ASCII whitespace: the characters the library's trimming removes.
pub open spec fn is_space(c: char) -> bool {
    c == ' ' || c == '\t' || c == '\n' || c == '\r' || c == '\u{b}' || c == '\u{c}'
}

pub fn is_space_char(c: char) -> (r: bool)
    ensures
        r == is_space(c),
{
    c == ' ' || c == '\t' || c == '\n' || c == '\r' || c == '\u{b}' || c == '\u{c}'
}

// ---------------------------------------------------------------------------
// trimming
// ---------------------------------------------------------------------------
pub open spec fn trim_front(s: Seq<char>) -> Seq<char>
    decreases s.len(),
{
    if s.len() > 0 && is_space(s[0]) {
        trim_front(s.skip(1))
    } else {
        s
    }
}

pub open spec fn trim_back(s: Seq<char>) -> Seq<char>
    decreases s.len(),
{
    if s.len() > 0 && is_space(s[s.len() - 1]) {
        trim_back(s.take(s.len() - 1))
    } else {
        s
    }
}

/// Both ends trimmed of ASCII whitespace.
pub open spec fn trim_of(s: Seq<char>) -> Seq<char> {
    trim_back(trim_front(s))
}

/// A fresh vector holding `v` with leading and trailing whitespace removed.
pub fn trim_chars(v: &Vec<char>) -> (r: Vec<char>)
    ensures
        r@ == trim_of(v@),
{
    let mut a: usize = 0;
    proof {
        assert(v@.skip(0) =~= v@);
    }
    while a < v.len() && is_space_char(v[a])
        invariant
            a <= v.len(),
            trim_front(v@) == trim_front(v@.skip(a as int)),
        decreases v.len() - a,
    {
        proof {
            assert(v@.skip(a as int).skip(1) =~= v@.skip(a as int + 1));
        }
        a = a + 1;
    }
    proof {
        if a == v.len() {
            assert(v@.skip(a as int) =~= Seq::<char>::empty());
        }
        assert(trim_front(v@) == v@.skip(a as int));
    }
    let mut b: usize = v.len();
    while b > a && is_space_char(v[b - 1])
        invariant
            a <= b <= v.len(),
            trim_front(v@) == v@.skip(a as int),
            trim_back(v@.skip(a as int)) == trim_back(v@.subrange(a as int, b as int)),
        decreases b,
    {
        proof {
            let s = v@.subrange(a as int, b as int);
            assert(s[s.len() - 1] == v@[b - 1]);
            assert(s.take(s.len() - 1) =~= v@.subrange(a as int, b as int - 1));
        }
        b = b - 1;
    }
    proof {
        let s = v@.subrange(a as int, b as int);
        if b == a {
            assert(s =~= Seq::<char>::empty());
        }
        assert(trim_back(s) == s);
    }
    let mut r: Vec<char> = Vec::new();
    let mut i: usize = a;
    while i < b
        invariant
            a <= i <= b <= v.len(),
            r@ == v@.subrange(a as int, i as int),
        decreases b - i,
    {
        r.push(v[i]);
        proof {
            assert(v@.subrange(a as int, i as int).push(v@[i as int]) =~= v@.subrange(
                a as int,
                i as int + 1,
            ));
        }
        i = i + 1;
    }
    proof {
        assert(r@ == trim_of(v@));
    }
    r
}

/// A fresh vector holding `v` with only trailing whitespace removed.
pub fn trim_end_chars(v: &Vec<char>) -> (r: Vec<char>)
    ensures
        r@ == trim_back(v@),
{
    let mut b: usize = v.len();
    proof {
        assert(v@.subrange(0, v@.len() as int) =~= v@);
    }
    while b > 0 && is_space_char(v[b - 1])
        invariant
            b <= v.len(),
            trim_back(v@) == trim_back(v@.subrange(0, b as int)),
        decreases b,
    {
        proof {
            let s = v@.subrange(0, b as int);
            assert(s[s.len() - 1] == v@[b - 1]);
            assert(s.take(s.len() - 1) =~= v@.subrange(0, b as int - 1));
        }
        b = b - 1;
    }
    proof {
        let s = v@.subrange(0, b as int);
        if b == 0 {
            assert(s =~= Seq::<char>::empty());
        }
        assert(trim_back(s) == s);
    }
    copy_range(v, 0, b)
}

// ---------------------------------------------------------------------------
// searching and splitting
// ---------------------------------------------------------------------------
/// Index of the first occurrence of `c` in `s`, or `s.len()` if absent.
pub open spec fn find_char_idx(s: Seq<char>, c: char) -> nat
    decreases s.len(),
{
    if s.len() == 0 {
        0
    } else if s[0] == c {
        0
    } else {
        1 + find_char_idx(s.skip(1), c)
    }
}

pub proof fn lemma_find_char_idx_at(s: Seq<char>, c: char, k: int)
    requires
        0 <= k <= s.len(),
        forall|j: int| 0 <= j < k ==> s[j] != c,
        k == s.len() || s[k] == c,
    ensures
        find_char_idx(s, c) == k,
    decreases k,
{
    if k == 0 {
        if s.len() > 0 {
            assert(s[0] == c || s.len() == 0);
        }
    } else {
        assert(s[0] != c);
        let t = s.skip(1);
        assert(forall|j: int| 0 <= j < k - 1 ==> t[j] == s[j + 1] && t[j] != c);
        if k < s.len() {
            assert(t[k - 1] == s[k]);
        }
        lemma_find_char_idx_at(t, c, k - 1);
    }
}

pub proof fn lemma_find_char_idx_le(s: Seq<char>, c: char)
    ensures
        find_char_idx(s, c) <= s.len(),
        find_char_idx(s, c) < s.len() ==> s[find_char_idx(s, c) as int] == c,
        forall|j: int| 0 <= j < find_char_idx(s, c) ==> s[j] != c,
    decreases s.len(),
{
    if s.len() > 0 && s[0] != c {
        lemma_find_char_idx_le(s.skip(1), c);
        let t = s.skip(1);
        if find_char_idx(s, c) < s.len() {
            assert(s[find_char_idx(s, c) as int] == t[find_char_idx(t, c) as int]);
        }
        assert forall|j: int| 0 <= j < find_char_idx(s, c) implies s[j] != c by {
            if j > 0 {
                assert(s[j] == t[j - 1]);
            }
        }
    }
}

/// First index at or after `from` where `c` occurs in `v`, or `v.len()`.
pub fn scan_char(v: &Vec<char>, from: usize, c: char) -> (k: usize)
    requires
        from <= v.len(),
    ensures
        from <= k <= v.len(),
        k - from == find_char_idx(v@.skip(from as int), c),
        k < v.len() ==> v@[k as int] == c,
        forall|j: int| from <= j < k ==> v@[j] != c,
    decreases v.len() - from,
{
    let mut k: usize = from;
    while k < v.len() && v[k] != c
        invariant
            from <= k <= v.len(),
            forall|j: int| from <= j < k ==> v@[j] != c,
        decreases v.len() - k,
    {
        k = k + 1;
    }
    proof {
        let s = v@.skip(from as int);
        assert(forall|j: int| 0 <= j < k - from ==> s[j] == v@[j + from] && s[j] != c);
        if k < v.len() {
            assert(s[k - from] == v@[k as int]);
        }
        lemma_find_char_idx_at(s, c, k - from);
    }
    k
}

/// Whether `c` occurs in `s`.
pub open spec fn contains_char(s: Seq<char>, c: char) -> bool {
    find_char_idx(s, c) < s.len()
}

/// The length of the first line of `s`: the index of its first newline,
/// or `s.len()` when it has none.
pub open spec fn sep_break(s: Seq<char>, c: char) -> nat {
    if find_char_idx(s, c) < s.len() {
        find_char_idx(s, c)
    } else {
        s.len()
    }
}

/// A line piece with one trailing carriage return removed.
pub open spec fn strip_cr(s: Seq<char>) -> Seq<char> {
    if s.len() > 0 && s[s.len() - 1] == '\r' {
        s.take(s.len() - 1)
    } else {
        s
    }
}

/// The lines of `s`: pieces between newlines, each with a trailing
/// carriage return removed; a final newline opens no empty last line.
pub open spec fn split_lines(s: Seq<char>) -> Seq<Seq<char>>
    decreases s.len(),
{
    if s.len() == 0 {
        Seq::empty()
    } else {
        let i = sep_break(s, '\n');
        if i == s.len() {
            seq![s]
        } else {
            seq![strip_cr(s.take(i as int))] + split_lines(s.skip(i as int + 1))
        }
    }
}

/// The pieces of `s` between occurrences of `sep`; an empty input is one
/// empty piece, and a trailing separator opens a final empty piece.
pub open spec fn split_on(s: Seq<char>, sep: char) -> Seq<Seq<char>>
    decreases s.len(),
{
    let i = sep_break(s, sep);
    if i == s.len() {
        seq![s]
    } else {
        seq![s.take(i as int)] + split_on(s.skip(i as int + 1), sep)
    }
}

/// The views of a vector of character vectors.
pub open spec fn views_of(s: Seq<Vec<char>>) -> Seq<Seq<char>> {
    s.map_values(|v: Vec<char>| v@)
}

/// A fresh copy of `v[from..to]`.
pub fn copy_range(v: &Vec<char>, from: usize, to: usize) -> (r: Vec<char>)
    requires
        from <= to <= v.len(),
    ensures
        r@ == v@.subrange(from as int, to as int),
{
    let mut r: Vec<char> = Vec::new();
    let mut i: usize = from;
    while i < to
        invariant
            from <= i <= to <= v.len(),
            r@ == v@.subrange(from as int, i as int),
        decreases to - i,
    {
        r.push(v[i]);
        proof {
            assert(v@.subrange(from as int, i as int).push(v@[i as int]) =~= v@.subrange(
                from as int,
                i as int + 1,
            ));
        }
        i = i + 1;
    }
    r
}

/// Splits `v` into its lines, as `split_lines` describes.
pub fn split_lines_chars(v: &Vec<char>) -> (r: Vec<Vec<char>>)
    ensures
        views_of(r@) == split_lines(v@),
{
    let mut r: Vec<Vec<char>> = Vec::new();
    let mut pos: usize = 0;
    proof {
        assert(views_of(r@) =~= Seq::<Seq<char>>::empty());
        assert(v@.skip(0) =~= v@);
    }
    while pos < v.len()
        invariant
            pos <= v.len(),
            split_lines(v@) =~= views_of(r@) + split_lines(v@.skip(pos as int)),
        decreases v.len() - pos,
    {
        let ghost rest = v@.skip(pos as int);
        let k = scan_char(v, pos, '\n');
        proof {
            lemma_find_char_idx_le(rest, '\n');
            assert(rest.len() > 0);
        }
        if k == v.len() {
            let piece = copy_range(v, pos, k);
            proof {
                assert(find_char_idx(rest, '\n') == rest.len());
                assert(sep_break(rest, '\n') == rest.len());
                assert(split_lines(rest) =~= seq![rest]);
                assert(piece@ =~= rest);
                assert(views_of(r@.push(piece)) =~= views_of(r@) + seq![rest]);
            }
            r.push(piece);
            pos = v.len();
            proof {
                assert(v@.skip(pos as int) =~= Seq::<char>::empty());
                assert(split_lines(v@.skip(pos as int)) =~= Seq::<Seq<char>>::empty());
            }
        } else {
            let mut piece = copy_range(v, pos, k);
            proof {
                assert(find_char_idx(rest, '\n') == k - pos);
                assert(sep_break(rest, '\n') == k - pos);
                assert(rest.take(k - pos) =~= v@.subrange(pos as int, k as int));
                assert(rest.skip(k - pos + 1) =~= v@.skip(k as int + 1));
            }
            if piece.len() > 0 && piece[piece.len() - 1] == '\r' {
                piece.pop();
                proof {
                    let t = rest.take(k - pos);
                    assert(strip_cr(t) =~= t.take(t.len() - 1));
                    assert(piece@ =~= strip_cr(t));
                }
            } else {
                proof {
                    assert(piece@ =~= strip_cr(rest.take(k - pos)));
                }
            }
            proof {
                assert(views_of(r@.push(piece)) =~= views_of(r@) + seq![piece@]);
                assert(split_lines(rest) =~= seq![strip_cr(rest.take(k - pos))] + split_lines(
                    rest.skip(k - pos + 1),
                ));
            }
            r.push(piece);
            pos = k + 1;
        }
    }
    proof {
        assert(v@.skip(pos as int) =~= Seq::<char>::empty());
        assert(split_lines(v@) =~= views_of(r@));
    }
    r
}

/// Splits `v` on a separator character, as `split_on` describes.
pub fn split_on_chars(v: &Vec<char>, sep: char) -> (r: Vec<Vec<char>>)
    ensures
        views_of(r@) == split_on(v@, sep),
        r@.len() >= 1,
    decreases v.len(),
{
    let mut r: Vec<Vec<char>> = Vec::new();
    let mut pos: usize = 0;
    proof {
        assert(views_of(r@) =~= Seq::<Seq<char>>::empty());
        assert(v@.skip(0) =~= v@);
    }
    loop
        invariant
            pos <= v.len(),
            split_on(v@, sep) =~= views_of(r@) + split_on(v@.skip(pos as int), sep),
        decreases v.len() - pos + 1,
    {
        let ghost rest = v@.skip(pos as int);
        let k = scan_char(v, pos, sep);
        let piece = copy_range(v, pos, k);
        proof {
            lemma_find_char_idx_le(rest, sep);
            assert(piece@ =~= rest.take(k - pos));
            assert(views_of(r@.push(piece)) =~= views_of(r@) + seq![piece@]);
        }
        if k == v.len() {
            proof {
                assert(sep_break(rest, sep) == rest.len());
                assert(rest.take(k - pos) =~= rest);
                assert(split_on(rest, sep) =~= seq![rest]);
            }
            r.push(piece);
            return r;
        } else {
            proof {
                assert(find_char_idx(rest, sep) == k - pos);
                assert(sep_break(rest, sep) == k - pos);
                assert(split_on(rest, sep) =~= seq![rest.take(k - pos)] + split_on(
                    rest.skip(k - pos + 1),
                    sep,
                ));
                assert(rest.skip(k - pos + 1) =~= v@.skip(k as int + 1));
            }
            r.push(piece);
            pos = k + 1;
        }
    }
}

// ---------------------------------------------------------------------------
// joining
// ---------------------------------------------------------------------------
/// The pieces of `ls` joined with `sep` between neighbours.
pub open spec fn join_with(ls: Seq<Seq<char>>, sep: Seq<char>) -> Seq<char>
    decreases ls.len(),
{
    if ls.len() == 0 {
        Seq::empty()
    } else if ls.len() == 1 {
        ls[0]
    } else {
        ls[0] + sep + join_with(ls.skip(1), sep)
    }
}

pub proof fn lemma_join_with_snoc(ls: Seq<Seq<char>>, sep: Seq<char>, i: int)
    requires
        1 <= i < ls.len(),
    ensures
        join_with(ls.take(i + 1), sep) == join_with(ls.take(i), sep) + sep + ls[i],
    decreases i,
{
    if i == 1 {
        let t = ls.take(2);
        assert(t.skip(1) =~= seq![ls[1]]);
        assert(ls.take(1) =~= seq![ls[0]]);
        assert(join_with(seq![ls[1]], sep) == ls[1]);
        assert(join_with(seq![ls[0]], sep) == ls[0]);
        assert(t.len() == 2 && t[0] == ls[0]);
        assert(join_with(t, sep) == t[0] + sep + join_with(t.skip(1), sep));
        assert(join_with(t, sep) == ls[0] + sep + ls[1]);
    } else {
        lemma_join_with_snoc(ls.skip(1), sep, i - 1);
        let a = ls.take(i + 1);
        let b = ls.take(i);
        assert(a.skip(1) =~= ls.skip(1).take(i));
        assert(b.skip(1) =~= ls.skip(1).take(i - 1));
        assert(ls.skip(1)[i - 1] == ls[i]);
        assert(join_with(a, sep) == ls[0] + sep + join_with(ls.skip(1).take(i), sep));
        assert(join_with(b, sep) == ls[0] + sep + join_with(ls.skip(1).take(i - 1), sep));
        assert((ls[0] + sep + (join_with(ls.skip(1).take(i - 1), sep) + sep + ls[i])) =~= (ls[0]
            + sep + join_with(ls.skip(1).take(i - 1), sep)) + sep + ls[i]);
    }
}

/// Joins the pieces with a single separator character between them.
pub fn join_chars(pieces: &Vec<Vec<char>>, sep: char) -> (r: Vec<char>)
    ensures
        r@ == join_with(views_of(pieces@), seq![sep]),
{
    let ghost ls = views_of(pieces@);
    let mut r: Vec<char> = Vec::new();
    let mut i: usize = 0;
    proof {
        assert(ls.take(0) =~= Seq::<Seq<char>>::empty());
    }
    while i < pieces.len()
        invariant
            i <= pieces.len(),
            ls == views_of(pieces@),
            ls.len() == pieces.len(),
            r@ == join_with(ls.take(i as int), seq![sep]),
        decreases pieces.len() - i,
    {
        if i > 0 {
            r.push(sep);
        }
        let ghost mid = r@;
        let mut j: usize = 0;
        while j < pieces[i].len()
            invariant
                i < pieces.len(),
                j <= pieces[i as int].len(),
                ls == views_of(pieces@),
                ls.len() == pieces.len(),
                r@ == mid + ls[i as int].take(j as int),
            decreases pieces[i as int].len() - j,
        {
            let c = pieces[i][j];
            r.push(c);
            proof {
                assert(ls[i as int].take(j as int).push(pieces@[i as int]@[j as int]) =~= ls[
                i as int].take(j as int + 1));
                assert((mid + ls[i as int].take(j as int)).push(pieces@[i as int]@[j as int]) =~= mid
                    + ls[i as int].take(j as int + 1));
            }
            j = j + 1;
        }
        proof {
            assert(ls[i as int].take(pieces@[i as int]@.len() as int) =~= ls[i as int]);
            if i == 0 {
                assert(ls.take(1) =~= seq![ls[0]]);
                assert(join_with(ls.take(1), seq![sep]) == ls[0]);
                assert(r@ =~= ls[0]);
            } else {
                lemma_join_with_snoc(ls, seq![sep], i as int);
                assert(mid =~= join_with(ls.take(i as int), seq![sep]) + seq![sep]);
                assert(r@ =~= join_with(ls.take(i as int), seq![sep]) + seq![sep] + ls[i as int]);
            }
        }
        i = i + 1;
    }
    proof {
        assert(ls.take(pieces@.len() as int) =~= ls);
    }
    r
}

// ---------------------------------------------------------------------------
// decimal numerals
// ---------------------------------------------------------------------------
pub open spec fn is_digit(c: char) -> bool {
    '0' <= c && c <= '9'
}

pub open spec fn digit_val(c: char) -> nat {
    (c as nat - '0' as nat) as nat
}

/// The value of a digit string, most significant digit first.
pub open spec fn digits_val(s: Seq<char>) -> nat
    decreases s.len(),
{
    if s.len() == 0 {
        0
    } else {
        digits_val(s.take(s.len() - 1)) * 10 + digit_val(s[s.len() - 1])
    }
}

pub open spec fn all_digits(s: Seq<char>) -> bool {
    forall|i: int| 0 <= i < s.len() ==> is_digit(s[i])
}

/// The digit part of a numeral: one optional leading `+` sign removed.
pub open spec fn numeral_body(s: Seq<char>) -> Seq<char> {
    if s.len() > 0 && s[0] == '+' {
        s.skip(1)
    } else {
        s
    }
}

/// Whether `s` is a numeral that a `usize` can hold: an optional `+`
/// followed by one or more digits, with a value of at most `usize::MAX`.
pub open spec fn is_usize_numeral(s: Seq<char>) -> bool {
    &&& numeral_body(s).len() > 0
    &&& all_digits(numeral_body(s))
    &&& digits_val(numeral_body(s)) <= usize::MAX
}

pub proof fn lemma_digits_val_grows(s: Seq<char>, i: int)
    requires
        0 <= i <= s.len(),
    ensures
        digits_val(s.take(i)) <= digits_val(s),
    decreases s.len() - i,
{
    if i == s.len() {
        assert(s.take(i) =~= s);
    } else {
        lemma_digits_val_grows(s, i + 1);
        let t = s.take(i + 1);
        assert(t.take(t.len() - 1) =~= s.take(i));
        assert(digits_val(t) == digits_val(s.take(i)) * 10 + digit_val(s[i]));
        assert(digits_val(s.take(i)) <= digits_val(s.take(i)) * 10) by (nonlinear_arith);
    }
}

/// Parses `v[from..to]` as a `usize` numeral; `None` when the piece is
/// not a numeral or its value does not fit.
pub fn parse_usize_range(v: &Vec<char>, from: usize, to: usize) -> (r: Option<usize>)
    requires
        from <= to <= v.len(),
    ensures
        match r {
            Some(n) => is_usize_numeral(v@.subrange(from as int, to as int)) && n == digits_val(
                numeral_body(v@.subrange(from as int, to as int)),
            ),
            None => !is_usize_numeral(v@.subrange(from as int, to as int)),
        },
{
    let ghost whole = v@.subrange(from as int, to as int);
    let mut start: usize = from;
    if from < to && v[from] == '+' {
        start = from + 1;
        proof {
            assert(numeral_body(whole) =~= v@.subrange(from as int + 1, to as int));
        }
    } else {
        proof {
            assert(numeral_body(whole) =~= whole);
        }
    }
    let ghost body = numeral_body(whole);
    if start == to {
        return None;
    }
    let mut val: usize = 0;
    let mut i: usize = start;
    while i < to
        invariant
            from <= start <= i <= to <= v.len(),
            whole == v@.subrange(from as int, to as int),
            body == numeral_body(whole),
            body =~= v@.subrange(start as int, to as int),
            all_digits(body.take(i - start)),
            val == digits_val(body.take(i - start)),
        decreases to - i,
    {
        let c = v[i];
        if !(c >= '0' && c <= '9') {
            proof {
                assert(body[i - start] == v@[i as int]);
                assert(!is_digit(body[i - start]));
                assert(!all_digits(body));
                assert(numeral_body(v@.subrange(from as int, to as int)) == body);
                assert(!is_usize_numeral(whole));
            }
            return None;
        }
        let d: usize = (c as u32 as usize) - 48;
        proof {
            assert(d == digit_val(v@[i as int]));
            assert(d <= 9);
        }
        if val > (usize::MAX - d) / 10 {
            proof {
                let t = body.take(i - start + 1);
                assert(t.take(t.len() - 1) =~= body.take(i - start));
                assert(t[t.len() - 1] == v@[i as int]);
                assert(digits_val(t) == val * 10 + d);
                assert(val * 10 + d > usize::MAX) by (nonlinear_arith)
                    requires
                        val > (usize::MAX - d) / 10,
                        d <= 9,
                ;
                lemma_digits_val_grows(body, i - start + 1);
                assert(digits_val(body) > usize::MAX);
                assert(numeral_body(v@.subrange(from as int, to as int)) == body);
                assert(!is_usize_numeral(whole));
            }
            return None;
        }
        proof {
            assert(val * 10 + d <= usize::MAX) by (nonlinear_arith)
                requires
                    val <= (usize::MAX - d) / 10,
                    d <= 9,
            ;
            let t = body.take(i - start + 1);
            assert(t.take(t.len() - 1) =~= body.take(i - start));
            assert(t[t.len() - 1] == v@[i as int]);
            assert(forall|j: int|
                0 <= j < t.len() ==> t[j] == #[trigger] body.take(i - start + 1)[j]);
        }
        val = val * 10 + d;
        i = i + 1;
    }
    proof {
        assert(body.take(to - start) =~= body);
    }
    Some(val)
}

// ---------------------------------------------------------------------------
// bridges between &str, String and Vec<char>
// ---------------------------------------------------------------------------
/// The characters of `s` as a vector.
pub fn chars_of_str(s: &str) -> (v: Vec<char>)
    ensures
        v@ == s@,
{
    let n = s.unicode_len();
    let mut v: Vec<char> = Vec::new();
    let mut i: usize = 0;
    while i < n
        invariant
            i <= n,
            n == s@.len(),
            v@ == s@.take(i as int),
        decreases n - i,
    {
        v.push(s.get_char(i));
        proof {
            assert(s@.take(i as int).push(s@[i as int]) =~= s@.take(i as int + 1));
        }
        i = i + 1;
    }
    proof {
        assert(s@.take(n as int) =~= s@);
    }
    v
}

/// Relies on `String`'s `FromIterator<char>` implementation: collecting
/// an iterator of characters yields the string of exactly those
/// characters in order.
#[verifier::external_body]
pub fn chars_to_string(v: &Vec<char>) -> (s: String)
    ensures
        s@ == v@,
{
    v.iter().collect()
}

/// Whether `v[from..to]` equals the characters of `s`.
pub fn range_eq_str(v: &Vec<char>, from: usize, to: usize, s: &str) -> (r: bool)
    requires
        from <= to <= v.len(),
    ensures
        r == (v@.subrange(from as int, to as int) == s@),
{
    let n = s.unicode_len();
    if n != to - from {
        return false;
    }
    let mut i: usize = 0;
    while i < n
        invariant
            i <= n,
            n == s@.len(),
            n == to - from,
            from <= to <= v.len(),
            forall|j: int| 0 <= j < i ==> v@.subrange(from as int, to as int)[j] == s@[j],
        decreases n - i,
    {
        if v[from + i] != s.get_char(i) {
            proof {
                assert(v@.subrange(from as int, to as int)[i as int] != s@[i as int]);
            }
            return false;
        }
        proof {
            assert(v@.subrange(from as int, to as int)[i as int] == v@[from + i]);
        }
        i = i + 1;
    }
    proof {
        assert(v@.subrange(from as int, to as int) =~= s@);
    }
    true
}

/// Whether two character vectors hold the same characters.
pub fn chars_eq(a: &Vec<char>, b: &Vec<char>) -> (r: bool)
    ensures
        r == (a@ == b@),
{
    if a.len() != b.len() {
        return false;
    }
    let mut i: usize = 0;
    while i < a.len()
        invariant
            i <= a.len(),
            a@.len() == b@.len(),
            forall|j: int| 0 <= j < i ==> a@[j] == b@[j],
        decreases a.len() - i,
    {
        if a[i] != b[i] {
            return false;
        }
        i = i + 1;
    }
    proof {
        assert(a@ =~= b@);
    }
    true
}

/// The views of a vector of strings.
pub open spec fn strings_views(s: Seq<String>) -> Seq<Seq<char>> {
    s.map_values(|x: String| x@)
}

/// Whether two string slices hold the same characters.
pub fn str_eq(a: &str, b: &str) -> (r: bool)
    ensures
        r == (a@ == b@),
{
    let na = a.unicode_len();
    let nb = b.unicode_len();
    if na != nb {
        return false;
    }
    let mut i: usize = 0;
    while i < na
        invariant
            i <= na,
            na == a@.len(),
            na == b@.len(),
            forall|j: int| 0 <= j < i ==> a@[j] == b@[j],
        decreases na - i,
    {
        if a.get_char(i) != b.get_char(i) {
            return false;
        }
        i = i + 1;
    }
    proof {
        assert(a@ =~= b@);
    }
    true
}

/// The character with any ASCII upper-case letter lowered.
pub open spec fn lower_ascii(c: char) -> char {
    if 'A' <= c && c <= 'Z' {
        ((c as u8) + 32) as char
    } else {
        c
    }
}

pub fn lower_ascii_char(c: char) -> (r: char)
    ensures
        r == lower_ascii(c),
{
    if c >= 'A' && c <= 'Z' {
        (((c as u8) + 32) as char)
    } else {
        c
    }
}

/// Whether `v[from..to]`, ASCII-lowered, equals the characters of `s`.
pub fn range_eq_str_ignore_ascii_case(v: &Vec<char>, from: usize, to: usize, s: &str) -> (r: bool)
    requires
        from <= to <= v.len(),
    ensures
        r == (v@.subrange(from as int, to as int).map_values(|c: char| lower_ascii(c)) == s@),
{
    let ghost lowered = v@.subrange(from as int, to as int).map_values(|c: char| lower_ascii(c));
    let n = s.unicode_len();
    if n != to - from {
        return false;
    }
    let mut i: usize = 0;
    while i < n
        invariant
            i <= n,
            n == s@.len(),
            n == to - from,
            from <= to <= v.len(),
            lowered == v@.subrange(from as int, to as int).map_values(|c: char| lower_ascii(c)),
            lowered.len() == n,
            forall|j: int| 0 <= j < i ==> lowered[j] == s@[j],
        decreases n - i,
    {
        if lower_ascii_char(v[from + i]) != s.get_char(i) {
            proof {
                assert(lowered[i as int] == lower_ascii(v@[from + i]));
            }
            return false;
        }
        proof {
            assert(lowered[i as int] == lower_ascii(v@[from + i]));
        }
        i = i + 1;
    }
    proof {
        assert(lowered =~= s@);
    }
    true
}

} // verus!
