//! Width- and height-limited renderings of captured text, for the
//! reporting layer around the runner, and the file-name suffix helper.
use vstd::prelude::*;

use crate::text::{
    chars_of_str, chars_to_string, join_chars, join_with, split_lines, split_lines_chars,
    trim_back, trim_end_chars, views_of,
};

verus! {

/// Character-wrapped text: rows of exactly `cols` characters, an
/// ellipsis replacing everything beyond `rows` rows. `row_len` and
/// `used` carry the position within the current row and the rows
/// already completed.
pub open spec fn limited_trunc(
    s: Seq<char>,
    cols: usize,
    rows: usize,
    row_len: nat,
    used: nat,
) -> Seq<char>
    decreases s.len(),
{
    if s.len() == 0 {
        Seq::empty()
    } else if row_len >= cols {
        if used + 1 >= rows {
            seq!['\n'] + "..."@
        } else {
            seq!['\n', s[0]] + limited_trunc(s.skip(1), cols, rows, 1, used + 1)
        }
    } else {
        seq![s[0]] + limited_trunc(s.skip(1), cols, rows, row_len + 1, used)
    }
}

/// One line clipped to `cols` characters, a trailing ellipsis marking
/// the cut.
pub open spec fn clip_line(l: Seq<char>, cols: usize) -> Seq<char>
    recommends
        cols >= 3,
{
    if l.len() > cols {
        l.take(cols - 3) + "..."@
    } else {
        l
    }
}

/// The first `rows` lines, each clipped, every line newline-ended; an
/// ellipsis stands for the lines beyond.
pub open spec fn limited_lines(ls: Seq<Seq<char>>, cols: usize, rows: usize) -> Seq<char>
    decreases ls.len(),
{
    if ls.len() == 0 {
        Seq::empty()
    } else if rows == 0 {
        "..."@
    } else {
        clip_line(ls[0], cols) + seq!['\n'] + limited_lines(ls.skip(1), cols, (rows - 1) as usize)
    }
}

/// What `limited_string` returns: character-wrapped when `truncated`
/// is set, otherwise line-clipped with the trailing whitespace
/// removed.
pub open spec fn spec_limited_string(
    s: Seq<char>,
    cols: usize,
    rows: usize,
    truncated: bool,
) -> Seq<char> {
    if truncated {
        limited_trunc(s, cols, rows, 0, 0)
    } else {
        trim_back(limited_lines(split_lines(s), cols, rows))
    }
}

/// A rendering of `content` limited to `cols` columns and `rows`
/// rows. With `truncated` the text is wrapped character by character;
/// without it each line is clipped with an ellipsis. A width below
/// three leaves no room for the ellipsis, so the line-clipping form
/// asks for at least that.
pub fn limited_string(content: &str, cols: usize, rows: usize, truncated: bool) -> (r: String)
    requires
        truncated || cols >= 3,
    ensures
        r@ == spec_limited_string(content@, cols, rows, truncated),
{
    let v = chars_of_str(content);
    if truncated {
        let mut out: Vec<char> = Vec::new();
        let mut i: usize = 0;
        let mut row_len: usize = 0;
        let mut used: usize = 0;
        proof {
            assert(v@.skip(0) =~= v@);
        }
        while i < v.len()
            invariant
                truncated,
                i <= v.len(),
                v@ == content@,
                row_len <= cols || cols == 0,
                used <= rows,
                limited_trunc(v@, cols, rows, 0, 0) == out@ + limited_trunc(
                    v@.skip(i as int),
                    cols,
                    rows,
                    row_len as nat,
                    used as nat,
                ),
            decreases v.len() - i,
        {
            let ghost rest = v@.skip(i as int);
            proof {
                assert(rest[0] == v@[i as int]);
                assert(rest.skip(1) =~= v@.skip(i as int + 1));
            }
            if row_len >= cols {
                let ghost mid0 = out@;
                out.push('\n');
                if rows - used <= 1 {
                    out.push('.');
                    out.push('.');
                    out.push('.');
                    proof {
                        reveal_strlit("...");
                        assert(out@ =~= mid0 + (seq!['\n'] + "..."@));
                        assert(limited_trunc(rest, cols, rows, row_len as nat, used as nat)
                            == seq!['\n'] + "..."@);
                        assert(out@ == limited_trunc(v@, cols, rows, 0, 0));
                    }
                    let s = chars_to_string(&out);
                    proof {
                        assert(s@ == spec_limited_string(content@, cols, rows, truncated));
                    }
                    return s;
                }
                out.push(v[i]);
                used = used + 1;
                row_len = 1;
                i = i + 1;
                proof {
                    assert(out@ =~= mid0 + seq!['\n', v@[i as int - 1]]);
                }
            } else {
                out.push(v[i]);
                row_len = row_len + 1;
                i = i + 1;
            }
        }
        proof {
            assert(v@.skip(v@.len() as int) =~= Seq::<char>::empty());
            assert(out@ + Seq::<char>::empty() =~= out@);
        }
        chars_to_string(&out)
    } else {
        let ls = split_lines_chars(&v);
        let ghost all = views_of(ls@);
        let mut out: Vec<char> = Vec::new();
        let mut k: usize = 0;
        let mut used: usize = 0;
        proof {
            assert(all.skip(0) =~= all);
        }
        while k < ls.len()
            invariant
                !truncated,
                k <= ls.len(),
                used <= rows,
                used <= k,
                cols >= 3,
                v@ == content@,
                all == views_of(ls@),
                all == split_lines(v@),
                all.len() == ls@.len(),
                limited_lines(all, cols, rows) == out@ + limited_lines(
                    all.skip(k as int),
                    cols,
                    (rows - used) as usize,
                ),
                used < rows || k == ls.len() || limited_lines(all.skip(k as int), cols, (rows - used) as usize)
                    == "..."@,
            decreases ls.len() - k,
        {
            let ghost rest = all.skip(k as int);
            proof {
                assert(rest[0] == all[k as int]);
                assert(all[k as int] == ls@[k as int]@);
                assert(rest.skip(1) =~= all.skip(k as int + 1));
            }
            if used >= rows {
                out.push('.');
                out.push('.');
                out.push('.');
                proof {
                    reveal_strlit("...");
                    assert(out@ =~= limited_lines(all, cols, rows));
                }
                let t = trim_end_chars(&out);
                let s = chars_to_string(&t);
                proof {
                    assert(s@ == spec_limited_string(content@, cols, rows, truncated));
                }
                return s;
            }
            let line_len = ls[k].len();
            let ghost mid = out@;
            if line_len > cols {
                let mut j: usize = 0;
                while j < cols - 3
                    invariant
                        j <= cols - 3,
                        cols - 3 <= ls@[k as int]@.len(),
                        k < ls@.len(),
                        out@ == mid + ls@[k as int]@.take(j as int),
                    decreases cols - 3 - j,
                {
                    let c = ls[k][j];
                    out.push(c);
                    proof {
                        assert((mid + ls@[k as int]@.take(j as int)).push(ls@[k as int]@[j as int])
                            =~= mid + ls@[k as int]@.take(j as int + 1));
                    }
                    j = j + 1;
                }
                out.push('.');
                out.push('.');
                out.push('.');
                proof {
                    reveal_strlit("...");
                    assert(out@ =~= mid + clip_line(all[k as int], cols));
                }
            } else {
                let mut j: usize = 0;
                while j < line_len
                    invariant
                        j <= line_len,
                        line_len == ls@[k as int]@.len(),
                        k < ls@.len(),
                        out@ == mid + ls@[k as int]@.take(j as int),
                    decreases line_len - j,
                {
                    let c = ls[k][j];
                    out.push(c);
                    proof {
                        assert((mid + ls@[k as int]@.take(j as int)).push(ls@[k as int]@[j as int])
                            =~= mid + ls@[k as int]@.take(j as int + 1));
                    }
                    j = j + 1;
                }
                proof {
                    assert(ls@[k as int]@.take(line_len as int) =~= ls@[k as int]@);
                    assert(out@ =~= mid + clip_line(all[k as int], cols));
                }
            }
            out.push('\n');
            used = used + 1;
            k = k + 1;
            proof {
                assert(out@ =~= mid + (clip_line(all[k as int - 1], cols) + seq!['\n']));
            }
        }
        proof {
            assert(all.skip(ls@.len() as int) =~= Seq::<Seq<char>>::empty());
            if used < rows || ls@.len() == 0 {
                assert(limited_lines(all.skip(ls@.len() as int), cols, (rows - used) as usize)
                    == Seq::<char>::empty());
            }
            assert(out@ + Seq::<char>::empty() =~= out@);
            assert(out@ == limited_lines(all, cols, rows));
        }
        let t = trim_end_chars(&out);
        chars_to_string(&t)
    }
}

/// `limited_string`, two columns narrower, with two spaces of padding
/// in front of every line.
pub open spec fn spec_padded_string(
    s: Seq<char>,
    cols: usize,
    rows: usize,
    single_line: bool,
) -> Seq<char> {
    join_with(
        split_lines(spec_limited_string(s, (cols - 2) as usize, rows, single_line)).map_values(
            |l: Seq<char>| "  "@ + l,
        ),
        seq!['\n'],
    )
}

/// The limited rendering with two spaces of padding before each line.
/// The width must leave room for the padding — and, when lines are
/// clipped rather than wrapped, for the ellipsis too.
pub fn padded_string(content: &str, cols: usize, rows: usize, single_line: bool) -> (r: String)
    requires
        cols >= 2,
        single_line || cols >= 5,
    ensures
        r@ == spec_padded_string(content@, cols, rows, single_line),
{
    let limited = limited_string(content, cols - 2, rows, single_line);
    let lv = chars_of_str(limited.as_str());
    let ls = split_lines_chars(&lv);
    let ghost all = views_of(ls@);
    let ghost target = all.map_values(|l: Seq<char>| "  "@ + l);
    let mut padded: Vec<Vec<char>> = Vec::new();
    let mut k: usize = 0;
    proof {
        assert(views_of(padded@) =~= target.take(0));
    }
    while k < ls.len()
        invariant
            k <= ls.len(),
            all == views_of(ls@),
            target == all.map_values(|l: Seq<char>| "  "@ + l),
            target.len() == ls@.len(),
            views_of(padded@) =~= target.take(k as int),
        decreases ls.len() - k,
    {
        let mut piece: Vec<char> = Vec::new();
        piece.push(' ');
        piece.push(' ');
        let mut j: usize = 0;
        let ghost mid = piece@;
        while j < ls[k].len()
            invariant
                j <= ls@[k as int]@.len(),
                k < ls@.len(),
                piece@ == mid + ls@[k as int]@.take(j as int),
            decreases ls@[k as int]@.len() - j,
        {
            let c = ls[k][j];
            piece.push(c);
            proof {
                assert((mid + ls@[k as int]@.take(j as int)).push(ls@[k as int]@[j as int]) =~= mid
                    + ls@[k as int]@.take(j as int + 1));
            }
            j = j + 1;
        }
        proof {
            reveal_strlit("  ");
            assert(ls@[k as int]@.take(ls@[k as int]@.len() as int) =~= ls@[k as int]@);
            assert(mid =~= "  "@);
            assert(piece@ =~= target[k as int]);
            assert(views_of(padded@.push(piece)) =~= views_of(padded@) + seq![piece@]);
            assert(target.take(k as int).push(target[k as int]) =~= target.take(k as int + 1));
        }
        padded.push(piece);
        k = k + 1;
    }
    proof {
        assert(target.take(ls@.len() as int) =~= target);
    }
    let joined = join_chars(&padded, '\n');
    chars_to_string(&joined)
}

/// The path with `.` and the extension appended.
pub fn append_extension(extension: &str, path: String) -> (r: String)
    ensures
        r@ == path@ + "."@ + extension@,
{
    let ghost p0 = path@;
    let with_dot = path.concat(".");
    let r = with_dot.concat(extension);
    proof {
        assert(r@ == (p0 + "."@) + extension@);
        assert((p0 + "."@) + extension@ =~= p0 + "."@ + extension@);
    }
    r
}

} // verus!
