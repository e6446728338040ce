//! The command templater: substitutes the six recognized macros into a
//! language-specific build command template. Paths are plain
//! `/`-separated strings here; the caller canonicalizes real paths
//! before handing them in.
use vstd::prelude::*;

use crate::text::{chars_of_str, chars_to_string, copy_range, range_eq_str, str_eq};

verus! {

/// Every occurrence of `pat` in `s` replaced by `rep`, scanning left
/// to right without revisiting replaced text.
pub open spec fn replace_all(s: Seq<char>, pat: Seq<char>, rep: Seq<char>) -> Seq<char>
    recommends
        pat.len() > 0,
    decreases s.len(),
    when pat.len() > 0
{
    if s.len() == 0 {
        s
    } else if s.len() >= pat.len() && s.take(pat.len() as int) == pat {
        rep + replace_all(s.skip(pat.len() as int), pat, rep)
    } else {
        s.take(1) + replace_all(s.skip(1), pat, rep)
    }
}

/// `v` with every occurrence of `pat` replaced by `rep`.
pub fn replace_chars(v: &Vec<char>, pat: &str, rep: &Vec<char>) -> (r: Vec<char>)
    requires
        pat@.len() > 0,
    ensures
        r@ == replace_all(v@, pat@, rep@),
{
    let plen = pat.unicode_len();
    let mut r: Vec<char> = Vec::new();
    let mut i: usize = 0;
    proof {
        assert(v@.skip(0) =~= v@);
    }
    while i < v.len()
        invariant
            i <= v.len(),
            plen == pat@.len(),
            plen > 0,
            replace_all(v@, pat@, rep@) == r@ + replace_all(v@.skip(i as int), pat@, rep@),
        decreases v.len() - i,
    {
        let ghost rest = v@.skip(i as int);
        if plen <= v.len() - i && range_eq_str(v, i, i + plen, pat) {
            proof {
                assert(rest.take(plen as int) =~= v@.subrange(i as int, i as int + plen));
                assert(rest.skip(plen as int) =~= v@.skip(i as int + plen));
                assert(replace_all(rest, pat@, rep@) == rep@ + replace_all(
                    v@.skip(i as int + plen),
                    pat@,
                    rep@,
                ));
            }
            let ghost mid = r@;
            let mut k: usize = 0;
            while k < rep.len()
                invariant
                    k <= rep.len(),
                    r@ == mid + rep@.take(k as int),
                decreases rep.len() - k,
            {
                r.push(rep[k]);
                proof {
                    assert((mid + rep@.take(k as int)).push(rep@[k as int]) =~= mid + rep@.take(
                        k as int + 1,
                    ));
                }
                k = k + 1;
            }
            proof {
                assert(rep@.take(rep@.len() as int) =~= rep@);
            }
            i = i + plen;
        } else {
            proof {
                if plen <= v.len() - i {
                    assert(rest.take(plen as int) =~= v@.subrange(i as int, i as int + plen));
                } else {
                    assert(rest.len() < plen);
                }
                assert(rest.take(1) =~= seq![v@[i as int]]);
                assert(rest.skip(1) =~= v@.skip(i as int + 1));
                assert(replace_all(rest, pat@, rep@) == seq![v@[i as int]] + replace_all(
                    v@.skip(i as int + 1),
                    pat@,
                    rep@,
                ));
            }
            r.push(v[i]);
            i = i + 1;
        }
    }
    proof {
        assert(v@.skip(v@.len() as int) =~= Seq::<char>::empty());
        assert(r@ + Seq::<char>::empty() =~= r@);
    }
    r
}

// ---------------------------------------------------------------------------
// path components, over `/`-separated strings
// ---------------------------------------------------------------------------
/// The index of the last occurrence of `c` in `s`, or `-1`.
pub open spec fn find_last(s: Seq<char>, c: char) -> int
    decreases s.len(),
{
    if s.len() == 0 {
        -1
    } else if s[s.len() - 1] == c {
        s.len() - 1
    } else {
        find_last(s.take(s.len() - 1), c)
    }
}

pub proof fn lemma_find_last_at(s: Seq<char>, c: char, k: int)
    requires
        -1 <= k < s.len(),
        k >= 0 ==> s[k] == c,
        forall|j: int| k < j < s.len() ==> s[j] != c,
    ensures
        find_last(s, c) == k,
    decreases s.len(),
{
    if s.len() > 0 && s[s.len() - 1] != c {
        let t = s.take(s.len() - 1);
        assert(forall|j: int| k < j < t.len() ==> t[j] == s[j] && t[j] != c);
        if k >= 0 {
            assert(t[k] == s[k]);
        }
        lemma_find_last_at(t, c, k);
    }
}

/// The part after the last separator: the whole string when it has
/// none.
pub open spec fn file_name_of(path: Seq<char>) -> Seq<char> {
    if find_last(path, '/') == -1 {
        path
    } else {
        path.skip(find_last(path, '/') + 1)
    }
}

/// The part before the last separator: empty when it has none.
pub open spec fn parent_of(path: Seq<char>) -> Seq<char> {
    if find_last(path, '/') == -1 {
        Seq::empty()
    } else {
        path.take(find_last(path, '/'))
    }
}

/// A usable path component: non-empty and not the parent reference.
pub open spec fn valid_component(name: Seq<char>) -> bool {
    name.len() > 0 && name != ".."@
}

/// The index one past the last occurrence of `c` in `v`, or zero when
/// it has none.
pub(crate) fn scan_last(v: &Vec<char>, c: char) -> (k: usize)
    ensures
        k == find_last(v@, c) + 1,
        k <= v@.len(),
    decreases v.len(),
{
    let mut k: usize = v.len();
    while k > 0 && v[k - 1] != c
        invariant
            k <= v.len(),
            forall|j: int| k <= j < v@.len() ==> v@[j] != c,
        decreases k,
    {
        k = k - 1;
    }
    proof {
        if k > 0 {
            lemma_find_last_at(v@, c, k - 1);
        } else {
            lemma_find_last_at(v@, c, -1);
        }
    }
    k
}

/// The file-name part of `v`, as a fresh vector.
pub(crate) fn file_name_chars(v: &Vec<char>) -> (r: Vec<char>)
    ensures
        r@ == file_name_of(v@),
{
    let k = scan_last(v, '/');
    let r = copy_range(v, k, v.len());
    proof {
        if k == 0 {
            assert(v@.subrange(0, v@.len() as int) =~= v@);
            if find_last(v@, '/') != -1 {
                assert(v@.skip(find_last(v@, '/') + 1) =~= v@.subrange(0, v@.len() as int));
            }
        } else {
            assert(v@.subrange(k as int, v@.len() as int) =~= v@.skip(find_last(v@, '/') + 1));
        }
    }
    r
}

/// The parent part of `v`, as a fresh vector.
fn parent_chars(v: &Vec<char>) -> (r: Vec<char>)
    ensures
        r@ == parent_of(v@),
{
    let k = scan_last(v, '/');
    if k == 0 {
        let r: Vec<char> = Vec::new();
        proof {
            assert(r@ =~= parent_of(v@));
        }
        r
    } else {
        let r = copy_range(v, 0, k - 1);
        proof {
            assert(v@.subrange(0, k as int - 1) =~= v@.take(find_last(v@, '/')));
        }
        r
    }
}

/// Whether the component is usable.
fn component_ok(name: &Vec<char>) -> (r: bool)
    ensures
        r == valid_component(name@),
{
    if name.len() == 0 {
        proof {
            assert(!valid_component(name@));
        }
        return false;
    }
    let s = chars_to_string(name);
    let ok = !str_eq(s.as_str(), "..");
    proof {
        assert(s@ == name@);
    }
    ok
}

// ---------------------------------------------------------------------------
// the template substitution
// ---------------------------------------------------------------------------
/// What substituting the macros yields: the finished command line, or
/// the first unusable path component, reported as the caller's error
/// text.
pub enum TemplateOutcome {
    Done(Seq<char>),
    BadStem,
    BadParentName,
}

/// The six substitutions, applied in one fixed order: the binary
/// directory, the source file name, the full source path, the parent
/// directory path, the parent directory name, and the executable
/// extension. The file name and the parent's name must be usable
/// components; the checks come first, so a rejected call leaves the
/// template untouched.
pub open spec fn spec_template(
    template: Seq<char>,
    bin: Seq<char>,
    src: Seq<char>,
    exe: Seq<char>,
) -> TemplateOutcome {
    if !valid_component(file_name_of(src)) {
        TemplateOutcome::BadStem
    } else if !valid_component(file_name_of(parent_of(src))) {
        TemplateOutcome::BadParentName
    } else {
        let r1 = replace_all(template, "$(BIN_DIR)"@, bin);
        let r2 = replace_all(r1, "$(FILENAME)"@, file_name_of(src));
        let r3 = replace_all(r2, "$(FILE)"@, src);
        let r4 = replace_all(r3, "$(DIR)"@, parent_of(src));
        let r5 = replace_all(r4, "$(DIRNAME)"@, file_name_of(parent_of(src)));
        TemplateOutcome::Done(replace_all(r5, "$(EXE_EXT)"@, exe))
    }
}

/// Substitutes the macros into `config` in place. On an error the
/// template is left unchanged and the message names what was missing.
pub fn template_config_replacement(
    config: &mut String,
    binary_dir_path: &str,
    source_path: &str,
    exe_extension: &str,
) -> (r: Result<(), &'static str>)
    ensures
        match spec_template(old(config)@, binary_dir_path@, source_path@, exe_extension@) {
            TemplateOutcome::Done(t) => r is Ok && final(config)@ == t,
            TemplateOutcome::BadStem => r matches Err(m) && m@ == "Invalid source file stem"@
                && final(config)@ == old(config)@,
            TemplateOutcome::BadParentName => r matches Err(m) && m@
                == "Invalid source file parent directory name"@ && final(config)@ == old(
                config,
            )@,
        },
{
    let src = chars_of_str(source_path);
    let fname = file_name_chars(&src);
    if !component_ok(&fname) {
        return Err("Invalid source file stem");
    }
    let parent = parent_chars(&src);
    let pname = file_name_chars(&parent);
    if !component_ok(&pname) {
        return Err("Invalid source file parent directory name");
    }
    let bin = chars_of_str(binary_dir_path);
    let exe = chars_of_str(exe_extension);
    let t0 = chars_of_str(config.as_str());
    proof {
        reveal_strlit("$(BIN_DIR)");
        reveal_strlit("$(FILENAME)");
        reveal_strlit("$(FILE)");
        reveal_strlit("$(DIR)");
        reveal_strlit("$(DIRNAME)");
        reveal_strlit("$(EXE_EXT)");
    }
    let r1 = replace_chars(&t0, "$(BIN_DIR)", &bin);
    let r2 = replace_chars(&r1, "$(FILENAME)", &fname);
    let r3 = replace_chars(&r2, "$(FILE)", &src);
    let r4 = replace_chars(&r3, "$(DIR)", &parent);
    let r5 = replace_chars(&r4, "$(DIRNAME)", &pname);
    let r6 = replace_chars(&r5, "$(EXE_EXT)", &exe);
    *config = chars_to_string(&r6);
    Ok(())
}

/// The executable suffix the platform uses; the caller says which
/// platform it is on.
pub fn exe_extension_for(windows: bool) -> (r: &'static str)
    ensures
        windows ==> r@ == "exe"@,
        !windows ==> r@ == "out"@,
{
    if windows {
        "exe"
    } else {
        "out"
    }
}

} // verus!
