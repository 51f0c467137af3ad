//! String-level path reasoning: suffix tests, last-position search, and
//! extension replacement.
//!
//! Paths are plain strings; the final component of a path is everything after
//! the last `/`.

use vstd::prelude::*;
use vstd::string::*;

verus! {

/// `s` ends with the characters of `suffix`.
pub open spec fn ends_with(s: Seq<char>, suffix: Seq<char>) -> bool {
    s.len() >= suffix.len() && s.subrange(s.len() - suffix.len(), s.len() as int) == suffix
}

/// Suffix test on strings, the way the scanner classifies file names.
pub fn str_ends_with(s: &str, suffix: &str) -> (r: bool)
    ensures
        r == ends_with(s@, suffix@),
{
    let n = s.unicode_len();
    let m = suffix.unicode_len();
    if m > n {
        return false;
    }
    let mut j: usize = 0;
    while j < m
        invariant
            m <= n,
            n as nat == s@.len(),
            m as nat == suffix@.len(),
            j <= m,
            forall|k: int| 0 <= k < j ==> s@[n - m + k] == suffix@[k],
        decreases m - j,
    {
        if s.get_char(n - m + j) != suffix.get_char(j) {
            proof {
                if ends_with(s@, suffix@) {
                    assert(s@.subrange(n - m, n as int)[j as int] == s@[n - m + j]);
                }
            }
            return false;
        }
        j += 1;
    }
    proof {
        assert(s@.subrange(n - m, n as int) =~= suffix@);
    }
    true
}

/// The index of the last occurrence of `c` in `s`, or `-1` when `c` does not
/// occur.
pub open spec fn last_pos(s: Seq<char>, c: char) -> int
    decreases s.len(),
{
    if s.len() == 0 {
        -1
    } else if s.last() == c {
        s.len() - 1
    } else {
        last_pos(s.drop_last(), c)
    }
}

/// `last_pos` points at an occurrence of `c`, and nothing after it is `c`.
pub proof fn lemma_last_pos(s: Seq<char>, c: char)
    ensures
        -1 <= last_pos(s, c) < s.len(),
        last_pos(s, c) >= 0 ==> s[last_pos(s, c)] == c,
        forall|j: int| last_pos(s, c) < j < s.len() ==> #[trigger] s[j] != c,
    decreases s.len(),
{
    if s.len() > 0 && s.last() != c {
        lemma_last_pos(s.drop_last(), c);
        assert forall|j: int| last_pos(s, c) < j < s.len() implies #[trigger] s[j] != c by {
            if j < s.len() - 1 {
                assert(s.drop_last()[j] != c);
            }
        }
    }
}

/// An index that holds `c` with no `c` after it is exactly `last_pos`.
pub proof fn lemma_last_pos_is(s: Seq<char>, c: char, i: int)
    requires
        0 <= i < s.len(),
        s[i] == c,
        forall|j: int| i < j < s.len() ==> #[trigger] s[j] != c,
    ensures
        last_pos(s, c) == i,
    decreases s.len(),
{
    if i < s.len() - 1 {
        lemma_last_pos_is(s.drop_last(), c, i);
    }
}

/// When no index holds `c`, `last_pos` is `-1`.
pub proof fn lemma_last_pos_absent(s: Seq<char>, c: char)
    requires
        forall|j: int| 0 <= j < s.len() ==> #[trigger] s[j] != c,
    ensures
        last_pos(s, c) == -1,
    decreases s.len(),
{
    if s.len() > 0 {
        lemma_last_pos_absent(s.drop_last(), c);
    }
}

/// The position of the last occurrence of `c` in `s`, searching from the end.
pub fn find_last(s: &str, c: char) -> (r: Option<usize>)
    ensures
        match r {
            Some(i) => i < s@.len() && last_pos(s@, c) == i,
            None => last_pos(s@, c) == -1,
        },
{
    let n = s.unicode_len();
    let mut i: usize = n;
    while i > 0
        invariant
            i <= n,
            n as nat == s@.len(),
            forall|j: int| i <= j < n ==> #[trigger] s@[j] != c,
        decreases i,
    {
        i = i - 1;
        if s.get_char(i) == c {
            proof {
                lemma_last_pos_is(s@, c, i as int);
            }
            return Some(i);
        }
    }
    proof {
        lemma_last_pos_absent(s@, c);
    }
    None
}

/// Where the final component of `p` begins: just after the last `/`.
pub open spec fn file_name_start(p: Seq<char>) -> int {
    last_pos(p, '/') + 1
}

/// The final component of `p` names no file: it is empty, `.` or `..`.
pub open spec fn has_no_file_name(p: Seq<char>) -> bool {
    let name = p.skip(file_name_start(p));
    name.len() == 0 || name == seq!['.'] || name == seq!['.', '.']
}

/// `p` with its extension replaced by `ext`: within the final component,
/// everything from the last `.` on is replaced by `.` followed by `ext`,
/// unless that dot is the component's first character (a hidden file) or the
/// component has no dot, in which case `.` followed by `ext` is appended.
/// A path whose final component is empty, `.` or `..` is left unchanged.
pub open spec fn with_ext(p: Seq<char>, ext: Seq<char>) -> Seq<char> {
    if has_no_file_name(p) {
        p
    } else {
        let start = file_name_start(p);
        let name = p.skip(start);
        let d = last_pos(name, '.');
        if d > 0 {
            p.take(start + d) + seq!['.'] + ext
        } else {
            p + seq!['.'] + ext
        }
    }
}

/// Rewrites the extension of `p` to `ext`, as `with_ext` states.
pub fn replace_extension(p: &str, ext: &str) -> (r: String)
    ensures
        r@ == with_ext(p@, ext@),
{
    proof {
        lemma_last_pos(p@, '/');
        reveal_strlit(".");
    }
    let n = p.unicode_len();
    let start: usize = match find_last(p, '/') {
        Some(i) => i + 1,
        None => 0,
    };
    let name = p.substring_char(start, n);
    let nl = name.unicode_len();
    let name_is_empty = nl == 0;
    let name_is_dot = nl == 1 && name.get_char(0) == '.';
    let name_is_dot_dot = nl == 2 && name.get_char(0) == '.' && name.get_char(1) == '.';
    proof {
        if name_is_dot {
            assert(name@ =~= seq!['.']);
        }
        if name_is_dot_dot {
            assert(name@ =~= seq!['.', '.']);
        }
        if name@ == seq!['.'] {
            assert(name@.len() == 1 && name@[0] == '.');
        }
        if name@ == seq!['.', '.'] {
            assert(name@.len() == 2 && name@[0] == '.' && name@[1] == '.');
        }
    }
    if name_is_empty || name_is_dot || name_is_dot_dot {
        return p.to_owned();
    }
    if let Some(d) = find_last(name, '.') {
        if d > 0 {
            proof {
                lemma_last_pos(name@, '.');
                assert(start + d < n);
            }
            let prefix = p.substring_char(0, start + d);
            let mut out = String::from_str(prefix);
            out.append(".");
            out.append(ext);
            proof {
                assert(out@ =~= with_ext(p@, ext@));
            }
            return out;
        }
    }
    let mut out = String::from_str(p);
    out.append(".");
    out.append(ext);
    proof {
        assert(out@ =~= with_ext(p@, ext@));
    }
    out
}

} // verus!
