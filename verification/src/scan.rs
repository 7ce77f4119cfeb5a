//! Scanning a string leaf for variable references.
//!
//! A variable reference is the literal text `var.` immediately followed by a
//! maximal, non-empty run of word characters (ASCII letters, digits and
//! underscore); the run is the referenced variable's name. A string is scanned
//! left to right; matches do not overlap, and after a match the scan resumes
//! at the first character past the matched run.

use vstd::prelude::*;

verus! {

/// A word character: an ASCII letter, an ASCII digit, or `_`.
pub open spec fn is_word_char(c: char) -> bool {
    (c as u32) == 95  // '_'
    || (97 <= c as u32 && c as u32 <= 122)  // 'a' ..= 'z'
    || (65 <= c as u32 && c as u32 <= 90)  // 'A' ..= 'Z'
    || (48 <= c as u32 && c as u32 <= 57)  // '0' ..= '9'
}

/// Length of the maximal run of word characters of `s` that starts at `i`.
pub open spec fn run_len(s: Seq<char>, i: int) -> int
    decreases s.len() - i,
{
    if i < 0 || i >= s.len() || !is_word_char(s[i]) {
        0
    } else {
        1 + run_len(s, i + 1)
    }
}

/// The four characters `var.` stand at position `i` of `s`.
pub open spec fn marker_at(s: Seq<char>, i: int) -> bool {
    &&& 0 <= i
    &&& i + 4 <= s.len()
    &&& s[i] == 'v'
    &&& s[i + 1] == 'a'
    &&& s[i + 2] == 'r'
    &&& s[i + 3] == '.'
}

/// A variable reference starts at position `i` of `s`: the marker `var.`
/// followed by at least one word character.
pub open spec fn match_at(s: Seq<char>, i: int) -> bool {
    marker_at(s, i) && i + 4 < s.len() && is_word_char(s[i + 4])
}

/// The name captured by the reference that starts at position `i`.
pub open spec fn capture_at(s: Seq<char>, i: int) -> Seq<char> {
    s.subrange(i + 4, i + 4 + run_len(s, i + 4))
}

/// First position past the reference that starts at position `i`.
pub open spec fn match_end(s: Seq<char>, i: int) -> int {
    i + 4 + run_len(s, i + 4)
}

pub proof fn lemma_run_len_bounds(s: Seq<char>, i: int)
    requires
        0 <= i <= s.len(),
    ensures
        0 <= run_len(s, i) <= s.len() - i,
    decreases s.len() - i,
{
    if i < s.len() && is_word_char(s[i]) {
        lemma_run_len_bounds(s, i + 1);
    }
}

/// The names captured by scanning `s` left to right from position `i`,
/// in scan order, duplicates kept.
pub open spec fn names_from(s: Seq<char>, i: int) -> Seq<Seq<char>>
    decreases s.len() - i,
    via names_from_decreases
{
    if i < 0 || i >= s.len() {
        Seq::empty()
    } else if match_at(s, i) {
        seq![capture_at(s, i)] + names_from(s, match_end(s, i))
    } else {
        names_from(s, i + 1)
    }
}

#[via_fn]
proof fn names_from_decreases(s: Seq<char>, i: int) {
    if 0 <= i < s.len() && match_at(s, i) {
        lemma_run_len_bounds(s, i + 4);
    }
}

/// The names referenced by the string `s`, in scan order, duplicates kept.
pub open spec fn string_names(s: Seq<char>) -> Seq<Seq<char>> {
    names_from(s, 0)
}

/// Word-character test on one character.
fn is_word(c: char) -> (r: bool)
    ensures
        r == is_word_char(c),
{
    let u = c as u32;
    u == 95 || (97 <= u && u <= 122) || (65 <= u && u <= 90) || (48 <= u && u <= 57)
}

/// The views of a sequence of owned strings.
pub open spec fn views_of(ss: Seq<String>) -> Seq<Seq<char>> {
    ss.map_values(|s: String| s@)
}

/// If every character of `s` in `[a, b)` is a word character and the run
/// cannot extend past `b`, then the maximal run starting at `a` ends at `b`.
proof fn lemma_run_len_exact(s: Seq<char>, a: int, b: int)
    requires
        0 <= a <= b <= s.len(),
        forall|k: int| a <= k < b ==> is_word_char(s[k]),
        b == s.len() || !is_word_char(s[b]),
    ensures
        run_len(s, a) == b - a,
    decreases b - a,
{
    if a < b {
        lemma_run_len_exact(s, a + 1, b);
    }
}

/// Scans the text `s` and appends every captured variable name to `out`,
/// in scan order, duplicates kept.
pub fn scan_text(s: &str, out: &mut Vec<String>)
    ensures
        views_of(final(out)@) == views_of(old(out)@) + string_names(s@),
{
    let n = s.unicode_len();
    let mut i: usize = 0;
    while i < n
        invariant
            n == s@.len(),
            i <= n,
            views_of(out@) + names_from(s@, i as int) == views_of(old(out)@) + names_from(s@, 0),
        decreases n - i,
    {
        let marker = n - i > 4 && s.get_char(i) == 'v' && s.get_char(i + 1) == 'a'
            && s.get_char(i + 2) == 'r' && s.get_char(i + 3) == '.';
        if marker && is_word(s.get_char(i + 4)) {
            let ghost gi = i as int;
            assert(match_at(s@, gi));
            let mut j: usize = i + 5;
            while j < n && is_word(s.get_char(j))
                invariant
                    n == s@.len(),
                    gi + 5 <= j <= n,
                    forall|k: int| gi + 4 <= k < j ==> is_word_char(s@[k]),
                decreases n - j,
            {
                j += 1;
            }
            proof {
                lemma_run_len_exact(s@, gi + 4, j as int);
            }
            let name = s.substring_char(i + 4, j);
            let ghost prev = out@;
            out.push(name.to_string());
            proof {
                assert(capture_at(s@, gi) =~= name@);
                assert(match_end(s@, gi) == j as int);
                assert(names_from(s@, gi) == seq![capture_at(s@, gi)] + names_from(
                    s@,
                    j as int,
                ));
                assert(views_of(out@) =~= views_of(prev) + seq![name@]);
                assert(views_of(out@) + names_from(s@, j as int) =~= views_of(prev)
                    + names_from(s@, gi));
            }
            i = j;
        } else {
            proof {
                assert(!match_at(s@, i as int));
            }
            i += 1;
        }
    }
    assert(names_from(s@, n as int) =~= Seq::<Seq<char>>::empty());
    assert(views_of(out@) =~= views_of(out@) + Seq::<Seq<char>>::empty());
    assert(views_of(out@) =~= views_of(old(out)@) + string_names(s@));
}

} // verus!
