//! The ignore-pattern matcher.
//!
//! An ignore entry is a shell-style glob: `*` matches any run of characters,
//! `?` any single character, and `[...]` a character class. A class may be
//! negated with a leading `!`; inside it, `x-y` denotes the inclusive
//! codepoint range and the first member character is always literal (so
//! `[]]` matches `]`). A pattern without those metacharacters matches
//! exactly itself, which is how literal ignore names behave.
//!
//! A pattern is invalid exactly when a `[` has no closing `]`; compiling
//! such an entry fails. Matching is defined (as `false` at the broken
//! bracket) even for invalid patterns, so no caller needs a validity proof.

use vstd::prelude::*;

use crate::EngineError;

verus! {

/// The index of the first `]` at or after `j`, or `p.len()` if there is none.
pub open spec fn find_close(p: Seq<char>, j: int) -> int
    decreases p.len() - j,
{
    if j >= p.len() {
        p.len() as int
    } else if p[j] == ']' {
        j
    } else {
        find_close(p, j + 1)
    }
}

pub proof fn lemma_find_close_bounds(p: Seq<char>, j: int)
    requires
        0 <= j <= p.len(),
    ensures
        j <= find_close(p, j) <= p.len(),
        find_close(p, j) < p.len() ==> p[find_close(p, j)] == ']',
    decreases p.len() - j,
{
    if j < p.len() && p[j] != ']' {
        lemma_find_close_bounds(p, j + 1);
    }
}

/// One character against a class body (the text between the brackets,
/// negation mark excluded): a member of a listed range or a listed
/// character.
pub open spec fn class_matches(cls: Seq<char>, c: char) -> bool
    decreases cls.len(),
{
    if cls.len() == 0 {
        false
    } else if cls.len() >= 3 && cls[1] == '-' {
        ((cls[0] as u32) <= (c as u32) && (c as u32) <= (cls[2] as u32)) || class_matches(
            cls.skip(3),
            c,
        )
    } else {
        cls[0] == c || class_matches(cls.skip(1), c)
    }
}

/// The pattern suffix starting at `pi` matches the candidate suffix
/// starting at `si`.
pub open spec fn glob_match_at(p: Seq<char>, s: Seq<char>, pi: int, si: int) -> bool
    decreases p.len() - pi, s.len() - si,
    when 0 <= pi && 0 <= si
    via glob_match_at_decreases
{
    if pi >= p.len() {
        si >= s.len()
    } else if p[pi] == '*' {
        glob_match_at(p, s, pi + 1, si) || (si < s.len() && glob_match_at(p, s, pi, si + 1))
    } else if p[pi] == '?' {
        si < s.len() && glob_match_at(p, s, pi + 1, si + 1)
    } else if p[pi] == '[' {
        let neg = pi + 1 < p.len() && p[pi + 1] == '!';
        let start = if neg {
            pi + 2
        } else {
            pi + 1
        };
        let close = find_close(p, start + 1);
        if start >= p.len() || close >= p.len() {
            false
        } else {
            si < s.len() && (class_matches(p.subrange(start, close), s[si]) != neg)
                && glob_match_at(p, s, close + 1, si + 1)
        }
    } else {
        si < s.len() && p[pi] == s[si] && glob_match_at(p, s, pi + 1, si + 1)
    }
}

#[via_fn]
proof fn glob_match_at_decreases(p: Seq<char>, s: Seq<char>, pi: int, si: int) {
    if 0 <= pi && pi < p.len() && p[pi] == '[' {
        let neg = pi + 1 < p.len() && p[pi + 1] == '!';
        let start = if neg {
            pi + 2
        } else {
            pi + 1
        };
        if start + 1 <= p.len() {
            lemma_find_close_bounds(p, start + 1);
        }
    }
}

/// The whole pattern matches the whole candidate.
pub open spec fn glob_match(p: Seq<char>, s: Seq<char>) -> bool {
    glob_match_at(p, s, 0, 0)
}

/// Every `[` in the suffix starting at `pi` has a closing `]`.
pub open spec fn valid_glob_from(p: Seq<char>, pi: int) -> bool
    decreases p.len() - pi,
    when 0 <= pi
    via valid_glob_from_decreases
{
    if pi >= p.len() {
        true
    } else if p[pi] == '[' {
        let neg = pi + 1 < p.len() && p[pi + 1] == '!';
        let start = if neg {
            pi + 2
        } else {
            pi + 1
        };
        let close = find_close(p, start + 1);
        start < p.len() && close < p.len() && valid_glob_from(p, close + 1)
    } else {
        valid_glob_from(p, pi + 1)
    }
}

#[via_fn]
proof fn valid_glob_from_decreases(p: Seq<char>, pi: int) {
    if 0 <= pi && pi < p.len() && p[pi] == '[' {
        let neg = pi + 1 < p.len() && p[pi + 1] == '!';
        let start = if neg {
            pi + 2
        } else {
            pi + 1
        };
        if start + 1 <= p.len() {
            lemma_find_close_bounds(p, start + 1);
        }
    }
}

/// The pattern is syntactically valid.
pub open spec fn valid_glob(p: Seq<char>) -> bool {
    valid_glob_from(p, 0)
}

/// One compiled ignore entry: the pattern, decoded to characters.
pub struct CompiledPattern {
    pub chars: Vec<char>,
}

impl View for CompiledPattern {
    type V = Seq<char>;

    open spec fn view(&self) -> Seq<char> {
        self.chars@
    }
}

/// Decode a string to its characters.
pub fn str_to_chars(s: &str) -> (r: Vec<char>)
    ensures
        r@ == s@,
{
    let len = s.unicode_len();
    let mut out: Vec<char> = Vec::new();
    let mut i: usize = 0;
    while i < len
        invariant
            i <= len,
            len == s@.len(),
            out@ == s@.take(i as int),
        decreases len - i,
    {
        let c = s.get_char(i);
        out.push(c);
        proof {
            assert(s@.take(i + 1) =~= s@.take(i as int).push(s@[i as int]));
        }
        i = i + 1;
    }
    proof {
        assert(s@.take(len as int) =~= s@);
    }
    out
}

fn find_close_exec(p: &Vec<char>, j: usize) -> (r: usize)
    requires
        j <= p@.len(),
    ensures
        r == find_close(p@, j as int),
        j <= r <= p@.len(),
{
    let mut k: usize = j;
    loop
        invariant
            j <= k <= p@.len(),
            find_close(p@, j as int) == find_close(p@, k as int),
        decreases p@.len() - k,
    {
        if k == p.len() {
            return k;
        }
        if p[k] == ']' {
            return k;
        }
        k = k + 1;
    }
}

fn class_matches_exec(p: &Vec<char>, lo: usize, hi: usize, c: char) -> (r: bool)
    requires
        lo <= hi <= p@.len(),
    ensures
        r == class_matches(p@.subrange(lo as int, hi as int), c),
{
    let mut k: usize = lo;
    loop
        invariant
            lo <= k <= hi <= p@.len(),
            class_matches(p@.subrange(lo as int, hi as int), c) == class_matches(
                p@.subrange(k as int, hi as int),
                c,
            ),
        decreases hi - k,
    {
        let ghost cls = p@.subrange(k as int, hi as int);
        if k == hi {
            return false;
        }
        if hi - k >= 3 && p[k + 1] == '-' {
            proof {
                assert(cls.len() >= 3);
                assert(cls[0] == p@[k as int]);
                assert(cls[1] == p@[k as int + 1]);
                assert(cls[2] == p@[k as int + 2]);
                assert(cls.skip(3) =~= p@.subrange(k as int + 3, hi as int));
            }
            if (p[k] as u32) <= (c as u32) && (c as u32) <= (p[k + 2] as u32) {
                return true;
            }
            k = k + 3;
        } else {
            proof {
                assert(cls.len() > 0);
                assert(cls[0] == p@[k as int]);
                assert(cls.skip(1) =~= p@.subrange(k as int + 1, hi as int));
                assert(cls.len() >= 3 ==> cls[1] == p@[k as int + 1]);
            }
            if p[k] == c {
                return true;
            }
            k = k + 1;
        }
    }
}

fn glob_match_exec(p: &Vec<char>, s: &Vec<char>, pi: usize, si: usize) -> (r: bool)
    requires
        pi <= p@.len(),
        si <= s@.len(),
    ensures
        r == glob_match_at(p@, s@, pi as int, si as int),
    decreases p@.len() - pi, s@.len() - si,
{
    if pi == p.len() {
        return si == s.len();
    }
    let pc = p[pi];
    if pc == '*' {
        if glob_match_exec(p, s, pi + 1, si) {
            return true;
        }
        if si < s.len() {
            return glob_match_exec(p, s, pi, si + 1);
        }
        return false;
    }
    if pc == '?' {
        if si < s.len() {
            return glob_match_exec(p, s, pi + 1, si + 1);
        }
        return false;
    }
    if pc == '[' {
        let neg = pi + 1 < p.len() && p[pi + 1] == '!';
        let start = if neg {
            pi + 2
        } else {
            pi + 1
        };
        if start >= p.len() {
            return false;
        }
        let close = find_close_exec(p, start + 1);
        if close >= p.len() {
            return false;
        }
        if si >= s.len() {
            return false;
        }
        let inside = class_matches_exec(p, start, close, s[si]);
        if inside != neg {
            return glob_match_exec(p, s, close + 1, si + 1);
        }
        return false;
    }
    if si < s.len() && p[pi] == s[si] {
        return glob_match_exec(p, s, pi + 1, si + 1);
    }
    false
}

fn valid_glob_exec(p: &Vec<char>) -> (r: bool)
    ensures
        r == valid_glob(p@),
{
    let mut pi: usize = 0;
    loop
        invariant
            pi <= p@.len(),
            valid_glob(p@) == valid_glob_from(p@, pi as int),
        decreases p@.len() - pi,
    {
        if pi == p.len() {
            return true;
        }
        if p[pi] == '[' {
            let neg = pi + 1 < p.len() && p[pi + 1] == '!';
            let start = if neg {
                pi + 2
            } else {
                pi + 1
            };
            if start >= p.len() {
                return false;
            }
            let close = find_close_exec(p, start + 1);
            if close >= p.len() {
                return false;
            }
            pi = close + 1;
        } else {
            pi = pi + 1;
        }
    }
}

impl CompiledPattern {
    /// Whether this pattern matches the candidate string.
    pub fn matches(&self, candidate: &str) -> (r: bool)
        ensures
            r == glob_match(self@, candidate@),
    {
        let cand = str_to_chars(candidate);
        glob_match_exec(&self.chars, &cand, 0, 0)
    }
}

/// Every entry of `specs` is a syntactically valid glob.
pub open spec fn all_valid(specs: Seq<Seq<char>>) -> bool {
    forall|i: int| 0 <= i < specs.len() ==> valid_glob(#[trigger] specs[i])
}

/// The views of a list of strings.
pub open spec fn views_of(v: Seq<String>) -> Seq<Seq<char>> {
    v.map_values(|s: String| s@)
}

/// Compile a list of ignore entries. Succeeds, with one compiled pattern
/// per entry, exactly when every entry is a valid glob; otherwise reports
/// the list as invalid.
pub fn compile(specs: &Vec<String>) -> (r: Result<Vec<CompiledPattern>, EngineError>)
    ensures
        r is Ok <==> all_valid(views_of(specs@)),
        r matches Ok(v) ==> v@.len() == specs@.len() && forall|i: int|
            0 <= i < v@.len() ==> #[trigger] v@[i]@ == specs@[i]@,
        r matches Err(e) ==> e == EngineError::InvalidPattern,
{
    let mut out: Vec<CompiledPattern> = Vec::new();
    let mut i: usize = 0;
    while i < specs.len()
        invariant
            i <= specs@.len(),
            out@.len() == i,
            forall|j: int| 0 <= j < i ==> #[trigger] out@[j]@ == specs@[j]@,
            forall|j: int| 0 <= j < i ==> valid_glob(#[trigger] views_of(specs@)[j]),
        decreases specs@.len() - i,
    {
        let chars = str_to_chars(specs[i].as_str());
        if !valid_glob_exec(&chars) {
            proof {
                assert(!valid_glob(views_of(specs@)[i as int]));
            }
            return Err(EngineError::InvalidPattern);
        }
        out.push(CompiledPattern { chars });
        i = i + 1;
    }
    proof {
        assert(forall|j: int|
            0 <= j < specs@.len() ==> valid_glob(#[trigger] views_of(specs@)[j]));
    }
    Ok(out)
}

/// Index of the last `.` in a name, or `-1` if there is none.
pub open spec fn last_dot(n: Seq<char>) -> int
    decreases n.len(),
{
    if n.len() == 0 {
        -1
    } else if n[n.len() - 1] == '.' {
        n.len() - 1
    } else {
        last_dot(n.drop_last())
    }
}

/// The extension of a file name: what follows the last `.`, provided that
/// dot is neither absent nor the leading character (a bare dotfile name
/// such as `.gitignore` has no extension).
pub open spec fn extension_of(n: Seq<char>) -> Option<Seq<char>> {
    let i = last_dot(n);
    if i <= 0 {
        None
    } else {
        Some(n.skip(i + 1))
    }
}

/// An ignore entry as an extension: one leading `.` is optional.
pub open spec fn strip_dot(e: Seq<char>) -> Seq<char> {
    if e.len() > 0 && e[0] == '.' {
        e.skip(1)
    } else {
        e
    }
}

/// The ignore entry, read as an extension, names the file's extension;
/// the comparison folds ASCII case on both sides.
pub open spec fn ext_match(e: Seq<char>, n: Seq<char>) -> bool {
    match extension_of(n) {
        Option::None => false,
        Option::Some(x) => crate::text::ascii_lower(x) == crate::text::ascii_lower(strip_dot(e)),
    }
}

/// ASCII case folding of one character.
fn ascii_lower_char_exec(c: char) -> (r: char)
    ensures
        r == crate::text::ascii_lower_char(c),
{
    let u = c as u32;
    if 65 <= u && u <= 90 {
        ((c as u8) + 32) as char
    } else {
        c
    }
}

/// Case-folded equality of the suffixes `a[alo..]` and `b[blo..]`.
fn lower_eq_from(a: &str, alo: usize, b: &str, blo: usize) -> (r: bool)
    requires
        alo <= a@.len(),
        blo <= b@.len(),
    ensures
        r == (crate::text::ascii_lower(a@.skip(alo as int)) == crate::text::ascii_lower(
            b@.skip(blo as int),
        )),
{
    let ghost la = crate::text::ascii_lower(a@.skip(alo as int));
    let ghost lb = crate::text::ascii_lower(b@.skip(blo as int));
    let a_len = a.unicode_len();
    let b_len = b.unicode_len();
    if a_len - alo != b_len - blo {
        proof {
            assert(la.len() != lb.len());
        }
        return false;
    }
    let n = a_len - alo;
    let mut j: usize = 0;
    loop
        invariant
            j <= n,
            alo + n == a@.len(),
            blo + n == b@.len(),
            alo + n <= usize::MAX,
            blo + n <= usize::MAX,
            la == crate::text::ascii_lower(a@.skip(alo as int)),
            lb == crate::text::ascii_lower(b@.skip(blo as int)),
            forall|k: int| 0 <= k < j ==> la[k] == lb[k],
        decreases n - j,
    {
        if j == n {
            proof {
                assert(la =~= lb);
            }
            return true;
        }
        let ca = ascii_lower_char_exec(a.get_char(alo + j));
        let cb = ascii_lower_char_exec(b.get_char(blo + j));
        proof {
            assert(a@.skip(alo as int)[j as int] == a@[alo + j]);
            assert(b@.skip(blo as int)[j as int] == b@[blo + j]);
            assert(la[j as int] == crate::text::ascii_lower_char(a@[alo + j]));
            assert(lb[j as int] == crate::text::ascii_lower_char(b@[blo + j]));
        }
        if ca != cb {
            return false;
        }
        j = j + 1;
    }
}

/// Whether the ignore entry, read as an extension, matches the file name.
pub fn ext_matches(entry: &str, name: &str) -> (r: bool)
    ensures
        r == ext_match(entry@, name@),
{
    let n_len = name.unicode_len();
    let mut k: usize = n_len;
    proof {
        assert(name@.take(n_len as int) =~= name@);
    }
    loop
        invariant
            k <= n_len,
            n_len == name@.len(),
            last_dot(name@) == last_dot(name@.take(k as int)),
        decreases k,
    {
        if k == 0 {
            proof {
                assert(name@.take(0).len() == 0);
            }
            return false;
        }
        let c = name.get_char(k - 1);
        proof {
            assert(name@.take(k as int).drop_last() =~= name@.take(k - 1));
            assert(name@.take(k as int).last() == name@[k - 1]);
        }
        if c == '.' {
            if k - 1 == 0 {
                return false;
            }
            let estart: usize = if entry.unicode_len() > 0 && entry.get_char(0) == '.' {
                1
            } else {
                0
            };
            proof {
                if estart == 1 {
                    assert(strip_dot(entry@) == entry@.skip(1));
                } else {
                    assert(strip_dot(entry@) =~= entry@.skip(0));
                }
                assert(extension_of(name@) == Option::Some(name@.skip(k as int)));
            }
            return lower_eq_from(entry, estart, name, k);
        }
        k = k - 1;
    }
}

/// Some pattern in the list matches the candidate.
pub open spec fn any_match(pats: Seq<Seq<char>>, cand: Seq<char>) -> bool {
    exists|i: int| 0 <= i < pats.len() && glob_match(#[trigger] pats[i], cand)
}

/// The views of a list of compiled patterns.
pub open spec fn pat_views(v: Seq<CompiledPattern>) -> Seq<Seq<char>> {
    v.map_values(|p: CompiledPattern| p@)
}

/// Whether any compiled pattern matches the candidate string.
pub fn any_matches(pats: &Vec<CompiledPattern>, candidate: &str) -> (r: bool)
    ensures
        r == any_match(pat_views(pats@), candidate@),
{
    let mut i: usize = 0;
    while i < pats.len()
        invariant
            i <= pats@.len(),
            forall|j: int| 0 <= j < i ==> !glob_match(#[trigger] pat_views(pats@)[j], candidate@),
        decreases pats@.len() - i,
    {
        if pats[i].matches(candidate) {
            proof {
                assert(glob_match(pat_views(pats@)[i as int], candidate@));
            }
            return true;
        }
        i = i + 1;
    }
    false
}

} // verus!
