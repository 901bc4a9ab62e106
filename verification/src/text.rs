//! Character-sequence helpers shared by the pattern matcher, the walker and
//! the assembler: lexicographic ordering, suffix tests, ASCII case folding.

use vstd::prelude::*;

verus! {

/// Lexicographic (codepoint-by-codepoint) strict order on character sequences.
pub open spec fn lex_lt(a: Seq<char>, b: Seq<char>) -> bool
    decreases a.len(),
{
    if b.len() == 0 {
        false
    } else if a.len() == 0 {
        true
    } else if a[0] != b[0] {
        (a[0] as u32) < (b[0] as u32)
    } else {
        lex_lt(a.skip(1), b.skip(1))
    }
}

/// Non-strict lexicographic order.
pub open spec fn lex_le(a: Seq<char>, b: Seq<char>) -> bool {
    lex_lt(a, b) || a == b
}

/// The lexicographic order is total: two sequences are equal, or one is
/// strictly below the other.
pub proof fn lemma_lex_total(a: Seq<char>, b: Seq<char>)
    ensures
        lex_lt(a, b) || a == b || lex_lt(b, a),
    decreases a.len(),
{
    if a.len() == 0 && b.len() == 0 {
        assert(a =~= b);
    } else if a.len() > 0 && b.len() > 0 && a[0] == b[0] {
        lemma_lex_total(a.skip(1), b.skip(1));
        if a.skip(1) == b.skip(1) {
            assert(a.skip(1).len() == a.len() - 1);
            assert(b.skip(1).len() == b.len() - 1);
            assert forall|i: int| 0 <= i < a.len() implies a[i] == b[i] by {
                if i >= 1 {
                    assert(a[i] == a.skip(1)[i - 1]);
                    assert(b[i] == b.skip(1)[i - 1]);
                }
            }
            assert(a =~= b);
        }
    } else if a.len() > 0 && b.len() > 0 {
        if (a[0] as u32) == (b[0] as u32) {
            vstd::utf8::char_u32_cast(a[0], a[0] as u32);
            vstd::utf8::char_u32_cast(b[0], b[0] as u32);
            assert(a[0] == b[0]);
        }
    }
}

/// The lexicographic order is transitive.
pub proof fn lemma_lex_trans(a: Seq<char>, b: Seq<char>, c: Seq<char>)
    requires
        lex_le(a, b),
        lex_le(b, c),
    ensures
        lex_le(a, c),
    decreases a.len() + b.len() + c.len(),
{
    if a == b || b == c {
    } else {
        if c.len() == 0 {
            assert(!lex_lt(b, c));
        } else if a.len() == 0 {
        } else if b.len() == 0 {
            assert(!lex_lt(a, b));
        } else {
            if a[0] == b[0] && b[0] == c[0] {
                lemma_lex_trans(a.skip(1), b.skip(1), c.skip(1));
                if a.skip(1) == c.skip(1) && a.len() == c.len() {
                    assert(a =~= c) by {
                        assert(forall|i: int|
                            1 <= i < a.len() ==> a[i] == a.skip(1)[i - 1] && c[i] == c.skip(1)[i
                                - 1]);
                    }
                } else if a.skip(1) == c.skip(1) {
                    assert(a.len() == a.skip(1).len() + 1);
                    assert(c.len() == c.skip(1).len() + 1);
                }
            } else if a[0] == b[0] {
                assert((b[0] as u32) < (c[0] as u32));
            } else if b[0] == c[0] {
                assert((a[0] as u32) < (b[0] as u32));
            } else {
                assert((a[0] as u32) < (c[0] as u32));
            }
        }
    }
}

/// `pat` is a suffix of `s`.
pub open spec fn is_suffix(pat: Seq<char>, s: Seq<char>) -> bool {
    pat.len() <= s.len() && s.skip(s.len() - pat.len()) == pat
}

/// ASCII lower-casing of a single character; other characters are unchanged.
pub open spec fn ascii_lower_char(c: char) -> char {
    if 'A' <= c && c <= 'Z' {
        ((c as u8) + 32) as char
    } else {
        c
    }
}

/// ASCII lower-casing of a whole sequence.
pub open spec fn ascii_lower(s: Seq<char>) -> Seq<char> {
    s.map_values(|c: char| ascii_lower_char(c))
}

/// A name that begins with a dot.
pub open spec fn dot_name(n: Seq<char>) -> bool {
    n.len() > 0 && n[0] == '.'
}

/// The characters this engine treats as whitespace when deciding that a
/// file's content is blank: the Unicode `White_Space` set.
pub open spec fn is_space_char(c: char) -> bool {
    let u = c as u32;
    ||| u == 0x9
    ||| u == 0xA
    ||| u == 0xB
    ||| u == 0xC
    ||| u == 0xD
    ||| u == 0x20
    ||| u == 0x85
    ||| u == 0xA0
    ||| u == 0x1680
    ||| (0x2000 <= u && u <= 0x200A)
    ||| u == 0x2028
    ||| u == 0x2029
    ||| u == 0x202F
    ||| u == 0x205F
    ||| u == 0x3000
}

/// Every character of `s` is whitespace (vacuously true of the empty sequence).
pub open spec fn all_whitespace(s: Seq<char>) -> bool {
    forall|i: int| 0 <= i < s.len() ==> is_space_char(#[trigger] s[i])
}

/// Whether one character is Unicode whitespace.
pub fn is_space(c: char) -> (r: bool)
    ensures
        r == is_space_char(c),
{
    let u = c as u32;
    u == 0x9 || u == 0xA || u == 0xB || u == 0xC || u == 0xD || u == 0x20 || u == 0x85
        || u == 0xA0 || u == 0x1680 || (0x2000 <= u && u <= 0x200A) || u == 0x2028 || u == 0x2029
        || u == 0x202F || u == 0x205F || u == 0x3000
}

/// Strict lexicographic comparison of two strings.
pub fn str_lex_lt(a: &str, b: &str) -> (r: bool)
    ensures
        r == lex_lt(a@, b@),
{
    let a_len = a.unicode_len();
    let b_len = b.unicode_len();
    let mut i: usize = 0;
    proof {
        assert(a@.skip(0) =~= a@);
        assert(b@.skip(0) =~= b@);
    }
    loop
        invariant
            i <= a_len,
            i <= b_len,
            a_len == a@.len(),
            b_len == b@.len(),
            forall|j: int| 0 <= j < i ==> a@[j] == b@[j],
            lex_lt(a@, b@) == lex_lt(a@.skip(i as int), b@.skip(i as int)),
        decreases a_len - i,
    {
        if i == b_len {
            proof {
                assert(b@.skip(i as int).len() == 0);
            }
            return false;
        }
        if i == a_len {
            proof {
                assert(a@.skip(i as int).len() == 0);
                assert(b@.skip(i as int).len() > 0);
            }
            return true;
        }
        let ca = a.get_char(i);
        let cb = b.get_char(i);
        proof {
            assert(a@.skip(i as int)[0] == a@[i as int]);
            assert(b@.skip(i as int)[0] == b@[i as int]);
            assert(a@.skip(i as int).skip(1) =~= a@.skip(i as int + 1));
            assert(b@.skip(i as int).skip(1) =~= b@.skip(i as int + 1));
        }
        if ca != cb {
            return (ca as u32) < (cb as u32);
        }
        i = i + 1;
    }
}

/// View-level equality of two strings.
pub fn str_eq(a: &str, b: &str) -> (r: bool)
    ensures
        r == (a@ == b@),
{
    let a_len = a.unicode_len();
    let b_len = b.unicode_len();
    if a_len != b_len {
        proof {
            assert(a@ != b@);
        }
        return false;
    }
    let mut i: usize = 0;
    loop
        invariant
            i <= a_len,
            a_len == a@.len(),
            b_len == b@.len(),
            a_len == b_len,
            forall|j: int| 0 <= j < i ==> a@[j] == b@[j],
        decreases a_len - i,
    {
        if i == a_len {
            proof {
                assert(a@ =~= b@);
            }
            return true;
        }
        let ca = a.get_char(i);
        let cb = b.get_char(i);
        if ca != cb {
            return false;
        }
        i = i + 1;
    }
}

/// `suffix` ends `s`.
pub fn str_ends_with(s: &str, suffix: &str) -> (r: bool)
    ensures
        r == is_suffix(suffix@, s@),
{
    let s_len = s.unicode_len();
    let p_len = suffix.unicode_len();
    if p_len > s_len {
        return false;
    }
    let off = s_len - p_len;
    let mut i: usize = 0;
    loop
        invariant
            i <= p_len,
            p_len <= s_len,
            off == s_len - p_len,
            s_len == s@.len(),
            p_len == suffix@.len(),
            forall|j: int| 0 <= j < i ==> s@[off + j] == suffix@[j],
        decreases p_len - i,
    {
        if i == p_len {
            proof {
                assert(s@.skip(off as int) =~= suffix@);
            }
            return true;
        }
        let cs = s.get_char(off + i);
        let cp = suffix.get_char(i);
        if cs != cp {
            proof {
                assert(s@.skip(off as int)[i as int] == s@[off + i]);
            }
            return false;
        }
        i = i + 1;
    }
}

} // verus!
