//! Character-level helpers shared by the whole pipeline: the separator set,
//! the alphabet of environment-variable names, and ASCII case folding used by
//! the case-insensitive path comparison.

use vstd::prelude::*;

verus! {

/// Both conventional separators count as separators on every host.
pub open spec fn is_slash_char(c: char) -> bool {
    c == '/' || c == '\\'
}

/// Executable separator test.
pub fn is_slash(c: char) -> (r: bool)
    ensures
        r == is_slash_char(c),
{
    c == '/' || c == '\\'
}

/// Characters permitted in an environment-variable name: ASCII letters,
/// digits and underscore.
pub open spec fn is_env_char(c: char) -> bool {
    (97 <= c as u32 && c as u32 <= 122)  // a-z
    || (65 <= c as u32 && c as u32 <= 90)  // A-Z
    || (48 <= c as u32 && c as u32 <= 57)  // 0-9
    || c == '_'
}

/// Executable test for [`is_env_char`].
pub fn env_char(c: char) -> (r: bool)
    ensures
        r == is_env_char(c),
{
    let u = c as u32;
    (97 <= u && u <= 122) || (65 <= u && u <= 90) || (48 <= u && u <= 57) || c == '_'
}

pub open spec fn is_ascii_upper(c: char) -> bool {
    65 <= c as u32 && c as u32 <= 90
}

pub open spec fn is_ascii_letter(c: char) -> bool {
    is_ascii_upper(c) || (97 <= c as u32 && c as u32 <= 122)
}

/// Scalar value of `c` after ASCII lower-casing; the basis of the
/// case-insensitive comparison.
pub open spec fn lower_u32(c: char) -> u32 {
    if is_ascii_upper(c) {
        (c as u32 + 32) as u32
    } else {
        c as u32
    }
}

/// Case-insensitive character equality (ASCII folding).
pub open spec fn ci_eq_char(a: char, b: char) -> bool {
    lower_u32(a) == lower_u32(b)
}

/// Case-insensitive equality of two character sequences.
pub open spec fn ci_eq(a: Seq<char>, b: Seq<char>) -> bool {
    a.len() == b.len() && forall|i: int| 0 <= i < a.len() ==> ci_eq_char(a[i], b[i])
}

/// Executable case-insensitive character comparison.
pub fn char_ci_eq(a: char, b: char) -> (r: bool)
    ensures
        r == ci_eq_char(a, b),
{
    let ua = a as u32;
    let ub = b as u32;
    let la = if 65 <= ua && ua <= 90 { ua + 32 } else { ua };
    let lb = if 65 <= ub && ub <= 90 { ub + 32 } else { ub };
    la == lb
}

/// Executable exact string comparison, character by character.
pub fn str_eq(a: &str, b: &str) -> (r: bool)
    ensures
        r == (a@ == b@),
{
    let alen = a.unicode_len();
    let blen = b.unicode_len();
    if alen != blen {
        return false;
    }
    let mut i: usize = 0;
    while i < alen
        invariant
            i <= alen,
            alen == a@.len(),
            alen == b@.len(),
            forall|j: int| 0 <= j < i ==> a@[j] == b@[j],
        decreases alen - i,
    {
        if a.get_char(i) != b.get_char(i) {
            return false;
        }
        i = i + 1;
    }
    proof {
        assert(a@ =~= b@);
    }
    true
}

/// Executable case-insensitive string comparison.
pub fn str_ci_eq(a: &str, b: &str) -> (r: bool)
    ensures
        r == ci_eq(a@, b@),
{
    let alen = a.unicode_len();
    let blen = b.unicode_len();
    if alen != blen {
        return false;
    }
    let mut i: usize = 0;
    while i < alen
        invariant
            i <= alen,
            alen == a@.len(),
            alen == b@.len(),
            forall|j: int| 0 <= j < i ==> ci_eq_char(a@[j], b@[j]),
        decreases alen - i,
    {
        if !char_ci_eq(a.get_char(i), b.get_char(i)) {
            return false;
        }
        i = i + 1;
    }
    true
}

/// Lower-cases an ASCII letter, preserving everything the contracts need
/// about its scalar value.
pub fn lower_ascii_letter(c: char) -> (r: char)
    requires
        is_ascii_letter(c),
    ensures
        r as u32 == lower_u32(c),
        97 <= r as u32 <= 122,
{
    match c {
        'A' => 'a',
        'B' => 'b',
        'C' => 'c',
        'D' => 'd',
        'E' => 'e',
        'F' => 'f',
        'G' => 'g',
        'H' => 'h',
        'I' => 'i',
        'J' => 'j',
        'K' => 'k',
        'L' => 'l',
        'M' => 'm',
        'N' => 'n',
        'O' => 'o',
        'P' => 'p',
        'Q' => 'q',
        'R' => 'r',
        'S' => 's',
        'T' => 't',
        'U' => 'u',
        'V' => 'v',
        'W' => 'w',
        'X' => 'x',
        'Y' => 'y',
        'Z' => 'z',
        _ => c,
    }
}

/// Relies on `String::push`: appends exactly one character at the end.
#[verifier::external_body]
pub fn push_char(s: &mut String, c: char)
    ensures
        final(s)@ == old(s)@.push(c),
{
    s.push(c)
}

} // verus!
