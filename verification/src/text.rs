//! Character-level scanning over lines of text.
//!
//! The stanza format is line oriented: fields are recognised by a literal
//! prefix, field values are whitespace-delimited tokens, and dependency
//! clauses are trimmed of surrounding whitespace. This module gives those
//! scans a mathematical definition over `Seq<char>` and provides executable
//! counterparts proved equal to it.

use vstd::prelude::*;

verus! {

/// ASCII whitespace: the separator set between tokens of a stanza line.
pub open spec fn is_space(c: char) -> bool {
    c == ' ' || c == '\t' || c == '\n' || c == '\r' || c == '\u{000C}'
}

/// Index of the first occurrence of `c` in `s` at or after `i`, or `s.len()`
/// if there is none.
pub open spec fn scan_to_char(s: Seq<char>, i: int, c: char) -> int
    decreases s.len() - i,
{
    if i < 0 || i >= s.len() {
        s.len() as int
    } else if s[i] == c {
        i
    } else {
        scan_to_char(s, i + 1, c)
    }
}

/// Index of the first whitespace character at or after `i`, or `s.len()`.
pub open spec fn scan_to_space(s: Seq<char>, i: int) -> int
    decreases s.len() - i,
{
    if i < 0 || i >= s.len() {
        s.len() as int
    } else if is_space(s[i]) {
        i
    } else {
        scan_to_space(s, i + 1)
    }
}

/// Index of the first non-whitespace character at or after `i`, or `s.len()`.
pub open spec fn scan_past_spaces(s: Seq<char>, i: int) -> int
    decreases s.len() - i,
{
    if i < 0 || i >= s.len() {
        s.len() as int
    } else if is_space(s[i]) {
        scan_past_spaces(s, i + 1)
    } else {
        i
    }
}

/// Position just after the last non-whitespace character strictly before `j`,
/// or `0` if everything before `j` is whitespace.
pub open spec fn scan_back_past_spaces(s: Seq<char>, j: int) -> int
    decreases j,
{
    if j <= 0 {
        0
    } else if is_space(s[j - 1]) {
        scan_back_past_spaces(s, j - 1)
    } else {
        j
    }
}

/// `s` without leading whitespace.
pub open spec fn trim_start(s: Seq<char>) -> Seq<char> {
    s.subrange(scan_past_spaces(s, 0), s.len() as int)
}

/// `s` without leading and trailing whitespace.
pub open spec fn trim(s: Seq<char>) -> Seq<char> {
    let a = scan_past_spaces(s, 0);
    let b = scan_back_past_spaces(s, s.len() as int);
    if a < b {
        s.subrange(a, b)
    } else {
        Seq::empty()
    }
}

/// The second whitespace-delimited token of `s`, if `s` has at least two
/// tokens. Field values sit in this position: the field name is token zero.
pub open spec fn second_token(s: Seq<char>) -> Option<Seq<char>> {
    let a = scan_past_spaces(s, 0);
    let b = scan_to_space(s, a);
    let c = scan_past_spaces(s, b);
    let d = scan_to_space(s, c);
    if c >= s.len() {
        None
    } else {
        Some(s.subrange(c, d))
    }
}

/// Lexicographic order on character sequences, decided at the first position
/// at or after `i` where the two differ.
pub open spec fn lex_le_from(a: Seq<char>, b: Seq<char>, i: int) -> bool
    decreases a.len() - i,
{
    if i < 0 || i >= a.len() {
        true
    } else if i >= b.len() {
        false
    } else if a[i] != b[i] {
        a[i] < b[i]
    } else {
        lex_le_from(a, b, i + 1)
    }
}

/// Lexicographic order on character sequences, the order of the name-sorted
/// package listing.
pub open spec fn lex_le(a: Seq<char>, b: Seq<char>) -> bool {
    lex_le_from(a, b, 0)
}

/// `lex_le` is total: any two sequences compare in one direction or the other.
pub proof fn lemma_lex_le_total(a: Seq<char>, b: Seq<char>)
    ensures
        lex_le(a, b) || lex_le(b, a),
{
    lemma_lex_le_from_total(a, b, 0);
}

proof fn lemma_lex_le_from_total(a: Seq<char>, b: Seq<char>, i: int)
    requires
        0 <= i,
    ensures
        lex_le_from(a, b, i) || lex_le_from(b, a, i),
    decreases a.len() - i,
{
    if i >= a.len() || i >= b.len() {
    } else if a[i] != b[i] {
    } else {
        lemma_lex_le_from_total(a, b, i + 1);
    }
}

/// Whether `c` is ASCII whitespace.
pub fn is_space_char(c: char) -> (r: bool)
    ensures
        r == is_space(c),
{
    c == ' ' || c == '\t' || c == '\n' || c == '\r' || c == '\u{000C}'
}

/// Index of the first occurrence of `c` in `s` at or after `i`.
pub fn find_char_from(s: &str, i: usize, c: char) -> (r: usize)
    requires
        i <= s@.len(),
    ensures
        r == scan_to_char(s@, i as int, c),
        i <= r <= s@.len(),
{
    let n = s.unicode_len();
    let mut j = i;
    while j < n
        invariant
            i <= j <= n,
            n == s@.len(),
            scan_to_char(s@, i as int, c) == scan_to_char(s@, j as int, c),
        decreases n - j,
    {
        if s.get_char(j) == c {
            return j;
        }
        j = j + 1;
    }
    j
}

/// Index of the first whitespace character in `s` at or after `i`.
pub fn find_space_from(s: &str, i: usize) -> (r: usize)
    requires
        i <= s@.len(),
    ensures
        r == scan_to_space(s@, i as int),
        i <= r <= s@.len(),
{
    let n = s.unicode_len();
    let mut j = i;
    while j < n
        invariant
            i <= j <= n,
            n == s@.len(),
            scan_to_space(s@, i as int) == scan_to_space(s@, j as int),
        decreases n - j,
    {
        if is_space_char(s.get_char(j)) {
            return j;
        }
        j = j + 1;
    }
    j
}

/// Index of the first non-whitespace character in `s` at or after `i`.
pub fn find_non_space_from(s: &str, i: usize) -> (r: usize)
    requires
        i <= s@.len(),
    ensures
        r == scan_past_spaces(s@, i as int),
        i <= r <= s@.len(),
{
    let n = s.unicode_len();
    let mut j = i;
    while j < n
        invariant
            i <= j <= n,
            n == s@.len(),
            scan_past_spaces(s@, i as int) == scan_past_spaces(s@, j as int),
        decreases n - j,
    {
        if !is_space_char(s.get_char(j)) {
            return j;
        }
        j = j + 1;
    }
    j
}

/// Position just after the last non-whitespace character of `s` before `j`.
pub fn find_non_space_back(s: &str, j: usize) -> (r: usize)
    requires
        j <= s@.len(),
    ensures
        r == scan_back_past_spaces(s@, j as int),
        r <= j,
{
    let mut k = j;
    while k > 0
        invariant
            k <= j <= s@.len(),
            scan_back_past_spaces(s@, j as int) == scan_back_past_spaces(s@, k as int),
        decreases k,
    {
        if !is_space_char(s.get_char(k - 1)) {
            return k;
        }
        k = k - 1;
    }
    k
}

/// `s` with leading and trailing whitespace removed, as an owned string.
pub fn str_trim(s: &str) -> (r: String)
    ensures
        r@ == trim(s@),
{
    let n = s.unicode_len();
    let a = find_non_space_from(s, 0);
    let b = find_non_space_back(s, n);
    if a < b {
        String::from_str(s.substring_char(a, b))
    } else {
        String::new()
    }
}

/// `s` with leading whitespace removed, as an owned string.
pub fn str_trim_start(s: &str) -> (r: String)
    ensures
        r@ == trim_start(s@),
{
    let n = s.unicode_len();
    let a = find_non_space_from(s, 0);
    String::from_str(s.substring_char(a, n))
}

/// Whether `prefix` is a prefix of `s`, character by character.
pub fn str_starts_with(s: &str, prefix: &str) -> (r: bool)
    ensures
        r == prefix@.is_prefix_of(s@),
{
    let np = prefix.unicode_len();
    let ns = s.unicode_len();
    if np > ns {
        return false;
    }
    let mut j: usize = 0;
    while j < np
        invariant
            0 <= j <= np <= ns,
            np == prefix@.len(),
            ns == s@.len(),
            forall|k: int| 0 <= k < j ==> s@[k] == prefix@[k],
        decreases np - j,
    {
        if s.get_char(j) != prefix.get_char(j) {
            return false;
        }
        j = j + 1;
    }
    assert(prefix@ =~= s@.subrange(0, np as int));
    true
}

/// Whether `a` and `b` hold the same characters.
pub fn str_eq(a: &str, b: &str) -> (r: bool)
    ensures
        r == (a@ == b@),
{
    let na = a.unicode_len();
    let nb = b.unicode_len();
    if na != nb {
        return false;
    }
    let mut j: usize = 0;
    while j < na
        invariant
            0 <= j <= na,
            na == a@.len(),
            na == b@.len(),
            forall|k: int| 0 <= k < j ==> a@[k] == b@[k],
        decreases na - j,
    {
        if a.get_char(j) != b.get_char(j) {
            return false;
        }
        j = j + 1;
    }
    assert(a@ =~= b@);
    true
}

/// Whether `a` comes at or before `b` in lexicographic order.
pub fn str_le(a: &str, b: &str) -> (r: bool)
    ensures
        r == lex_le(a@, b@),
{
    let na = a.unicode_len();
    let nb = b.unicode_len();
    let mut j: usize = 0;
    while j < na
        invariant
            0 <= j <= na,
            na == a@.len(),
            nb == b@.len(),
            lex_le(a@, b@) == lex_le_from(a@, b@, j as int),
        decreases na - j,
    {
        if j >= nb {
            return false;
        }
        let ca = a.get_char(j);
        let cb = b.get_char(j);
        if ca != cb {
            return ca < cb;
        }
        j = j + 1;
    }
    true
}

/// The second whitespace-delimited token of `s`, as an owned string.
pub fn second_token_str(s: &str) -> (r: Option<String>)
    ensures
        r is Some <==> second_token(s@) is Some,
        r matches Some(t) ==> second_token(s@) == Some(t@),
{
    let a = find_non_space_from(s, 0);
    let b = find_space_from(s, a);
    let c = find_non_space_from(s, b);
    let d = find_space_from(s, c);
    if c >= s.unicode_len() {
        None
    } else {
        Some(String::from_str(s.substring_char(c, d)))
    }
}

} // verus!
