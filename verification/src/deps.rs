//! Parsing of raw `Depends:` text into ordered groups of alternatives.
//!
//! The raw text is split on `,` into AND-clauses, each clause is split on `|`
//! into OR-alternatives, and each alternative is stripped of its version
//! annotation (everything from the first `(` onward) and of surrounding
//! whitespace. An alternative that ends up empty is kept as the empty name;
//! the splits always yield at least one alternative per clause, so no group
//! is ever empty.

use vstd::prelude::*;

use crate::text::find_char_from;
use crate::text::scan_to_char;
use crate::text::str_trim;
use crate::text::trim;

verus! {

/// The package name of one dependency alternative: the text before the first
/// `(`, trimmed of surrounding whitespace.
pub open spec fn clean_alternative(alt: Seq<char>) -> Seq<char> {
    trim(alt.subrange(0, scan_to_char(alt, 0, '(')))
}

/// The alternatives of the clause `c.subrange(start, ..)`, scanning for `|`
/// separators from position `i`.
pub open spec fn parse_group_from(c: Seq<char>, i: int, start: int) -> Seq<Seq<char>>
    decreases c.len() - i,
{
    if i < 0 || i >= c.len() {
        seq![clean_alternative(c.subrange(start, c.len() as int))]
    } else if c[i] == '|' {
        seq![clean_alternative(c.subrange(start, i))] + parse_group_from(c, i + 1, i + 1)
    } else {
        parse_group_from(c, i + 1, start)
    }
}

/// One AND-clause split on `|` into its cleaned alternatives, in order.
pub open spec fn parse_group(c: Seq<char>) -> Seq<Seq<char>> {
    parse_group_from(c, 0, 0)
}

/// The groups of the text `s.subrange(start, ..)`, scanning for `,`
/// separators from position `i`.
pub open spec fn parse_depends_from(s: Seq<char>, i: int, start: int) -> Seq<Seq<Seq<char>>>
    decreases s.len() - i,
{
    if i < 0 || i >= s.len() {
        seq![parse_group(s.subrange(start, s.len() as int))]
    } else if s[i] == ',' {
        seq![parse_group(s.subrange(start, i))] + parse_depends_from(s, i + 1, i + 1)
    } else {
        parse_depends_from(s, i + 1, start)
    }
}

/// The raw `Depends:` text split on `,` into groups of alternatives, in
/// order. This is what a stanza's dependency field denotes.
pub open spec fn parse_depends(s: Seq<char>) -> Seq<Seq<Seq<char>>> {
    parse_depends_from(s, 0, 0)
}

/// The package name of one dependency alternative, as an owned string.
fn clean_alternative_str(alt: &str) -> (r: String)
    ensures
        r@ == clean_alternative(alt@),
{
    let p = find_char_from(alt, 0, '(');
    str_trim(alt.substring_char(0, p))
}

/// One AND-clause split on `|` into its cleaned alternatives.
fn parse_group_str(clause: &str) -> (r: Vec<String>)
    ensures
        r.deep_view() == parse_group(clause@),
{
    let n = clause.unicode_len();
    let mut r: Vec<String> = Vec::new();
    let mut start: usize = 0;
    let mut i: usize = 0;
    while i < n
        invariant
            0 <= start <= i <= n,
            n == clause@.len(),
            parse_group(clause@) == r.deep_view() + parse_group_from(
                clause@,
                i as int,
                start as int,
            ),
        decreases n - i,
    {
        if clause.get_char(i) == '|' {
            let ghost prev = r.deep_view();
            let alt = clean_alternative_str(clause.substring_char(start, i));
            r.push(alt);
            assert(r.deep_view() =~= prev.push(alt@));
            assert(prev + parse_group_from(clause@, i as int, start as int) =~= r.deep_view()
                + parse_group_from(clause@, i as int + 1, i as int + 1));
            start = i + 1;
        }
        i = i + 1;
    }
    let ghost prev = r.deep_view();
    let alt = clean_alternative_str(clause.substring_char(start, n));
    r.push(alt);
    assert(r.deep_view() =~= prev.push(alt@));
    assert(parse_group(clause@) =~= r.deep_view());
    r
}

/// Splits raw `Depends:` text into its ordered alternative groups.
///
/// Clauses are separated by `,`, alternatives within a clause by `|`; each
/// alternative keeps only the text before the first `(`, trimmed of
/// whitespace.
pub fn parse_dependencies(input: &str) -> (r: Vec<Vec<String>>)
    ensures
        r.deep_view() == parse_depends(input@),
{
    let n = input.unicode_len();
    let mut r: Vec<Vec<String>> = Vec::new();
    let mut start: usize = 0;
    let mut i: usize = 0;
    while i < n
        invariant
            0 <= start <= i <= n,
            n == input@.len(),
            parse_depends(input@) == r.deep_view() + parse_depends_from(
                input@,
                i as int,
                start as int,
            ),
        decreases n - i,
    {
        if input.get_char(i) == ',' {
            let ghost prev = r.deep_view();
            let group = parse_group_str(input.substring_char(start, i));
            r.push(group);
            assert(r.deep_view() =~= prev.push(group.deep_view()));
            assert(prev + parse_depends_from(input@, i as int, start as int) =~= r.deep_view()
                + parse_depends_from(input@, i as int + 1, i as int + 1));
            start = i + 1;
        }
        i = i + 1;
    }
    let ghost prev = r.deep_view();
    let group = parse_group_str(input.substring_char(start, n));
    r.push(group);
    assert(r.deep_view() =~= prev.push(group.deep_view()));
    assert(parse_depends(input@) =~= r.deep_view());
    r
}

} // verus!
