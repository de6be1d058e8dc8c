//! Reading one stanza (paragraph) of the status database.
//!
//! A paragraph is a contiguous run of non-blank lines ended by a blank line
//! or by the end of the input. Within a paragraph the reader tracks three
//! fields: the `Package:` name (the token after the field name), the
//! `Description:` lines (the token on the header line, then every line that
//! begins with a space or tab, trimmed of leading whitespace), and the raw
//! `Depends:` text (a later `Depends:` line overwrites an earlier one). Any
//! other field is ignored.

use vstd::prelude::*;

use crate::deps::parse_dependencies;
use crate::deps::parse_depends;
use crate::text::second_token;
use crate::text::second_token_str;
use crate::text::str_starts_with;
use crate::text::str_trim_start;
use crate::text::trim_start;

verus! {

/// Why a paragraph could not be read.
#[derive(Clone, Copy, Debug, PartialEq, Eq, Structural)]
pub enum ParseError {
    /// A blank line ended the paragraph before any `Package:` line was seen.
    MissingPackageField,
    /// In strict mode: the first line of the paragraph is not a `Package:`
    /// line.
    MalformedHeader,
}

/// The fields read from one paragraph, with the dependency field already
/// split into groups of alternative names.
#[derive(Debug)]
pub struct Paragraph {
    /// The token after `Package:`; empty if the line carried no token.
    pub name: String,
    /// The description: the token on the `Description:` line, then each
    /// continuation line trimmed of leading whitespace.
    pub description: Vec<String>,
    /// The dependency groups of the last `Depends:` line, outer sequence
    /// comma-separated, inner sequence `|`-separated.
    pub dep_groups: Vec<Vec<String>>,
}

/// The mathematical value of a paragraph: its name, description lines, and
/// the raw text of its last `Depends:` line, if any.
#[verifier::ext_equal]
pub ghost struct ParaModel {
    pub name: Seq<char>,
    pub name_read: bool,
    pub description: Seq<Seq<char>>,
    pub reading_description: bool,
    pub raw_depends: Option<Seq<char>>,
}

/// What reading one paragraph yields.
pub ghost enum ScanOutcome {
    /// The input is exhausted; there is no further paragraph.
    NoMore,
    /// A paragraph, and the position of the first line after it.
    Complete(ParaModel, int),
    /// The paragraph is invalid; ingestion stops here.
    Failed(ParseError),
}

/// The scanner state before any line of the paragraph was read.
pub open spec fn init_scan_state() -> ParaModel {
    ParaModel {
        name: Seq::empty(),
        name_read: false,
        description: Seq::empty(),
        reading_description: false,
        raw_depends: None,
    }
}

/// How one non-blank line `l` changes the scanner state `st`.
///
/// A `Package: ` line captures the second token as the name (keeping the old
/// name if the token is missing). A `Description: ` line captures its second
/// token, if any, and starts continuation capture. Otherwise, while capture
/// is on, an indented line is appended trimmed and a non-indented line stops
/// capture; independently, a `Depends: ` line stores its raw field text.
pub open spec fn scan_step(st: ParaModel, l: Seq<char>) -> ParaModel {
    if "Package: "@.is_prefix_of(l) {
        ParaModel {
            name: match second_token(l) {
                Some(t) => t,
                None => st.name,
            },
            name_read: true,
            description: st.description,
            reading_description: st.reading_description,
            raw_depends: st.raw_depends,
        }
    } else if "Description: "@.is_prefix_of(l) {
        ParaModel {
            name: st.name,
            name_read: st.name_read,
            description: match second_token(l) {
                Some(t) => st.description.push(t),
                None => st.description,
            },
            reading_description: true,
            raw_depends: st.raw_depends,
        }
    } else {
        let continued = st.reading_description && l.len() > 0 && (l[0] == ' ' || l[0] == '\t');
        let st1 = ParaModel {
            name: st.name,
            name_read: st.name_read,
            description: if continued {
                st.description.push(trim_start(l))
            } else {
                st.description
            },
            reading_description: st.reading_description && continued,
            raw_depends: st.raw_depends,
        };
        if "Depends: "@.is_prefix_of(l) {
            ParaModel {
                name: st1.name,
                name_read: st1.name_read,
                description: st1.description,
                reading_description: st1.reading_description,
                raw_depends: Some(l.subrange("Depends: "@.len() as int, l.len() as int)),
            }
        } else {
            st1
        }
    }
}

/// Scans lines from position `i` with state `st` until a blank line or the
/// end of the input. A blank line completes the paragraph if a `Package:`
/// line was seen and fails it otherwise; the end of the input completes the
/// paragraph if a `Package:` line was seen and otherwise ends the stream.
pub open spec fn scan_from(lines: Seq<Seq<char>>, i: int, st: ParaModel) -> ScanOutcome
    decreases lines.len() - i,
{
    if i < 0 || i >= lines.len() {
        if st.name_read {
            ScanOutcome::Complete(st, lines.len() as int)
        } else {
            ScanOutcome::NoMore
        }
    } else if lines[i].len() == 0 {
        if st.name_read {
            ScanOutcome::Complete(st, i + 1)
        } else {
            ScanOutcome::Failed(ParseError::MissingPackageField)
        }
    } else {
        scan_from(lines, i + 1, scan_step(st, lines[i]))
    }
}

/// Reading the paragraph that starts at line `i`. With `strict` set, the
/// paragraph's first line must itself be a `Package: ` line.
pub open spec fn scan_paragraph(lines: Seq<Seq<char>>, i: int, strict: bool) -> ScanOutcome {
    if i >= lines.len() {
        ScanOutcome::NoMore
    } else if strict && !"Package: "@.is_prefix_of(lines[i]) {
        ScanOutcome::Failed(ParseError::MalformedHeader)
    } else {
        scan_from(lines, i, init_scan_state())
    }
}

/// The dependency groups denoted by an optional raw `Depends:` text: none at
/// all when the paragraph had no `Depends:` line.
pub open spec fn groups_of(raw: Option<Seq<char>>) -> Seq<Seq<Seq<char>>> {
    match raw {
        None => Seq::empty(),
        Some(t) => parse_depends(t),
    }
}

/// A completed scan names a position after `i` and at most `lines.len()`.
pub proof fn lemma_scan_advances(lines: Seq<Seq<char>>, i: int, strict: bool)
    ensures
        scan_paragraph(lines, i, strict) matches ScanOutcome::Complete(st, next) ==> i < next
            <= lines.len(),
{
    if 0 <= i < lines.len() {
        lemma_scan_from_bounds(lines, i, init_scan_state());
    }
}

proof fn lemma_scan_from_bounds(lines: Seq<Seq<char>>, i: int, st: ParaModel)
    requires
        0 <= i <= lines.len(),
    ensures
        scan_from(lines, i, st) matches ScanOutcome::Complete(st2, next) ==> i < next
            <= lines.len() || (i == lines.len() && next == i),
    decreases lines.len() - i,
{
    if i < lines.len() && lines[i].len() != 0 {
        lemma_scan_from_bounds(lines, i + 1, scan_step(st, lines[i]));
    }
}

/// The outcome of a paragraph read: a paragraph with the position of the
/// line after it, the end of the input, or a failure.
#[derive(Debug)]
pub enum ReadOutcome {
    /// The input is exhausted.
    NoMoreParagraphs,
    /// A paragraph, and the index of the first line after it.
    Complete(Paragraph, usize),
    /// The paragraph is invalid.
    Failed(ParseError),
}

/// Reads the paragraph that starts at line `start`.
///
/// With `strict` set, the paragraph must open with its `Package: ` line;
/// otherwise the line may sit anywhere in the paragraph.
#[verifier::loop_isolation(false)]
pub fn read_package_from_lines(lines: &Vec<String>, start: usize, strict: bool) -> (r: ReadOutcome)
    requires
        start <= lines@.len(),
    ensures
        ({
            let outcome = scan_paragraph(lines.deep_view(), start as int, strict);
            match r {
                ReadOutcome::NoMoreParagraphs => outcome is NoMore,
                ReadOutcome::Failed(e) => outcome matches ScanOutcome::Failed(e2) && e2 == e,
                ReadOutcome::Complete(p, next) => outcome matches ScanOutcome::Complete(pm, n)
                    && p.name@ == pm.name && p.description.deep_view() == pm.description
                    && p.dep_groups.deep_view() == groups_of(pm.raw_depends) && next == n,
            }
        }),
        r matches ReadOutcome::Complete(p, next) ==> start < next <= lines@.len(),
{
    let ghost ldv = lines.deep_view();
    let n = lines.len();
    if start >= n {
        return ReadOutcome::NoMoreParagraphs;
    }
    assert(ldv[start as int] == lines@[start as int]@);
    if strict && !str_starts_with(lines[start].as_str(), "Package: ") {
        return ReadOutcome::Failed(ParseError::MalformedHeader);
    }

    let mut name: String = String::new();
    let mut name_read: bool = false;
    let mut description: Vec<String> = Vec::new();
    let mut reading_description: bool = false;
    let mut raw_depends: Option<String> = None;
    let mut j = start;
    assert(ParaModel {
        name: name@,
        name_read: name_read,
        description: description.deep_view(),
        reading_description: reading_description,
        raw_depends: raw_depends.deep_view(),
    } =~~= init_scan_state());

    while j < n
        invariant
            start <= j <= n,
            n == ldv.len(),
            ldv == lines.deep_view(),
            scan_from(ldv, start as int, init_scan_state()) == scan_from(
                ldv,
                j as int,
                ParaModel {
                    name: name@,
                    name_read: name_read,
                    description: description.deep_view(),
                    reading_description: reading_description,
                    raw_depends: raw_depends.deep_view(),
                },
            ),
        decreases n - j,
    {
        let ghost st = ParaModel {
            name: name@,
            name_read: name_read,
            description: description.deep_view(),
            reading_description: reading_description,
            raw_depends: raw_depends.deep_view(),
        };
        let l = lines[j].as_str();
        assert(ldv[j as int] == lines@[j as int]@);
        if l.is_empty() {
            if name_read {
                let dep_groups = match raw_depends {
                    None => Vec::new(),
                    Some(t) => parse_dependencies(t.as_str()),
                };
                assert(dep_groups.deep_view() =~= groups_of(st.raw_depends));
                return ReadOutcome::Complete(
                    Paragraph { name, description, dep_groups },
                    j + 1,
                );
            } else {
                return ReadOutcome::Failed(ParseError::MissingPackageField);
            }
        }
        if str_starts_with(l, "Package: ") {
            match second_token_str(l) {
                Some(t) => {
                    name = t;
                },
                None => {},
            }
            name_read = true;
        } else if str_starts_with(l, "Description: ") {
            let ghost prev = description.deep_view();
            match second_token_str(l) {
                Some(t) => {
                    description.push(t);
                    assert(description.deep_view() =~= prev.push(
                        second_token(ldv[j as int])->Some_0,
                    ));
                },
                None => {},
            }
            reading_description = true;
        } else {
            if reading_description {
                let c0 = l.get_char(0);
                if c0 == ' ' || c0 == '\t' {
                    let ghost prev = description.deep_view();
                    description.push(str_trim_start(l));
                    assert(description.deep_view() =~= prev.push(trim_start(ldv[j as int])));
                } else {
                    reading_description = false;
                }
            }
            if str_starts_with(l, "Depends: ") {
                proof {
                    reveal_strlit("Depends: ");
                }
                raw_depends = Some(String::from_str(l.substring_char(9, l.unicode_len())));
            }
        }
        assert(ParaModel {
            name: name@,
            name_read: name_read,
            description: description.deep_view(),
            reading_description: reading_description,
            raw_depends: raw_depends.deep_view(),
        } =~= scan_step(st, ldv[j as int]));
        j = j + 1;
    }

    let ghost st = ParaModel {
        name: name@,
        name_read: name_read,
        description: description.deep_view(),
        reading_description: reading_description,
        raw_depends: raw_depends.deep_view(),
    };
    if name_read {
        let dep_groups = match raw_depends {
            None => Vec::new(),
            Some(t) => parse_dependencies(t.as_str()),
        };
        assert(dep_groups.deep_view() =~= groups_of(st.raw_depends));
        ReadOutcome::Complete(Paragraph { name, description, dep_groups }, j)
    } else {
        ReadOutcome::NoMoreParagraphs
    }
}

} // verus!
