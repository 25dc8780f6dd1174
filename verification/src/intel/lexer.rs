//! Lexer for the transposed Intel spec-sheet CSV export.
//!
//! The file opens with a fixed banner line and the export timestamp, then a
//! row listing every CPU name, then sections: a heading line followed by
//! attribute rows up to a blank line. The last section lacks the blank-line
//! terminator and runs to the end of the input; every attribute row of
//! every section, including a final row without its newline, is kept.

use crate::text::{
    find_sub, find_sub_at, match_at, match_at_spec, seq_view, split_by, split_str, ParseError,
};
use vstd::prelude::*;

verus! {

// ---------- data model ----------

/// Everything the lexer takes from one export file.
#[derive(Debug)]
pub struct LexerOutput {
    /// The export timestamp from the file header.
    pub timestamp: String,
    /// The CPU names, in column order.
    pub cpus: Vec<String>,
    /// The attribute rows, each split into its cells.
    pub records: Vec<Vec<String>>,
}

/// Views of the rows of a table, cell by cell.
pub open spec fn rows_view(v: Seq<Vec<String>>) -> Seq<Seq<Seq<char>>> {
    Seq::new(v.len(), |i: int| seq_view(v[i]@))
}

#[verifier::ext_equal]
pub ghost struct LexerOutputView {
    pub timestamp: Seq<char>,
    pub cpus: Seq<Seq<char>>,
    pub records: Seq<Seq<Seq<char>>>,
}

impl View for LexerOutput {
    type V = LexerOutputView;

    open spec fn view(&self) -> LexerOutputView {
        LexerOutputView {
            timestamp: self.timestamp@,
            cpus: seq_view(self.cpus@),
            records: rows_view(self.records@),
        }
    }
}

/// Why an export file was rejected.
#[derive(Debug, PartialEq, Eq, Structural, Clone, Copy)]
pub enum LexError {
    /// The banner line or the timestamp line is malformed.
    Header,
    /// The CPU-name row is malformed.
    Cpus,
}

// ---------- grammar ----------

/// The fixed banner that opens every export.
pub open spec fn spec_header_tag() -> Seq<char> {
    "\u{feff}ARK | Intel® Product Specification Comparison\n"@
}

/// The banner, then the timestamp up to the end of its line, then the
/// `\n ,` that opens the CPU-name row.
pub open spec fn spec_read_file_header(s: Seq<char>) -> Option<(Seq<char>, Seq<char>)> {
    let h = spec_header_tag().len() as int;
    if match_at_spec(s, spec_header_tag(), 0) {
        match find_sub_at(s, "\n"@, h) {
            Some(k) => if match_at_spec(s, "\n ,"@, k) {
                Some((s.subrange(k + 3, s.len() as int), s.subrange(h, k)))
            } else {
                None
            },
            None => None,
        }
    } else {
        None
    }
}

/// The CPU-name row: everything up to ` \n`, split on ` ,`.
pub open spec fn spec_read_cpu_record(s: Seq<char>) -> Option<(Seq<char>, Seq<Seq<char>>)> {
    match find_sub_at(s, " \n"@, 0) {
        Some(m) => if 0 <= m && m + 2 <= s.len() {
            Some((s.subrange(m + 2, s.len() as int), split_by(s.subrange(0, m), " ,"@)))
        } else {
            None
        },
        None => None,
    }
}

/// One attribute row: everything up to the newline, split on commas.
pub open spec fn spec_read_record(s: Seq<char>) -> Option<(Seq<char>, Seq<Seq<char>>)> {
    match find_sub_at(s, "\n"@, 0) {
        Some(k) => if 0 <= k && k + 1 <= s.len() {
            Some((s.subrange(k + 1, s.len() as int), split_by(s.subrange(0, k), ","@)))
        } else {
            None
        },
        None => None,
    }
}

/// One section: a heading line that is discarded, then everything up to a
/// blank line, kept with one trailing newline; a final section without the
/// blank-line terminator keeps everything to the end of the input. Text
/// without even a heading line yields nothing.
pub open spec fn spec_read_section(s: Seq<char>) -> (Seq<char>, Seq<char>) {
    match find_sub_at(s, "\n"@, 0) {
        Some(h) => match find_sub_at(s, "\n\n"@, h + 1) {
            Some(d) => if 0 <= h && h + 1 <= d && d + 2 <= s.len() {
                (s.subrange(d + 2, s.len() as int), s.subrange(h + 1, d + 1))
            } else {
                (Seq::empty(), Seq::empty())
            },
            None => if 0 <= h && h + 1 <= s.len() {
                (Seq::empty(), s.subrange(h + 1, s.len() as int))
            } else {
                (Seq::empty(), Seq::empty())
            },
        },
        None => (Seq::empty(), Seq::empty()),
    }
}

/// Every section of the text, in order; the final one may lack the
/// blank-line terminator.
pub open spec fn spec_sections(s: Seq<char>) -> Seq<Seq<char>>
    decreases s.len(),
{
    if s.len() == 0 {
        Seq::empty()
    } else {
        let (rest, sec) = spec_read_section(s);
        if rest.len() < s.len() {
            seq![sec] + spec_sections(rest)
        } else {
            seq![sec]
        }
    }
}

/// The rows of one section: every line is a row, and a final line without
/// its newline is a row too.
pub open spec fn spec_section_rows(sec: Seq<char>) -> Seq<Seq<Seq<char>>>
    decreases sec.len(),
{
    if sec.len() == 0 {
        Seq::empty()
    } else {
        match spec_read_record(sec) {
            Some((rest, fields)) => if rest.len() < sec.len() {
                seq![fields] + spec_section_rows(rest)
            } else {
                seq![fields]
            },
            None => seq![split_by(sec, ","@)],
        }
    }
}

/// The rows of all sections, in order.
pub open spec fn spec_all_rows(secs: Seq<Seq<char>>) -> Seq<Seq<Seq<char>>>
    decreases secs.len(),
{
    if secs.len() == 0 {
        Seq::empty()
    } else {
        spec_section_rows(secs[0]) + spec_all_rows(secs.drop_first())
    }
}

/// What `lex_csv` extracts from the file.
pub open spec fn spec_lex(s: Seq<char>) -> Result<LexerOutputView, LexError> {
    match spec_read_file_header(s) {
        None => Err(LexError::Header),
        Some((r1, ts)) => match spec_read_cpu_record(r1) {
            None => Err(LexError::Cpus),
            Some((r2, cpus)) => Ok(
                LexerOutputView {
                    timestamp: ts,
                    cpus,
                    records: spec_all_rows(spec_sections(r2)),
                },
            ),
        },
    }
}

// ---------- parsers ----------

/// Read the banner and timestamp off the front of the input.
pub fn read_file_header<'a>(input: &'a str) -> (r: Result<(&'a str, &'a str), ParseError>)
    ensures
        match r {
            Ok((rest, ts)) => spec_read_file_header(input@) == Some((rest@, ts@)),
            Err(_) => spec_read_file_header(input@) is None,
        },
{
    proof {
        reveal_strlit("\n ,");
    }
    let hdr = "\u{feff}ARK | Intel® Product Specification Comparison\n";
    let h = hdr.unicode_len();
    let n = input.unicode_len();
    if !match_at(input, 0, hdr) {
        return Err(ParseError::Mismatch);
    }
    match find_sub(input, "\n", h) {
        None => Err(ParseError::Mismatch),
        Some(k) => if match_at(input, k, "\n ,") {
            Ok((input.substring_char(k + 3, n), input.substring_char(h, k)))
        } else {
            Err(ParseError::Mismatch)
        },
    }
}

/// Read the CPU-name row off the front of the input.
pub fn read_cpu_record<'a>(input: &'a str) -> (r: Result<(&'a str, Vec<String>), ParseError>)
    ensures
        match r {
            Ok((rest, cs)) => spec_read_cpu_record(input@) == Some((rest@, seq_view(cs@))),
            Err(_) => spec_read_cpu_record(input@) is None,
        },
{
    proof {
        reveal_strlit(" \n");
        reveal_strlit(" ,");
    }
    let n = input.unicode_len();
    match find_sub(input, " \n", 0) {
        None => Err(ParseError::Mismatch),
        Some(m) => {
            let cs = split_str(input.substring_char(0, m), " ,");
            let rest = input.substring_char(m + 2, n);
            proof {
                assert(seq_view(cs@) =~= split_by(input@.subrange(0, m as int), " ,"@));
            }
            Ok((rest, cs))
        },
    }
}

/// Read one attribute row off the front of the input.
pub fn read_record<'a>(input: &'a str) -> (r: Result<(&'a str, Vec<String>), ParseError>)
    ensures
        match r {
            Ok((rest, fs)) => spec_read_record(input@) == Some((rest@, seq_view(fs@))),
            Err(_) => spec_read_record(input@) is None,
        },
{
    proof {
        reveal_strlit("\n");
        reveal_strlit(",");
    }
    let n = input.unicode_len();
    match find_sub(input, "\n", 0) {
        None => Err(ParseError::Mismatch),
        Some(k) => {
            let fs = split_str(input.substring_char(0, k), ",");
            let rest = input.substring_char(k + 1, n);
            proof {
                assert(seq_view(fs@) =~= split_by(input@.subrange(0, k as int), ","@));
            }
            Ok((rest, fs))
        },
    }
}

/// Read one section off the front of the input; a section without the
/// blank-line terminator keeps everything to the end of the input, and
/// text without even a heading line yields nothing.
pub fn read_section<'a>(input: &'a str) -> (r: (&'a str, &'a str))
    ensures
        r.0@ == spec_read_section(input@).0,
        r.1@ == spec_read_section(input@).1,
{
    proof {
        reveal_strlit("\n");
        reveal_strlit("\n\n");
        reveal_strlit("");
    }
    let n = input.unicode_len();
    match find_sub(input, "\n", 0) {
        None => ("", ""),
        Some(h) => match find_sub(input, "\n\n", h + 1) {
            None => ("", input.substring_char(h + 1, n)),
            Some(d) => (input.substring_char(d + 2, n), input.substring_char(h + 1, d + 1)),
        },
    }
}

proof fn lemma_section_progress(s: Seq<char>)
    requires
        s.len() > 0,
    ensures
        spec_read_section(s).0.len() < s.len(),
{
    reveal_strlit("\n");
    reveal_strlit("\n\n");
    match find_sub_at(s, "\n"@, 0) {
        Some(h) => {
            lemma_find_sub_at_wrap(s, "\n"@, 0);
            match find_sub_at(s, "\n\n"@, h + 1) {
                Some(d) => {
                    lemma_find_sub_at_wrap(s, "\n\n"@, h + 1);
                },
                None => {},
            }
        },
        None => {},
    }
}

proof fn lemma_find_sub_at_wrap(s: Seq<char>, pat: Seq<char>, from: int)
    requires
        0 <= from,
    ensures
        find_sub_at(s, pat, from) matches Some(i) ==> from <= i && i + pat.len() <= s.len(),
{
    crate::text::lemma_find_sub_at(s, pat, from);
}

/// Read the rows of one section.
fn read_rows(sec: &str) -> (r: Vec<Vec<String>>)
    ensures
        rows_view(r@) == spec_section_rows(sec@),
{
    let mut rows: Vec<Vec<String>> = Vec::new();
    let mut rem: &str = sec;
    proof {
        assert(rows_view(rows@) =~= Seq::<Seq<Seq<char>>>::empty());
    }
    loop
        invariant
            spec_section_rows(sec@) == rows_view(rows@) + spec_section_rows(rem@),
        decreases rem@.len(),
    {
        let ghost pre = rows_view(rows@);
        if rem.is_empty() {
            proof {
                assert(rows_view(rows@) + Seq::<Seq<Seq<char>>>::empty() =~= rows_view(rows@));
            }
            return rows;
        }
        match read_record(rem) {
            Err(_) => {
                proof {
                    reveal_strlit(",");
                }
                let fields = split_str(rem, ",");
                let ghost fv = seq_view(fields@);
                rows.push(fields);
                proof {
                    assert(fv =~= split_by(rem@, ","@));
                    assert(rows_view(rows@) =~= pre + seq![fv]);
                    assert(pre + seq![fv] =~= pre + spec_section_rows(rem@));
                }
                return rows;
            },
            Ok((rest, fields)) => {
                proof {
                    reveal_strlit("\n");
                    lemma_find_sub_at_wrap(rem@, "\n"@, 0);
                }
                let ghost fv = seq_view(fields@);
                rows.push(fields);
                proof {
                    assert(rows_view(rows@) =~= pre + seq![fv]);
                    assert forall|l2: Seq<Seq<Seq<char>>>|
                        (pre + seq![fv]) + l2 =~= pre + (seq![fv] + l2) by {}
                }
                rem = rest;
            },
        }
    }
}

/// Read every section's rows, in order.
fn read_all_rows(input: &str) -> (r: Vec<Vec<String>>)
    ensures
        rows_view(r@) == spec_all_rows(spec_sections(input@)),
{
    let mut records: Vec<Vec<String>> = Vec::new();
    let mut rem: &str = input;
    proof {
        assert(rows_view(records@) =~= Seq::<Seq<Seq<char>>>::empty());
    }
    loop
        invariant
            spec_all_rows(spec_sections(input@)) == rows_view(records@) + spec_all_rows(
                spec_sections(rem@),
            ),
        decreases rem@.len(),
    {
        let ghost pre = rows_view(records@);
        if rem.is_empty() {
            proof {
                assert(spec_sections(rem@) =~= Seq::<Seq<char>>::empty());
                assert(rows_view(records@) + Seq::<Seq<Seq<char>>>::empty() =~= rows_view(
                    records@,
                ));
            }
            return records;
        }
        let (rest, sec) = read_section(rem);
        proof {
            lemma_section_progress(rem@);
            assert(spec_sections(rem@) == seq![sec@] + spec_sections(rest@));
            assert((seq![sec@] + spec_sections(rest@)).drop_first() =~= spec_sections(rest@));
            assert((seq![sec@] + spec_sections(rest@))[0] == sec@);
        }
        let mut rows = read_rows(sec);
        let ghost rv = rows_view(rows@);
        records.append(&mut rows);
        proof {
            assert(rows_view(records@) =~= pre + rv);
            assert forall|l2: Seq<Seq<Seq<char>>>| (pre + rv) + l2 =~= pre + (rv + l2) by {}
        }
        rem = rest;
    }
}

/// Lex one export file into its timestamp, CPU names and attribute rows.
pub fn lex_csv(input: &str) -> (r: Result<LexerOutput, LexError>)
    ensures
        match r {
            Ok(o) => spec_lex(input@) == Ok::<_, LexError>(o@),
            Err(e) => spec_lex(input@) == Err::<LexerOutputView, _>(e),
        },
{
    let (r1, ts) = match read_file_header(input) {
        Ok(p) => p,
        Err(_) => {
            return Err(LexError::Header);
        },
    };
    let (r2, cpus) = match read_cpu_record(r1) {
        Ok(p) => p,
        Err(_) => {
            return Err(LexError::Cpus);
        },
    };
    let records = read_all_rows(r2);
    let o = LexerOutput { timestamp: ts.to_owned(), cpus, records };
    proof {
        assert(spec_lex(input@) == Ok::<_, LexError>(o@));
    }
    Ok(o)
}

} // verus!
