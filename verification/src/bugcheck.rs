//! Bugcheck code table parser and lookup caches.
//!
//! The source is a Markdown table. Each data row holds a ten-character
//! hexadecimal stop-code literal and a Markdown link whose text is the
//! code's symbolic name (with backslash escapes) and whose relative `.md`
//! target is rewritten into an absolute documentation URL.

use crate::text::{
    find_sub, find_sub_at, hex_char_val, is_hex_char, lemma_find_sub_at, match_at, match_at_spec,
    seq_view, DbError, ParseError, Scan,
};
use vstd::prelude::*;

verus! {

// ---------- data model ----------

/// One bugcheck code: its number, symbolic name, and documentation URL.
#[derive(Debug, PartialEq)]
pub struct Code {
    pub code: u64,
    pub name: String,
    pub url: String,
}

#[verifier::ext_equal]
pub ghost struct CodeView {
    pub code: u64,
    pub name: Seq<char>,
    pub url: Seq<char>,
}

impl View for Code {
    type V = CodeView;

    open spec fn view(&self) -> CodeView {
        CodeView { code: self.code, name: self.name@, url: self.url@ }
    }
}

// ---------- hexadecimal literals of the table ----------

/// Every character is a hexadecimal digit.
pub open spec fn all_hex(s: Seq<char>) -> bool {
    forall|i: int| 0 <= i < s.len() ==> is_hex_char(#[trigger] s[i])
}

/// Value of a hexadecimal digit string, most significant digit first.
pub open spec fn hex_seq_val(s: Seq<char>) -> int
    decreases s.len(),
{
    if s.len() == 0 {
        0
    } else {
        hex_seq_val(s.drop_last()) * 16 + hex_char_val(s.last())
    }
}

/// The code literal with every `0x` pair struck out, scanning left to
/// right, as `str::replace` does.
pub open spec fn strip_0x(s: Seq<char>) -> Seq<char>
    decreases s.len(),
{
    if s.len() >= 2 && s[0] == '0' && s[1] == 'x' {
        strip_0x(s.subrange(2, s.len() as int))
    } else if s.len() == 0 {
        Seq::empty()
    } else {
        seq![s[0]] + strip_0x(s.drop_first())
    }
}

spec fn pow16(n: nat) -> int
    decreases n,
{
    if n == 0 {
        1
    } else {
        16 * pow16((n - 1) as nat)
    }
}

proof fn lemma_hex_seq_val_bound(s: Seq<char>)
    requires
        all_hex(s),
    ensures
        0 <= hex_seq_val(s) < pow16(s.len()),
    decreases s.len(),
{
    if s.len() > 0 {
        assert(all_hex(s.drop_last()));
        lemma_hex_seq_val_bound(s.drop_last());
        assert(is_hex_char(s.last()));
        assert(0 <= hex_char_val(s.last()) < 16);
    }
}

proof fn lemma_pow16_monotone(a: nat, b: nat)
    requires
        a <= b,
    ensures
        pow16(a) <= pow16(b),
    decreases b,
{
    if a < b {
        lemma_pow16_monotone(a, (b - 1) as nat);
        assert(pow16((b - 1) as nat) >= 1) by {
            lemma_pow16_positive((b - 1) as nat);
        }
    }
}

proof fn lemma_pow16_positive(n: nat)
    ensures
        pow16(n) >= 1,
    decreases n,
{
    if n > 0 {
        lemma_pow16_positive((n - 1) as nat);
    }
}

proof fn lemma_strip_0x_len(s: Seq<char>)
    ensures
        strip_0x(s).len() <= s.len(),
    decreases s.len(),
{
    if s.len() >= 2 && s[0] == '0' && s[1] == 'x' {
        lemma_strip_0x_len(s.subrange(2, s.len() as int));
    } else if s.len() > 0 {
        lemma_strip_0x_len(s.drop_first());
    }
}

// ---------- grammar ----------

/// The absolute base under which the relative links of the table live.
pub open spec fn spec_url_base() -> Seq<char> {
    "https://learn.microsoft.com/en-us/windows-hardware/drivers/debugger/"@
}

/// One table row: `| <10-char code> | [**name**](target.md)` padded out to
/// `|` and a newline. The name keeps its characters minus every backslash;
/// the URL is the base followed by the link target.
pub open spec fn spec_read_record(s: Seq<char>) -> Scan<CodeView> {
    if !(s.len() >= 15 && match_at_spec(s, "| "@, 0) && match_at_spec(s, " | "@, 12)
        && match_at_spec(s, "[**"@, 15)) {
        Scan::Stop
    } else {
        match find_sub_at(s, "**]"@, 18) {
            None => Scan::Stop,
            Some(p) => if match_at_spec(s, "("@, p + 3) {
                match find_sub_at(s, ".md)"@, p + 4) {
                    None => Scan::Stop,
                    Some(q) => match find_sub_at(s, "|\n"@, q + 4) {
                        None => Scan::Stop,
                        Some(w) => {
                            let digits = strip_0x(s.subrange(2, 12));
                            if digits.len() == 0 || !all_hex(digits) {
                                Scan::Fault
                            } else {
                                Scan::Found(
                                    s.subrange(w + 2, s.len() as int),
                                    CodeView {
                                        code: hex_seq_val(digits) as u64,
                                        name: s.subrange(18, p).filter(|c: char| c != '\\'),
                                        url: spec_url_base() + s.subrange(p + 4, q),
                                    },
                                )
                            }
                        },
                    },
                }
            } else {
                Scan::Stop
            },
        }
    }
}

/// Rows read one after another until a row no longer matches.
pub open spec fn spec_records(s: Seq<char>) -> Scan<Seq<CodeView>>
    decreases s.len(),
{
    match spec_read_record(s) {
        Scan::Found(rest, c) => if rest.len() < s.len() {
            match spec_records(rest) {
                Scan::Found(r2, l) => Scan::Found(r2, seq![c] + l),
                Scan::Stop => Scan::Stop,
                Scan::Fault => Scan::Fault,
            }
        } else {
            Scan::Stop
        },
        Scan::Stop => Scan::Found(s, Seq::empty()),
        Scan::Fault => Scan::Fault,
    }
}

/// The whole document: everything before the first `| 0x000` is prose, the
/// rows follow.
pub open spec fn spec_parse_codes(s: Seq<char>) -> Result<Seq<CodeView>, DbError> {
    match find_sub_at(s, "| 0x000"@, 0) {
        Some(i) => if 0 <= i <= s.len() {
            match spec_records(s.subrange(i, s.len() as int)) {
                Scan::Found(r2, l) => Ok(l),
                _ => Err(DbError::BadField),
            }
        } else {
            Err(DbError::NoStart)
        },
        None => Err(DbError::NoStart),
    }
}

proof fn lemma_record_progress(s: Seq<char>)
    ensures
        spec_read_record(s) matches Scan::Found(rest, c) ==> rest.len() < s.len(),
{
    if s.len() >= 15 && match_at_spec(s, "| "@, 0) && match_at_spec(s, " | "@, 12)
        && match_at_spec(s, "[**"@, 15) {
        reveal_strlit("**]");
        reveal_strlit(".md)");
        reveal_strlit("|\n");
        lemma_find_sub_at(s, "**]"@, 18);
        match find_sub_at(s, "**]"@, 18) {
            Some(p) => {
                lemma_find_sub_at(s, ".md)"@, p + 4);
                match find_sub_at(s, ".md)"@, p + 4) {
                    Some(q) => {
                        lemma_find_sub_at(s, "|\n"@, q + 4);
                    },
                    None => {},
                }
            },
            None => {},
        }
    }
}

// ---------- parsers ----------

/// Parse the ten-character code literal at positions 2..12: strike `0x`
/// pairs out, then read the rest as hexadecimal.
fn parse_code_value(input: &str) -> (r: Option<u64>)
    requires
        12 <= input@.len(),
    ensures
        ({
            let digits = strip_0x(input@.subrange(2, 12));
            match r {
                Some(v) => digits.len() > 0 && all_hex(digits) && v == hex_seq_val(digits),
                None => digits.len() == 0 || !all_hex(digits),
            }
        }),
{
    let ghost whole = input@.subrange(2, 12);
    let mut digits: Vec<char> = Vec::new();
    let mut i: usize = 2;
    proof {
        assert(whole.subrange(0, 0) =~= Seq::<char>::empty());
        assert(strip_0x(whole) == digits@ + strip_0x(whole.subrange(i - 2, whole.len() as int)))
            by {
            assert(whole.subrange(0, whole.len() as int) =~= whole);
            assert(digits@ + strip_0x(whole) =~= strip_0x(whole));
        }
    }
    while i < 12
        invariant
            2 <= i <= 12,
            12 <= input@.len(),
            whole == input@.subrange(2, 12),
            strip_0x(whole) == digits@ + strip_0x(whole.subrange(i - 2, whole.len() as int)),
        decreases 12 - i,
    {
        let ghost rest = whole.subrange(i - 2, whole.len() as int);
        let c = input.get_char(i);
        proof {
            assert(rest.len() == 12 - i);
            assert(rest[0] == whole[i - 2]);
            assert(whole[i - 2] == input@[i as int]);
        }
        if i + 1 < 12 && c == '0' && input.get_char(i + 1) == 'x' {
            proof {
                assert(rest[1] == input@[i + 1]);
                assert(rest.subrange(2, rest.len() as int) =~= whole.subrange(
                    i + 2 - 2,
                    whole.len() as int,
                ));
            }
            i += 2;
        } else {
            let ghost pre = digits@;
            digits.push(c);
            proof {
                if rest.len() >= 2 && rest[0] == '0' && rest[1] == 'x' {
                    // only possible when i + 1 == 12, yet rest.len() == 12 - i
                    assert(false);
                }
                assert(rest.drop_first() =~= whole.subrange(i + 1 - 2, whole.len() as int));
                assert(strip_0x(rest) == seq![rest[0]] + strip_0x(rest.drop_first()));
                assert(digits@ =~= pre + seq![rest[0]]);
                assert(pre + strip_0x(rest) =~= digits@ + strip_0x(rest.drop_first()));
            }
            i += 1;
        }
    }
    proof {
        assert(whole.subrange(10, 10) =~= Seq::<char>::empty());
        assert(digits@ + Seq::<char>::empty() =~= digits@);
        assert(strip_0x(whole) == digits@);
    }
    if digits.len() == 0 {
        return None;
    }
    let mut acc: u64 = 0;
    let mut j: usize = 0;
    let len = digits.len();
    proof {
        assert(digits@.subrange(0, 0) =~= Seq::<char>::empty());
        lemma_strip_0x_len(whole);
    }
    while j < len
        invariant
            0 <= j <= len,
            len == digits@.len(),
            len <= 10,
            12 <= input@.len(),
            whole == input@.subrange(2, 12),
            strip_0x(whole) == digits@,
            all_hex(digits@.subrange(0, j as int)),
            acc == hex_seq_val(digits@.subrange(0, j as int)),
            acc < 0x100_0000_0000,
        decreases len - j,
    {
        let c = digits[j];
        match crate::text::hex_digit_value(c) {
            Some(d) => {
                proof {
                    let pre = digits@.subrange(0, j as int);
                    let cur = digits@.subrange(0, j + 1);
                    assert(cur.drop_last() =~= pre);
                    assert(cur.last() == digits@[j as int]);
                    assert(all_hex(cur));
                    lemma_hex_seq_val_bound(pre);
                    lemma_pow16_monotone(pre.len(), 9);
                    assert(pow16(9) == 0x10_0000_0000) by {
                        reveal_with_fuel(pow16, 10);
                    }
                    lemma_hex_seq_val_bound(cur);
                    lemma_pow16_monotone(cur.len(), 10);
                    assert(pow16(10) == 0x100_0000_0000) by {
                        reveal_with_fuel(pow16, 11);
                    }
                }
                acc = acc * 16 + (d as u64);
                j += 1;
            },
            None => {
                proof {
                    assert(digits@[j as int] == c);
                    assert(!all_hex(digits@));
                }
                return None;
            },
        }
    }
    proof {
        assert(digits@.subrange(0, len as int) =~= digits@);
    }
    Some(acc)
}

/// Strike every backslash out of the given span of the input.
fn strip_backslashes(input: &str, from: usize, to: usize) -> (r: String)
    requires
        from <= to <= input@.len(),
    ensures
        r@ == input@.subrange(from as int, to as int).filter(|c: char| c != '\\'),
{
    let ghost span = input@.subrange(from as int, to as int);
    let mut out = String::new();
    let mut i: usize = from;
    proof {
        assert(span.subrange(0, 0) =~= Seq::<char>::empty());
        assert(Seq::<char>::empty().filter(|c: char| c != '\\') =~= Seq::<char>::empty());
    }
    while i < to
        invariant
            from <= i <= to,
            to <= input@.len(),
            span == input@.subrange(from as int, to as int),
            out@ == span.subrange(0, i - from).filter(|c: char| c != '\\'),
        decreases to - i,
    {
        let c = input.get_char(i);
        let ghost pre = span.subrange(0, i - from);
        let ghost cur = span.subrange(0, i + 1 - from);
        proof {
            assert(cur.drop_last() =~= pre);
            assert(cur.last() == span[i - from]);
            assert(span[i - from] == input@[i as int]);
        }
        if c != '\\' {
            let piece = input.substring_char(i, i + 1);
            out.append(piece);
            proof {
                assert(piece@ =~= seq![input@[i as int]]);
                reveal(Seq::filter);
                assert(cur.filter(|c: char| c != '\\') =~= pre.filter(|c: char| c != '\\')
                    + seq![input@[i as int]]);
            }
        } else {
            proof {
                reveal(Seq::filter);
                assert(cur.filter(|c: char| c != '\\') =~= pre.filter(|c: char| c != '\\'));
            }
        }
        i += 1;
    }
    proof {
        assert(span.subrange(0, to - from) =~= span);
    }
    out
}

/// Read one table row off the front of the input.
pub fn read_record<'a>(input: &'a str) -> (r: Result<(&'a str, Code), ParseError>)
    ensures
        match r {
            Ok((rest, c)) => spec_read_record(input@) == Scan::Found(rest@, c@),
            Err(ParseError::Mismatch) => spec_read_record(input@) is Stop,
            Err(ParseError::BadField) => spec_read_record(input@) is Fault,
        },
{
    proof {
        reveal_strlit("| ");
        reveal_strlit(" | ");
        reveal_strlit("[**");
        reveal_strlit("**]");
        reveal_strlit("(");
        reveal_strlit(".md)");
        reveal_strlit("|\n");
    }
    let n = input.unicode_len();
    if !(n >= 15 && match_at(input, 0, "| ") && match_at(input, 12, " | ") && match_at(
        input,
        15,
        "[**",
    )) {
        return Err(ParseError::Mismatch);
    }
    let p = match find_sub(input, "**]", 18) {
        Some(p) => p,
        None => {
            return Err(ParseError::Mismatch);
        },
    };
    if !match_at(input, p + 3, "(") {
        return Err(ParseError::Mismatch);
    }
    let q = match find_sub(input, ".md)", p + 4) {
        Some(q) => q,
        None => {
            return Err(ParseError::Mismatch);
        },
    };
    let w = match find_sub(input, "|\n", q + 4) {
        Some(w) => w,
        None => {
            return Err(ParseError::Mismatch);
        },
    };
    let code = match parse_code_value(input) {
        Some(v) => v,
        None => {
            return Err(ParseError::BadField);
        },
    };
    let name = strip_backslashes(input, 18, p);
    let base: String =
        "https://learn.microsoft.com/en-us/windows-hardware/drivers/debugger/".to_owned();
    let url = base.concat(input.substring_char(p + 4, q));
    let rest = input.substring_char(w + 2, n);
    let c = Code { code, name, url };
    proof {
        assert(Scan::Found(rest@, c@) =~= spec_read_record(input@));
    }
    Ok((rest, c))
}

/// Read rows until one no longer matches.
fn read_records<'a>(input: &'a str) -> (r: Result<(&'a str, Vec<Code>), ParseError>)
    ensures
        match r {
            Ok((rest, cs)) => spec_records(input@) == Scan::Found(rest@, seq_view(cs@)),
            Err(ParseError::Mismatch) => spec_records(input@) is Stop,
            Err(ParseError::BadField) => spec_records(input@) is Fault,
        },
{
    let mut cs: Vec<Code> = Vec::new();
    let mut rem: &str = input;
    proof {
        assert(seq_view(cs@) =~= Seq::<CodeView>::empty());
    }
    loop
        invariant
            match spec_records(rem@) {
                Scan::Found(r2, l) => spec_records(input@) == Scan::Found(r2, seq_view(cs@) + l),
                Scan::Stop => spec_records(input@) is Stop,
                Scan::Fault => spec_records(input@) is Fault,
            },
        decreases rem@.len(),
    {
        let ghost pre = seq_view(cs@);
        match read_record(rem) {
            Ok((r2, c)) => {
                proof {
                    lemma_record_progress(rem@);
                }
                let ghost cv = c@;
                cs.push(c);
                proof {
                    assert(seq_view(cs@) =~= pre + seq![cv]);
                    assert forall|l2: Seq<CodeView>|
                        (pre + seq![cv]) + l2 =~= pre + (seq![cv] + l2) by {}
                }
                rem = r2;
            },
            Err(ParseError::BadField) => {
                return Err(ParseError::BadField);
            },
            Err(ParseError::Mismatch) => {
                proof {
                    assert(seq_view(cs@) + Seq::<CodeView>::empty() =~= seq_view(cs@));
                }
                return Ok((rem, cs));
            },
        }
    }
}

/// Read the document up to the start of the data rows.
pub fn read_header<'a>(input: &'a str) -> (r: Result<(&'a str, &'a str), ParseError>)
    ensures
        match r {
            Ok((rest, header)) => find_sub_at(input@, "| 0x000"@, 0) matches Some(i) && header@
                == input@.subrange(0, i) && rest@ == input@.subrange(i, input@.len() as int),
            Err(_) => find_sub_at(input@, "| 0x000"@, 0) is None,
        },
{
    proof {
        reveal_strlit("| 0x000");
    }
    let n = input.unicode_len();
    match find_sub(input, "| 0x000", 0) {
        Some(i) => Ok((input.substring_char(i, n), input.substring_char(0, i))),
        None => Err(ParseError::Mismatch),
    }
}

// ---------- the caches ----------

/// Index of the first entry carrying `code`.
pub open spec fn spec_first_code_idx(cs: Seq<CodeView>, code: u64) -> Option<int>
    decreases cs.len(),
{
    if cs.len() == 0 {
        None
    } else if cs[0].code == code {
        Some(0)
    } else {
        match spec_first_code_idx(cs.drop_first(), code) {
            Some(i) => Some(i + 1),
            None => None,
        }
    }
}

/// Store one parsed row: a row with a code already present replaces the
/// earlier entry, as when the rows fill a mapping in order.
pub open spec fn spec_insert_code(acc: Seq<CodeView>, c: CodeView) -> Seq<CodeView> {
    match spec_first_code_idx(acc, c.code) {
        Some(i) => acc.remove(i).push(c),
        None => acc.push(c),
    }
}

/// The mapping the parsed rows build, one entry per distinct code.
pub open spec fn spec_build_codes(rs: Seq<CodeView>) -> Seq<CodeView>
    decreases rs.len(),
{
    if rs.len() == 0 {
        Seq::empty()
    } else {
        spec_insert_code(spec_build_codes(rs.drop_last()), rs.last())
    }
}

/// The stored entry carrying `code`, if any.
pub open spec fn spec_get_code(cs: Seq<CodeView>, code: u64) -> Option<CodeView> {
    match spec_first_code_idx(cs, code) {
        Some(i) => if 0 <= i < cs.len() {
            Some(cs[i])
        } else {
            None
        },
        None => None,
    }
}

fn first_code_idx(cs: &Vec<Code>, code: u64) -> (r: Option<usize>)
    ensures
        match r {
            Some(i) => i < cs@.len() && spec_first_code_idx(seq_view(cs@), code) == Some(i as int),
            None => spec_first_code_idx(seq_view(cs@), code) is None,
        },
{
    let len = cs.len();
    let mut i: usize = 0;
    proof {
        assert(seq_view(cs@).skip(0) =~= seq_view(cs@));
    }
    while i < len
        invariant
            0 <= i <= len,
            len == cs@.len(),
            match spec_first_code_idx(seq_view(cs@), code) {
                Some(k) => spec_first_code_idx(seq_view(cs@).skip(i as int), code) matches Some(k2)
                    && k == k2 + i,
                None => spec_first_code_idx(seq_view(cs@).skip(i as int), code) is None,
            },
            forall|k: int| 0 <= k < i ==> seq_view(cs@)[k].code != code,
        decreases len - i,
    {
        proof {
            let s = seq_view(cs@).skip(i as int);
            assert(s[0] == cs@[i as int]@);
            assert(s.drop_first() =~= seq_view(cs@).skip(i + 1));
        }
        if cs[i].code == code {
            return Some(i);
        }
        i += 1;
    }
    proof {
        assert(seq_view(cs@).skip(len as int) =~= Seq::<CodeView>::empty());
    }
    None
}

/// Hold the invariant and exactness proof for the shared storage of both
/// caches: a vector of codes filled row by row, later rows replacing
/// earlier ones with the same code.
fn build_code_vec(rows: Vec<Code>) -> (r: Vec<Code>)
    ensures
        seq_view(r@) == spec_build_codes(seq_view(rows@)),
{
    let mut out: Vec<Code> = Vec::new();
    let len = rows.len();
    proof {
        assert(seq_view(rows@).subrange(0, 0) =~= Seq::<CodeView>::empty());
        assert(seq_view(out@) =~= Seq::<CodeView>::empty());
        assert(spec_build_codes(Seq::<CodeView>::empty()) == Seq::<CodeView>::empty());
    }
    let rest = rows;
    let mut idx: usize = 0;
    while idx < len
        invariant
            0 <= idx <= len,
            len == rest@.len(),
            seq_view(out@) == spec_build_codes(seq_view(rest@).subrange(0, idx as int)),
        decreases len - idx,
    {
        let ghost pre_take = seq_view(rest@).subrange(0, idx as int);
        let ghost cur_take = seq_view(rest@).subrange(0, idx + 1);
        let c = clone_code(&rest[idx]);
        let ghost cv = c@;
        proof {
            assert(cur_take.drop_last() =~= pre_take);
            assert(cur_take.last() == seq_view(rest@)[idx as int]);
            assert(cur_take.last() == cv);
        }
        match first_code_idx(&out, c.code) {
            Some(k) => {
                let ghost pre_out = seq_view(out@);
                out.remove(k);
                let ghost mid_out = seq_view(out@);
                out.push(c);
                proof {
                    assert(mid_out =~= pre_out.remove(k as int));
                    assert(seq_view(out@) =~= pre_out.remove(k as int).push(cv));
                    assert(seq_view(out@) =~= spec_insert_code(pre_out, cv));
                    assert(seq_view(out@) == spec_build_codes(cur_take));
                }
            },
            None => {
                let ghost pre_out = seq_view(out@);
                out.push(c);
                proof {
                    assert(seq_view(out@) =~= pre_out.push(cv));
                    assert(seq_view(out@) =~= spec_insert_code(pre_out, cv));
                    assert(seq_view(out@) == spec_build_codes(cur_take));
                }
            },
        }
        idx += 1;
    }
    proof {
        assert(seq_view(rest@).subrange(0, len as int) =~= seq_view(rest@));
    }
    out
}

fn clone_code(c: &Code) -> (r: Code)
    ensures
        r@ == c@,
{
    let r = Code { code: c.code, name: c.name.clone(), url: c.url.clone() };
    proof {
        assert(r@ =~= c@);
    }
    r
}

/// Owns the parsed bugcheck table and answers code queries against it.
pub struct CodeCache {
    codes: Vec<Code>,
}

impl View for CodeCache {
    type V = Seq<CodeView>;

    closed spec fn view(&self) -> Seq<CodeView> {
        seq_view(self.codes@)
    }
}

impl CodeCache {
    /// Parse the document and keep one entry per distinct code, later rows
    /// replacing earlier ones. Fails only when the text fails to parse: no
    /// `| 0x000` marker, or a row whose code literal is not hexadecimal.
    pub fn new(input: &str) -> (r: Result<CodeCache, DbError>)
        ensures
            match r {
                Ok(c) => spec_parse_codes(input@) matches Ok(rows) && c@ == spec_build_codes(rows),
                Err(e) => spec_parse_codes(input@) == Err::<Seq<CodeView>, _>(e),
            },
    {
        proof {
            reveal_strlit("| 0x000");
        }
        let n = input.unicode_len();
        let start = match find_sub(input, "| 0x000", 0) {
            Some(i) => i,
            None => {
                return Err(DbError::NoStart);
            },
        };
        let table = input.substring_char(start, n);
        match read_records(table) {
            Ok((_rest, rows)) => Ok(CodeCache { codes: build_code_vec(rows) }),
            Err(_) => Err(DbError::BadField),
        }
    }

    /// Fetch the name and documentation URL stored for a code, if any.
    pub fn get(&self, code: u64) -> (r: Option<(String, String)>)
        ensures
            match r {
                Some(nu) => spec_get_code(self@, code) matches Some(c) && nu.0@ == c.name && nu.1@
                    == c.url,
                None => spec_get_code(self@, code) is None,
            },
    {
        match first_code_idx(&self.codes, code) {
            Some(i) => {
                let c = clone_code(&self.codes[i]);
                Some((c.name, c.url))
            },
            None => None,
        }
    }

    /// Every stored pair, as `(code, name, url)` rows in storage order.
    pub fn iter(&self) -> (r: Vec<(u64, String, String)>)
        ensures
            r@.len() == self@.len(),
            forall|i: int|
                0 <= i < r@.len() ==> #[trigger] r@[i].0 == self@[i].code && r@[i].1@
                    == self@[i].name && r@[i].2@ == self@[i].url,
    {
        let mut out: Vec<(u64, String, String)> = Vec::new();
        let len = self.codes.len();
        let mut i: usize = 0;
        while i < len
            invariant
                0 <= i <= len,
                len == self.codes@.len(),
                self@ == seq_view(self.codes@),
                out@.len() == i,
                forall|k: int|
                    0 <= k < i ==> #[trigger] out@[k].0 == self@[k].code && out@[k].1@
                        == self@[k].name && out@[k].2@ == self@[k].url,
            decreases len - i,
        {
            let c = clone_code(&self.codes[i]);
            out.push((c.code, c.name, c.url));
            i += 1;
        }
        out
    }
}

/// The production lookup cache for bugcheck codes; it parses the same
/// table and serves the same mapping as [`CodeCache`].
pub struct BugCheckCache {
    codes: Vec<Code>,
}

impl View for BugCheckCache {
    type V = Seq<CodeView>;

    closed spec fn view(&self) -> Seq<CodeView> {
        seq_view(self.codes@)
    }
}

impl BugCheckCache {
    /// Construct the cache from the bugcheck reference document.
    pub fn new(input: &str) -> (r: Result<BugCheckCache, DbError>)
        ensures
            match r {
                Ok(c) => spec_parse_codes(input@) matches Ok(rows) && c@ == spec_build_codes(rows),
                Err(e) => spec_parse_codes(input@) == Err::<Seq<CodeView>, _>(e),
            },
    {
        match CodeCache::new(input) {
            Ok(c) => Ok(BugCheckCache { codes: c.codes }),
            Err(e) => Err(e),
        }
    }

    /// Fetch the name and documentation URL stored for a code, if any.
    pub fn get(&self, code: u64) -> (r: Option<(String, String)>)
        ensures
            match r {
                Some(nu) => spec_get_code(self@, code) matches Some(c) && nu.0@ == c.name && nu.1@
                    == c.url,
                None => spec_get_code(self@, code) is None,
            },
    {
        match first_code_idx(&self.codes, code) {
            Some(i) => {
                let c = clone_code(&self.codes[i]);
                Some((c.name, c.url))
            },
            None => None,
        }
    }
}

} // verus!
