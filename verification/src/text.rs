//! Verified text-scanning primitives shared by the database and identifier
//! parsers: character classes, hex-field decoding, literal matching,
//! substring search and splitting.

use vstd::prelude::*;

verus! {

// ---------- shared parse outcomes ----------

/// Views of the elements of a sequence.
pub open spec fn seq_view<T: View>(s: Seq<T>) -> Seq<T::V> {
    Seq::new(s.len(), |i: int| s[i]@)
}

/// View of an optional value.
pub open spec fn opt_view<T: View>(o: Option<T>) -> Option<T::V> {
    match o {
        Some(x) => Some(x@),
        None => None,
    }
}

/// Outcome of one grammar rule applied to input text: a value together with
/// the text left over, a mismatch that ends the enclosing repetition, or a
/// malformed required field that poisons the whole parse.
#[verifier::ext_equal]
pub ghost enum Scan<T> {
    Found(Seq<char>, T),
    Stop,
    Fault,
}

/// Exec-side counterpart of [`Scan`]'s failure outcomes.
#[derive(Debug, PartialEq, Eq, Structural, Clone, Copy)]
pub enum ParseError {
    /// The text does not match the rule; the enclosing repetition stops here.
    Mismatch,
    /// A required field (a hexadecimal id) is malformed; the parse is poisoned.
    BadField,
}

/// Failure to parse a whole database.
#[derive(Debug, PartialEq, Eq, Structural, Clone, Copy)]
pub enum DbError {
    /// The marker opening the data section never occurs.
    NoStart,
    /// A required field in a record is malformed.
    BadField,
}

// ---------- character classes ----------

/// ASCII decimal digit.
pub open spec fn is_digit_char(c: char) -> bool {
    48 <= c as u32 && c as u32 <= 57
}

/// ASCII hexadecimal digit (either case).
pub open spec fn is_hex_char(c: char) -> bool {
    (48 <= c as u32 && c as u32 <= 57) || (97 <= c as u32 && c as u32 <= 102) || (65 <= c as u32
        && c as u32 <= 70)
}

/// Numeric value of one hexadecimal digit.
pub open spec fn hex_char_val(c: char) -> int {
    if 48 <= c as u32 && c as u32 <= 57 {
        c as u32 - 48
    } else if 97 <= c as u32 && c as u32 <= 102 {
        c as u32 - 87
    } else {
        c as u32 - 55
    }
}

/// Four hexadecimal digits.
pub open spec fn is_hex4(s: Seq<char>) -> bool {
    s.len() == 4 && is_hex_char(s[0]) && is_hex_char(s[1]) && is_hex_char(s[2]) && is_hex_char(
        s[3],
    )
}

/// Value of a four-digit hexadecimal field; fits in 16 bits.
pub open spec fn hex4_val(s: Seq<char>) -> int {
    hex_char_val(s[0]) * 4096 + hex_char_val(s[1]) * 256 + hex_char_val(s[2]) * 16 + hex_char_val(
        s[3],
    )
}

/// Decode one hexadecimal digit, or report that the character is not one.
pub fn hex_digit_value(c: char) -> (r: Option<u8>)
    ensures
        match r {
            Some(v) => is_hex_char(c) && v == hex_char_val(c) && v <= 15,
            None => !is_hex_char(c),
        },
{
    let u = c as u32;
    if 48 <= u && u <= 57 {
        Some((u - 48) as u8)
    } else if 97 <= u && u <= 102 {
        Some((u - 87) as u8)
    } else if 65 <= u && u <= 70 {
        Some((u - 55) as u8)
    } else {
        None
    }
}

/// Decode the four-digit hexadecimal field starting at `at`, or report that
/// some of those characters are not hexadecimal digits.
pub fn parse_hex4(s: &str, at: usize) -> (r: Option<u16>)
    requires
        at + 4 <= s@.len(),
    ensures
        match r {
            Some(v) => is_hex4(s@.subrange(at as int, at + 4)) && v == hex4_val(
                s@.subrange(at as int, at + 4),
            ),
            None => !is_hex4(s@.subrange(at as int, at + 4)),
        },
{
    let n = s.unicode_len();
    proof {
        assert(at + 4 <= n);
    }
    let c0 = s.get_char(at);
    let c1 = s.get_char(at + 1);
    let c2 = s.get_char(at + 2);
    let c3 = s.get_char(at + 3);
    proof {
        assert(s@.subrange(at as int, at + 4)[0] == s@[at as int]);
        assert(s@.subrange(at as int, at + 4)[1] == s@[at + 1]);
        assert(s@.subrange(at as int, at + 4)[2] == s@[at + 2]);
        assert(s@.subrange(at as int, at + 4)[3] == s@[at + 3]);
    }
    match (hex_digit_value(c0), hex_digit_value(c1), hex_digit_value(c2), hex_digit_value(c3)) {
        (Some(v0), Some(v1), Some(v2), Some(v3)) => Some(
            (v0 as u16) * 4096 + (v1 as u16) * 256 + (v2 as u16) * 16 + (v3 as u16),
        ),
        _ => None,
    }
}

// ---------- literal matching ----------

/// The pattern occurs in `s` at position `i`.
pub open spec fn match_at_spec(s: Seq<char>, pat: Seq<char>, i: int) -> bool {
    0 <= i && i + pat.len() <= s.len() && s.subrange(i, i + pat.len()) == pat
}

/// Does `pat` occur in `s` at position `i`?
pub fn match_at(s: &str, i: usize, pat: &str) -> (b: bool)
    ensures
        b == match_at_spec(s@, pat@, i as int),
{
    let n = s.unicode_len();
    let m = pat.unicode_len();
    if i > n || m > n - i {
        return false;
    }
    let mut j: usize = 0;
    while j < m
        invariant
            0 <= j <= m,
            i + m <= n,
            n == s@.len(),
            m == pat@.len(),
            forall|k: int| 0 <= k < j ==> s@[i + k] == pat@[k],
        decreases m - j,
    {
        if s.get_char(i + j) != pat.get_char(j) {
            return false;
        }
        j += 1;
    }
    proof {
        assert(s@.subrange(i as int, i + m) =~= pat@);
    }
    true
}

// ---------- substring search ----------

/// Position of the first occurrence of `pat` in `s` at or after `from`.
pub open spec fn find_sub_at(s: Seq<char>, pat: Seq<char>, from: int) -> Option<int>
    decreases s.len() - from,
{
    if from < 0 || from + pat.len() > s.len() {
        None
    } else if pat.len() == 0 {
        Some(from)
    } else if s.subrange(from, from + pat.len()) == pat {
        Some(from)
    } else {
        find_sub_at(s, pat, from + 1)
    }
}

/// What a `find_sub_at` answer means: a found position is the first match at
/// or after `from`; `None` means no position matches.
pub proof fn lemma_find_sub_at(s: Seq<char>, pat: Seq<char>, from: int)
    requires
        0 <= from,
    ensures
        match find_sub_at(s, pat, from) {
            Some(i) => from <= i && match_at_spec(s, pat, i) && (forall|j: int|
                from <= j < i ==> !match_at_spec(s, pat, j)),
            None => forall|j: int| from <= j ==> !match_at_spec(s, pat, j),
        },
    decreases s.len() - from,
{
    if from + pat.len() > s.len() {
    } else if pat.len() == 0 {
        assert(s.subrange(from, from + pat.len()) =~= pat);
    } else if s.subrange(from, from + pat.len()) == pat {
    } else {
        lemma_find_sub_at(s, pat, from + 1);
    }
}

/// `pat` occurs somewhere in `s`.
pub open spec fn contains_sub(s: Seq<char>, pat: Seq<char>) -> bool {
    find_sub_at(s, pat, 0) is Some
}

/// Find the first occurrence of `pat` in `s` at or after `from`.
pub fn find_sub(s: &str, pat: &str, from: usize) -> (r: Option<usize>)
    ensures
        match r {
            Some(i) => find_sub_at(s@, pat@, from as int) == Some(i as int) && from <= i && i
                + pat@.len() <= s@.len(),
            None => find_sub_at(s@, pat@, from as int) is None,
        },
{
    let n = s.unicode_len();
    let m = pat.unicode_len();
    if from > n || m > n - from {
        return None;
    }
    if m == 0 {
        return Some(from);
    }
    let mut i: usize = from;
    loop
        invariant
            from <= i,
            1 <= m,
            i + m <= n,
            n == s@.len(),
            m == pat@.len(),
            find_sub_at(s@, pat@, from as int) == find_sub_at(s@, pat@, i as int),
        decreases n - i,
    {
        if match_at(s, i, pat) {
            return Some(i);
        }
        proof {
            assert(find_sub_at(s@, pat@, i as int) == find_sub_at(s@, pat@, i + 1));
        }
        if i + m == n {
            proof {
                assert(find_sub_at(s@, pat@, i + 1) is None);
            }
            return None;
        }
        i += 1;
    }
}

/// Does `pat` occur anywhere in `s`?
pub fn contains(s: &str, pat: &str) -> (b: bool)
    ensures
        b == contains_sub(s@, pat@),
{
    find_sub(s, pat, 0).is_some()
}

// ---------- splitting ----------

/// The pieces of `s.subrange(from, ..)` delimited by `pat`, in order, each
/// piece not containing the delimiter; mirrors how `str::split` treats
/// adjacent and trailing delimiters.
pub open spec fn split_from(s: Seq<char>, pat: Seq<char>, from: int) -> Seq<Seq<char>>
    recommends
        pat.len() >= 1,
        0 <= from <= s.len(),
    decreases s.len() - from,
    when 0 <= from <= s.len() && pat.len() >= 1
{
    match find_sub_at(s, pat, from) {
        Some(i) => {
            if from <= i && i + pat.len() <= s.len() {
                seq![s.subrange(from, i)] + split_from(s, pat, i + pat.len())
            } else {
                seq![s.subrange(from, s.len() as int)]
            }
        },
        None => seq![s.subrange(from, s.len() as int)],
    }
}

/// All pieces of `s` delimited by `pat`.
pub open spec fn split_by(s: Seq<char>, pat: Seq<char>) -> Seq<Seq<char>> {
    split_from(s, pat, 0)
}

/// Split `s` on every occurrence of `pat`.
pub fn split_str(s: &str, pat: &str) -> (r: Vec<String>)
    requires
        pat@.len() >= 1,
    ensures
        r@.len() == split_by(s@, pat@).len(),
        forall|k: int| 0 <= k < r@.len() ==> r@[k]@ == split_by(s@, pat@)[k],
{
    let n = s.unicode_len();
    let mut out: Vec<String> = Vec::new();
    let mut start: usize = 0;
    loop
        invariant
            start <= n,
            n == s@.len(),
            pat@.len() >= 1,
            split_by(s@, pat@) == out@.map_values(|t: String| t@) + split_from(
                s@,
                pat@,
                start as int,
            ),
        decreases n - start,
    {
        let ghost pre = out@.map_values(|t: String| t@);
        match find_sub(s, pat, start) {
            Some(i) => {
                proof {
                    lemma_find_sub_at(s@, pat@, start as int);
                }
                let piece = s.substring_char(start, i).to_owned();
                out.push(piece);
                let m = pat.unicode_len();
                proof {
                    assert(out@.map_values(|t: String| t@) =~= pre + seq![
                        s@.subrange(start as int, i as int),
                    ]);
                }
                start = i + m;
            },
            None => {
                let piece = s.substring_char(start, n).to_owned();
                out.push(piece);
                proof {
                    assert(out@.map_values(|t: String| t@) =~= pre + seq![
                        s@.subrange(start as int, n as int),
                    ]);
                }
                return out;
            },
        }
    }
}

/// Each piece of a split is no longer than the text split.
pub proof fn lemma_split_piece_len(s: Seq<char>, pat: Seq<char>, from: int)
    requires
        pat.len() >= 1,
        0 <= from <= s.len(),
    ensures
        forall|k: int|
            0 <= k < split_from(s, pat, from).len() ==> (#[trigger] split_from(s, pat, from)[k]).len()
                <= s.len() - from,
    decreases s.len() - from,
{
    lemma_find_sub_at(s, pat, from);
    match find_sub_at(s, pat, from) {
        Some(i) => {
            if from <= i && i + pat.len() <= s.len() {
                lemma_split_piece_len(s, pat, i + pat.len());
                let pieces = split_from(s, pat, from);
                let tail = split_from(s, pat, i + pat.len());
                assert forall|k: int|
                    0 <= k < pieces.len() implies (#[trigger] pieces[k]).len() <= s.len()
                    - from by {
                    if k > 0 {
                        assert(pieces[k] == tail[k - 1]);
                    }
                }
            }
        },
        None => {},
    }
}

/// A split has at most one more piece than the text has characters.
pub proof fn lemma_split_count(s: Seq<char>, pat: Seq<char>, from: int)
    requires
        pat.len() >= 1,
        0 <= from <= s.len(),
    ensures
        split_from(s, pat, from).len() <= s.len() - from + 1,
    decreases s.len() - from,
{
    lemma_find_sub_at(s, pat, from);
    match find_sub_at(s, pat, from) {
        Some(i) => {
            if from <= i && i + pat.len() <= s.len() {
                lemma_split_count(s, pat, i + pat.len());
            }
        },
        None => {},
    }
}

// ---------- string equality ----------

/// Character-for-character string equality.
pub fn str_eq(a: &str, b: &str) -> (r: bool)
    ensures
        r == (a@ == b@),
{
    let n = a.unicode_len();
    if n != b.unicode_len() {
        proof {
            assert(a@ != b@);
        }
        return false;
    }
    let mut j: usize = 0;
    while j < n
        invariant
            0 <= j <= n,
            n == a@.len(),
            n == b@.len(),
            forall|k: int| 0 <= k < j ==> a@[k] == b@[k],
        decreases n - j,
    {
        if a.get_char(j) != b.get_char(j) {
            return false;
        }
        j += 1;
    }
    proof {
        assert(a@ =~= b@);
    }
    true
}

} // verus!
