//! CPU catalog entries and the identity resolver.
//!
//! A catalog entry pairs a canonical CPU name with the spec-sheet attributes
//! recorded for it. The resolver owns one Intel and one AMD catalog, builds
//! a derived index over their model tokens at construction, and maps a
//! free-form CPU name to the best-fitting catalog entry.

use crate::text::{
    contains, contains_sub, find_sub, find_sub_at, is_digit_char, lemma_split_count,
    lemma_split_piece_len, match_at, match_at_spec, seq_view, split_by, split_str, str_eq,
};
use vstd::prelude::*;

verus! {

// ---------- data model ----------

/// One catalog entry: a canonical name and its spec-sheet attributes.
/// Attribute keys are unique; inserting an existing key replaces its value.
#[derive(Debug, PartialEq)]
pub struct Cpu {
    pub name: String,
    pub attributes: Vec<(String, String)>,
}

#[verifier::ext_equal]
pub ghost struct CpuView {
    pub name: Seq<char>,
    pub attributes: Seq<(Seq<char>, Seq<char>)>,
}

impl View for Cpu {
    type V = CpuView;

    open spec fn view(&self) -> CpuView {
        CpuView { name: self.name@, attributes: seq_view(self.attributes@) }
    }
}

// ---------- attribute maps ----------

/// Index of the first pair whose key is `k`.
pub open spec fn spec_first_key_idx(ps: Seq<(Seq<char>, Seq<char>)>, k: Seq<char>) -> Option<int>
    decreases ps.len(),
{
    if ps.len() == 0 {
        None
    } else if ps[0].0 == k {
        Some(0)
    } else {
        match spec_first_key_idx(ps.drop_first(), k) {
            Some(i) => Some(i + 1),
            None => None,
        }
    }
}

/// Insert a pair as a mapping would: an existing key is replaced.
pub open spec fn spec_insert_pair(
    ps: Seq<(Seq<char>, Seq<char>)>,
    k: Seq<char>,
    v: Seq<char>,
) -> Seq<(Seq<char>, Seq<char>)> {
    match spec_first_key_idx(ps, k) {
        Some(i) => ps.remove(i).push((k, v)),
        None => ps.push((k, v)),
    }
}

fn first_key_idx(ps: &Vec<(String, String)>, k: &str) -> (r: Option<usize>)
    ensures
        match r {
            Some(i) => i < ps@.len() && spec_first_key_idx(seq_view(ps@), k@) == Some(i as int),
            None => spec_first_key_idx(seq_view(ps@), k@) is None,
        },
{
    let len = ps.len();
    let mut i: usize = 0;
    proof {
        assert(seq_view(ps@).skip(0) =~= seq_view(ps@));
    }
    while i < len
        invariant
            0 <= i <= len,
            len == ps@.len(),
            match spec_first_key_idx(seq_view(ps@), k@) {
                Some(j) => spec_first_key_idx(seq_view(ps@).skip(i as int), k@) matches Some(j2)
                    && j == j2 + i,
                None => spec_first_key_idx(seq_view(ps@).skip(i as int), k@) is None,
            },
        decreases len - i,
    {
        proof {
            let s = seq_view(ps@).skip(i as int);
            assert(s[0] == ps@[i as int]@);
            assert(s.drop_first() =~= seq_view(ps@).skip(i + 1));
        }
        if str_eq(ps[i].0.as_str(), k) {
            return Some(i);
        }
        i += 1;
    }
    proof {
        assert(seq_view(ps@).skip(len as int) =~= Seq::<(Seq<char>, Seq<char>)>::empty());
    }
    None
}

/// Insert an attribute into a pair list, replacing the value of an existing
/// key.
pub fn insert_attribute(ps: &mut Vec<(String, String)>, k: String, v: String)
    ensures
        seq_view(final(ps)@) == spec_insert_pair(seq_view(old(ps)@), k@, v@),
{
    let ghost pre = seq_view(ps@);
    let ghost kv = k@;
    let ghost vv = v@;
    match first_key_idx(ps, k.as_str()) {
        Some(i) => {
            ps.remove(i);
            let ghost mid = seq_view(ps@);
            ps.push((k, v));
            proof {
                assert(mid =~= pre.remove(i as int));
                assert(seq_view(ps@) =~= pre.remove(i as int).push((kv, vv)));
            }
        },
        None => {
            ps.push((k, v));
            proof {
                assert(seq_view(ps@) =~= pre.push((kv, vv)));
            }
        },
    }
}

/// Deep copy of one catalog entry.
pub fn clone_cpu(c: &Cpu) -> (r: Cpu)
    ensures
        r@ == c@,
{
    let mut attrs: Vec<(String, String)> = Vec::new();
    let len = c.attributes.len();
    let mut i: usize = 0;
    while i < len
        invariant
            0 <= i <= len,
            len == c.attributes@.len(),
            attrs@.len() == i,
            forall|j: int| 0 <= j < i ==> attrs@[j]@ == c.attributes@[j]@,
        decreases len - i,
    {
        let pair = &c.attributes[i];
        attrs.push((pair.0.clone(), pair.1.clone()));
        i += 1;
    }
    let r = Cpu { name: c.name.clone(), attributes: attrs };
    proof {
        assert(seq_view(attrs@) =~= seq_view(c.attributes@));
        assert(r@ =~= c@);
    }
    r
}

// ---------- model-token scoring ----------

/// What one character contributes to a token's model score: digits speak
/// for a model number, dots and parentheses against one.
pub open spec fn spec_char_score(c: char) -> int {
    (if is_digit_char(c) {
        2int
    } else {
        0int
    }) + (if c == '.' || c == '(' || c == ')' {
        -4int
    } else {
        0int
    })
}

/// The score of a whole token.
pub open spec fn spec_model_score(s: Seq<char>) -> int
    decreases s.len(),
{
    if s.len() == 0 {
        0
    } else {
        spec_model_score(s.drop_last()) + spec_char_score(s.last())
    }
}

/// How likely the token is to be the model number of a CPU: two points for
/// every decimal digit, minus four for every dot or parenthesis.
pub fn calculate_model_score(token: &str) -> (r: isize)
    requires
        token@.len() <= 0x1000_0000,
    ensures
        r == spec_model_score(token@),
{
    let n = token.unicode_len();
    let mut score: isize = 0;
    let mut i: usize = 0;
    proof {
        assert(token@.subrange(0, 0) =~= Seq::<char>::empty());
    }
    while i < n
        invariant
            0 <= i <= n,
            n == token@.len(),
            n <= 0x1000_0000,
            score == spec_model_score(token@.subrange(0, i as int)),
            -4 * i <= score <= 2 * i,
        decreases n - i,
    {
        let c = token.get_char(i);
        proof {
            let pre = token@.subrange(0, i as int);
            let cur = token@.subrange(0, i + 1);
            assert(cur.drop_last() =~= pre);
            assert(cur.last() == token@[i as int]);
        }
        let u = c as u32;
        if 48 <= u && u <= 57 {
            score += 2;
        }
        if c == '.' || c == '(' || c == ')' {
            score -= 4;
        }
        i += 1;
    }
    proof {
        assert(token@.subrange(0, n as int) =~= token@);
    }
    score
}

// ---------- model-token extraction ----------

/// The token the scoring loop settles on: the first token whose score
/// strictly beats every earlier one, starting from an empty best at a
/// threshold of minus ten.
pub open spec fn spec_best_from(toks: Seq<Seq<char>>, i: int, best: Seq<char>, high: int) -> Seq<
    char,
>
    decreases toks.len() - i,
{
    if i < 0 || i >= toks.len() {
        best
    } else {
        let sc = spec_model_score(toks[i]);
        if sc > high {
            spec_best_from(toks, i + 1, toks[i], sc)
        } else {
            spec_best_from(toks, i + 1, best, high)
        }
    }
}

/// The best-scoring token of a tokenized name.
pub open spec fn spec_best_token(toks: Seq<Seq<char>>) -> Seq<char> {
    spec_best_from(toks, 0, Seq::empty(), -10)
}

/// The first two-character token starting with `i`, if any.
pub open spec fn spec_first_i_tag(toks: Seq<Seq<char>>, i: int) -> Option<Seq<char>>
    decreases toks.len() - i,
{
    if i < 0 || i >= toks.len() {
        None
    } else if toks[i].len() == 2 && toks[i][0] == 'i' {
        Some(toks[i])
    } else {
        spec_first_i_tag(toks, i + 1)
    }
}

/// The model token of a free-form CPU name: the best-scoring token, with
/// three corrective rewrites for vendor formats that split or drop the
/// family marker. A name that mentions Intel and yields a bare `14`-series
/// number gets its `i`-tag glued back on; an AMD name mentioning PRO gets
/// `PRO ` prefixed; an Intel mobile name with ` M ` and a bare three-digit
/// number is rewritten as `<i-tag>-<number>M`.
pub open spec fn spec_find_model(input: Seq<char>) -> Seq<char> {
    let toks = split_by(input, " "@);
    let best = spec_best_token(toks);
    if contains_sub(input, "Intel"@) && match_at_spec(best, "14"@, 0) && spec_first_i_tag(toks, 0)
        is Some {
        spec_first_i_tag(toks, 0).unwrap() + "-"@ + best
    } else if contains_sub(input, "AMD"@) && contains_sub(input, "PRO"@) {
        "PRO "@ + best
    } else if contains_sub(input, "Intel"@) && contains_sub(input, " M "@) && best.len() == 3
        && spec_first_i_tag(toks, 0) is Some {
        spec_first_i_tag(toks, 0).unwrap() + "-"@ + best + "M"@
    } else {
        best
    }
}

fn first_i_tag(toks: &Vec<String>) -> (r: Option<String>)
    ensures
        match r {
            Some(t) => spec_first_i_tag(seq_view(toks@), 0) == Some(t@),
            None => spec_first_i_tag(seq_view(toks@), 0) is None,
        },
{
    let len = toks.len();
    let mut i: usize = 0;
    while i < len
        invariant
            0 <= i <= len,
            len == toks@.len(),
            spec_first_i_tag(seq_view(toks@), 0) == spec_first_i_tag(seq_view(toks@), i as int),
        decreases len - i,
    {
        let t = &toks[i];
        if t.unicode_len() == 2 && t.as_str().get_char(0) == 'i' {
            return Some(t.clone());
        }
        i += 1;
    }
    None
}

/// Extract the model token from a free-form CPU name.
pub fn find_model(input: &str) -> (r: String)
    requires
        input@.len() <= 0x1000_0000,
    ensures
        r@ == spec_find_model(input@),
{
    proof {
        reveal_strlit(" ");
        lemma_split_piece_len(input@, " "@, 0);
    }
    let toks = split_str(input, " ");
    let ghost toksv = seq_view(toks@);
    proof {
        assert(toksv =~= split_by(input@, " "@));
    }
    let mut best: String = String::new();
    let mut high: isize = -10;
    let len = toks.len();
    let mut i: usize = 0;
    while i < len
        invariant
            0 <= i <= len,
            len == toks@.len(),
            toksv == seq_view(toks@),
            toksv == split_by(input@, " "@),
            input@.len() <= 0x1000_0000,
            forall|k: int| 0 <= k < toksv.len() ==> (#[trigger] toksv[k]).len() <= input@.len(),
            spec_best_token(toksv) == spec_best_from(toksv, i as int, best@, high as int),
            -0x4000_0001 < high < 0x2000_0001,
        decreases len - i,
    {
        let t = &toks[i];
        let sc = calculate_model_score(t.as_str());
        proof {
            assert(toksv[i as int] == toks@[i as int]@);
            assert(-4 * t@.len() <= spec_model_score(t@) <= 2 * t@.len()) by {
                lemma_model_score_bounds(t@);
            }
        }
        if sc > high {
            best = t.clone();
            high = sc;
        }
        i += 1;
    }
    let intel = contains(input, "Intel");
    let amd = contains(input, "AMD");
    if intel && match_at(best.as_str(), 0, "14") {
        match first_i_tag(&toks) {
            Some(t) => {
                let mut out = t;
                out.append("-");
                out.append(best.as_str());
                return out;
            },
            None => {},
        }
    }
    if amd && contains(input, "PRO") {
        let mut out: String = "PRO ".to_owned();
        out.append(best.as_str());
        return out;
    }
    if intel && contains(input, " M ") && best.unicode_len() == 3 {
        match first_i_tag(&toks) {
            Some(t) => {
                let mut out = t;
                out.append("-");
                out.append(best.as_str());
                out.append("M");
                return out;
            },
            None => {},
        }
    }
    best
}

proof fn lemma_model_score_bounds(s: Seq<char>)
    ensures
        -4 * s.len() <= spec_model_score(s) <= 2 * s.len(),
    decreases s.len(),
{
    if s.len() > 0 {
        lemma_model_score_bounds(s.drop_last());
    }
}

// ---------- the derived index ----------

/// The length of the leading run of decimal digits.
pub open spec fn spec_digit_run_len(s: Seq<char>) -> int
    decreases s.len(),
{
    if s.len() > 0 && is_digit_char(s[0]) {
        1 + spec_digit_run_len(s.drop_first())
    } else {
        0
    }
}

proof fn lemma_digit_run_le(s: Seq<char>)
    ensures
        0 <= spec_digit_run_len(s) <= s.len(),
    decreases s.len(),
{
    if s.len() > 0 && is_digit_char(s[0]) {
        lemma_digit_run_le(s.drop_first());
    }
}

/// A word of the name counts as a tag unless it is vendor or generic
/// boilerplate or the whole name itself.
pub open spec fn spec_tag_ok(t: Seq<char>, name: Seq<char>) -> bool {
    t != "Intel"@ && t != "AMD"@ && t != "Processor"@ && t != name
}

/// Add a tag to the set unless it is already there.
pub open spec fn spec_add_tag(acc: Seq<Seq<char>>, t: Seq<char>) -> Seq<Seq<char>> {
    if acc.contains(t) {
        acc
    } else {
        acc.push(t)
    }
}

/// The tag set of a tokenized name, in first-occurrence order.
pub open spec fn spec_tags_of(toks: Seq<Seq<char>>, name: Seq<char>) -> Seq<Seq<char>>
    decreases toks.len(),
{
    if toks.len() == 0 {
        Seq::empty()
    } else {
        let prev = spec_tags_of(toks.drop_last(), name);
        let t = toks.last();
        if spec_tag_ok(t, name) {
            spec_add_tag(prev, t)
        } else {
            prev
        }
    }
}

proof fn lemma_tags_len(toks: Seq<Seq<char>>, name: Seq<char>)
    ensures
        spec_tags_of(toks, name).len() <= toks.len(),
    decreases toks.len(),
{
    if toks.len() > 0 {
        lemma_tags_len(toks.drop_last(), name);
    }
}

/// The derived index entry of one catalog name: the model token is split
/// at its first dash into the `prefix` (empty when there is no dash) and
/// the remainder; the remainder's leading run of decimal digits is the
/// `model` and everything after that run the `suffix`. A token without
/// leading digits in its remainder simply yields an empty `model`; the
/// name's words other than boilerplate are the tags, and `index` points
/// back at the catalog entry.
#[verifier::ext_equal]
pub ghost struct IndexEntryView {
    pub model: Seq<char>,
    pub prefix: Seq<char>,
    pub suffix: Seq<char>,
    pub tags: Seq<Seq<char>>,
    pub index: int,
}

struct IndexEntry {
    model: String,
    prefix: String,
    suffix: String,
    tags: Vec<String>,
    index: usize,
}

impl View for IndexEntry {
    type V = IndexEntryView;

    closed spec fn view(&self) -> IndexEntryView {
        IndexEntryView {
            model: self.model@,
            prefix: self.prefix@,
            suffix: self.suffix@,
            tags: seq_view(self.tags@),
            index: self.index as int,
        }
    }
}

/// The index entry derived from one name.
pub open spec fn spec_generate_index_entry(name: Seq<char>, index: int) -> IndexEntryView {
    let token = spec_find_model(name);
    let prefix = match find_sub_at(token, "-"@, 0) {
        Some(d) => token.subrange(0, d),
        None => Seq::empty(),
    };
    let rem = match find_sub_at(token, "-"@, 0) {
        Some(d) => token.subrange(d + 1, token.len() as int),
        None => token,
    };
    let cut = spec_digit_run_len(rem);
    IndexEntryView {
        model: rem.subrange(0, cut),
        prefix,
        suffix: rem.subrange(cut, rem.len() as int),
        tags: spec_tags_of(split_by(name, " "@), name),
        index,
    }
}

/// The length of the leading digit run of the text.
fn digit_run(s: &str) -> (r: usize)
    ensures
        r == spec_digit_run_len(s@),
        r <= s@.len(),
{
    let n = s.unicode_len();
    let mut i: usize = 0;
    proof {
        assert(s@.skip(0) =~= s@);
    }
    loop
        invariant
            0 <= i <= n,
            n == s@.len(),
            spec_digit_run_len(s@) == i + spec_digit_run_len(s@.skip(i as int)),
        decreases n - i,
    {
        if i == n {
            proof {
                assert(s@.skip(i as int).len() == 0);
            }
            return i;
        }
        let c = s.get_char(i);
        let u = c as u32;
        proof {
            let t = s@.skip(i as int);
            assert(t[0] == s@[i as int]);
            assert(t.drop_first() =~= s@.skip(i + 1));
        }
        if 48 <= u && u <= 57 {
            i += 1;
        } else {
            return i;
        }
    }
}

fn vec_contains_str(v: &Vec<String>, s: &str) -> (b: bool)
    ensures
        b == seq_view(v@).contains(s@),
{
    let len = v.len();
    let mut i: usize = 0;
    while i < len
        invariant
            0 <= i <= len,
            len == v@.len(),
            forall|k: int| 0 <= k < i ==> seq_view(v@)[k] != s@,
        decreases len - i,
    {
        if str_eq(v[i].as_str(), s) {
            proof {
                assert(seq_view(v@)[i as int] == s@);
            }
            return true;
        }
        i += 1;
    }
    proof {
        assert forall|k: int| 0 <= k < seq_view(v@).len() implies seq_view(v@)[k] != s@ by {}
    }
    false
}

fn generate_index_entry(name: &str, index: usize) -> (r: IndexEntry)
    requires
        name@.len() <= 0x1000_0000,
    ensures
        r@ == spec_generate_index_entry(name@, index as int),
{
    let token = find_model(name);
    let tlen = token.unicode_len();
    proof {
        reveal_strlit("-");
    }
    let (prefix, rem) = match find_sub(token.as_str(), "-", 0) {
        Some(d) => (
            token.as_str().substring_char(0, d).to_owned(),
            token.as_str().substring_char(d + 1, tlen).to_owned(),
        ),
        None => (String::new(), token),
    };
    let rlen = rem.unicode_len();
    let cut = digit_run(rem.as_str());
    let model = rem.as_str().substring_char(0, cut).to_owned();
    let suffix = rem.as_str().substring_char(cut, rlen).to_owned();
    proof {
        reveal_strlit(" ");
    }
    let toks = split_str(name, " ");
    let ghost toksv = seq_view(toks@);
    proof {
        assert(toksv =~= split_by(name@, " "@));
        assert(toksv.subrange(0, 0) =~= Seq::<Seq<char>>::empty());
    }
    let mut tags: Vec<String> = Vec::new();
    let len = toks.len();
    let mut i: usize = 0;
    proof {
        assert(seq_view(tags@) =~= Seq::<Seq<char>>::empty());
    }
    while i < len
        invariant
            0 <= i <= len,
            len == toks@.len(),
            toksv == seq_view(toks@),
            seq_view(tags@) == spec_tags_of(toksv.subrange(0, i as int), name@),
        decreases len - i,
    {
        let t = &toks[i];
        let ghost pre_take = toksv.subrange(0, i as int);
        let ghost cur_take = toksv.subrange(0, i + 1);
        proof {
            assert(cur_take.drop_last() =~= pre_take);
            assert(cur_take.last() == toksv[i as int]);
            assert(toksv[i as int] == t@);
        }
        let keep = !str_eq(t.as_str(), "Intel") && !str_eq(t.as_str(), "AMD") && !str_eq(
            t.as_str(),
            "Processor",
        ) && !str_eq(t.as_str(), name);
        if keep {
            let ghost pre_tags = seq_view(tags@);
            if !vec_contains_str(&tags, t.as_str()) {
                tags.push(t.clone());
                proof {
                    assert(seq_view(tags@) =~= pre_tags.push(t@));
                }
            }
        }
        i += 1;
    }
    proof {
        assert(toksv.subrange(0, len as int) =~= toksv);
    }
    let r = IndexEntry { model, prefix, suffix, tags, index };
    proof {
        assert(r@ =~= spec_generate_index_entry(name@, index as int));
    }
    r
}

// ---------- the resolver ----------

/// How well a candidate index entry fits the query's: ten points off for a
/// differing prefix, ten off for a differing suffix, five on for every
/// query tag the candidate shares.
pub open spec fn spec_tag_matches(qtags: Seq<Seq<char>>, etags: Seq<Seq<char>>) -> int
    decreases qtags.len(),
{
    if qtags.len() == 0 {
        0
    } else {
        spec_tag_matches(qtags.drop_last(), etags) + (if etags.contains(qtags.last()) {
            1int
        } else {
            0int
        })
    }
}

/// The score of one candidate entry against the query entry.
pub open spec fn spec_entry_score(q: IndexEntryView, e: IndexEntryView) -> int {
    (if q.prefix != e.prefix {
        -10int
    } else {
        0int
    }) + (if q.suffix != e.suffix {
        -10int
    } else {
        0int
    }) + 5 * spec_tag_matches(q.tags, e.tags)
}

/// The catalog position whose derived entry shares the query's model and
/// scores strictly highest, ties keeping the earliest; the fold starts
/// from no candidate at a threshold of minus one hundred.
pub open spec fn spec_best_entry(
    cpus: Seq<CpuView>,
    q: IndexEntryView,
    i: int,
    best_score: int,
    best: Option<int>,
) -> Option<int>
    decreases cpus.len() - i,
{
    if i < 0 || i >= cpus.len() {
        best
    } else {
        let e = spec_generate_index_entry(cpus[i].name, i);
        if e.model == q.model {
            let sc = spec_entry_score(q, e);
            if sc > best_score {
                spec_best_entry(cpus, q, i + 1, sc, Some(i))
            } else {
                spec_best_entry(cpus, q, i + 1, best_score, best)
            }
        } else {
            spec_best_entry(cpus, q, i + 1, best_score, best)
        }
    }
}

/// What `find` resolves a query to: the catalog is AMD when the query
/// mentions AMD and Intel otherwise; the query's own index entry is
/// derived exactly as a catalog entry's would be, and the best-fitting
/// entry with the same model token is returned, or nothing when no entry
/// shares it.
pub open spec fn spec_cpu_find(cache: CpuCacheView, input: Seq<char>) -> Option<CpuView> {
    let cpus = if contains_sub(input, "AMD"@) {
        cache.amd
    } else {
        cache.intel
    };
    let q = spec_generate_index_entry(input, 0);
    match spec_best_entry(cpus, q, 0, -100, None) {
        Some(j) => if 0 <= j < cpus.len() {
            Some(cpus[j])
        } else {
            None
        },
        None => None,
    }
}

/// Resolution failed: no catalog entry shares the query's model field.
/// A query without a digit-bearing model is not an error of its own: its
/// model field is then empty and can match only entries whose model is
/// likewise empty, and a malformed query surfaces here exactly when no
/// entry matches.
#[derive(Debug, PartialEq, Eq, Structural, Clone, Copy)]
pub enum CpuFindError {
    NoCloseMatches,
}

/// Owns the Intel and AMD catalogs and a derived index over each, and
/// resolves free-form CPU names to catalog entries.
pub struct CpuCache {
    intel_cpus: Vec<Cpu>,
    intel_index: Vec<IndexEntry>,
    amd_cpus: Vec<Cpu>,
    amd_index: Vec<IndexEntry>,
}

#[verifier::ext_equal]
pub ghost struct CpuCacheView {
    pub intel: Seq<CpuView>,
    pub amd: Seq<CpuView>,
}

impl View for CpuCache {
    type V = CpuCacheView;

    closed spec fn view(&self) -> CpuCacheView {
        CpuCacheView { intel: seq_view(self.intel_cpus@), amd: seq_view(self.amd_cpus@) }
    }
}

impl CpuCache {
    /// The derived indexes mirror the catalogs entry for entry.
    pub closed spec fn wf(&self) -> bool {
        &&& self.intel_index@.len() == self.intel_cpus@.len()
        &&& forall|i: int|
            0 <= i < self.intel_index@.len() ==> (#[trigger] self.intel_index@[i])@
                == spec_generate_index_entry(self.intel_cpus@[i]@.name, i)
        &&& self.amd_index@.len() == self.amd_cpus@.len()
        &&& forall|i: int|
            0 <= i < self.amd_index@.len() ==> (#[trigger] self.amd_index@[i])@
                == spec_generate_index_entry(self.amd_cpus@[i]@.name, i)
    }

    /// Build the cache from the two catalogs, deriving an index entry for
    /// every catalog entry.
    pub fn new(intel_cpus: Vec<Cpu>, amd_cpus: Vec<Cpu>) -> (r: CpuCache)
        requires
            forall|i: int|
                0 <= i < intel_cpus@.len() ==> (#[trigger] intel_cpus@[i])@.name.len()
                    <= 0x1000_0000,
            forall|i: int|
                0 <= i < amd_cpus@.len() ==> (#[trigger] amd_cpus@[i])@.name.len() <= 0x1000_0000,
        ensures
            r@ == (CpuCacheView { intel: seq_view(intel_cpus@), amd: seq_view(amd_cpus@) }),
            r.wf(),
    {
        let intel_index = build_index(&intel_cpus);
        let amd_index = build_index(&amd_cpus);
        let r = CpuCache { intel_cpus, intel_index, amd_cpus, amd_index };
        proof {
            assert(r@ =~= (CpuCacheView {
                intel: seq_view(r.intel_cpus@),
                amd: seq_view(r.amd_cpus@),
            }));
        }
        r
    }

    /// Resolve a free-form CPU name to the best-fitting catalog entry; the
    /// result is a copy owned by the caller, and the cache is unchanged.
    /// The only error says that no catalog entry shares the query's model
    /// field; a query without a digit-bearing model folds into that same
    /// error whenever no entry's model is likewise empty.
    pub fn find(&mut self, input: &str) -> (r: Result<Cpu, CpuFindError>)
        requires
            old(self).wf(),
            input@.len() <= 0x1000_0000,
        ensures
            *final(self) == *old(self),
            match r {
                Ok(c) => spec_cpu_find(old(self)@, input@) == Some(c@),
                Err(e) => spec_cpu_find(old(self)@, input@) is None && e
                    == CpuFindError::NoCloseMatches,
            },
    {
        let amd = contains(input, "AMD");
        let q = generate_index_entry(input, 0);
        let ghost qv = q@;
        proof {
            reveal_strlit(" ");
            lemma_split_count(input@, " "@, 0);
            lemma_tags_len(split_by(input@, " "@), input@);
            assert(qv.tags.len() <= 0x1000_0002);
        }
        let index: &Vec<IndexEntry> = if amd {
            &self.amd_index
        } else {
            &self.intel_index
        };
        let cpus: &Vec<Cpu> = if amd {
            &self.amd_cpus
        } else {
            &self.intel_cpus
        };
        let ghost cpusv = seq_view(cpus@);
        let mut best_score: isize = -100;
        let mut best: Option<usize> = None;
        let len = index.len();
        let mut i: usize = 0;
        while i < len
            invariant
                0 <= i <= len,
                len == index@.len(),
                len == cpus@.len(),
                cpusv == seq_view(cpus@),
                qv == q@,
                forall|k: int|
                    0 <= k < len ==> (#[trigger] index@[k])@ == spec_generate_index_entry(
                        cpusv[k].name,
                        k,
                    ),
                qv.tags.len() <= 0x1000_0002,
                match best {
                    Some(b) => b < len && spec_best_entry(cpusv, qv, 0, -100, None)
                        == spec_best_entry(cpusv, qv, i as int, best_score as int, Some(b as int)),
                    None => spec_best_entry(cpusv, qv, 0, -100, None) == spec_best_entry(
                        cpusv,
                        qv,
                        i as int,
                        best_score as int,
                        None,
                    ),
                },
                -100 <= best_score <= 0x7000_0010,
            decreases len - i,
        {
            let e = &index[i];
            if str_eq(e.model.as_str(), q.model.as_str()) {
                let mut score: isize = 0;
                if !str_eq(q.prefix.as_str(), e.prefix.as_str()) {
                    score -= 10;
                }
                if !str_eq(q.suffix.as_str(), e.suffix.as_str()) {
                    score -= 10;
                }
                let ghost base = score as int;
                let ghost ev = index@[i as int]@;
                let qt = q.tags.len();
                let mut t: usize = 0;
                proof {
                    assert(seq_view(q.tags@).subrange(0, 0) =~= Seq::<Seq<char>>::empty());
                    assert(seq_view(e.tags@) == ev.tags);
                }
                while t < qt
                    invariant
                        0 <= t <= qt,
                        qt == q.tags@.len(),
                        qt <= 0x1000_0002,
                        qv == q@,
                        -20 <= base <= 0,
                        i < len,
                        len == index@.len(),
                        (#[trigger] index@[i as int])@ == spec_generate_index_entry(
                            cpusv[i as int].name,
                            i as int,
                        ),
                        ev == index@[i as int]@,
                        seq_view(e.tags@) == ev.tags,
                        score == base + 5 * spec_tag_matches(
                            seq_view(q.tags@).subrange(0, t as int),
                            ev.tags,
                        ),
                        base <= score <= base + 5 * t,
                    decreases qt - t,
                {
                    let ghost pre_take = seq_view(q.tags@).subrange(0, t as int);
                    let ghost cur_take = seq_view(q.tags@).subrange(0, t + 1);
                    proof {
                        assert(cur_take.drop_last() =~= pre_take);
                        assert(cur_take.last() == seq_view(q.tags@)[t as int]);
                        assert(seq_view(q.tags@)[t as int] == q.tags@[t as int]@);
                        assert(0 <= spec_tag_matches(pre_take, ev.tags) <= t) by {
                            lemma_tag_matches_bounds(pre_take, ev.tags);
                        }
                        assert(0 <= spec_tag_matches(cur_take, ev.tags) <= t + 1) by {
                            lemma_tag_matches_bounds(cur_take, ev.tags);
                        }
                        assert(spec_tag_matches(cur_take, ev.tags) == spec_tag_matches(
                            pre_take,
                            ev.tags,
                        ) + (if ev.tags.contains(cur_take.last()) {
                            1int
                        } else {
                            0int
                        }));
                    }
                    if vec_contains_str(&e.tags, q.tags[t].as_str()) {
                        score += 5;
                    }
                    t += 1;
                }
                proof {
                    assert(seq_view(q.tags@).subrange(0, qt as int) =~= qv.tags);
                    assert(score == spec_entry_score(qv, index@[i as int]@));
                }
                if score > best_score {
                    best_score = score;
                    best = Some(i);
                }
                proof {
                    assert(5 * spec_tag_matches(qv.tags, index@[i as int]@.tags) <= 5 * qv.tags.len()
                        <= 0x5000_000a) by {
                        lemma_tag_matches_bounds(qv.tags, index@[i as int]@.tags);
                    }
                }
            }
            i += 1;
        }
        match best {
            Some(j) => Ok(clone_cpu(&cpus[j])),
            None => Err(CpuFindError::NoCloseMatches),
        }
    }
}

proof fn lemma_tag_matches_bounds(qtags: Seq<Seq<char>>, etags: Seq<Seq<char>>)
    ensures
        0 <= spec_tag_matches(qtags, etags) <= qtags.len(),
    decreases qtags.len(),
{
    if qtags.len() > 0 {
        lemma_tag_matches_bounds(qtags.drop_last(), etags);
    }
}

fn build_index(cpus: &Vec<Cpu>) -> (r: Vec<IndexEntry>)
    requires
        forall|i: int|
            0 <= i < cpus@.len() ==> (#[trigger] cpus@[i])@.name.len() <= 0x1000_0000,
    ensures
        r@.len() == cpus@.len(),
        forall|i: int|
            0 <= i < r@.len() ==> (#[trigger] r@[i])@ == spec_generate_index_entry(
                seq_view(cpus@)[i].name,
                i,
            ),
{
    let mut out: Vec<IndexEntry> = Vec::new();
    let len = cpus.len();
    let mut i: usize = 0;
    while i < len
        invariant
            0 <= i <= len,
            len == cpus@.len(),
            out@.len() == i,
            forall|k: int|
                0 <= k < cpus@.len() ==> (#[trigger] cpus@[k])@.name.len() <= 0x1000_0000,
            forall|k: int|
                0 <= k < i ==> (#[trigger] out@[k])@ == spec_generate_index_entry(
                    seq_view(cpus@)[k].name,
                    k,
                ),
        decreases len - i,
    {
        let e = generate_index_entry(cpus[i].name.as_str(), i);
        proof {
            assert(seq_view(cpus@)[i as int].name == cpus@[i as int]@.name);
        }
        out.push(e);
        i += 1;
    }
    out
}

} // verus!
