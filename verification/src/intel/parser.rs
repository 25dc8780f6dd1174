//! Build catalog entries from a lexed Intel export.
//!
//! The export is transposed: the CPU names form one row, and every
//! attribute row carries its name in the first cell and one cell per CPU
//! after it. One entry is built per name column; a column that some row is
//! too short to cover is omitted rather than aborting the whole load.

use crate::cpu::{insert_attribute, spec_insert_pair, Cpu, CpuView};
use crate::intel::lexer::{lex_csv, spec_lex, LexError, LexerOutputView};
use crate::text::seq_view;
use vstd::prelude::*;

verus! {

/// Some row is too short to carry a cell for column `i`.
pub open spec fn spec_has_short_row(records: Seq<Seq<Seq<char>>>, i: int) -> bool {
    exists|j: int| 0 <= j < records.len() && (#[trigger] records[j]).len() < i + 2
}

/// The attributes of the CPU in column `i`: every row's name cell paired
/// with its cell in that column, empty cells skipped, filled into a
/// mapping in row order.
pub open spec fn spec_cpu_attrs(records: Seq<Seq<Seq<char>>>, i: int) -> Seq<
    (Seq<char>, Seq<char>),
>
    decreases records.len(),
{
    if records.len() == 0 {
        Seq::empty()
    } else {
        let prev = spec_cpu_attrs(records.drop_last(), i);
        let rec = records.last();
        if rec.len() >= i + 2 && rec[i + 1].len() > 0 {
            spec_insert_pair(prev, rec[0], rec[i + 1])
        } else {
            prev
        }
    }
}

/// The entry built for column `i`, or nothing when a row is too short.
pub open spec fn spec_cpu_of(lex: LexerOutputView, i: int) -> Option<CpuView> {
    if spec_has_short_row(lex.records, i) {
        None
    } else {
        Some(CpuView { name: lex.cpus[i], attributes: spec_cpu_attrs(lex.records, i) })
    }
}

/// The entries built for columns `i` onward, omitted columns skipped.
pub open spec fn spec_cpus_from(lex: LexerOutputView, i: int) -> Seq<CpuView>
    decreases lex.cpus.len() - i,
{
    if i < 0 || i >= lex.cpus.len() {
        Seq::empty()
    } else {
        match spec_cpu_of(lex, i) {
            Some(c) => seq![c] + spec_cpus_from(lex, i + 1),
            None => spec_cpus_from(lex, i + 1),
        }
    }
}

/// What `parse_csv` yields for one export file.
pub open spec fn spec_parse_csv(s: Seq<char>) -> Result<Seq<CpuView>, LexError> {
    match spec_lex(s) {
        Err(e) => Err(e),
        Ok(lex) => Ok(spec_cpus_from(lex, 0)),
    }
}

/// Parse one export file into catalog entries, one per CPU column.
pub fn parse_csv(csv: &str) -> (r: Result<Vec<Cpu>, LexError>)
    ensures
        match r {
            Ok(cpus) => spec_parse_csv(csv@) == Ok::<_, LexError>(seq_view(cpus@)),
            Err(e) => spec_parse_csv(csv@) == Err::<Seq<CpuView>, _>(e),
        },
{
    let lexed = match lex_csv(csv) {
        Ok(o) => o,
        Err(e) => {
            return Err(e);
        },
    };
    let ghost lexv = lexed@;
    let mut out: Vec<Cpu> = Vec::new();
    let clen = lexed.cpus.len();
    let rlen = lexed.records.len();
    let mut i: usize = 0;
    proof {
        assert(seq_view(out@) =~= Seq::<CpuView>::empty());
        assert(seq_view(out@) + spec_cpus_from(lexv, 0) =~= spec_cpus_from(lexv, 0));
    }
    while i < clen
        invariant
            0 <= i <= clen,
            clen == lexed.cpus@.len(),
            rlen == lexed.records@.len(),
            lexv == lexed@,
            spec_cpus_from(lexv, 0) == seq_view(out@) + spec_cpus_from(lexv, i as int),
        decreases clen - i,
    {
        let ghost pre = seq_view(out@);
        let mut attrs: Vec<(String, String)> = Vec::new();
        let mut short = false;
        let mut j: usize = 0;
        proof {
            assert(lexv.records.subrange(0, 0) =~= Seq::<Seq<Seq<char>>>::empty());
        }
        while j < rlen
            invariant
                0 <= j <= rlen,
                0 <= i < clen,
                clen == lexed.cpus@.len(),
                rlen == lexed.records@.len(),
                lexv == lexed@,
                !short ==> seq_view(attrs@) == spec_cpu_attrs(
                    lexv.records.subrange(0, j as int),
                    i as int,
                ),
                !short ==> forall|k: int|
                    0 <= k < j ==> (#[trigger] lexv.records[k]).len() >= i + 2,
                short ==> spec_has_short_row(lexv.records, i as int),
            decreases rlen - j,
        {
            let ghost pre_take = lexv.records.subrange(0, j as int);
            let ghost cur_take = lexv.records.subrange(0, j + 1);
            proof {
                assert(cur_take.drop_last() =~= pre_take);
                assert(cur_take.last() == lexv.records[j as int]);
                assert(lexv.records[j as int] == seq_view(lexed.records@[j as int]@));
            }
            let rec = &lexed.records[j];
            if rec.len() <= i + 1 {
                short = true;
            } else if !short {
                let entry = &rec[i + 1];
                proof {
                    assert(lexv.records[j as int][i + 1] == entry@);
                    assert(lexv.records[j as int][0] == rec@[0]@);
                }
                if !entry.as_str().is_empty() {
                    insert_attribute(&mut attrs, rec[0].clone(), entry.clone());
                }
            }
            j += 1;
        }
        if !short {
            proof {
                assert(lexv.records.subrange(0, rlen as int) =~= lexv.records);
                assert(spec_cpu_of(lexv, i as int) == Some(
                    CpuView { name: lexv.cpus[i as int], attributes: seq_view(attrs@) },
                ));
            }
            let name = lexed.cpus[i].clone();
            let c = Cpu { name, attributes: attrs };
            let ghost cv = c@;
            out.push(c);
            proof {
                assert(seq_view(out@) =~= pre + seq![cv]);
                assert(cv == CpuView { name: lexv.cpus[i as int], attributes: cv.attributes });
                assert forall|l2: Seq<CpuView>| (pre + seq![cv]) + l2 =~= pre + (seq![cv] + l2) by {}
            }
        } else {
            proof {
                assert(spec_cpu_of(lexv, i as int) is None);
            }
        }
        i += 1;
    }
    proof {
        assert(spec_cpus_from(lexv, clen as int) =~= Seq::<CpuView>::empty());
        assert(seq_view(out@) + Seq::<CpuView>::empty() =~= seq_view(out@));
    }
    Ok(out)
}

} // verus!
