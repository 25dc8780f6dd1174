//! The Intel CPU catalog: spec-sheet CSV exports parsed into entries.
//!
//! The catalog ships as several comparison-export chunks; each chunk is
//! lexed and parsed on its own and the entries are concatenated in chunk
//! order. A chunk that fails to lex fails the whole load.

pub mod lexer;
pub mod parser;

use crate::cpu::{Cpu, CpuView};
use crate::intel::lexer::LexError;
use crate::intel::parser::{parse_csv, spec_parse_csv};
use crate::text::seq_view;
use vstd::prelude::*;

verus! {

/// The entries of all chunks, in order; the first chunk that fails to
/// parse decides the error.
pub open spec fn spec_intel_cpus(chunks: Seq<Seq<char>>) -> Result<Seq<CpuView>, LexError>
    decreases chunks.len(),
{
    if chunks.len() == 0 {
        Ok(Seq::empty())
    } else {
        match spec_parse_csv(chunks[0]) {
            Err(e) => Err(e),
            Ok(l) => match spec_intel_cpus(chunks.drop_first()) {
                Err(e) => Err(e),
                Ok(l2) => Ok(l + l2),
            },
        }
    }
}

/// Parse every export chunk and merge the entries in chunk order.
pub fn get_intel_cpus(chunks: &Vec<String>) -> (r: Result<Vec<Cpu>, LexError>)
    ensures
        match r {
            Ok(cpus) => spec_intel_cpus(seq_view(chunks@)) == Ok::<_, LexError>(seq_view(cpus@)),
            Err(e) => spec_intel_cpus(seq_view(chunks@)) == Err::<Seq<CpuView>, _>(e),
        },
{
    let mut merged: Vec<Cpu> = Vec::new();
    let len = chunks.len();
    let mut i: usize = 0;
    proof {
        assert(seq_view(merged@) =~= Seq::<CpuView>::empty());
        assert(seq_view(chunks@).skip(0) =~= seq_view(chunks@));
    }
    while i < len
        invariant
            0 <= i <= len,
            len == chunks@.len(),
            match spec_intel_cpus(seq_view(chunks@).skip(i as int)) {
                Ok(l) => spec_intel_cpus(seq_view(chunks@)) == Ok::<_, LexError>(
                    seq_view(merged@) + l,
                ),
                Err(e) => spec_intel_cpus(seq_view(chunks@)) == Err::<Seq<CpuView>, _>(e),
            },
        decreases len - i,
    {
        let ghost pre = seq_view(merged@);
        proof {
            let s = seq_view(chunks@).skip(i as int);
            assert(s[0] == chunks@[i as int]@);
            assert(s.drop_first() =~= seq_view(chunks@).skip(i + 1));
        }
        match parse_csv(chunks[i].as_str()) {
            Err(e) => {
                return Err(e);
            },
            Ok(mut cpus) => {
                let ghost cv = seq_view(cpus@);
                merged.append(&mut cpus);
                proof {
                    assert(seq_view(merged@) =~= pre + cv);
                    assert forall|l2: Seq<CpuView>| (pre + cv) + l2 =~= pre + (cv + l2) by {}
                }
            },
        }
        i += 1;
    }
    proof {
        assert(seq_view(chunks@).skip(len as int) =~= Seq::<Seq<char>>::empty());
        assert(seq_view(merged@) + Seq::<CpuView>::empty() =~= seq_view(merged@));
    }
    Ok(merged)
}

} // verus!
