//! The AMD CPU catalog: a JSON specification export parsed into entries.
//!
//! The export is an object whose `data` member is an array of records, one
//! per CPU; each record maps column names to values. serde_json does the
//! JSON parsing and the record extraction, named here as a function of the
//! export text; all the catalog logic — picking the model name, skipping
//! stray columns, filling the attribute map — is verified over the
//! extracted plain key/value pairs.

use crate::cpu::{insert_attribute, spec_insert_pair, Cpu, CpuView};
use crate::text::{seq_view, str_eq};
use vstd::prelude::*;

verus! {

// ---------- plain record values ----------

/// What one cell of a record holds, as the catalog logic reads it.
#[derive(Debug, PartialEq)]
pub enum AmdValue {
    /// A string cell, with its text.
    Text(String),
    /// A numeric cell, printed.
    Num(String),
    /// A cell of any other kind.
    Other,
}

#[verifier::ext_equal]
pub ghost enum AmdValueView {
    Text(Seq<char>),
    Num(Seq<char>),
    Other,
}

impl View for AmdValue {
    type V = AmdValueView;

    open spec fn view(&self) -> AmdValueView {
        match self {
            AmdValue::Text(s) => AmdValueView::Text(s@),
            AmdValue::Num(s) => AmdValueView::Num(s@),
            AmdValue::Other => AmdValueView::Other,
        }
    }
}

/// Views of a list of records.
pub open spec fn records_view(v: Seq<Vec<(String, AmdValue)>>) -> Seq<
    Seq<(Seq<char>, AmdValueView)>,
> {
    Seq::new(v.len(), |i: int| seq_view(v[i]@))
}

/// Why the export was rejected.
#[derive(Debug, PartialEq, Eq, Structural, Clone, Copy)]
pub enum AmdError {
    /// The text is not valid JSON.
    Json,
    /// The tree has no `data` array of record objects.
    Shape,
    /// A record has no `Model` cell.
    ModelMissing,
    /// A record's `Model` cell is neither a string nor a number.
    ModelType,
    /// An attribute cell is neither a string nor a number.
    AttrType,
}

// ---------- trusted surface over serde_json ----------

/// The records serde_json extracts from one export text: the elements of
/// the tree's `data` array, each an object whose pairs are cloned out in
/// the map's iteration order, string and number cells kept as text and
/// every other cell opaque. A function of the text alone; no export is
/// extracted from a text that serde_json rejects or that lacks the shape.
pub uninterp spec fn amd_records_of(s: Seq<char>) -> Option<Seq<Seq<(Seq<char>, AmdValueView)>>>;

/// Relies on serde_json::from_str, Value::get, Value::as_array, the Value
/// variants, Map::iter and Number::to_string: parse the export and clone
/// every record out as plain key/value pairs. Rejected with `Json` when
/// the text is not JSON, with `Shape` when the tree has no `data` array
/// of objects; the records depend on the text alone.
#[verifier::external_body]
fn amd_records(input: &str) -> (r: Result<Vec<Vec<(String, AmdValue)>>, AmdError>)
    ensures
        match r {
            Ok(recs) => amd_records_of(input@) == Some(records_view(recs@)),
            Err(e) => amd_records_of(input@) is None && (e == AmdError::Json || e
                == AmdError::Shape),
        },
{
    let v: serde_json::Value = serde_json::from_str(input).map_err(|_| AmdError::Json)?;
    let arr = v.get("data").and_then(|d| d.as_array()).ok_or(AmdError::Shape)?;
    let mut out: Vec<Vec<(String, AmdValue)>> = Vec::new();
    for e in arr {
        let m = match e {
            serde_json::Value::Object(m) => m,
            _ => return Err(AmdError::Shape),
        };
        out.push(m.iter().map(|(k, val)| (k.clone(), match val {
            serde_json::Value::String(s) => AmdValue::Text(s.clone()),
            serde_json::Value::Number(n) => AmdValue::Num(n.to_string()),
            _ => AmdValue::Other,
        })).collect());
    }
    Ok(out)
}

// ---------- the catalog logic ----------

/// The first cell of a record stored under a key.
pub open spec fn spec_amd_lookup(rec: Seq<(Seq<char>, AmdValueView)>, k: Seq<char>) -> Option<
    AmdValueView,
>
    decreases rec.len(),
{
    if rec.len() == 0 {
        None
    } else if rec[0].0 == k {
        Some(rec[0].1)
    } else {
        spec_amd_lookup(rec.drop_first(), k)
    }
}

/// The attribute map a record fills: stray keys (`0`, the empty key, and
/// `Model`, already used for the name) and empty string cells are skipped;
/// string and number cells are inserted under their key; any other cell
/// poisons the record.
pub open spec fn spec_amd_attrs(rec: Seq<(Seq<char>, AmdValueView)>) -> Result<
    Seq<(Seq<char>, Seq<char>)>,
    AmdError,
>
    decreases rec.len(),
{
    if rec.len() == 0 {
        Ok(Seq::empty())
    } else {
        match spec_amd_attrs(rec.drop_last()) {
            Err(e) => Err(e),
            Ok(prev) => {
                let k = rec.last().0;
                let v = rec.last().1;
                if k == "0"@ || k == ""@ || k == "Model"@ {
                    Ok(prev)
                } else if v matches AmdValueView::Text(s) && s.len() == 0 {
                    Ok(prev)
                } else {
                    match v {
                        AmdValueView::Text(s) => Ok(spec_insert_pair(prev, k, s)),
                        AmdValueView::Num(n) => Ok(spec_insert_pair(prev, k, n)),
                        AmdValueView::Other => Err(AmdError::AttrType),
                    }
                }
            },
        }
    }
}

/// The catalog entry one record yields: its `Model` cell (string or
/// printed number) is the name, the remaining cells its attributes.
pub open spec fn spec_amd_cpu(rec: Seq<(Seq<char>, AmdValueView)>) -> Result<CpuView, AmdError> {
    match spec_amd_lookup(rec, "Model"@) {
        None => Err(AmdError::ModelMissing),
        Some(m) => match m {
            AmdValueView::Other => Err(AmdError::ModelType),
            AmdValueView::Text(name) => match spec_amd_attrs(rec) {
                Err(e) => Err(e),
                Ok(attrs) => Ok(CpuView { name, attributes: attrs }),
            },
            AmdValueView::Num(name) => match spec_amd_attrs(rec) {
                Err(e) => Err(e),
                Ok(attrs) => Ok(CpuView { name, attributes: attrs }),
            },
        },
    }
}

/// The whole catalog: one entry per record, in record order; the first bad
/// record decides the error.
pub open spec fn spec_process_json(recs: Seq<Seq<(Seq<char>, AmdValueView)>>) -> Result<
    Seq<CpuView>,
    AmdError,
>
    decreases recs.len(),
{
    if recs.len() == 0 {
        Ok(Seq::empty())
    } else {
        match spec_amd_cpu(recs[0]) {
            Err(e) => Err(e),
            Ok(c) => match spec_process_json(recs.drop_first()) {
                Err(e) => Err(e),
                Ok(l) => Ok(seq![c] + l),
            },
        }
    }
}

proof fn lemma_amd_attrs_err_extends(rec: Seq<(Seq<char>, AmdValueView)>, m: int)
    requires
        0 <= m <= rec.len(),
        spec_amd_attrs(rec.subrange(0, m)) is Err,
    ensures
        spec_amd_attrs(rec) == spec_amd_attrs(rec.subrange(0, m)),
    decreases rec.len() - m,
{
    if m == rec.len() {
        assert(rec.subrange(0, m) =~= rec);
    } else {
        assert(rec.subrange(0, m + 1).drop_last() =~= rec.subrange(0, m));
        lemma_amd_attrs_err_extends(rec, m + 1);
    }
}

fn first_amd_key(rec: &Vec<(String, AmdValue)>, k: &str) -> (r: Option<usize>)
    ensures
        match r {
            Some(i) => i < rec@.len() && spec_amd_lookup(seq_view(rec@), k@) == Some(
                rec@[i as int]@.1,
            ),
            None => spec_amd_lookup(seq_view(rec@), k@) is None,
        },
{
    let len = rec.len();
    let mut i: usize = 0;
    proof {
        assert(seq_view(rec@).skip(0) =~= seq_view(rec@));
    }
    while i < len
        invariant
            0 <= i <= len,
            len == rec@.len(),
            spec_amd_lookup(seq_view(rec@), k@) == spec_amd_lookup(
                seq_view(rec@).skip(i as int),
                k@,
            ),
        decreases len - i,
    {
        proof {
            let s = seq_view(rec@).skip(i as int);
            assert(s[0] == rec@[i as int]@);
            assert(s.drop_first() =~= seq_view(rec@).skip(i + 1));
        }
        if str_eq(rec[i].0.as_str(), k) {
            return Some(i);
        }
        i += 1;
    }
    proof {
        assert(seq_view(rec@).skip(len as int) =~= Seq::<(Seq<char>, AmdValueView)>::empty());
    }
    None
}

fn amd_cpu_of(rec: &Vec<(String, AmdValue)>) -> (r: Result<Cpu, AmdError>)
    ensures
        match r {
            Ok(c) => spec_amd_cpu(seq_view(rec@)) == Ok::<_, AmdError>(c@),
            Err(e) => spec_amd_cpu(seq_view(rec@)) == Err::<CpuView, _>(e),
        },
{
    let mi = match first_amd_key(rec, "Model") {
        Some(i) => i,
        None => {
            return Err(AmdError::ModelMissing);
        },
    };
    let name: String = match &rec[mi].1 {
        AmdValue::Text(s) => s.clone(),
        AmdValue::Num(n) => n.clone(),
        AmdValue::Other => {
            return Err(AmdError::ModelType);
        },
    };
    let mut attrs: Vec<(String, String)> = Vec::new();
    let len = rec.len();
    let mut j: usize = 0;
    proof {
        assert(seq_view(rec@).subrange(0, 0) =~= Seq::<(Seq<char>, AmdValueView)>::empty());
        assert(seq_view(attrs@) =~= Seq::<(Seq<char>, Seq<char>)>::empty());
    }
    let ghost mview = spec_amd_lookup(seq_view(rec@), "Model"@);
    while j < len
        invariant
            0 <= j <= len,
            len == rec@.len(),
            mview == spec_amd_lookup(seq_view(rec@), "Model"@),
            mview matches Some(mv) && (mv is Text || mv is Num),
            spec_amd_attrs(seq_view(rec@).subrange(0, j as int)) == Ok::<_, AmdError>(
                seq_view(attrs@),
            ),
        decreases len - j,
    {
        let ghost pre_take = seq_view(rec@).subrange(0, j as int);
        let ghost cur_take = seq_view(rec@).subrange(0, j + 1);
        proof {
            assert(cur_take.drop_last() =~= pre_take);
            assert(cur_take.last() == rec@[j as int]@);
        }
        let pair = &rec[j];
        let skip_key = str_eq(pair.0.as_str(), "0") || str_eq(pair.0.as_str(), "") || str_eq(
            pair.0.as_str(),
            "Model",
        );
        if !skip_key {
            match &pair.1 {
                AmdValue::Text(s) => {
                    if !s.as_str().is_empty() {
                        insert_attribute(&mut attrs, pair.0.clone(), s.clone());
                    }
                },
                AmdValue::Num(n) => {
                    insert_attribute(&mut attrs, pair.0.clone(), n.clone());
                },
                AmdValue::Other => {
                    proof {
                        assert(spec_amd_attrs(cur_take) == Err::<Seq<(Seq<char>, Seq<char>)>,
                            _,
                        >(AmdError::AttrType));
                        lemma_amd_attrs_err_extends(seq_view(rec@), j + 1);
                        assert(seq_view(rec@).subrange(0, j + 1) =~= cur_take);
                    }
                    return Err(AmdError::AttrType);
                },
            }
        }
        j += 1;
    }
    proof {
        assert(seq_view(rec@).subrange(0, len as int) =~= seq_view(rec@));
    }
    let c = Cpu { name, attributes: attrs };
    proof {
        assert(spec_amd_cpu(seq_view(rec@)) == Ok::<_, AmdError>(c@));
    }
    Ok(c)
}

/// Build catalog entries from plain records, one per record.
pub fn process_json(records: &Vec<Vec<(String, AmdValue)>>) -> (r: Result<Vec<Cpu>, AmdError>)
    ensures
        match r {
            Ok(cpus) => spec_process_json(records_view(records@)) == Ok::<_, AmdError>(
                seq_view(cpus@),
            ),
            Err(e) => spec_process_json(records_view(records@)) == Err::<Seq<CpuView>, _>(e),
        },
{
    let ghost recsv = records_view(records@);
    let mut out: Vec<Cpu> = Vec::new();
    let len = records.len();
    let mut i: usize = 0;
    proof {
        assert(seq_view(out@) =~= Seq::<CpuView>::empty());
        assert(recsv.skip(0) =~= recsv);
    }
    while i < len
        invariant
            0 <= i <= len,
            len == records@.len(),
            recsv == records_view(records@),
            match spec_process_json(recsv.skip(i as int)) {
                Ok(l) => spec_process_json(recsv) == Ok::<_, AmdError>(seq_view(out@) + l),
                Err(e) => spec_process_json(recsv) == Err::<Seq<CpuView>, _>(e),
            },
        decreases len - i,
    {
        let ghost pre = seq_view(out@);
        proof {
            let s = recsv.skip(i as int);
            assert(s[0] == recsv[i as int]);
            assert(recsv[i as int] == seq_view(records@[i as int]@));
            assert(s.drop_first() =~= recsv.skip(i + 1));
        }
        match amd_cpu_of(&records[i]) {
            Err(e) => {
                return Err(e);
            },
            Ok(c) => {
                let ghost cv = c@;
                out.push(c);
                proof {
                    assert(seq_view(out@) =~= pre + seq![cv]);
                    assert forall|l2: Seq<CpuView>| (pre + seq![cv]) + l2 =~= pre + (seq![cv] + l2) by {}
                }
            },
        }
        i += 1;
    }
    proof {
        assert(recsv.skip(len as int) =~= Seq::<Seq<(Seq<char>, AmdValueView)>>::empty());
        assert(seq_view(out@) + Seq::<CpuView>::empty() =~= seq_view(out@));
    }
    Ok(out)
}

/// Parse the JSON export and build the AMD catalog. serde_json extracts
/// the records; the result is exactly what `process_json` builds from the
/// records the text holds, and the error says exactly what went wrong:
/// bad JSON, a tree without the `data` array of objects, or the first bad
/// record.
pub fn get_amd_cpus(input: &str) -> (r: Result<Vec<Cpu>, AmdError>)
    ensures
        match r {
            Ok(cpus) => amd_records_of(input@) matches Some(recs) && spec_process_json(recs)
                == Ok::<_, AmdError>(seq_view(cpus@)),
            Err(e) => (amd_records_of(input@) is None && (e == AmdError::Json || e
                == AmdError::Shape)) || (amd_records_of(input@) matches Some(recs)
                && spec_process_json(recs) == Err::<Seq<CpuView>, _>(e)),
        },
{
    let records = match amd_records(input) {
        Ok(recs) => recs,
        Err(e) => {
            return Err(e);
        },
    };
    match process_json(&records) {
        Ok(cpus) => Ok(cpus),
        Err(e) => Err(e),
    }
}

} // verus!
