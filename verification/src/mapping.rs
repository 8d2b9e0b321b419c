//! The row mapper: from a parsed row, the format's ordered mapping list
//! and the line's parameters to a destination-column -> value row.

use vstd::prelude::*;
use crate::text::{
    ascii_lower_of, ascii_lower, to_chars, from_chars, chars_eq,
    trim_of, trim_chars, sub_chars, str_eq,
};
use crate::numfmt::parse_usize_of;
use crate::numfmt::parse_usize;
use crate::timedate::StampVal;
use crate::transforms::{transformed, split_part_of, apply_transformation_at, apply_split,
    first_idx, lemma_first_idx};

verus! {

/// One column binding: exactly one of `file_column` and `parameter` is
/// normally set, and `parameter` wins when both are.
#[derive(Debug, Clone)]
pub struct MappingRow {
    pub id: Option<i64>,
    pub line_id: i64,
    pub sort_order: i64,
    pub sql_field: String,
    pub file_column: Option<String>,
    pub parameter: Option<String>,
    pub transformation: Option<String>,
    pub description: Option<String>,
}

/// The per-line settings the mapper and the file processor read.
#[derive(Debug, Clone)]
pub struct LineConfig {
    pub name: String,
    pub site: Option<String>,
    pub unite: Option<String>,
    pub flag_dec: Option<String>,
    pub code_ligne: Option<String>,
    pub log_path: Option<String>,
    pub file_format: Option<String>,
    pub rejected_path: Option<String>,
}

/// The string held, or empty.
pub open spec fn opt_str(o: Option<String>) -> Seq<char> {
    match o {
        Some(s) => s@,
        None => Seq::empty(),
    }
}

/// The value a parameter name resolves to from the line's settings.
pub open spec fn param_value_of(p: Seq<char>, lc: Option<LineConfig>) -> Seq<char> {
    match lc {
        None => Seq::empty(),
        Some(c) => {
            let pl = ascii_lower_of(p);
            if pl == "site"@ || pl == "fcy_0"@ {
                opt_str(c.site)
            } else if pl == "unite"@ || pl == "uom_0"@ {
                match c.unite {
                    Some(u) => u@,
                    None => "unit\u{e9}"@,
                }
            } else if pl == "flag_dec"@ || pl == "yflgdec_0"@ {
                match c.flag_dec {
                    Some(f) => f@,
                    None => "1"@,
                }
            } else if pl == "code_ligne"@ || pl == "ynlign_0"@ {
                opt_str(c.code_ligne)
            } else if pl == "creusr_0"@ || pl == "user"@ {
                "VISOR"@
            } else {
                Seq::empty()
            }
        },
    }
}

/// Resolve a parameter name against the line's settings.
pub fn get_parameter_value(param: &str, line_config: &Option<LineConfig>) -> (r: String)
    ensures
        r@ == param_value_of(param@, *line_config),
{
    let c = match line_config {
        Some(c) => c,
        None => {
            return String::new();
        },
    };
    let pv = to_chars(param);
    let pl = ascii_lower(&pv);
    if chars_eq(&pl, &to_chars("site")) || chars_eq(&pl, &to_chars("fcy_0")) {
        match &c.site {
            Some(s) => s.clone(),
            None => String::new(),
        }
    } else if chars_eq(&pl, &to_chars("unite")) || chars_eq(&pl, &to_chars("uom_0")) {
        match &c.unite {
            Some(u) => u.clone(),
            None => String::from_str("unit\u{e9}"),
        }
    } else if chars_eq(&pl, &to_chars("flag_dec")) || chars_eq(&pl, &to_chars("yflgdec_0")) {
        match &c.flag_dec {
            Some(f) => f.clone(),
            None => String::from_str("1"),
        }
    } else if chars_eq(&pl, &to_chars("code_ligne")) || chars_eq(&pl, &to_chars("ynlign_0")) {
        match &c.code_ligne {
            Some(s) => s.clone(),
            None => String::new(),
        }
    } else if chars_eq(&pl, &to_chars("creusr_0")) || chars_eq(&pl, &to_chars("user")) {
        String::from_str("VISOR")
    } else {
        String::new()
    }
}

/// The field at a parsed index, or empty when the index is missing or out
/// of range.
pub open spec fn field_at(rec: Seq<Seq<char>>, o: Option<int>) -> Seq<char> {
    match o {
        Some(n) => if 0 <= n < rec.len() {
            rec[n]
        } else {
            Seq::empty()
        },
        None => Seq::empty(),
    }
}

/// The value a `file_column` directive reads from a row: an index `N`, or
/// a pair `A-B` joined with a `;`.
pub open spec fn file_value_of(rec: Seq<Seq<char>>, fc: Seq<char>) -> Seq<char> {
    let i = first_idx(fc, '-');
    if i >= 0 {
        field_at(rec, parse_usize_of(trim_of(fc.take(i)))) + seq![';'] + field_at(
            rec,
            parse_usize_of(trim_of(fc.skip(i + 1))),
        )
    } else {
        match parse_usize_of(trim_of(fc)) {
            Some(n) => field_at(rec, Some(n)),
            None => Seq::empty(),
        }
    }
}

fn field_at_exec(record: &Vec<String>, idx: Option<usize>) -> (r: String)
    ensures
        r@ == field_at(
            record.deep_view(),
            match idx {
                Some(n) => Some(n as int),
                None => None,
            },
        ),
{
    match idx {
        Some(n) => {
            if n < record.len() {
                proof {
                    assert(record.deep_view()[n as int] == record@[n as int]@);
                }
                record[n].clone()
            } else {
                String::new()
            }
        },
        None => String::new(),
    }
}

/// Read a `file_column` directive against a row.
pub fn get_file_value(record: &Vec<String>, file_column: &str) -> (r: String)
    ensures
        r@ == file_value_of(record.deep_view(), file_column@),
{
    let fc = to_chars(file_column);
    let n: usize = fc.len();
    match crate::text::find_char(&fc, '-') {
        Some(i) => {
            proof {
                lemma_first_idx(fc@, '-');
                assert(first_idx(fc@, '-') == i as int);
                assert(i < n);
            }
            let a = sub_chars(&fc, 0, i);
            let b = sub_chars(&fc, i + 1, n);
            proof {
                assert(a@ =~= fc@.take(i as int));
                assert(b@ =~= fc@.skip(i + 1 as int));
            }
            let ta = trim_chars(&a);
            let tb = trim_chars(&b);
            let va = field_at_exec(record, parse_usize(&ta));
            let vb = field_at_exec(record, parse_usize(&tb));
            let mut out = to_chars(va.as_str());
            out.push(';');
            let bv = to_chars(vb.as_str());
            let joined = crate::text::concat_chars(&out, &bv);
            proof {
                assert(out@ =~= va@ + seq![';']);
                assert(joined@ =~= file_value_of(record.deep_view(), file_column@));
            }
            from_chars(&joined)
        },
        None => {
            proof {
                lemma_first_idx(fc@, '-');
                if first_idx(fc@, '-') >= 0 {
                    assert(fc@[first_idx(fc@, '-')] == '-');
                }
            }
            let t = trim_chars(&fc);
            match parse_usize(&t) {
                Some(idx) => field_at_exec(record, Some(idx)),
                None => String::new(),
            }
        },
    }
}

/// The source value of one mapping entry, before any transformation: the
/// parameter when one is named, else the file column, else empty.
pub open spec fn source_value_of(
    rec: Seq<Seq<char>>,
    m: MappingRow,
    lc: Option<LineConfig>,
) -> Seq<char> {
    match m.parameter {
        Some(p) => if p@.len() > 0 {
            param_value_of(p@, lc)
        } else {
            file_branch_of(rec, m)
        },
        None => file_branch_of(rec, m),
    }
}

pub open spec fn file_branch_of(rec: Seq<Seq<char>>, m: MappingRow) -> Seq<char> {
    match m.file_column {
        Some(fc) => if fc@.len() > 0 {
            file_value_of(rec, fc@)
        } else {
            Seq::empty()
        },
        None => Seq::empty(),
    }
}

/// The final value of one mapping entry, its transformation applied.
pub open spec fn entry_value_of(
    rec: Seq<Seq<char>>,
    m: MappingRow,
    lc: Option<LineConfig>,
    now: StampVal,
) -> Seq<char> {
    let src = source_value_of(rec, m, lc);
    match m.transformation {
        Some(t) => if t@.len() == 0 {
            src
        } else if t@ == "split_before_plus"@ {
            split_part_of(src, true)
        } else if t@ == "split_after_plus"@ {
            split_part_of(src, false)
        } else {
            transformed(src, t@, now)
        },
        None => src,
    }
}

/// Map one parsed row through the format's ordered mapping list at a given
/// wall-clock instant.  The result lists one `(column, value)` pair per
/// mapping entry, in order; a later entry for the same column supersedes an
/// earlier one.
pub fn map_record_with_mappings_and_params(
    record: &Vec<String>,
    mappings: &Vec<MappingRow>,
    line_config: &Option<LineConfig>,
    now: &StampVal,
) -> (r: Vec<(String, String)>)
    requires
        now.wf(),
    ensures
        r@.len() == mappings@.len(),
        forall|i: int| 0 <= i < mappings@.len() ==> (#[trigger] r@[i]).0@ == mappings@[i].sql_field@
            && r@[i].1@ == entry_value_of(record.deep_view(), mappings@[i], *line_config, *now),
{
    let mut out: Vec<(String, String)> = Vec::new();
    let mut i: usize = 0;
    while i < mappings.len()
        invariant
            i <= mappings@.len(),
            out@.len() == i as int,
            now.wf(),
            forall|j: int| 0 <= j < i ==> (#[trigger] out@[j]).0@ == mappings@[j].sql_field@
                && out@[j].1@ == entry_value_of(record.deep_view(), mappings@[j], *line_config, *now),
        decreases mappings@.len() - i,
    {
        let m = &mappings[i];
        let src: String = match &m.parameter {
            Some(p) => {
                if p.as_str().unicode_len() > 0 {
                    get_parameter_value(p.as_str(), line_config)
                } else {
                    file_branch_exec(record, m)
                }
            },
            None => file_branch_exec(record, m),
        };
        proof {
            assert(src@ == source_value_of(record.deep_view(), mappings@[i as int], *line_config));
        }
        let val: String = match &m.transformation {
            Some(t) => {
                if t.as_str().unicode_len() == 0 {
                    src
                } else if str_eq(t.as_str(), "split_before_plus") {
                    apply_split(src.as_str(), "before")
                } else if str_eq(t.as_str(), "split_after_plus") {
                    let r0 = apply_split(src.as_str(), "after");
                    proof {
                        reveal_strlit("after");
                        reveal_strlit("before");
                        assert("after"@.len() != "before"@.len());
                    }
                    r0
                } else {
                    apply_transformation_at(src.as_str(), t.as_str(), now)
                }
            },
            None => src,
        };
        proof {
            assert(val@ == entry_value_of(record.deep_view(), mappings@[i as int], *line_config, *now));
        }
        out.push((m.sql_field.clone(), val));
        i = i + 1;
    }
    out
}

fn file_branch_exec(record: &Vec<String>, m: &MappingRow) -> (r: String)
    ensures
        r@ == file_branch_of(record.deep_view(), *m),
{
    match &m.file_column {
        Some(fc) => {
            if fc.as_str().unicode_len() > 0 {
                get_file_value(record, fc.as_str())
            } else {
                String::new()
            }
        },
        None => String::new(),
    }
}

/// The value under a column name, the last entry for it winning, as a map
/// insert for each entry in order would leave it.
pub open spec fn lookup_of(entries: Seq<(String, String)>, key: Seq<char>) -> Option<Seq<char>>
    decreases entries.len(),
{
    if entries.len() == 0 {
        None
    } else if entries.last().0@ == key {
        Some(entries.last().1@)
    } else {
        lookup_of(entries.drop_last(), key)
    }
}

/// Look a column up in a mapped row.
pub fn lookup_value(entries: &Vec<(String, String)>, key: &str) -> (r: Option<String>)
    ensures
        match r {
            Some(s) => lookup_of(entries@, key@) == Some(s@),
            None => lookup_of(entries@, key@) is None,
        },
{
    let mut i: usize = entries.len();
    proof {
        assert(entries@.take(i as int) =~= entries@);
    }
    while i > 0
        invariant
            i <= entries@.len(),
            lookup_of(entries@, key@) == lookup_of(entries@.take(i as int), key@),
        decreases i,
    {
        proof {
            assert(entries@.take(i as int).last() == entries@[i - 1]);
            assert(entries@.take(i as int).drop_last() =~= entries@.take(i - 1));
        }
        let e = &entries[i - 1];
        if str_eq(e.0.as_str(), key) {
            return Some(e.1.clone());
        }
        i = i - 1;
    }
    proof {
        assert(entries@.take(0) =~= Seq::<(String, String)>::empty());
    }
    None
}

} // verus!
