//! The built-in mapping sets for the two declaration-file formats.

use vstd::prelude::*;
use crate::mapping::MappingRow;
use crate::text::{ascii_upper_of, ascii_upper, to_chars, chars_eq};

verus! {

/// The text of an optional string.
pub open spec fn opt_view(o: Option<String>) -> Option<Seq<char>> {
    match o {
        Some(s) => Some(s@),
        None => None,
    }
}

/// One default mapping entry, its description left free.
pub open spec fn mr_is(
    m: MappingRow,
    so: int,
    f: Seq<char>,
    fc: Option<Seq<char>>,
    p: Option<Seq<char>>,
    t: Option<Seq<char>>,
) -> bool {
    m.id is None && m.line_id == 0 && m.sort_order == so && m.sql_field@ == f && opt_view(
        m.file_column,
    ) == fc && opt_view(m.parameter) == p && opt_view(m.transformation) == t
}

/// The default column bindings of the ATEIS format.
pub open spec fn is_ateis_defaults(s: Seq<MappingRow>) -> bool {
    &&& s.len() == 17
    &&& mr_is(s[0], 0, "YSSCC_0"@, Some("0"@), None, None)
    &&& mr_is(s[1], 1, "YDATE_0"@, Some("1"@), None, Some("date"@))
    &&& mr_is(s[2], 2, "YHEURE_0"@, Some("1"@), None, Some("heure"@))
    &&& mr_is(s[3], 3, "ITMREF_0"@, Some("5"@), None, None)
    &&& mr_is(s[4], 4, "LOT_0"@, Some("7"@), None, None)
    &&& mr_is(s[5], 5, "QTY_0"@, Some("9"@), None, Some("decimal"@))
    &&& mr_is(s[6], 6, "YDATDL_0"@, Some("8"@), None, Some("date"@))
    &&& mr_is(s[7], 7, "YNLIGN_0"@, Some("12"@), None, None)
    &&& mr_is(s[8], 8, "MFGNUM_0"@, Some("18"@), None, None)
    &&& mr_is(s[9], 9, "YCODEPOT_0"@, Some("4"@), None, None)
    &&& mr_is(s[10], 10, "YPALETTE_0"@, Some("16"@), None, None)
    &&& mr_is(s[11], 11, "YINTERCAL_0"@, Some("17"@), None, None)
    &&& mr_is(s[12], 12, "FCY_0"@, None, Some("site"@), None)
    &&& mr_is(s[13], 13, "UOM_0"@, None, Some("unite"@), None)
    &&& mr_is(s[14], 14, "YFLGDEC_0"@, None, Some("flag_dec"@), Some("tinyint"@))
    &&& mr_is(s[15], 15, "CREUSR_0"@, None, Some("code_ligne"@), None)
    &&& mr_is(s[16], 16, "CREDATTIM_0"@, Some("1"@), None, Some("datetime"@))
}

/// The default column bindings of the LOGITRON format.
pub open spec fn is_logitron_defaults(s: Seq<MappingRow>) -> bool {
    &&& s.len() == 17
    &&& mr_is(s[0], 0, "YSSCC_0"@, Some("0"@), None, None)
    &&& mr_is(s[1], 1, "YDATE_0"@, Some("1"@), None, Some("date"@))
    &&& mr_is(s[2], 2, "YHEURE_0"@, Some("2"@), None, Some("heure"@))
    &&& mr_is(s[3], 3, "CREDATTIM_0"@, Some("1-2"@), None, Some("datetime_combine"@))
    &&& mr_is(s[4], 4, "ITMREF_0"@, Some("3"@), None, None)
    &&& mr_is(s[5], 5, "LOT_0"@, Some("4"@), None, None)
    &&& mr_is(s[6], 6, "QTY_0"@, Some("5"@), None, Some("decimal"@))
    &&& mr_is(s[7], 7, "YDATDL_0"@, Some("7"@), None, Some("date"@))
    &&& mr_is(s[8], 8, "YNLIGN_0"@, Some("8"@), None, None)
    &&& mr_is(s[9], 9, "MFGNUM_0"@, Some("13"@), None, None)
    &&& mr_is(s[10], 10, "YCODEPOT_0"@, Some("14"@), None, None)
    &&& mr_is(s[11], 11, "YPALETTE_0"@, Some("15"@), None, Some("split_before_plus"@))
    &&& mr_is(s[12], 12, "YINTERCAL_0"@, Some("15"@), None, Some("split_after_plus"@))
    &&& mr_is(s[13], 13, "FCY_0"@, None, Some("site"@), None)
    &&& mr_is(s[14], 14, "UOM_0"@, None, Some("unite"@), None)
    &&& mr_is(s[15], 15, "YFLGDEC_0"@, None, Some("flag_dec"@), Some("tinyint"@))
    &&& mr_is(s[16], 16, "CREUSR_0"@, None, Some("code_ligne"@), None)
}

fn mr(
    so: i64,
    f: &str,
    fc: Option<&str>,
    p: Option<&str>,
    t: Option<&str>,
    de: &str,
) -> (m: MappingRow)
    ensures
        mr_is(
            m,
            so as int,
            f@,
            match fc {
                Some(x) => Some(x@),
                None => None,
            },
            match p {
                Some(x) => Some(x@),
                None => None,
            },
            match t {
                Some(x) => Some(x@),
                None => None,
            },
        ),
{
    MappingRow {
        id: None,
        line_id: 0,
        sort_order: so,
        sql_field: String::from_str(f),
        file_column: match fc {
            Some(x) => Some(String::from_str(x)),
            None => None,
        },
        parameter: match p {
            Some(x) => Some(String::from_str(x)),
            None => None,
        },
        transformation: match t {
            Some(x) => Some(String::from_str(x)),
            None => None,
        },
        description: Some(String::from_str(de)),
    }
}

/// The built-in ATEIS mapping set.
pub fn get_ateis_default_mappings() -> (r: Vec<MappingRow>)
    ensures
        is_ateis_defaults(r@),
{
    let mut v: Vec<MappingRow> = Vec::new();
    v.push(mr(0, "YSSCC_0", Some("0"), None, None, "Code SCC"));
    v.push(mr(1, "YDATE_0", Some("1"), None, Some("date"), "Date d\u{e9}claration"));
    v.push(mr(2, "YHEURE_0", Some("1"), None, Some("heure"), "Heure d\u{e9}claration"));
    v.push(mr(3, "ITMREF_0", Some("5"), None, None, "R\u{e9}f\u{e9}rence article"));
    v.push(mr(4, "LOT_0", Some("7"), None, None, "Num\u{e9}ro de lot"));
    v.push(mr(5, "QTY_0", Some("9"), None, Some("decimal"), "Quantit\u{e9}"));
    v.push(mr(6, "YDATDL_0", Some("8"), None, Some("date"), "Date livraison"));
    v.push(mr(7, "YNLIGN_0", Some("12"), None, None, "Num\u{e9}ro de ligne"));
    v.push(mr(8, "MFGNUM_0", Some("18"), None, None, "Num\u{e9}ro de fabrication"));
    v.push(mr(9, "YCODEPOT_0", Some("4"), None, None, "Code d\u{e9}p\u{f4}t"));
    v.push(mr(10, "YPALETTE_0", Some("16"), None, None, "Palette"));
    v.push(mr(11, "YINTERCAL_0", Some("17"), None, None, "Intercalaire"));
    v.push(mr(12, "FCY_0", None, Some("site"), None, "Site de production"));
    v.push(mr(13, "UOM_0", None, Some("unite"), None, "Unit\u{e9} de mesure"));
    v.push(mr(14, "YFLGDEC_0", None, Some("flag_dec"), Some("tinyint"), "Flag d\u{e9}claration"));
    v.push(mr(15, "CREUSR_0", None, Some("code_ligne"), None, "Utilisateur cr\u{e9}ation"));
    v.push(mr(16, "CREDATTIM_0", Some("1"), None, Some("datetime"), "Date/heure cr\u{e9}ation"));
    v
}

/// The built-in LOGITRON mapping set.
pub fn get_logitron_default_mappings() -> (r: Vec<MappingRow>)
    ensures
        is_logitron_defaults(r@),
{
    let mut v: Vec<MappingRow> = Vec::new();
    v.push(mr(0, "YSSCC_0", Some("0"), None, None, "Code SCC"));
    v.push(mr(1, "YDATE_0", Some("1"), None, Some("date"), "Date d\u{e9}claration"));
    v.push(mr(2, "YHEURE_0", Some("2"), None, Some("heure"), "Heure d\u{e9}claration"));
    v.push(mr(
        3,
        "CREDATTIM_0",
        Some("1-2"),
        None,
        Some("datetime_combine"),
        "Date/heure cr\u{e9}ation combin\u{e9}e",
    ));
    v.push(mr(4, "ITMREF_0", Some("3"), None, None, "R\u{e9}f\u{e9}rence article"));
    v.push(mr(5, "LOT_0", Some("4"), None, None, "Num\u{e9}ro de lot"));
    v.push(mr(6, "QTY_0", Some("5"), None, Some("decimal"), "Quantit\u{e9}"));
    v.push(mr(7, "YDATDL_0", Some("7"), None, Some("date"), "Date livraison"));
    v.push(mr(8, "YNLIGN_0", Some("8"), None, None, "Num\u{e9}ro de ligne"));
    v.push(mr(9, "MFGNUM_0", Some("13"), None, None, "Num\u{e9}ro de fabrication"));
    v.push(mr(10, "YCODEPOT_0", Some("14"), None, None, "Code d\u{e9}p\u{f4}t"));
    v.push(mr(11, "YPALETTE_0", Some("15"), None, Some("split_before_plus"), "Partie avant +"));
    v.push(mr(12, "YINTERCAL_0", Some("15"), None, Some("split_after_plus"), "Partie apr\u{e8}s +"));
    v.push(mr(13, "FCY_0", None, Some("site"), None, "Site de production"));
    v.push(mr(14, "UOM_0", None, Some("unite"), None, "Unit\u{e9} de mesure"));
    v.push(mr(15, "YFLGDEC_0", None, Some("flag_dec"), Some("tinyint"), "Flag d\u{e9}claration"));
    v.push(mr(16, "CREUSR_0", None, Some("code_ligne"), None, "Utilisateur cr\u{e9}ation"));
    v
}

/// The default mapping set of a format name, matched without regard to
/// case; an unknown format falls back to the ATEIS set.
pub fn default_mappings_for(format_name: &str) -> (r: Vec<MappingRow>)
    ensures
        ascii_upper_of(format_name@) == "LOGITRON"@ ==> is_logitron_defaults(r@),
        ascii_upper_of(format_name@) != "LOGITRON"@ ==> is_ateis_defaults(r@),
{
    let up = ascii_upper(&to_chars(format_name));
    if chars_eq(&up, &to_chars("LOGITRON")) {
        get_logitron_default_mappings()
    } else {
        get_ateis_default_mappings()
    }
}

} // verus!
