//! The per-file state machine: eligibility, quarantine and disposition
//! names, the parse-and-map stage, the disposition decision, and the audit
//! message appended to the production data.
//!
//! The filesystem renames and the database calls stay with the caller; the
//! decisions here say exactly which one to make on every outcome.

use vstd::prelude::*;
use crate::text::{
    ascii_upper_of, ascii_upper, to_chars, from_chars, ends_with, ends_with_sub, has_sub,
    contains_sub, concat_chars, sub_chars,
};
use crate::numfmt::{dec_signed_of, i64_dec, digit_char_of, digit_to_char};
use crate::timedate::{StampVal, compact_stamp_of, compact_stamp};
use crate::records::{records_of, parse_records};
use crate::mapping::{MappingRow, LineConfig, entry_value_of, map_record_with_mappings_and_params};

verus! {

/// A file is processed when its name carries the line's prefix, without
/// regard to case, and one of the three accepted extensions.
pub open spec fn eligible_file(name: Seq<char>, prefix: Seq<char>) -> bool {
    let up = ascii_upper_of(name);
    (ends_with(up, ".TMP"@) || ends_with(up, ".CSV"@) || ends_with(up, ".TXT"@)) && has_sub(
        up,
        ascii_upper_of(prefix),
    )
}

/// Decide whether a file name is for this line; anything else is left
/// alone silently.
pub fn should_process(filename: &str, prefix: &str) -> (r: bool)
    ensures
        r == eligible_file(filename@, prefix@),
{
    let up = ascii_upper(&to_chars(filename));
    let pu = ascii_upper(&to_chars(prefix));
    (ends_with_sub(&up, &to_chars(".TMP")) || ends_with_sub(&up, &to_chars(".CSV"))
        || ends_with_sub(&up, &to_chars(".TXT"))) && contains_sub(&up, &pu)
}

/// Position of the last `.`, or -1 when there is none.
pub open spec fn last_dot(s: Seq<char>) -> int
    decreases s.len(),
{
    if s.len() == 0 {
        -1
    } else if s.last() == '.' {
        s.len() - 1
    } else {
        last_dot(s.drop_last())
    }
}

/// The file name up to its extension; a lone leading dot belongs to the
/// stem.
pub open spec fn stem_of(name: Seq<char>) -> Seq<char> {
    let i = last_dot(name);
    if i > 0 {
        name.take(i)
    } else {
        name
    }
}

/// The extension with its dot, or empty.
pub open spec fn ext_of(name: Seq<char>) -> Seq<char> {
    let i = last_dot(name);
    if i > 0 {
        name.skip(i)
    } else {
        Seq::empty()
    }
}

proof fn lemma_last_dot(s: Seq<char>)
    ensures
        last_dot(s) < 0 ==> forall|j: int| 0 <= j < s.len() ==> s[j] != '.',
        last_dot(s) >= 0 ==> last_dot(s) < s.len() && s[last_dot(s)] == '.' && forall|j: int|
            last_dot(s) < j < s.len() ==> s[j] != '.',
    decreases s.len(),
{
    if s.len() > 0 && s.last() != '.' {
        lemma_last_dot(s.drop_last());
        assert(forall|j: int| 0 <= j < s.len() - 1 ==> s[j] == s.drop_last()[j]);
    }
}

/// Split a file name into stem and dotted extension.
pub fn split_stem_ext(filename: &str) -> (r: (String, String))
    ensures
        r.0@ == stem_of(filename@),
        r.1@ == ext_of(filename@),
{
    let v = to_chars(filename);
    let n: usize = v.len();
    let mut i: usize = n;
    while i > 0 && v[i - 1] != '.'
        invariant
            i <= n,
            n == v@.len(),
            forall|j: int| i <= j < v@.len() ==> v@[j] != '.',
        decreases i,
    {
        i = i - 1;
    }
    proof {
        lemma_last_dot(v@);
        if i > 0 {
            assert(v@[i - 1] == '.');
            if last_dot(v@) > i - 1 {
                assert(v@[last_dot(v@)] != '.');
            }
            if last_dot(v@) < i - 1 {
                assert(v@[i - 1] != '.');
            }
            assert(last_dot(v@) == i - 1);
        } else {
            if last_dot(v@) >= 0 {
                assert(v@[last_dot(v@)] == '.');
            }
            assert(last_dot(v@) < 0);
        }
    }
    if i > 1 {
        let stem = sub_chars(&v, 0, i - 1);
        let ext = sub_chars(&v, i - 1, n);
        proof {
            assert(stem@ =~= v@.take(i - 1));
            assert(ext@ =~= v@.skip(i - 1));
        }
        (from_chars(&stem), from_chars(&ext))
    } else {
        let empty: Vec<char> = Vec::new();
        let whole = sub_chars(&v, 0, n);
        proof {
            assert(whole@ =~= v@);
        }
        (from_chars(&whole), from_chars(&empty))
    }
}

/// `<stem>_<YYYYMMDD_HHMMSS><ext>`, the name a file gets when archived or
/// rejected.
pub open spec fn stamped_name_of(name: Seq<char>, st: StampVal) -> Seq<char> {
    stem_of(name) + seq!['_'] + compact_stamp_of(st) + ext_of(name)
}

/// Build the archive or reject name of a file.
pub fn stamped_name(filename: &str, st: &StampVal) -> (r: String)
    requires
        st.wf(),
    ensures
        r@ == stamped_name_of(filename@, *st),
{
    let (stem, ext) = split_stem_ext(filename);
    let mut out = to_chars(stem.as_str());
    out.push('_');
    let ts = compact_stamp(st);
    let a = concat_chars(&out, &ts);
    let ev = to_chars(ext.as_str());
    let b = concat_chars(&a, &ev);
    proof {
        assert(b@ =~= stamped_name_of(filename@, *st));
    }
    from_chars(&b)
}

/// `visor_processing_<line>_<name>`, the name a file holds inside the
/// quarantine folder.
pub open spec fn quarantine_name_of(line_id: int, name: Seq<char>) -> Seq<char> {
    "visor_processing_"@ + dec_signed_of(line_id) + seq!['_'] + name
}

/// Build the quarantine name of a file.
pub fn quarantine_name(line_id: i64, filename: &str) -> (r: String)
    ensures
        r@ == quarantine_name_of(line_id as int, filename@),
{
    let head = to_chars("visor_processing_");
    let num = i64_dec(line_id);
    let mut a = concat_chars(&head, &num);
    a.push('_');
    let nv = to_chars(filename);
    let b = concat_chars(&a, &nv);
    proof {
        assert(b@ =~= quarantine_name_of(line_id as int, filename@));
    }
    from_chars(&b)
}

/// One mapped row matches one parsed record under the mapping list.
pub open spec fn mapped_row_ok(
    out: Seq<(String, String)>,
    rec: Seq<Seq<char>>,
    ms: Seq<MappingRow>,
    lc: Option<LineConfig>,
    now: StampVal,
) -> bool {
    out.len() == ms.len() && forall|i: int| 0 <= i < ms.len() ==> (#[trigger] out[i]).0@
        == ms[i].sql_field@ && out[i].1@ == entry_value_of(rec, ms[i], lc, now)
}

/// The message earned by a format with no mapping rows.
pub open spec fn no_mapping_msg_of(format_name: Seq<char>) -> Seq<char> {
    "Aucun mapping configur\u{e9} pour le mod\u{e8}le "@ + ascii_upper_of(format_name)
}

/// The rows of a file mapped, and the error the parse-and-map stage
/// settles on, if any.
pub struct MapOutcome {
    pub mapped: Vec<Vec<(String, String)>>,
    pub error: Option<String>,
}

/// Parse a decoded file and map every row.  An empty file is an error; so
/// is a format with no mapping rows.
pub fn map_file_rows(
    content: &str,
    mappings: &Vec<MappingRow>,
    line_config: &Option<LineConfig>,
    format_name: &str,
    now: &StampVal,
) -> (r: MapOutcome)
    requires
        now.wf(),
    ensures
        r.mapped@.len() == records_of(content@).len(),
        forall|k: int| 0 <= k < r.mapped@.len() ==> mapped_row_ok(
            (#[trigger] r.mapped@[k])@,
            records_of(content@)[k],
            mappings@,
            *line_config,
            *now,
        ),
        match r.error {
            Some(e) => if records_of(content@).len() == 0 {
                e@ == "Fichier vide ou format invalide"@
            } else {
                mappings@.len() == 0 && e@ == no_mapping_msg_of(format_name@)
            },
            None => records_of(content@).len() > 0 && mappings@.len() > 0,
        },
{
    let rows = parse_records(content);
    let mut mapped: Vec<Vec<(String, String)>> = Vec::new();
    let mut k: usize = 0;
    while k < rows.len()
        invariant
            k <= rows@.len(),
            now.wf(),
            rows.deep_view() == records_of(content@),
            mapped@.len() == k as int,
            forall|j: int| 0 <= j < k ==> mapped_row_ok(
                (#[trigger] mapped@[j])@,
                records_of(content@)[j],
                mappings@,
                *line_config,
                *now,
            ),
        decreases rows@.len() - k,
    {
        proof {
            assert(rows.deep_view()[k as int] == rows@[k as int].deep_view());
        }
        let row = map_record_with_mappings_and_params(&rows[k], mappings, line_config, now);
        mapped.push(row);
        k = k + 1;
    }
    let error: Option<String> = if rows.len() == 0 {
        Some(String::from_str("Fichier vide ou format invalide"))
    } else if mappings.len() == 0 {
        let head = to_chars("Aucun mapping configur\u{e9} pour le mod\u{e8}le ");
        let up = ascii_upper(&to_chars(format_name));
        let msg = concat_chars(&head, &up);
        Some(from_chars(&msg))
    } else {
        None
    };
    MapOutcome { mapped, error }
}

/// One row's parameter list is the template's column order bound against
/// the mapped row, or the mapping order when the template does not parse.
pub open spec fn row_params_ok(
    params: Seq<String>,
    q: Seq<char>,
    ms: Seq<MappingRow>,
    entries: Seq<(String, String)>,
) -> bool {
    if crate::emitter::insert_cols_of(q).len() > 0 {
        params.len() == crate::emitter::insert_cols_of(q).len() && forall|i: int|
            0 <= i < params.len() ==> (#[trigger] params[i])@ == crate::emitter::bound_param_of(
                entries,
                crate::emitter::insert_cols_of(q)[i],
            )
    } else {
        params.len() == ms.len() && forall|i: int| 0 <= i < params.len() ==> (
        #[trigger] params[i])@ == crate::emitter::bound_param_of(entries, ms[i].sql_field@)
    }
}

/// Everything a file yields before any connection is opened: the mapped
/// rows, the per-row parameter lists, and the parse-stage error, if any.
pub struct FilePreparation {
    pub mapped: Vec<Vec<(String, String)>>,
    pub row_params: Vec<Vec<String>>,
    pub error: Option<String>,
}

/// Run one file's bytes through decoding, parsing, mapping and parameter
/// binding: the whole compute phase ahead of the database connection.
pub fn prepare_file(
    bytes: &Vec<u8>,
    mappings: &Vec<MappingRow>,
    line_config: &Option<LineConfig>,
    format_name: &str,
    query: &str,
    now: &StampVal,
) -> (r: FilePreparation)
    requires
        now.wf(),
    ensures
        ({
            let rows = records_of(crate::decode::decoded_of(bytes@));
            &&& r.mapped@.len() == rows.len()
            &&& forall|k: int| 0 <= k < r.mapped@.len() ==> mapped_row_ok(
                (#[trigger] r.mapped@[k])@,
                rows[k],
                mappings@,
                *line_config,
                *now,
            )
            &&& r.row_params@.len() == rows.len()
            &&& forall|k: int| 0 <= k < r.row_params@.len() ==> row_params_ok(
                (#[trigger] r.row_params@[k])@,
                query@,
                mappings@,
                r.mapped@[k]@,
            )
            &&& match r.error {
                Some(e) => if rows.len() == 0 {
                    e@ == "Fichier vide ou format invalide"@
                } else {
                    mappings@.len() == 0 && e@ == no_mapping_msg_of(format_name@)
                },
                None => rows.len() > 0 && mappings@.len() > 0,
            }
        }),
{
    let content = crate::decode::decode_bytes(bytes);
    let outcome = map_file_rows(content.as_str(), mappings, line_config, format_name, now);
    let mut row_params: Vec<Vec<String>> = Vec::new();
    let mut k: usize = 0;
    while k < outcome.mapped.len()
        invariant
            k <= outcome.mapped@.len(),
            row_params@.len() == k as int,
            forall|j: int| 0 <= j < k ==> row_params_ok(
                (#[trigger] row_params@[j])@,
                query@,
                mappings@,
                outcome.mapped@[j]@,
            ),
        decreases outcome.mapped@.len() - k,
    {
        let params = crate::emitter::build_row_params(query, mappings, &outcome.mapped[k]);
        row_params.push(params);
        k = k + 1;
    }
    FilePreparation { mapped: outcome.mapped, row_params, error: outcome.error }
}

/// How one file's processing ended: the rows were accepted, the database
/// connection failed (worth a retry), the database refused a row, or the
/// file never reached the database.
pub enum EmitOutcome {
    Success,
    SqlTransient(String),
    SqlPermanent(String),
    Invalid(String),
}

/// What happens to the quarantined copy of the file.
pub enum FileAction {
    RestoreToSource,
    ArchiveAs(String),
    RejectAs(String),
    Delete,
}

/// The full disposition of one processed file.
pub struct DispositionPlan {
    /// The one move the caller makes with the quarantined copy.
    pub action: FileAction,
    /// Whether a production-data row is appended for this attempt.
    pub record_production: bool,
    /// The status of that row, and of the line: `MARCHE` on true,
    /// `ERREUR` on false.
    pub success: bool,
    /// A transient failure logs a warning and nothing more.
    pub warning_only: bool,
}

/// Decide the disposition of a processed file.
///
/// Success archives under the stamped name when an archive folder is set,
/// else deletes the quarantined copy, and appends a successful
/// production-data row: no successfully processed file stays at its source
/// path.  A transient failure restores the file to its source path for the
/// next sweep and appends nothing.  Every other failure (and a transient
/// one whose restore failed) rejects under the stamped name when a reject
/// folder is set, else deletes, and appends a failed production-data row.
pub fn plan_disposition(
    outcome: &EmitOutcome,
    restore_failed: bool,
    archived_path: &Option<String>,
    rejected_path: &Option<String>,
    filename: &str,
    st: &StampVal,
) -> (r: DispositionPlan)
    requires
        st.wf(),
    ensures
        outcome is Success ==> r.success && r.record_production && !r.warning_only && (match (
            r.action,
            archived_path,
        ) {
            (FileAction::ArchiveAs(dest), Some(_)) => dest@ == stamped_name_of(filename@, *st),
            (FileAction::Delete, None) => true,
            _ => false,
        }),
        outcome is SqlTransient && !restore_failed ==> r.action is RestoreToSource
            && !r.record_production && !r.success && r.warning_only,
        (outcome is SqlPermanent || outcome is Invalid || (outcome is SqlTransient
            && restore_failed)) ==> !r.success && r.record_production && !r.warning_only && (match (
            r.action,
            rejected_path,
        ) {
            (FileAction::RejectAs(dest), Some(_)) => dest@ == stamped_name_of(filename@, *st),
            (FileAction::Delete, None) => true,
            _ => false,
        }),
{
    match outcome {
        EmitOutcome::Success => {
            let action = match archived_path {
                Some(_) => FileAction::ArchiveAs(stamped_name(filename, st)),
                None => FileAction::Delete,
            };
            DispositionPlan { action, record_production: true, success: true, warning_only: false }
        },
        EmitOutcome::SqlTransient(_) if !restore_failed => DispositionPlan {
            action: FileAction::RestoreToSource,
            record_production: false,
            success: false,
            warning_only: true,
        },
        _ => {
            let action = match rejected_path {
                Some(_) => FileAction::RejectAs(stamped_name(filename, st)),
                None => FileAction::Delete,
            };
            DispositionPlan { action, record_production: true, success: false, warning_only: false }
        },
    }
}

/// The log message of a successful disposition.
pub open spec fn success_msg_of(filename: Seq<char>, rows: int) -> Seq<char> {
    "Fichier "@ + filename + " trait\u{e9} avec succ\u{e8}s - "@ + crate::numfmt::dec_of(rows)
        + " enregistrements"@
}

/// Build the success log message.
pub fn success_log_msg(filename: &str, rows: usize) -> (r: String)
    ensures
        r@ == success_msg_of(filename@, rows as int),
{
    let head = to_chars("Fichier ");
    let fv = to_chars(filename);
    let a = concat_chars(&head, &fv);
    let mid = to_chars(" trait\u{e9} avec succ\u{e8}s - ");
    let b = concat_chars(&a, &mid);
    let num = crate::numfmt::u64_dec(rows as u64);
    let c = concat_chars(&b, &num);
    let suffix = to_chars(" enregistrements");
    let d = concat_chars(&c, &suffix);
    proof {
        assert(d@ =~= success_msg_of(filename@, rows as int));
    }
    from_chars(&d)
}

/// The log message of a failed disposition.
pub open spec fn failure_msg_of(filename: Seq<char>, err: Seq<char>) -> Seq<char> {
    "\u{c9}chec traitement "@ + filename + ": "@ + err
}

/// Build the failure log message.
pub fn failure_log_msg(filename: &str, err: &str) -> (r: String)
    ensures
        r@ == failure_msg_of(filename@, err@),
{
    let head = to_chars("\u{c9}chec traitement ");
    let fv = to_chars(filename);
    let a = concat_chars(&head, &fv);
    let mid = to_chars(": ");
    let b = concat_chars(&a, &mid);
    let ev = to_chars(err);
    let c = concat_chars(&b, &ev);
    proof {
        assert(c@ =~= failure_msg_of(filename@, err@));
    }
    from_chars(&c)
}

/// The warning logged when a transient failure sends a file back.
pub open spec fn transient_msg_of(err: Seq<char>) -> Seq<char> {
    "Erreur connexion SQL (fichier report\u{e9}) : "@ + err
}

/// Build the transient-failure warning message.
pub fn transient_warn_msg(err: &str) -> (r: String)
    ensures
        r@ == transient_msg_of(err@),
{
    let head = to_chars("Erreur connexion SQL (fichier report\u{e9}) : ");
    let ev = to_chars(err);
    let a = concat_chars(&head, &ev);
    proof {
        assert(a@ =~= transient_msg_of(err@));
    }
    from_chars(&a)
}

/// The error logged when a permanent database failure rejects a file.
pub open spec fn permanent_msg_of(filename: Seq<char>, err: Seq<char>) -> Seq<char> {
    "Erreur SQL Server pour "@ + filename + ": "@ + err
}

/// Build the permanent-failure error message.
pub fn permanent_sql_msg(filename: &str, err: &str) -> (r: String)
    ensures
        r@ == permanent_msg_of(filename@, err@),
{
    let head = to_chars("Erreur SQL Server pour ");
    let fv = to_chars(filename);
    let a = concat_chars(&head, &fv);
    let mid = to_chars(": ");
    let b = concat_chars(&a, &mid);
    let ev = to_chars(err);
    let c = concat_chars(&b, &ev);
    proof {
        assert(c@ =~= permanent_msg_of(filename@, err@));
    }
    from_chars(&c)
}

/// The line state written after a terminal disposition.
pub fn line_state_of(success: bool) -> (r: String)
    ensures
        success ==> r@ == "MARCHE"@,
        !success ==> r@ == "ERREUR"@,
{
    if success {
        String::from_str("MARCHE")
    } else {
        String::from_str("ERREUR")
    }
}

/// The escape of one character inside a JSON string.
pub open spec fn json_escape_char(c: char) -> Seq<char> {
    if c == '"' {
        seq!['\\', '"']
    } else if c == '\\' {
        seq!['\\', '\\']
    } else if c == '\u{8}' {
        seq!['\\', 'b']
    } else if c == '\u{c}' {
        seq!['\\', 'f']
    } else if c == '\n' {
        seq!['\\', 'n']
    } else if c == '\r' {
        seq!['\\', 'r']
    } else if c == '\t' {
        seq!['\\', 't']
    } else if (c as u32) < 0x20 {
        let u = (c as u32) as int;
        seq!['\\', 'u', '0', '0'] + seq![hex_char_of(u / 16)] + seq![hex_char_of(u % 16)]
    } else {
        seq![c]
    }
}

/// A lowercase hexadecimal digit.
pub open spec fn hex_char_of(d: int) -> char {
    if d < 10 {
        digit_char_of(d)
    } else if d == 10 { 'a' } else if d == 11 { 'b' } else if d == 12 { 'c' }
    else if d == 13 { 'd' } else if d == 14 { 'e' } else { 'f' }
}

/// A string's characters escaped for JSON.
pub open spec fn json_escaped(s: Seq<char>) -> Seq<char>
    decreases s.len(),
{
    if s.len() == 0 {
        Seq::empty()
    } else {
        json_escaped(s.drop_last()) + json_escape_char(s.last())
    }
}

/// A JSON string literal.
pub open spec fn json_str_of(s: Seq<char>) -> Seq<char> {
    seq!['"'] + json_escaped(s) + seq!['"']
}

fn hex_char(d: u32) -> (r: char)
    requires
        d < 16,
    ensures
        r == hex_char_of(d as int),
{
    if d < 10 {
        digit_to_char(d as u64)
    } else if d == 10 { 'a' } else if d == 11 { 'b' } else if d == 12 { 'c' }
    else if d == 13 { 'd' } else if d == 14 { 'e' } else { 'f' }
}

/// Append a JSON string literal for `s` onto `out`.
fn push_json_str(out: &mut Vec<char>, s: &str)
    ensures
        final(out)@ == old(out)@ + json_str_of(s@),
{
    let v = to_chars(s);
    out.push('"');
    let mut i: usize = 0;
    while i < v.len()
        invariant
            i <= v@.len(),
            v@ == s@,
            out@ == old(out)@ + seq!['"'] + json_escaped(v@.take(i as int)),
        decreases v@.len() - i,
    {
        proof {
            assert(v@.take(i + 1).drop_last() =~= v@.take(i as int));
            assert(v@.take(i + 1).last() == v@[i as int]);
        }
        let c = v[i];
        if c == '"' {
            out.push('\\');
            out.push('"');
        } else if c == '\\' {
            out.push('\\');
            out.push('\\');
        } else if c == '\u{8}' {
            out.push('\\');
            out.push('b');
        } else if c == '\u{c}' {
            out.push('\\');
            out.push('f');
        } else if c == '\n' {
            out.push('\\');
            out.push('n');
        } else if c == '\r' {
            out.push('\\');
            out.push('r');
        } else if c == '\t' {
            out.push('\\');
            out.push('t');
        } else if (c as u32) < 0x20 {
            out.push('\\');
            out.push('u');
            out.push('0');
            out.push('0');
            out.push(hex_char((c as u32) / 16));
            out.push(hex_char((c as u32) % 16));
        } else {
            out.push(c);
        }
        proof {
            assert(out@ =~= old(out)@ + seq!['"'] + json_escaped(v@.take(i + 1)));
        }
        i = i + 1;
    }
    proof {
        assert(v@.take(v@.len() as int) =~= v@);
    }
    out.push('"');
    proof {
        assert(out@ =~= old(out)@ + json_str_of(s@));
    }
}

/// The JSON object of a mapped row, its entries in mapping order.
pub open spec fn json_row_of(entries: Seq<(String, String)>) -> Seq<char>
    decreases entries.len(),
{
    if entries.len() == 0 {
        "{}"@
    } else if entries.len() == 1 {
        seq!['{'] + json_str_of(entries[0].0@) + seq![':'] + json_str_of(entries[0].1@) + seq!['}']
    } else {
        json_row_of(entries.drop_last()).drop_last() + seq![','] + json_str_of(
            entries.last().0@,
        ) + seq![':'] + json_str_of(entries.last().1@) + seq!['}']
    }
}

/// The production-data message of one attempt: the JSON object holding
/// the error text, the row count and the first mapped row, in that key
/// order.
pub open spec fn production_message_of(
    rows: int,
    sample: Option<Seq<(String, String)>>,
    err: Option<Seq<char>>,
) -> Seq<char> {
    "{\"error\":"@ + (match err {
        Some(e) => json_str_of(e),
        None => "null"@,
    }) + ",\"rows\":"@ + crate::numfmt::dec_of(rows) + ",\"sample\":"@ + (match sample {
        Some(s) => json_row_of(s),
        None => "null"@,
    }) + seq!['}']
}

/// Build the production-data message for one attempt.
pub fn production_message(
    rows: usize,
    sample: &Option<Vec<(String, String)>>,
    err: &Option<String>,
) -> (r: String)
    ensures
        r@ == production_message_of(
            rows as int,
            match sample {
                Some(s) => Some(s@),
                None => None,
            },
            match err {
                Some(e) => Some(e@),
                None => None,
            },
        ),
{
    let mut out = to_chars("{\"error\":");
    match err {
        Some(e) => {
            push_json_str(&mut out, e.as_str());
        },
        None => {
            let nl = to_chars("null");
            let merged = concat_chars(&out, &nl);
            out = merged;
        },
    }
    let comma_rows = to_chars(",\"rows\":");
    let a = concat_chars(&out, &comma_rows);
    let num = crate::numfmt::u64_dec(rows as u64);
    let b = concat_chars(&a, &num);
    let comma_sample = to_chars(",\"sample\":");
    let mut c = concat_chars(&b, &comma_sample);
    match sample {
        Some(s) => {
            push_json_row(&mut c, s);
        },
        None => {
            let nl = to_chars("null");
            let merged = concat_chars(&c, &nl);
            c = merged;
        },
    }
    c.push('}');
    proof {
        assert(c@ =~= production_message_of(
            rows as int,
            match sample {
                Some(s) => Some(s@),
                None => None::<Seq<(String, String)>>,
            },
            match err {
                Some(e) => Some(e@),
                None => None::<Seq<char>>,
            },
        ));
    }
    from_chars(&c)
}

/// Append the JSON object of a mapped row onto `out`.
fn push_json_row(out: &mut Vec<char>, entries: &Vec<(String, String)>)
    ensures
        final(out)@ == old(out)@ + json_row_of(entries@),
{
    if entries.len() == 0 {
        out.push('{');
        out.push('}');
        proof {
            reveal_strlit("{}");
            assert(out@ =~= old(out)@ + json_row_of(entries@));
        }
        return ;
    }
    out.push('{');
    let mut i: usize = 0;
    while i < entries.len()
        invariant
            i <= entries@.len(),
            entries@.len() > 0,
            i > 0 ==> out@ == old(out)@ + json_row_of(entries@.take(i as int)).drop_last(),
            i == 0 ==> out@ == old(out)@ + seq!['{'],
        decreases entries@.len() - i,
    {
        if i > 0 {
            out.push(',');
        }
        let e = &entries[i];
        push_json_str(out, e.0.as_str());
        out.push(':');
        push_json_str(out, e.1.as_str());
        proof {
            let t = entries@.take(i + 1);
            assert(t.drop_last() =~= entries@.take(i as int));
            assert(t.last() == entries@[i as int]);
            if i == 0 {
                if entries@.len() == 1 && i + 1 == entries@.len() {
                }
                assert(json_row_of(t) == seq!['{'] + json_str_of(t[0].0@) + seq![':']
                    + json_str_of(t[0].1@) + seq!['}']);
                assert(out@ =~= old(out)@ + json_row_of(t).drop_last());
            } else {
                assert(json_row_of(t) == json_row_of(t.drop_last()).drop_last() + seq![',']
                    + json_str_of(t.last().0@) + seq![':'] + json_str_of(t.last().1@) + seq!['}']);
                assert(out@ =~= old(out)@ + json_row_of(t).drop_last());
            }
        }
        i = i + 1;
    }
    out.push('}');
    proof {
        assert(entries@.take(entries@.len() as int) =~= entries@);
        assert(out@ =~= old(out)@ + json_row_of(entries@));
    }
}

} // verus!
