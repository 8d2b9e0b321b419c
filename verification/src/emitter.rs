//! The SQL emitter's logic: reading the column order out of a template
//! INSERT, binding a mapped row to it, the preflight checks, and the
//! transient / permanent classification of database errors.
//!
//! Opening the connection and executing the statements is network work and
//! stays with the caller; `EmitSession` records what that caller did, one
//! call per row, so the per-file outcome is pinned down.

use vstd::prelude::*;
use crate::text::{
    ascii_lower_of, ascii_lower, to_chars, from_chars, trim_of, trim_chars, strip_char_of,
    strip_char, split_of, split_chars, sub_chars, has_sub, contains_sub, match_at, sub_idx,
    lemma_sub_idx, find_sub, find_char,
};
use crate::transforms::{first_idx, lemma_first_idx};
use crate::mapping::{MappingRow, lookup_of, lookup_value, opt_str};

verus! {

/// The stored connection settings of the target database.
#[derive(Debug, Clone)]
pub struct SqlServerConfig {
    pub id: i64,
    pub server: Option<String>,
    pub database: Option<String>,
    pub username: Option<String>,
    pub password: Option<String>,
    pub enabled: bool,
}

/// One stored query template, keyed by format name.
#[derive(Debug, Clone)]
pub struct SqlQuery {
    pub id: i64,
    pub format_name: String,
    pub query_template: String,
}

/// A column name as the template parser cleans it: trimmed, square
/// brackets stripped, trimmed again.
pub open spec fn clean_col_of(s: Seq<char>) -> Seq<char> {
    trim_of(strip_char_of(strip_char_of(trim_of(s), '['), ']'))
}

/// The cleaned, nonempty column names of a comma-separated segment.
pub open spec fn cols_from(parts: Seq<Seq<char>>) -> Seq<Seq<char>>
    decreases parts.len(),
{
    if parts.len() == 0 {
        Seq::empty()
    } else {
        let rest = cols_from(parts.drop_last());
        let c = clean_col_of(parts.last());
        if c.len() > 0 {
            rest.push(c)
        } else {
            rest
        }
    }
}

/// The ordered column list between the INSERT's opening parenthesis and
/// its `) VALUES`, matched without regard to case; anything malformed
/// yields the empty list.
pub open spec fn insert_cols_of(q: Seq<char>) -> Seq<Seq<char>> {
    let low = ascii_lower_of(q);
    let ip = sub_idx(low, "insert"@);
    if ip < 0 {
        Seq::empty()
    } else {
        let op = first_idx(q.skip(ip), '(');
        let vp = sub_idx(low, ") values"@);
        if op < 0 || vp < 0 {
            Seq::empty()
        } else {
            let open = ip + op;
            if vp <= open {
                Seq::empty()
            } else {
                cols_from(split_of(q.subrange(open + 1, vp), ','))
            }
        }
    }
}

/// Read the ordered destination-column list out of a template INSERT.
pub fn parse_insert_columns(query: &str) -> (r: Vec<String>)
    ensures
        r.deep_view() == insert_cols_of(query@),
{
    let q = to_chars(query);
    let low = ascii_lower(&q);
    let needle_insert = to_chars("insert");
    let needle_values = to_chars(") values");
    let ip: usize = match find_sub(&low, &needle_insert) {
        Some(i) => {
            proof {
                lemma_sub_idx(low@, "insert"@);
            }
            i
        },
        None => {
            proof {
                lemma_sub_idx(low@, "insert"@);
                if sub_idx(low@, "insert"@) >= 0 {
                    assert(match_at(low@, "insert"@, sub_idx(low@, "insert"@)));
                }
            }
            return Vec::new();
        },
    };
    proof {
        assert(sub_idx(low@, "insert"@) == ip as int);
    }
    let n: usize = q.len();
    let tail = sub_chars(&q, ip, n);
    proof {
        assert(tail@ =~= q@.skip(ip as int));
    }
    let op: usize = match find_char(&tail, '(') {
        Some(i) => {
            proof {
                lemma_first_idx(tail@, '(');
            }
            i
        },
        None => {
            proof {
                lemma_first_idx(tail@, '(');
                if first_idx(tail@, '(') >= 0 {
                    assert(tail@[first_idx(tail@, '(')] == '(');
                }
            }
            return Vec::new();
        },
    };
    proof {
        assert(first_idx(q@.skip(ip as int), '(') == op as int);
    }
    let vp: usize = match find_sub(&low, &needle_values) {
        Some(i) => {
            proof {
                lemma_sub_idx(low@, ") values"@);
            }
            i
        },
        None => {
            proof {
                lemma_sub_idx(low@, ") values"@);
                if sub_idx(low@, ") values"@) >= 0 {
                    assert(match_at(low@, ") values"@, sub_idx(low@, ") values"@)));
                }
            }
            return Vec::new();
        },
    };
    proof {
        assert(sub_idx(low@, ") values"@) == vp as int);
    }
    let open: usize = ip + op;
    if vp <= open {
        return Vec::new();
    }
    proof {
        assert(open + 1 <= vp);
        assert(vp <= low@.len());
        assert(q@.len() == low@.len());
    }
    let seg = sub_chars(&q, open + 1, vp);
    let parts = split_chars(&seg, ',');
    let mut out: Vec<String> = Vec::new();
    let mut i: usize = 0;
    proof {
        assert(parts.deep_view().take(0) =~= Seq::<Seq<char>>::empty());
        assert(out.deep_view() =~~= cols_from(parts.deep_view().take(0)));
    }
    while i < parts.len()
        invariant
            i <= parts@.len(),
            parts.deep_view() == split_of(q@.subrange(
                sub_idx(ascii_lower_of(q@), "insert"@) + first_idx(
                    q@.skip(sub_idx(ascii_lower_of(q@), "insert"@)),
                    '(',
                ) + 1,
                sub_idx(ascii_lower_of(q@), ") values"@),
            ), ','),
            out.deep_view() == cols_from(parts.deep_view().take(i as int)),
        decreases parts@.len() - i,
    {
        proof {
            assert(parts.deep_view().take(i + 1).drop_last() =~= parts.deep_view().take(i as int));
            assert(parts.deep_view().take(i + 1).last() == parts.deep_view()[i as int]);
            assert(parts.deep_view()[i as int] == parts@[i as int]@);
        }
        let cleaned_a = trim_chars(&parts[i]);
        let cleaned_b = strip_char(&cleaned_a, '[');
        let cleaned_c = strip_char(&cleaned_b, ']');
        let cleaned = trim_chars(&cleaned_c);
        if cleaned.len() > 0 {
            out.push(from_chars(&cleaned));
            proof {
                assert(out.deep_view() =~~= cols_from(parts.deep_view().take(i + 1)));
            }
        } else {
            proof {
                assert(out.deep_view() =~~= cols_from(parts.deep_view().take(i + 1)));
            }
        }
        i = i + 1;
    }
    proof {
        assert(parts.deep_view().take(parts.deep_view().len() as int) =~= parts.deep_view());
    }
    out
}

/// The built-in template INSERT of the ATEIS format.
pub fn default_ateis_query() -> (r: String)
    ensures
        r@ == "INSERT INTO ITHRI.YINTDECL (\n    YSSCC_0, \n    YDATE_0, \n    YHEURE_0,     \n    ITMREF_0, \n    LOT_0, \n    QTY_0,\n    YDATDL_0, \n    YNLIGN_0,\n    MFGNUM_0, \n    YCODEPOT_0,\n    YPALETTE_0,\n    YINTERCAL_0,\n    FCY_0, \n    UOM_0,\n    YFLGDEC_0, \n    CREUSR_0,\n    CREDATTIM_0,\n    UPDDATTIM_0 \n  \n) VALUES (\n    @P1, \n    @P2,\n    @P3,  \n    @P4,\n    @P5, \n    @P6, \n    @P7,\n    @P8,\n    @P9, \n    @P10, \n    @P11, \n    @P12, \n    @P13, \n    @P14, \n    @P15,\n    @P16,\n    @P17, \n    getdate()\n)"@,
{
    String::from_str("INSERT INTO ITHRI.YINTDECL (\n    YSSCC_0, \n    YDATE_0, \n    YHEURE_0,     \n    ITMREF_0, \n    LOT_0, \n    QTY_0,\n    YDATDL_0, \n    YNLIGN_0,\n    MFGNUM_0, \n    YCODEPOT_0,\n    YPALETTE_0,\n    YINTERCAL_0,\n    FCY_0, \n    UOM_0,\n    YFLGDEC_0, \n    CREUSR_0,\n    CREDATTIM_0,\n    UPDDATTIM_0 \n  \n) VALUES (\n    @P1, \n    @P2,\n    @P3,  \n    @P4,\n    @P5, \n    @P6, \n    @P7,\n    @P8,\n    @P9, \n    @P10, \n    @P11, \n    @P12, \n    @P13, \n    @P14, \n    @P15,\n    @P16,\n    @P17, \n    getdate()\n)")
}

/// The built-in template INSERT of the LOGITRON format.
pub fn default_logitron_query() -> (r: String)
    ensures
        r@ == "INSERT INTO ITHRI.YINTDECL (\n    YSSCC_0, \n    YDATE_0, \n    YHEURE_0, \n    CREDATTIM_0,      \n    ITMREF_0, \n    LOT_0, \n    QTY_0,\n    YDATDL_0, \n    YNLIGN_0,\n    MFGNUM_0, \n    YCODEPOT_0,\n    YPALETTE_0,\n    YINTERCAL_0,\n    FCY_0, \n    UOM_0,\n    YFLGDEC_0, \n    CREUSR_0,\n    UPDDATTIM_0 \n  \n) VALUES (\n    @P1, \n    @P2,\n    @P3,  \n    @P4,\n    @P5, \n    @P6, \n    @P7,\n    @P8,\n    @P9, \n    @P10, \n    @P11, \n    @P12, \n    @P13, \n    @P14, \n    @P15,\n    @P16,\n    @P17, getdate()\n)"@,
{
    String::from_str("INSERT INTO ITHRI.YINTDECL (\n    YSSCC_0, \n    YDATE_0, \n    YHEURE_0, \n    CREDATTIM_0,      \n    ITMREF_0, \n    LOT_0, \n    QTY_0,\n    YDATDL_0, \n    YNLIGN_0,\n    MFGNUM_0, \n    YCODEPOT_0,\n    YPALETTE_0,\n    YINTERCAL_0,\n    FCY_0, \n    UOM_0,\n    YFLGDEC_0, \n    CREUSR_0,\n    UPDDATTIM_0 \n  \n) VALUES (\n    @P1, \n    @P2,\n    @P3,  \n    @P4,\n    @P5, \n    @P6, \n    @P7,\n    @P8,\n    @P9, \n    @P10, \n    @P11, \n    @P12, \n    @P13, \n    @P14, \n    @P15,\n    @P16,\n    @P17, getdate()\n)")
}

/// The stand-alone connection test's own precheck: a blank server is
/// reported without touching the network; anything else is for the
/// caller's connection attempt to decide.
pub fn connection_test_precheck(cfg: &SqlServerConfig) -> (r: Option<
    crate::types::ConnectionTestResult,
>)
    ensures
        match r {
            Some(t) => blank_opt(cfg.server) && !t.success && (t.error matches Some(e) && e@
                == "Serveur SQL Server manquant"@),
            None => !blank_opt(cfg.server),
        },
{
    if opt_blank_exec(&cfg.server) {
        Some(
            crate::types::ConnectionTestResult {
                success: false,
                error: Some(String::from_str("Serveur SQL Server manquant")),
            },
        )
    } else {
        None
    }
}

/// The value bound for one column: the mapped value, or empty when the
/// column is not mapped.
pub open spec fn bound_param_of(entries: Seq<(String, String)>, col: Seq<char>) -> Seq<char> {
    match lookup_of(entries, col) {
        Some(v) => v,
        None => Seq::empty(),
    }
}

/// Bind one mapped row to the template's column order.
pub fn build_param_values_from_query(query: &str, mapped: &Vec<(String, String)>) -> (r: Vec<
    String,
>)
    ensures
        r@.len() == insert_cols_of(query@).len(),
        forall|i: int| 0 <= i < r@.len() ==> (#[trigger] r@[i])@ == bound_param_of(
            mapped@,
            insert_cols_of(query@)[i],
        ),
{
    let cols = parse_insert_columns(query);
    let mut out: Vec<String> = Vec::new();
    let mut i: usize = 0;
    while i < cols.len()
        invariant
            i <= cols@.len(),
            cols.deep_view() == insert_cols_of(query@),
            out@.len() == i as int,
            forall|j: int| 0 <= j < i ==> (#[trigger] out@[j])@ == bound_param_of(
                mapped@,
                insert_cols_of(query@)[j],
            ),
        decreases cols@.len() - i,
    {
        proof {
            assert(cols.deep_view()[i as int] == cols@[i as int]@);
        }
        let v: String = match lookup_value(mapped, cols[i].as_str()) {
            Some(s) => s,
            None => String::new(),
        };
        out.push(v);
        i = i + 1;
    }
    out
}

/// The parameter list for one row: the template's column order when the
/// template parses, else the mapping declaration order.
pub fn build_row_params(
    query: &str,
    mappings: &Vec<MappingRow>,
    mapped: &Vec<(String, String)>,
) -> (r: Vec<String>)
    ensures
        insert_cols_of(query@).len() > 0 ==> r@.len() == insert_cols_of(query@).len() && forall|
            i: int,
        |
            0 <= i < r@.len() ==> (#[trigger] r@[i])@ == bound_param_of(
                mapped@,
                insert_cols_of(query@)[i],
            ),
        insert_cols_of(query@).len() == 0 ==> r@.len() == mappings@.len() && forall|i: int|
            0 <= i < r@.len() ==> (#[trigger] r@[i])@ == bound_param_of(
                mapped@,
                mappings@[i].sql_field@,
            ),
{
    let params = build_param_values_from_query(query, mapped);
    if params.len() > 0 {
        return params;
    }
    let mut out: Vec<String> = Vec::new();
    let mut i: usize = 0;
    while i < mappings.len()
        invariant
            i <= mappings@.len(),
            out@.len() == i as int,
            forall|j: int| 0 <= j < i ==> (#[trigger] out@[j])@ == bound_param_of(
                mapped@,
                mappings@[j].sql_field@,
            ),
        decreases mappings@.len() - i,
    {
        let v: String = match lookup_value(mapped, mappings[i].sql_field.as_str()) {
            Some(s) => s,
            None => String::new(),
        };
        out.push(v);
        i = i + 1;
    }
    out
}

/// What the standard library's `str::to_lowercase` returns on this text.
pub uninterp spec fn lower_of(s: Seq<char>) -> Seq<char>;

/// Relies on the standard library's `str::to_lowercase`; the result
/// depends on the characters alone.
#[verifier::external_body]
fn lowercase(s: &str) -> (r: String)
    ensures
        r@ == lower_of(s@),
{
    s.to_lowercase()
}

/// A lowercased error text that names a connection-level failure: the
/// fixed keyword list of the transient classification.
pub open spec fn transient_text(l: Seq<char>) -> bool {
    ||| has_sub(l, "login failed"@)
    ||| has_sub(l, "\u{e9}chec de l'ouverture de session"@)
    ||| has_sub(l, "impossible d'ouvrir la base de donn\u{e9}es"@)
    ||| has_sub(l, "la connexion a \u{e9}chou\u{e9}"@)
    ||| has_sub(l, "connection"@)
    ||| has_sub(l, "network"@)
    ||| has_sub(l, "refused"@)
    ||| has_sub(l, "timeout"@)
    ||| has_sub(l, "tcp provider"@)
    ||| has_sub(l, "code: 4060"@)
    ||| has_sub(l, "code: 18456"@)
    ||| has_sub(l, "target machine actively refused"@)
}

/// Decide the keyword list against an already-lowercased error text.
pub fn transient_of_lowered(lower: &str) -> (r: bool)
    ensures
        r == transient_text(lower@),
{
    let l = to_chars(lower);
    contains_sub(&l, &to_chars("login failed"))
        || contains_sub(&l, &to_chars("\u{e9}chec de l'ouverture de session"))
        || contains_sub(&l, &to_chars("impossible d'ouvrir la base de donn\u{e9}es"))
        || contains_sub(&l, &to_chars("la connexion a \u{e9}chou\u{e9}"))
        || contains_sub(&l, &to_chars("connection"))
        || contains_sub(&l, &to_chars("network"))
        || contains_sub(&l, &to_chars("refused"))
        || contains_sub(&l, &to_chars("timeout"))
        || contains_sub(&l, &to_chars("tcp provider"))
        || contains_sub(&l, &to_chars("code: 4060"))
        || contains_sub(&l, &to_chars("code: 18456"))
        || contains_sub(&l, &to_chars("target machine actively refused"))
}

/// Classify a database error text: `true` means transient, so the file is
/// restored and retried; `false` means permanent, so it is rejected.
pub fn is_connection_error(msg: &str) -> (r: bool)
    ensures
        r == transient_text(lower_of(msg@)),
{
    let low = lowercase(msg);
    transient_of_lowered(low.as_str())
}

/// An optional string that is empty once trimmed.
pub open spec fn blank_opt(o: Option<String>) -> bool {
    trim_of(opt_str(o)).len() == 0
}

/// What the preflight of an emission decides from the stored settings and
/// the stored template.
pub open spec fn preflight_of(cfg: Option<SqlServerConfig>, template: Option<String>) -> Result<
    Seq<char>,
    Seq<char>,
> {
    match cfg {
        None => Err("SQL Server non configur\u{e9}"@),
        Some(c) => {
            if !c.enabled {
                Err("SQL Server d\u{e9}sactiv\u{e9} (activez la connexion dans Param\u{e8}tres)"@)
            } else if blank_opt(c.server) {
                Err("SQL Server: serveur manquant"@)
            } else if blank_opt(c.username) {
                Err("SQL Server: utilisateur manquant"@)
            } else if blank_opt(c.password) {
                Err("SQL Server: mot de passe manquant"@)
            } else {
                match template {
                    None => Err("Template SQL manquant"@),
                    Some(q) => Ok(q@),
                }
            }
        },
    }
}

fn opt_blank_exec(o: &Option<String>) -> (r: bool)
    ensures
        r == blank_opt(*o),
{
    match o {
        Some(s) => {
            let t = trim_chars(&to_chars(s.as_str()));
            t.len() == 0
        },
        None => {
            proof {
                assert(crate::text::trim_front(Seq::<char>::empty()) == Seq::<char>::empty());
                assert(crate::text::trim_back(Seq::<char>::empty()) == Seq::<char>::empty());
            }
            true
        },
    }
}

/// Check the stored settings and template before any connection is
/// opened: says exactly which error each incomplete configuration earns,
/// and hands the template back when everything is in place.
pub fn emit_preflight(cfg: &Option<SqlServerConfig>, template: &Option<String>) -> (r: Result<
    String,
    String,
>)
    ensures
        match r {
            Ok(q) => preflight_of(*cfg, *template) == Ok::<Seq<char>, Seq<char>>(q@),
            Err(e) => preflight_of(*cfg, *template) == Err::<Seq<char>, Seq<char>>(e@),
        },
{
    let c = match cfg {
        Some(c) => c,
        None => {
            return Err(String::from_str("SQL Server non configur\u{e9}"));
        },
    };
    if !c.enabled {
        return Err(
            String::from_str("SQL Server d\u{e9}sactiv\u{e9} (activez la connexion dans Param\u{e8}tres)"),
        );
    }
    if opt_blank_exec(&c.server) {
        return Err(String::from_str("SQL Server: serveur manquant"));
    }
    if opt_blank_exec(&c.username) {
        return Err(String::from_str("SQL Server: utilisateur manquant"));
    }
    if opt_blank_exec(&c.password) {
        return Err(String::from_str("SQL Server: mot de passe manquant"));
    }
    match template {
        None => Err(String::from_str("Template SQL manquant")),
        Some(q) => Ok(q.clone()),
    }
}

/// The record of one per-file emission: the caller executes the rows in
/// order, one statement per row, recording each call here, and stops at
/// the first failure.
#[derive(Debug, Clone)]
pub struct EmitSession {
    pub total: usize,
    pub executed: usize,
    pub error: Option<String>,
}

impl EmitSession {
    /// Execute calls never outnumber rows, and recording stops at the
    /// first failure.
    pub open spec fn wf(self) -> bool {
        self.executed <= self.total
    }

    /// More rows remain and none has failed.
    pub open spec fn can_execute(self) -> bool {
        self.executed < self.total && self.error is None
    }

    pub fn new(total: usize) -> (r: EmitSession)
        ensures
            r.wf(),
            r.total == total,
            r.executed == 0,
            r.error is None,
    {
        EmitSession { total, executed: 0, error: None }
    }

    /// Record one execute call that the database accepted.
    pub fn record_success(&mut self)
        requires
            old(self).wf(),
            old(self).can_execute(),
        ensures
            final(self).wf(),
            final(self).total == old(self).total,
            final(self).executed == old(self).executed + 1,
            final(self).error is None,
    {
        self.executed = self.executed + 1;
    }

    /// Record one execute call that the database refused; no further row
    /// may be recorded.
    pub fn record_failure(&mut self, e: String)
        requires
            old(self).wf(),
            old(self).can_execute(),
        ensures
            final(self).wf(),
            final(self).total == old(self).total,
            final(self).executed == old(self).executed + 1,
            final(self).error == Some(e),
    {
        self.executed = self.executed + 1;
        self.error = Some(e);
    }

    /// The per-file outcome: success exactly when every row was executed
    /// and none failed.
    pub fn outcome(&self) -> (r: Result<(), String>)
        requires
            self.wf(),
            self.error is Some || self.executed == self.total,
        ensures
            r is Ok <==> (self.error is None && self.executed == self.total),
            self.error matches Some(e) ==> r == Err::<(), String>(e),
    {
        match &self.error {
            Some(e) => Err(e.clone()),
            None => Ok(()),
        }
    }
}

/// How many execute calls a sequential per-row loop makes when it stops at
/// the first failure: every row up to and including the first failed one.
pub open spec fn calls_made(rs: Seq<bool>) -> int
    decreases rs.len(),
{
    if rs.len() == 0 {
        0
    } else if !rs[0] {
        1
    } else {
        1 + calls_made(rs.drop_first())
    }
}

/// A run with no failed call.
pub open spec fn emission_ok(rs: Seq<bool>) -> bool {
    forall|i: int| 0 <= i < rs.len() ==> rs[i]
}

/// A successfully processed file with N rows reached the database with
/// exactly N execute calls, and a failing row stops the run early.
pub proof fn lemma_emission_counts(rs: Seq<bool>)
    ensures
        emission_ok(rs) ==> calls_made(rs) == rs.len(),
        0 <= calls_made(rs) <= rs.len(),
        rs.len() > 0 ==> calls_made(rs) >= 1,
        !emission_ok(rs) ==> !rs[calls_made(rs) - 1] && forall|i: int|
            0 <= i < calls_made(rs) - 1 ==> rs[i],
    decreases rs.len(),
{
    if rs.len() > 0 && rs[0] {
        let d = rs.drop_first();
        lemma_emission_counts(d);
        assert(forall|i: int| 1 <= i < rs.len() ==> rs[i] == d[i - 1]);
        if !emission_ok(rs) {
            let w = choose|i: int| 0 <= i < rs.len() && !(#[trigger] rs[i]);
            assert(!rs[w]);
            assert(w >= 1);
            assert(!d[w - 1]);
            assert(!emission_ok(d));
            assert(!d[calls_made(d) - 1]);
            assert(calls_made(rs) - 1 == calls_made(d));
            assert(d.len() > 0);
            assert(calls_made(d) >= 1);
            assert(rs[calls_made(d)] == d[calls_made(d) - 1]);
            assert(!rs[calls_made(rs) - 1]);
            assert forall|i: int| 0 <= i < calls_made(rs) - 1 implies rs[i] by {
                if i >= 1 {
                    assert(d[i - 1]);
                }
            }
        }
    } else if rs.len() > 0 {
        assert(!rs[0]);
        assert(!emission_ok(rs));
    }
}

} // verus!
