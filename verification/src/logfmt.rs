//! The audit log formats: rolling monthly file names, per-line entries,
//! and the SQL audit entries with their truncated query text.

use vstd::prelude::*;
use crate::text::{to_chars, from_chars, concat_chars, take_at_most, take_chars};
use crate::timedate::{DateVal, StampVal, month_tag_of, month_tag, iso_stamp_of, iso_stamp};

verus! {

/// One audit log row as stored.
#[derive(Debug, Clone)]
pub struct LogEntry {
    pub id: i64,
    pub line_id: Option<i64>,
    pub level: String,
    pub source: Option<String>,
    pub message: String,
    pub details: Option<String>,
    pub created_at: String,
}

/// `<line>_YYYYMM.log`, or `<line>_sql_YYYYMM.log` for the SQL audit.
pub open spec fn log_file_name_of(line_name: Seq<char>, d: DateVal, sql: bool) -> Seq<char> {
    line_name + (if sql {
        "_sql_"@
    } else {
        "_"@
    }) + month_tag_of(d) + ".log"@
}

/// Build the name of a line's rolling monthly log file.
pub fn log_file_name(line_name: &str, d: &DateVal, sql: bool) -> (r: String)
    requires
        d.wf(),
    ensures
        r@ == log_file_name_of(line_name@, *d, sql),
{
    let base = to_chars(line_name);
    let sep = if sql {
        to_chars("_sql_")
    } else {
        to_chars("_")
    };
    let a = concat_chars(&base, &sep);
    let tag = month_tag(d);
    let b = concat_chars(&a, &tag);
    let suffix = to_chars(".log");
    let c = concat_chars(&b, &suffix);
    proof {
        assert(c@ =~= log_file_name_of(line_name@, *d, sql));
    }
    from_chars(&c)
}

/// `[YYYY-MM-DD HH:MM:SS] [<LEVEL>] <message>` and a newline.
pub open spec fn log_line_of(st: StampVal, level: Seq<char>, message: Seq<char>) -> Seq<char> {
    seq!['['] + iso_stamp_of(st) + "] ["@ + level + "] "@ + message + seq!['\n']
}

/// Build one per-line log entry.
pub fn log_line(st: &StampVal, level: &str, message: &str) -> (r: String)
    requires
        st.wf(),
    ensures
        r@ == log_line_of(*st, level@, message@),
{
    let mut v: Vec<char> = Vec::new();
    v.push('[');
    let ts = iso_stamp(st);
    let a = concat_chars(&v, &ts);
    let mid = to_chars("] [");
    let b = concat_chars(&a, &mid);
    let lv = to_chars(level);
    let c = concat_chars(&b, &lv);
    let mid2 = to_chars("] ");
    let d = concat_chars(&c, &mid2);
    let ms = to_chars(message);
    let mut e = concat_chars(&d, &ms);
    e.push('\n');
    proof {
        assert(v@ =~= seq!['[']);
        assert(e@ =~= log_line_of(*st, level@, message@));
    }
    from_chars(&e)
}

/// A run of dashes.
pub open spec fn dashes_of(n: int) -> Seq<char> {
    if n >= 0 {
        Seq::new(n as nat, |i: int| '-')
    } else {
        Seq::empty()
    }
}

fn dashes(n: usize) -> (r: Vec<char>)
    ensures
        r@ == dashes_of(n as int),
{
    let mut v: Vec<char> = Vec::new();
    let mut i: usize = 0;
    while i < n
        invariant
            i <= n,
            v@.len() == i,
            forall|j: int| 0 <= j < i ==> v@[j] == '-',
        decreases n - i,
    {
        v.push('-');
        i = i + 1;
    }
    proof {
        assert(v@ =~= dashes_of(n as int));
    }
    v
}

/// One SQL audit entry: a stamped status head, the query cut at five
/// hundred characters, the bound values, the error when there is one, and
/// a rule of eighty dashes.
pub open spec fn sql_log_entry_of(
    st: StampVal,
    query: Seq<char>,
    values: Seq<char>,
    success: bool,
    error_msg: Seq<char>,
) -> Seq<char> {
    seq!['\n', '['] + iso_stamp_of(st) + "] ["@ + (if success {
        "SUCCESS"@
    } else {
        "ERROR"@
    }) + "]\n"@ + "Requ\u{ea}te: "@ + take_at_most(query, 500) + "\nValeurs: "@ + values + seq![
        '\n',
    ] + (if !success && error_msg.len() > 0 {
        "Erreur: "@ + error_msg + seq!['\n']
    } else {
        Seq::empty()
    }) + dashes_of(80) + seq!['\n']
}

/// Build one SQL audit entry.
pub fn sql_log_entry(
    st: &StampVal,
    query: &str,
    values: &str,
    success: bool,
    error_msg: &str,
) -> (r: String)
    requires
        st.wf(),
    ensures
        r@ == sql_log_entry_of(*st, query@, values@, success, error_msg@),
{
    let mut v: Vec<char> = Vec::new();
    v.push('\n');
    v.push('[');
    let ts = iso_stamp(st);
    let a = concat_chars(&v, &ts);
    let mid = to_chars("] [");
    let b = concat_chars(&a, &mid);
    let status = if success {
        to_chars("SUCCESS")
    } else {
        to_chars("ERROR")
    };
    let c = concat_chars(&b, &status);
    let head2 = to_chars("]\n");
    let c2 = concat_chars(&c, &head2);
    let head2b = to_chars("Requ\u{ea}te: ");
    let d = concat_chars(&c2, &head2b);
    let q = take_chars(&to_chars(query), 500);
    let e = concat_chars(&d, &q);
    let head3 = to_chars("\nValeurs: ");
    let f = concat_chars(&e, &head3);
    let vs = to_chars(values);
    let mut g = concat_chars(&f, &vs);
    g.push('\n');
    let h = if !success && error_msg.unicode_len() > 0 {
        let eh = to_chars("Erreur: ");
        let i1 = concat_chars(&g, &eh);
        let em = to_chars(error_msg);
        let mut i2 = concat_chars(&i1, &em);
        i2.push('\n');
        i2
    } else {
        g
    };
    let rule = dashes(80);
    let mut out = concat_chars(&h, &rule);
    out.push('\n');
    proof {
        assert(v@ =~= seq!['\n', '[']);
        assert(out@ =~= sql_log_entry_of(*st, query@, values@, success, error_msg@));
    }
    from_chars(&out)
}

} // verus!
