//! The field transformer: a named transformation applied to one string
//! value while a row is mapped.
//!
//! Every rule is deterministic except the clock fallback of the date and
//! datetime tags; the clock is taken as an argument so that the rules
//! themselves are fully specified, and `apply_transformation` supplies the
//! wall clock.

use vstd::prelude::*;
use crate::text::{
    is_digit, digits_only, keep_digits, trim_of, take_at_most, split_of, to_chars, from_chars,
    trim_chars, digits_of, all_digits, sub_chars, take_chars, concat_chars, str_eq, find_char,
    split_chars, digit_char, is_space, lemma_keep_digits_all, lemma_keep_digits_id,
};
use crate::numfmt::{digit_char_of, reads_as_two, is_two_repr};
use crate::timedate::{
    DateVal, TimeVal, StampVal, date_parse, time_parse, datetime_parse, parse_date, parse_time,
    parse_datetime, fmt_date_of, fmt_stamp_of, fmt_date, fmt_stamp, local_now_clamped,
};

verus! {

/// The date chrono reads from `v` under format `f`, kept only when its year
/// fits the library's four-digit text form.
pub open spec fn try_date(v: Seq<char>, f: Seq<char>) -> Option<DateVal> {
    match date_parse(v, f) {
        Some(t) => if 0 <= t.0 <= 9999 {
            Some(DateVal { year: t.0, month: t.1, day: t.2 })
        } else {
            None
        },
        None => None,
    }
}

/// The time chrono reads from `v` under format `f`.
pub open spec fn try_time(v: Seq<char>, f: Seq<char>) -> Option<TimeVal> {
    match time_parse(v, f) {
        Some(t) => Some(TimeVal { hour: t.0, minute: t.1, second: t.2 }),
        None => None,
    }
}

/// The date and time chrono reads from `v` under format `f`, kept only when
/// the year fits the four-digit text form.
pub open spec fn try_datetime(v: Seq<char>, f: Seq<char>) -> Option<StampVal> {
    match datetime_parse(v, f) {
        Some(t) => if 0 <= t.0.0 <= 9999 {
            Some(
                StampVal {
                    date: DateVal { year: t.0.0, month: t.0.1, day: t.0.2 },
                    time: TimeVal { hour: t.1.0, minute: t.1.1, second: t.1.2 },
                },
            )
        } else {
            None
        },
        None => None,
    }
}

fn try_date_exec(v: &Vec<char>, f: &str) -> (r: Option<DateVal>)
    ensures
        r == try_date(v@, f@),
        r matches Some(d) ==> d.wf(),
{
    let s = from_chars(v);
    match parse_date(s.as_str(), f) {
        Some(d) => {
            if 0 <= d.year && d.year <= 9999 {
                Some(d)
            } else {
                None
            }
        },
        None => None,
    }
}

fn try_time_exec(v: &Vec<char>, f: &str) -> (r: Option<TimeVal>)
    ensures
        r == try_time(v@, f@),
        r matches Some(t) ==> t.wf(),
{
    let s = from_chars(v);
    parse_time(s.as_str(), f)
}

fn try_datetime_exec(v: &Vec<char>, f: &str) -> (r: Option<StampVal>)
    ensures
        r == try_datetime(v@, f@),
        r matches Some(st) ==> st.wf(),
{
    let s = from_chars(v);
    match parse_datetime(s.as_str(), f) {
        Some(st) => {
            if 0 <= st.date.year && st.date.year <= 9999 {
                Some(st)
            } else {
                None
            }
        },
        None => None,
    }
}

/// The date formats the `date` tag tries, in order.
pub open spec fn date_chain(v: Seq<char>) -> Option<DateVal> {
    if try_date(v, "%d/%m/%Y"@) is Some { try_date(v, "%d/%m/%Y"@) }
    else if try_date(v, "%Y-%m-%d"@) is Some { try_date(v, "%Y-%m-%d"@) }
    else if try_date(v, "%d-%m-%Y"@) is Some { try_date(v, "%d-%m-%Y"@) }
    else if try_date(v, "%d.%m.%Y"@) is Some { try_date(v, "%d.%m.%Y"@) }
    else if try_date(v, "%d/%m/%y"@) is Some { try_date(v, "%d/%m/%y"@) }
    else if try_date(v, "%d-%m-%y"@) is Some { try_date(v, "%d-%m-%y"@) }
    else if try_date(v, "%d.%m.%y"@) is Some { try_date(v, "%d.%m.%y"@) }
    else { try_date(v, "%Y%m%d"@) }
}

fn date_chain_exec(v: &Vec<char>) -> (r: Option<DateVal>)
    ensures
        r == date_chain(v@),
        r matches Some(d) ==> d.wf(),
{
    if let Some(d) = try_date_exec(v, "%d/%m/%Y") { return Some(d); }
    if let Some(d) = try_date_exec(v, "%Y-%m-%d") { return Some(d); }
    if let Some(d) = try_date_exec(v, "%d-%m-%Y") { return Some(d); }
    if let Some(d) = try_date_exec(v, "%d.%m.%Y") { return Some(d); }
    if let Some(d) = try_date_exec(v, "%d/%m/%y") { return Some(d); }
    if let Some(d) = try_date_exec(v, "%d-%m-%y") { return Some(d); }
    if let Some(d) = try_date_exec(v, "%d.%m.%y") { return Some(d); }
    try_date_exec(v, "%Y%m%d")
}

/// The date the `date` tag emits, or `None` when it falls back to the clock.
pub open spec fn date_pick(s: Seq<char>) -> Option<DateVal> {
    let v = trim_of(s);
    if v.len() == 0 {
        None
    } else if digits_only(v) && v.len() >= 8 && try_date(v.take(8), "%Y%m%d"@) is Some {
        try_date(v.take(8), "%Y%m%d"@)
    } else {
        date_chain(v)
    }
}

/// The `date` tag: normalize any recognized date to `DD/MM/YYYY`; empty or
/// unrecognized input yields the current date.
pub open spec fn date_transformed(s: Seq<char>, now: StampVal) -> Seq<char> {
    match date_pick(s) {
        Some(d) => fmt_date_of(d),
        None => fmt_date_of(now.date),
    }
}

fn date_transform_exec(v: &Vec<char>, now: &StampVal) -> (r: Vec<char>)
    requires
        now.wf(),
    ensures
        r@ == date_transformed(v@, *now),
{
    let t = trim_chars(v);
    if t.len() == 0 {
        return fmt_date(&now.date);
    }
    if all_digits(&t) && t.len() >= 8 {
        let head = sub_chars(&t, 0, 8);
        proof {
            assert(head@ =~= trim_of(v@).take(8));
        }
        if let Some(d) = try_date_exec(&head, "%Y%m%d") {
            return fmt_date(&d);
        }
    }
    match date_chain_exec(&t) {
        Some(d) => fmt_date(&d),
        None => fmt_date(&now.date),
    }
}

/// The `heure` tag: keep the decimal digits and cut a six-digit `HHMMSS`
/// out of them, padding with zeros where seconds or the whole time are
/// missing.
pub open spec fn heure_transformed(s: Seq<char>) -> Seq<char> {
    let d = keep_digits(s);
    if d.len() >= 14 {
        d.subrange(8, 14)
    } else if d.len() >= 12 {
        d.subrange(8, 12) + seq!['0', '0']
    } else if d.len() >= 6 {
        d.take(6)
    } else if d.len() >= 4 {
        d.take(4) + seq!['0', '0']
    } else {
        seq!['0', '0', '0', '0', '0', '0']
    }
}

fn heure_transform_exec(v: &Vec<char>) -> (r: Vec<char>)
    ensures
        r@ == heure_transformed(v@),
{
    let d = digits_of(v);
    let zz: Vec<char> = vec!['0', '0'];
    proof {
        assert(zz@ =~= seq!['0', '0']);
    }
    if d.len() >= 14 {
        sub_chars(&d, 8, 14)
    } else if d.len() >= 12 {
        let head = sub_chars(&d, 8, 12);
        concat_chars(&head, &zz)
    } else if d.len() >= 6 {
        let r = sub_chars(&d, 0, 6);
        proof {
            assert(r@ =~= keep_digits(v@).take(6));
        }
        r
    } else if d.len() >= 4 {
        let head = sub_chars(&d, 0, 4);
        proof {
            assert(head@ =~= keep_digits(v@).take(4));
        }
        concat_chars(&head, &zz)
    } else {
        let r: Vec<char> = vec!['0', '0', '0', '0', '0', '0'];
        proof {
            assert(r@ =~= seq!['0', '0', '0', '0', '0', '0']);
        }
        r
    }
}

/// One format of the `datetime` chain: the text read as a full datetime,
/// else as a bare date at midnight.
pub open spec fn dt_step(v: Seq<char>, f: Seq<char>) -> Option<StampVal> {
    if try_datetime(v, f) is Some {
        try_datetime(v, f)
    } else {
        match try_date(v, f) {
            Some(d) => Some(StampVal { date: d, time: TimeVal { hour: 0, minute: 0, second: 0 } }),
            None => None,
        }
    }
}

/// The datetime formats the `datetime` tag tries, in order.
pub open spec fn dt_chain(v: Seq<char>) -> Option<StampVal> {
    if dt_step(v, "%d/%m/%Y %H:%M:%S"@) is Some { dt_step(v, "%d/%m/%Y %H:%M:%S"@) }
    else if dt_step(v, "%d/%m/%Y %H:%M"@) is Some { dt_step(v, "%d/%m/%Y %H:%M"@) }
    else if dt_step(v, "%Y-%m-%d %H:%M:%S"@) is Some { dt_step(v, "%Y-%m-%d %H:%M:%S"@) }
    else if dt_step(v, "%Y-%m-%d %H:%M"@) is Some { dt_step(v, "%Y-%m-%d %H:%M"@) }
    else if dt_step(v, "%Y%m%d %H%M%S"@) is Some { dt_step(v, "%Y%m%d %H%M%S"@) }
    else if dt_step(v, "%Y%m%d%H%M%S"@) is Some { dt_step(v, "%Y%m%d%H%M%S"@) }
    else if dt_step(v, "%d/%m/%Y"@) is Some { dt_step(v, "%d/%m/%Y"@) }
    else if dt_step(v, "%Y-%m-%d"@) is Some { dt_step(v, "%Y-%m-%d"@) }
    else { dt_step(v, "%Y%m%d"@) }
}

fn dt_chain_step(v: &Vec<char>, f: &str) -> (r: Option<StampVal>)
    ensures
        r == dt_step(v@, f@),
        r matches Some(st) ==> st.wf(),
{
    if let Some(st) = try_datetime_exec(v, f) {
        return Some(st);
    }
    if let Some(d) = try_date_exec(v, f) {
        return Some(StampVal { date: d, time: TimeVal::zero() });
    }
    None
}

fn dt_chain_exec(v: &Vec<char>) -> (r: Option<StampVal>)
    ensures
        r == dt_chain(v@),
        r matches Some(st) ==> st.wf(),
{
    if let Some(st) = dt_chain_step(v, "%d/%m/%Y %H:%M:%S") { return Some(st); }
    if let Some(st) = dt_chain_step(v, "%d/%m/%Y %H:%M") { return Some(st); }
    if let Some(st) = dt_chain_step(v, "%Y-%m-%d %H:%M:%S") { return Some(st); }
    if let Some(st) = dt_chain_step(v, "%Y-%m-%d %H:%M") { return Some(st); }
    if let Some(st) = dt_chain_step(v, "%Y%m%d %H%M%S") { return Some(st); }
    if let Some(st) = dt_chain_step(v, "%Y%m%d%H%M%S") { return Some(st); }
    if let Some(st) = dt_chain_step(v, "%d/%m/%Y") { return Some(st); }
    if let Some(st) = dt_chain_step(v, "%Y-%m-%d") { return Some(st); }
    if let Some(st) = dt_chain_step(v, "%Y%m%d") { return Some(st); }
    None
}

/// The stamp the `datetime` tag emits, or `None` when it falls back to the
/// clock.
pub open spec fn dt_pick(s: Seq<char>) -> Option<StampVal> {
    let v = trim_of(s);
    let zero = TimeVal { hour: 0, minute: 0, second: 0 };
    if v.len() == 0 {
        None
    } else if digits_only(v) && v.len() >= 14 && try_datetime(v.take(14), "%Y%m%d%H%M%S"@)
        is Some {
        try_datetime(v.take(14), "%Y%m%d%H%M%S"@)
    } else if digits_only(v) && v.len() >= 8 && try_date(v.take(8), "%Y%m%d"@) is Some {
        match try_date(v.take(8), "%Y%m%d"@) {
            Some(d) => if v.len() >= 14 && try_time(v.subrange(8, 14), "%H%M%S"@) is Some {
                match try_time(v.subrange(8, 14), "%H%M%S"@) {
                    Some(t) => Some(StampVal { date: d, time: t }),
                    None => None,
                }
            } else {
                Some(StampVal { date: d, time: zero })
            },
            None => None,
        }
    } else {
        dt_chain(v)
    }
}

/// The `datetime` tag: normalize any recognized date or datetime to
/// `DD/MM/YYYY HH:MM:SS`; empty or unrecognized input yields the clock.
pub open spec fn datetime_transformed(s: Seq<char>, now: StampVal) -> Seq<char> {
    match dt_pick(s) {
        Some(st) => fmt_stamp_of(st),
        None => fmt_stamp_of(now),
    }
}

fn datetime_transform_exec(v: &Vec<char>, now: &StampVal) -> (r: Vec<char>)
    requires
        now.wf(),
    ensures
        r@ == datetime_transformed(v@, *now),
{
    let t = trim_chars(v);
    if t.len() == 0 {
        return fmt_stamp(now);
    }
    if all_digits(&t) {
        if t.len() >= 14 {
            let head = sub_chars(&t, 0, 14);
            proof {
                assert(head@ =~= trim_of(v@).take(14));
            }
            if let Some(st) = try_datetime_exec(&head, "%Y%m%d%H%M%S") {
                return fmt_stamp(&st);
            }
        }
        if t.len() >= 8 {
            let head = sub_chars(&t, 0, 8);
            proof {
                assert(head@ =~= trim_of(v@).take(8));
            }
            if let Some(d) = try_date_exec(&head, "%Y%m%d") {
                if t.len() >= 14 {
                    let mid = sub_chars(&t, 8, 14);
                    if let Some(tm) = try_time_exec(&mid, "%H%M%S") {
                        let st = StampVal { date: d, time: tm };
                        return fmt_stamp(&st);
                    }
                }
                let st = StampVal { date: d, time: TimeVal::zero() };
                return fmt_stamp(&st);
            }
        }
    }
    match dt_chain_exec(&t) {
        Some(st) => fmt_stamp(&st),
        None => fmt_stamp(now),
    }
}

/// Commas replaced by decimal points.
pub open spec fn comma_dots(s: Seq<char>) -> Seq<char> {
    s.map_values(|c: char| if c == ',' { '.' } else { c })
}

/// A character the `decimal` tag keeps.
pub open spec fn is_numericish(c: char) -> bool {
    is_digit(c) || c == '.' || c == '-'
}

/// The subsequence of digits, points and minus signs, in order.
pub open spec fn keep_numeric(s: Seq<char>) -> Seq<char>
    decreases s.len(),
{
    if s.len() == 0 {
        Seq::empty()
    } else {
        let rest = keep_numeric(s.drop_last());
        if is_numericish(s.last()) {
            rest.push(s.last())
        } else {
            rest
        }
    }
}

proof fn lemma_keep_numeric_all(s: Seq<char>)
    ensures
        forall|i: int| 0 <= i < keep_numeric(s).len() ==> is_numericish(
            #[trigger] keep_numeric(s)[i],
        ),
    decreases s.len(),
{
    if s.len() > 0 {
        lemma_keep_numeric_all(s.drop_last());
        let rest = keep_numeric(s.drop_last());
        if is_numericish(s.last()) {
            assert(keep_numeric(s) == rest.push(s.last()));
            assert(forall|i: int| 0 <= i < rest.len() ==> is_numericish(
                #[trigger] rest.push(s.last())[i],
            ));
            assert(rest.push(s.last())[rest.len() as int] == s.last());
        } else {
            assert(keep_numeric(s) == rest);
        }
    }
}

proof fn lemma_keep_numeric_id(s: Seq<char>)
    requires
        forall|i: int| 0 <= i < s.len() ==> is_numericish(#[trigger] s[i]),
    ensures
        keep_numeric(s) == s,
    decreases s.len(),
{
    if s.len() > 0 {
        lemma_keep_numeric_id(s.drop_last());
        assert(keep_numeric(s) =~= s);
    } else {
        assert(keep_numeric(s) =~= s);
    }
}

/// The `decimal` tag: commas become points, then everything but digits,
/// points and minus signs is dropped.
pub open spec fn decimal_transformed(s: Seq<char>) -> Seq<char> {
    keep_numeric(comma_dots(s))
}

fn decimal_transform_exec(v: &Vec<char>) -> (r: Vec<char>)
    ensures
        r@ == decimal_transformed(v@),
{
    let mut out: Vec<char> = Vec::new();
    let mut i: usize = 0;
    while i < v.len()
        invariant
            i <= v.len(),
            out@ == keep_numeric(comma_dots(v@).take(i as int)),
        decreases v.len() - i,
    {
        proof {
            assert(comma_dots(v@).take(i + 1 as int).drop_last() =~= comma_dots(v@).take(i as int));
            assert(comma_dots(v@).take(i + 1 as int).last() == comma_dots(v@)[i as int]);
        }
        let c0 = v[i];
        let c: char = if c0 == ',' {
            '.'
        } else {
            c0
        };
        proof {
            assert(comma_dots(v@)[i as int] == c);
        }
        if digit_char(c) || c == '.' || c == '-' {
            out.push(c);
        }
        i = i + 1;
    }
    proof {
        assert(comma_dots(v@).take(v@.len() as int) =~= comma_dots(v@));
    }
    out
}

/// The `tinyint` tag: the text `2` stays `2`; everything else becomes `1`.
pub open spec fn tinyint_transformed(s: Seq<char>) -> Seq<char> {
    if reads_as_two(trim_of(s)) {
        seq!['2']
    } else {
        seq!['1']
    }
}

fn tinyint_transform_exec(v: &Vec<char>) -> (r: Vec<char>)
    ensures
        r@ == tinyint_transformed(v@),
{
    let t = trim_chars(v);
    let r: Vec<char> = if is_two_repr(&t) {
        vec!['2']
    } else {
        vec!['1']
    };
    proof {
        if reads_as_two(trim_of(v@)) {
            assert(r@ =~= seq!['2']);
        } else {
            assert(r@ =~= seq!['1']);
        }
    }
    r
}

/// The `datetime_combine` tag: the part before the first `;` read as a
/// date, the part after it as a time, combined; anything unreadable yields
/// the clock.
pub open spec fn combine_date_chain(v: Seq<char>) -> Option<DateVal> {
    if try_date(v, "%d/%m/%Y"@) is Some { try_date(v, "%d/%m/%Y"@) }
    else if try_date(v, "%Y-%m-%d"@) is Some { try_date(v, "%Y-%m-%d"@) }
    else if try_date(v, "%d-%m-%Y"@) is Some { try_date(v, "%d-%m-%Y"@) }
    else if try_date(v, "%d.%m.%Y"@) is Some { try_date(v, "%d.%m.%Y"@) }
    else { try_date(v, "%Y%m%d"@) }
}

pub open spec fn combine_time_chain(v: Seq<char>) -> Option<TimeVal> {
    if try_time(v, "%H:%M:%S"@) is Some { try_time(v, "%H:%M:%S"@) }
    else if try_time(v, "%H.%M.%S"@) is Some { try_time(v, "%H.%M.%S"@) }
    else if try_time(v, "%H%M%S"@) is Some { try_time(v, "%H%M%S"@) }
    else if try_time(v, "%H:%M"@) is Some { try_time(v, "%H:%M"@) }
    else { try_time(v, "%H.%M"@) }
}

pub open spec fn combine_pick(s: Seq<char>) -> Option<StampVal> {
    let parts = split_of(s, ';');
    if parts.len() < 2 {
        None
    } else {
        match combine_date_chain(trim_of(parts[0])) {
            Some(d) => match combine_time_chain(trim_of(parts[1])) {
                Some(t) => Some(StampVal { date: d, time: t }),
                None => None,
            },
            None => None,
        }
    }
}

pub open spec fn combine_transformed(s: Seq<char>, now: StampVal) -> Seq<char> {
    match combine_pick(s) {
        Some(st) => fmt_stamp_of(st),
        None => fmt_stamp_of(now),
    }
}

fn combine_date_chain_exec(v: &Vec<char>) -> (r: Option<DateVal>)
    ensures
        r == combine_date_chain(v@),
        r matches Some(d) ==> d.wf(),
{
    if let Some(d) = try_date_exec(v, "%d/%m/%Y") { return Some(d); }
    if let Some(d) = try_date_exec(v, "%Y-%m-%d") { return Some(d); }
    if let Some(d) = try_date_exec(v, "%d-%m-%Y") { return Some(d); }
    if let Some(d) = try_date_exec(v, "%d.%m.%Y") { return Some(d); }
    try_date_exec(v, "%Y%m%d")
}

fn combine_time_chain_exec(v: &Vec<char>) -> (r: Option<TimeVal>)
    ensures
        r == combine_time_chain(v@),
        r matches Some(t) ==> t.wf(),
{
    if let Some(t) = try_time_exec(v, "%H:%M:%S") { return Some(t); }
    if let Some(t) = try_time_exec(v, "%H.%M.%S") { return Some(t); }
    if let Some(t) = try_time_exec(v, "%H%M%S") { return Some(t); }
    if let Some(t) = try_time_exec(v, "%H:%M") { return Some(t); }
    try_time_exec(v, "%H.%M")
}

fn combine_transform_exec(v: &Vec<char>, now: &StampVal) -> (r: Vec<char>)
    requires
        now.wf(),
    ensures
        r@ == combine_transformed(v@, *now),
{
    let parts = split_chars(v, ';');
    if parts.len() < 2 {
        return fmt_stamp(now);
    }
    proof {
        assert(parts@[0].deep_view() == split_of(v@, ';')[0]);
        assert(parts@[1].deep_view() == split_of(v@, ';')[1]);
        assert(parts@[0]@ == split_of(v@, ';')[0]);
        assert(parts@[1]@ == split_of(v@, ';')[1]);
    }
    let dpart = trim_chars(&parts[0]);
    let tpart = trim_chars(&parts[1]);
    match combine_date_chain_exec(&dpart) {
        Some(d) => match combine_time_chain_exec(&tpart) {
            Some(t) => {
                let st = StampVal { date: d, time: t };
                fmt_stamp(&st)
            },
            None => fmt_stamp(now),
        },
        None => fmt_stamp(now),
    }
}

/// Position of the first occurrence of a character, or -1 when there is none.
pub open spec fn first_idx(s: Seq<char>, c: char) -> int
    decreases s.len(),
{
    if s.len() == 0 {
        -1
    } else if s[0] == c {
        0
    } else {
        let r = first_idx(s.drop_first(), c);
        if r < 0 {
            -1
        } else {
            r + 1
        }
    }
}

pub proof fn lemma_first_idx(s: Seq<char>, c: char)
    ensures
        first_idx(s, c) < 0 ==> forall|j: int| 0 <= j < s.len() ==> s[j] != c,
        first_idx(s, c) >= 0 ==> first_idx(s, c) < s.len() && s[first_idx(s, c)] == c
            && forall|j: int| 0 <= j < first_idx(s, c) ==> s[j] != c,
    decreases s.len(),
{
    if s.len() > 0 && s[0] != c {
        lemma_first_idx(s.drop_first(), c);
        assert(forall|j: int| 1 <= j < s.len() ==> s[j] == s.drop_first()[j - 1]);
    }
}

/// The `split_before_plus` / `split_after_plus` rules: the part before or
/// after the first `+` (the whole value, or nothing, when there is none),
/// trimmed and cut to ten characters.
pub open spec fn split_part_of(s: Seq<char>, before: bool) -> Seq<char> {
    let i = first_idx(s, '+');
    if i >= 0 {
        if before {
            take_at_most(trim_of(s.take(i)), 10)
        } else {
            take_at_most(trim_of(s.skip(i + 1)), 10)
        }
    } else {
        if before {
            take_at_most(trim_of(s), 10)
        } else {
            Seq::empty()
        }
    }
}

/// Cut a value at its first `+`: `part == "before"` keeps the head, any
/// other part name keeps the tail.
pub fn apply_split(value: &str, part: &str) -> (r: String)
    ensures
        r@ == split_part_of(value@, part@ == "before"@),
{
    let v = to_chars(value);
    let n: usize = v.len();
    let before = str_eq(part, "before");
    let picked: Vec<char> = match find_char(&v, '+') {
        Some(i) => {
            proof {
                lemma_first_idx(v@, '+');
                assert(first_idx(v@, '+') == i as int);
            }
            if before {
                let head = sub_chars(&v, 0, i);
                proof {
                    assert(head@ =~= v@.take(i as int));
                }
                head
            } else {
                proof {
                    assert(i < n);
                }
                let tail = sub_chars(&v, i + 1, n);
                proof {
                    assert(tail@ =~= v@.skip(i + 1 as int));
                }
                tail
            }
        },
        None => {
            proof {
                lemma_first_idx(v@, '+');
                if first_idx(v@, '+') >= 0 {
                    assert(v@[first_idx(v@, '+')] == '+');
                }
            }
            if before {
                sub_chars(&v, 0, v.len())
            } else {
                let out: Vec<char> = Vec::new();
                return from_chars(&out);
            }
        },
    };
    let t = trim_chars(&picked);
    let t10 = take_chars(&t, 10);
    proof {
        if first_idx(v@, '+') < 0 {
            assert(picked@ =~= v@);
        }
    }
    from_chars(&t10)
}

/// One transformation applied at a given wall-clock instant.
pub open spec fn transformed(s: Seq<char>, tag: Seq<char>, now: StampVal) -> Seq<char> {
    if tag == "date"@ {
        date_transformed(s, now)
    } else if tag == "heure"@ {
        heure_transformed(s)
    } else if tag == "datetime"@ {
        datetime_transformed(s, now)
    } else if tag == "decimal"@ {
        decimal_transformed(s)
    } else if tag == "tinyint"@ {
        tinyint_transformed(s)
    } else if tag == "current_datetime"@ {
        fmt_stamp_of(now)
    } else if tag == "datetime_combine"@ {
        combine_transformed(s, now)
    } else {
        s
    }
}

proof fn lemma_digit_chars(k: int)
    ensures
        is_digit(digit_char_of(k)),
        !is_space(digit_char_of(k)),
        digit_char_of(k) != '/',
        digit_char_of(k) != ',',
{
}

/// The shape of a formatted date: ten characters, digits except the two
/// slashes.
proof fn lemma_fmt_date_shape(d: DateVal)
    ensures
        fmt_date_of(d).len() == 10,
        is_digit(fmt_date_of(d).first()),
        is_digit(fmt_date_of(d).last()),
        fmt_date_of(d)[2] == '/',
{
    let y = fmt_date_of(d);
    lemma_digit_chars((d.day as int / 10) % 10);
    lemma_digit_chars(d.day as int % 10);
    lemma_digit_chars(d.year as int % 10);
    assert(y[0] == crate::numfmt::pad2_of(d.day as int)[0]);
    assert(y[2] == seq!['/'][0]);
    assert(y[9] == crate::numfmt::pad4_of(d.year as int)[3]);
}

/// The shape of a formatted stamp: nineteen characters, a slash third, a
/// digit at each end.
proof fn lemma_fmt_stamp_shape(st: StampVal)
    ensures
        fmt_stamp_of(st).len() == 19,
        is_digit(fmt_stamp_of(st).first()),
        is_digit(fmt_stamp_of(st).last()),
        fmt_stamp_of(st)[2] == '/',
{
    let y = fmt_stamp_of(st);
    lemma_fmt_date_shape(st.date);
    lemma_digit_chars(st.time.second as int % 10);
    assert(y[0] == fmt_date_of(st.date)[0]);
    assert(y[2] == fmt_date_of(st.date)[2]);
    assert(y[18] == crate::numfmt::pad2_of(st.time.second as int)[1]);
}

/// A sequence whose ends are not whitespace trims to itself.
proof fn lemma_trim_id(s: Seq<char>)
    requires
        s.len() > 0,
        !is_space(s.first()),
        !is_space(s.last()),
    ensures
        trim_of(s) == s,
{
    assert(crate::text::trim_front(s) == s);
    assert(crate::text::trim_back(s) == s);
}

/// The `heure` rule always emits six digits.
pub proof fn lemma_heure_shape(s: Seq<char>)
    ensures
        heure_transformed(s).len() == 6,
        digits_only(heure_transformed(s)),
{
    let d = keep_digits(s);
    lemma_keep_digits_all(s);
    let out = heure_transformed(s);
    if d.len() >= 14 {
        assert(forall|i: int| 0 <= i < 6 ==> out[i] == d[8 + i]);
    } else if d.len() >= 12 {
        assert(forall|i: int| 0 <= i < 4 ==> out[i] == d[8 + i]);
        assert(is_digit(out[4]) && is_digit(out[5]));
    } else if d.len() >= 6 {
        assert(forall|i: int| 0 <= i < 6 ==> out[i] == d[i]);
    } else if d.len() >= 4 {
        assert(forall|i: int| 0 <= i < 4 ==> out[i] == d[i]);
        assert(is_digit(out[4]) && is_digit(out[5]));
    } else {
        assert(forall|i: int| 0 <= i < 6 ==> is_digit(#[trigger] out[i]));
    }
}

/// Applying the `heure` rule to its own output changes nothing.
pub proof fn lemma_heure_idempotent(s: Seq<char>)
    ensures
        heure_transformed(heure_transformed(s)) == heure_transformed(s),
{
    let out = heure_transformed(s);
    lemma_heure_shape(s);
    lemma_keep_digits_id(out);
    assert(keep_digits(out).take(6) =~= out);
}

/// Applying the `decimal` rule to its own output changes nothing.
pub proof fn lemma_decimal_idempotent(s: Seq<char>)
    ensures
        decimal_transformed(decimal_transformed(s)) == decimal_transformed(s),
{
    let out = decimal_transformed(s);
    lemma_keep_numeric_all(comma_dots(s));
    assert(forall|i: int| 0 <= i < out.len() ==> #[trigger] out[i] != ',') by {
        assert(forall|i: int| 0 <= i < out.len() ==> is_numericish(#[trigger] out[i]));
    }
    assert(comma_dots(out) =~= out);
    lemma_keep_numeric_id(out);
}

/// Applying the `tinyint` rule to its own output changes nothing.
pub proof fn lemma_tinyint_idempotent(s: Seq<char>)
    ensures
        tinyint_transformed(tinyint_transformed(s)) == tinyint_transformed(s),
{
    let two = seq!['2'];
    let one = seq!['1'];
    assert(trim_of(two) == two) by {
        lemma_trim_id(two);
    }
    assert(trim_of(one) == one) by {
        lemma_trim_id(one);
    }
    assert(crate::numfmt::sign_stripped(two) == two);
    assert(crate::numfmt::strip_zeros(two) == two);
    assert(reads_as_two(two)) by {
        assert(forall|i: int| 0 <= i < two.len() ==> is_digit(#[trigger] two[i]));
    }
    assert(crate::numfmt::sign_stripped(one) == one);
    assert(crate::numfmt::strip_zeros(one) == one);
    assert(!reads_as_two(one)) by {
        assert(one[0] != two[0]);
    }
}

/// Applying the `date` rule to its own output changes nothing, provided the
/// emitted `DD/MM/YYYY` text reads back as the same date under the first
/// format of the chain.
pub proof fn lemma_date_idempotent(x: Seq<char>, now1: StampVal, now2: StampVal, d: DateVal)
    ensures
        (date_transformed(x, now1) == fmt_date_of(d) && try_date(fmt_date_of(d), "%d/%m/%Y"@)
            == Some(d)) ==> date_transformed(date_transformed(x, now1), now2)
            == date_transformed(x, now1),
{
    if date_transformed(x, now1) == fmt_date_of(d) && try_date(fmt_date_of(d), "%d/%m/%Y"@)
        == Some(d) {
        let y = fmt_date_of(d);
        lemma_fmt_date_shape(d);
        lemma_trim_id(y);
        assert(!is_digit(y[2]));
        assert(!digits_only(y));
        assert(date_chain(y) == Some(d));
        assert(date_pick(y) == Some(d));
    }
}

/// Applying the `datetime` rule to its own output changes nothing, provided
/// the emitted `DD/MM/YYYY HH:MM:SS` text reads back as the same stamp
/// under the first format of the chain.
pub proof fn lemma_datetime_idempotent(x: Seq<char>, now1: StampVal, now2: StampVal, st: StampVal)
    ensures
        (datetime_transformed(x, now1) == fmt_stamp_of(st) && try_datetime(
            fmt_stamp_of(st),
            "%d/%m/%Y %H:%M:%S"@,
        ) == Some(st)) ==> datetime_transformed(datetime_transformed(x, now1), now2)
            == datetime_transformed(x, now1),
{
    if datetime_transformed(x, now1) == fmt_stamp_of(st) && try_datetime(
        fmt_stamp_of(st),
        "%d/%m/%Y %H:%M:%S"@,
    ) == Some(st) {
        let y = fmt_stamp_of(st);
        lemma_fmt_stamp_shape(st);
        lemma_trim_id(y);
        assert(!is_digit(y[2]));
        assert(!digits_only(y));
        assert(dt_step(y, "%d/%m/%Y %H:%M:%S"@) == Some(st));
        assert(dt_chain(y) == Some(st));
        assert(dt_pick(y) == Some(st));
    }
}

/// Apply a named transformation with the clock handed in, so the result is
/// a function of the arguments alone.
pub fn apply_transformation_at(value: &str, transformation: &str, now: &StampVal) -> (r: String)
    requires
        now.wf(),
    ensures
        r@ == transformed(value@, transformation@, *now),
{
    let v = to_chars(value);
    let out: Vec<char> = if str_eq(transformation, "date") {
        date_transform_exec(&v, now)
    } else if str_eq(transformation, "heure") {
        heure_transform_exec(&v)
    } else if str_eq(transformation, "datetime") {
        datetime_transform_exec(&v, now)
    } else if str_eq(transformation, "decimal") {
        decimal_transform_exec(&v)
    } else if str_eq(transformation, "tinyint") {
        tinyint_transform_exec(&v)
    } else if str_eq(transformation, "current_datetime") {
        fmt_stamp(now)
    } else if str_eq(transformation, "datetime_combine") {
        combine_transform_exec(&v, now)
    } else {
        v
    };
    from_chars(&out)
}

/// Apply a named transformation at the current wall clock.
pub fn apply_transformation(value: String, transformation: &str) -> (r: String)
    ensures
        exists|now: StampVal| #[trigger] now.wf() && r@ == transformed(
            value@,
            transformation@,
            now,
        ),
{
    let now = local_now_clamped();
    let r = apply_transformation_at(value.as_str(), transformation, &now);
    proof {
        assert(now.wf() && r@ == transformed(value@, transformation@, now));
    }
    r
}

} // verus!
