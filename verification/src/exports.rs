//! The fixed-width formatting used by the reference-data export files.

use vstd::prelude::*;
use crate::text::{to_chars, from_chars, take_at_most, take_chars};
use crate::numfmt::{dec_signed_of, i64_dec};
use crate::mapping::opt_str;

verus! {

/// The result of one export run.
#[derive(Debug, Clone)]
pub struct ExportDatResult {
    pub output_path: String,
    pub rows: i64,
}

/// A run of spaces.
pub open spec fn spaces_of(n: int) -> Seq<char> {
    if n >= 0 {
        Seq::new(n as nat, |i: int| ' ')
    } else {
        Seq::empty()
    }
}

/// A value cut or space-padded to a fixed width, the value on the left.
pub open spec fn left_field_of(s: Seq<char>, width: int) -> Seq<char> {
    take_at_most(s, width) + spaces_of(width - take_at_most(s, width).len())
}

/// Format an optional text value into a fixed-width field; a missing
/// value gives a blank field.
pub fn format_left(value: Option<String>, width: usize) -> (r: String)
    ensures
        r@ == left_field_of(opt_str(value), width as int),
        r@.len() == width,
{
    let v: Vec<char> = match &value {
        Some(s) => to_chars(s.as_str()),
        None => Vec::new(),
    };
    let head = take_chars(&v, width);
    let mut out = head;
    while out.len() < width
        invariant
            out@.len() <= width,
            out@ == take_at_most(opt_str(value), width as int) + spaces_of(
                out@.len() - take_at_most(opt_str(value), width as int).len(),
            ),
            take_at_most(opt_str(value), width as int).len() <= out@.len(),
        decreases width - out.len(),
    {
        out.push(' ');
        proof {
            assert(out@ =~= take_at_most(opt_str(value), width as int) + spaces_of(
                out@.len() - take_at_most(opt_str(value), width as int).len(),
            ));
        }

    }
    proof {
        assert(out@ =~= left_field_of(opt_str(value), width as int));
    }
    from_chars(&out)
}

/// Format an optional number into a fixed-width field.
pub fn format_left_any(value: Option<i64>, width: usize) -> (r: String)
    ensures
        r@ == left_field_of(
            match value {
                Some(n) => dec_signed_of(n as int),
                None => Seq::empty(),
            },
            width as int,
        ),
        r@.len() == width,
{
    let s: Option<String> = match value {
        Some(n) => Some(from_chars(&i64_dec(n))),
        None => None,
    };
    format_left(s, width)
}

} // verus!
