//! The declaration-file grammar: semicolon-delimited fields, no header
//! row, rows separated by `\n` or `\r\n`, a variable field count
//! tolerated, and blank lines skipped.

use vstd::prelude::*;
use crate::text::{split_of, split_chars, to_chars, from_chars, sub_chars};

verus! {

/// One trailing carriage return removed.
pub open spec fn strip_cr(l: Seq<char>) -> Seq<char> {
    if l.len() > 0 && l.last() == '\r' {
        l.drop_last()
    } else {
        l
    }
}

/// The rows read from a list of lines: each nonblank line split on `;`.
pub open spec fn rows_of_lines(ls: Seq<Seq<char>>) -> Seq<Seq<Seq<char>>>
    decreases ls.len(),
{
    if ls.len() == 0 {
        Seq::empty()
    } else {
        let l = strip_cr(ls[0]);
        let rest = rows_of_lines(ls.drop_first());
        if l.len() == 0 {
            rest
        } else {
            seq![split_of(l, ';')] + rest
        }
    }
}

/// The rows read from a whole file's text.
pub open spec fn records_of(s: Seq<char>) -> Seq<Seq<Seq<char>>> {
    rows_of_lines(split_of(s, '\n'))
}

/// Parse a file's text into its rows of fields.
pub fn parse_records(text: &str) -> (r: Vec<Vec<String>>)
    ensures
        r.deep_view() == records_of(text@),
{
    let chars = to_chars(text);
    let lines = split_chars(&chars, '\n');
    let mut rows: Vec<Vec<String>> = Vec::new();
    proof {
        assert(lines.deep_view().skip(0) =~= lines.deep_view());
        assert(rows.deep_view() + rows_of_lines(lines.deep_view()) =~~= rows_of_lines(
            lines.deep_view(),
        ));
    }
    let mut i: usize = 0;
    while i < lines.len()
        invariant
            i <= lines@.len(),
            lines.deep_view() == split_of(chars@, '\n'),
            chars@ == text@,
            rows.deep_view() + rows_of_lines(lines.deep_view().skip(i as int)) == records_of(
                text@,
            ),
        decreases lines@.len() - i,
    {
        let ghost pre = rows.deep_view();
        let ghost tail = lines.deep_view().skip(i as int);
        proof {
            assert(tail.len() > 0);
            assert(tail[0] == lines.deep_view()[i as int]);
            assert(tail.drop_first() =~= lines.deep_view().skip(i + 1));
            assert(lines.deep_view()[i as int] == lines@[i as int]@);
        }
        let lr = &lines[i];
        let e: usize = if lr.len() > 0 && lr[lr.len() - 1] == '\r' {
            lr.len() - 1
        } else {
            lr.len()
        };
        let core = sub_chars(lr, 0, e);
        proof {
            if lr@.len() > 0 && lr@.last() == '\r' {
                assert(core@ =~= strip_cr(lr@));
            } else {
                assert(core@ =~= strip_cr(lr@));
            }
        }
        if core.len() > 0 {
            let fields = split_chars(&core, ';');
            let mut row: Vec<String> = Vec::new();
            let mut k: usize = 0;
            while k < fields.len()
                invariant
                    k <= fields@.len(),
                    row@.len() == k as int,
                    forall|j: int| 0 <= j < k ==> #[trigger] row@[j]@ == fields@[j]@,
                decreases fields@.len() - k,
            {
                let s = from_chars(&fields[k]);
                row.push(s);
                k = k + 1;
            }
            proof {
                assert forall|j: int| 0 <= j < row@.len() implies #[trigger] row.deep_view()[j]
                    == fields.deep_view()[j] by {
                    assert(row.deep_view()[j] == row@[j].deep_view());
                    assert(fields.deep_view()[j] == fields@[j].deep_view());
                }
                assert(row.deep_view() =~= fields.deep_view());
            }
            rows.push(row);
            proof {
                assert(rows.deep_view() =~~= pre + seq![split_of(strip_cr(lr@), ';')]);
                assert(rows_of_lines(tail) == seq![split_of(strip_cr(lr@), ';')] + rows_of_lines(
                    tail.drop_first(),
                ));
                assert(rows.deep_view() + rows_of_lines(lines.deep_view().skip(i + 1)) =~~= pre
                    + rows_of_lines(tail));
            }
        } else {
            proof {
                assert(rows_of_lines(tail) == rows_of_lines(tail.drop_first()));
            }
        }
        i = i + 1;
    }
    proof {
        assert(lines.deep_view().skip(lines.deep_view().len() as int) =~= Seq::<Seq<char>>::empty());
        assert(rows.deep_view() + Seq::<Seq<Seq<char>>>::empty() =~~= rows.deep_view());
    }
    rows
}

} // verus!
