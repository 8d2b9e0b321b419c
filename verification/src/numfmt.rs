//! Decimal formatting and parsing over character sequences.

use vstd::prelude::*;
use crate::text::is_digit;

verus! {

/// The character for one decimal digit.
pub open spec fn digit_char_of(d: int) -> char {
    if d == 0 { '0' } else if d == 1 { '1' } else if d == 2 { '2' }
    else if d == 3 { '3' } else if d == 4 { '4' } else if d == 5 { '5' }
    else if d == 6 { '6' } else if d == 7 { '7' } else if d == 8 { '8' }
    else if d == 9 { '9' } else { '0' }
}

pub fn digit_to_char(d: u64) -> (r: char)
    requires
        d < 10,
    ensures
        r == digit_char_of(d as int),
{
    if d == 0 { '0' } else if d == 1 { '1' } else if d == 2 { '2' }
    else if d == 3 { '3' } else if d == 4 { '4' } else if d == 5 { '5' }
    else if d == 6 { '6' } else if d == 7 { '7' } else if d == 8 { '8' }
    else { '9' }
}

/// Two-digit zero-padded decimal.
pub open spec fn pad2_of(n: int) -> Seq<char> {
    seq![digit_char_of((n / 10) % 10), digit_char_of(n % 10)]
}

/// Four-digit zero-padded decimal.
pub open spec fn pad4_of(n: int) -> Seq<char> {
    seq![
        digit_char_of((n / 1000) % 10),
        digit_char_of((n / 100) % 10),
        digit_char_of((n / 10) % 10),
        digit_char_of(n % 10),
    ]
}

pub fn pad2(n: u64) -> (r: Vec<char>)
    requires
        n < 100,
    ensures
        r@ == pad2_of(n as int),
{
    let mut v: Vec<char> = Vec::new();
    v.push(digit_to_char(n / 10));
    v.push(digit_to_char(n % 10));
    proof {
        assert(v@ =~= pad2_of(n as int));
    }
    v
}

pub fn pad4(n: u64) -> (r: Vec<char>)
    requires
        n < 10000,
    ensures
        r@ == pad4_of(n as int),
{
    let mut v: Vec<char> = Vec::new();
    v.push(digit_to_char(n / 1000));
    v.push(digit_to_char((n / 100) % 10));
    v.push(digit_to_char((n / 10) % 10));
    v.push(digit_to_char(n % 10));
    proof {
        assert(v@ =~= pad4_of(n as int));
    }
    v
}

/// Decimal text of a nonnegative number, without leading zeros.
pub open spec fn dec_of(n: int) -> Seq<char>
    decreases n,
{
    if n < 10 {
        seq![digit_char_of(n)]
    } else {
        dec_of(n / 10).push(digit_char_of(n % 10))
    }
}

pub fn u64_dec(n: u64) -> (r: Vec<char>)
    ensures
        r@ == dec_of(n as int),
    decreases n,
{
    if n < 10 {
        let mut v: Vec<char> = Vec::new();
        v.push(digit_to_char(n));
        proof {
            assert(v@ =~= dec_of(n as int));
        }
        v
    } else {
        let mut v = u64_dec(n / 10);
        v.push(digit_to_char(n % 10));
        v
    }
}

/// Decimal text of a signed number.
pub open spec fn dec_signed_of(n: int) -> Seq<char> {
    if n < 0 {
        seq!['-'] + dec_of(-n)
    } else {
        dec_of(n)
    }
}

pub fn i64_dec(n: i64) -> (r: Vec<char>)
    ensures
        r@ == dec_signed_of(n as int),
{
    if n >= 0 {
        u64_dec(n as u64)
    } else {
        let mag: u64 = ((-(n + 1)) as u64) + 1;
        proof {
            assert(mag as int == -(n as int));
        }
        let digits = u64_dec(mag);
        let mut v: Vec<char> = Vec::new();
        v.push('-');
        let r = crate::text::concat_chars(&v, &digits);
        proof {
            assert(v@ =~= seq!['-']);
        }
        r
    }
}

/// Numeric value of a digit sequence, most significant first.
pub open spec fn digits_val(s: Seq<char>) -> int
    decreases s.len(),
{
    if s.len() == 0 {
        0
    } else {
        digits_val(s.drop_last()) * 10 + (s.last() as u32 - 48)
    }
}

pub proof fn lemma_digits_val_bounds(s: Seq<char>)
    requires
        forall|i: int| 0 <= i < s.len() ==> is_digit(#[trigger] s[i]),
    ensures
        digits_val(s) >= 0,
    decreases s.len(),
{
    if s.len() > 0 {
        lemma_digits_val_bounds(s.drop_last());
    }
}

proof fn lemma_digits_val_mono(s: Seq<char>, k: int)
    requires
        0 <= k <= s.len(),
        forall|i: int| 0 <= i < s.len() ==> is_digit(#[trigger] s[i]),
    ensures
        digits_val(s.take(k)) >= 0,
        digits_val(s) >= digits_val(s.take(k)),
    decreases s.len() - k,
{
    lemma_digits_val_bounds(s.take(k));
    if k < s.len() {
        lemma_digits_val_mono(s, k + 1);
        assert(s.take(k + 1).drop_last() =~= s.take(k));
        assert(digits_val(s.take(k + 1)) == digits_val(s.take(k)) * 10 + (s[k] as u32 - 48));
        assert(digits_val(s.take(k)) * 10 >= digits_val(s.take(k))) by (nonlinear_arith)
            requires digits_val(s.take(k)) >= 0,
        ;
    } else {
        assert(s.take(k) =~= s);
    }
}

/// The text with one leading `+` removed, if present.
pub open spec fn sign_stripped(s: Seq<char>) -> Seq<char> {
    if s.len() > 0 && s[0] == '+' {
        s.drop_first()
    } else {
        s
    }
}

/// The value a `usize` reads from this text: an optional `+`, then digits.
pub open spec fn parse_usize_of(s: Seq<char>) -> Option<int> {
    let t = sign_stripped(s);
    if t.len() > 0 && (forall|i: int| 0 <= i < t.len() ==> is_digit(#[trigger] t[i]))
        && digits_val(t) <= usize::MAX as int {
        Some(digits_val(t))
    } else {
        None
    }
}

pub fn parse_usize(v: &Vec<char>) -> (r: Option<usize>)
    ensures
        match r {
            Some(n) => parse_usize_of(v@) == Some(n as int),
            None => parse_usize_of(v@) is None,
        },
{
    let start: usize = if v.len() > 0 && v[0] == '+' {
        1
    } else {
        0
    };
    let ghost t = sign_stripped(v@);
    proof {
        assert(t =~= v@.subrange(start as int, v@.len() as int));
    }
    if v.len() == start {
        return None;
    }
    let mut acc: usize = 0;
    let mut i: usize = start;
    while i < v.len()
        invariant
            start <= i <= v@.len(),
            t == v@.subrange(start as int, v@.len() as int),
            t == sign_stripped(v@),
            start == (if v@.len() > 0 && v@[0] == '+' { 1int } else { 0int }),
            forall|j: int| start <= j < i ==> is_digit(#[trigger] v@[j]),
            acc as int == digits_val(t.take(i - start as int)),
        decreases v@.len() - i,
    {
        let c = v[i];
        if !crate::text::digit_char(c) {
            proof {
                assert(t[i - start] == v@[i as int]);
                assert(!is_digit(t[i - start]));
            }
            return None;
        }
        let du: u32 = c as u32 - 48;
        let d: usize = du as usize;
        proof {
            assert(t.take(i + 1 - start).drop_last() =~= t.take(i - start));
            assert(t.take(i + 1 - start).last() == v@[i as int]);
            assert(digits_val(t.take(i + 1 - start)) == acc as int * 10 + d as int);
        }
        if acc > (usize::MAX - d) / 10 {
            proof {
                assert(acc as int * 10 + d as int > usize::MAX as int) by (nonlinear_arith)
                    requires
                        acc as int > (usize::MAX as int - d as int) / 10,
                        0 <= d as int <= 9,
                        usize::MAX as int >= 9,
                ;
                if forall|j: int| 0 <= j < t.len() ==> is_digit(#[trigger] t[j]) {
                    lemma_digits_val_mono(t, i + 1 - start);
                    assert(digits_val(t) > usize::MAX as int);
                }
            }
            return None;
        }
        acc = acc * 10 + d;
        i = i + 1;
    }
    proof {
        assert(t.take(v@.len() - start as int) =~= t);
        assert(forall|j: int| 0 <= j < t.len() ==> t[j] == v@[j + start]);
    }
    Some(acc)
}

/// After an optional `+`, digits reading exactly the value two.
pub open spec fn strip_zeros(s: Seq<char>) -> Seq<char>
    decreases s.len(),
{
    if s.len() > 0 && s.first() == '0' {
        strip_zeros(s.drop_first())
    } else {
        s
    }
}

/// The text a signed integer parse reads as the value two.
pub open spec fn reads_as_two(s: Seq<char>) -> bool {
    let t = sign_stripped(s);
    t.len() > 0 && (forall|i: int| 0 <= i < t.len() ==> is_digit(#[trigger] t[i]))
        && strip_zeros(t) == seq!['2']
}

proof fn lemma_strip_zeros_range(s: Seq<char>, k: int)
    requires
        0 <= k <= s.len(),
        forall|j: int| 0 <= j < k ==> s[j] == '0',
    ensures
        strip_zeros(s) == strip_zeros(s.skip(k)),
    decreases k,
{
    if k > 0 {
        lemma_strip_zeros_range(s, k - 1);
        let t = s.skip(k - 1);
        assert(t.len() > 0);
        assert(t.first() == s[k - 1]);
        assert(strip_zeros(t) == strip_zeros(t.drop_first()));
        assert(t.drop_first() =~= s.skip(k));
    } else {
        assert(s.skip(0) =~= s);
    }
}

pub fn is_two_repr(v: &Vec<char>) -> (r: bool)
    ensures
        r == reads_as_two(v@),
{
    let start: usize = if v.len() > 0 && v[0] == '+' {
        1
    } else {
        0
    };
    let ghost t = sign_stripped(v@);
    proof {
        assert(t =~= v@.subrange(start as int, v@.len() as int));
    }
    if v.len() == start {
        return false;
    }
    let mut i: usize = start;
    while i < v.len()
        invariant
            start <= i <= v@.len(),
            t == v@.subrange(start as int, v@.len() as int),
            t == sign_stripped(v@),
            start == (if v@.len() > 0 && v@[0] == '+' { 1int } else { 0int }),
            forall|j: int| start <= j < i ==> is_digit(#[trigger] v@[j]),
        decreases v@.len() - i,
    {
        if !crate::text::digit_char(v[i]) {
            proof {
                assert(t[i - start] == v@[i as int]);
            }
            return false;
        }
        i = i + 1;
    }
    proof {
        assert(forall|j: int| 0 <= j < t.len() ==> t[j] == v@[j + start] && is_digit(t[j]));
    }
    let mut z: usize = start;
    while z < v.len() && v[z] == '0'
        invariant
            start <= z <= v@.len(),
            t == v@.subrange(start as int, v@.len() as int),
            t == sign_stripped(v@),
            start == (if v@.len() > 0 && v@[0] == '+' { 1int } else { 0int }),
            forall|j: int| 0 <= j < t.len() ==> is_digit(#[trigger] t[j]),
            forall|j: int| start <= j < z ==> v@[j] == '0',
        decreases v@.len() - z,
    {
        z = z + 1;
    }
    proof {
        assert(forall|j: int| 0 <= j < z - start ==> t[j] == '0');
        lemma_strip_zeros_range(t, z - start as int);
        if z < v@.len() {
            assert(t.skip(z - start as int).first() == v@[z as int]);
            assert(strip_zeros(t.skip(z - start as int)) == t.skip(z - start as int));
        } else {
            assert(t.skip(z - start as int) =~= Seq::<char>::empty());
        }
    }
    if z == v.len() {
        proof {
            assert(strip_zeros(t).len() == 0);
        }
        return false;
    }
    if z + 1 == v.len() && v[z] == '2' {
        proof {
            assert(t.skip(z - start as int) =~= seq!['2']);
        }
        true
    } else {
        proof {
            if v@[z as int] == '2' {
                assert(t.skip(z - start as int).len() >= 2);
            } else {
                assert(strip_zeros(t)[0] != '2');
            }
        }
        false
    }
}

} // verus!
