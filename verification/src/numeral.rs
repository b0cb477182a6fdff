//! Recognising the text that `f64::from_str` accepts, so that a
//! `RestartSec=` value can be kept as text and read as a number by callers.

use vstd::prelude::*;

use crate::text::{is_digit, slice_of};

verus! {

pub open spec fn all_digits(s: Seq<char>) -> bool {
    forall|i: int| 0 <= i < s.len() ==> is_digit(#[trigger] s[i])
}

pub open spec fn is_sign(c: char) -> bool {
    c == '+' || c == '-'
}

pub open spec fn is_exp_mark(c: char) -> bool {
    c == 'e' || c == 'E'
}

pub open spec fn ascii_lower(c: char) -> char {
    if 'A' <= c <= 'Z' {
        ((c as u32) + 32) as char
    } else {
        c
    }
}

/// `s` equals the lower-case ASCII `word` up to ASCII case.
pub open spec fn eq_ignore_case(s: Seq<char>, word: Seq<char>) -> bool {
    s.len() == word.len() && forall|i: int| 0 <= i < s.len() ==> ascii_lower(#[trigger] s[i]) == word[i]
}

/// `Digit+ | Digit+ '.' Digit* | Digit* '.' Digit+`.
pub open spec fn mantissa_ok(m: Seq<char>) -> bool {
    ||| m.len() >= 1 && all_digits(m)
    ||| m.len() >= 2 && exists|d: int|
        0 <= d < m.len() && m[d] == '.' && all_digits(m.take(d)) && all_digits(#[trigger] m.skip(d + 1))
}

/// `Sign? Digit+`.
pub open spec fn exponent_ok(x: Seq<char>) -> bool {
    let y = if x.len() > 0 && is_sign(x[0]) {
        x.drop_first()
    } else {
        x
    };
    y.len() >= 1 && all_digits(y)
}

/// `Mantissa Exp?` where `Exp ::= ('e' | 'E') Sign? Digit+`.
pub open spec fn decimal_number(b: Seq<char>) -> bool {
    ||| mantissa_ok(b)
    ||| exists|i: int|
        0 <= i < b.len() && is_exp_mark(b[i]) && mantissa_ok(b.take(i)) && exponent_ok(
            #[trigger] b.skip(i + 1),
        )
}

/// The grammar std documents for `f64::from_str`:
/// `Sign? ('inf' | 'infinity' | 'nan' | Number)`, the words in any ASCII case.
pub open spec fn float_literal(s: Seq<char>) -> bool {
    let b = if s.len() > 0 && is_sign(s[0]) {
        s.drop_first()
    } else {
        s
    };
    ||| eq_ignore_case(b, "inf"@)
    ||| eq_ignore_case(b, "infinity"@)
    ||| eq_ignore_case(b, "nan"@)
    ||| decimal_number(b)
}

fn is_digit_exec(c: char) -> (r: bool)
    ensures
        r == is_digit(c),
{
    '0' <= c && c <= '9'
}

fn all_digits_exec(s: &Vec<char>, lo: usize, hi: usize) -> (r: bool)
    requires
        lo <= hi <= s.len(),
    ensures
        r == all_digits(s@.subrange(lo as int, hi as int)),
{
    let mut i = lo;
    while i < hi
        invariant
            lo <= i <= hi <= s.len(),
            forall|k: int| lo <= k < i ==> is_digit(#[trigger] s@[k]),
        decreases hi - i,
    {
        if !is_digit_exec(s[i]) {
            assert(s@.subrange(lo as int, hi as int)[i - lo] == s@[i as int]);
            return false;
        }
        i = i + 1;
    }
    assert forall|k: int| 0 <= k < hi - lo implies is_digit(
        #[trigger] s@.subrange(lo as int, hi as int)[k],
    ) by {
        assert(s@.subrange(lo as int, hi as int)[k] == s@[lo + k]);
    }
    true
}

fn lower_exec(c: char) -> (r: char)
    ensures
        r == ascii_lower(c),
{
    if 'A' <= c && c <= 'Z' {
        let u = (c as u32) + 32;
        assert(u < 128);
        let b = u as u8;
        b as char
    } else {
        c
    }
}

fn eq_ignore_case_exec(s: &Vec<char>, lo: usize, hi: usize, word: &str) -> (r: bool)
    requires
        lo <= hi <= s.len(),
    ensures
        r == eq_ignore_case(s@.subrange(lo as int, hi as int), word@),
{
    let w = crate::text::chars_of(word);
    if hi - lo != w.len() {
        return false;
    }
    let mut i: usize = 0;
    while i < w.len()
        invariant
            hi - lo == w.len(),
            lo <= hi <= s.len(),
            w@ == word@,
            i <= w.len(),
            forall|k: int| 0 <= k < i ==> ascii_lower(#[trigger] s@[lo + k]) == w@[k],
        decreases w.len() - i,
    {
        if lower_exec(s[lo + i]) != w[i] {
            assert(s@.subrange(lo as int, hi as int)[i as int] == s@[lo + i]);
            return false;
        }
        i = i + 1;
    }
    assert forall|k: int| 0 <= k < hi - lo implies ascii_lower(
        #[trigger] s@.subrange(lo as int, hi as int)[k],
    ) == word@[k] by {
        assert(s@.subrange(lo as int, hi as int)[k] == s@[lo + k]);
    }
    true
}

fn mantissa_exec(s: &Vec<char>, lo: usize, hi: usize) -> (r: bool)
    requires
        lo <= hi <= s.len(),
    ensures
        r == mantissa_ok(s@.subrange(lo as int, hi as int)),
{
    let ghost m = s@.subrange(lo as int, hi as int);
    let mut i = lo;
    while i < hi && s[i] != '.'
        invariant
            lo <= i <= hi <= s.len(),
            forall|k: int| lo <= k < i ==> s@[k] != '.',
        decreases hi - i,
    {
        i = i + 1;
    }
    if i == hi {
        let r = hi - lo >= 1 && all_digits_exec(s, lo, hi);
        proof {
            if hi - lo >= 2 {
                assert forall|d: int|
                    0 <= d < m.len() && m[d] == '.' && all_digits(m.take(d)) implies !all_digits(
                    #[trigger] m.skip(d + 1),
                ) by {
                    assert(m[d] == s@[lo + d]);
                }
            }
        }
        r
    } else {
        let d = i - lo;
        let r = hi - lo >= 2 && all_digits_exec(s, lo, i) && all_digits_exec(s, i + 1, hi);
        proof {
            assert(m[d as int] == '.');
            assert(m.take(d as int) =~= s@.subrange(lo as int, i as int));
            assert(m.skip(d + 1) =~= s@.subrange(i + 1, hi as int));
            assert(!all_digits(m)) by {
                assert(!is_digit(m[d as int]));
            }
            assert forall|e: int|
                0 <= e < m.len() && m[e] == '.' && e != d implies !(all_digits(m.take(e))
                && all_digits(#[trigger] m.skip(e + 1))) by {
                if e < d {
                    assert(m.skip(e + 1)[d - e - 1] == m[d as int]);
                } else {
                    assert(m[e] == s@[lo + e]);
                    assert(m.take(e)[d as int] == m[d as int]);
                }
            }
        }
        r
    }
}

fn exponent_exec(s: &Vec<char>, lo: usize, hi: usize) -> (r: bool)
    requires
        lo <= hi <= s.len(),
    ensures
        r == exponent_ok(s@.subrange(lo as int, hi as int)),
{
    let ghost x = s@.subrange(lo as int, hi as int);
    let start = if lo < hi && (s[lo] == '+' || s[lo] == '-') {
        assert(x.drop_first() =~= s@.subrange(lo + 1, hi as int));
        lo + 1
    } else {
        lo
    };
    hi - start >= 1 && all_digits_exec(s, start, hi)
}

fn decimal_number_exec(s: &Vec<char>, lo: usize, hi: usize) -> (r: bool)
    requires
        lo <= hi <= s.len(),
    ensures
        r == decimal_number(s@.subrange(lo as int, hi as int)),
{
    let ghost b = s@.subrange(lo as int, hi as int);
    let mut i = lo;
    while i < hi && s[i] != 'e' && s[i] != 'E'
        invariant
            lo <= i <= hi <= s.len(),
            forall|k: int| lo <= k < i ==> !is_exp_mark(#[trigger] s@[k]),
        decreases hi - i,
    {
        i = i + 1;
    }
    if i == hi {
        assert(b =~= s@.subrange(lo as int, hi as int));
        let r = mantissa_exec(s, lo, hi);
        proof {
            assert forall|j: int| 0 <= j < b.len() implies !is_exp_mark(#[trigger] b[j]) by {
                assert(b[j] == s@[lo + j]);
            }
        }
        r
    } else {
        let parts = mantissa_exec(s, lo, i) && exponent_exec(s, i + 1, hi);
        let ghost e = i - lo;
        proof {
            assert(b[e] == s@[i as int]);
            assert(b.take(e) =~= s@.subrange(lo as int, i as int));
            assert(b.skip(e + 1) =~= s@.subrange(i + 1, hi as int));
            // a mantissa holds only digits and '.', so neither the whole text
            // nor a mantissa ending after this mark can be one
            assert(!mantissa_ok(b)) by {
                assert(!is_digit(b[e]) && b[e] != '.');
                if b.len() >= 2 {
                    assert forall|d: int|
                        0 <= d < b.len() && b[d] == '.' && all_digits(b.take(d)) implies !all_digits(
                        #[trigger] b.skip(d + 1),
                    ) by {
                        if d < e {
                            assert(b.skip(d + 1)[e - d - 1] == b[e]);
                        } else {
                            assert(b.take(d)[e] == b[e]);
                        }
                    }
                }
            }
            assert forall|j: int|
                0 <= j < b.len() && is_exp_mark(b[j]) && j != e implies !(mantissa_ok(b.take(j))
                && exponent_ok(#[trigger] b.skip(j + 1))) by {
                if j < e {
                    assert(b[j] == s@[lo + j]);
                } else {
                    let t = b.take(j);
                    assert(t[e] == b[e]);
                    assert(!is_digit(t[e]) && t[e] != '.');
                    if t.len() >= 2 {
                        assert forall|d: int|
                            0 <= d < t.len() && t[d] == '.' && all_digits(t.take(d)) implies !all_digits(
                            #[trigger] t.skip(d + 1),
                        ) by {
                            if d < e {
                                assert(t.skip(d + 1)[e - d - 1] == t[e]);
                            } else {
                                assert(t.take(d)[e] == t[e]);
                            }
                        }
                    }
                }
            }
        }
        parts
    }
}

/// Whether `f64::from_str` accepts `s`.
pub fn is_float_literal(s: &Vec<char>) -> (r: bool)
    ensures
        r == float_literal(s@),
{
    let lo: usize = if s.len() > 0 && (s[0] == '+' || s[0] == '-') {
        1
    } else {
        0
    };
    let ghost b = s@.subrange(lo as int, s.len() as int);
    proof {
        if lo == 1 {
            assert(b =~= s@.drop_first());
        } else {
            assert(b =~= s@);
        }
    }
    eq_ignore_case_exec(s, lo, s.len(), "inf") || eq_ignore_case_exec(s, lo, s.len(), "infinity")
        || eq_ignore_case_exec(s, lo, s.len(), "nan") || decimal_number_exec(s, lo, s.len())
}

/// The `RestartSec=` value with trailing `s` characters removed, when what
/// remains reads as a number.
pub open spec fn restart_delay_text(v: Option<Seq<char>>) -> Option<Seq<char>> {
    match v {
        None => None,
        Some(s) => {
            let t = crate::text::trim_end_c(s, crate::text::CharClass::Is('s'));
            if float_literal(t) {
                Some(t)
            } else {
                None
            }
        },
    }
}

/// Reads `RestartSec=`: trailing `s` characters are dropped and the rest is
/// kept when it is a floating-point literal.
pub fn restart_delay(v: Option<&str>) -> (r: Option<String>)
    ensures
        r.deep_view() == restart_delay_text(v.deep_view()),
{
    match v {
        None => None,
        Some(s) => {
            let c = crate::text::chars_of(s);
            let e = crate::text::trim_end_range(&c, 0, c.len(), crate::text::CharClass::Is('s'));
            assert(c@.subrange(0, c.len() as int) =~= c@);
            let t = slice_of(&c, 0, e);
            if is_float_literal(&t) {
                Some(crate::text::string_of(&t))
            } else {
                None
            }
        },
    }
}

} // verus!
