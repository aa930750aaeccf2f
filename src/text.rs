use vstd::prelude::*;

use crate::flag::{all_digits, is_digit};

verus! {

/// `--n`
pub open spec fn long_form(n: Seq<char>) -> Seq<char> {
    seq!['-', '-'] + n
}

/// `-n`
pub open spec fn short_form(n: Seq<char>) -> Seq<char> {
    seq!['-'] + n
}

/// The characters of `s`, one by one.
pub fn chars_of(s: &str) -> (r: Vec<char>)
    ensures
        r@ == s@,
{
    let n = s.unicode_len();
    let mut r: Vec<char> = Vec::new();
    let mut i: usize = 0;
    while i < n
        invariant
            n == s@.len(),
            i <= n,
            r@ == s@.subrange(0, i as int),
        decreases n - i,
    {
        r.push(s.get_char(i));
        i = i + 1;
        assert(r@ =~= s@.subrange(0, i as int));
    }
    assert(s@.subrange(0, n as int) =~= s@);
    r
}

/// `--n` as a string.
pub fn make_long(n: &str) -> (r: String)
    ensures
        r@ == long_form(n@),
{
    let r = String::from_str("--").concat(n);
    proof {
        reveal_strlit("--");
    }
    r
}

/// `-n` as a string.
pub fn make_short(n: &str) -> (r: String)
    ensures
        r@ == short_form(n@),
{
    let r = String::from_str("-").concat(n);
    proof {
        reveal_strlit("-");
    }
    r
}

/// `c` is `w` or its upper-case form, for a lower-case letter `w`.
pub open spec fn same_letter(c: char, w: char) -> bool {
    c == w || ('A' <= c && c <= 'Z' && c as u32 + 32 == w as u32)
}

/// `b` spells `word` when lowercased.
pub open spec fn spells(b: Seq<char>, word: Seq<char>) -> bool {
    b.len() == word.len() && forall|i: int| 0 <= i < b.len() ==> same_letter(#[trigger] b[i], word[i])
}

pub open spec fn is_exp_mark(c: char) -> bool {
    c == 'e' || c == 'E'
}

/// Digits with at most one `.` among them, and at least one digit.
pub open spec fn is_mantissa(m: Seq<char>) -> bool {
    &&& forall|i: int| 0 <= i < m.len() ==> is_digit(#[trigger] m[i]) || m[i] == '.'
    &&& forall|i: int, j: int| 0 <= i < m.len() && 0 <= j < m.len() && #[trigger] m[i] == '.' && #[trigger] m[j] == '.' ==> i == j
    &&& exists|i: int| 0 <= i < m.len() && is_digit(#[trigger] m[i])
}

/// An optional sign, then digits.
pub open spec fn is_exponent(x: Seq<char>) -> bool {
    (x.len() > 0 && (x[0] == '+' || x[0] == '-') && all_digits(x.drop_first())) || all_digits(x)
}

/// A mantissa, then optionally `e` or `E` and an exponent.
pub open spec fn is_number_text(b: Seq<char>) -> bool {
    ((forall|i: int| 0 <= i < b.len() ==> !is_exp_mark(#[trigger] b[i])) && is_mantissa(b))
        || exists|k: int|
        0 <= k < b.len() && is_exp_mark(#[trigger] b[k]) && is_mantissa(b.take(k))
            && is_exponent(b.skip(k + 1))
}

pub open spec fn is_unsigned_float_text(b: Seq<char>) -> bool {
    spells(b, seq!['i', 'n', 'f']) || spells(b, seq!['i', 'n', 'f', 'i', 'n', 'i', 't', 'y'])
        || spells(b, seq!['n', 'a', 'n']) || is_number_text(b)
}

/// The text form of a floating-point number: an optional sign, then `inf`,
/// `infinity` or `nan` in any case, or a decimal number with an optional exponent.
pub open spec fn is_float_text(s: Seq<char>) -> bool {
    if s.len() > 0 && (s[0] == '+' || s[0] == '-') {
        is_unsigned_float_text(s.drop_first())
    } else {
        is_unsigned_float_text(s)
    }
}

fn same_letter_exec(c: char, w: char) -> (r: bool)
    ensures
        r == same_letter(c, w),
{
    c == w || ('A' <= c && c <= 'Z' && c as u32 + 32 == w as u32)
}

/// Whether `cs[from..]` spells `word` when lowercased.
fn spells_at(cs: &Vec<char>, from: usize, word: &Vec<char>) -> (r: bool)
    requires
        from <= cs@.len(),
    ensures
        r == spells(cs@.skip(from as int), word@),
{
    let ghost b = cs@.skip(from as int);
    let n = cs.len();
    if n - from != word.len() {
        return false;
    }
    let mut i: usize = 0;
    while i < word.len()
        invariant
            b == cs@.skip(from as int),
            from <= cs@.len(),
            b.len() == word@.len(),
            from + word@.len() == n,
            n == cs@.len(),
            i <= word@.len(),
            forall|j: int| 0 <= j < i ==> same_letter(#[trigger] b[j], word@[j]),
        decreases word@.len() - i,
    {
        let k: usize = from + i;
        if !same_letter_exec(cs[k], word[i]) {
            assert(!same_letter(b[i as int], word@[i as int]));
            return false;
        }
        i = i + 1;
    }
    true
}

/// Whether `cs[lo..hi]` is a mantissa.
fn mantissa_at(cs: &Vec<char>, lo: usize, hi: usize) -> (r: bool)
    requires
        lo <= hi <= cs@.len(),
    ensures
        r == is_mantissa(cs@.subrange(lo as int, hi as int)),
{
    let ghost m = cs@.subrange(lo as int, hi as int);
    let mut dot: Option<usize> = None;
    let mut digit: Option<usize> = None;
    let mut i: usize = lo;
    while i < hi
        invariant
            lo <= i <= hi <= cs@.len(),
            m == cs@.subrange(lo as int, hi as int),
            forall|j: int| 0 <= j < i - lo ==> is_digit(#[trigger] m[j]) || m[j] == '.',
            match dot {
                None => forall|j: int| 0 <= j < i - lo ==> #[trigger] m[j] != '.',
                Some(p) => lo <= p < i && m[p - lo] == '.' && forall|j: int|
                    0 <= j < i - lo && j != p - lo ==> #[trigger] m[j] != '.',
            },
            match digit {
                None => forall|j: int| 0 <= j < i - lo ==> !is_digit(#[trigger] m[j]),
                Some(p) => lo <= p < i && is_digit(m[p - lo]),
            },
        decreases hi - i,
    {
        let c = cs[i];
        assert(c == m[i - lo]);
        if '0' <= c && c <= '9' {
            digit = Some(i);
        } else if c == '.' {
            if let Some(p) = dot {
                assert(m[p - lo] == '.' && m[i - lo] == '.');
                return false;
            }
            dot = Some(i);
        } else {
            return false;
        }
        i = i + 1;
    }
    match digit {
        None => {
            assert(!(exists|j: int| 0 <= j < m.len() && is_digit(#[trigger] m[j])));
            false
        },
        Some(p) => {
            assert(is_digit(m[p - lo]));
            true
        },
    }
}

/// Whether `cs[from..]` is an exponent.
fn exponent_at(cs: &Vec<char>, from: usize) -> (r: bool)
    requires
        from <= cs@.len(),
    ensures
        r == is_exponent(cs@.skip(from as int)),
{
    let ghost x = cs@.skip(from as int);
    let start: usize = if from < cs.len() && (cs[from] == '+' || cs[from] == '-') {
        from + 1
    } else {
        from
    };
    proof {
        if start > from {
            assert(x[0] == cs@[from as int]);
            assert(!is_digit(x[0]));
        }
    }
    if start == cs.len() {
        return false;
    }
    let mut i: usize = start;
    while i < cs.len()
        invariant
            from <= start <= i <= cs@.len(),
            start < cs@.len(),
            x == cs@.skip(from as int),
            start == from ==> !(cs@[from as int] == '+' || cs@[from as int] == '-'),
            start > from ==> start == from + 1 && (cs@[from as int] == '+' || cs@[from as int]
                == '-'),
            forall|j: int| start <= j < i ==> is_digit(#[trigger] cs@[j]),
        decreases cs@.len() - i,
    {
        if !('0' <= cs[i] && cs[i] <= '9') {
            proof {
                assert(x[i - from] == cs@[i as int]);
                assert(!is_digit(x[i - from]));
                assert(!all_digits(x));
                if start > from {
                    assert(!all_digits(x.drop_first())) by {
                        assert(x.drop_first()[i - from - 1] == x[i - from]);
                    }
                } else {
                    assert(x[0] == cs@[from as int]);
                }
            }
            return false;
        }
        i = i + 1;
    }
    proof {
        assert(x[0] == cs@[from as int]);
        if start > from {
            assert(all_digits(x.drop_first())) by {
                assert forall|j: int| 0 <= j < x.drop_first().len() implies is_digit(
                    #[trigger] x.drop_first()[j],
                ) by {
                    assert(x.drop_first()[j] == cs@[from + 1 + j]);
                }
            }
        } else {
            assert(all_digits(x)) by {
                assert forall|j: int| 0 <= j < x.len() implies is_digit(#[trigger] x[j]) by {
                    assert(x[j] == cs@[from + j]);
                }
            }
        }
    }
    true
}

/// Whether `cs[from..]` is a number text.
fn number_at(cs: &Vec<char>, from: usize) -> (r: bool)
    requires
        from <= cs@.len(),
    ensures
        r == is_number_text(cs@.skip(from as int)),
{
    let ghost b = cs@.skip(from as int);
    let mut k: usize = from;
    while k < cs.len() && !(cs[k] == 'e' || cs[k] == 'E')
        invariant
            from <= k <= cs@.len(),
            b == cs@.skip(from as int),
            forall|j: int| 0 <= j < k - from ==> !is_exp_mark(#[trigger] b[j]),
        decreases cs@.len() - k,
    {
        assert(b[k - from] == cs@[k as int]);
        k = k + 1;
    }
    if k == cs.len() {
        assert(cs@.subrange(from as int, k as int) =~= b);
        let r = mantissa_at(cs, from, k);
        proof {
            if !r {
                assert forall|q: int|
                    !(0 <= q < b.len() && is_exp_mark(#[trigger] b[q]) && is_mantissa(b.take(q))
                        && is_exponent(b.skip(q + 1))) by {}
            }
        }
        r
    } else {
        let ghost kk = k - from;
        assert(b[kk] == cs@[k as int]);
        assert(cs@.subrange(from as int, k as int) =~= b.take(kk));
        assert(cs@.skip(k + 1) =~= b.skip(kk + 1));
        let r = mantissa_at(cs, from, k) && exponent_at(cs, k + 1);
        proof {
            if !r {
                assert forall|q: int|
                    !(0 <= q < b.len() && is_exp_mark(#[trigger] b[q]) && is_mantissa(b.take(q))
                        && is_exponent(b.skip(q + 1))) by {
                    if 0 <= q < b.len() && is_exp_mark(b[q]) && q > kk {
                        assert(b.take(q)[kk] == b[kk]);
                    }
                }
            }
        }
        r
    }
}

/// Whether `s` is the text form of a floating-point number.
pub fn check_float_text(s: &str) -> (r: bool)
    ensures
        r == is_float_text(s@),
{
    let cs = chars_of(s);
    let from: usize = if cs.len() > 0 && (cs[0] == '+' || cs[0] == '-') {
        1
    } else {
        0
    };
    let ghost b = cs@.skip(from as int);
    assert(from == 1 ==> b =~= s@.drop_first());
    assert(from == 0 ==> b =~= s@);
    let inf = vec!['i', 'n', 'f'];
    let infinity = vec!['i', 'n', 'f', 'i', 'n', 'i', 't', 'y'];
    let nan = vec!['n', 'a', 'n'];
    spells_at(&cs, from, &inf) || spells_at(&cs, from, &infinity) || spells_at(&cs, from, &nan)
        || number_at(&cs, from)
}

} // verus!
