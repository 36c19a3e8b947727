//! Numbers as text. Dawn stores every value as text and re-parses it on
//! demand. Integer parsing and printing are implemented and verified here
//! against exact decimal specifications. Arithmetic on non-integral numbers
//! is native double-precision work that cannot live in the verified library,
//! so it sits behind the [`Numerics`] trait: the front end supplies the
//! double implementation, and every contract in the engine states what holds
//! whatever that implementation returns.

use vstd::prelude::*;

verus! {

/// The four arithmetic builtins' operations.
#[derive(Clone, Copy, Debug, PartialEq, Eq, Structural)]
pub enum ArithOp {
    Add,
    Sub,
    Mul,
    Div,
}

/// The two numeric comparison builtins' operations.
#[derive(Clone, Copy, Debug, PartialEq, Eq, Structural)]
pub enum CmpOp {
    Gt,
    Lt,
}

/// Native double-precision arithmetic on numbers held as text.
///
/// `is_number` says whether the text parses as a double. `binop` parses both
/// operands as doubles, applies the operation, and returns whether the result
/// has zero fractional part together with the result's text (the integral
/// flag decides whether the engine tags the result INT or FLOAT). `compare`
/// orders two operands as doubles. Implementations may panic on text that
/// does not parse as a double; the engine only hands them operand text of
/// INT- or FLOAT-tagged tokens.
pub trait Numerics {
    fn is_number(&self, s: &str) -> bool;

    fn binop(&self, op: ArithOp, a: &str, b: &str) -> (bool, String);

    fn compare(&self, op: CmpOp, a: &str, b: &str) -> bool;
}

pub open spec fn is_digit(c: char) -> bool {
    48 <= c as u32 <= 57
}

pub open spec fn digit_val(c: char) -> int {
    c as u32 - 48
}

pub open spec fn all_digits(s: Seq<char>) -> bool {
    forall|i: int| 0 <= i < s.len() ==> is_digit(#[trigger] s[i])
}

/// The value of a sequence of decimal digits.
pub open spec fn dec_val(s: Seq<char>) -> int
    decreases s.len(),
{
    if s.len() == 0 {
        0
    } else {
        dec_val(s.drop_last()) * 10 + digit_val(s.last())
    }
}

/// The digits of a signed decimal text: everything after one optional
/// leading `+` or `-`.
pub open spec fn signed_digits(s: Seq<char>) -> Seq<char> {
    if s.len() > 0 && (s[0] == '+' || s[0] == '-') {
        s.drop_first()
    } else {
        s
    }
}

/// Whether `s` has the shape of a signed decimal integer: an optional sign
/// followed by at least one digit, nothing else.
pub open spec fn is_int_shape(s: Seq<char>) -> bool {
    signed_digits(s).len() > 0 && all_digits(signed_digits(s))
}

/// The mathematical value of a signed decimal text.
pub open spec fn int_text_val(s: Seq<char>) -> int {
    if s.len() > 0 && s[0] == '-' {
        -dec_val(signed_digits(s))
    } else {
        dec_val(signed_digits(s))
    }
}

/// Whether `s` parses as an `i64`, exactly as `str::parse::<i64>` accepts:
/// an optional sign, one or more digits, and a value within range.
pub open spec fn is_i64_text(s: Seq<char>) -> bool {
    is_int_shape(s) && i64::MIN <= int_text_val(s) <= i64::MAX
}

/// Whether `s` parses as a `usize`: an optional leading `+`, one or more
/// digits, and a value within range.
pub open spec fn is_usize_text(s: Seq<char>) -> bool {
    is_int_shape(s) && !(s.len() > 0 && s[0] == '-') && int_text_val(s) <= usize::MAX
}

pub proof fn lemma_dec_val_nonneg(s: Seq<char>)
    requires
        all_digits(s),
    ensures
        dec_val(s) >= 0,
    decreases s.len(),
{
    if s.len() > 0 {
        assert(all_digits(s.drop_last()));
        lemma_dec_val_nonneg(s.drop_last());
    }
}

/// Appending further digits can only grow a digit string's value; one more
/// digit multiplies the prefix's value by at least ten.
pub proof fn lemma_dec_val_prefix(s: Seq<char>, i: int)
    requires
        all_digits(s),
        0 <= i <= s.len(),
    ensures
        dec_val(s) >= dec_val(s.subrange(0, i)),
        i < s.len() ==> dec_val(s) >= dec_val(s.subrange(0, i)) * 10,
    decreases s.len() - i,
{
    if i == s.len() {
        assert(s.subrange(0, i) =~= s);
    } else {
        assert(all_digits(s.drop_last()));
        if i == s.len() - 1 {
            assert(s.subrange(0, i) =~= s.drop_last());
            lemma_dec_val_nonneg(s.drop_last());
        } else {
            lemma_dec_val_prefix(s.drop_last(), i);
            assert(s.drop_last().subrange(0, i) =~= s.subrange(0, i));
            lemma_dec_val_nonneg(s.subrange(0, i));
        }
    }
}

/// An integer text is made of digits, after one optional leading sign.
pub proof fn lemma_i64_chars(s: Seq<char>)
    requires
        is_i64_text(s),
    ensures
        s.len() >= 1,
        forall|j: int|
            0 <= j < s.len() ==> is_digit(#[trigger] s[j]) || (j == 0 && (s[0] == '+' || s[0]
                == '-')),
{
    let sd = signed_digits(s);
    if s.len() > 0 && (s[0] == '+' || s[0] == '-') {
        assert forall|j: int|
            0 <= j < s.len() implies is_digit(#[trigger] s[j]) || (j == 0 && (s[0] == '+' || s[0]
                == '-')) by {
            if j >= 1 {
                assert(sd[j - 1] == s[j]);
                assert(is_digit(sd[j - 1]));
            }
        }
    } else {
        assert forall|j: int|
            0 <= j < s.len() implies is_digit(#[trigger] s[j]) || (j == 0 && (s[0] == '+' || s[0]
                == '-')) by {
            assert(sd[j] == s[j]);
            assert(is_digit(sd[j]));
        }
    }
}

/// Parses an unsigned digit run `w[from..]`, exactly when it is one or more
/// digits whose value fits in `u64`.
fn parse_digits(w: &Vec<char>, from: usize) -> (r: Option<u64>)
    requires
        from <= w@.len(),
    ensures
        match r {
            Some(v) => {
                &&& all_digits(w@.subrange(from as int, w@.len() as int))
                &&& w@.len() > from
                &&& v == dec_val(w@.subrange(from as int, w@.len() as int))
            },
            None => !(w@.len() > from && all_digits(w@.subrange(from as int, w@.len() as int))
                && dec_val(w@.subrange(from as int, w@.len() as int)) <= u64::MAX),
        },
{
    let ghost d = w@.subrange(from as int, w@.len() as int);
    let n = w.len();
    if from >= n {
        return None;
    }
    let mut acc: u64 = 0;
    let mut i: usize = from;
    while i < n
        invariant
            from <= i <= n,
            n == w@.len(),
            from < n,
            d == w@.subrange(from as int, w@.len() as int),
            all_digits(d.subrange(0, i - from)),
            acc == dec_val(d.subrange(0, i - from)),
        decreases n - i,
    {
        let c = w[i];
        let cv: u32 = c as u32;
        if !(48 <= cv && cv <= 57) {
            proof {
                assert(d[i - from] == w@[i as int]);
                assert(!is_digit(d[i - from]));
            }
            return None;
        }
        let dig: u64 = (cv - 48) as u64;
        proof {
            assert(d[i - from] == w@[i as int]);
            assert(d.subrange(0, i - from + 1).drop_last() =~= d.subrange(0, i - from));
            assert(d.subrange(0, i - from + 1).last() == w@[i as int]);
        }
        if acc > 1844674407370955161u64 || (acc == 1844674407370955161u64 && dig > 5) {
            proof {
                assert(dec_val(d.subrange(0, i - from + 1)) == acc * 10 + dig);
                assert(dec_val(d.subrange(0, i - from + 1)) > u64::MAX);
                if all_digits(d) && dec_val(d) <= u64::MAX {
                    lemma_dec_val_prefix(d, i - from + 1);
                }
            }
            return None;
        }
        acc = acc * 10 + dig;
        i += 1;
    }
    proof {
        assert(d.subrange(0, n - from) =~= d);
    }
    Some(acc)
}

/// Parses a signed decimal integer exactly as `str::parse::<i64>` does.
pub fn parse_i64(w: &Vec<char>) -> (r: Option<i64>)
    ensures
        r is Some <==> is_i64_text(w@),
        r is Some ==> r->Some_0 == int_text_val(w@),
{
    let n = w.len();
    if n == 0 {
        return None;
    }
    let c0 = w[0];
    let neg = c0 == '-';
    let from: usize = if c0 == '-' || c0 == '+' {
        1
    } else {
        0
    };
    proof {
        if from == 1 {
            assert(signed_digits(w@) =~= w@.subrange(1, w@.len() as int));
        } else {
            assert(signed_digits(w@) =~= w@.subrange(0, w@.len() as int));
            assert(w@.subrange(0, w@.len() as int) =~= w@);
        }
    }
    match parse_digits(w, from) {
        None => {
            proof {
                if is_i64_text(w@) {
                    lemma_dec_val_nonneg(signed_digits(w@));
                }
            }
            None
        },
        Some(v) => {
            if neg {
                if v > 9223372036854775808u64 {
                    None
                } else if v == 9223372036854775808u64 {
                    Some(i64::MIN)
                } else {
                    Some(-(v as i64))
                }
            } else {
                if v > i64::MAX as u64 {
                    None
                } else {
                    Some(v as i64)
                }
            }
        },
    }
}

/// Parses an unsigned decimal index exactly as `str::parse::<usize>` does.
pub fn parse_usize(w: &Vec<char>) -> (r: Option<usize>)
    ensures
        r is Some <==> is_usize_text(w@),
        r is Some ==> r->Some_0 == int_text_val(w@),
{
    let n = w.len();
    if n == 0 {
        return None;
    }
    let c0 = w[0];
    if c0 == '-' {
        return None;
    }
    let from: usize = if c0 == '+' {
        1
    } else {
        0
    };
    proof {
        if from == 1 {
            assert(signed_digits(w@) =~= w@.subrange(1, w@.len() as int));
        } else {
            assert(signed_digits(w@) =~= w@.subrange(0, w@.len() as int));
            assert(w@.subrange(0, w@.len() as int) =~= w@);
        }
    }
    match parse_digits(w, from) {
        None => {
            proof {
                if is_usize_text(w@) {
                    lemma_dec_val_nonneg(signed_digits(w@));
                }
            }
            None
        },
        Some(v) => {
            if v > usize::MAX as u64 {
                None
            } else {
                Some(v as usize)
            }
        },
    }
}

/// Parses a signed decimal integer exactly as `str::parse::<i32>` does.
pub fn parse_i32(w: &Vec<char>) -> (r: Option<i32>)
    ensures
        r is Some <==> is_int_shape(w@) && i32::MIN <= int_text_val(w@) <= i32::MAX,
        r is Some ==> r->Some_0 == int_text_val(w@),
{
    match parse_i64(w) {
        None => {
            proof {
                if is_int_shape(w@) && i32::MIN <= int_text_val(w@) <= i32::MAX {
                    assert(is_i64_text(w@));
                }
            }
            None
        },
        Some(v) => {
            if v < i32::MIN as i64 || v > i32::MAX as i64 {
                None
            } else {
                Some(v as i32)
            }
        },
    }
}

pub open spec fn digit_char(d: int) -> char {
    if d == 0 {
        '0'
    } else if d == 1 {
        '1'
    } else if d == 2 {
        '2'
    } else if d == 3 {
        '3'
    } else if d == 4 {
        '4'
    } else if d == 5 {
        '5'
    } else if d == 6 {
        '6'
    } else if d == 7 {
        '7'
    } else if d == 8 {
        '8'
    } else {
        '9'
    }
}

/// The decimal digits of `n`, most significant first, no sign and no
/// leading zero (except for zero itself).
pub open spec fn dec_digits(n: int) -> Seq<char>
    decreases n,
{
    if n < 10 {
        seq![digit_char(n)]
    } else {
        dec_digits(n / 10).push(digit_char(n % 10))
    }
}

fn digit_of(d: usize) -> (c: char)
    requires
        d < 10,
    ensures
        c == digit_char(d as int),
{
    match d {
        0 => '0',
        1 => '1',
        2 => '2',
        3 => '3',
        4 => '4',
        5 => '5',
        6 => '6',
        7 => '7',
        8 => '8',
        _ => '9',
    }
}

fn dec_chars(n: usize) -> (r: Vec<char>)
    ensures
        r@ == dec_digits(n as int),
    decreases n,
{
    if n < 10 {
        let mut r: Vec<char> = Vec::new();
        r.push(digit_of(n));
        assert(r@ =~= seq![digit_char(n as int)]);
        r
    } else {
        let mut r = dec_chars(n / 10);
        r.push(digit_of(n % 10));
        r
    }
}

/// The decimal text of `n`.
pub fn dec_string(n: usize) -> (r: String)
    ensures
        r@ == dec_digits(n as int),
{
    let cs = dec_chars(n);
    crate::text::string_of(&cs)
}

} // verus!
