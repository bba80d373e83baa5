//! Characters, strings and decimal numerals.
//!
//! Spec-level models for decimal rendering and reading, together with the
//! executable helpers the tokenizer, the parser and the lowering stage use to
//! build strings one character at a time.

use vstd::prelude::*;

verus! {

/// Relies on String::push: appends one character at the end of the string.
#[verifier::external_body]
pub(crate) fn push_char(s: &mut String, c: char) -> (r: ())
    ensures
        final(s)@ == old(s)@.push(c),
{
    s.push(c)
}

/// Builds a `String` holding exactly the characters of `v`.
pub fn chars_to_string(v: &Vec<char>) -> (r: String)
    ensures
        r@ == v@,
{
    let mut out = String::new();
    let mut i: usize = 0;
    while i < v.len()
        invariant
            i <= v.len(),
            out@ == v@.subrange(0, i as int),
        decreases v.len() - i,
    {
        push_char(&mut out, v[i]);
        proof {
            assert(out@ =~= v@.subrange(0, i + 1 as int));
        }
        i = i + 1;
    }
    proof {
        assert(out@ =~= v@);
    }
    out
}

/// Character-by-character string equality.
pub fn str_eq(a: &str, b: &str) -> (r: bool)
    ensures
        r == (a@ == b@),
{
    let alen = a.unicode_len();
    let blen = b.unicode_len();
    if alen != blen {
        proof {
            assert(a@ != b@);
        }
        return false;
    }
    let mut i: usize = 0;
    while i < alen
        invariant
            i <= alen,
            alen == a@.len(),
            alen == b@.len(),
            forall|j: int| 0 <= j < i ==> a@[j] == b@[j],
        decreases alen - i,
    {
        if a.get_char(i) != b.get_char(i) {
            return false;
        }
        i = i + 1;
    }
    proof {
        assert(a@ =~= b@);
    }
    true
}

/// Whether `c` is a decimal digit.
pub open spec fn is_digit_char(c: char) -> bool {
    48 <= c as u32 && c as u32 <= 57
}

/// The numeric value of a digit character (10 for a non-digit).
pub open spec fn digit_val(c: char) -> nat {
    if is_digit_char(c) {
        (c as u32 - 48) as nat
    } else {
        10
    }
}

/// The digit character for `d` below ten ('9' otherwise).
pub open spec fn digit_char(d: nat) -> char {
    if d == 0 {
        '0'
    } else if d == 1 {
        '1'
    } else if d == 2 {
        '2'
    } else if d == 3 {
        '3'
    } else if d == 4 {
        '4'
    } else if d == 5 {
        '5'
    } else if d == 6 {
        '6'
    } else if d == 7 {
        '7'
    } else if d == 8 {
        '8'
    } else {
        '9'
    }
}

/// Canonical decimal rendering of a natural number, most significant digit
/// first, without leading zeroes.
pub open spec fn nat_digits(n: nat) -> Seq<char>
    decreases n,
{
    if n < 10 {
        seq![digit_char(n)]
    } else {
        nat_digits(n / 10).push(digit_char(n % 10))
    }
}

/// Canonical decimal rendering of an integer: a minus sign ahead of the
/// digits of the magnitude for negative numbers.
pub open spec fn int_chars(i: int) -> Seq<char> {
    if i < 0 {
        seq!['-'] + nat_digits((-i) as nat)
    } else {
        nat_digits(i as nat)
    }
}

/// Whether every character of `s` is a decimal digit.
pub open spec fn all_digits(s: Seq<char>) -> bool {
    forall|i: int| 0 <= i < s.len() ==> is_digit_char(#[trigger] s[i])
}

/// The value of a sequence of decimal digits, most significant first.
pub open spec fn digits_val(s: Seq<char>) -> nat
    decreases s.len(),
{
    if s.len() == 0 {
        0
    } else {
        digits_val(s.drop_last()) * 10 + digit_val(s.last())
    }
}

/// Ten to the power `n`.
pub open spec fn pow10(n: nat) -> nat
    decreases n,
{
    if n == 0 {
        1
    } else {
        pow10((n - 1) as nat) * 10
    }
}

pub proof fn lemma_pow10_pos(n: nat)
    ensures
        pow10(n) >= 1,
    decreases n,
{
    if n > 0 {
        lemma_pow10_pos((n - 1) as nat);
    }
}

/// Reading back the canonical rendering of `n` gives `n`; the rendering is
/// nonempty and all digits.
pub proof fn lemma_nat_digits_value(n: nat)
    ensures
        digits_val(nat_digits(n)) == n,
        nat_digits(n).len() >= 1,
        all_digits(nat_digits(n)),
    decreases n,
{
    if n < 10 {
        let s = nat_digits(n);
        assert(s =~= seq![digit_char(n)]);
        assert(s.drop_last() =~= Seq::<char>::empty());
        assert(digits_val(s.drop_last()) == 0);
        assert(s.last() == digit_char(n));
        assert(digits_val(s) == 0 * 10 + digit_val(digit_char(n)));
        assert(digit_val(digit_char(n)) == n);
    } else {
        lemma_nat_digits_value(n / 10);
        let s = nat_digits(n);
        assert(s.drop_last() =~= nat_digits(n / 10));
        assert(digits_val(s) == (n / 10) * 10 + digit_val(digit_char(n % 10)));
        assert(digit_val(digit_char(n % 10)) == n % 10);
        assert((n / 10) * 10 + n % 10 == n) by (nonlinear_arith);
        assert(forall|i: int|
            0 <= i < s.len() ==> is_digit_char(#[trigger] s[i]));
    }
}

/// Two distinct naturals render to distinct digit sequences.
pub proof fn lemma_nat_digits_injective(a: nat, b: nat)
    requires
        nat_digits(a) == nat_digits(b),
    ensures
        a == b,
{
    lemma_nat_digits_value(a);
    lemma_nat_digits_value(b);
}

/// The value of a concatenation of digit sequences.
pub proof fn lemma_digits_val_append(a: Seq<char>, b: Seq<char>)
    ensures
        digits_val(a + b) == digits_val(a) * pow10(b.len()) + digits_val(b),
    decreases b.len(),
{
    if b.len() == 0 {
        assert(a + b =~= a);
        assert(pow10(b.len()) == 1);
        assert(digits_val(b) == 0);
        assert(digits_val(a) * 1 == digits_val(a));
    } else {
        let b0 = b.drop_last();
        lemma_digits_val_append(a, b0);
        let x = digits_val(a);
        let p = pow10(b0.len());
        let y = digits_val(b0);
        let d = digit_val(b.last());
        assert((a + b).drop_last() =~= a + b0);
        assert((a + b).last() == b.last());
        assert(digits_val(a + b) == (x * p + y) * 10 + d);
        assert(pow10(b.len()) == p * 10);
        assert((x * p + y) * 10 + d == x * (p * 10) + (y * 10 + d)) by (nonlinear_arith);
        assert(digits_val(b) == y * 10 + d);
        assert(x * (p * 10) == x * pow10(b.len()));
        assert(digits_val(a + b) == x * pow10(b.len()) + digits_val(b));
    }
}

/// A digit sequence is worth at least any of its prefixes.
pub proof fn lemma_digits_val_prefix(s: Seq<char>, i: int)
    requires
        0 <= i <= s.len(),
    ensures
        digits_val(s) >= digits_val(s.subrange(0, i)),
{
    let a = s.subrange(0, i);
    let b = s.subrange(i, s.len() as int);
    assert(s =~= a + b);
    lemma_digits_val_append(a, b);
    lemma_pow10_pos(b.len());
    assert(digits_val(a) * pow10(b.len()) >= digits_val(a) * 1) by (nonlinear_arith)
        requires
            pow10(b.len()) >= 1,
    ;
}

/// Whether `c` is a decimal digit.
pub fn is_digit(c: char) -> (r: bool)
    ensures
        r == is_digit_char(c),
{
    let u = c as u32;
    48 <= u && u <= 57
}

/// The digit character for a value below ten.
pub fn digit_char_of(d: u64) -> (c: char)
    requires
        d < 10,
    ensures
        c == digit_char(d as nat),
{
    if d == 0 {
        '0'
    } else if d == 1 {
        '1'
    } else if d == 2 {
        '2'
    } else if d == 3 {
        '3'
    } else if d == 4 {
        '4'
    } else if d == 5 {
        '5'
    } else if d == 6 {
        '6'
    } else if d == 7 {
        '7'
    } else if d == 8 {
        '8'
    } else {
        '9'
    }
}

/// Appends the canonical decimal rendering of `n` to `out`.
pub fn push_u64_digits(n: u64, out: &mut String)
    ensures
        final(out)@ == old(out)@ + nat_digits(n as nat),
    decreases n,
{
    if n < 10 {
        push_char(out, digit_char_of(n));
        proof {
            assert(old(out)@.push(digit_char(n as nat)) =~= old(out)@ + nat_digits(n as nat));
        }
    } else {
        push_u64_digits(n / 10, out);
        push_char(out, digit_char_of(n % 10));
        proof {
            assert((old(out)@ + nat_digits((n / 10) as nat)).push(digit_char((n % 10) as nat))
                =~= old(out)@ + nat_digits(n as nat));
        }
    }
}

/// The canonical decimal rendering of `n` as a fresh string.
pub fn u64_to_string(n: u64) -> (r: String)
    ensures
        r@ == nat_digits(n as nat),
{
    let mut out = String::new();
    push_u64_digits(n, &mut out);
    proof {
        assert(Seq::<char>::empty() + nat_digits(n as nat) =~= nat_digits(n as nat));
    }
    out
}

/// The canonical decimal rendering of a signed integer.
pub fn i32_to_string(v: i32) -> (r: String)
    ensures
        r@ == int_chars(v as int),
{
    let mut out = String::new();
    if v < 0 {
        push_char(&mut out, '-');
        let m: u64 = (-(v as i64)) as u64;
        proof {
            assert(m as nat == (-(v as int)) as nat);
        }
        push_u64_digits(m, &mut out);
        proof {
            assert(Seq::<char>::empty().push('-') =~= seq!['-']);
            assert(seq!['-'] + nat_digits(m as nat) =~= int_chars(v as int));
        }
    } else {
        push_u64_digits(v as u64, &mut out);
        proof {
            assert(Seq::<char>::empty() + nat_digits(v as nat) =~= int_chars(v as int));
        }
    }
    out
}

/// Reads a run of decimal digits as a signed 32-bit value, minus sign given
/// separately; `None` exactly when the value does not fit.
#[verifier::loop_isolation(false)]
pub fn read_i32(neg: bool, digits: &Vec<char>) -> (r: Option<i32>)
    requires
        digits@.len() >= 1,
        all_digits(digits@),
    ensures
        match r {
            Option::Some(v) => {
                &&& v as int == if neg {
                    -(digits_val(digits@) as int)
                } else {
                    digits_val(digits@) as int
                }
                &&& (if neg {
                    digits_val(digits@) <= 0x8000_0000
                } else {
                    digits_val(digits@) <= 0x7fff_ffff
                })
            },
            Option::None => {
                if neg {
                    digits_val(digits@) > 0x8000_0000
                } else {
                    digits_val(digits@) > 0x7fff_ffff
                }
            },
        },
{
    let mut acc: u64 = 0;
    let mut i: usize = 0;
    while i < digits.len()
        invariant
            i <= digits@.len(),
            acc == digits_val(digits@.subrange(0, i as int)),
            acc <= 0x8000_0000,
        decreases digits@.len() - i,
    {
        let c = digits[i];
        let d: u64 = (c as u32 - 48) as u64;
        proof {
            assert(is_digit_char(digits@[i as int]));
            assert(d as nat == digit_val(digits@[i as int]));
        }
        let next: u64 = acc * 10 + d;
        proof {
            assert(digits@.subrange(0, i + 1 as int).drop_last() =~= digits@.subrange(
                0,
                i as int,
            ));
            assert(digits@.subrange(0, i + 1 as int).last() == digits@[i as int]);
            assert(next == digits_val(digits@.subrange(0, i + 1 as int)));
        }
        if next > 0x8000_0000 {
            proof {
                lemma_digits_val_prefix(digits@, i + 1 as int);
            }
            return Option::None;
        }
        acc = next;
        i = i + 1;
    }
    proof {
        assert(digits@.subrange(0, digits@.len() as int) =~= digits@);
    }
    if neg {
        if acc == 0x8000_0000 {
            Option::Some(i32::MIN)
        } else {
            Option::Some(-(acc as i32))
        }
    } else {
        if acc > 0x7fff_ffff {
            Option::None
        } else {
            Option::Some(acc as i32)
        }
    }
}

} // verus!
