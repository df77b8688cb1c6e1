//! Canonical decimal lexical forms of 64-bit integers: printing, parsing and
//! the canonicity test that decides whether an `xsd:integer` literal may be
//! stored inline by value.

use vstd::prelude::*;

verus! {

pub open spec fn is_digit(c: char) -> bool {
    c == '0' || c == '1' || c == '2' || c == '3' || c == '4' || c == '5' || c == '6' || c == '7'
        || c == '8' || c == '9'
}

pub open spec fn digit_val(c: char) -> int {
    if c == '0' {
        0
    } else if c == '1' {
        1
    } else if c == '2' {
        2
    } else if c == '3' {
        3
    } else if c == '4' {
        4
    } else if c == '5' {
        5
    } else if c == '6' {
        6
    } else if c == '7' {
        7
    } else if c == '8' {
        8
    } else {
        9
    }
}

pub open spec fn digit_char(d: int) -> char {
    if d == 0 {
        '0'
    } else if d == 1 {
        '1'
    } else if d == 2 {
        '2'
    } else if d == 3 {
        '3'
    } else if d == 4 {
        '4'
    } else if d == 5 {
        '5'
    } else if d == 6 {
        '6'
    } else if d == 7 {
        '7'
    } else if d == 8 {
        '8'
    } else {
        '9'
    }
}

/// The number denoted by a digit string, most significant digit first.
pub open spec fn digits_val(s: Seq<char>) -> int
    decreases s.len(),
{
    if s.len() == 0 {
        0
    } else {
        digits_val(s.drop_last()) * 10 + digit_val(s.last())
    }
}

pub open spec fn all_digits(s: Seq<char>) -> bool {
    forall|i: int| 0 <= i < s.len() ==> is_digit(#[trigger] s[i])
}

/// Decimal digits of a non-negative number, empty for zero.
pub open spec fn print_nat_rec(n: int) -> Seq<char>
    decreases n,
{
    if n <= 0 {
        Seq::empty()
    } else {
        print_nat_rec(n / 10).push(digit_char(n % 10))
    }
}

/// The canonical decimal form of a non-negative number.
pub open spec fn print_nat(n: int) -> Seq<char> {
    if n == 0 {
        seq!['0']
    } else {
        print_nat_rec(n)
    }
}

/// The canonical decimal form of an integer.
pub open spec fn print_int(n: int) -> Seq<char> {
    if n < 0 {
        seq!['-'] + print_nat(-n)
    } else {
        print_nat(n)
    }
}

/// The value denoted by a decimal string, where leading zeros are allowed
/// but the value must fit in an `i64`.
pub open spec fn parse_int(s: Seq<char>) -> Option<int> {
    if s.len() > 0 && s[0] == '-' {
        let rest = s.skip(1);
        if rest.len() > 0 && all_digits(rest) && -digits_val(rest) >= i64::MIN {
            Some(-digits_val(rest))
        } else {
            None
        }
    } else {
        if s.len() > 0 && all_digits(s) && digits_val(s) <= i64::MAX {
            Some(digits_val(s))
        } else {
            None
        }
    }
}

/// Whether `s` is the canonical decimal form of an `i64` value.
pub open spec fn is_canonical_int(s: Seq<char>) -> bool {
    parse_int(s) is Some && print_int(parse_int(s)->Some_0) == s
}

pub open spec fn canonical_int_value(s: Seq<char>) -> int {
    parse_int(s)->Some_0
}

fn digit_str(d: u64) -> (r: &'static str)
    requires
        d < 10,
    ensures
        r@ =~= seq![digit_char(d as int)],
{
    proof {
        reveal_strlit("0");
        reveal_strlit("1");
        reveal_strlit("2");
        reveal_strlit("3");
        reveal_strlit("4");
        reveal_strlit("5");
        reveal_strlit("6");
        reveal_strlit("7");
        reveal_strlit("8");
        reveal_strlit("9");
    }
    if d == 0 {
        "0"
    } else if d == 1 {
        "1"
    } else if d == 2 {
        "2"
    } else if d == 3 {
        "3"
    } else if d == 4 {
        "4"
    } else if d == 5 {
        "5"
    } else if d == 6 {
        "6"
    } else if d == 7 {
        "7"
    } else if d == 8 {
        "8"
    } else {
        "9"
    }
}

fn print_u64_rec(n: u64) -> (r: String)
    ensures
        r@ == print_nat_rec(n as int),
    decreases n,
{
    if n == 0 {
        let r = String::new();
        proof {
            assert(r@ =~= print_nat_rec(0));
        }
        r
    } else {
        let mut r = print_u64_rec(n / 10);
        r.append(digit_str(n % 10));
        proof {
            assert(r@ =~= print_nat_rec(n as int / 10).push(digit_char(n as int % 10)));
        }
        r
    }
}

/// Prints a non-negative number in canonical decimal form.
pub fn print_u64(n: u64) -> (r: String)
    ensures
        r@ == print_nat(n as int),
{
    if n == 0 {
        let mut r = String::new();
        r.append(digit_str(0));
        proof {
            assert(r@ =~= seq!['0']);
        }
        r
    } else {
        print_u64_rec(n)
    }
}

/// Prints an integer in canonical decimal form.
pub fn print_i64(n: i64) -> (r: String)
    ensures
        r@ == print_int(n as int),
{
    if n >= 0 {
        print_u64(n as u64)
    } else {
        let mag: u64 = (-(n as i128)) as u64;
        let mut r = String::new();
        proof {
            reveal_strlit("-");
        }
        r.append("-");
        let tail = print_u64(mag);
        r.append(tail.as_str());
        proof {
            assert(r@ =~= seq!['-'] + print_nat(-(n as int)));
        }
        r
    }
}

/// If `t` extends `s` by digits on the right, its value is no smaller.
pub proof fn lemma_digits_val_prefix_le(s: Seq<char>, t: Seq<char>)
    requires
        all_digits(t),
        s.len() <= t.len(),
        s == t.take(s.len() as int),
        digits_val(s) >= 0,
    ensures
        digits_val(t) >= digits_val(s),
    decreases t.len() - s.len(),
{
    if s.len() == t.len() {
        assert(s =~= t);
    } else {
        let u = t.take(t.len() - 1);
        assert(all_digits(u));
        assert(u.take(s.len() as int) =~= s);
        lemma_digits_val_prefix_le(s, u);
        assert(t.drop_last() =~= u);
        assert(digit_val(t.last()) >= 0);
        assert(digits_val(t) == digits_val(u) * 10 + digit_val(t.last()));
        assert(digits_val(u) * 10 >= digits_val(u)) by (nonlinear_arith)
            requires
                digits_val(u) >= 0,
        ;
    }
}

/// Digit strings denote non-negative values.
pub proof fn lemma_digits_val_nonneg(s: Seq<char>)
    requires
        all_digits(s),
    ensures
        digits_val(s) >= 0,
    decreases s.len(),
{
    if s.len() > 0 {
        assert(all_digits(s.drop_last()));
        lemma_digits_val_nonneg(s.drop_last());
        assert(digits_val(s.drop_last()) * 10 >= 0) by (nonlinear_arith)
            requires
                digits_val(s.drop_last()) >= 0,
        ;
    }
}

/// Parses the digit part `s[from..]` as a number, `None` if it is empty, has
/// a non-digit, or exceeds `bound`.
fn parse_digits(s: &str, from: usize, n: usize, bound: u64) -> (r: Option<u64>)
    requires
        n == s@.len(),
        from < n,
    ensures
        match r {
            Some(v) => all_digits(s@.skip(from as int)) && digits_val(s@.skip(from as int))
                == v as int && v <= bound,
            None => !(all_digits(s@.skip(from as int)) && digits_val(s@.skip(from as int))
                <= bound),
        },
{
    let ghost whole = s@.skip(from as int);
    proof {
        assert(whole.len() == n - from);
    }
    let mut acc: u64 = 0;
    let mut i: usize = from;
    while i < n
        invariant
            n == s@.len(),
            from <= i <= n,
            whole == s@.skip(from as int),
            whole.len() == n - from,
            all_digits(whole.take(i - from)),
            acc as int == digits_val(whole.take(i - from)),
            acc <= bound,
        decreases n - i,
    {
        let c = s.get_char(i);
        let d: u64 = if c == '0' {
            0
        } else if c == '1' {
            1
        } else if c == '2' {
            2
        } else if c == '3' {
            3
        } else if c == '4' {
            4
        } else if c == '5' {
            5
        } else if c == '6' {
            6
        } else if c == '7' {
            7
        } else if c == '8' {
            8
        } else if c == '9' {
            9
        } else {
            proof {
                assert(whole[i - from] == c);
                assert(!is_digit(c));
            }
            return None;
        };
        proof {
            assert(whole[i - from] == c);
            assert(is_digit(c) && digit_val(c) == d as int);
            assert(whole.take(i - from + 1).drop_last() =~= whole.take(i - from));
            assert(whole.take(i - from + 1).last() == c);
            assert(all_digits(whole.take(i - from + 1)));
        }
        if acc > bound / 10 || (acc == bound / 10 && d > bound % 10) {
            // The value read so far already exceeds the bound once this digit
            // is appended, and appending further digits cannot shrink it.
            proof {
                let part = whole.take(i - from + 1);
                assert(digits_val(part) == acc as int * 10 + d);
                assert(acc as int * 10 + d as int > bound) by (nonlinear_arith)
                    requires
                        acc as int > bound as int / 10 || (acc as int == bound as int / 10
                            && d as int > bound as int % 10),
                        0 <= d < 10,
                        bound >= 0,
                        acc >= 0,
                ;
                lemma_digits_val_nonneg(part);
                if all_digits(whole) {
                    lemma_digits_val_prefix_le(part, whole);
                }
            }
            return None;
        }
        proof {
            assert(acc as int * 10 + d as int <= bound) by (nonlinear_arith)
                requires
                    acc as int <= bound as int / 10,
                    !(acc as int == bound as int / 10 && d as int > bound as int % 10),
                    0 <= d < 10,
                    bound >= 0,
                    acc >= 0,
            ;
        }
        acc = acc * 10 + d;
        i = i + 1;
        proof {
            assert(acc as int == digits_val(whole.take(i - from)));
        }
    }
    proof {
        assert(whole.take(n - from) =~= whole);
    }
    Some(acc)
}

/// Parses a decimal string as an `i64`; leading zeros are accepted, any
/// other deviation from plain decimal form is not.
pub fn parse_i64(s: &str) -> (r: Option<i64>)
    ensures
        match r {
            Some(v) => parse_int(s@) == Some(v as int),
            None => parse_int(s@) is None,
        },
{
    let n = s.unicode_len();
    if n == 0 {
        return None;
    }
    if s.get_char(0) == '-' {
        if n == 1 {
            proof {
                assert(s@.skip(1).len() == 0);
            }
            return None;
        }
        match parse_digits(s, 1, n, 0x8000_0000_0000_0000u64) {
            Some(v) => {
                proof {
                    lemma_digits_val_nonneg(s@.skip(1));
                }
                if v == 0x8000_0000_0000_0000u64 {
                    Some(i64::MIN)
                } else {
                    Some(-(v as i64))
                }
            },
            None => None,
        }
    } else {
        match parse_digits(s, 0, n, 0x7FFF_FFFF_FFFF_FFFFu64) {
            Some(v) => {
                proof {
                    assert(s@.skip(0) =~= s@);
                }
                Some(v as i64)
            },
            None => {
                proof {
                    assert(s@.skip(0) =~= s@);
                }
                None
            },
        }
    }
}

} // verus!
