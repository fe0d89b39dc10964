//! Decimal text of 32-bit signed integers: rendering and parsing.
use vstd::prelude::*;

verus! {

/// The character of the decimal digit `d` (for `0 <= d < 10`).
pub open spec fn digit_char(d: int) -> char {
    ((d + 48) as u32) as char
}

pub open spec fn is_digit(c: char) -> bool {
    '0' <= c <= '9'
}

pub open spec fn digit_value(c: char) -> int {
    c as u32 - 48
}

/// The decimal digits of `n`, most significant first, with no leading zero.
pub open spec fn digits_of(n: nat) -> Seq<char>
    decreases n,
{
    if n < 10 {
        seq![digit_char(n as int)]
    } else {
        digits_of(n / 10).push(digit_char((n % 10) as int))
    }
}

/// The natural textual form of an integer: a `-` for negative values, then its digits.
pub open spec fn decimal_text(n: int) -> Seq<char> {
    if n < 0 {
        seq!['-'] + digits_of((-n) as nat)
    } else {
        digits_of(n as nat)
    }
}

pub open spec fn all_digits(s: Seq<char>) -> bool {
    forall|i: int| 0 <= i < s.len() ==> is_digit(#[trigger] s[i])
}

/// The value of a string of decimal digits.
pub open spec fn digits_value(s: Seq<char>) -> int
    decreases s.len(),
{
    if s.len() == 0 {
        0
    } else {
        digits_value(s.drop_last()) * 10 + digit_value(s.last())
    }
}

pub open spec fn has_sign(s: Seq<char>) -> bool {
    s.len() > 0 && (s[0] == '-' || s[0] == '+')
}

/// The digits that follow an optional leading sign.
pub open spec fn unsigned_part(s: Seq<char>) -> Seq<char> {
    if has_sign(s) {
        s.drop_first()
    } else {
        s
    }
}

/// Reading an `i32`: an optional `+` or `-`, then one or more decimal digits, with a
/// value in the range of `i32`; anything else is refused.
pub open spec fn parse_i32(s: Seq<char>) -> Option<i32> {
    let body = unsigned_part(s);
    let v = if s.len() > 0 && s[0] == '-' {
        -digits_value(body)
    } else {
        digits_value(body)
    };
    if body.len() > 0 && all_digits(body) && i32::MIN <= v <= i32::MAX {
        Some(v as i32)
    } else {
        None
    }
}

proof fn lemma_digits_value_nonneg(s: Seq<char>)
    requires
        all_digits(s),
    ensures
        digits_value(s) >= 0,
    decreases s.len(),
{
    if s.len() > 0 {
        lemma_digits_value_nonneg(s.drop_last());
    }
}

/// Appending digits never makes the value of a digit string smaller.
proof fn lemma_digits_value_prefix(s: Seq<char>, k: int)
    requires
        all_digits(s),
        0 <= k <= s.len(),
    ensures
        digits_value(s.take(k)) <= digits_value(s),
    decreases s.len(),
{
    if k < s.len() {
        let init = s.drop_last();
        assert(init.take(k) =~= s.take(k));
        lemma_digits_value_prefix(init, k);
        lemma_digits_value_nonneg(init);
    } else {
        assert(s.take(k) =~= s);
    }
}

proof fn lemma_digits_of(n: nat)
    ensures
        digits_of(n).len() > 0,
        all_digits(digits_of(n)),
        digits_value(digits_of(n)) == n,
    decreases n,
{
    let d = digits_of(n);
    if n >= 10 {
        lemma_digits_of(n / 10);
        assert(d.drop_last() =~= digits_of(n / 10));
        assert(digit_value(digit_char((n % 10) as int)) == n % 10);
        assert((n / 10) * 10 + n % 10 == n) by (nonlinear_arith);
    } else {
        assert(d.drop_last() =~= Seq::<char>::empty());
        assert(digits_value(d.drop_last()) == 0);
    }
}

/// Reading back the text of an `i32` gives the same `i32`.
pub proof fn lemma_parse_decimal_text(n: i32)
    ensures
        parse_i32(decimal_text(n as int)) == Some(n),
{
    let s = decimal_text(n as int);
    if n < 0 {
        lemma_digits_of((-n) as nat);
        assert(s.drop_first() =~= digits_of((-n) as nat));
    } else {
        lemma_digits_of(n as nat);
    }
}

/// The text of an integer holds a minus sign and decimal digits only.
pub proof fn lemma_decimal_text_chars(n: i32)
    ensures
        forall|k: int| 0 <= k < decimal_text(n as int).len() ==> {
            let c = #[trigger] decimal_text(n as int)[k];
            c == '-' || ('0' <= c <= '9')
        },
{
    let s = decimal_text(n as int);
    if n < 0 {
        let d = digits_of((-n) as nat);
        lemma_digits_of((-n) as nat);
        assert forall|k: int| 0 <= k < s.len() implies {
            let c = #[trigger] s[k];
            c == '-' || ('0' <= c <= '9')
        } by {
            if k > 0 {
                assert(s[k] == d[k - 1]);
                assert(is_digit(d[k - 1]));
            }
        }
    } else {
        lemma_digits_of(n as nat);
        assert forall|k: int| 0 <= k < s.len() implies {
            let c = #[trigger] s[k];
            c == '-' || ('0' <= c <= '9')
        } by {
            assert(is_digit(s[k]));
        }
    }
}

fn digit_str(d: u32) -> (r: &'static str)
    requires
        d < 10,
    ensures
        r@ == seq![digit_char(d as int)],
{
    proof {
        reveal_strlit("0");
        reveal_strlit("1");
        reveal_strlit("2");
        reveal_strlit("3");
        reveal_strlit("4");
        reveal_strlit("5");
        reveal_strlit("6");
        reveal_strlit("7");
        reveal_strlit("8");
        reveal_strlit("9");
    }
    match d {
        0 => "0",
        1 => "1",
        2 => "2",
        3 => "3",
        4 => "4",
        5 => "5",
        6 => "6",
        7 => "7",
        8 => "8",
        _ => "9",
    }
}

fn append_digits(out: &mut String, n: u32)
    ensures
        final(out)@ == old(out)@ + digits_of(n as nat),
    decreases n,
{
    if n < 10 {
        out.append(digit_str(n));
    } else {
        append_digits(out, n / 10);
        out.append(digit_str(n % 10));
        assert(final(out)@ =~= old(out)@ + digits_of(n as nat));
    }
}

/// Appends the decimal text of `n` to `out`.
pub fn append_i32(out: &mut String, n: i32)
    ensures
        final(out)@ == old(out)@ + decimal_text(n as int),
{
    if n < 0 {
        proof {
            reveal_strlit("-");
        }
        out.append("-");
        let magnitude: u32 = (-(n as i64)) as u32;
        append_digits(out, magnitude);
        assert(final(out)@ =~= old(out)@ + decimal_text(n as int));
    } else {
        append_digits(out, n as u32);
    }
}

fn digit_of(c: char) -> (d: u32)
    requires
        is_digit(c),
    ensures
        d == digit_value(c),
{
    (c as u32) - 48
}

/// Reads the `i32` written in `s[lo..hi]`.
pub(crate) fn parse_i32_in(s: &Vec<char>, lo: usize, hi: usize) -> (r: Option<i32>)
    requires
        lo <= hi <= s@.len(),
    ensures
        r == parse_i32(s@.subrange(lo as int, hi as int)),
{
    let ghost text = s@.subrange(lo as int, hi as int);
    let mut i: usize = lo;
    let mut negative: bool = false;
    if i < hi && (s[i] == '-' || s[i] == '+') {
        negative = s[i] == '-';
        i = i + 1;
    }
    let start: usize = i;
    let ghost body = s@.subrange(start as int, hi as int);
    assert(body =~= unsigned_part(text));
    if start == hi {
        return None;
    }
    let mut acc: u64 = 0;
    while i < hi
        invariant
            lo <= start <= i <= hi <= s@.len(),
            body == s@.subrange(start as int, hi as int),
            text == s@.subrange(lo as int, hi as int),
            body == unsigned_part(text),
            negative == (text.len() > 0 && text[0] == '-'),
            body.take(i - start) =~= s@.subrange(start as int, i as int),
            all_digits(body.take(i - start)),
            acc == digits_value(body.take(i - start)),
            acc <= 2147483648,
        decreases hi - i,
    {
        let c = s[i];
        if !('0' <= c && c <= '9') {
            assert(body[i - start] == c);
            return None;
        }
        let ghost prev = body.take(i - start);
        let ghost next = body.take(i - start + 1);
        assert(next.drop_last() =~= prev);
        acc = acc * 10 + digit_of(c) as u64;
        assert(acc == digits_value(next));
        if acc > 2147483648 {
            proof {
                if all_digits(body) {
                    lemma_digits_value_prefix(body, i - start + 1);
                }
            }
            return None;
        }
        i = i + 1;
    }
    assert(body.take(i - start) =~= body);
    let value: i64 = if negative {
        -(acc as i64)
    } else {
        acc as i64
    };
    if value < -2147483648 || value > 2147483647 {
        None
    } else {
        Some(value as i32)
    }
}

} // verus!
