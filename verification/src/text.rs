//! Building text: decimal numbers and right-aligned columns.

use vstd::prelude::*;

verus! {

/// The character of a decimal digit.
pub open spec fn digit_char(d: int) -> char {
    (d + 48) as char
}

/// The decimal representation of a number, without leading zeros.
pub open spec fn decimal(n: nat) -> Seq<char>
    decreases n,
{
    if n < 10 {
        seq![digit_char(n as int)]
    } else {
        decimal(n / 10).push(digit_char((n % 10) as int))
    }
}

/// `s` right-aligned in a field of `width` characters: spaces in front
/// when it is shorter, unchanged otherwise.
pub open spec fn pad_left(s: Seq<char>, width: nat) -> Seq<char> {
    if s.len() >= width {
        s
    } else {
        Seq::new((width - s.len()) as nat, |i: int| ' ') + s
    }
}

/// `String::push`: appends one character.
#[verifier::external_body]
pub(crate) fn push_char(s: &mut String, c: char)
    ensures
        final(s)@ == old(s)@.push(c),
{
    s.push(c);
}

/// Appends the decimal representation of `n`.
pub fn push_decimal(out: &mut String, n: u64)
    ensures
        final(out)@ == old(out)@ + decimal(n as nat),
    decreases n,
{
    if n >= 10 {
        push_decimal(out, n / 10);
    }
    let d: u8 = (n % 10) as u8;
    push_char(out, (d + 48) as char);
    proof {
        assert(old(out)@ + decimal(n as nat) =~= (old(out)@ + (if n >= 10 { decimal((n / 10) as nat) } else { Seq::<char>::empty() })).push(digit_char((n % 10) as int)));
    }
}

/// Number of digits of `n` in decimal.
pub fn decimal_len(n: u64) -> (len: u64)
    ensures
        len == decimal(n as nat).len(),
        1 <= len <= n as int + 1,
    decreases n,
{
    if n >= 10 {
        1 + decimal_len(n / 10)
    } else {
        1
    }
}

/// Appends the decimal representation of `n`, right-aligned in a field of
/// `width` characters.
pub fn push_decimal_padded(out: &mut String, n: u64, width: u64)
    ensures
        final(out)@ == old(out)@ + pad_left(decimal(n as nat), width as nat),
{
    let len = decimal_len(n);
    let ghost start = out@;
    let mut i: u64 = len;
    while i < width
        invariant
            len <= i <= width || (i == len && width < len),
            out@ == start + Seq::new((i - len) as nat, |k: int| ' '),
        decreases width - i,
    {
        push_char(out, ' ');
        i = i + 1;
        assert(out@ =~= start + Seq::new((i - len) as nat, |k: int| ' '));
    }
    let ghost spaces = out@;
    push_decimal(out, n);
    proof {
        if width > len {
            assert(out@ =~= start + (Seq::new((width - len) as nat, |k: int| ' ') + decimal(n as nat)));
        } else {
            assert(spaces =~= start);
        }
    }
}

/// The number a string of decimal digits denotes, most significant first.
pub open spec fn digits_value(s: Seq<char>) -> int
    decreases s.len(),
{
    if s.len() == 0 {
        0
    } else {
        digits_value(s.drop_last()) * 10 + (s.last() as int - 48)
    }
}

/// Every character is one of `0` to `9`.
pub open spec fn all_digits(s: Seq<char>) -> bool {
    forall|i: int| 0 <= i < s.len() ==> '0' <= #[trigger] s[i] <= '9'
}

/// The decimal text of a number is made of digits only, has no leading
/// zero (unless the number is 0), and denotes exactly that number.
pub proof fn law_decimal_reads_back(n: nat)
    ensures
        decimal(n).len() >= 1,
        all_digits(decimal(n)),
        digits_value(decimal(n)) == n,
        decimal(n)[0] == '0' ==> n == 0,
    decreases n,
{
    if n >= 10 {
        law_decimal_reads_back(n / 10);
        let d = decimal(n / 10);
        assert(decimal(n) == d.push(digit_char((n % 10) as int)));
        assert(d.push(digit_char((n % 10) as int)).drop_last() =~= d);
        assert(digits_value(decimal(n)) == digits_value(d) * 10 + (n % 10));
        assert((n / 10) * 10 + n % 10 == n) by (nonlinear_arith);
        assert forall|i: int| 0 <= i < decimal(n).len() implies '0' <= #[trigger] decimal(n)[i] <= '9' by {
            if i < d.len() {
                assert(decimal(n)[i] == d[i]);
            }
        }
        assert(decimal(n)[0] == d[0]);
    } else {
        assert(digits_value(decimal(n)) == digits_value(decimal(n).drop_last()) * 10 + (n as int));
        assert(decimal(n).drop_last().len() == 0);
    }
}

/// A number right-aligned in a field: spaces up to the width, then its
/// digits, which denote the number.
pub proof fn law_pad_left_decimal(n: nat, width: nat)
    ensures
        ({
            let d = decimal(n).len();
            let k: int = if d < width { width - d } else { 0 };
            let s = pad_left(decimal(n), width);
            &&& s.len() == k + d
            &&& s.len() >= width
            &&& forall|i: int| 0 <= i < k ==> #[trigger] s[i] == ' '
            &&& all_digits(s.subrange(k, k + d))
            &&& digits_value(s.subrange(k, k + d)) == n
        }),
{
    law_decimal_reads_back(n);
    let d = decimal(n).len();
    let k: int = if d < width { width - d } else { 0 };
    let s = pad_left(decimal(n), width);
    assert(s.subrange(k, k + d) =~= decimal(n));
}

} // verus!
