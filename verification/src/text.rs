//! Building status text: literal pieces, decimal numbers and fixed-width hexadecimal.
use vstd::prelude::*;
use vstd::string::StrSliceExecFns;

verus! {

/// The character for a digit value below sixteen (lower-case hexadecimal).
pub open spec fn digit_char(d: int) -> char {
    if d < 10 { (48 + d) as char } else { (87 + d) as char }
}

/// The decimal digits of `n`, without leading zeros.
pub open spec fn dec_text(n: nat) -> Seq<char>
    decreases n,
{
    if n < 10 { seq![digit_char(n as int)] } else { dec_text(n / 10).push(digit_char((n % 10) as int)) }
}

/// The lowest `count` hexadecimal digits of `n`, most significant first.
pub open spec fn hex_text(n: nat, count: nat) -> Seq<char>
    decreases count,
{
    if count == 0 { Seq::empty() } else { hex_text(n / 16, (count - 1) as nat).push(digit_char((n % 16) as int)) }
}

fn digit(d: u64) -> (c: char)
    requires
        d < 16,
    ensures
        c == digit_char(d as int),
{
    if d < 10 {
        ((48 + d) as u8) as char
    } else {
        ((87 + d) as u8) as char
    }
}

/// Appends a string.
pub fn push_str(text: &mut Vec<char>, s: &str)
    ensures
        final(text)@ == old(text)@ + s@,
{
    let n = s.unicode_len();
    let mut i: usize = 0;
    while i < n
        invariant
            n == s@.len(),
            i <= n,
            text@ == old(text)@ + s@.subrange(0, i as int),
        decreases n - i,
    {
        text.push(s.get_char(i));
        i = i + 1;
        assert(text@ =~= old(text)@ + s@.subrange(0, i as int));
    }
    assert(s@.subrange(0, n as int) =~= s@);
}

/// Appends the decimal digits of `n`.
pub fn push_dec(text: &mut Vec<char>, n: u64)
    ensures
        final(text)@ == old(text)@ + dec_text(n as nat),
    decreases n,
{
    if n >= 10 {
        push_dec(text, n / 10);
    }
    text.push(digit(n % 10));
    proof {
        if n < 10 {
            assert(n % 10 == n);
        }
    }
    assert(text@ =~= old(text)@ + dec_text(n as nat));
}

/// Appends the lowest `count` hexadecimal digits of `n`.
pub fn push_hex_digits(text: &mut Vec<char>, n: u64, count: usize)
    ensures
        final(text)@ == old(text)@ + hex_text(n as nat, count as nat),
    decreases count,
{
    if count > 0 {
        push_hex_digits(text, n / 16, count - 1);
        text.push(digit(n % 16));
    }
    assert(text@ =~= old(text)@ + hex_text(n as nat, count as nat));
}

/// Appends `0x` and `count` hexadecimal digits of `n`, as `{:#0w x}` prints a value that
/// fits in `count` digits.
pub fn push_hex(text: &mut Vec<char>, n: u64, count: usize)
    ensures
        final(text)@ == old(text)@ + seq!['0', 'x'] + hex_text(n as nat, count as nat),
{
    text.push('0');
    text.push('x');
    let ghost mid = text@;
    push_hex_digits(text, n, count);
    assert(mid =~= old(text)@ + seq!['0', 'x']);
}

/// `yes` or `no`.
pub fn yes_no(value: bool) -> (s: &'static str)
    ensures
        value ==> s@ == "yes"@,
        !value ==> s@ == "no"@,
{
    if value {
        "yes"
    } else {
        "no"
    }
}

/// The hexadecimal digits of `n`, without leading zeros.
pub open spec fn hex_min_text(n: nat) -> Seq<char>
    decreases n,
{
    if n < 16 { seq![digit_char(n as int)] } else { hex_min_text(n / 16).push(digit_char((n % 16) as int)) }
}

/// Appends the hexadecimal digits of `n` without leading zeros.
pub fn push_hex_min(text: &mut Vec<char>, n: u64)
    ensures
        final(text)@ == old(text)@ + hex_min_text(n as nat),
    decreases n,
{
    if n >= 16 {
        push_hex_min(text, n / 16);
    }
    text.push(digit(n % 16));
    proof {
        if n < 16 {
            assert(n % 16 == n);
        }
    }
    assert(text@ =~= old(text)@ + hex_min_text(n as nat));
}

/// Whether a character sequence spells `s`.
pub fn chars_eq_str(a: &[char], s: &str) -> (r: bool)
    ensures
        r == (a@ == s@),
{
    let n = s.unicode_len();
    if a.len() != n {
        return false;
    }
    let mut i: usize = 0;
    while i < n
        invariant
            n == s@.len(),
            a@.len() == n,
            i <= n,
            forall|k: int| 0 <= k < i ==> a@[k] == s@[k],
        decreases n - i,
    {
        if a[i] != s.get_char(i) {
            return false;
        }
        i = i + 1;
    }
    assert(a@ =~= s@);
    true
}

/// A line `label value`.
pub open spec fn line_text(label: Seq<char>, value: Seq<char>) -> Seq<char> {
    label + seq![' '] + value + seq!['\n']
}

/// Appends the line `label value`.
pub fn push_line_str(text: &mut Vec<char>, label: &str, value: &str)
    ensures
        final(text)@ == old(text)@ + line_text(label@, value@),
{
    push_str(text, label);
    text.push(' ');
    push_str(text, value);
    text.push('\n');
    assert(text@ =~= old(text)@ + line_text(label@, value@));
}

/// Appends the line `label n`, `n` in decimal.
pub fn push_line_dec(text: &mut Vec<char>, label: &str, n: u64)
    ensures
        final(text)@ == old(text)@ + line_text(label@, dec_text(n as nat)),
{
    push_str(text, label);
    text.push(' ');
    push_dec(text, n);
    text.push('\n');
    assert(text@ =~= old(text)@ + line_text(label@, dec_text(n as nat)));
}

} // verus!
