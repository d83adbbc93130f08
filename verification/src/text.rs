//! Numbers as text.
use vstd::prelude::*;

verus! {

/// Trusted: `String::push` of the standard library appends one character to the end of the string
/// and changes nothing else.
pub assume_specification[ String::push ](s: &mut String, c: char)
    ensures
        final(s)@ == old(s)@.push(c),
;

/// The decimal digit for a number below ten.
pub open spec fn digit_char(d: nat) -> char {
    (48 + d) as char
}

/// The upper-case hexadecimal digit for a number below sixteen.
pub open spec fn hex_char(d: nat) -> char {
    if d < 10 {
        (48 + d) as char
    } else {
        (55 + d) as char
    }
}

/// A number in decimal, without leading zeros.
pub open spec fn decimal(n: nat) -> Seq<char>
    decreases n,
{
    if n < 10 {
        seq![digit_char(n)]
    } else {
        decimal(n / 10).push(digit_char(n % 10))
    }
}

/// A number below one hundred in two decimal digits.
pub open spec fn two_digits(n: nat) -> Seq<char> {
    seq![digit_char(n / 10), digit_char(n % 10)]
}

/// The `width` low-order hexadecimal digits of a number, most significant first.
pub open spec fn hex_digits(n: nat, width: nat) -> Seq<char>
    decreases width,
{
    if width == 0 {
        Seq::empty()
    } else {
        hex_digits(n / 16, (width - 1) as nat).push(hex_char(n % 16))
    }
}

/// How many hexadecimal digits a number has.
pub open spec fn hex_width(n: nat) -> nat
    decreases n,
{
    if n < 16 {
        1
    } else {
        1 + hex_width(n / 16)
    }
}

/// A number in hexadecimal, with zeros in front up to at least `width` digits.
pub open spec fn hex_padded(n: nat, width: nat) -> Seq<char> {
    hex_digits(
        n,
        if hex_width(n) < width {
            width
        } else {
            hex_width(n)
        },
    )
}

/// `n` spaces.
pub open spec fn spaces(n: nat) -> Seq<char> {
    Seq::new(n, |i: int| ' ')
}

/// A text as an owned string.
pub fn text_of(s: &str) -> (r: String)
    ensures
        r@ == s@,
{
    s.to_owned()
}

/// Appends a number in decimal.
pub fn push_decimal(out: &mut String, n: u64)
    ensures
        final(out)@ == old(out)@ + decimal(n as nat),
    decreases n,
{
    let ghost before = out@;
    if n >= 10 {
        push_decimal(out, n / 10);
    }
    out.push((48 + (n % 10) as u8) as char);
    assert(out@ =~= before + decimal(n as nat));
}

/// Appends a number below one hundred in two digits.
pub fn push_two_digits(out: &mut String, n: u32)
    requires
        n < 100,
    ensures
        final(out)@ == old(out)@ + two_digits(n as nat),
{
    let ghost before = out@;
    out.push((48 + (n / 10) as u8) as char);
    out.push((48 + (n % 10) as u8) as char);
    assert(out@ =~= before + two_digits(n as nat));
}

/// The upper-case hexadecimal digit for a number below sixteen.
fn hex_char_of(d: u8) -> (c: char)
    requires
        d < 16,
    ensures
        c == hex_char(d as nat),
{
    if d < 10 {
        (48 + d) as char
    } else {
        (55 + d) as char
    }
}

/// Appends the `width` low-order hexadecimal digits of a number.
pub fn push_hex_digits(out: &mut String, n: u64, width: usize)
    ensures
        final(out)@ == old(out)@ + hex_digits(n as nat, width as nat),
    decreases width,
{
    let ghost before = out@;
    if width > 0 {
        push_hex_digits(out, n / 16, width - 1);
        out.push(hex_char_of((n % 16) as u8));
    }
    assert(out@ =~= before + hex_digits(n as nat, width as nat));
}

/// How many hexadecimal digits a number has.
fn hex_width_of(n: u64) -> (w: usize)
    ensures
        w as nat == hex_width(n as nat),
        w <= 16,
{
    let mut rest: u64 = n;
    let mut w: usize = 1;
    proof {
        vstd::arithmetic::power2::lemma2_to64();
        lemma_hex_width_bound(n as nat, 16);
    }
    while rest >= 16
        invariant
            w + hex_width(rest as nat) == 1 + hex_width(n as nat),
            hex_width(n as nat) <= 16,
        decreases rest,
    {
        rest = rest / 16;
        w = w + 1;
    }
    w
}

proof fn lemma_hex_width_bound(n: nat, w: nat)
    requires
        w >= 1,
        n < vstd::arithmetic::power2::pow2(4 * w),
    ensures
        hex_width(n) <= w,
    decreases w,
{
    vstd::arithmetic::power2::lemma2_to64();
    if w == 1 {
    } else if n >= 16 {
        vstd::arithmetic::power2::lemma_pow2_adds(4, (4 * (w - 1)) as nat);
        assert(n / 16 < vstd::arithmetic::power2::pow2((4 * (w - 1)) as nat));
        lemma_hex_width_bound(n / 16, (w - 1) as nat);
    }
}

/// Appends a number in hexadecimal, with zeros in front up to at least `width` digits.
pub fn push_hex_padded(out: &mut String, n: u64, width: usize)
    ensures
        final(out)@ == old(out)@ + hex_padded(n as nat, width as nat),
{
    let own: usize = hex_width_of(n);
    if own < width {
        push_hex_digits(out, n, width);
    } else {
        push_hex_digits(out, n, own);
    }
}

/// Appends spaces.
pub fn push_spaces(out: &mut String, n: usize)
    ensures
        final(out)@ == old(out)@ + spaces(n as nat),
{
    let mut done: usize = 0;
    assert(out@ =~= out@ + spaces(0));
    while done < n
        invariant
            done <= n,
            out@ == old(out)@ + spaces(done as nat),
        decreases n - done,
    {
        out.push(' ');
        done = done + 1;
        assert(out@ =~= old(out)@ + spaces(done as nat));
    }
}

// ---------- Laws ----------
/// The number that a text of decimal digits stands for: each digit counts once, and what is in
/// front of it ten times.
pub open spec fn decimal_value(text: Seq<char>) -> int
    decreases text.len(),
{
    if text.len() == 0 {
        0
    } else {
        10 * decimal_value(text.drop_last()) + (text.last() as int - 48)
    }
}

/// A number in decimal reads as that number, is made of the characters from `0` to `9` only, and
/// does not begin with `0` unless it is zero.
pub proof fn law_decimal_reads_back(n: nat)
    ensures
        decimal_value(decimal(n)) == n,
        decimal(n).len() >= 1,
        forall|i: int| 0 <= i < decimal(n).len() ==> '0' <= #[trigger] decimal(n)[i] <= '9',
        n > 0 ==> decimal(n)[0] != '0',
        n == 0 ==> decimal(n) == seq!['0'],
    decreases n,
{
    let text = decimal(n);
    if n < 10 {
        assert(text.drop_last() =~= Seq::empty());
        assert(decimal_value(text.drop_last()) == 0);
        assert(text.last() as int == 48 + n);
    } else {
        law_decimal_reads_back(n / 10);
        assert(text.drop_last() =~= decimal(n / 10));
        assert(text.last() as int == 48 + n % 10);
        assert(text[0] == decimal(n / 10)[0]);
        assert forall|i: int| 0 <= i < text.len() implies '0' <= #[trigger] text[i] <= '9' by {
            if i < text.len() - 1 {
                assert(text[i] == decimal(n / 10)[i]);
            }
        }
    }
}

/// A number below one hundred in two digits: the tens and the units.
pub proof fn law_two_digits_read_back(n: nat)
    requires
        n < 100,
    ensures
        two_digits(n).len() == 2,
        '0' <= two_digits(n)[0] <= '9',
        '0' <= two_digits(n)[1] <= '9',
        10 * (two_digits(n)[0] as int - 48) + (two_digits(n)[1] as int - 48) == n,
{
}

/// The value of an upper-case hexadecimal digit; none of another character.
pub open spec fn hex_char_value(c: char) -> Option<int> {
    if '0' <= c <= '9' {
        Some(c as int - 48)
    } else if 'A' <= c <= 'F' {
        Some(c as int - 55)
    } else {
        None
    }
}

/// The number that a text of upper-case hexadecimal digits stands for; none where it holds another
/// character.
pub open spec fn hex_value(text: Seq<char>) -> Option<int>
    decreases text.len(),
{
    if text.len() == 0 {
        Some(0)
    } else {
        match (hex_value(text.drop_last()), hex_char_value(text.last())) {
            (Some(high), Some(low)) => Some(16 * high + low),
            _ => None,
        }
    }
}

/// Hexadecimal digits of a given width read as the number modulo 16 to that power.
pub proof fn law_hex_digits_read_back(n: nat, width: nat)
    ensures
        hex_digits(n, width).len() == width,
        hex_value(hex_digits(n, width)) is Some,
        width > 0 ==> hex_char_value(hex_digits(n, width)[width - 1]) == Some((n % 16) as int),
        width > 0 ==> hex_digits(n, width).drop_last() == hex_digits(n / 16, (width - 1) as nat),
        n < 256 && width == 2 ==> hex_value(hex_digits(n, width)) == Some(n as int),
    decreases width,
{
    if width > 0 {
        law_hex_digits_read_back(n / 16, (width - 1) as nat);
        assert(hex_digits(n, width).drop_last() =~= hex_digits(n / 16, (width - 1) as nat));
        if n < 256 && width == 2 {
            let high = hex_digits(n / 16, 1);
            assert(high.drop_last() =~= Seq::empty());
            assert(hex_value(high.drop_last()) == Some(0int));
            assert(hex_char_value(high.last()) == Some((n / 16) as int));
            assert(hex_value(high) == Some((n / 16) as int));
        }
    }
}

proof fn lemma_hex_width_digits(n: nat, width: nat)
    requires
        width >= hex_width(n),
    ensures
        hex_value(hex_digits(n, width)) == Some(n as int),
        width > hex_width(n) ==> hex_digits(n, width)[0] == '0',
        width == hex_width(n) && n > 0 ==> hex_digits(n, width)[0] != '0',
    decreases width,
{
    let text = hex_digits(n, width);
    law_hex_digits_read_back(n, width);
    if n < 16 {
        if width == 1 {
            assert(text.drop_last() =~= Seq::empty());
            assert(hex_value(text.drop_last()) == Some(0int));
        } else {
            lemma_hex_width_digits(0, (width - 1) as nat);
            lemma_zero_leads((width - 1) as nat);
            assert(text[0] == hex_digits(0, (width - 1) as nat)[0]);
        }
    } else {
        lemma_hex_width_digits(n / 16, (width - 1) as nat);
        law_hex_digits_read_back(n / 16, (width - 1) as nat);
        assert(text[0] == hex_digits(n / 16, (width - 1) as nat)[0]);
    }
}

proof fn lemma_zero_leads(width: nat)
    requires
        width >= 1,
    ensures
        hex_digits(0, width).len() == width,
        hex_digits(0, width)[0] == '0',
    decreases width,
{
    law_hex_digits_read_back(0, width);
    if width > 1 {
        lemma_zero_leads((width - 1) as nat);
    }
}

/// A number in hexadecimal, padded to a width, reads as that number. It has at least that many
/// digits, and more only where the first one is not zero; zero has one digit of its own.
pub proof fn law_hex_padded_reads_back(n: nat, width: nat)
    ensures
        hex_value(hex_padded(n, width)) == Some(n as int),
        hex_padded(n, width).len() >= width,
        hex_padded(n, width).len() > width && n > 0 ==> hex_padded(n, width)[0] != '0',
        n == 0 && width > 0 ==> hex_padded(n, width).len() == width,
{
    let own = hex_width(n);
    let used = if own < width {
        width
    } else {
        own
    };
    law_hex_digits_read_back(n, used);
    lemma_hex_width_digits(n, used);
}

/// Spaces are as many as asked for, and nothing but spaces.
pub proof fn law_spaces(n: nat)
    ensures
        spaces(n).len() == n,
        forall|i: int| 0 <= i < n ==> #[trigger] spaces(n)[i] == ' ',
{
}

} // verus!
