//! Decimal and human-readable text rendering.

use vstd::prelude::*;
use vstd::string::{StringExecFns, StrSliceExecFns};

verus! {

/// The ASCII digit character for `d` (meaningful for `d < 10`).
pub open spec fn digit_char(d: nat) -> char {
    (d + 48) as char
}

/// Decimal representation of `n`, without leading zeros.
pub open spec fn decimal(n: nat) -> Seq<char>
    decreases n,
{
    if n < 10 {
        seq![digit_char(n)]
    } else {
        decimal(n / 10).push(digit_char(n % 10))
    }
}

/// Exactly three decimal digits of `n` (zero padded on the left), for `n < 1000`.
pub open spec fn three_digits(n: nat) -> Seq<char> {
    seq![digit_char(n / 100), digit_char((n / 10) % 10), digit_char(n % 10)]
}

/// Decimal representation of `n` with a comma between each group of three
/// digits, counted from the right.
pub open spec fn thousands(n: nat) -> Seq<char>
    decreases n,
{
    if n < 1000 {
        decimal(n)
    } else {
        thousands(n / 1000) + seq![','] + three_digits(n % 1000)
    }
}

/// Rendering of a whole number of seconds: `"Ns"` below a minute, `"Mm Ss"`
/// below an hour, `"Hh Mm"` from an hour on.
pub open spec fn duration_text(secs: nat) -> Seq<char> {
    if secs < 60 {
        decimal(secs).push('s')
    } else if secs < 3600 {
        decimal(secs / 60) + seq!['m', ' '] + decimal(secs % 60).push('s')
    } else {
        decimal(secs / 3600) + seq!['h', ' '] + decimal((secs % 3600) / 60).push('m')
    }
}

/// `String::push`: appends one character.
#[verifier::external_body]
pub(crate) fn push_char(s: &mut String, c: char)
    ensures
        final(s)@ == old(s)@.push(c),
{
    s.push(c);
}

/// Appends the characters of `t` to `s`.
pub(crate) fn push_str(s: &mut String, t: &str)
    ensures
        final(s)@ == old(s)@ + t@,
{
    s.append(t);
}

/// The digit character of `d`.
pub fn digit(d: u64) -> (c: char)
    requires
        d < 10,
    ensures
        c == digit_char(d as nat),
{
    let b: u8 = 48u8 + (d as u8);
    b as char
}

/// Appends the decimal representation of `n` to `out`.
pub fn push_decimal(out: &mut String, n: u64)
    ensures
        final(out)@ == old(out)@ + decimal(n as nat),
    decreases n,
{
    if n >= 10 {
        push_decimal(out, n / 10);
    }
    let ghost mid = out@;
    push_char(out, digit(n % 10));
    proof {
        assert(old(out)@ + decimal(n as nat) =~= mid.push(digit_char((n % 10) as nat)));
    }
}

/// The decimal representation of `n`.
pub fn decimal_string(n: u64) -> (s: String)
    ensures
        s@ == decimal(n as nat),
{
    let mut s = String::new();
    push_decimal(&mut s, n);
    proof {
        assert(s@ =~= decimal(n as nat));
    }
    s
}

fn push_three_digits(out: &mut String, n: u64)
    requires
        n < 1000,
    ensures
        final(out)@ == old(out)@ + three_digits(n as nat),
{
    push_char(out, digit(n / 100));
    push_char(out, digit((n / 10) % 10));
    push_char(out, digit(n % 10));
    proof {
        assert(out@ =~= old(out)@ + three_digits(n as nat));
    }
}

fn push_thousands(out: &mut String, n: u64)
    ensures
        final(out)@ == old(out)@ + thousands(n as nat),
    decreases n,
{
    if n < 1000 {
        push_decimal(out, n);
    } else {
        push_thousands(out, n / 1000);
        push_char(out, ',');
        push_three_digits(out, n % 1000);
        proof {
            assert(out@ =~= old(out)@ + thousands(n as nat));
        }
    }
}

/// Renders `n` in decimal with thousands separators, e.g. `1234567` as `"1,234,567"`.
pub fn format_number(n: u64) -> (s: String)
    ensures
        s@ == thousands(n as nat),
{
    let mut s = String::new();
    push_thousands(&mut s, n);
    proof {
        assert(s@ =~= thousands(n as nat));
    }
    s
}

/// Renders a duration given in whole seconds: `"42s"`, `"2m 5s"`, `"1h 1m"`.
pub fn format_duration(secs: u64) -> (s: String)
    ensures
        s@ == duration_text(secs as nat),
{
    let mut s = String::new();
    if secs < 60 {
        push_decimal(&mut s, secs);
        push_char(&mut s, 's');
    } else if secs < 3600 {
        push_decimal(&mut s, secs / 60);
        push_char(&mut s, 'm');
        push_char(&mut s, ' ');
        push_decimal(&mut s, secs % 60);
        push_char(&mut s, 's');
    } else {
        push_decimal(&mut s, secs / 3600);
        push_char(&mut s, 'h');
        push_char(&mut s, ' ');
        push_decimal(&mut s, (secs % 3600) / 60);
        push_char(&mut s, 'm');
    }
    proof {
        assert(s@ =~= duration_text(secs as nat));
    }
    s
}

/// `s` without its trailing dots.
pub open spec fn trim_dots(s: Seq<char>) -> Seq<char>
    decreases s.len(),
{
    if s.len() > 0 && s.last() == '.' {
        trim_dots(s.drop_last())
    } else {
        s
    }
}

/// `name` with all trailing dots removed, e.g. a fully qualified
/// `"host.example."` as `"host.example"`.
pub fn trim_trailing_dots(name: &str) -> (r: String)
    ensures
        r@ == trim_dots(name@),
{
    let n = name.unicode_len();
    let mut end: usize = n;
    proof {
        assert(name@.take(n as int) =~= name@);
    }
    while end > 0
        invariant
            n == name@.len(),
            end <= n,
            trim_dots(name@) == trim_dots(name@.take(end as int)),
        ensures
            end <= n,
            trim_dots(name@) == trim_dots(name@.take(end as int)),
            end == 0 || name@[end - 1] != '.',
        decreases end,
    {
        if name.get_char(end - 1) != '.' {
            break;
        }
        proof {
            assert(name@.take(end as int).drop_last() =~= name@.take(end - 1));
        }
        end = end - 1;
    }
    proof {
        if end > 0 {
            assert(name@.take(end as int).last() == name@[end - 1]);
        }
        assert(trim_dots(name@.take(end as int)) == name@.take(end as int));
    }
    let kept = name.substring_char(0, end);
    proof {
        assert(kept@ =~= name@.take(end as int));
    }
    String::from_str(kept)
}

} // verus!
