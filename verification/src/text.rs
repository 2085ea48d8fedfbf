//! Building the short strings the library reports: hex, decimal, messages.
use vstd::prelude::*;

verus! {

/// Appends `c` to `s` (`String::push`).
#[verifier::external_body]
pub(crate) fn push_char(s: &mut String, c: char)
    ensures
        final(s)@ == old(s)@.push(c),
{
    s.push(c);
}

/// Appends `t` to `s`.
pub(crate) fn push_str(s: &mut String, t: &str)
    ensures
        final(s)@ == old(s)@ + t@,
{
    s.append(t);
}

/// The uppercase hexadecimal digit for `v` (0..16).
pub open spec fn hex_digit(v: int) -> char {
    if v < 10 {
        (48 + v) as char
    } else {
        (55 + v) as char
    }
}

/// Uppercase hex digit for `v`.
pub fn hex_digit_char(v: u8) -> (c: char)
    requires
        v < 16,
    ensures
        c == hex_digit(v as int),
{
    if v < 10 {
        (48u8 + v) as char
    } else {
        (55u8 + v) as char
    }
}

/// The decimal digits of `n`, most significant first, with no leading zeros.
pub open spec fn decimal(n: nat) -> Seq<char>
    decreases n,
{
    if n < 10 {
        seq![(48 + n) as char]
    } else {
        decimal(n / 10).push((48 + n % 10) as char)
    }
}

/// Appends the decimal digits of `n` to `s`.
pub fn push_decimal(s: &mut String, n: u64)
    ensures
        final(s)@ == old(s)@ + decimal(n as nat),
    decreases n,
{
    if n < 10 {
        push_char(s, (48u8 + n as u8) as char);
        proof {
            assert(decimal(n as nat) =~= seq![(48 + n) as char]);
        }
    } else {
        push_decimal(s, n / 10);
        push_char(s, (48u8 + (n % 10) as u8) as char);
        proof {
            assert(old(s)@ + decimal(n as nat) =~= old(s)@ + decimal((n / 10) as nat) + seq![
                (48 + n % 10) as char,
            ]);
        }
    }
}

/// Appends `n` to `s`, with a leading minus sign when negative.
pub open spec fn signed_decimal(n: int) -> Seq<char> {
    if n < 0 {
        seq!['-'] + decimal((-n) as nat)
    } else {
        decimal(n as nat)
    }
}

/// Appends the signed decimal rendering of `n` to `s`.
pub fn push_signed_decimal(s: &mut String, n: i64)
    ensures
        final(s)@ == old(s)@ + signed_decimal(n as int),
{
    if n < 0 {
        push_char(s, '-');
        let magnitude: u64 = if n == i64::MIN {
            0x8000_0000_0000_0000u64
        } else {
            (-n) as u64
        };
        push_decimal(s, magnitude);
        proof {
            assert(old(s)@ + signed_decimal(n as int) =~= old(s)@.push('-') + decimal(
                magnitude as nat,
            ));
        }
    } else {
        push_decimal(s, n as u64);
    }
}

/// Whether two strings hold the same characters.
pub fn str_eq(a: &str, b: &str) -> (r: bool)
    ensures
        r == (a@ == b@),
{
    let x = crate::hex::chars_of(a);
    let y = crate::hex::chars_of(b);
    if x.len() != y.len() {
        return false;
    }
    let mut i: usize = 0;
    while i < x.len()
        invariant
            x@ == a@,
            y@ == b@,
            x@.len() == y@.len(),
            i <= x@.len(),
            forall|j: int| 0 <= j < i ==> x@[j] == y@[j],
        decreases x@.len() - i,
    {
        if x[i] != y[i] {
            return false;
        }
        i = i + 1;
    }
    proof {
        assert(a@ =~= b@);
    }
    true
}

/// `n` spaces.
pub open spec fn spaces(n: nat) -> Seq<char> {
    Seq::new(n, |i: int| ' ')
}

/// `t` left-aligned in a field `width` characters wide.
pub open spec fn padded(t: Seq<char>, width: nat) -> Seq<char> {
    if t.len() >= width {
        t
    } else {
        t + spaces((width - t.len()) as nat)
    }
}

/// Appends `t` left-aligned in a field `width` characters wide.
pub fn push_padded(s: &mut String, t: &str, width: usize)
    ensures
        final(s)@ == old(s)@ + padded(t@, width as nat),
{
    let n = crate::hex::chars_of(t).len();
    push_str(s, t);
    let mut k: usize = n;
    while k < width
        invariant
            n == t@.len(),
            n <= k,
            k <= width || n >= width,
            n >= width ==> k == n,
            s@ == old(s)@ + t@ + spaces((k - n) as nat),
        decreases width - k,
    {
        push_char(s, ' ');
        proof {
            assert(spaces((k + 1 - n) as nat) =~= spaces((k - n) as nat).push(' '));
        }
        k = k + 1;
    }
    proof {
        if n >= width {
            assert(k == n);
            assert(spaces(0) =~= Seq::<char>::empty());
            assert(old(s)@ + t@ + spaces(0) =~= old(s)@ + t@);
            assert(padded(t@, width as nat) == t@);
            assert(s@ == old(s)@ + padded(t@, width as nat));
        } else {
            assert(k == width);
            assert(old(s)@ + t@ + spaces((k - n) as nat) =~= old(s)@ + (t@ + spaces((width - n) as nat)));
        }
    }
}

} // verus!
