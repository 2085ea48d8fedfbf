//! Hex text to bytes and back.
use vstd::prelude::*;

verus! {

/// The characters of `s`, in order.
pub fn chars_of(s: &str) -> (v: Vec<char>)
    ensures
        v@ == s@,
{
    let mut v: Vec<char> = Vec::new();
    for c in it: s.chars()
        invariant
            v@ == it.seq().take(it.index() as int),
    {
        v.push(c);
    }
    proof {
        assert(v@ =~= s@);
    }
    v
}

/// Unicode `White_Space`, the set `str::trim` removes.
pub open spec fn is_white_space(c: char) -> bool {
    ('\u{9}' <= c && c <= '\u{D}') || c == ' ' || c == '\u{85}' || c == '\u{A0}' || c
        == '\u{1680}' || ('\u{2000}' <= c && c <= '\u{200A}') || c == '\u{2028}' || c
        == '\u{2029}' || c == '\u{202F}' || c == '\u{205F}' || c == '\u{3000}'
}

pub fn is_white_space_char(c: char) -> (w: bool)
    ensures
        w == is_white_space(c),
{
    ('\u{9}' <= c && c <= '\u{D}') || c == ' ' || c == '\u{85}' || c == '\u{A0}' || c
        == '\u{1680}' || ('\u{2000}' <= c && c <= '\u{200A}') || c == '\u{2028}' || c
        == '\u{2029}' || c == '\u{202F}' || c == '\u{205F}' || c == '\u{3000}'
}

/// Index of the first non-whitespace character at or after `i`, or `s.len()`.
pub open spec fn first_non_ws(s: Seq<char>, i: int) -> int
    decreases s.len() - i,
{
    if i >= s.len() || i < 0 {
        s.len() as int
    } else if !is_white_space(s[i]) {
        i
    } else {
        first_non_ws(s, i + 1)
    }
}

/// One past the last non-whitespace character before `j`, or 0.
pub open spec fn end_non_ws(s: Seq<char>, j: int) -> int
    decreases j,
{
    if j <= 0 || j > s.len() {
        0
    } else if !is_white_space(s[j - 1]) {
        j
    } else {
        end_non_ws(s, j - 1)
    }
}

/// `s` with leading and trailing whitespace removed.
pub open spec fn trim_ws(s: Seq<char>) -> Seq<char> {
    let a = first_non_ws(s, 0);
    let b = end_non_ws(s, s.len() as int);
    if a < b {
        s.subrange(a, b)
    } else {
        Seq::empty()
    }
}

/// The value of a hexadecimal digit (either case).
pub open spec fn hex_value(c: char) -> Option<u8> {
    if '0' <= c && c <= '9' {
        Some((c as u32 - 48) as u8)
    } else if 'a' <= c && c <= 'f' {
        Some((c as u32 - 87) as u8)
    } else if 'A' <= c && c <= 'F' {
        Some((c as u32 - 55) as u8)
    } else {
        None
    }
}

/// A byte written as two hexadecimal digits, high digit first.
pub open spec fn hex_pair(c0: char, c1: char) -> Option<u8> {
    match (hex_value(c0), hex_value(c1)) {
        (Some(h), Some(l)) => Some((16 * h + l) as u8),
        _ => None,
    }
}

/// What a hex string parses to: surrounding whitespace ignored, an even
/// number of characters, every one a hexadecimal digit.
pub open spec fn hex_to_bytes_spec(s: Seq<char>) -> Option<Seq<u8>> {
    let t = trim_ws(s);
    if t.len() % 2 != 0 {
        None
    } else if forall|i: int| 0 <= i < t.len() / 2 ==> (#[trigger] hex_pair(t[2 * i], t[2 * i + 1])) is Some {
        Some(Seq::new(t.len() / 2, |i: int| hex_pair(t[2 * i], t[2 * i + 1])->0))
    } else {
        None
    }
}

fn hex_value_of(c: char) -> (v: Option<u8>)
    ensures
        v == hex_value(c),
{
    if '0' <= c && c <= '9' {
        Some((c as u32 - 48) as u8)
    } else if 'a' <= c && c <= 'f' {
        Some((c as u32 - 87) as u8)
    } else if 'A' <= c && c <= 'F' {
        Some((c as u32 - 55) as u8)
    } else {
        None
    }
}

fn hex_pair_of(c0: char, c1: char) -> (v: Option<u8>)
    ensures
        v == hex_pair(c0, c1),
{
    match (hex_value_of(c0), hex_value_of(c1)) {
        (Some(h), Some(l)) => {
            assert(h < 16 && l < 16);
            Some(16 * h + l)
        },
        _ => None,
    }
}

/// `c` without leading or trailing whitespace (`str::trim`).
pub fn trim_chars(c: &[char]) -> (t: Vec<char>)
    ensures
        t@ == trim_ws(c@),
{
    let n = c.len();
    let mut a: usize = 0;
    while a < n && is_white_space_char(c[a])
        invariant
            a <= n,
            n == c@.len(),
            first_non_ws(c@, 0) == first_non_ws(c@, a as int),
        decreases n - a,
    {
        a = a + 1;
    }
    let mut e: usize = n;
    while e > 0 && is_white_space_char(c[e - 1])
        invariant
            e <= n,
            n == c@.len(),
            end_non_ws(c@, c@.len() as int) == end_non_ws(c@, e as int),
        decreases e,
    {
        e = e - 1;
    }
    proof {
        assert(first_non_ws(c@, 0) == a as int);
        assert(end_non_ws(c@, c@.len() as int) == e as int);
    }
    let mut t: Vec<char> = Vec::new();
    if a < e {
        let mut i: usize = a;
        while i < e
            invariant
                a <= i <= e,
                e <= n,
                n == c@.len(),
                t@ == c@.subrange(a as int, i as int),
            decreases e - i,
        {
            t.push(c[i]);
            proof {
                assert(c@.subrange(a as int, i + 1) =~= c@.subrange(a as int, i as int).push(c@[i as int]));
            }
            i = i + 1;
        }
    }
    proof {
        if !(a < e) {
            assert(t@ =~= trim_ws(c@));
        }
    }
    t
}

/// Parse a hex string into bytes. Surrounding whitespace is ignored; an odd
/// number of digits, or any character that is not a hex digit, gives `None`.
pub fn hex_to_bytes(s: &str) -> (r: Option<Vec<u8>>)
    ensures
        r matches Some(v) ==> hex_to_bytes_spec(s@) == Some(v@),
        r is None ==> hex_to_bytes_spec(s@) is None,
{
    let chars = chars_of(s);
    let ghost cs = chars@;
    let n = chars.len();
    let mut a: usize = 0;
    while a < n && is_white_space_char(chars[a])
        invariant
            a <= n,
            n == cs.len(),
            cs == chars@,
            first_non_ws(cs, 0) == first_non_ws(cs, a as int),
        decreases n - a,
    {
        a = a + 1;
    }
    let mut e: usize = n;
    while e > 0 && is_white_space_char(chars[e - 1])
        invariant
            e <= n,
            n == cs.len(),
            cs == chars@,
            end_non_ws(cs, cs.len() as int) == end_non_ws(cs, e as int),
        decreases e,
    {
        e = e - 1;
    }
    let ghost t = trim_ws(cs);
    proof {
        assert(first_non_ws(cs, 0) == a as int);
        assert(end_non_ws(cs, cs.len() as int) == e as int);
    }
    let len: usize = if a < e { e - a } else { 0 };
    assert(t.len() == len);
    if len % 2 != 0 {
        return None;
    }
    let mut out: Vec<u8> = Vec::new();
    let mut i: usize = 0;
    while i < len / 2
        invariant
            i <= len / 2,
            len % 2 == 0,
            t.len() == len,
            len > 0 ==> a + len <= n,
            n == cs.len(),
            cs == chars@,
            len > 0 ==> t == cs.subrange(a as int, (a + len) as int),
            cs == s@,
            t == trim_ws(cs),
            out@.len() == i,
            forall|k: int| 0 <= k < i ==> (#[trigger] hex_pair(t[2 * k], t[2 * k + 1])) is Some
                && out@[k] == hex_pair(t[2 * k], t[2 * k + 1])->0,
        decreases len / 2 - i,
    {
        let c0 = chars[a + 2 * i];
        let c1 = chars[a + 2 * i + 1];
        assert(c0 == t[2 * i as int] && c1 == t[2 * i + 1]);
        match hex_pair_of(c0, c1) {
            Some(v) => out.push(v),
            None => {
                proof {
                    let k = i as int;
                    assert(hex_pair(t[2 * k], t[2 * k + 1]) is None);
                    assert(!(forall|m: int| 0 <= m < t.len() / 2 ==> (#[trigger] hex_pair(t[2 * m], t[2 * m + 1])) is Some));
                }
                return None;
            },
        }
        i = i + 1;
    }
    proof {
        assert(out@ =~= Seq::new(t.len() / 2, |k: int| hex_pair(t[2 * k], t[2 * k + 1])->0));
    }
    Some(out)
}

/// Two uppercase hex digits per byte.
pub open spec fn hex_string(bytes: Seq<u8>) -> Seq<char> {
    Seq::new(
        bytes.len() * 2,
        |i: int|
            if i % 2 == 0 {
                crate::text::hex_digit(bytes[i / 2] as int / 16)
            } else {
                crate::text::hex_digit(bytes[i / 2] as int % 16)
            },
    )
}

proof fn lemma_hex_digit_value(v: int)
    requires
        0 <= v < 16,
    ensures
        hex_value(crate::text::hex_digit(v)) == Some(v as u8),
        !is_white_space(crate::text::hex_digit(v)),
{
}

/// Text made only of uppercase hexadecimal digits, two per byte.
pub open spec fn is_upper_hex(h: Seq<char>) -> bool {
    &&& h.len() % 2 == 0
    &&& forall|i: int| 0 <= i < h.len() ==> ('0' <= #[trigger] h[i] && h[i] <= '9') || ('A' <= h[i] && h[i] <= 'F')
}

proof fn lemma_upper_digit(c: char)
    requires
        ('0' <= c && c <= '9') || ('A' <= c && c <= 'F'),
    ensures
        hex_value(c) is Some,
        crate::text::hex_digit(hex_value(c)->0 as int) == c,
        !is_white_space(c),
{
}

/// Law: rendering what `hex_to_bytes` parsed from uppercase hex gives the
/// text back.
pub proof fn lemma_hex_text_round_trip(h: Seq<char>)
    requires
        is_upper_hex(h),
    ensures
        hex_to_bytes_spec(h) matches Some(bytes) && hex_string(bytes) == h,
{
    assert forall|i: int| 0 <= i < h.len() implies !is_white_space(#[trigger] h[i]) by {
        lemma_upper_digit(h[i]);
    }
    if h.len() > 0 {
        assert(first_non_ws(h, 0) == 0);
        assert(end_non_ws(h, h.len() as int) == h.len());
    }
    assert(trim_ws(h) =~= h);
    assert forall|i: int| 0 <= i < h.len() / 2 implies (#[trigger] hex_pair(h[2 * i], h[2 * i + 1])) is Some by {
        lemma_upper_digit(h[2 * i]);
        lemma_upper_digit(h[2 * i + 1]);
    }
    let bytes = Seq::new(h.len() / 2, |i: int| hex_pair(h[2 * i], h[2 * i + 1])->0);
    assert(hex_to_bytes_spec(h) == Some(bytes));
    assert forall|j: int| 0 <= j < h.len() implies #[trigger] hex_string(bytes)[j] == h[j] by {
        let i = j / 2;
        lemma_upper_digit(h[2 * i]);
        lemma_upper_digit(h[2 * i + 1]);
        let hi = hex_value(h[2 * i])->0;
        let lo = hex_value(h[2 * i + 1])->0;
        assert(hi < 16 && lo < 16);
        assert(bytes[i] == (16 * hi + lo) as u8);
        assert(bytes[i] as int / 16 == hi as int && bytes[i] as int % 16 == lo as int) by (nonlinear_arith)
            requires
                bytes[i] as int == 16 * hi as int + lo as int,
                0 <= hi < 16,
                0 <= lo < 16,
        ;
        if j % 2 == 0 {
            assert(j == 2 * i);
        } else {
            assert(j == 2 * i + 1);
        }
    }
    assert(hex_string(bytes) =~= h);
}

/// Law: parsing what `bytes_to_hex` rendered gives the bytes back.
pub proof fn lemma_hex_round_trip(bytes: Seq<u8>)
    ensures
        hex_to_bytes_spec(hex_string(bytes)) == Some(bytes),
{
    let h = hex_string(bytes);
    assert forall|i: int| 0 <= i < h.len() implies !is_white_space(#[trigger] h[i]) by {
        if i % 2 == 0 {
            lemma_hex_digit_value(bytes[i / 2] as int / 16);
        } else {
            lemma_hex_digit_value(bytes[i / 2] as int % 16);
        }
    }
    if h.len() > 0 {
        assert(first_non_ws(h, 0) == 0);
        assert(end_non_ws(h, h.len() as int) == h.len());
        assert(trim_ws(h) =~= h);
    } else {
        assert(trim_ws(h) =~= h);
    }
    assert forall|i: int| 0 <= i < h.len() / 2 implies (#[trigger] hex_pair(h[2 * i], h[2 * i + 1]))
        == Some(bytes[i]) by {
        let x = bytes[i] as int;
        assert((2 * i) / 2 == i);
        assert((2 * i + 1) / 2 == i);
        assert((2 * i) % 2 == 0);
        assert((2 * i + 1) % 2 == 1);
        lemma_hex_digit_value(x / 16);
        lemma_hex_digit_value(x % 16);
    }
    assert(Seq::new(h.len() / 2, |i: int| hex_pair(h[2 * i], h[2 * i + 1])->0) =~= bytes);
}

/// Render bytes as uppercase hex.
pub fn bytes_to_hex(bytes: &[u8]) -> (s: String)
    ensures
        s@ == hex_string(bytes@),
{
    let mut s = String::new();
    let mut j: usize = 0;
    while j < bytes.len()
        invariant
            j <= bytes@.len(),
            s@.len() == 2 * j,
            forall|i: int| 0 <= i < s@.len() ==> #[trigger] s@[i] == hex_string(bytes@)[i],
        decreases bytes@.len() - j,
    {
        let b = bytes[j];
        crate::text::push_char(&mut s, crate::text::hex_digit_char(b / 16));
        crate::text::push_char(&mut s, crate::text::hex_digit_char(b % 16));
        proof {
            assert((2 * j) as int / 2 == j as int);
            assert((2 * j + 1) as int / 2 == j as int);
        }
        j = j + 1;
    }
    proof {
        assert(s@ =~= hex_string(bytes@));
    }
    s
}


/// `c` with an ASCII lowercase letter made uppercase; anything else as is.
pub open spec fn upper_char(c: char) -> char {
    if 'a' <= c && c <= 'z' {
        ((c as u32) - 32) as char
    } else {
        c
    }
}

/// Law: hex digits ignore case. A character and its uppercase form have the
/// same digit value, and a digit's value renders back as the uppercase form.
pub proof fn lemma_hex_digits_ignore_case(c: char)
    ensures
        hex_value(upper_char(c)) == hex_value(c),
        hex_value(c) matches Some(v) ==> v < 16 && crate::text::hex_digit(v as int) == upper_char(c),
{
}

proof fn lemma_white_space_ignores_case(c: char)
    ensures
        is_white_space(upper_char(c)) == is_white_space(c),
{
}

proof fn lemma_first_non_ws_upper(s: Seq<char>, i: int)
    ensures
        first_non_ws(s.map_values(|c: char| upper_char(c)), i) == first_non_ws(s, i),
    decreases s.len() - i,
{
    let u = s.map_values(|c: char| upper_char(c));
    if 0 <= i < s.len() {
        lemma_white_space_ignores_case(s[i]);
        assert(u[i] == upper_char(s[i]));
        lemma_first_non_ws_upper(s, i + 1);
    }
}

proof fn lemma_end_non_ws_upper(s: Seq<char>, j: int)
    ensures
        end_non_ws(s.map_values(|c: char| upper_char(c)), j) == end_non_ws(s, j),
    decreases j,
{
    let u = s.map_values(|c: char| upper_char(c));
    if 0 < j <= s.len() {
        lemma_white_space_ignores_case(s[j - 1]);
        assert(u[j - 1] == upper_char(s[j - 1]));
        lemma_end_non_ws_upper(s, j - 1);
    }
}

proof fn lemma_first_bounds(s: Seq<char>, i: int)
    requires
        0 <= i,
    ensures
        0 <= first_non_ws(s, i) <= s.len(),
    decreases s.len() - i,
{
    if i < s.len() && is_white_space(s[i]) {
        lemma_first_bounds(s, i + 1);
    }
}

proof fn lemma_end_bounds(s: Seq<char>, j: int)
    requires
        0 <= j <= s.len(),
    ensures
        0 <= end_non_ws(s, j) <= j,
    decreases j,
{
    if j > 0 && is_white_space(s[j - 1]) {
        lemma_end_bounds(s, j - 1);
    }
}

/// Law: parsing hex text ignores the case of its letters: a string parses
/// exactly as its uppercase form does.
pub proof fn lemma_hex_parse_ignores_case(s: Seq<char>)
    ensures
        hex_to_bytes_spec(s.map_values(|c: char| upper_char(c))) == hex_to_bytes_spec(s),
{
    let u = s.map_values(|c: char| upper_char(c));
    lemma_first_non_ws_upper(s, 0);
    lemma_end_non_ws_upper(s, s.len() as int);
    let t = trim_ws(s);
    let tu = trim_ws(u);
    assert(u.len() == s.len());
    let a = first_non_ws(s, 0);
    let b = end_non_ws(s, s.len() as int);
    assert(first_non_ws(u, 0) == a);
    assert(end_non_ws(u, u.len() as int) == b);
    lemma_first_bounds(s, 0);
    lemma_end_bounds(s, s.len() as int);
    if a < b {
        assert forall|i: int| 0 <= i < tu.len() implies tu[i] == t.map_values(|c: char| upper_char(c))[i] by {
            assert(tu[i] == u[a + i]);
            assert(t[i] == s[a + i]);
        }
    }
    assert(tu =~= t.map_values(|c: char| upper_char(c)));
    assert forall|i: int| 0 <= i < t.len() implies #[trigger] hex_value(tu[i]) == hex_value(t[i]) by {
        lemma_hex_digits_ignore_case(t[i]);
    }
    assert forall|i: int| 0 <= i < t.len() / 2 implies #[trigger] hex_pair(tu[2 * i], tu[2 * i + 1])
        == hex_pair(t[2 * i], t[2 * i + 1]) by {
        assert(hex_value(tu[2 * i]) == hex_value(t[2 * i]));
        assert(hex_value(tu[2 * i + 1]) == hex_value(t[2 * i + 1]));
    }
    if t.len() % 2 == 0 {
        if forall|i: int| 0 <= i < t.len() / 2 ==> (#[trigger] hex_pair(t[2 * i], t[2 * i + 1])) is Some {
            assert(Seq::new(tu.len() / 2, |i: int| hex_pair(tu[2 * i], tu[2 * i + 1])->0) =~= Seq::new(
                t.len() / 2,
                |i: int| hex_pair(t[2 * i], t[2 * i + 1])->0,
            ));
        } else {
            let k = choose|i: int| !(0 <= i < t.len() / 2 ==> (#[trigger] hex_pair(t[2 * i], t[2 * i + 1])) is Some);
            assert(hex_pair(tu[2 * k], tu[2 * k + 1]) is None);
        }
    }
}

} // verus!
