//! The scoreboard's arithmetic: the digest that lets two runs be compared
//! byte for byte, and the names fixtures are reported under.
use crate::frame::{frame_ok, icao_spec, type_code_spec};
use crate::hex::{chars_of, hex_string};
use crate::source::{string_of, sub_chars};
use crate::text::{decimal, push_char, push_decimal, push_str, str_eq};
use crate::track::sat_inc;
use crate::types::Validated;
use crate::doctor::lower_hex_digit;
use vstd::string::StringSliceAdditionalSpecFns;
use vstd::prelude::*;

verus! {

/// The FNV-1a offset basis.
pub const FNV_OFFSET: u64 = 0xcbf2_9ce4_8422_2325;

/// The FNV-1a 64-bit prime.
pub const FNV_PRIME: u64 = 0x100_0000_01b3;

/// FNV-1a over `bytes`: for each byte, xor it in, then multiply by the prime
/// modulo 2^64.
pub open spec fn fnv1a64_spec(bytes: Seq<u8>) -> u64
    decreases bytes.len(),
{
    if bytes.len() == 0 {
        FNV_OFFSET
    } else {
        (fnv1a64_spec(bytes.drop_last()) ^ (bytes.last() as u64)).wrapping_mul(FNV_PRIME)
    }
}

/// FNV-1a, 64 bit, over the UTF-8 bytes of `data`. Stable across platforms,
/// which is what lets a digest from one machine be compared with another's.
pub fn fnv1a64(data: &str) -> (h: u64)
    ensures
        h == fnv1a64_spec(data.spec_bytes()),
{
    let bytes = data.as_bytes();
    let mut hash: u64 = FNV_OFFSET;
    let mut i: usize = 0;
    while i < bytes.len()
        invariant
            i <= bytes@.len(),
            bytes@ == data.spec_bytes(),
            hash == fnv1a64_spec(bytes@.take(i as int)),
        decreases bytes@.len() - i,
    {
        proof {
            assert(bytes@.take(i + 1).drop_last() =~= bytes@.take(i as int));
            assert(bytes@.take(i + 1).last() == bytes@[i as int]);
        }
        hash = (hash ^ (bytes[i] as u64)).wrapping_mul(FNV_PRIME);
        i = i + 1;
    }
    proof {
        assert(bytes@.take(bytes@.len() as int) =~= bytes@);
    }
    hash
}

/// Index of the last `c` in `s`, if any.
pub open spec fn last_index_of(s: Seq<char>, c: char) -> Option<int>
    decreases s.len(),
{
    if s.len() == 0 {
        None
    } else if s.last() == c {
        Some(s.len() - 1)
    } else {
        last_index_of(s.drop_last(), c)
    }
}

/// `s` without any trailing `/`.
pub open spec fn strip_trailing_slashes(s: Seq<char>) -> Seq<char>
    decreases s.len(),
{
    if s.len() > 0 && s.last() == '/' {
        strip_trailing_slashes(s.drop_last())
    } else {
        s
    }
}

/// The last path component: what follows the last `/` once trailing
/// slashes are set aside.
pub open spec fn file_name(s: Seq<char>) -> Seq<char> {
    let t = strip_trailing_slashes(s);
    match last_index_of(t, '/') {
        Some(k) => t.skip(k + 1),
        None => t,
    }
}

/// A file name without its extension: up to the last `.`, unless that dot
/// is the first character (a hidden file has no extension).
pub open spec fn stem(name: Seq<char>) -> Seq<char> {
    match last_index_of(name, '.') {
        Some(k) => if k > 0 {
            name.take(k)
        } else {
            name
        },
        None => name,
    }
}

/// What a fixture is reported as: its file name without directories or
/// extension; the whole path when it names no file (empty, or `..`).
pub open spec fn short_name_spec(path: Seq<char>) -> Seq<char> {
    let name = file_name(path);
    if name.len() == 0 || name == seq!['.', '.'] || name == seq!['.'] {
        path
    } else {
        stem(name)
    }
}

/// Index of the last `c` in `v`.
fn find_last(v: &[char], c: char) -> (k: Option<usize>)
    ensures
        k matches Some(i) ==> last_index_of(v@, c) == Some(i as int) && i < v@.len(),
        k is None ==> last_index_of(v@, c) is None,
{
    let mut i: usize = v.len();
    proof {
        assert(v@.take(v@.len() as int) =~= v@);
    }
    while i > 0
        invariant
            i <= v@.len(),
            last_index_of(v@, c) == last_index_of(v@.take(i as int), c),
        decreases i,
    {
        proof {
            assert(v@.take(i as int).drop_last() =~= v@.take(i - 1));
            assert(v@.take(i as int).last() == v@[i - 1]);
        }
        if v[i - 1] == c {
            return Some(i - 1);
        }
        i = i - 1;
    }
    proof {
        assert(v@.take(0) =~= Seq::<char>::empty());
    }
    None
}

proof fn lemma_strip_prefix(s: Seq<char>, n: int)
    requires
        0 <= n <= s.len(),
        forall|j: int| n <= j < s.len() ==> s[j] == '/',
        n == 0 || s[n - 1] != '/',
    ensures
        strip_trailing_slashes(s) == s.take(n),
    decreases s.len(),
{
    if s.len() > n {
        assert(s.drop_last().take(n) =~= s.take(n));
        lemma_strip_prefix(s.drop_last(), n);
    } else {
        assert(s.take(n) =~= s);
        if s.len() > 0 {
            assert(s.last() == s[n - 1]);
        }
    }
}

/// The name a fixture is reported under.
pub fn short_name(path: &str) -> (s: String)
    ensures
        s@ == short_name_spec(path@),
{
    let c = chars_of(path);
    let mut end: usize = c.len();
    while end > 0 && c[end - 1] == '/'
        invariant
            end <= c@.len(),
            forall|j: int| end <= j < c@.len() ==> c@[j] == '/',
        decreases end,
    {
        end = end - 1;
    }
    proof {
        lemma_strip_prefix(c@, end as int);
    }
    let trimmed: Vec<char> = sub_chars(c.as_slice(), 0, end);
    proof {
        assert(trimmed@ =~= c@.take(end as int));
    }
    let start: usize = match find_last(trimmed.as_slice(), '/') {
        Some(k) => k + 1,
        None => 0,
    };
    let name: Vec<char> = sub_chars(trimmed.as_slice(), start, trimmed.len());
    proof {
        assert(name@ =~= file_name(path@));
    }
    let n = name.len();
    if n == 0 || (n == 1 && name[0] == '.') || (n == 2 && name[0] == '.' && name[1] == '.') {
        proof {
            if n == 1 {
                assert(name@ =~= seq!['.']);
            }
            if n == 2 {
                assert(name@ =~= seq!['.', '.']);
            }
        }
        return path.to_owned();
    }
    proof {
        if n == 1 {
            assert(name@ != seq!['.']) by {
                assert(seq!['.'][0] == '.');
            }
        }
        if n == 2 {
            assert(name@ != seq!['.', '.']) by {
                assert(seq!['.', '.'][0] == '.');
                assert(seq!['.', '.'][1] == '.');
            }
        }
    }
    match find_last(name.as_slice(), '.') {
        Some(k) => {
            if k > 0 {
                let stem_chars: Vec<char> = sub_chars(name.as_slice(), 0, k);
                proof {
                    assert(stem_chars@ =~= name@.take(k as int));
                }
                string_of(stem_chars.as_slice())
            } else {
                string_of(name.as_slice())
            }
        },
        None => string_of(name.as_slice()),
    }
}

/// `a` sorts strictly before `b`: at the first character where they differ
/// `a` has the smaller one, or `a` is a proper prefix of `b`. (This is the
/// order of strings, whose UTF-8 byte order is their code point order.)
pub open spec fn lex_lt(a: Seq<char>, b: Seq<char>) -> bool
    decreases a.len(),
{
    if a.len() == 0 {
        b.len() > 0
    } else if b.len() == 0 {
        false
    } else if a[0] != b[0] {
        a[0] < b[0]
    } else {
        lex_lt(a.drop_first(), b.drop_first())
    }
}

proof fn lemma_lex_asymmetric(a: Seq<char>, b: Seq<char>)
    requires
        lex_lt(a, b),
    ensures
        !lex_lt(b, a),
    decreases a.len(),
{
    if a.len() > 0 && b.len() > 0 && a[0] == b[0] {
        lemma_lex_asymmetric(a.drop_first(), b.drop_first());
    }
}

proof fn lemma_lex_transitive(a: Seq<char>, b: Seq<char>, c: Seq<char>)
    requires
        lex_lt(a, b),
        lex_lt(b, c),
    ensures
        lex_lt(a, c),
    decreases a.len(),
{
    if a.len() > 0 && b.len() > 0 && c.len() > 0 && a[0] == b[0] && b[0] == c[0] {
        lemma_lex_transitive(a.drop_first(), b.drop_first(), c.drop_first());
    }
}

/// Whether `a` sorts strictly before `b`.
fn lex_less(a: &Vec<char>, b: &Vec<char>) -> (r: bool)
    ensures
        r == lex_lt(a@, b@),
{
    let mut i: usize = 0;
    proof {
        assert(a@.skip(0) =~= a@);
        assert(b@.skip(0) =~= b@);
    }
    while i < a.len() && i < b.len()
        invariant
            i <= a@.len() && i <= b@.len(),
            lex_lt(a@, b@) == lex_lt(a@.skip(i as int), b@.skip(i as int)),
        decreases a@.len() - i,
    {
        if a[i] != b[i] {
            return a[i] < b[i];
        }
        proof {
            assert(a@.skip(i as int).drop_first() =~= a@.skip(i + 1));
            assert(b@.skip(i as int).drop_first() =~= b@.skip(i + 1));
        }
        i = i + 1;
    }
    b.len() > i && a.len() == i
}

/// The characters of each string.
pub open spec fn texts(v: Seq<String>) -> Seq<Seq<char>> {
    v.map_values(|s: String| s@)
}

/// No later line sorts before an earlier one.
pub open spec fn sorted_lex(s: Seq<Seq<char>>) -> bool {
    forall|i: int, j: int| 0 <= i < j < s.len() ==> !lex_lt(#[trigger] s[j], #[trigger] s[i])
}

/// The lines in string order.
pub fn sort_lines(lines: &Vec<String>) -> (out: Vec<String>)
    ensures
        texts(out@).to_multiset() == texts(lines@).to_multiset(),
        sorted_lex(texts(out@)),
{
    broadcast use vstd::seq_lib::group_to_multiset_ensures;
    let mut out: Vec<String> = Vec::new();
    let mut keys: Vec<Vec<char>> = Vec::new();
    let mut i: usize = 0;
    while i < lines.len()
        invariant
            i <= lines@.len(),
            keys@.len() == out@.len() == i,
            forall|m: int| 0 <= m < i ==> (#[trigger] keys@[m])@ == out@[m]@,
            sorted_lex(texts(out@)),
            texts(out@).to_multiset() == texts(lines@.take(i as int)).to_multiset(),
        decreases lines@.len() - i,
    {
        let x = lines[i].clone();
        let xc = chars_of(x.as_str());
        let mut j: usize = 0;
        while j < out.len() && !lex_less(&xc, &keys[j])
            invariant
                j <= out@.len(),
                keys@.len() == out@.len(),
                forall|m: int| 0 <= m < out@.len() ==> (#[trigger] keys@[m])@ == out@[m]@,
                forall|m: int| 0 <= m < j ==> !lex_lt(xc@, #[trigger] out@[m]@),
            decreases out@.len() - j,
        {
            j = j + 1;
        }
        let ghost before = texts(out@);
        let ghost old_keys = keys@;
        let ghost old_out = out@;
        proof {
            assert forall|m: int| j <= m < out@.len() implies !lex_lt(#[trigger] before[m], x@) by {
                assert(lex_lt(x@, out@[j as int]@));
                if m == j {
                    lemma_lex_asymmetric(x@, out@[j as int]@);
                } else if lex_lt(before[m], x@) {
                    lemma_lex_transitive(before[m], x@, before[j as int]);
                    assert(!lex_lt(before[m], before[j as int]));
                }
            }
        }
        out.insert(j, x);
        keys.insert(j, xc);
        proof {
            let now = texts(out@);
            assert(now =~= before.insert(j as int, x@));
            assert forall|a: int, b: int| 0 <= a < b < now.len() implies !lex_lt(#[trigger] now[b], #[trigger] now[a]) by {
                if b < j {
                    assert(now[a] == before[a] && now[b] == before[b]);
                } else if b == j {
                    assert(now[a] == before[a] && now[b] == x@);
                } else if a < j {
                    assert(now[a] == before[a] && now[b] == before[b - 1]);
                } else if a == j {
                    assert(now[a] == x@ && now[b] == before[b - 1]);
                } else {
                    assert(now[a] == before[a - 1] && now[b] == before[b - 1]);
                }
            }
            assert(lines@.take(i + 1) =~= lines@.take(i as int).push(lines@[i as int]));
            assert(texts(lines@.take(i + 1)) =~= texts(lines@.take(i as int)).push(x@));
            vstd::seq_lib::to_multiset_insert(before, j as int, x@);
            vstd::seq_lib::to_multiset_build(texts(lines@.take(i as int)), x@);
            assert forall|m: int| 0 <= m < i + 1 implies (#[trigger] keys@[m])@ == out@[m]@ by {
                if m < j {
                    assert(keys@[m] == old_keys[m] && out@[m] == old_out[m]);
                } else if m > j {
                    assert(keys@[m] == old_keys[m - 1] && out@[m] == old_out[m - 1]);
                }
            }
        }
        i = i + 1;
    }
    proof {
        assert(lines@.take(lines@.len() as int) =~= lines@);
    }
    out
}

/// The lines joined by newlines.
pub open spec fn join_nl(s: Seq<Seq<char>>) -> Seq<char>
    decreases s.len(),
{
    if s.len() == 0 {
        Seq::empty()
    } else if s.len() == 1 {
        s[0]
    } else {
        join_nl(s.drop_last()) + seq!['\n'] + s.last()
    }
}

/// The lines joined by newlines.
pub fn join_lines(v: &Vec<String>) -> (j: String)
    ensures
        j@ == join_nl(texts(v@)),
{
    let mut j = String::new();
    let mut i: usize = 0;
    while i < v.len()
        invariant
            i <= v@.len(),
            j@ == join_nl(texts(v@.take(i as int))),
        decreases v@.len() - i,
    {
        proof {
            let t = texts(v@.take(i + 1));
            assert(t.drop_last() =~= texts(v@.take(i as int)));
            assert(t.last() == v@[i as int]@);
            if i == 0 {
                assert(t.len() == 1);
            }
        }
        if i > 0 {
            push_char(&mut j, '\n');
        }
        push_str(&mut j, v[i].as_str());
        proof {
            if i == 0 {
                assert(j@ =~= texts(v@.take(1))[0]);
            }
        }
        i = i + 1;
    }
    proof {
        assert(v@.take(v@.len() as int) =~= v@);
    }
    j
}

/// The `k`th hex digit of `n` from the top: bits `60 - 4k` to `63 - 4k`.
pub open spec fn nibble(n: u64, k: int) -> int {
    ((n >> ((60 - 4 * k) as u64)) & 0xF) as int
}

/// `n` as sixteen lowercase hex digits, zero-padded.
pub open spec fn lower_hex16(n: u64) -> Seq<char> {
    Seq::new(16, |k: int| lower_hex_digit(nibble(n, k)))
}

/// Appends `n` as sixteen lowercase hex digits.
pub fn push_hex16(s: &mut String, n: u64)
    ensures
        final(s)@ == old(s)@ + lower_hex16(n),
{
    let mut k: u64 = 0;
    while k < 16
        invariant
            k <= 16,
            s@ == old(s)@ + lower_hex16(n).take(k as int),
        decreases 16 - k,
    {
        let shift: u64 = 60 - 4 * k;
        let d: u64 = (n >> shift) & 0xF;
        proof {
            assert((n >> shift) & 0xF <= 15) by (bit_vector);
        }
        let c: char = if d < 10 {
            ((48 + d) as u8) as char
        } else {
            ((87 + d) as u8) as char
        };
        push_char(s, c);
        proof {
            assert(c == lower_hex_digit(nibble(n, k as int)));
            assert(s@ =~= old(s)@ + lower_hex16(n).take(k + 1));
        }
        k = k + 1;
    }
    proof {
        assert(lower_hex16(n).take(16) =~= lower_hex16(n));
    }
}

/// The digest of an ordered set of lines: FNV-1a over the UTF-8 of the lines
/// joined by newlines, written `fnv1a64:` and sixteen lowercase hex digits.
pub open spec fn digest_of(sorted: Seq<Seq<char>>) -> Seq<char> {
    "fnv1a64:"@ + lower_hex16(fnv1a64_spec(vstd::utf8::encode_utf8(join_nl(sorted))))
}

/// The digest of a set of lines, taken in string order so that the order
/// they were found in does not matter.
pub fn digest(lines: &Vec<String>) -> (d: String)
    ensures
        exists|sorted: Seq<Seq<char>>|
            #![trigger digest_of(sorted)]
            sorted.to_multiset() == texts(lines@).to_multiset() && sorted_lex(sorted) && d@ == digest_of(sorted),
{
    let sorted = sort_lines(lines);
    let joined = join_lines(&sorted);
    let h = fnv1a64(joined.as_str());
    let mut d = String::from_str("fnv1a64:");
    push_hex16(&mut d, h);
    proof {
        reveal_strlit("fnv1a64:");
        assert(d@ == digest_of(texts(sorted@)));
    }
    d
}

/// What scoring one fixture counted, apart from timing.
pub struct ScoreTally {
    /// Distinct (sample offset / 500, payload hex) pairs, in the order first
    /// found: one transmission counts once even if proposed twice.
    unique: Vec<(u64, String)>,
    /// Messages per ADS-B type code, indexed by it.
    by_type_code: Vec<u64>,
    /// Messages per address, each address once, in the order first heard.
    seen: Vec<(u32, u64)>,
    /// Observations that resolved a new position.
    positions: u64,
}

/// The key a validated frame is deduplicated under.
pub open spec fn unique_key(v: Validated) -> (u64, Seq<char>) {
    (v.offset / 500, hex_string(v.bytes@.take(v.len as int)))
}

/// `s` with `k` added unless already there.
pub open spec fn with_key(s: Seq<(u64, Seq<char>)>, k: (u64, Seq<char>)) -> Seq<(u64, Seq<char>)> {
    if s.contains(k) {
        s
    } else {
        s.push(k)
    }
}

/// One more message of type code `tc`.
pub open spec fn counted_type(s: Seq<u64>, tc: Option<u8>) -> Seq<u64> {
    match tc {
        Some(t) => s.update(t as int, sat_inc(s[t as int])),
        None => s,
    }
}

/// One more message from address `a`.
pub open spec fn counted_address(s: Seq<(u32, u64)>, a: u32) -> Seq<(u32, u64)> {
    if exists|i: int| 0 <= i < s.len() && (#[trigger] s[i]).0 == a {
        let i = choose|i: int| 0 <= i < s.len() && (#[trigger] s[i]).0 == a;
        s.update(i, (a, sat_inc(s[i].1)))
    } else {
        s.push((a, 1u64))
    }
}

/// Addresses heard exactly once and never located: the signature of a false
/// CRC accept, since real aircraft transmit twice a second.
pub open spec fn ghost_count(s: Seq<(u32, u64)>, located: Seq<u32>) -> nat
    decreases s.len(),
{
    if s.len() == 0 {
        0
    } else {
        ghost_count(s.drop_last(), located) + (if s.last().1 == 1 && !located.contains(s.last().0) {
            1nat
        } else {
            0nat
        })
    }
}

/// The digest line of a key: the offset bucket, a colon, the payload hex.
pub open spec fn key_line(k: (u64, Seq<char>)) -> Seq<char> {
    decimal(k.0 as nat) + ":"@ + k.1
}

impl ScoreTally {
    pub closed spec fn unique_view(&self) -> Seq<(u64, Seq<char>)> {
        self.unique@.map_values(|p: (u64, String)| (p.0, p.1@))
    }

    pub closed spec fn type_code_view(&self) -> Seq<u64> {
        self.by_type_code@
    }

    pub closed spec fn seen_view(&self) -> Seq<(u32, u64)> {
        self.seen@
    }

    pub closed spec fn positions_view(&self) -> u64 {
        self.positions
    }

    /// Observations that resolved a new position.
    pub fn positions(&self) -> (n: u64)
        ensures
            n == self.positions_view(),
    {
        self.positions
    }

    pub open spec fn wf(&self) -> bool {
        &&& self.type_code_view().len() == 32
        &&& self.unique_view().no_duplicates()
        &&& forall|i: int, j: int|
            0 <= i < j < self.seen_view().len() ==> (#[trigger] self.seen_view()[i]).0 != (
            #[trigger] self.seen_view()[j]).0
    }

    pub fn new() -> (t: Self)
        ensures
            t.wf(),
            t.unique_view() == Seq::<(u64, Seq<char>)>::empty(),
            t.type_code_view() == Seq::new(32, |i: int| 0u64),
            t.seen_view() == Seq::<(u32, u64)>::empty(),
            t.positions_view() == 0,
    {
        let mut by_type_code: Vec<u64> = Vec::new();
        let mut i: usize = 0;
        while i < 32
            invariant
                i <= 32,
                by_type_code@ == Seq::new(i as nat, |k: int| 0u64),
            decreases 32 - i,
        {
            by_type_code.push(0);
            proof {
                assert(by_type_code@ =~= Seq::new((i + 1) as nat, |k: int| 0u64));
            }
            i = i + 1;
        }
        let t = ScoreTally { unique: Vec::new(), by_type_code, seen: Vec::new(), positions: 0 };
        proof {
            assert(t.unique_view() =~= Seq::<(u64, Seq<char>)>::empty());
        }
        t
    }

    /// Count one validated frame: its key once, and, when it parses, its
    /// type code and its address.
    pub fn record(&mut self, v: &Validated)
        requires
            old(self).wf(),
            v.len <= 14,
        ensures
            final(self).wf(),
            final(self).unique_view() == with_key(old(self).unique_view(), unique_key(*v)),
            frame_ok(v.bytes@.take(v.len as int)) ==> final(self).type_code_view() == counted_type(
                old(self).type_code_view(),
                type_code_spec(v.bytes@.take(v.len as int)),
            ) && final(self).seen_view() == counted_address(
                old(self).seen_view(),
                icao_spec(v.bytes@.take(v.len as int)),
            ),
            !frame_ok(v.bytes@.take(v.len as int)) ==> final(self).type_code_view() == old(
                self,
            ).type_code_view() && final(self).seen_view() == old(self).seen_view(),
            final(self).positions_view() == old(self).positions_view(),
    {
        let hex = v.hex();
        let bucket = v.offset / 500;
        let ghost key = unique_key(*v);
        let mut i: usize = 0;
        let mut present = false;
        while i < self.unique.len() && !present
            invariant
                self.unique == old(self).unique,
                self.seen == old(self).seen,
                self.by_type_code == old(self).by_type_code,
                self.positions == old(self).positions,
                i <= self.unique@.len(),
                hex@ == key.1 && bucket == key.0,
                present ==> self.unique_view().contains(key),
                !present ==> forall|x: int| 0 <= x < i ==> self.unique_view()[x] != key,
            decreases self.unique@.len() - i,
        {
            if self.unique[i].0 == bucket && str_eq(self.unique[i].1.as_str(), hex.as_str()) {
                present = true;
                proof {
                    assert(self.unique_view()[i as int] == key);
                }
            }
            i = i + 1;
        }
        if !present {
            let ghost before = self.unique_view();
            self.unique.push((bucket, hex));
            proof {
                assert(!before.contains(key)) by {
                    if before.contains(key) {
                        let x = choose|x: int| 0 <= x < before.len() && #[trigger] before[x] == key;
                        assert(before[x] != key);
                    }
                }
                assert(self.unique_view() =~= before.push(key));
                assert(self.unique_view().no_duplicates()) by {
                    assert forall|a: int, b: int| 0 <= a < b < self.unique_view().len() implies self.unique_view()[a]
                        != self.unique_view()[b] by {
                        if b == before.len() {
                            assert(before[a] != key);
                        } else {
                            assert(self.unique_view()[a] == before[a] && self.unique_view()[b] == before[b]);
                        }
                    }
                }
            }
        }
        match v.frame() {
            Some(fr) => {
                match fr.type_code() {
                    Some(tc) => {
                        proof {
                            assert(fr@.len() == 14);
                            crate::bits::lemma_bits_value_bound(fr@, 32, 5);
                            vstd::arithmetic::power2::lemma2_to64();
                        }
                        let k = tc as usize;
                        let c = self.by_type_code[k];
                        self.by_type_code.set(k, c.saturating_add(1));
                    },
                    None => {},
                }
                let a = fr.icao().0;
                proof {
                    assert(self.type_code_view().len() == 32);
                    assert(self.unique_view().no_duplicates());
                    assert(self.seen == old(self).seen);
                    assert(self.seen_view() == old(self).seen_view());
                }
                self.count_address(a);
            },
            None => {},
        }
    }

    fn count_address(&mut self, a: u32)
        requires
            old(self).wf(),
        ensures
            final(self).wf(),
            final(self).seen_view() == counted_address(old(self).seen_view(), a),
            final(self).unique_view() == old(self).unique_view(),
            final(self).type_code_view() == old(self).type_code_view(),
            final(self).positions_view() == old(self).positions_view(),
    {
        let ghost s = self.seen@;
        let mut i: usize = 0;
        while i < self.seen.len()
            invariant
                self.seen@ == s,
                self.unique == old(self).unique,
                self.by_type_code == old(self).by_type_code,
                self.positions == old(self).positions,
                s == old(self).seen_view(),
                old(self).wf(),
                i <= s.len(),
                forall|x: int| 0 <= x < i ==> (#[trigger] s[x]).0 != a,
            decreases s.len() - i,
        {
            if self.seen[i].0 == a {
                proof {
                    assert(exists|x: int| 0 <= x < s.len() && (#[trigger] s[x]).0 == a) by {
                        assert(s[i as int].0 == a);
                    }
                    let c = choose|x: int| 0 <= x < s.len() && (#[trigger] s[x]).0 == a;
                    assert(c == i) by {
                        if c < i {
                            assert(s[c].0 != a);
                        } else if c > i {
                            assert(s[i as int].0 != s[c].0);
                        }
                    }
                }
                let n = self.seen[i].1;
                self.seen.set(i, (a, n.saturating_add(1)));
                proof {
                    assert(self.seen@ =~= counted_address(s, a));
                    assert forall|x: int, y: int| 0 <= x < y < self.seen@.len() implies (
                    #[trigger] self.seen@[x]).0 != (#[trigger] self.seen@[y]).0 by {
                        assert(s[x].0 != s[y].0);
                    }
                }
                return;
            }
            i = i + 1;
        }
        self.seen.push((a, 1));
        proof {
            assert(!exists|x: int| 0 <= x < s.len() && (#[trigger] s[x]).0 == a);
            assert(self.seen@ =~= counted_address(s, a));
            assert forall|x: int, y: int| 0 <= x < y < self.seen@.len() implies (#[trigger] self.seen@[x]).0 != (
            #[trigger] self.seen@[y]).0 by {
                if y < s.len() {
                    assert(s[x].0 != s[y].0);
                } else {
                    assert(s[x].0 != a);
                }
            }
        }
    }

    /// Count an observation that resolved a new position.
    pub fn record_position(&mut self)
        ensures
            final(self).positions_view() == sat_inc(old(self).positions_view()),
            final(self).unique_view() == old(self).unique_view(),
            final(self).type_code_view() == old(self).type_code_view(),
            final(self).seen_view() == old(self).seen_view(),
    {
        self.positions = self.positions.saturating_add(1);
    }

    /// Distinct transmissions.
    pub fn unique_messages(&self) -> (n: usize)
        ensures
            n == self.unique_view().len(),
    {
        self.unique.len()
    }

    /// Distinct addresses heard.
    pub fn aircraft(&self) -> (n: usize)
        ensures
            n == self.seen_view().len(),
    {
        self.seen.len()
    }

    /// The type codes heard, ascending, with how many messages carried each.
    pub fn type_codes(&self) -> (v: Vec<(u8, u64)>)
        requires
            self.wf(),
        ensures
            forall|i: int| 0 <= i < v@.len() ==> (#[trigger] v@[i]).1 == self.type_code_view()[v@[i].0 as int]
                && v@[i].1 > 0 && v@[i].0 < 32,
            forall|t: int| 0 <= t < 32 && self.type_code_view()[t] > 0 ==> exists|i: int|
                0 <= i < v@.len() && (#[trigger] v@[i]).0 == t,
            forall|i: int, j: int| 0 <= i < j < v@.len() ==> (#[trigger] v@[i]).0 < (#[trigger] v@[j]).0,
    {
        let mut v: Vec<(u8, u64)> = Vec::new();
        let mut t: usize = 0;
        while t < 32
            invariant
                t <= 32,
                self.type_code_view().len() == 32,
                forall|i: int| 0 <= i < v@.len() ==> (#[trigger] v@[i]).1 == self.type_code_view()[v@[i].0 as int]
                    && v@[i].1 > 0 && v@[i].0 < t,
                forall|u: int| 0 <= u < t && self.type_code_view()[u] > 0 ==> exists|i: int|
                    0 <= i < v@.len() && (#[trigger] v@[i]).0 == u,
                forall|i: int, j: int| 0 <= i < j < v@.len() ==> (#[trigger] v@[i]).0 < (#[trigger] v@[j]).0,
            decreases 32 - t,
        {
            let c = self.by_type_code[t];
            let ghost old_v = v@;
            if c > 0 {
                v.push((t as u8, c));
            }
            proof {
                assert forall|u: int| 0 <= u < t + 1 && self.type_code_view()[u] > 0 implies exists|i: int|
                    0 <= i < v@.len() && (#[trigger] v@[i]).0 == u by {
                    if u < t {
                        let i = choose|i: int| 0 <= i < old_v.len() && (#[trigger] old_v[i]).0 == u;
                        assert(v@[i] == old_v[i]);
                    } else {
                        assert(v@[v@.len() - 1].0 == t);
                    }
                }
            }
            t = t + 1;
        }
        v
    }

    /// Addresses heard exactly once that `located` does not hold.
    pub fn ghosts(&self, located: &Vec<u32>) -> (n: u64)
        ensures
            n == ghost_count(self.seen_view(), located@),
    {
        let mut n: u64 = 0;
        let mut i: usize = 0;
        while i < self.seen.len()
            invariant
                i <= self.seen@.len(),
                n == ghost_count(self.seen@.take(i as int), located@),
                n <= i,
            decreases self.seen@.len() - i,
        {
            let (a, count) = self.seen[i];
            let mut is_located = false;
            let mut k: usize = 0;
            while k < located.len()
                invariant
                    k <= located@.len(),
                    is_located == located@.take(k as int).contains(a),
                decreases located@.len() - k,
            {
                proof {
                    assert(located@.take(k + 1) =~= located@.take(k as int).push(located@[k as int]));
                }
                if located[k] == a {
                    is_located = true;
                }
                proof {
                    if is_located && !located@.take(k as int).contains(a) {
                        assert(located@.take(k + 1)[k as int] == a);
                    }
                    if located@.take(k + 1).contains(a) && located[k as int] != a {
                        let x = choose|x: int| 0 <= x < k + 1 && #[trigger] located@.take(k + 1)[x] == a;
                        assert(located@.take(k as int)[x] == a);
                    }
                }
                k = k + 1;
            }
            proof {
                assert(located@.take(located@.len() as int) =~= located@);
                assert(self.seen@.take(i + 1).drop_last() =~= self.seen@.take(i as int));
            }
            if count == 1 && !is_located {
                n = n + 1;
            }
            i = i + 1;
        }
        proof {
            assert(self.seen@.take(self.seen@.len() as int) =~= self.seen@);
        }
        n
    }

    /// The digest lines: for each distinct key, its offset bucket, a colon
    /// and its payload hex.
    pub fn digest_lines(&self) -> (lines: Vec<String>)
        ensures
            texts(lines@) == self.unique_view().map_values(|k: (u64, Seq<char>)| key_line(k)),
    {
        let mut lines: Vec<String> = Vec::new();
        let mut i: usize = 0;
        while i < self.unique.len()
            invariant
                i <= self.unique@.len(),
                texts(lines@) == self.unique_view().take(i as int).map_values(|k: (u64, Seq<char>)| key_line(k)),
            decreases self.unique@.len() - i,
        {
            let mut line = String::new();
            push_decimal(&mut line, self.unique[i].0);
            push_char(&mut line, ':');
            push_str(&mut line, self.unique[i].1.as_str());
            proof {
                reveal_strlit(":");
                assert(line@ =~= key_line(self.unique_view()[i as int]));
            }
            let ghost old_lines = lines@;
            lines.push(line);
            proof {
                let f = |k: (u64, Seq<char>)| key_line(k);
                assert(self.unique_view().take(i + 1) =~= self.unique_view().take(i as int).push(
                    self.unique_view()[i as int],
                ));
                assert(self.unique_view().take(i + 1).map_values(f) =~= self.unique_view().take(
                    i as int,
                ).map_values(f).push(key_line(self.unique_view()[i as int])));
                assert(texts(lines@) =~= texts(old_lines).push(lines@[i as int]@));
            }
            i = i + 1;
        }
        proof {
            assert(self.unique_view().take(self.unique@.len() as int) =~= self.unique_view());
        }
        lines
    }

    /// The digest of everything found: changes whenever the set of distinct
    /// transmissions does, and never because of the order they came in.
    pub fn digest(&self) -> (d: String)
        ensures
            exists|sorted: Seq<Seq<char>>|
                #![trigger digest_of(sorted)]
                sorted.to_multiset() == self.unique_view().map_values(|k: (u64, Seq<char>)| key_line(k)).to_multiset()
                    && sorted_lex(sorted) && d@ == digest_of(sorted),
    {
        let lines = self.digest_lines();
        digest(&lines)
    }
}

proof fn lemma_lex_total(a: Seq<char>, b: Seq<char>)
    requires
        a != b,
    ensures
        lex_lt(a, b) || lex_lt(b, a),
    decreases a.len(),
{
    if a.len() == 0 && b.len() == 0 {
        assert(a =~= b);
    } else if a.len() > 0 && b.len() > 0 && a[0] == b[0] {
        if a.drop_first() == b.drop_first() {
            assert(a.drop_first().len() == b.drop_first().len());
            assert(a =~= b) by {
                assert forall|i: int| 0 <= i < a.len() implies a[i] == b[i] by {
                    if i > 0 {
                        assert(a[i] == a.drop_first()[i - 1]);
                        assert(b[i] == b.drop_first()[i - 1]);
                    }
                }
            }
        }
        lemma_lex_total(a.drop_first(), b.drop_first());
    }
}

/// Two sorted arrangements of the same lines are the same sequence.
proof fn lemma_sorted_unique(a: Seq<Seq<char>>, b: Seq<Seq<char>>)
    requires
        a.to_multiset() == b.to_multiset(),
        sorted_lex(a),
        sorted_lex(b),
    ensures
        a == b,
    decreases a.len(),
{
    broadcast use vstd::seq_lib::group_to_multiset_ensures;
    broadcast use vstd::multiset::group_multiset_axioms;

    assert(a.to_multiset().len() == a.len());
    assert(b.to_multiset().len() == b.len());
    assert(a.len() == b.len());
    if a.len() > 0 {
        assert(a.to_multiset().count(a[0]) > 0);
        assert(b.contains(a[0]));
        assert(b.to_multiset().count(b[0]) > 0);
        assert(a.contains(b[0]));
        let k = choose|k: int| 0 <= k < b.len() && b[k] == a[0];
        let m = choose|m: int| 0 <= m < a.len() && a[m] == b[0];
        if a[0] != b[0] {
            lemma_lex_total(a[0], b[0]);
            if lex_lt(a[0], b[0]) {
                // b[k] == a[0] sorts before b[0], so k must be 0, a contradiction
                assert(k > 0);
                assert(!lex_lt(b[k], b[0]));
            } else {
                assert(m > 0);
                assert(!lex_lt(a[m], a[0]));
            }
        }
        assert(a.remove(0) =~= a.drop_first());
        assert(b.remove(0) =~= b.drop_first());
        assert(a.drop_first().to_multiset() == b.drop_first().to_multiset());
        assert(sorted_lex(a.drop_first())) by {
            assert forall|i: int, j: int| 0 <= i < j < a.drop_first().len() implies !lex_lt(
                #[trigger] a.drop_first()[j],
                #[trigger] a.drop_first()[i],
            ) by {
                assert(a.drop_first()[j] == a[j + 1] && a.drop_first()[i] == a[i + 1]);
            }
        }
        assert(sorted_lex(b.drop_first())) by {
            assert forall|i: int, j: int| 0 <= i < j < b.drop_first().len() implies !lex_lt(
                #[trigger] b.drop_first()[j],
                #[trigger] b.drop_first()[i],
            ) by {
                assert(b.drop_first()[j] == b[j + 1] && b.drop_first()[i] == b[i + 1]);
            }
        }
        lemma_sorted_unique(a.drop_first(), b.drop_first());
        assert(a =~= b) by {
            assert forall|i: int| 0 <= i < a.len() implies a[i] == b[i] by {
                if i > 0 {
                    assert(a[i] == a.drop_first()[i - 1]);
                    assert(b[i] == b.drop_first()[i - 1]);
                }
            }
        }
    } else {
        assert(a =~= b);
    }
}

/// The digest depends on the set of lines only, never on the order they
/// were found in: any two sorted arrangements of the same lines digest the
/// same.
pub proof fn lemma_digest_ignores_order(a: Seq<Seq<char>>, b: Seq<Seq<char>>)
    requires
        a.to_multiset() == b.to_multiset(),
        sorted_lex(a),
        sorted_lex(b),
    ensures
        digest_of(a) == digest_of(b),
{
    lemma_sorted_unique(a, b);
}

} // verus!
