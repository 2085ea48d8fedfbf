//! Where IQ samples come from: naming a source, its errors, its gain, and
//! the `rtl_tcp` wire protocol.
//!
//! How something failed decides what should happen next, so the error is a
//! taxonomy: a configuration error is never retried, a transient one is
//! never fatal, and the end of a file is normal.
use crate::hex::chars_of;
use crate::text::{decimal, push_char, push_decimal, push_str, str_eq};
use vstd::prelude::*;

verus! {

/// A string built from its characters.
pub fn string_of(c: &[char]) -> (s: String)
    ensures
        s@ == c@,
{
    let mut s = String::new();
    let mut i: usize = 0;
    while i < c.len()
        invariant
            i <= c@.len(),
            s@ == c@.take(i as int),
        decreases c@.len() - i,
    {
        push_char(&mut s, c[i]);
        proof {
            assert(c@.take(i + 1) =~= c@.take(i as int).push(c@[i as int]));
        }
        i = i + 1;
    }
    proof {
        assert(c@.take(c@.len() as int) =~= c@);
    }
    s
}

/// Tuner gain setting.
#[derive(Clone, Copy, Debug, PartialEq, Eq, Structural)]
pub enum Gain {
    /// Let the tuner decide. Note that `rtl_sdr -g 0` means *this*, not 0 dB.
    Auto,
    /// Tenths of a dB.
    Tenths(i32),
    /// Index into the tuner's gain table.
    Index(u32),
}

/// Whether `s` spells `auto`, in any mix of ASCII case.
pub open spec fn is_auto_word(s: Seq<char>) -> bool {
    s.len() == 4 && lower_ascii(s[0]) == 'a' && lower_ascii(s[1]) == 'u' && lower_ascii(s[2]) == 't'
        && lower_ascii(s[3]) == 'o'
}

/// ASCII lowercase of `c`; other characters unchanged.
pub open spec fn lower_ascii(c: char) -> char {
    if 'A' <= c && c <= 'Z' {
        ((c as u32) + 32) as char
    } else {
        c
    }
}

fn lower_ascii_char(c: char) -> (l: char)
    ensures
        l == lower_ascii(c),
{
    if 'A' <= c && c <= 'Z' {
        ((c as u8) + 32) as char
    } else {
        c
    }
}

/// `t` tenths of a dB, to one decimal place: `-0.5`, `0.0`, `49.6`.
pub open spec fn tenths_text(t: int) -> Seq<char> {
    let a = if t < 0 {
        -t
    } else {
        t
    };
    let sign = if t < 0 {
        seq!['-']
    } else {
        Seq::<char>::empty()
    };
    sign + decimal((a / 10) as nat) + seq!['.'] + decimal((a % 10) as nat)
}

/// Appends `t` tenths as a one-decimal number.
pub fn push_tenths(s: &mut String, t: i32)
    ensures
        final(s)@ == old(s)@ + tenths_text(t as int),
{
    let a: u64 = if t < 0 {
        (-(t as i64)) as u64
    } else {
        t as u64
    };
    if t < 0 {
        push_char(s, '-');
    }
    push_decimal(s, a / 10);
    push_char(s, '.');
    push_decimal(s, a % 10);
    proof {
        let sign = if t < 0 {
            seq!['-']
        } else {
            Seq::<char>::empty()
        };
        assert(old(s)@ + tenths_text(t as int) =~= old(s)@ + sign + decimal((a / 10) as nat)
            + seq!['.'] + decimal((a % 10) as nat));
    }
}

impl Gain {
    /// What `parse` decides, given the text and what reading the text as a
    /// decimal number gave, already scaled to tenths and rounded: `auto` in
    /// any case, else the number, else a configuration error.
    pub open spec fn parse_spec(s: Seq<char>, tenths: Option<i32>) -> Result<Gain, SourceErrorView> {
        if is_auto_word(s) {
            Ok(Gain::Auto)
        } else {
            match tenths {
                Some(t) => Ok(Gain::Tenths(t)),
                None => Err(
                    SourceErrorView::Config("gain '"@ + s + "' is not a number or 'auto'"@),
                ),
            }
        }
    }

    /// Parse a gain, given `tenths`: the text read as a decimal number of
    /// dB, times ten, rounded; `None` when the text is not a number.
    pub fn parse_with(s: &str, tenths: Option<i32>) -> (g: Result<Gain, SourceError>)
        ensures
            error_view(g) == Gain::parse_spec(s@, tenths),
    {
        let c = chars_of(s);
        if c.len() == 4 && lower_ascii_char(c[0]) == 'a' && lower_ascii_char(c[1]) == 'u'
            && lower_ascii_char(c[2]) == 't' && lower_ascii_char(c[3]) == 'o' {
            return Ok(Gain::Auto);
        }
        match tenths {
            Some(t) => Ok(Gain::Tenths(t)),
            None => {
                let mut m = String::new();
                push_str(&mut m, "gain '");
                push_str(&mut m, s);
                push_str(&mut m, "' is not a number or 'auto'");
                Err(SourceError::Config(m))
            },
        }
    }

    pub open spec fn describe_spec(self) -> Seq<char> {
        match self {
            Gain::Auto => "auto"@,
            Gain::Tenths(t) => tenths_text(t as int) + " dB"@,
            Gain::Index(i) => "table index "@ + decimal(i as nat),
        }
    }

    /// `auto`, `49.6 dB`, or `table index 3`.
    pub fn describe(self) -> (s: String)
        ensures
            s@ == self.describe_spec(),
    {
        let mut s = String::new();
        match self {
            Gain::Auto => push_str(&mut s, "auto"),
            Gain::Tenths(t) => {
                push_tenths(&mut s, t);
                push_str(&mut s, " dB");
            },
            Gain::Index(i) => {
                push_str(&mut s, "table index ");
                push_decimal(&mut s, i as u64);
            },
        }
        s
    }
}

/// How a source failed.
#[derive(Clone, Debug, PartialEq, Eq)]
pub enum SourceError {
    /// Deliberately unrecoverable: fail fast and loudly.
    Config(String),
    /// Recoverable: reconnect and keep going.
    Transient(String),
    EndOfStream,
}

/// A `SourceError` with its text as characters.
pub enum SourceErrorView {
    Config(Seq<char>),
    Transient(Seq<char>),
    EndOfStream,
}

impl View for SourceError {
    type V = SourceErrorView;

    open spec fn view(&self) -> SourceErrorView {
        match self {
            SourceError::Config(m) => SourceErrorView::Config(m@),
            SourceError::Transient(m) => SourceErrorView::Transient(m@),
            SourceError::EndOfStream => SourceErrorView::EndOfStream,
        }
    }
}

/// A result whose error is seen through its view.
pub open spec fn error_view<T>(r: Result<T, SourceError>) -> Result<T, SourceErrorView> {
    match r {
        Ok(v) => Ok(v),
        Err(e) => Err(e@),
    }
}

/// The sentence an error view reads as.
pub open spec fn error_message_view(e: SourceErrorView) -> Seq<char> {
    match e {
        SourceErrorView::Config(m) => "configuration error: "@ + m,
        SourceErrorView::Transient(m) => "transient I/O error: "@ + m,
        SourceErrorView::EndOfStream => "end of stream"@,
    }
}

impl SourceError {
    /// Whether the caller should retry rather than give up.
    pub fn is_transient(&self) -> (t: bool)
        ensures
            t <==> *self is Transient,
    {
        match self {
            SourceError::Transient(_) => true,
            _ => false,
        }
    }

    pub fn is_end_of_stream(&self) -> (e: bool)
        ensures
            e <==> *self is EndOfStream,
    {
        match self {
            SourceError::EndOfStream => true,
            _ => false,
        }
    }

    pub open spec fn message_spec(self) -> Seq<char> {
        match self {
            SourceError::Config(m) => "configuration error: "@ + m@,
            SourceError::Transient(m) => "transient I/O error: "@ + m@,
            SourceError::EndOfStream => "end of stream"@,
        }
    }

    /// The error as a sentence.
    pub fn message(&self) -> (s: String)
        ensures
            s@ == self.message_spec(),
            s@ == error_message_view(self@),
    {
        let mut s = String::new();
        match self {
            SourceError::Config(m) => {
                push_str(&mut s, "configuration error: ");
                push_str(&mut s, m.as_str());
            },
            SourceError::Transient(m) => {
                push_str(&mut s, "transient I/O error: ");
                push_str(&mut s, m.as_str());
            },
            SourceError::EndOfStream => push_str(&mut s, "end of stream"),
        }
        s
    }
}

/// The value of decimal digits, most significant first.
pub open spec fn digits_value(d: Seq<char>) -> int
    decreases d.len(),
{
    if d.len() == 0 {
        0
    } else {
        digits_value(d.drop_last()) * 10 + (d.last() as int - '0' as int)
    }
}

pub open spec fn all_digits(d: Seq<char>) -> bool {
    forall|i: int| 0 <= i < d.len() ==> '0' <= #[trigger] d[i] && d[i] <= '9'
}

/// What Rust's unsigned `from_str` accepts: an optional `+`, then one or
/// more decimal digits whose value is at most `max`.
pub open spec fn parse_unsigned_spec(t: Seq<char>, max: int) -> Option<int> {
    let d = if t.len() > 0 && t[0] == '+' {
        t.skip(1)
    } else {
        t
    };
    if d.len() == 0 || !all_digits(d) || digits_value(d) > max {
        None
    } else {
        Some(digits_value(d))
    }
}

proof fn lemma_digits_value_nonneg(d: Seq<char>)
    requires
        all_digits(d),
    ensures
        digits_value(d) >= 0,
    decreases d.len(),
{
    if d.len() > 0 {
        lemma_digits_value_nonneg(d.drop_last());
    }
}

/// Parse `t[from..]` as an unsigned number no greater than `max`.
pub fn parse_unsigned(t: &[char], max: u64) -> (r: Option<u64>)
    ensures
        r matches Some(v) ==> parse_unsigned_spec(t@, max as int) == Some(v as int),
        r is None ==> parse_unsigned_spec(t@, max as int) is None,
{
    let start: usize = if t.len() > 0 && t[0] == '+' { 1 } else { 0 };
    let ghost d = if t@.len() > 0 && t@[0] == '+' { t@.skip(1) } else { t@ };
    if start >= t.len() {
        return None;
    }
    let mut v: u64 = 0;
    let mut i: usize = start;
    while i < t.len()
        invariant
            start <= i <= t@.len(),
            d == t@.skip(start as int),
            d == (if t@.len() > 0 && t@[0] == '+' { t@.skip(1) } else { t@ }),
            d.len() > 0,
            all_digits(d.take(i - start)),
            v as int == digits_value(d.take(i - start)),
            v <= max,
        decreases t@.len() - i,
    {
        let c = t[i];
        if c < '0' || c > '9' {
            proof {
                assert(d[i - start] == c);
                assert(!all_digits(d));
            }
            return None;
        }
        let digit = (c as u32 - 48) as u64;
        proof {
            assert(d.take(i - start + 1).drop_last() =~= d.take(i - start));
            assert(d.take(i - start + 1).last() == c);
            assert(d[i - start] == c);
        }
        let next: u128 = v as u128 * 10 + digit as u128;
        if next > max as u128 {
            proof {
                let k = i - start + 1;
                lemma_digits_value_grows(d, k as int, d.len() as int);
            }
            return None;
        }
        v = next as u64;
        i = i + 1;
    }
    proof {
        assert(d.take(i - start) =~= d);
    }
    Some(v)
}

/// Digits only add to a value: a prefix above `max` stays above it.
proof fn lemma_digits_value_grows(d: Seq<char>, k: int, n: int)
    requires
        0 < k <= n,
        n == d.len(),
        all_digits(d.take(k - 1)),
        '0' <= d[k - 1] <= '9',
    ensures
        all_digits(d) ==> digits_value(d) >= digits_value(d.take(k)),
    decreases n - k,
{
    if k < n && all_digits(d) {
        assert(all_digits(d.take(k)));
        lemma_digits_value_grows(d, k + 1, n);
        assert(d.take(k + 1).drop_last() =~= d.take(k));
        assert(all_digits(d.take(k + 1)));
        lemma_digits_value_nonneg(d.take(k));
    } else if k == n {
        assert(d.take(k) =~= d);
    }
}

/// Which source to open, parsed from a single string.
#[derive(Clone, Debug, PartialEq, Eq)]
pub enum SourceSpec {
    File { path: String },
    Tcp { host: String, port: u16 },
    Usb { index: u32 },
}

pub enum SourceSpecView {
    File { path: Seq<char> },
    Tcp { host: Seq<char>, port: u16 },
    Usb { index: u32 },
}

impl View for SourceSpec {
    type V = SourceSpecView;

    open spec fn view(&self) -> SourceSpecView {
        match self {
            SourceSpec::File { path } => SourceSpecView::File { path: path@ },
            SourceSpec::Tcp { host, port } => SourceSpecView::Tcp { host: host@, port: *port },
            SourceSpec::Usb { index } => SourceSpecView::Usb { index: *index },
        }
    }
}

pub open spec fn has_prefix(s: Seq<char>, p: Seq<char>) -> bool {
    p.len() <= s.len() && s.take(p.len() as int) == p
}

/// Index of the last `:` in `t`, if any.
pub open spec fn last_colon(t: Seq<char>) -> Option<int>
    decreases t.len(),
{
    if t.len() == 0 {
        None
    } else if t.last() == ':' {
        Some(t.len() - 1)
    } else {
        last_colon(t.drop_last())
    }
}

/// What `SourceSpec::parse` accepts, and the error for what it does not.
pub open spec fn parse_source_spec(s: Seq<char>) -> Result<SourceSpecView, SourceErrorView> {
    if has_prefix(s, "file:"@) {
        let path = s.skip(5);
        if path.len() == 0 {
            Err(SourceErrorView::Config("file: needs a path"@))
        } else {
            Ok(SourceSpecView::File { path })
        }
    } else if has_prefix(s, "tcp:"@) {
        let rest = s.skip(4);
        match last_colon(rest) {
            None => Err(SourceErrorView::Config("'"@ + s + "' should look like tcp:HOST:PORT"@)),
            Some(k) => {
                let host = rest.take(k);
                let port = rest.skip(k + 1);
                match parse_unsigned_spec(port, 0xFFFF) {
                    None => Err(SourceErrorView::Config("'"@ + port + "' is not a port number"@)),
                    Some(p) => if host.len() == 0 {
                        Err(SourceErrorView::Config("tcp: needs a host"@))
                    } else {
                        Ok(SourceSpecView::Tcp { host, port: p as u16 })
                    },
                }
            },
        }
    } else if s == "usb"@ {
        Ok(SourceSpecView::Usb { index: 0 })
    } else if has_prefix(s, "usb:"@) {
        let index = s.skip(4);
        match parse_unsigned_spec(index, 0xFFFF_FFFF) {
            None => Err(SourceErrorView::Config("'"@ + index + "' is not a device index"@)),
            Some(i) => Ok(SourceSpecView::Usb { index: i as u32 }),
        }
    } else {
        Err(
            SourceErrorView::Config(
                "unknown source '"@ + s + "'. Use file:PATH, tcp:HOST:PORT, or usb[:INDEX]"@,
            ),
        )
    }
}

/// A result whose value and error are seen through their views.
pub open spec fn spec_result_view(r: Result<SourceSpec, SourceError>) -> Result<SourceSpecView, SourceErrorView> {
    match r {
        Ok(v) => Ok(v@),
        Err(e) => Err(e@),
    }
}

/// Whether `c` begins with the characters of `p`.
fn starts_with(c: &[char], p: &str) -> (b: bool)
    ensures
        b == has_prefix(c@, p@),
{
    let q = chars_of(p);
    if q.len() > c.len() {
        return false;
    }
    let mut i: usize = 0;
    while i < q.len()
        invariant
            q@ == p@,
            q@.len() <= c@.len(),
            i <= q@.len(),
            forall|j: int| 0 <= j < i ==> c@[j] == q@[j],
        decreases q@.len() - i,
    {
        if c[i] != q[i] {
            return false;
        }
        i = i + 1;
    }
    proof {
        assert(c@.take(q@.len() as int) =~= q@);
    }
    true
}

/// The characters `c[from..to]`.
pub fn sub_chars(c: &[char], from: usize, to: usize) -> (v: Vec<char>)
    requires
        from <= to <= c@.len(),
    ensures
        v@ == c@.subrange(from as int, to as int),
{
    let mut v: Vec<char> = Vec::new();
    let mut i: usize = from;
    while i < to
        invariant
            from <= i <= to,
            to <= c@.len(),
            v@ == c@.subrange(from as int, i as int),
        decreases to - i,
    {
        v.push(c[i]);
        proof {
            assert(c@.subrange(from as int, i + 1) =~= c@.subrange(from as int, i as int).push(c@[i as int]));
        }
        i = i + 1;
    }
    v
}

/// Index of the last `:` in `c`.
fn find_last_colon(c: &[char]) -> (k: Option<usize>)
    ensures
        k matches Some(i) ==> last_colon(c@) == Some(i as int) && i < c@.len(),
        k is None ==> last_colon(c@) is None,
{
    let mut i: usize = c.len();
    proof {
        assert(c@.take(c@.len() as int) =~= c@);
    }
    while i > 0
        invariant
            i <= c@.len(),
            last_colon(c@) == last_colon(c@.take(i as int)),
        decreases i,
    {
        proof {
            assert(c@.take(i as int).drop_last() =~= c@.take(i - 1));
            assert(c@.take(i as int).last() == c@[i - 1]);
        }
        if c[i - 1] == ':' {
            return Some(i - 1);
        }
        i = i - 1;
    }
    proof {
        assert(c@.take(0) =~= Seq::<char>::empty());
    }
    None
}

fn config_error(m: &str) -> (e: SourceError)
    ensures
        e@ == SourceErrorView::Config(m@),
{
    SourceError::Config(m.to_owned())
}

/// A configuration error whose message quotes `middle` between two fixed parts.
fn config_error_quoting(before: &str, middle: &str, after: &str) -> (e: SourceError)
    ensures
        e@ == SourceErrorView::Config(before@ + middle@ + after@),
{
    let mut m = String::new();
    push_str(&mut m, before);
    push_str(&mut m, middle);
    push_str(&mut m, after);
    SourceError::Config(m)
}

impl SourceSpec {
    /// Parse `file:PATH`, `tcp:HOST:PORT`, or `usb[:INDEX]`.
    pub fn parse(s: &str) -> (r: Result<SourceSpec, SourceError>)
        ensures
            spec_result_view(r) == parse_source_spec(s@),
    {
        let c = chars_of(s);
        let n = c.len();
        proof {
            reveal_strlit("file:");
            reveal_strlit("tcp:");
            reveal_strlit("usb:");
            reveal_strlit("usb");
        }
        if starts_with(c.as_slice(), "file:") {
            if n == 5 {
                return Err(config_error("file: needs a path"));
            }
            let path = sub_chars(c.as_slice(), 5, n);
            proof {
                assert(path@ =~= s@.skip(5));
            }
            return Ok(SourceSpec::File { path: string_of(path.as_slice()) });
        }
        if starts_with(c.as_slice(), "tcp:") {
            let rest = sub_chars(c.as_slice(), 4, n);
            proof {
                assert(rest@ =~= s@.skip(4));
            }
            match find_last_colon(rest.as_slice()) {
                None => {
                    return Err(config_error_quoting("'", s, "' should look like tcp:HOST:PORT"));
                },
                Some(k) => {
                    let host = sub_chars(rest.as_slice(), 0, k);
                    let port = sub_chars(rest.as_slice(), k + 1, rest.len());
                    proof {
                        assert(host@ =~= rest@.take(k as int));
                        assert(port@ =~= rest@.skip(k + 1));
                    }
                    match parse_unsigned(port.as_slice(), 0xFFFF) {
                        None => {
                            let p = string_of(port.as_slice());
                            return Err(config_error_quoting("'", p.as_str(), "' is not a port number"));
                        },
                        Some(p) => {
                            if host.len() == 0 {
                                return Err(config_error("tcp: needs a host"));
                            }
                            return Ok(
                                SourceSpec::Tcp { host: string_of(host.as_slice()), port: p as u16 },
                            );
                        },
                    }
                },
            }
        }
        if str_eq(s, "usb") {
            return Ok(SourceSpec::Usb { index: 0 });
        }
        if starts_with(c.as_slice(), "usb:") {
            let index = sub_chars(c.as_slice(), 4, n);
            proof {
                assert(index@ =~= s@.skip(4));
            }
            match parse_unsigned(index.as_slice(), 0xFFFF_FFFF) {
                None => {
                    let t = string_of(index.as_slice());
                    return Err(config_error_quoting("'", t.as_str(), "' is not a device index"));
                },
                Some(i) => {
                    return Ok(SourceSpec::Usb { index: i as u32 });
                },
            }
        }
        Err(config_error_quoting("unknown source '", s, "'. Use file:PATH, tcp:HOST:PORT, or usb[:INDEX]"))
    }
}

/// Whether replay should track wall-clock time.
#[derive(Clone, Copy, Debug, PartialEq, Eq, Structural)]
pub enum Pace {
    /// Deliver samples at the rate they were recorded.
    Realtime,
    /// Deliver as fast as the disk allows. Benchmarks must use this.
    Fast,
}

/// Knobs that apply regardless of which source is opened.
#[derive(Clone, Copy, Debug, PartialEq, Eq, Structural)]
pub struct SourceOptions {
    /// Rate to request, and the rate a file is assumed to have been recorded at.
    pub sample_rate: u32,
    /// Whether a file should be paced to wall-clock time.
    pub pace: Pace,
    /// Whether a file should restart when it runs out.
    pub repeat: bool,
    /// How long to wait on a socket before declaring it wedged, in milliseconds.
    pub read_timeout_ms: u64,
}

impl Default for SourceOptions {
    fn default() -> (o: Self)
        ensures
            o.sample_rate == 2_400_000,
            o.pace == Pace::Realtime,
            !o.repeat,
            o.read_timeout_ms == 5_000,
    {
        SourceOptions { sample_rate: 2_400_000, pace: Pace::Realtime, repeat: false, read_timeout_ms: 5_000 }
    }
}

impl SourceOptions {
    /// Benchmarks must never sleep, and must never loop.
    pub fn for_benchmark(sample_rate: u32) -> (o: Self)
        ensures
            o.sample_rate == sample_rate,
            o.pace == Pace::Fast,
            !o.repeat,
            o.read_timeout_ms == 5_000,
    {
        SourceOptions { sample_rate, pace: Pace::Fast, repeat: false, ..Default::default() }
    }
}

/// What opening a source amounts to, once the spec has been checked: the
/// caller performs the file or socket I/O this names.
#[derive(Clone, Debug, PartialEq, Eq)]
pub enum OpenRequest {
    File { path: String, options: SourceOptions },
    Tcp { host: String, port: u16, options: SourceOptions },
}

/// The refusal a USB spec gets: the USB path is not wired in, and `rtl_tcp`
/// is the recommended deployment anyway.
pub open spec fn usb_refusal(index: u32) -> Seq<char> {
    "USB source (index "@ + decimal(index as nat)
        + ") is not implemented yet. Run rtl_tcp and use tcp:127.0.0.1:1234 -- that is the recommended deployment anyway, because rtl_tcp uses libusb async transfers and does not drop samples between reads."@
}

/// Decide how to open a source.
pub fn open(spec: &SourceSpec, options: &SourceOptions) -> (r: Result<OpenRequest, SourceError>)
    ensures
        spec is Usb ==> (r matches Err(e) && e@ == SourceErrorView::Config(usb_refusal(spec->index))),
        spec matches SourceSpec::File { path } ==> (r matches Ok(
            OpenRequest::File { path: p, options: o },
        ) && p@ == path@ && o == *options),
        spec matches SourceSpec::Tcp { host, port } ==> (r matches Ok(
            OpenRequest::Tcp { host: h, port: q, options: o },
        ) && h@ == host@ && q == port && o == *options),
{
    match spec {
        SourceSpec::File { path } => Ok(OpenRequest::File { path: path.clone(), options: *options }),
        SourceSpec::Tcp { host, port } => Ok(
            OpenRequest::Tcp { host: host.clone(), port: *port, options: *options },
        ),
        SourceSpec::Usb { index } => {
            let mut m = String::new();
            push_str(&mut m, "USB source (index ");
            push_decimal(&mut m, *index as u64);
            push_str(
                &mut m,
                ") is not implemented yet. Run rtl_tcp and use tcp:127.0.0.1:1234 -- that is the recommended deployment anyway, because rtl_tcp uses libusb async transfers and does not drop samples between reads.",
            );
            Err(SourceError::Config(m))
        },
    }
}

/// The name of an RTL-SDR tuner type, as both `rtl_tcp` and librtlsdr number them.
pub open spec fn tuner_name_spec(kind: int) -> Seq<char> {
    if kind == 1 {
        "E4000"@
    } else if kind == 2 {
        "FC0012"@
    } else if kind == 3 {
        "FC0013"@
    } else if kind == 4 {
        "FC2580"@
    } else if kind == 5 {
        "R820T"@
    } else if kind == 6 {
        "R828D"@
    } else {
        "unknown"@
    }
}

pub fn tuner_name(kind: i64) -> (s: &'static str)
    ensures
        s@ == tuner_name_spec(kind as int),
{
    if kind == 1 {
        "E4000"
    } else if kind == 2 {
        "FC0012"
    } else if kind == 3 {
        "FC0013"
    } else if kind == 4 {
        "FC2580"
    } else if kind == 5 {
        "R820T"
    } else if kind == 6 {
        "R828D"
    } else {
        "unknown"
    }
}

/// What an `rtl_tcp` server reports about itself on connect.
#[derive(Clone, Copy, Debug, PartialEq, Eq, Structural)]
pub struct DongleInfo {
    pub tuner_type: u32,
    pub gain_count: u32,
}

/// The big-endian `u32` in `b[at..at + 4]`.
pub open spec fn be_u32(b: Seq<u8>, at: int) -> int {
    b[at] as int * 0x100_0000 + b[at + 1] as int * 0x1_0000 + b[at + 2] as int * 0x100 + b[at + 3] as int
}

/// Whether a header opens with the magic `RTL0`.
pub open spec fn has_rtl_magic(h: Seq<u8>) -> bool {
    h[0] == 0x52 && h[1] == 0x54 && h[2] == 0x4C && h[3] == 0x30
}

impl DongleInfo {
    pub fn tuner_name(&self) -> (s: &'static str)
        ensures
            s@ == tuner_name_spec(self.tuner_type as int),
    {
        tuner_name(self.tuner_type as i64)
    }

    /// Read the 12-byte greeting: `RTL0`, the tuner type, the gain count.
    /// `shown` is how the first four bytes read as text, for the message
    /// when the magic is wrong.
    pub fn parse(header: &[u8; 12], shown: &str) -> (r: Result<DongleInfo, SourceError>)
        ensures
            r is Ok <==> has_rtl_magic(header@),
            r matches Ok(d) ==> d.tuner_type == be_u32(header@, 4) && d.gain_count == be_u32(header@, 8),
            r matches Err(e) ==> e@ == SourceErrorView::Config(
                "not an rtl_tcp server: expected magic 'RTL0', got \""@ + shown@
                    + "\". Is something else listening on that port?"@,
            ),
    {
        if !(header[0] == 0x52 && header[1] == 0x54 && header[2] == 0x4C && header[3] == 0x30) {
            return Err(
                config_error_quoting(
                    "not an rtl_tcp server: expected magic 'RTL0', got \"",
                    shown,
                    "\". Is something else listening on that port?",
                ),
            );
        }
        let t = (header[4] as u32) * 0x100_0000 + (header[5] as u32) * 0x1_0000 + (header[6] as u32)
            * 0x100 + header[7] as u32;
        let g = (header[8] as u32) * 0x100_0000 + (header[9] as u32) * 0x1_0000 + (header[10] as u32)
            * 0x100 + header[11] as u32;
        Ok(DongleInfo { tuner_type: t, gain_count: g })
    }
}

/// `rtl_tcp` opcodes.
pub const CMD_SET_FREQ: u8 = 0x01;
pub const CMD_SET_SAMPLE_RATE: u8 = 0x02;
pub const CMD_SET_GAIN_MODE: u8 = 0x03;
pub const CMD_SET_GAIN: u8 = 0x04;
pub const CMD_SET_FREQ_CORRECTION: u8 = 0x05;
pub const CMD_SET_AGC_MODE: u8 = 0x08;
pub const CMD_SET_DIRECT_SAMPLING: u8 = 0x09;
pub const CMD_SET_GAIN_INDEX: u8 = 0x0D;
pub const CMD_SET_BIAS_TEE: u8 = 0x0E;

/// A five-byte `rtl_tcp` command: the opcode, then the value big-endian.
pub fn encode_command(opcode: u8, value: u32) -> (packet: [u8; 5])
    ensures
        packet@[0] == opcode,
        be_u32(packet@, 1) == value as int,
{
    let b0: u32 = value >> 24;
    let b1: u32 = (value >> 16) & 0xFF;
    let b2: u32 = (value >> 8) & 0xFF;
    let b3: u32 = value & 0xFF;
    assert(b0 < 256 && b1 < 256 && b2 < 256 && b3 < 256 && b0 * 0x100_0000 + b1 * 0x1_0000 + b2 * 0x100
        + b3 == value) by (bit_vector)
        requires
            b0 == value >> 24,
            b1 == (value >> 16) & 0xFF,
            b2 == (value >> 8) & 0xFF,
            b3 == value & 0xFF,
    ;
    let mut packet = [0u8; 5];
    packet[0] = opcode;
    packet[1] = b0 as u8;
    packet[2] = b1 as u8;
    packet[3] = b2 as u8;
    packet[4] = b3 as u8;
    packet
}

/// The commands that put a tuner into a gain setting, in order. Manual mode
/// comes first: a value set while the tuner is automatic is ignored.
pub open spec fn gain_commands_spec(gain: Gain) -> Seq<(u8, u32)> {
    match gain {
        Gain::Auto => seq![(CMD_SET_GAIN_MODE, 0u32)],
        Gain::Tenths(t) => seq![(CMD_SET_GAIN_MODE, 1u32), (CMD_SET_GAIN, t as u32)],
        Gain::Index(i) => seq![(CMD_SET_GAIN_MODE, 1u32), (CMD_SET_GAIN_INDEX, i)],
    }
}

pub fn gain_commands(gain: Gain) -> (c: Vec<(u8, u32)>)
    ensures
        c@ == gain_commands_spec(gain),
{
    let mut c: Vec<(u8, u32)> = Vec::new();
    match gain {
        Gain::Auto => c.push((CMD_SET_GAIN_MODE, 0)),
        Gain::Tenths(t) => {
            c.push((CMD_SET_GAIN_MODE, 1));
            c.push((CMD_SET_GAIN, t as u32));
        },
        Gain::Index(i) => {
            c.push((CMD_SET_GAIN_MODE, 1));
            c.push((CMD_SET_GAIN_INDEX, i));
        },
    }
    proof {
        assert(c@ =~= gain_commands_spec(gain));
    }
    c
}

/// The settings a connection has had applied, one entry per opcode, so a
/// reconnect can put the dongle back the way it was.
#[derive(Clone, Debug)]
pub struct CommandLog {
    applied: Vec<(u8, u32)>,
}

impl View for CommandLog {
    type V = Seq<(u8, u32)>;

    closed spec fn view(&self) -> Seq<(u8, u32)> {
        self.applied@
    }
}

/// No opcode appears twice.
pub open spec fn one_per_opcode(s: Seq<(u8, u32)>) -> bool {
    forall|i: int, j: int| 0 <= i < j < s.len() ==> #[trigger] s[i].0 != #[trigger] s[j].0
}

/// `s` without its entries for opcode `op`.
pub open spec fn without_opcode(s: Seq<(u8, u32)>, op: u8) -> Seq<(u8, u32)>
    decreases s.len(),
{
    if s.len() == 0 {
        s
    } else if s.last().0 == op {
        without_opcode(s.drop_last(), op)
    } else {
        without_opcode(s.drop_last(), op).push(s.last())
    }
}

/// `s` without the entries for `op`, then `(op, v)` at the end.
pub open spec fn recorded(s: Seq<(u8, u32)>, op: u8, v: u32) -> Seq<(u8, u32)> {
    without_opcode(s, op).push((op, v))
}

impl CommandLog {
    pub fn new() -> (l: CommandLog)
        ensures
            l@ == Seq::<(u8, u32)>::empty(),
    {
        CommandLog { applied: Vec::new() }
    }

    /// Remember `(opcode, value)`, replacing any earlier value for the opcode.
    pub fn record(&mut self, opcode: u8, value: u32)
        ensures
            final(self)@ == recorded(old(self)@, opcode, value),
    {
        let mut kept: Vec<(u8, u32)> = Vec::new();
        let mut i: usize = 0;
        while i < self.applied.len()
            invariant
                i <= self.applied@.len(),
                self.applied@ == old(self)@,
                kept@ == without_opcode(self.applied@.take(i as int), opcode),
            decreases self.applied@.len() - i,
        {
            let e = self.applied[i];
            proof {
                assert(self.applied@.take(i + 1).drop_last() =~= self.applied@.take(i as int));
                assert(self.applied@.take(i + 1).last() == e);
            }
            if e.0 != opcode {
                kept.push(e);
            }
            i = i + 1;
        }
        proof {
            assert(self.applied@.take(self.applied@.len() as int) =~= self.applied@);
        }
        kept.push((opcode, value));
        self.applied = kept;
    }

    /// The remembered settings, oldest first.
    pub fn entries(&self) -> (e: Vec<(u8, u32)>)
        ensures
            e@ == self@,
    {
        let mut e: Vec<(u8, u32)> = Vec::new();
        let mut i: usize = 0;
        while i < self.applied.len()
            invariant
                i <= self.applied@.len(),
                e@ == self.applied@.take(i as int),
            decreases self.applied@.len() - i,
        {
            e.push(self.applied[i]);
            proof {
                assert(self.applied@.take(i + 1) =~= self.applied@.take(i as int).push(self.applied@[i as int]));
            }
            i = i + 1;
        }
        proof {
            assert(self.applied@.take(self.applied@.len() as int) =~= self.applied@);
        }
        e
    }
}

proof fn lemma_without_opcode(s: Seq<(u8, u32)>, op: u8)
    ensures
        forall|i: int| 0 <= i < without_opcode(s, op).len() ==> (#[trigger] without_opcode(s, op)[i]).0 != op,
        forall|e: (u8, u32)| #[trigger] without_opcode(s, op).contains(e) <==> (s.contains(e) && e.0 != op),
        one_per_opcode(s) ==> one_per_opcode(without_opcode(s, op)),
    decreases s.len(),
{
    if s.len() > 0 {
        let rest = s.drop_last();
        let w = without_opcode(rest, op);
        lemma_without_opcode(rest, op);
        assert forall|e: (u8, u32)| #[trigger] s.contains(e) <==> (rest.contains(e) || e == s.last()) by {
            if s.contains(e) {
                let k = choose|k: int| 0 <= k < s.len() && s[k] == e;
                if k < s.len() - 1 {
                    assert(rest[k] == e);
                }
            }
            if rest.contains(e) {
                let k = choose|k: int| 0 <= k < rest.len() && rest[k] == e;
                assert(s[k] == e);
            }
            if e == s.last() {
                assert(s[s.len() - 1] == e);
            }
        }
        if s.last().0 != op {
            let r = w.push(s.last());
            assert forall|e: (u8, u32)| #[trigger] r.contains(e) <==> (w.contains(e) || e == s.last()) by {
                if r.contains(e) {
                    let k = choose|k: int| 0 <= k < r.len() && r[k] == e;
                    if k < w.len() {
                        assert(w[k] == e);
                    }
                }
                if w.contains(e) {
                    let k = choose|k: int| 0 <= k < w.len() && w[k] == e;
                    assert(r[k] == e);
                }
                if e == s.last() {
                    assert(r[w.len() as int] == e);
                }
            }
            if one_per_opcode(s) {
                assert(one_per_opcode(rest)) by {
                    assert forall|i: int, j: int| 0 <= i < j < rest.len() implies #[trigger] rest[i].0
                        != #[trigger] rest[j].0 by {
                        assert(rest[i] == s[i] && rest[j] == s[j]);
                    }
                }
                assert forall|i: int, j: int| 0 <= i < j < r.len() implies #[trigger] r[i].0 != #[trigger] r[j].0 by {
                    if j == r.len() - 1 {
                        assert(r[i] == w[i]);
                        assert(w.contains(w[i]));
                        assert(rest.contains(w[i]));
                        let k = choose|k: int| 0 <= k < rest.len() && rest[k] == w[i];
                        assert(s[k] == rest[k]);
                        assert(s[k].0 != s[s.len() - 1].0);
                    } else {
                        assert(r[i] == w[i] && r[j] == w[j]);
                    }
                }
            }
        } else {
            if one_per_opcode(s) {
                assert forall|i: int, j: int| 0 <= i < j < rest.len() implies #[trigger] rest[i].0
                    != #[trigger] rest[j].0 by {
                    assert(rest[i] == s[i] && rest[j] == s[j]);
                }
            }
        }
    }
}

/// Recording keeps one entry per opcode, and the latest value for the
/// opcode just recorded is the one a reconnect will replay; every other
/// setting stays as it was.
pub proof fn lemma_record_keeps_latest(s: Seq<(u8, u32)>, op: u8, v: u32)
    requires
        one_per_opcode(s),
    ensures
        one_per_opcode(recorded(s, op, v)),
        recorded(s, op, v).last() == (op, v),
        forall|i: int| 0 <= i < recorded(s, op, v).len() - 1 ==> #[trigger] recorded(s, op, v)[i].0 != op,
        forall|e: (u8, u32)| e.0 != op ==> (s.contains(e) <==> #[trigger] recorded(s, op, v).contains(e)),
{
    let w = without_opcode(s, op);
    let r = recorded(s, op, v);
    lemma_without_opcode(s, op);
    assert forall|i: int| 0 <= i < r.len() - 1 implies #[trigger] r[i].0 != op by {
        assert(r[i] == w[i]);
    }
    assert forall|i: int, j: int| 0 <= i < j < r.len() implies #[trigger] r[i].0 != #[trigger] r[j].0 by {
        if j == r.len() - 1 {
            assert(r[i] == w[i]);
        } else {
            assert(r[i] == w[i] && r[j] == w[j]);
        }
    }
    assert forall|e: (u8, u32)| e.0 != op implies (s.contains(e) <==> #[trigger] r.contains(e)) by {
        if r.contains(e) {
            let k = choose|k: int| 0 <= k < r.len() && r[k] == e;
            assert(k < r.len() - 1);
            assert(w[k] == e);
        }
        if w.contains(e) {
            let k = choose|k: int| 0 <= k < w.len() && w[k] == e;
            assert(r[k] == e);
        }
    }
}

} // verus!
