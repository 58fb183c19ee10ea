//! Character-level helpers for strings: whitespace trimming, searching and
//! decimal parsing.
use vstd::prelude::*;
use vstd::string::{StrSliceExecFns, StringExecFns};

verus! {

broadcast use vstd::string::axiom_spec_iter;

/// The characters of `s`.
pub fn chars_of(s: &str) -> (v: Vec<char>)
    ensures
        v@ == s@,
{
    let mut v: Vec<char> = Vec::new();
    for c in it: s.chars()
        invariant
            v@ == it.seq().take(it.index()),
    {
        v.push(c);
    }
    v
}

/// Whether `c` has the Unicode White_Space property.
pub open spec fn spec_is_whitespace(c: char) -> bool {
    ||| '\u{9}' <= c <= '\u{d}'
    ||| c == ' '
    ||| c == '\u{85}'
    ||| c == '\u{a0}'
    ||| c == '\u{1680}'
    ||| '\u{2000}' <= c <= '\u{200a}'
    ||| c == '\u{2028}'
    ||| c == '\u{2029}'
    ||| c == '\u{202f}'
    ||| c == '\u{205f}'
    ||| c == '\u{3000}'
}

/// Whether `c` has the Unicode White_Space property.
pub fn is_whitespace(c: char) -> (r: bool)
    ensures
        r == spec_is_whitespace(c),
{
    ('\u{9}' <= c && c <= '\u{d}') || c == ' ' || c == '\u{85}' || c == '\u{a0}' || c == '\u{1680}'
        || ('\u{2000}' <= c && c <= '\u{200a}') || c == '\u{2028}' || c == '\u{2029}' || c
        == '\u{202f}' || c == '\u{205f}' || c == '\u{3000}'
}

/// `s` without its leading whitespace.
pub open spec fn trim_start(s: Seq<char>) -> Seq<char>
    decreases s.len(),
{
    if s.len() > 0 && spec_is_whitespace(s[0]) {
        trim_start(s.drop_first())
    } else {
        s
    }
}

/// `s` without its trailing whitespace.
pub open spec fn trim_end(s: Seq<char>) -> Seq<char>
    decreases s.len(),
{
    if s.len() > 0 && spec_is_whitespace(s.last()) {
        trim_end(s.drop_last())
    } else {
        s
    }
}

/// `s` without leading and trailing whitespace.
pub open spec fn spec_trim(s: Seq<char>) -> Seq<char> {
    trim_end(trim_start(s))
}

/// The characters of `s` from `lo` up to `hi`.
pub fn slice_chars(s: &Vec<char>, lo: usize, hi: usize) -> (r: Vec<char>)
    requires
        lo <= hi <= s@.len(),
    ensures
        r@ == s@.subrange(lo as int, hi as int),
{
    let mut r: Vec<char> = Vec::new();
    let mut i = lo;
    while i < hi
        invariant
            lo <= i <= hi <= s@.len(),
            r@ == s@.subrange(lo as int, i as int),
        decreases hi - i,
    {
        r.push(s[i]);
        i = i + 1;
    }
    r
}

/// `s` without leading and trailing whitespace.
pub fn trim(s: &Vec<char>) -> (r: Vec<char>)
    ensures
        r@ == spec_trim(s@),
{
    let n = s.len();
    let mut i: usize = 0;
    assert(s@.subrange(0, n as int) =~= s@);
    while i < n && is_whitespace(s[i])
        invariant
            i <= n == s@.len(),
            trim_start(s@.subrange(i as int, n as int)) == trim_start(s@),
        decreases n - i,
    {
        assert(s@.subrange(i as int, n as int).drop_first() =~= s@.subrange(i + 1, n as int));
        i = i + 1;
    }
    assert(trim_start(s@) == s@.subrange(i as int, n as int));
    let mut j: usize = n;
    while j > i && is_whitespace(s[j - 1])
        invariant
            i <= j <= n == s@.len(),
            trim_start(s@) == s@.subrange(i as int, n as int),
            trim_end(s@.subrange(i as int, j as int)) == spec_trim(s@),
        decreases j,
    {
        assert(s@.subrange(i as int, j as int).drop_last() =~= s@.subrange(i as int, j - 1));
        j = j - 1;
    }
    slice_chars(s, i, j)
}

/// The first position at or after `from` where `c` occurs in `s`.
pub open spec fn find_char(s: Seq<char>, c: char, from: int) -> Option<int>
    decreases s.len() - from,
{
    if from < 0 || from >= s.len() {
        None
    } else if s[from] == c {
        Some(from)
    } else {
        find_char(s, c, from + 1)
    }
}

/// The first position where `c` occurs in `s`.
pub fn find(s: &Vec<char>, c: char) -> (r: Option<usize>)
    ensures
        r matches Some(k) ==> find_char(s@, c, 0) == Some(k as int) && k < s@.len(),
        r is None ==> find_char(s@, c, 0) is None,
{
    let n = s.len();
    let mut i: usize = 0;
    while i < n
        invariant
            i <= n == s@.len(),
            find_char(s@, c, 0) == find_char(s@, c, i as int),
        decreases n - i,
    {
        if s[i] == c {
            return Some(i);
        }
        i = i + 1;
    }
    None
}

/// Whether `suffix` is a suffix of `s`.
pub open spec fn is_suffix(suffix: Seq<char>, s: Seq<char>) -> bool {
    suffix.len() <= s.len() && s.subrange(s.len() - suffix.len(), s.len() as int) == suffix
}

/// Whether `s` ends with `suffix`.
pub fn ends_with(s: &Vec<char>, suffix: &Vec<char>) -> (r: bool)
    ensures
        r == is_suffix(suffix@, s@),
{
    let n = s.len();
    let m = suffix.len();
    if m > n {
        return false;
    }
    let off = n - m;
    let mut i: usize = 0;
    while i < m
        invariant
            i <= m <= n == s@.len(),
            m == suffix@.len(),
            off == n - m,
            forall|j: int| 0 <= j < i ==> s@[off + j] == suffix@[j],
        decreases m - i,
    {
        if s[off + i] != suffix[i] {
            assert(s@.subrange(off as int, n as int)[i as int] != suffix@[i as int]);
            return false;
        }
        i = i + 1;
    }
    assert(s@.subrange(off as int, n as int) =~= suffix@);
    true
}

/// Whether `a` and `b` hold the same characters.
pub fn same_chars(a: &Vec<char>, b: &Vec<char>) -> (r: bool)
    ensures
        r == (a@ == b@),
{
    if a.len() != b.len() {
        return false;
    }
    let r = ends_with(a, b);
    assert(a@.subrange(a@.len() - b@.len(), a@.len() as int) =~= a@);
    r
}

/// Why a decimal number could not be parsed.
#[derive(Debug, Clone, Copy, PartialEq, Eq, Structural)]
pub enum ParseIntError {
    /// The text is empty.
    Empty,
    /// A character other than a decimal digit occurs where a digit is due.
    InvalidDigit,
    /// The value does not fit in 16 bits.
    PosOverflow,
}

/// The text that describes a parse error, as Rust's integer parsing words it.
pub open spec fn spec_parse_error_message(e: ParseIntError) -> Seq<char> {
    match e {
        ParseIntError::Empty => "cannot parse integer from empty string"@,
        ParseIntError::InvalidDigit => "invalid digit found in string"@,
        ParseIntError::PosOverflow => "number too large to fit in target type"@,
    }
}

impl ParseIntError {
    /// The text that describes the error.
    pub fn message(&self) -> (r: String)
        ensures
            r@ == spec_parse_error_message(*self),
    {
        match self {
            ParseIntError::Empty => "cannot parse integer from empty string".to_owned(),
            ParseIntError::InvalidDigit => "invalid digit found in string".to_owned(),
            ParseIntError::PosOverflow => "number too large to fit in target type".to_owned(),
        }
    }
}

/// Whether `c` is an ASCII decimal digit.
pub open spec fn is_digit(c: char) -> bool {
    '0' <= c <= '9'
}

/// Scans the digits of `t` from position `i` on, with `acc` the value of the
/// digits before it; fails at the first non-digit or at the first digit that
/// takes the value past 65535.
pub open spec fn scan_digits(t: Seq<char>, i: int, acc: int) -> Result<u16, ParseIntError>
    decreases t.len() - i,
{
    if i < 0 || i >= t.len() {
        Ok(acc as u16)
    } else if !is_digit(t[i]) {
        Err(ParseIntError::InvalidDigit)
    } else if acc * 10 + (t[i] as int - '0' as int) > 65535 {
        Err(ParseIntError::PosOverflow)
    } else {
        scan_digits(t, i + 1, acc * 10 + (t[i] as int - '0' as int))
    }
}

/// The result of parsing `s` as a decimal 16-bit unsigned integer, with an
/// optional leading '+'.
pub open spec fn spec_parse_u16(s: Seq<char>) -> Result<u16, ParseIntError> {
    if s.len() == 0 {
        Err(ParseIntError::Empty)
    } else if (s[0] == '+' || s[0] == '-') && s.len() == 1 {
        Err(ParseIntError::InvalidDigit)
    } else if s[0] == '+' {
        scan_digits(s, 1, 0)
    } else {
        scan_digits(s, 0, 0)
    }
}

/// Parses `s` as a decimal 16-bit unsigned integer, with an optional leading
/// '+'.
pub fn parse_u16(s: &Vec<char>) -> (r: Result<u16, ParseIntError>)
    ensures
        r == spec_parse_u16(s@),
{
    let n = s.len();
    if n == 0 {
        return Err(ParseIntError::Empty);
    }
    if (s[0] == '+' || s[0] == '-') && n == 1 {
        return Err(ParseIntError::InvalidDigit);
    }
    let mut i: usize = if s[0] == '+' { 1 } else { 0 };
    let ghost start = i as int;
    let mut acc: u32 = 0;
    while i < n
        invariant
            i <= n == s@.len(),
            acc <= 65535,
            spec_parse_u16(s@) == scan_digits(s@, i as int, acc as int),
        decreases n - i,
    {
        let c = s[i];
        if !('0' <= c && c <= '9') {
            return Err(ParseIntError::InvalidDigit);
        }
        let d: u32 = (c as u32) - ('0' as u32);
        let next: u32 = acc * 10 + d;
        if next > 65535 {
            return Err(ParseIntError::PosOverflow);
        }
        acc = next;
        i = i + 1;
    }
    Ok(acc as u16)
}

/// The character of the decimal digit `d`.
pub open spec fn digit_char(d: int) -> char {
    ((d + 48) as u8) as char
}

/// The decimal digits of `n`, without leading zeros.
pub open spec fn spec_decimal(n: nat) -> Seq<char>
    decreases n,
{
    if n < 10 {
        seq![digit_char(n as int)]
    } else {
        spec_decimal(n / 10) + seq![digit_char((n % 10) as int)]
    }
}

/// The decimal digit `d` as a one-character string.
fn decimal_digit(d: u64) -> (r: &'static str)
    requires
        d < 10,
    ensures
        r@ == seq![digit_char(d as int)],
{
    proof {
        reveal_strlit("0");
        reveal_strlit("1");
        reveal_strlit("2");
        reveal_strlit("3");
        reveal_strlit("4");
        reveal_strlit("5");
        reveal_strlit("6");
        reveal_strlit("7");
        reveal_strlit("8");
        reveal_strlit("9");
    }
    let r = match d {
        0 => "0",
        1 => "1",
        2 => "2",
        3 => "3",
        4 => "4",
        5 => "5",
        6 => "6",
        7 => "7",
        8 => "8",
        _ => "9",
    };
    assert(r@ =~= seq![digit_char(d as int)]);
    r
}

/// Appends the decimal digits of `n` to `out`.
pub fn append_decimal(out: &mut String, n: u64)
    ensures
        final(out)@ == old(out)@ + spec_decimal(n as nat),
    decreases n,
{
    if n >= 10 {
        append_decimal(out, n / 10);
    }
    out.append(decimal_digit(n % 10));
    assert(final(out)@ =~= old(out)@ + spec_decimal(n as nat));
}

/// Scanning digits across a concatenation, once the first part is behind.
proof fn lemma_scan_shift(a: Seq<char>, b: Seq<char>, j: int, acc: int)
    requires
        0 <= j <= b.len(),
    ensures
        scan_digits(a + b, a.len() + j, acc) == scan_digits(b, j, acc),
    decreases b.len() - j,
{
    if j < b.len() {
        assert((a + b)[a.len() + j] == b[j]);
        if is_digit(b[j]) && acc * 10 + (b[j] as int - '0' as int) <= 65535 {
            lemma_scan_shift(a, b, j + 1, acc * 10 + (b[j] as int - '0' as int));
        }
    }
}

/// Scanning digits over `a + b` goes through `a` and goes on in `b` with the
/// value that `a` gave.
proof fn lemma_scan_concat(a: Seq<char>, b: Seq<char>, i: int, acc: int)
    requires
        0 <= i <= a.len(),
        0 <= acc <= 65535,
        scan_digits(a, i, acc) is Ok,
    ensures
        scan_digits(a + b, i, acc) == scan_digits(b, 0, scan_digits(a, i, acc)->Ok_0 as int),
    decreases a.len() - i,
{
    if i == a.len() {
        lemma_scan_shift(a, b, 0, acc);
    } else {
        assert((a + b)[i] == a[i]);
        lemma_scan_concat(a, b, i + 1, acc * 10 + (a[i] as int - '0' as int));
    }
}

/// The decimal digits of a 16-bit number are digits, and parse back to it.
pub proof fn lemma_decimal_parses(n: nat)
    requires
        n <= 65535,
    ensures
        spec_decimal(n).len() > 0,
        forall|k: int| 0 <= k < spec_decimal(n).len() ==> is_digit(#[trigger] spec_decimal(n)[k]),
        scan_digits(spec_decimal(n), 0, 0) == Ok::<u16, ParseIntError>(n as u16),
        spec_parse_u16(spec_decimal(n)) == Ok::<u16, ParseIntError>(n as u16),
    decreases n,
{
    let c = digit_char((n % 10) as int);
    assert(is_digit(c) && c as int - '0' as int == n % 10);
    if n < 10 {
        let s = spec_decimal(n);
        assert(s == seq![c]);
        assert(scan_digits(s, 1, n as int) == Ok::<u16, ParseIntError>(n as u16));
    } else {
        lemma_decimal_parses(n / 10);
        let a = spec_decimal(n / 10);
        let b = seq![c];
        lemma_scan_concat(a, b, 0, 0);
        assert((n / 10) * 10 + n % 10 == n);
        assert(scan_digits(b, 1, n as int) == Ok::<u16, ParseIntError>(n as u16));
        assert(scan_digits(b, 0, (n / 10) as int) == Ok::<u16, ParseIntError>(n as u16));
        assert forall|k: int| 0 <= k < spec_decimal(n).len() implies is_digit(#[trigger] spec_decimal(n)[k]) by {
            if k < a.len() {
                assert(spec_decimal(n)[k] == a[k]);
            }
        }
    }
}

/// Text that starts and ends with a non-whitespace character is its own trim.
pub proof fn lemma_trim_unchanged(s: Seq<char>)
    requires
        s.len() > 0,
        !spec_is_whitespace(s[0]),
        !spec_is_whitespace(s.last()),
    ensures
        spec_trim(s) == s,
{
}

/// The first position at or after `i` of `c` in `s` is `k` when `s[k] == c`
/// and no position between holds `c`.
pub proof fn lemma_find_char_at(s: Seq<char>, c: char, i: int, k: int)
    requires
        0 <= i <= k < s.len(),
        s[k] == c,
        forall|j: int| i <= j < k ==> s[j] != c,
    ensures
        find_char(s, c, i) == Some(k),
    decreases k - i,
{
    if i < k {
        lemma_find_char_at(s, c, i + 1, k);
    }
}

/// `s` with every backslash turned into a forward slash.
pub open spec fn spec_forward_slashes(s: Seq<char>) -> Seq<char> {
    s.map_values(|c: char| if c == '\\' { '/' } else { c })
}

/// `s` with every backslash turned into a forward slash.
pub fn forward_slashes(s: &str) -> (r: String)
    ensures
        r@ == spec_forward_slashes(s@),
{
    let cs = chars_of(s);
    let n = cs.len();
    let mut out = String::new();
    let mut start: usize = 0;
    let mut i: usize = 0;
    while i < n
        invariant
            n == cs@.len(),
            cs@ == s@,
            start <= i <= n,
            out@ == spec_forward_slashes(s@.subrange(0, start as int)),
            forall|j: int| start <= j < i ==> s@[j] != '\\',
        decreases n - i,
    {
        if cs[i] == '\\' {
            let chunk = s.substring_char(start, i);
            let ghost o = out@;
            out.append(chunk);
            out.append("/");
            proof {
                reveal_strlit("/");
            }
            assert("/"@ =~= seq!['/']);
            assert(out@ == o + chunk@ + "/"@);
            assert(spec_forward_slashes(s@.subrange(0, i + 1)) =~= spec_forward_slashes(
                s@.subrange(0, start as int),
            ) + chunk@ + seq!['/']);
            start = i + 1;
        }
        i = i + 1;
    }
    let chunk = s.substring_char(start, n);
    out.append(chunk);
    assert(spec_forward_slashes(s@) =~= spec_forward_slashes(s@.subrange(0, start as int)) + chunk@);
    out
}

} // verus!
