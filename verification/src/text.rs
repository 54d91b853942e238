//! Verified text assembly: decimal and hexadecimal rendering of integers and appending to a
//! `String`, the building blocks of every emitted document and identifier in this crate.
use vstd::prelude::*;
use vstd::string::StrSliceExecFns;

verus! {

/// The sixteen lowercase hexadecimal digit characters, in value order.
pub open spec fn hex_chars() -> Seq<char> {
    seq!['0', '1', '2', '3', '4', '5', '6', '7', '8', '9', 'a', 'b', 'c', 'd', 'e', 'f']
}

/// The decimal digits of a natural number, most significant first, without leading zeros.
pub open spec fn dec_digits(n: nat) -> Seq<char>
    decreases n,
{
    if n < 10 {
        seq![hex_chars()[n as int]]
    } else {
        dec_digits(n / 10).push(hex_chars()[(n % 10) as int])
    }
}

/// The decimal rendering of an integer, with a leading `-` for negatives.
pub open spec fn int_text(n: int) -> Seq<char> {
    if n < 0 {
        seq!['-'] + dec_digits((-n) as nat)
    } else {
        dec_digits(n as nat)
    }
}

/// The two lowercase hexadecimal digits of a byte, high nibble first.
pub open spec fn hex2(b: u8) -> Seq<char> {
    seq![hex_chars()[(b / 16) as int], hex_chars()[(b % 16) as int]]
}

/// Append one character to a string (`String::push`).
#[verifier::external_body]
pub fn push_char(s: &mut String, c: char)
    ensures
        final(s)@ == old(s)@.push(c),
{
    s.push(c);
}

/// Append a string slice.
pub fn push_str(s: &mut String, t: &str)
    ensures
        final(s)@ == old(s)@ + t@,
{
    s.append(t);
}

/// The character for one digit value below sixteen.
pub fn hex_char(d: u8) -> (c: char)
    requires
        d < 16,
    ensures
        c == hex_chars()[d as int],
{
    match d {
        0 => '0',
        1 => '1',
        2 => '2',
        3 => '3',
        4 => '4',
        5 => '5',
        6 => '6',
        7 => '7',
        8 => '8',
        9 => '9',
        10 => 'a',
        11 => 'b',
        12 => 'c',
        13 => 'd',
        14 => 'e',
        _ => 'f',
    }
}

/// Append the decimal digits of `n`.
pub fn push_u64(s: &mut String, n: u64)
    ensures
        final(s)@ == old(s)@ + dec_digits(n as nat),
    decreases n,
{
    if n >= 10 {
        push_u64(s, n / 10);
    }
    push_char(s, hex_char((n % 10) as u8));
    proof {
        if n >= 10 {
            assert(old(s)@ + dec_digits(n as nat) =~= old(s)@ + dec_digits((n / 10) as nat) + seq![
                hex_chars()[(n % 10) as int],
            ]);
        } else {
            assert(n % 10 == n);
        }
    }
}

/// The lowercase hexadecimal digits of a natural number, most significant first, without
/// leading zeros (what `{:x}` prints).
pub open spec fn hex_digits(n: nat) -> Seq<char>
    decreases n,
{
    if n < 16 {
        seq![hex_chars()[n as int]]
    } else {
        hex_digits(n / 16).push(hex_chars()[(n % 16) as int])
    }
}

/// Append the lowercase hexadecimal digits of `n`, without leading zeros.
pub fn push_hex(s: &mut String, n: u64)
    ensures
        final(s)@ == old(s)@ + hex_digits(n as nat),
    decreases n,
{
    if n >= 16 {
        push_hex(s, n / 16);
    }
    push_char(s, hex_char((n % 16) as u8));
    proof {
        if n >= 16 {
            assert(old(s)@ + hex_digits(n as nat) =~= old(s)@ + hex_digits((n / 16) as nat) + seq![
                hex_chars()[(n % 16) as int],
            ]);
        } else {
            assert(n % 16 == n);
        }
    }
}

/// Append the decimal rendering of `n` (leading `-` for negatives).
pub fn push_i64(s: &mut String, n: i64)
    ensures
        final(s)@ == old(s)@ + int_text(n as int),
{
    if n < 0 {
        push_char(s, '-');
        let m: u64 = (0i128 - n as i128) as u64;
        push_u64(s, m);
        assert(old(s)@ + int_text(n as int) =~= old(s)@.push('-') + dec_digits(m as nat));
    } else {
        push_u64(s, n as u64);
    }
}

/// Append the two lowercase hexadecimal digits of a byte.
pub fn push_hex2(s: &mut String, b: u8)
    ensures
        final(s)@ == old(s)@ + hex2(b),
{
    push_char(s, hex_char(b / 16));
    push_char(s, hex_char(b % 16));
    assert(old(s)@ + hex2(b) =~= old(s)@.push(hex_chars()[(b / 16) as int]).push(
        hex_chars()[(b % 16) as int],
    ));
}

/// The four lowercase hexadecimal digits of a 16-bit word, most significant first (`{:04x}`).
pub open spec fn hex4(x: u16) -> Seq<char> {
    hex2((x / 256) as u8) + hex2((x % 256) as u8)
}

/// Append the four lowercase hexadecimal digits of a 16-bit word (`{:04x}`).
pub fn push_hex4(s: &mut String, x: u16)
    ensures
        final(s)@ == old(s)@ + hex4(x),
{
    push_hex2(s, (x / 256) as u8);
    push_hex2(s, (x % 256) as u8);
    assert(old(s)@ + hex4(x) =~= old(s)@ + hex2((x / 256) as u8) + hex2((x % 256) as u8));
}

/// String equality: the same characters in the same order.
pub fn str_eq(a: &str, b: &str) -> (r: bool)
    ensures
        r == (a@ == b@),
{
    let n = a.unicode_len();
    if n != b.unicode_len() {
        return false;
    }
    let mut i: usize = 0;
    while i < n
        invariant
            n == a@.len(),
            n == b@.len(),
            i <= n,
            forall|j: int| 0 <= j < i ==> a@[j] == b@[j],
        decreases n - i,
    {
        if a.get_char(i) != b.get_char(i) {
            return false;
        }
        i += 1;
    }
    assert(a@ =~= b@);
    true
}

/// Whether `s` begins with `p` (`str::starts_with`).
pub fn starts_with(s: &str, p: &str) -> (r: bool)
    ensures
        r == (p@.len() <= s@.len() && s@.subrange(0, p@.len() as int) == p@),
{
    let n = s.unicode_len();
    let m = p.unicode_len();
    if m > n {
        return false;
    }
    let mut i: usize = 0;
    while i < m
        invariant
            n == s@.len(),
            m == p@.len(),
            m <= n,
            i <= m,
            forall|j: int| 0 <= j < i ==> s@[j] == p@[j],
        decreases m - i,
    {
        if s.get_char(i) != p.get_char(i) {
            assert(s@.subrange(0, m as int)[i as int] != p@[i as int]);
            return false;
        }
        i += 1;
    }
    assert(s@.subrange(0, m as int) =~= p@);
    true
}

/// The parts joined with `sep` between neighbours (`[String]::join`).
pub open spec fn joined(parts: Seq<Seq<char>>, sep: Seq<char>) -> Seq<char>
    decreases parts.len(),
{
    if parts.len() == 0 {
        Seq::empty()
    } else if parts.len() == 1 {
        parts[0]
    } else {
        joined(parts.drop_last(), sep) + sep + parts.last()
    }
}

/// The views of a sequence of strings.
pub open spec fn strs(v: Seq<String>) -> Seq<Seq<char>> {
    v.map_values(|s: String| s@)
}

/// The parts joined with `sep` between neighbours.
pub fn join(parts: &Vec<String>, sep: &str) -> (r: String)
    ensures
        r@ == joined(strs(parts@), sep@),
{
    let mut out = String::new();
    let mut i: usize = 0;
    while i < parts.len()
        invariant
            i <= parts@.len(),
            out@ == joined(strs(parts@).take(i as int), sep@),
        decreases parts@.len() - i,
    {
        let ghost before = out@;
        if i > 0 {
            push_str(&mut out, sep);
        }
        push_str(&mut out, parts[i].as_str());
        proof {
            let t = strs(parts@).take(i + 1);
            assert(t.drop_last() =~= strs(parts@).take(i as int));
            assert(t.last() == parts@[i as int]@);
            if i == 0 {
                assert(out@ =~= t[0]);
            }
        }
        i += 1;
    }
    assert(strs(parts@).take(parts@.len() as int) =~= strs(parts@));
    out
}

/// A fresh string holding `t`.
pub fn string_of(t: &str) -> (s: String)
    ensures
        s@ == t@,
{
    String::from_str(t)
}

/// Unicode `White_Space` characters (what `char::is_whitespace` accepts).
pub open spec fn is_ws(c: char) -> bool {
    let u = c as u32;
    (0x9 <= u <= 0xd) || u == 0x20 || u == 0x85 || u == 0xa0 || u == 0x1680 || (0x2000 <= u
        <= 0x200a) || u == 0x2028 || u == 0x2029 || u == 0x202f || u == 0x205f || u == 0x3000
}

pub fn is_whitespace(c: char) -> (r: bool)
    ensures
        r == is_ws(c),
{
    let u = c as u32;
    (0x9 <= u && u <= 0xd) || u == 0x20 || u == 0x85 || u == 0xa0 || u == 0x1680 || (0x2000 <= u
        && u <= 0x200a) || u == 0x2028 || u == 0x2029 || u == 0x202f || u == 0x205f || u == 0x3000
}

/// The first position at or after `i` that is not whitespace (or the end).
pub open spec fn lead_end(s: Seq<char>, i: int) -> int
    decreases s.len() - i,
{
    if 0 <= i < s.len() && is_ws(s[i]) {
        lead_end(s, i + 1)
    } else {
        i
    }
}

/// The end of `s[lo..j]` once trailing whitespace is dropped.
pub open spec fn trail_start(s: Seq<char>, lo: int, j: int) -> int
    decreases j - lo,
{
    if lo < j && j <= s.len() && is_ws(s[j - 1]) {
        trail_start(s, lo, j - 1)
    } else {
        j
    }
}

/// `s` without leading and trailing whitespace (`str::trim`).
pub open spec fn trimmed(s: Seq<char>) -> Seq<char> {
    let lo = lead_end(s, 0);
    s.subrange(lo, trail_start(s, lo, s.len() as int))
}

proof fn lemma_lead_end_bounds(s: Seq<char>, i: int)
    requires
        0 <= i <= s.len(),
    ensures
        i <= lead_end(s, i) <= s.len(),
    decreases s.len() - i,
{
    if i < s.len() && is_ws(s[i]) {
        lemma_lead_end_bounds(s, i + 1);
    }
}

proof fn lemma_trail_start_bounds(s: Seq<char>, lo: int, j: int)
    requires
        0 <= lo <= j <= s.len(),
    ensures
        lo <= trail_start(s, lo, j) <= j,
    decreases j - lo,
{
    if lo < j && is_ws(s[j - 1]) {
        lemma_trail_start_bounds(s, lo, j - 1);
    }
}

/// `s` without leading and trailing whitespace.
pub fn trim(s: &str) -> (r: &str)
    ensures
        r@ == trimmed(s@),
{
    let n = s.unicode_len();
    let mut lo: usize = 0;
    while lo < n && is_whitespace(s.get_char(lo))
        invariant
            n == s@.len(),
            lo <= n,
            lead_end(s@, 0) == lead_end(s@, lo as int),
        decreases n - lo,
    {
        lo += 1;
    }
    let mut hi: usize = n;
    while hi > lo && is_whitespace(s.get_char(hi - 1))
        invariant
            n == s@.len(),
            lo <= hi <= n,
            lo == lead_end(s@, 0),
            trail_start(s@, lo as int, n as int) == trail_start(s@, lo as int, hi as int),
        decreases hi - lo,
    {
        hi -= 1;
    }
    s.substring_char(lo, hi)
}

/// ASCII lowercase of one character (`char::to_ascii_lowercase`).
pub open spec fn ascii_lower(c: char) -> char {
    if 'A' <= c <= 'Z' {
        ((c as u32) + 32) as char
    } else {
        c
    }
}

pub open spec fn ascii_lowered(s: Seq<char>) -> Seq<char> {
    s.map_values(|c: char| ascii_lower(c))
}

/// ASCII lowercase of a string (`str::to_ascii_lowercase`).
pub fn to_ascii_lowercase(s: &str) -> (r: String)
    ensures
        r@ == ascii_lowered(s@),
{
    let n = s.unicode_len();
    let mut out = String::new();
    let mut i: usize = 0;
    while i < n
        invariant
            n == s@.len(),
            i <= n,
            out@ == ascii_lowered(s@.take(i as int)),
        decreases n - i,
    {
        let c = s.get_char(i);
        let l = if 'A' <= c && c <= 'Z' {
            ((c as u32) + 32) as u8 as char
        } else {
            c
        };
        assert(l == ascii_lower(c)) by {
            if 'A' <= c && c <= 'Z' {
                assert(((c as u32) + 32) as u8 as char == ((c as u32) + 32) as char);
            }
        }
        push_char(&mut out, l);
        assert(ascii_lowered(s@.take(i + 1)) =~= ascii_lowered(s@.take(i as int)).push(l));
        i += 1;
    }
    assert(s@.take(n as int) =~= s@);
    out
}

pub open spec fn is_digit(c: char) -> bool {
    '0' <= c <= '9'
}

/// The value of the decimal digits `d[0..n]`.
pub open spec fn digits_value(d: Seq<char>, n: int) -> int
    decreases n,
{
    if n <= 0 {
        0
    } else {
        digits_value(d, n - 1) * 10 + ((d[n - 1] as u32) - ('0' as u32))
    }
}

pub open spec fn all_digits(d: Seq<char>) -> bool {
    forall|i: int| 0 <= i < d.len() ==> is_digit(d[i])
}

/// A decimal integer with an optional sign, as `str::parse::<i64>` reads it: no whitespace,
/// at least one digit, and a value in range.
pub open spec fn parsed_i64(s: Seq<char>) -> Option<i64> {
    if s.len() == 0 {
        None
    } else {
        let neg = s[0] == '-';
        let d = if s[0] == '-' || s[0] == '+' { s.drop_first() } else { s };
        if d.len() == 0 || !all_digits(d) {
            None
        } else {
            let v = if neg { -digits_value(d, d.len() as int) } else { digits_value(d, d.len() as int) };
            if i64::MIN <= v <= i64::MAX {
                Some(v as i64)
            } else {
                None
            }
        }
    }
}

/// A decimal digit character and its value.
proof fn lemma_dec_char(k: int)
    requires
        0 <= k < 10,
    ensures
        is_digit(hex_chars()[k]),
        (hex_chars()[k] as u32) - ('0' as u32) == k,
{
    if k == 0 {
        assert(hex_chars()[0] == '0');
    } else if k == 1 {
        assert(hex_chars()[1] == '1');
    } else if k == 2 {
        assert(hex_chars()[2] == '2');
    } else if k == 3 {
        assert(hex_chars()[3] == '3');
    } else if k == 4 {
        assert(hex_chars()[4] == '4');
    } else if k == 5 {
        assert(hex_chars()[5] == '5');
    } else if k == 6 {
        assert(hex_chars()[6] == '6');
    } else if k == 7 {
        assert(hex_chars()[7] == '7');
    } else if k == 8 {
        assert(hex_chars()[8] == '8');
    } else {
        assert(hex_chars()[9] == '9');
    }
}

/// The decimal digits of `m` are digits and read back as `m`.
pub proof fn lemma_dec_digits_value(m: nat)
    ensures
        dec_digits(m).len() >= 1,
        all_digits(dec_digits(m)),
        digits_value(dec_digits(m), dec_digits(m).len() as int) == m,
    decreases m,
{
    let d = dec_digits(m);
    if m < 10 {
        lemma_dec_char(m as int);
        assert(d.len() == 1);
        assert(digits_value(d, 0) == 0);
    } else {
        lemma_dec_digits_value(m / 10);
        lemma_dec_char((m % 10) as int);
        let p = dec_digits(m / 10);
        assert(d == p.push(hex_chars()[(m % 10) as int]));
        assert forall|i: int| 0 <= i < d.len() implies is_digit(d[i]) by {
            if i < p.len() {
                assert(d[i] == p[i]);
            }
        }
        lemma_digits_prefix(p, hex_chars()[(m % 10) as int], p.len() as int);
        assert(digits_value(d, d.len() as int) == digits_value(d, p.len() as int) * 10 + (m % 10));
    }
}

/// Appending a character leaves the value of the earlier digits alone.
proof fn lemma_digits_prefix(p: Seq<char>, c: char, n: int)
    requires
        0 <= n <= p.len(),
    ensures
        digits_value(p.push(c), n) == digits_value(p, n),
    decreases n,
{
    if n > 0 {
        lemma_digits_prefix(p, c, n - 1);
        assert(p.push(c)[n - 1] == p[n - 1]);
    }
}

/// A string with no whitespace at either end trims to itself.
pub proof fn lemma_trimmed_plain(s: Seq<char>)
    requires
        s.len() > 0,
        !is_ws(s[0]),
        !is_ws(s[s.len() - 1]),
    ensures
        trimmed(s) == s,
{
    assert(lead_end(s, 0) == 0);
    assert(trail_start(s, 0, s.len() as int) == s.len());
    assert(s.subrange(0, s.len() as int) =~= s);
}

/// The decimal rendering of an integer has no surrounding whitespace and parses back to it.
pub proof fn lemma_int_text_round_trip(n: i64)
    ensures
        trimmed(int_text(n as int)) == int_text(n as int),
        parsed_i64(int_text(n as int)) == Some(n),
{
    let t = int_text(n as int);
    if n < 0 {
        let m = (-n) as nat;
        lemma_dec_digits_value(m);
        let d = dec_digits(m);
        assert(t == seq!['-'] + d);
        assert(t[0] == '-');
        assert(t.drop_first() =~= d);
        assert(t[t.len() - 1] == d[d.len() - 1]);
        assert(is_digit(d[d.len() - 1]));
        lemma_trimmed_plain(t);
    } else {
        let m = n as nat;
        lemma_dec_digits_value(m);
        assert(t == dec_digits(m));
        assert(is_digit(t[0]) && is_digit(t[t.len() - 1]));
        lemma_trimmed_plain(t);
    }
}

proof fn lemma_digits_monotone(d: Seq<char>, m: int, n: int)
    requires
        0 <= m <= n <= d.len(),
        all_digits(d),
    ensures
        digits_value(d, m) <= digits_value(d, n),
        0 <= digits_value(d, m),
    decreases n - m,
{
    if m < n {
        lemma_digits_monotone(d, m, n - 1);
        assert(is_digit(d[n - 1]));
    } else {
        lemma_digits_nonneg(d, m);
    }
}

proof fn lemma_digits_nonneg(d: Seq<char>, n: int)
    requires
        0 <= n <= d.len(),
        all_digits(d),
    ensures
        0 <= digits_value(d, n),
    decreases n,
{
    if n > 0 {
        lemma_digits_nonneg(d, n - 1);
        assert(is_digit(d[n - 1]));
    }
}

/// Parse a signed decimal integer (see [`parsed_i64`]).
pub fn parse_i64(s: &str) -> (r: Option<i64>)
    ensures
        r == parsed_i64(s@),
{
    let n = s.unicode_len();
    if n == 0 {
        return None;
    }
    let first = s.get_char(0);
    assert(first == s@[0]);
    let neg = first == '-';
    let start: usize = if first == '-' || first == '+' { 1 } else { 0 };
    let ghost d = if first == '-' || first == '+' { s@.drop_first() } else { s@ };
    if start == n {
        return None;
    }
    let mut acc: u64 = 0;
    let mut i: usize = start;
    while i < n
        invariant
            n == s@.len(),
            start <= i <= n,
            d == s@.subrange(start as int, n as int),
            d == (if s@[0] == '-' || s@[0] == '+' { s@.drop_first() } else { s@ }),
            neg == (s@[0] == '-'),
            forall|k: int| 0 <= k < i - start ==> is_digit(d[k]),
            acc == digits_value(d, i - start),
        decreases n - i,
    {
        let c = s.get_char(i);
        assert(d[i - start] == c);
        if !('0' <= c && c <= '9') {
            assert(!all_digits(d)) by {
                assert(d[i - start] == c);
            }
            assert(d.len() > 0);
            return None;
        }
        assert(digits_value(d, i - start + 1) == digits_value(d, i - start) * 10 + ((c as u32) - ('0' as u32)));
        let digit: u64 = (c as u32 - '0' as u32) as u64;
        let next = match acc.checked_mul(10) {
            Some(t) => t.checked_add(digit),
            None => None,
        };
        match next {
            Some(v) => {
                acc = v;
            },
            None => {
                proof {
                    assert(digits_value(d, i - start + 1) > u64::MAX);
                    if all_digits(d) {
                        lemma_digits_monotone(d, i - start + 1, d.len() as int);
                    }
                }
                return None;
            },
        }
        i += 1;
    }
    assert(all_digits(d));
    if neg {
        if acc > 9223372036854775808u64 {
            None
        } else {
            Some((0i128 - acc as i128) as i64)
        }
    } else {
        if acc > 9223372036854775807u64 {
            None
        } else {
            Some(acc as i64)
        }
    }
}

} // verus!
