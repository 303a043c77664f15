//! Local crash reports: the text rules.
//!
//! Reports are written by the shell (file system, panic hook); this module decides what goes in
//! them and in which order they sort. Free text is cut to a byte budget on a character boundary
//! and redacted: IP addresses and long hexadecimal identifiers (keys, fingerprints, device ids
//! beyond an 8-character prefix) are removed, and the user's home directory becomes `~`.

use vstd::prelude::*;
use vstd::utf8::*;
use crate::text::{
    chars_of, decimal, digit_char, hex_digit, is_hex_digit, push_char, push_zero_padded,
    zero_padded,
};

verus! {

/// Longest message kept in a report, in bytes.
pub const MAX_MESSAGE: usize = 4096;
/// Longest backtrace kept in a report, in bytes.
pub const MAX_BACKTRACE: usize = 16384;



/// The last character boundary of `bytes` at or before byte `max`.
pub open spec fn boundary_at_most(bytes: Seq<u8>, max: int) -> int
    decreases max,
{
    if max <= 0 {
        0
    } else if is_char_boundary(bytes, max) {
        max
    } else {
        boundary_at_most(bytes, max - 1)
    }
}

/// What [`truncate`] keeps of `s`: the longest run of whole leading characters that fits in
/// `max` bytes.
pub open spec fn kept_prefix(s: Seq<char>, max: int) -> Seq<char> {
    decode_utf8(encode_utf8(s).subrange(0, boundary_at_most(encode_utf8(s), max)))
}

/// The ellipsis that marks cut text.
pub open spec fn ellipsis() -> char {
    '\u{2026}'
}

/// `s` cut to at most `max` bytes on a character boundary, followed by an ellipsis when
/// anything was cut.
pub fn truncate(s: &str, max: usize) -> (r: String)
    requires
        encode_utf8(s@).len() <= usize::MAX,
    ensures
        encode_utf8(s@).len() <= max ==> r@ == s@,
        encode_utf8(s@).len() > max ==> r@ == kept_prefix(s@, max as int).push(ellipsis()),
{
    if s.len() <= max {
        return s.to_owned();
    }
    let ghost b = encode_utf8(s@);
    proof {
        encode_utf8_valid_utf8(s@);
        is_char_boundary_start_end_of_seq(b);
    }
    let mut end = max;
    while !s.is_char_boundary(end)
        invariant
            b == encode_utf8(s@),
            b == encode_utf8(s@),
            valid_utf8(b),
            is_char_boundary(b, 0),
            end <= max < b.len(),
            boundary_at_most(b, max as int) == boundary_at_most(b, end as int),
        decreases end,
    {
        end = end - 1;
    }
    let (head, _rest) = s.split_at(end);
    proof {
        encode_utf8_decode_utf8(head@);
        assert(head@ == decode_utf8(b.subrange(0, end as int)));
    }
    let mut r = head.to_owned();
    push_char(&mut r, '\u{2026}');
    r
}

/// The last character boundary at or before `max` is a character boundary, and lies in
/// `0..=max`.
proof fn lemma_boundary_at_most(bytes: Seq<u8>, max: int)
    requires
        valid_utf8(bytes),
        max <= bytes.len(),
    ensures
        is_char_boundary(bytes, boundary_at_most(bytes, max)),
        0 <= boundary_at_most(bytes, max),
        max >= 0 ==> boundary_at_most(bytes, max) <= max,
    decreases max,
{
    is_char_boundary_start_end_of_seq(bytes);
    if max > 0 && !is_char_boundary(bytes, max) {
        lemma_boundary_at_most(bytes, max - 1);
    }
}

/// Cutting keeps whole characters: what is kept is a prefix of the text, and its encoding fits
/// in the byte budget.
pub proof fn lemma_truncation_keeps_a_prefix(s: Seq<char>, max: nat)
    ensures
        kept_prefix(s, max as int).len() <= s.len(),
        kept_prefix(s, max as int) == s.subrange(0, kept_prefix(s, max as int).len() as int),
        encode_utf8(kept_prefix(s, max as int)).len() <= max,
{
    let b = encode_utf8(s);
    encode_utf8_valid_utf8(s);
    encode_utf8_decode_utf8(s);
    let m: int = if max > b.len() {
        b.len() as int
    } else {
        max as int
    };
    lemma_boundary_at_most(b, m);
    let end = boundary_at_most(b, max as int);
    assert(end == boundary_at_most(b, m)) by {
        lemma_boundary_beyond_end(b, max as int);
    }
    decode_utf8_split(b, end);
    valid_utf8_split(b, end);
    decode_utf8_encode_utf8(b.subrange(0, end));
    let k = kept_prefix(s, max as int);
    assert(s == k + decode_utf8(b.subrange(end, b.len() as int)));
    assert(k == s.subrange(0, k.len() as int));
}

/// Beyond the end of the bytes, the last boundary is the end itself.
proof fn lemma_boundary_beyond_end(bytes: Seq<u8>, max: int)
    requires
        valid_utf8(bytes),
    ensures
        boundary_at_most(bytes, max) == boundary_at_most(
            bytes,
            if max > bytes.len() {
                bytes.len() as int
            } else {
                max
            },
        ),
    decreases max,
{
    is_char_boundary_start_end_of_seq(bytes);
    if max > bytes.len() {
        assert(!is_char_boundary(bytes, max));
        lemma_boundary_beyond_end(bytes, max - 1);
    }
}

/// Value of a run of decimal digits.
pub open spec fn digits_value(t: Seq<char>) -> int
    decreases t.len(),
{
    if t.len() == 0 {
        0
    } else {
        digits_value(t.drop_last()) * 10 + (t.last() as int - '0' as int)
    }
}

pub open spec fn is_digit(c: char) -> bool {
    '0' <= c && c <= '9'
}

pub open spec fn all_digits(d: Seq<char>) -> bool {
    forall|i: int| 0 <= i < d.len() ==> is_digit(#[trigger] d[i])
}

/// The digits of a decimal number, after an optional `+`.
pub open spec fn unsigned_digits(t: Seq<char>) -> Seq<char> {
    if t.len() > 0 && t[0] == '+' {
        t.drop_first()
    } else {
        t
    }
}

/// What `str::parse::<u64>` gives: the value of an optional `+` followed by one or more decimal
/// digits, when it fits in 64 bits.
pub open spec fn parse_u64(t: Seq<char>) -> Option<u64> {
    let d = unsigned_digits(t);
    if d.len() > 0 && all_digits(d) && digits_value(d) <= u64::MAX {
        Some(digits_value(d) as u64)
    } else {
        None
    }
}

/// Parse a decimal `u64` as `str::parse::<u64>` does.
pub fn parse_u64_chars(t: &[char]) -> (r: Option<u64>)
    ensures
        r == parse_u64(t@),
{
    let start: usize = if t.len() > 0 && t[0] == '+' {
        1
    } else {
        0
    };
    let ghost d = unsigned_digits(t@);
    assert(d == t@.subrange(start as int, t@.len() as int));
    if start == t.len() {
        return None;
    }
    let mut v: u64 = 0;
    let mut i: usize = start;
    while i < t.len()
        invariant
            start <= i <= t@.len(),
            d == unsigned_digits(t@),
            d == t@.subrange(start as int, t@.len() as int),
            forall|j: int| start <= j < i ==> is_digit(t@[j]),
            v == digits_value(t@.subrange(start as int, i as int)),
        decreases t@.len() - i,
    {
        let c = t[i];
        proof {
            assert(t@.subrange(start as int, i + 1).drop_last() =~= t@.subrange(start as int, i as int));
        }
        if !('0' <= c && c <= '9') {
            proof {
                let w = i - start;
                assert(d[w] == t@[i as int]);
                assert(!is_digit(d[w]));
                assert(!all_digits(d));
            }
            return None;
        }
        let digit = (c as u32 - '0' as u32) as u64;
        if v > (u64::MAX - digit) / 10 {
            proof {
                lemma_digits_value_grows(t@.subrange(start as int, t@.len() as int), (i - start) as int);
                assert(t@.subrange(start as int, t@.len() as int).subrange(0, i + 1 - start) =~= t@.subrange(start as int, i + 1));
                assert(v * 10 + digit > u64::MAX) by (nonlinear_arith)
                    requires v > (u64::MAX - digit) / 10, digit <= 9;
                assert(digits_value(t@.subrange(start as int, i + 1)) == v * 10 + digit);
                if all_digits(d) {
                    assert(digits_value(d) > u64::MAX);
                }
            }
            return None;
        }
        assert(v * 10 + digit <= u64::MAX) by (nonlinear_arith)
            requires v <= (u64::MAX - digit) / 10, digit <= 9;
        v = v * 10 + digit;
        i = i + 1;
    }
    assert(t@.subrange(start as int, i as int) =~= d);
    Some(v)
}

/// A number only grows as digits are added.
proof fn lemma_digits_value_grows(d: Seq<char>, k: int)
    requires
        0 <= k < d.len(),
        forall|i: int| 0 <= i <= k ==> is_digit(d[i]),
    ensures
        digits_value(d.subrange(0, k + 1)) <= digits_value(d) || exists|i: int|
            k < i < d.len() && !is_digit(d[i]),
    decreases d.len(),
{
    if k + 1 < d.len() {
        if forall|i: int| k < i < d.len() ==> is_digit(d[i]) {
            assert(d.drop_last().subrange(0, k + 1) =~= d.subrange(0, k + 1));
            lemma_digits_value_grows(d.drop_last(), k);
            lemma_digits_nonneg(d.drop_last());
        }
    } else {
        assert(d.subrange(0, k + 1) =~= d);
    }
}

proof fn lemma_digits_nonneg(d: Seq<char>)
    requires
        forall|i: int| 0 <= i < d.len() ==> is_digit(d[i]),
    ensures
        digits_value(d) >= 0,
    decreases d.len(),
{
    if d.len() > 0 {
        lemma_digits_nonneg(d.drop_last());
    }
}

/// Index of the first `c` in `s`, or its length when there is none.
pub open spec fn first_of(s: Seq<char>, c: char) -> int
    decreases s.len(),
{
    if s.len() == 0 || s[0] == c {
        0
    } else {
        1 + first_of(s.drop_first(), c)
    }
}

/// The timestamp a report's name embeds: its second `-`-separated field, read as a decimal
/// number; 0 when there is none or it is not one.
pub open spec fn report_stamp(name: Seq<char>) -> u64 {
    let i = first_of(name, '-');
    if i >= name.len() {
        0
    } else {
        let rest = name.subrange(i + 1, name.len() as int);
        match parse_u64(rest.subrange(0, first_of(rest, '-'))) {
            Some(v) => v,
            None => 0,
        }
    }
}

proof fn lemma_first_of(s: Seq<char>, c: char)
    ensures
        0 <= first_of(s, c) <= s.len(),
        first_of(s, c) < s.len() ==> s[first_of(s, c)] == c,
        forall|j: int| 0 <= j < first_of(s, c) ==> s[j] != c,
    decreases s.len(),
{
    if s.len() > 0 && s[0] != c {
        lemma_first_of(s.drop_first(), c);
        assert forall|j: int| 0 <= j < first_of(s, c) implies s[j] != c by {
            if j > 0 {
                assert(s[j] == s.drop_first()[j - 1]);
            }
        }
    }
}

/// Index of the first `c` in `s` at or after `from`, or its length when there is none.
fn find_char(s: &Vec<char>, c: char, from: usize) -> (r: usize)
    requires
        from <= s@.len(),
    ensures
        r == from + first_of(s@.subrange(from as int, s@.len() as int), c),
        from <= r <= s@.len(),
{
    let ghost t = s@.subrange(from as int, s@.len() as int);
    proof {
        lemma_first_of(t, c);
    }
    let mut i = from;
    while i < s.len() && s[i] != c
        invariant
            from <= i <= s@.len(),
            t == s@.subrange(from as int, s@.len() as int),
            0 <= first_of(t, c) <= t.len(),
            first_of(t, c) < t.len() ==> t[first_of(t, c)] == c,
            forall|j: int| 0 <= j < first_of(t, c) ==> t[j] != c,
            forall|j: int| from <= j < i ==> s@[j] != c,
        decreases s@.len() - i,
    {
        i = i + 1;
    }
    proof {
        if first_of(t, c) < i - from {
            assert(t[first_of(t, c)] == s@[from + first_of(t, c)]);
        }
        if i < s@.len() {
            assert(t[i - from] == s@[i as int]);
        }
    }
    i
}

/// Sort key of a report: the timestamp its name embeds, then the name itself, so reports of
/// both kinds order by time and two reports from the same second stay apart.
pub fn order(name: &str) -> (r: (u64, &str))
    ensures
        r.0 == report_stamp(name@),
        r.1 == name,
{
    let cs = chars_of(name);
    let i = find_char(&cs, '-', 0);
    assert(cs@.subrange(0, cs@.len() as int) =~= cs@);
    if i >= cs.len() {
        return (0, name);
    }
    let j = find_char(&cs, '-', i + 1);
    let mut field: Vec<char> = Vec::new();
    let mut k = i + 1;
    while k < j
        invariant
            i + 1 <= k <= j <= cs@.len(),
            field@ == cs@.subrange(i + 1, k as int),
        decreases j - k,
    {
        field.push(cs[k]);
        k = k + 1;
    }
    proof {
        let rest = cs@.subrange(i + 1, cs@.len() as int);
        assert(rest.subrange(0, first_of(rest, '-')) =~= field@);
    }
    let stamp = match parse_u64_chars(field.as_slice()) {
        Some(v) => v,
        None => 0,
    };
    (stamp, name)
}

/// How reports and minidumps are named: `<kind>` (which ends in `-`), the second they were
/// written in with at least 12 digits, `-`, and the writing process's id with at least 8 digits.
pub open spec fn report_base(kind: Seq<char>, now: u64, pid: u32) -> Seq<char> {
    kind + zero_padded(now as nat, 12) + seq!['-'] + zero_padded(pid as nat, 8)
}

/// Base name shared by a crash note and its minidump, for a crash the panic hook cannot see.
pub fn crash_stem(now: u64, pid: u32) -> (r: String)
    ensures
        r@ == report_base("crash-"@, now, pid),
{
    let mut out = "crash-".to_owned();
    push_zero_padded(&mut out, now, 12);
    push_char(&mut out, '-');
    push_zero_padded(&mut out, pid as u64, 8);
    out
}

/// File name of the report the panic hook writes.
pub fn panic_report_name(now: u64, pid: u32) -> (r: String)
    ensures
        r@ == report_base("panic-"@, now, pid) + ".txt"@,
{
    let mut out = "panic-".to_owned();
    push_zero_padded(&mut out, now, 12);
    push_char(&mut out, '-');
    push_zero_padded(&mut out, pid as u64, 8);
    out.append(".txt");
    out
}

proof fn lemma_first_of_concat(a: Seq<char>, b: Seq<char>, c: char)
    ensures
        first_of(a + b, c) == if first_of(a, c) < a.len() {
            first_of(a, c)
        } else {
            a.len() + first_of(b, c)
        },
    decreases a.len(),
{
    lemma_first_of(a, c);
    if a.len() == 0 {
        assert(a + b =~= b);
    } else if a[0] == c {
        assert((a + b)[0] == c);
    } else {
        assert((a + b).drop_first() =~= a.drop_first() + b);
        lemma_first_of_concat(a.drop_first(), b, c);
    }
}

proof fn lemma_decimal_digits(n: nat)
    ensures
        decimal(n).len() >= 1,
        all_digits(decimal(n)),
        digits_value(decimal(n)) == n,
    decreases n,
{
    if n >= 10 {
        lemma_decimal_digits(n / 10);
        let d = decimal(n);
        assert(d.drop_last() =~= decimal(n / 10));
        assert(d.last() == digit_char(n % 10));
        assert(digit_char(n % 10) as int - '0' as int == n % 10);
        assert(digits_value(d) == digits_value(decimal(n / 10)) * 10 + n % 10);
        assert((n / 10) * 10 + n % 10 == n);
    } else {
        let d = decimal(n);
        assert(d.drop_last() =~= Seq::<char>::empty());
        assert(digits_value(d.drop_last()) == 0);
        assert(d.last() == digit_char(n));
        assert(digit_char(n) as int - '0' as int == n);
        assert(is_digit(d[0]));
    }
}

proof fn lemma_leading_zeros(k: nat, d: Seq<char>)
    requires
        all_digits(d),
    ensures
        all_digits(Seq::new(k, |i: int| '0') + d),
        digits_value(Seq::new(k, |i: int| '0') + d) == digits_value(d),
    decreases d.len() + k,
{
    let z = Seq::new(k, |i: int| '0');
    if d.len() == 0 {
        assert(z + d =~= z);
        if k > 0 {
            assert(z.drop_last() =~= Seq::new((k - 1) as nat, |i: int| '0'));
            lemma_leading_zeros((k - 1) as nat, d);
            assert(Seq::new((k - 1) as nat, |i: int| '0') + d =~= z.drop_last());
        }
    } else {
        assert((z + d).drop_last() =~= z + d.drop_last());
        lemma_leading_zeros(k, d.drop_last());
    }
}

proof fn lemma_padded_parses(n: u64, width: nat)
    ensures
        zero_padded(n as nat, width).len() >= 1,
        all_digits(zero_padded(n as nat, width)),
        parse_u64(zero_padded(n as nat, width)) == Some(n),
{
    let d = decimal(n as nat);
    lemma_decimal_digits(n as nat);
    let p = zero_padded(n as nat, width);
    if d.len() < width {
        lemma_leading_zeros((width - d.len()) as nat, d);
    }
    assert(is_digit(p[0]));
    assert(unsigned_digits(p) == p);
}

proof fn lemma_stamp_of_kind(kind: Seq<char>, now: u64, pid: u32)
    requires
        kind.len() == 6,
        kind[5] == '-',
        forall|i: int| 0 <= i < 5 ==> kind[i] != '-',
    ensures
        report_stamp(report_base(kind, now, pid) + ".txt"@) == now,
{
    let p = zero_padded(now as nat, 12);
    let q = zero_padded(pid as nat, 8);
    lemma_padded_parses(now, 12);
    lemma_first_of(p, '-');
    let tail = seq!['-'] + q + ".txt"@;
    assert(first_of(tail, '-') == 0);
    lemma_first_of_concat(p, tail, '-');
    let rest = p + tail;
    assert(rest.subrange(0, p.len() as int) =~= p);
    let name = report_base(kind, now, pid) + ".txt"@;
    let head = kind.subrange(0, 5);
    assert(name =~= head + (seq!['-'] + rest));
    lemma_first_of(head, '-');
    assert(first_of(seq!['-'] + rest, '-') == 0);
    lemma_first_of_concat(head, seq!['-'] + rest, '-');
    assert(name.subrange(6, name.len() as int) =~= rest);
}

/// A report's name carries the second it was written in, whichever kind it is: reports order
/// by when they were written. Both kinds are recognized as reports.
pub proof fn lemma_report_names_carry_their_time(now: u64, pid: u32)
    ensures
        report_stamp(report_base("crash-"@, now, pid) + ".txt"@) == now,
        report_stamp(report_base("panic-"@, now, pid) + ".txt"@) == now,
        is_report_name(report_base("crash-"@, now, pid) + ".txt"@),
        is_report_name(report_base("panic-"@, now, pid) + ".txt"@),
{
    reveal_strlit("crash-");
    reveal_strlit("panic-");
    reveal_strlit(".txt");
    lemma_stamp_of_kind("crash-"@, now, pid);
    lemma_stamp_of_kind("panic-"@, now, pid);
    let c = report_base("crash-"@, now, pid) + ".txt"@;
    let p = report_base("panic-"@, now, pid) + ".txt"@;
    assert(c.subrange(0, 6) =~= "crash-"@);
    assert(p.subrange(0, 6) =~= "panic-"@);
    assert(c.subrange(c.len() - 4, c.len() as int) =~= ".txt"@);
    assert(p.subrange(p.len() - 4, p.len() as int) =~= ".txt"@);
}

/// A character that can belong to an address or a hexadecimal identifier.
pub open spec fn token_char(c: char) -> bool {
    hex_digit(c) || c == '.' || c == ':'
}

pub open spec fn sep_char(c: char) -> bool {
    c == '.' || c == ':'
}

/// Number of separators (`.`, `:`) a token starts with.
pub open spec fn lead_len(t: Seq<char>) -> int
    decreases t.len(),
{
    if t.len() > 0 && sep_char(t[0]) {
        1 + lead_len(t.drop_first())
    } else {
        0
    }
}

/// Number of separators a token ends with.
pub open spec fn trail_len(t: Seq<char>) -> int
    decreases t.len(),
{
    if t.len() > 0 && sep_char(t.last()) {
        1 + trail_len(t.drop_last())
    } else {
        0
    }
}

/// Occurrences of `c` in `s`.
pub open spec fn count_char(s: Seq<char>, c: char) -> int
    decreases s.len(),
{
    if s.len() == 0 {
        0
    } else {
        count_char(s.drop_last(), c) + if s.last() == c {
            1int
        } else {
            0
        }
    }
}


/// Reading `h` from the start, with `parts` dots seen and `cur` digits in the current part:
/// does the rest complete four dot-separated groups of one to three decimal digits?
pub open spec fn quad_from(h: Seq<char>, parts: int, cur: int) -> bool
    decreases h.len(),
{
    if h.len() == 0 {
        parts == 3 && 1 <= cur <= 3
    } else if h[0] == '.' {
        1 <= cur <= 3 && parts < 3 && quad_from(h.drop_first(), parts + 1, 0)
    } else if is_digit(h[0]) {
        cur < 3 && quad_from(h.drop_first(), parts, cur + 1)
    } else {
        false
    }
}

/// `a.b.c.d` with one to three digits in each group.
pub open spec fn dotted_quad(h: Seq<char>) -> bool {
    quad_from(h, 0, 0)
}

pub open spec fn all_hex(s: Seq<char>) -> bool {
    forall|i: int| 0 <= i < s.len() ==> hex_digit(#[trigger] s[i])
}

pub open spec fn ip_mark() -> Seq<char> {
    seq!['<', 'i', 'p', '>']
}

/// A token without its leading and trailing separators, redacted: an IPv4 address (with or
/// without a port) or an IPv6 address becomes `<ip>`, a hexadecimal run of 16 or more digits
/// keeps its first 8 and an ellipsis, anything else stays.
pub open spec fn redact_core(t: Seq<char>) -> Seq<char> {
    let colons = count_char(t, ':');
    let host = if colons == 1 {
        t.subrange(0, first_of(t, ':'))
    } else {
        t
    };
    let is_ipv4 = dotted_quad(host);
    let is_ipv6 = colons >= 2 && t.len() >= 6;
    let hex_run = t.len() >= 16 && all_hex(t);
    if is_ipv4 || is_ipv6 {
        ip_mark()
    } else if hex_run {
        t.subrange(0, 8).push(ellipsis())
    } else {
        t
    }
}

/// A whole token, redacted; the separators around it stay.
pub open spec fn flush(t: Seq<char>) -> Seq<char> {
    let lead = lead_len(t);
    if lead >= t.len() {
        t
    } else {
        let end = t.len() - trail_len(t);
        t.subrange(0, lead) + redact_core(t.subrange(lead, end)) + t.subrange(end, t.len() as int)
    }
}

/// Redaction of `text` when `token` holds the token characters read just before it.
pub open spec fn redact_run(text: Seq<char>, token: Seq<char>) -> Seq<char>
    decreases text.len(),
{
    if text.len() == 0 {
        flush(token)
    } else if token_char(text[0]) {
        redact_run(text.drop_first(), token.push(text[0]))
    } else {
        flush(token) + seq![text[0]] + redact_run(text.drop_first(), seq![])
    }
}

/// `text` with addresses and long hexadecimal identifiers redacted, token by token: a token is
/// a maximal run of hexadecimal digits, dots and colons.
pub open spec fn redact_text(text: Seq<char>) -> Seq<char> {
    redact_run(text, seq![])
}

/// Appends `cs[from..to]` to `out`.
fn push_range(out: &mut String, cs: &Vec<char>, from: usize, to: usize)
    requires
        from <= to <= cs@.len(),
    ensures
        final(out)@ == old(out)@ + cs@.subrange(from as int, to as int),
{
    let ghost start = out@;
    let mut i = from;
    while i < to
        invariant
            from <= i <= to <= cs@.len(),
            out@ == start + cs@.subrange(from as int, i as int),
        decreases to - i,
    {
        push_char(out, cs[i]);
        assert(cs@.subrange(from as int, i + 1) =~= cs@.subrange(from as int, i as int).push(cs@[i as int]));
        i = i + 1;
    }
}

proof fn lemma_lead_len(t: Seq<char>, k: int)
    requires
        0 <= k <= t.len(),
        forall|j: int| 0 <= j < k ==> sep_char(#[trigger] t[j]),
        k < t.len() ==> !sep_char(t[k]),
    ensures
        lead_len(t) == k,
    decreases k,
{
    if k > 0 {
        let d = t.drop_first();
        assert forall|j: int| 0 <= j < k - 1 implies sep_char(#[trigger] d[j]) by {
            assert(d[j] == t[j + 1]);
        }
        if k - 1 < d.len() {
            assert(d[k - 1] == t[k]);
        }
        lemma_lead_len(d, k - 1);
        assert(sep_char(t[0]));
    }
}

proof fn lemma_trail_len(t: Seq<char>, m: int)
    requires
        0 <= m <= t.len(),
        forall|j: int| m <= j < t.len() ==> sep_char(#[trigger] t[j]),
        m > 0 ==> !sep_char(t[m - 1]),
    ensures
        trail_len(t) == t.len() - m,
    decreases t.len() - m,
{
    if m < t.len() {
        let d = t.drop_last();
        assert(sep_char(t[t.len() - 1]));
        assert forall|j: int| m <= j < d.len() implies sep_char(#[trigger] d[j]) by {
            assert(d[j] == t[j]);
        }
        if m > 0 {
            assert(d[m - 1] == t[m - 1]);
        }
        lemma_trail_len(d, m);
    }
}

/// Occurrences of `c` in `s`.
fn count_of(s: &Vec<char>, c: char) -> (r: usize)
    ensures
        r == count_char(s@, c),
{
    let mut n: usize = 0;
    let mut i: usize = 0;
    while i < s.len()
        invariant
            i <= s@.len(),
            n == count_char(s@.subrange(0, i as int), c),
            n <= i,
        decreases s@.len() - i,
    {
        assert(s@.subrange(0, i + 1).drop_last() =~= s@.subrange(0, i as int));
        if s[i] == c {
            n = n + 1;
        }
        i = i + 1;
    }
    assert(s@.subrange(0, s@.len() as int) =~= s@);
    n
}

/// `h[..end]` is four dot-separated groups of one to three digits.
fn is_dotted_quad(h: &Vec<char>, end: usize) -> (r: bool)
    requires
        end <= h@.len(),
    ensures
        r == dotted_quad(h@.subrange(0, end as int)),
{
    let ghost w = h@.subrange(0, end as int);
    let mut parts: usize = 0;
    let mut cur: usize = 0;
    let mut i: usize = 0;
    assert(w.subrange(0, end as int) =~= w);
    while i < end
        invariant
            i <= end <= h@.len(),
            w == h@.subrange(0, end as int),
            parts <= 3,
            cur <= 3,
            dotted_quad(w) == quad_from(w.subrange(i as int, end as int), parts as int, cur as int),
        decreases end - i,
    {
        let c = h[i];
        let ghost rest = w.subrange(i as int, end as int);
        assert(rest[0] == c);
        assert(rest.drop_first() =~= w.subrange(i + 1, end as int));
        if c == '.' {
            if !(1 <= cur && cur <= 3 && parts < 3) {
                return false;
            }
            parts = parts + 1;
            cur = 0;
        } else if '0' <= c && c <= '9' {
            if cur >= 3 {
                return false;
            }
            cur = cur + 1;
        } else {
            return false;
        }
        i = i + 1;
    }
    parts == 3 && 1 <= cur && cur <= 3
}

/// Every character of `s` is a hexadecimal digit.
fn all_hex_chars(s: &Vec<char>) -> (r: bool)
    ensures
        r == all_hex(s@),
{
    let mut i: usize = 0;
    while i < s.len()
        invariant
            i <= s@.len(),
            forall|j: int| 0 <= j < i ==> hex_digit(#[trigger] s@[j]),
        decreases s@.len() - i,
    {
        if !is_hex_digit(s[i]) {
            return false;
        }
        i = i + 1;
    }
    true
}

/// Appends the redaction of a token core (no leading or trailing separators) to `out`.
fn push_redacted_core(out: &mut String, t: &Vec<char>)
    ensures
        final(out)@ == old(out)@ + redact_core(t@),
{
    let colons = count_of(t, ':');
    let host_end = if colons == 1 {
        let e = find_char(t, ':', 0);
        assert(t@.subrange(0, t@.len() as int) =~= t@);
        e
    } else {
        t.len()
    };
    assert(colons != 1 ==> t@.subrange(0, host_end as int) =~= t@);
    let is_ipv4 = is_dotted_quad(t, host_end);
    let is_ipv6 = colons >= 2 && t.len() >= 6;
    if is_ipv4 || is_ipv6 {
        let ghost start = out@;
        push_char(out, '<');
        push_char(out, 'i');
        push_char(out, 'p');
        push_char(out, '>');
        assert(out@ =~= start + ip_mark());
    } else if t.len() >= 16 && all_hex_chars(t) {
        push_range(out, t, 0, 8);
        push_char(out, '\u{2026}');
        assert(old(out)@ + t@.subrange(0, 8).push(ellipsis()) =~= (old(out)@ + t@.subrange(0, 8)).push(ellipsis()));
    } else {
        push_range(out, t, 0, t.len());
        assert(t@.subrange(0, t@.len() as int) =~= t@);
    }
}

/// Appends a token to `out`, redacted; the separators around it stay.
fn push_flushed(t: &Vec<char>, out: &mut String)
    ensures
        final(out)@ == old(out)@ + flush(t@),
{
    let n = t.len();
    let mut k: usize = 0;
    while k < n && (t[k] == '.' || t[k] == ':')
        invariant
            k <= n == t@.len(),
            forall|j: int| 0 <= j < k ==> sep_char(#[trigger] t@[j]),
        decreases n - k,
    {
        k = k + 1;
    }
    proof {
        lemma_lead_len(t@, k as int);
    }
    if k >= n {
        push_range(out, t, 0, n);
        assert(t@.subrange(0, n as int) =~= t@);
        return;
    }
    let mut m: usize = n;
    while m > k && (t[m - 1] == '.' || t[m - 1] == ':')
        invariant
            k < m <= n == t@.len(),
            !sep_char(t@[k as int]),
            forall|j: int| m <= j < n ==> sep_char(#[trigger] t@[j]),
        decreases m,
    {
        m = m - 1;
    }
    proof {
        lemma_trail_len(t@, m as int);
    }
    let mut core: Vec<char> = Vec::new();
    let mut i = k;
    while i < m
        invariant
            k <= i <= m <= t@.len(),
            core@ == t@.subrange(k as int, i as int),
        decreases m - i,
    {
        core.push(t[i]);
        i = i + 1;
    }
    let ghost start = out@;
    push_range(out, t, 0, k);
    push_redacted_core(out, &core);
    push_range(out, t, m, n);
    assert(out@ =~= start + flush(t@));
}

/// Appends the token gathered so far to `out`, redacted, and empties it for the next one.
pub fn flush_token(token: &mut Vec<char>, out: &mut String)
    ensures
        final(out)@ == old(out)@ + flush(old(token)@),
        final(token)@.len() == 0,
{
    push_flushed(token, out);
    token.clear();
}

/// `text` with IP addresses and long hexadecimal identifiers redacted (see [`redact_text`]).
pub fn redact_tokens(text: &str) -> (r: String)
    ensures
        r@ == redact_text(text@),
{
    let cs = chars_of(text);
    let n = cs.len();
    let mut out = String::new();
    let mut token: Vec<char> = Vec::new();
    let mut i: usize = 0;
    assert(cs@.subrange(0, n as int) =~= cs@);
    assert(token@ =~= Seq::<char>::empty());
    assert(out@ + redact_run(cs@, token@) =~= redact_run(cs@, token@));
    while i < n
        invariant
            i <= n == cs@.len(),
            out@ + redact_run(cs@.subrange(i as int, n as int), token@) == redact_text(cs@),
        decreases n - i,
    {
        let c = cs[i];
        let ghost rest = cs@.subrange(i as int, n as int);
        assert(rest[0] == c);
        assert(rest.drop_first() =~= cs@.subrange(i + 1, n as int));
        if is_hex_digit(c) || c == '.' || c == ':' {
            token.push(c);
        } else {
            let ghost t0 = token@;
            let ghost before = out@;
            flush_token(&mut token, &mut out);
            push_char(&mut out, c);
            assert(token@ =~= Seq::<char>::empty());
            assert(out@ + redact_run(cs@.subrange(i + 1, n as int), token@) =~= before
                + redact_run(rest, t0));
        }
        i = i + 1;
    }
    flush_token(&mut token, &mut out);
    assert(cs@.subrange(n as int, n as int) =~= Seq::<char>::empty());
    out
}

/// `s` with every occurrence of `p`, taken left to right without overlap, replaced by `w`
/// (what `str::replace` does).
pub open spec fn replace_all(s: Seq<char>, p: Seq<char>, w: Seq<char>) -> Seq<char>
    decreases s.len(),
{
    if p.len() == 0 || s.len() < p.len() {
        s
    } else if s.subrange(0, p.len() as int) == p {
        w + replace_all(s.subrange(p.len() as int, s.len() as int), p, w)
    } else {
        seq![s[0]] + replace_all(s.drop_first(), p, w)
    }
}

/// `text` with each home directory in `homes` (in order) replaced by `~`; a home of three
/// bytes or fewer is left alone.
pub open spec fn strip_homes(text: Seq<char>, homes: Seq<Seq<char>>) -> Seq<char>
    decreases homes.len(),
{
    if homes.len() == 0 {
        text
    } else {
        let t = if encode_utf8(homes[0]).len() > 3 {
            replace_all(text, homes[0], seq!['~'])
        } else {
            text
        };
        strip_homes(t, homes.drop_first())
    }
}

/// `p` occurs in `s` at `i`.
fn occurs_at(s: &Vec<char>, p: &Vec<char>, i: usize) -> (r: bool)
    requires
        i <= s@.len(),
    ensures
        r == (i + p@.len() <= s@.len() && s@.subrange(i as int, i + p@.len()) == p@),
{
    if p.len() > s.len() - i {
        return false;
    }
    let mut j: usize = 0;
    while j < p.len()
        invariant
            j <= p@.len(),
            i + p@.len() <= s@.len(),
            s@.len() == s.len(),
            forall|k: int| 0 <= k < j ==> s@[i + k] == p@[k],
        decreases p@.len() - j,
    {
        if s[i + j] != p[j] {
            assert(s@.subrange(i as int, i + p@.len())[j as int] != p@[j as int]);
            return false;
        }
        j = j + 1;
    }
    assert(s@.subrange(i as int, i + p@.len()) =~= p@);
    true
}

/// `s` with every occurrence of `p` replaced by `w` (see [`replace_all`]).
fn replace_chars(s: &Vec<char>, p: &Vec<char>, w: &Vec<char>) -> (r: Vec<char>)
    ensures
        r@ == replace_all(s@, p@, w@),
{
    let n = s.len();
    let mut out: Vec<char> = Vec::new();
    let mut i: usize = 0;
    assert(s@.subrange(0, n as int) =~= s@);
    while i < n
        invariant
            i <= n == s@.len(),
            out@ + replace_all(s@.subrange(i as int, n as int), p@, w@) == replace_all(s@, p@, w@),
        decreases n - i,
    {
        let ghost rest = s@.subrange(i as int, n as int);
        let ghost before = out@;
        if p.len() > 0 && occurs_at(s, p, i) {
            assert(rest.subrange(0, p@.len() as int) =~= s@.subrange(i as int, i + p@.len()));
            assert(rest.subrange(p@.len() as int, rest.len() as int) =~= s@.subrange(i + p@.len(), n as int));
            let mut j: usize = 0;
            while j < w.len()
                invariant
                    j <= w@.len(),
                    out@ == before + w@.subrange(0, j as int),
                decreases w@.len() - j,
            {
                out.push(w[j]);
                assert(w@.subrange(0, j + 1) =~= w@.subrange(0, j as int).push(w@[j as int]));
                j = j + 1;
            }
            assert(w@.subrange(0, w@.len() as int) =~= w@);
            assert(out@ + replace_all(s@.subrange(i + p@.len(), n as int), p@, w@) =~= before
                + replace_all(rest, p@, w@));
            i = i + p.len();
        } else {
            if p.len() > 0 && p.len() <= n - i {
                assert(rest.subrange(0, p@.len() as int) =~= s@.subrange(i as int, i + p@.len()));
            }
            assert(rest.drop_first() =~= s@.subrange(i + 1, n as int));
            out.push(s[i]);
            assert(out@ + replace_all(s@.subrange(i + 1, n as int), p@, w@) =~= before
                + replace_all(rest, p@, w@));
            i = i + 1;
        }
    }
    assert(out@ + replace_all(s@.subrange(n as int, n as int), p@, w@) =~= out@);
    out
}

/// Remove the user's home directories (in order), IP addresses and long hexadecimal
/// identifiers from free text.
pub fn redact(text: &str, homes: &Vec<String>) -> (r: String)
    requires
        forall|i: int| 0 <= i < homes@.len() ==> encode_utf8(#[trigger] homes@[i]@).len() <= usize::MAX,
    ensures
        r@ == redact_text(strip_homes(text@, homes@.map_values(|h: String| h@))),
{
    let ghost hs = homes@.map_values(|h: String| h@);
    let mut t = chars_of(text);
    let tilde: Vec<char> = vec!['~'];
    assert(tilde@ =~= seq!['~']);
    let mut k: usize = 0;
    assert(hs.subrange(0, hs.len() as int) =~= hs);
    while k < homes.len()
        invariant
            k <= homes@.len() == hs.len(),
            hs == homes@.map_values(|h: String| h@),
            tilde@ == seq!['~'],
            forall|i: int| 0 <= i < homes@.len() ==> encode_utf8(#[trigger] homes@[i]@).len() <= usize::MAX,
            strip_homes(t@, hs.subrange(k as int, hs.len() as int)) == strip_homes(text@, hs),
        decreases homes@.len() - k,
    {
        let home = homes[k].as_str();
        assert(hs.subrange(k as int, hs.len() as int)[0] == home@);
        assert(hs.subrange(k as int, hs.len() as int).drop_first() =~= hs.subrange(k + 1, hs.len() as int));
        if home.len() > 3 {
            let p = chars_of(home);
            t = replace_chars(&t, &p, &tilde);
        }
        k = k + 1;
    }
    let mut joined = String::new();
    let mut i: usize = 0;
    while i < t.len()
        invariant
            i <= t@.len(),
            joined@ == t@.subrange(0, i as int),
        decreases t@.len() - i,
    {
        push_char(&mut joined, t[i]);
        assert(t@.subrange(0, i + 1) =~= t@.subrange(0, i as int).push(t@[i as int]));
        i = i + 1;
    }
    assert(t@.subrange(0, t@.len() as int) =~= t@);
    redact_tokens(joined.as_str())
}

/// Text with no digit, hexadecimal letter, dot or colon passes redaction unchanged.
pub proof fn lemma_plain_text_unchanged(text: Seq<char>)
    requires
        forall|i: int| 0 <= i < text.len() ==> !token_char(#[trigger] text[i]),
    ensures
        redact_text(text) == text,
    decreases text.len(),
{
    if text.len() > 0 {
        let rest = text.drop_first();
        assert forall|i: int| 0 <= i < rest.len() implies !token_char(#[trigger] rest[i]) by {
            assert(rest[i] == text[i + 1]);
        }
        lemma_plain_text_unchanged(rest);
        assert(!token_char(text[0]));
        assert(flush(Seq::<char>::empty()) =~= Seq::<char>::empty());
        assert(redact_text(text) =~= seq![text[0]] + rest);
        assert(seq![text[0]] + rest =~= text);
    }
}

/// Reports kept on disk; older ones (and their minidumps) are deleted.
pub const KEEP: usize = 10;

/// `a` comes before `b` in lexicographic character order (the byte order of their UTF-8
/// encodings, which is how names compare).
pub open spec fn chars_lt(a: Seq<char>, b: Seq<char>) -> bool
    decreases a.len(),
{
    if a.len() == 0 {
        b.len() > 0
    } else if b.len() == 0 {
        false
    } else if a[0] != b[0] {
        a[0] < b[0]
    } else {
        chars_lt(a.drop_first(), b.drop_first())
    }
}

/// Report `a` is older than report `b`: an earlier embedded time, or the same time and a
/// smaller name.
pub open spec fn report_before(a: Seq<char>, b: Seq<char>) -> bool {
    report_stamp(a) < report_stamp(b) || (report_stamp(a) == report_stamp(b) && chars_lt(a, b))
}

pub(crate) proof fn lemma_chars_lt_asymmetric(a: Seq<char>, b: Seq<char>)
    ensures
        chars_lt(a, b) ==> !chars_lt(b, a),
    decreases a.len(),
{
    if a.len() > 0 && b.len() > 0 && a[0] == b[0] {
        lemma_chars_lt_asymmetric(a.drop_first(), b.drop_first());
    }
}

/// `a` comes before `b` in character order.
pub(crate) fn chars_less(a: &Vec<char>, b: &Vec<char>) -> (r: bool)
    ensures
        r == chars_lt(a@, b@),
{
    let mut i: usize = 0;
    assert(a@.subrange(0, a@.len() as int) =~= a@);
    assert(b@.subrange(0, b@.len() as int) =~= b@);
    while i < a.len() && i < b.len() && a[i] == b[i]
        invariant
            i <= a@.len(),
            i <= b@.len(),
            chars_lt(a@, b@) == chars_lt(a@.subrange(i as int, a@.len() as int), b@.subrange(i as int, b@.len() as int)),
        decreases a@.len() - i,
    {
        let ghost sa = a@.subrange(i as int, a@.len() as int);
        let ghost sb = b@.subrange(i as int, b@.len() as int);
        assert(sa.drop_first() =~= a@.subrange(i + 1, a@.len() as int));
        assert(sb.drop_first() =~= b@.subrange(i + 1, b@.len() as int));
        i = i + 1;
    }
    let ghost sa = a@.subrange(i as int, a@.len() as int);
    let ghost sb = b@.subrange(i as int, b@.len() as int);
    if i == a.len() {
        i < b.len()
    } else if i == b.len() {
        false
    } else {
        assert(sa[0] == a@[i as int] && sb[0] == b@[i as int]);
        a[i] < b[i]
    }
}

pub open spec fn ends_with(s: Seq<char>, suffix: Seq<char>) -> bool {
    s.len() >= suffix.len() && s.subrange(s.len() - suffix.len(), s.len() as int) == suffix
}

pub open spec fn starts_with(s: Seq<char>, prefix: Seq<char>) -> bool {
    s.len() >= prefix.len() && s.subrange(0, prefix.len() as int) == prefix
}

/// A report's text file: `panic-…` or `crash-…`, ending in `.txt`.
pub open spec fn is_report_name(n: Seq<char>) -> bool {
    (starts_with(n, "panic-"@) || starts_with(n, "crash-"@)) && ends_with(n, ".txt"@)
}

fn has_prefix(s: &Vec<char>, p: &Vec<char>) -> (r: bool)
    ensures
        r == starts_with(s@, p@),
{
    if p.len() > s.len() {
        return false;
    }
    let mut i: usize = 0;
    while i < p.len()
        invariant
            i <= p@.len() <= s@.len(),
            forall|j: int| 0 <= j < i ==> s@[j] == p@[j],
        decreases p@.len() - i,
    {
        if s[i] != p[i] {
            assert(s@.subrange(0, p@.len() as int)[i as int] != p@[i as int]);
            return false;
        }
        i = i + 1;
    }
    assert(s@.subrange(0, p@.len() as int) =~= p@);
    true
}

fn has_suffix(s: &Vec<char>, p: &Vec<char>) -> (r: bool)
    ensures
        r == ends_with(s@, p@),
{
    if p.len() > s.len() {
        return false;
    }
    let off = s.len() - p.len();
    let mut i: usize = 0;
    while i < p.len()
        invariant
            i <= p@.len(),
            off + p@.len() == s@.len(),
            s@.len() == s.len(),
            forall|j: int| 0 <= j < i ==> s@[off + j] == p@[j],
        decreases p@.len() - i,
    {
        if s[off + i] != p[i] {
            assert(s@.subrange(off as int, s@.len() as int)[i as int] != p@[i as int]);
            return false;
        }
        i = i + 1;
    }
    assert(s@.subrange(off as int, s@.len() as int) =~= p@);
    true
}

/// A report's text file: `panic-…` or `crash-…`, ending in `.txt`.
pub fn is_report(name: &str) -> (r: bool)
    ensures
        r == is_report_name(name@),
{
    let n = chars_of(name);
    let panic = chars_of("panic-");
    let crash = chars_of("crash-");
    let txt = chars_of(".txt");
    (has_prefix(&n, &panic) || has_prefix(&n, &crash)) && has_suffix(&n, &txt)
}

pub open spec fn views(v: Seq<String>) -> Seq<Seq<char>> {
    v.map_values(|s: String| s@)
}

/// The report files among the names of a folder, in the order given.
pub fn select_reports(names: Vec<String>) -> (r: Vec<String>)
    ensures
        views(r@) == views(names@).filter(|n: Seq<char>| is_report_name(n)),
{
    let ghost keep = |n: Seq<char>| is_report_name(n);
    let ghost vs = views(names@);
    let n = names.len();
    let mut out: Vec<String> = Vec::new();
    let mut i: usize = 0;
    while i < n
        invariant
            i <= n == names@.len(),
            vs == views(names@),
            keep == (|n: Seq<char>| is_report_name(n)),
            views(out@) == vs.subrange(0, i as int).filter(keep),
        decreases n - i,
    {
        let name = &names[i];
        proof {
            assert(vs.subrange(0, i + 1) =~= vs.subrange(0, i as int).push(name@));
            vs.subrange(0, i as int).lemma_filter_push(name@, keep);
        }
        if is_report(name.as_str()) {
            let ghost before = out@;
            out.push(name.clone());
            assert(views(out@) =~= views(before).push(name@));
        }
        i = i + 1;
    }
    assert(vs.subrange(0, n as int) =~= vs);
    out
}

/// Report `a` is older than report `b` (see [`report_before`]).
pub fn older_report(a: &str, b: &str) -> (r: bool)
    ensures
        r == report_before(a@, b@),
{
    let (sa, _) = order(a);
    let (sb, _) = order(b);
    if sa != sb {
        return sa < sb;
    }
    chars_less(&chars_of(a), &chars_of(b))
}

/// No report comes after one that is newer.
pub open spec fn oldest_first(s: Seq<Seq<char>>) -> bool {
    forall|i: int, j: int| 0 <= i < j < s.len() ==> !report_before(#[trigger] s[j], #[trigger] s[i])
}

/// Reports sorted oldest first, by the time their names embed (then by name).
pub fn sort_reports(names: Vec<String>) -> (r: Vec<String>)
    ensures
        views(r@).to_multiset() == views(names@).to_multiset(),
        oldest_first(views(r@)),
{
    let n = names.len();
    let ghost vs = views(names@);
    let mut out: Vec<String> = Vec::new();
    let mut i: usize = 0;
    assert(views(out@) =~= vs.subrange(0, 0));
    while i < n
        invariant
            i <= n == names@.len(),
            vs == views(names@),
            views(out@).to_multiset() == vs.subrange(0, i as int).to_multiset(),
            oldest_first(views(out@)),
        decreases n - i,
    {
        let x = &names[i];
        let mut p: usize = 0;
        while p < out.len() && !older_report(x.as_str(), out[p].as_str())
            invariant
                p <= out@.len(),
                forall|k: int| 0 <= k < p ==> !report_before(x@, #[trigger] views(out@)[k]),
            decreases out@.len() - p,
        {
            p = p + 1;
        }
        let ghost before = views(out@);
        out.insert(p, x.clone());
        proof {
            assert(views(out@) =~= before.insert(p as int, x@));
            assert(vs.subrange(0, i + 1) =~= vs.subrange(0, i as int).push(x@));
            vstd::seq_lib::to_multiset_build(vs.subrange(0, i as int), x@);
            vstd::seq_lib::to_multiset_insert(before, p as int, x@);
            let after = views(out@);
            assert forall|a: int, b: int| 0 <= a < b < after.len() implies !report_before(
                #[trigger] after[b],
                #[trigger] after[a],
            ) by {
                if a < p && b < p {
                    assert(after[a] == before[a] && after[b] == before[b]);
                } else if a < p && b == p {
                    assert(after[a] == before[a]);
                } else if a < p && b > p {
                    assert(after[a] == before[a] && after[b] == before[b - 1]);
                } else if a == p {
                    assert(after[b] == before[b - 1]);
                    assert(report_before(x@, before[p as int]));
                    if b - 1 > p {
                        assert(!report_before(before[b - 1], before[p as int]));
                    }
                    lemma_report_before_order(x@, before[p as int], before[b - 1]);
                } else {
                    assert(after[a] == before[a - 1] && after[b] == before[b - 1]);
                }
            }
        }
        i = i + 1;
    }
    assert(vs.subrange(0, n as int) =~= vs);
    out
}

/// If `x` is older than `y` and `z` is not older than `y`, then `z` is not older than `x`.
proof fn lemma_report_before_order(x: Seq<char>, y: Seq<char>, z: Seq<char>)
    requires
        report_before(x, y),
        y == z || !report_before(z, y),
    ensures
        !report_before(z, x),
{
    lemma_chars_lt_asymmetric(x, y);
    if report_before(z, x) {
        lemma_chars_lt_transitive(z, x, y);
        lemma_chars_lt_asymmetric(x, z);
    }
}

pub(crate) proof fn lemma_chars_lt_transitive(a: Seq<char>, b: Seq<char>, c: Seq<char>)
    ensures
        chars_lt(a, b) && chars_lt(b, c) ==> chars_lt(a, c),
    decreases a.len(),
{
    if a.len() > 0 && b.len() > 0 && c.len() > 0 {
        lemma_chars_lt_transitive(a.drop_first(), b.drop_first(), c.drop_first());
    }
}

/// Name of the minidump that belongs to a report.
pub open spec fn dump_of(report: Seq<char>) -> Seq<char> {
    replace_all(report, ".txt"@, ".dmp"@)
}

/// Characters into a `String`.
fn string_of(cs: &Vec<char>) -> (r: String)
    ensures
        r@ == cs@,
{
    let mut out = String::new();
    let mut i: usize = 0;
    while i < cs.len()
        invariant
            i <= cs@.len(),
            out@ == cs@.subrange(0, i as int),
        decreases cs@.len() - i,
    {
        push_char(&mut out, cs[i]);
        assert(cs@.subrange(0, i + 1) =~= cs@.subrange(0, i as int).push(cs@[i as int]));
        i = i + 1;
    }
    assert(cs@.subrange(0, cs@.len() as int) =~= cs@);
    out
}

/// Name of the minidump that belongs to a report (`.txt` becomes `.dmp`).
pub fn dump_name(report: &str) -> (r: String)
    ensures
        r@ == dump_of(report@),
{
    let txt = chars_of(".txt");
    let dmp = chars_of(".dmp");
    string_of(&replace_chars(&chars_of(report), &txt, &dmp))
}

/// How many of `names` are newer than the report `seen`.
pub open spec fn count_newer(names: Seq<Seq<char>>, seen: Seq<char>) -> nat
    decreases names.len(),
{
    if names.len() == 0 {
        0
    } else {
        count_newer(names.drop_last(), seen) + if report_before(seen, names.last()) {
            1nat
        } else {
            0
        }
    }
}

/// Number of reports newer than the last one marked seen (`seen`, the marker's trimmed
/// contents; empty when nothing was seen yet).
pub fn unseen_count(names: &Vec<String>, seen: &str) -> (r: usize)
    ensures
        r == count_newer(views(names@), seen@),
{
    let ghost vs = views(names@);
    let mut c: usize = 0;
    let mut i: usize = 0;
    while i < names.len()
        invariant
            i <= names@.len(),
            vs == views(names@),
            c == count_newer(vs.subrange(0, i as int), seen@),
            c <= i,
        decreases names@.len() - i,
    {
        assert(vs.subrange(0, i + 1).drop_last() =~= vs.subrange(0, i as int));
        if older_report(seen, names[i].as_str()) {
            c = c + 1;
        }
        i = i + 1;
    }
    assert(vs.subrange(0, names@.len() as int) =~= vs);
    c
}

/// How many of the oldest reports go so that [`KEEP`] remain.
pub fn stale_count(reports: usize) -> (r: usize)
    ensures
        r == (if reports > KEEP { reports - KEEP } else { 0 }),
{
    reports.saturating_sub(KEEP)
}

/// A minidump whose report is not among `kept`.
pub open spec fn is_orphan_dump(n: Seq<char>, kept: Seq<Seq<char>>) -> bool {
    ends_with(n, ".dmp"@) && forall|k: int| 0 <= k < kept.len() ==> dump_of(#[trigger] kept[k]) != n
}

/// The minidumps among `names` whose report is not among `kept` (a dump whose report never
/// appeared would otherwise stay for ever).
pub fn orphan_dumps(names: &Vec<String>, kept: &Vec<String>) -> (r: Vec<String>)
    ensures
        views(r@) == views(names@).filter(|n: Seq<char>| is_orphan_dump(n, views(kept@))),
{
    let ghost kv = views(kept@);
    let ghost keep = |n: Seq<char>| is_orphan_dump(n, kv);
    let ghost vs = views(names@);
    let mut dumps: Vec<String> = Vec::new();
    let mut k: usize = 0;
    while k < kept.len()
        invariant
            k <= kept@.len(),
            kv == views(kept@),
            dumps@.len() == k,
            forall|j: int| 0 <= j < k ==> (#[trigger] dumps@[j])@ == dump_of(kv[j]),
        decreases kept@.len() - k,
    {
        dumps.push(dump_name(kept[k].as_str()));
        k = k + 1;
    }
    let dmp = chars_of(".dmp");
    let mut out: Vec<String> = Vec::new();
    let mut i: usize = 0;
    while i < names.len()
        invariant
            i <= names@.len(),
            vs == views(names@),
            kv == views(kept@),
            keep == (|n: Seq<char>| is_orphan_dump(n, kv)),
            dmp@ == ".dmp"@,
            dumps@.len() == kv.len(),
            forall|j: int| 0 <= j < kv.len() ==> (#[trigger] dumps@[j])@ == dump_of(kv[j]),
            views(out@) == vs.subrange(0, i as int).filter(keep),
        decreases names@.len() - i,
    {
        let name = &names[i];
        proof {
            assert(vs.subrange(0, i + 1) =~= vs.subrange(0, i as int).push(name@));
            vs.subrange(0, i as int).lemma_filter_push(name@, keep);
        }
        let mut known = false;
        let mut j: usize = 0;
        while j < dumps.len()
            invariant
                j <= dumps@.len() == kv.len(),
                forall|m: int| 0 <= m < kv.len() ==> (#[trigger] dumps@[m])@ == dump_of(kv[m]),
                known == exists|m: int| 0 <= m < j && dump_of(kv[m]) == name@,
            decreases dumps@.len() - j,
        {
            if crate::text::str_eq(dumps[j].as_str(), name.as_str()) {
                assert(dump_of(kv[j as int]) == name@);
                known = true;
            }
            j = j + 1;
        }
        let orphan = !known && has_suffix(&chars_of(name.as_str()), &dmp);
        proof {
            if !known {
                assert forall|m: int| 0 <= m < kv.len() implies dump_of(#[trigger] kv[m]) != name@ by {
                    if dump_of(kv[m]) == name@ {
                        assert(exists|q: int| 0 <= q < j && dump_of(kv[q]) == name@);
                    }
                }
            }
            assert(orphan == is_orphan_dump(name@, kv));
        }
        if orphan {
            let ghost before = out@;
            out.push(name.clone());
            assert(views(out@) =~= views(before).push(name@));
        }
        i = i + 1;
    }
    assert(vs.subrange(0, names@.len() as int) =~= vs);
    out
}

/// Four groups of digits need at least seven characters: from a state with `parts` dots seen
/// and `cur` digits in the current group, at least this many characters remain.
proof fn lemma_quad_length(h: Seq<char>, parts: int, cur: int)
    requires
        0 <= parts <= 3,
        0 <= cur <= 3,
        quad_from(h, parts, cur),
    ensures
        h.len() >= 2 * (3 - parts) + if cur == 0 {
            1int
        } else {
            0
        },
    decreases h.len(),
{
    if h.len() > 0 {
        if h[0] == '.' {
            lemma_quad_length(h.drop_first(), parts + 1, 0);
        } else {
            lemma_quad_length(h.drop_first(), parts, cur + 1);
        }
    }
}

proof fn lemma_first_of_bound(s: Seq<char>, c: char)
    ensures
        0 <= first_of(s, c) <= s.len(),
    decreases s.len(),
{
    if s.len() > 0 && s[0] != c {
        lemma_first_of_bound(s.drop_first(), c);
    }
}

proof fn lemma_lead_trail_bounds(t: Seq<char>)
    ensures
        0 <= lead_len(t) <= t.len(),
        0 <= trail_len(t) <= t.len(),
    decreases t.len(),
{
    if t.len() > 0 {
        lemma_lead_trail_bounds(t.drop_first());
        lemma_lead_trail_bounds(t.drop_last());
    }
}

/// When a token is not all separators, its leading and trailing separators do not overlap.
proof fn lemma_lead_not_all(t: Seq<char>)
    requires
        lead_len(t) < t.len(),
    ensures
        lead_len(t) + trail_len(t) <= t.len(),
    decreases t.len(),
{
    lemma_lead_trail_bounds(t.drop_last());
    lemma_lead_trail_bounds(t.drop_first());
    if t.len() > 0 && sep_char(t.last()) {
        // The last character is a separator, so some earlier one is not.
        let d = t.drop_last();
        lemma_lead_prefix(t, d);
        lemma_lead_not_all(d);
    }
}

/// Dropping a trailing separator leaves the leading run alone when the token is not all
/// separators.
proof fn lemma_lead_prefix(t: Seq<char>, d: Seq<char>)
    requires
        t.len() > 0,
        d == t.drop_last(),
        sep_char(t.last()),
        lead_len(t) < t.len(),
    ensures
        lead_len(d) == lead_len(t),
        lead_len(d) < d.len(),
    decreases t.len(),
{
    assert(t.len() > 1) by {
        if t.len() == 1 {
            assert(t[0] == t.last());
            assert(lead_len(t.drop_first()) == 0);
        }
    }
    assert(d[0] == t[0]);
    if sep_char(t[0]) {
        assert(d.drop_first() =~= t.drop_first().drop_last());
        assert(t.drop_first().last() == t.last());
        lemma_lead_prefix(t.drop_first(), d.drop_first());
    }
}

/// Redaction never makes a token longer.
proof fn lemma_flush_len(t: Seq<char>)
    ensures
        flush(t).len() <= t.len(),
{
    lemma_lead_trail_bounds(t);
    let lead = lead_len(t);
    if lead < t.len() {
        lemma_lead_not_all(t);
        let end = t.len() - trail_len(t);
        let core = t.subrange(lead, end);
        let colons = count_char(core, ':');
        if colons == 1 {
            lemma_first_of_bound(core, ':');
            let host = core.subrange(0, first_of(core, ':'));
            if dotted_quad(host) {
                lemma_quad_length(host, 0, 0);
            }
        } else if dotted_quad(core) {
            lemma_quad_length(core, 0, 0);
        }
    }
}

/// Redaction never makes text longer: addresses and identifiers are only ever shortened.
pub proof fn lemma_redaction_never_lengthens(text: Seq<char>)
    ensures
        redact_text(text).len() <= text.len(),
{
    lemma_redact_run_len(text, Seq::empty());
}

proof fn lemma_redact_run_len(text: Seq<char>, token: Seq<char>)
    ensures
        redact_run(text, token).len() <= text.len() + token.len(),
    decreases text.len(),
{
    lemma_flush_len(token);
    if text.len() > 0 {
        if token_char(text[0]) {
            lemma_redact_run_len(text.drop_first(), token.push(text[0]));
        } else {
            lemma_redact_run_len(text.drop_first(), Seq::empty());
        }
    }
}

} // verus!
