//! Number formatting and parsing on character sequences: the decimal and
//! hexadecimal renderings used in file names, SQL text and JSON, and the
//! decimal parser used for CPU lists and large integer identifiers.
use vstd::prelude::*;
use vstd::string::*;
use vstd::arithmetic::div_mod::lemma_fundamental_div_mod;
use vstd::arithmetic::div_mod::lemma_div_decreases;

verus! {

/// The character of digit value `d` (below sixteen), lower-case letters above nine.
pub open spec fn digit_char(d: nat) -> char {
    if d < 10 {
        (d + 48) as char
    } else {
        (d + 87) as char
    }
}

/// The value of a digit character (meaningful only for digit characters).
pub open spec fn digit_value(c: char) -> int {
    if '0' <= c && c <= '9' {
        c as int - 48
    } else {
        c as int - 87
    }
}

/// Whether `c` is a decimal digit.
pub open spec fn is_decimal_digit(c: char) -> bool {
    '0' <= c && c <= '9'
}

/// Whether `c` is a digit of the given base (decimal digits, then lower-case letters).
pub open spec fn is_digit_of(c: char, base: nat) -> bool {
    ||| ('0' <= c && c <= '9' && c as int - 48 < base)
    ||| ('a' <= c && c <= 'f' && c as int - 87 < base)
}

/// Every character of `s` is a digit of `base`.
pub open spec fn all_digits_of(s: Seq<char>, base: nat) -> bool {
    forall|i: int| 0 <= i < s.len() ==> is_digit_of(#[trigger] s[i], base)
}

/// The value of the digit string `s` read in `base`, most significant digit first.
pub open spec fn digits_value(s: Seq<char>, base: nat) -> int
    decreases s.len(),
{
    if s.len() == 0 {
        0
    } else {
        digits_value(s.drop_last(), base) * base + digit_value(s.last())
    }
}

/// `n` written in `base` with at least `width` digits, padded on the left with `'0'`
/// (what `{:0width$}`-style formatting of an unsigned integer produces).
pub open spec fn radix_repr(n: nat, base: nat, width: nat) -> Seq<char>
    decreases n, width via radix_repr_decreases
{
    if base < 2 || base > 16 {
        Seq::empty()
    } else if n < base && width <= 1 {
        seq![digit_char(n)]
    } else {
        let w: nat = if width > 0 { (width - 1) as nat } else { 0 };
        radix_repr(n / base, base, w).push(digit_char(n % base))
    }
}

#[via_fn]
proof fn radix_repr_decreases(n: nat, base: nat, width: nat) {
    if 2 <= base <= 16 && !(n < base && width <= 1) && n > 0 {
        lemma_div_decreases(n as int, base as int);
    }
    if 2 <= base && n == 0 {
        assert(n / base == 0);
    }
}

/// Plain decimal rendering, as `{}` prints an unsigned integer.
pub open spec fn decimal(n: nat) -> Seq<char> {
    radix_repr(n, 10, 1)
}

/// Unicode `White_Space` characters, the ones `str::trim` removes.
pub open spec fn is_unicode_whitespace(c: char) -> bool {
    ||| ('\u{9}' <= c && c <= '\u{d}')
    ||| c == ' '
    ||| c == '\u{85}'
    ||| c == '\u{a0}'
    ||| c == '\u{1680}'
    ||| ('\u{2000}' <= c && c <= '\u{200a}')
    ||| c == '\u{2028}'
    ||| c == '\u{2029}'
    ||| c == '\u{202f}'
    ||| c == '\u{205f}'
    ||| c == '\u{3000}'
}

/// What `str::parse` gives for an unsigned integer type whose largest value is `max`:
/// an optional `'+'`, then one or more decimal digits whose value is at most `max`.
pub open spec fn parse_unsigned(s: Seq<char>, max: int) -> Option<int> {
    let body = if s.len() > 0 && s[0] == '+' {
        s.drop_first()
    } else {
        s
    };
    if body.len() > 0 && all_digits_of(body, 10) && digits_value(body, 10) <= max {
        Some(digits_value(body, 10))
    } else {
        None
    }
}

/// Appends one character to a string.
#[verifier::external_body]
pub(crate) fn push_char(s: &mut String, c: char)
    ensures
        final(s)@ == old(s)@.push(c),
{
    s.push(c);
}

/// Appends a string slice to a string.
pub(crate) fn push_str(s: &mut String, t: &str)
    ensures
        final(s)@ == old(s)@ + t@,
{
    s.append(t);
}

fn digit(d: u64) -> (c: char)
    requires
        d < 16,
    ensures
        c == digit_char(d as nat),
{
    match d {
        0 => '0',
        1 => '1',
        2 => '2',
        3 => '3',
        4 => '4',
        5 => '5',
        6 => '6',
        7 => '7',
        8 => '8',
        9 => '9',
        10 => 'a',
        11 => 'b',
        12 => 'c',
        13 => 'd',
        14 => 'e',
        _ => 'f',
    }
}

/// Appends `n` written in `base`, left-padded with zeros to at least `width` digits.
pub fn push_radix(s: &mut String, n: u64, base: u64, width: u64)
    requires
        2 <= base <= 16,
    ensures
        final(s)@ == old(s)@ + radix_repr(n as nat, base as nat, width as nat),
    decreases n, width,
{
    if n < base && width <= 1 {
        push_char(s, digit(n));
        assert(s@ =~= old(s)@ + radix_repr(n as nat, base as nat, width as nat));
    } else {
        let w: u64 = if width > 0 {
            width - 1
        } else {
            0
        };
        if n > 0 {
            proof {
                lemma_div_decreases(n as int, base as int);
            }
        }
        push_radix(s, n / base, base, w);
        push_char(s, digit(n % base));
        assert(s@ =~= old(s)@ + radix_repr(n as nat, base as nat, width as nat));
    }
}

/// Appends the decimal rendering of `n`.
pub fn push_decimal(s: &mut String, n: u64)
    ensures
        final(s)@ == old(s)@ + decimal(n as nat),
{
    push_radix(s, n, 10, 1);
}

/// The decimal rendering of `n`, as `n.to_string()` gives it.
pub fn decimal_string(n: u64) -> (r: String)
    ensures
        r@ == decimal(n as nat),
{
    let mut s = String::new();
    push_decimal(&mut s, n);
    assert(s@ =~= decimal(n as nat));
    s
}

/// The characters of a string slice.
pub fn chars_of(s: &str) -> (r: Vec<char>)
    ensures
        r@ == s@,
{
    let n: usize = s.unicode_len();
    let mut v: Vec<char> = Vec::new();
    let mut i: usize = 0;
    while i < n
        invariant
            n == s@.len(),
            i <= n,
            v@ == s@.subrange(0, i as int),
        decreases n - i,
    {
        let c = s.get_char(i);
        v.push(c);
        i = i + 1;
        assert(v@ =~= s@.subrange(0, i as int));
    }
    assert(v@ =~= s@);
    v
}

/// How a character is written inside a JSON string: `"` and the backslash escaped,
/// newline, carriage return and tab by their short escapes, other control characters
/// as a `u` escape with four hexadecimal digits, every other character as itself.
pub open spec fn json_char(c: char) -> Seq<char> {
    if c == '"' {
        seq!['\\', '"']
    } else if c == '\\' {
        seq!['\\', '\\']
    } else if c == '\n' {
        seq!['\\', 'n']
    } else if c == '\r' {
        seq!['\\', 'r']
    } else if c == '\t' {
        seq!['\\', 't']
    } else if (c as u32) < 0x20 {
        seq!['\\', 'u'] + radix_repr(c as nat, 16, 4)
    } else {
        seq![c]
    }
}

/// The characters of `s`, each written as inside a JSON string.
pub open spec fn json_escape(s: Seq<char>) -> Seq<char>
    decreases s.len(),
{
    if s.len() == 0 {
        Seq::empty()
    } else {
        json_escape(s.drop_last()) + json_char(s.last())
    }
}

/// `s` as a JSON string literal.
pub open spec fn json_string(s: Seq<char>) -> Seq<char> {
    seq!['"'] + json_escape(s) + seq!['"']
}

/// What reading the body of a JSON string back gives: each escape replaced by the
/// character it stands for, every other character kept.
pub open spec fn json_unescape(s: Seq<char>) -> Seq<char>
    decreases s.len(),
{
    if s.len() == 0 {
        Seq::empty()
    } else if s[0] == '\\' && s.len() >= 2 {
        if s[1] == 'u' && s.len() >= 6 {
            seq![digits_value(s.subrange(2, 6), 16) as char] + json_unescape(s.subrange(6, s.len() as int))
        } else if s[1] == 'n' {
            seq!['\n'] + json_unescape(s.subrange(2, s.len() as int))
        } else if s[1] == 'r' {
            seq!['\r'] + json_unescape(s.subrange(2, s.len() as int))
        } else if s[1] == 't' {
            seq!['\t'] + json_unescape(s.subrange(2, s.len() as int))
        } else {
            seq![s[1]] + json_unescape(s.subrange(2, s.len() as int))
        }
    } else {
        seq![s[0]] + json_unescape(s.drop_first())
    }
}

/// Escaping works character by character from the front too.
proof fn lemma_json_escape_front(c: char, t: Seq<char>)
    ensures
        json_escape(seq![c] + t) == json_char(c) + json_escape(t),
    decreases t.len(),
{
    if t.len() == 0 {
        assert(seq![c] + t =~= seq![c]);
        assert(seq![c].drop_last() =~= Seq::<char>::empty());
        assert(json_char(c) + json_escape(t) =~= json_char(c));
        assert(json_escape(seq![c]) =~= json_escape(Seq::<char>::empty()) + json_char(c));
    } else {
        let s = seq![c] + t;
        assert(s.drop_last() =~= seq![c] + t.drop_last());
        assert(s.last() == t.last());
        lemma_json_escape_front(c, t.drop_last());
        assert(json_escape(s) =~= json_char(c) + json_escape(t));
    }
}

/// A control character's four hexadecimal digits.
proof fn lemma_control_hex(n: nat)
    requires
        n < 32,
    ensures
        radix_repr(n, 16, 4).len() == 4,
        digits_value(radix_repr(n, 16, 4), 16) == n,
{
    lemma_radix_repr_value(n, 16, 4);
    let m = n / 16;
    assert(m < 2);
    assert(m / 16 == 0);
    assert(radix_repr(0, 16, 1).len() == 1);
    assert(radix_repr(0, 16, 2) == radix_repr(0, 16, 1).push(digit_char(0)));
    assert(radix_repr(m / 16, 16, 2).len() == 2);
    assert(radix_repr(m, 16, 3) == radix_repr(m / 16, 16, 2).push(digit_char(m % 16)));
    assert(radix_repr(n, 16, 4) == radix_repr(m, 16, 3).push(digit_char(n % 16)));
}

/// Reading back one escaped character gives the character.
proof fn lemma_json_char_reads_back(c: char, r: Seq<char>)
    ensures
        json_unescape(json_char(c) + r) == seq![c] + json_unescape(r),
{
    let s = json_char(c) + r;
    if c == '"' || c == '\\' || c == '\n' || c == '\r' || c == '\t' {
        assert(s.subrange(2, s.len() as int) =~= r);
        assert(s[0] == '\\');
    } else if (c as u32) < 0x20 {
        lemma_control_hex(c as nat);
        let h = radix_repr(c as nat, 16, 4);
        assert(s.subrange(2, 6) =~= h);
        assert(s.subrange(6, s.len() as int) =~= r);
        assert(s[0] == '\\' && s[1] == 'u');
        assert(digits_value(h, 16) as char == c);
    } else {
        assert(s.drop_first() =~= r);
    }
}

/// Reading a JSON string body back gives exactly the string that was escaped.
pub proof fn lemma_json_escape_reads_back(t: Seq<char>)
    ensures
        json_unescape(json_escape(t)) == t,
    decreases t.len(),
{
    if t.len() > 0 {
        let c = t[0];
        let rest = t.drop_first();
        assert(t =~= seq![c] + rest);
        lemma_json_escape_front(c, rest);
        lemma_json_char_reads_back(c, json_escape(rest));
        lemma_json_escape_reads_back(rest);
        assert(seq![c] + rest =~= t);
    }
}

/// Appends one character as it is written inside a JSON string.
fn push_json_char(s: &mut String, c: char)
    ensures
        final(s)@ == old(s)@ + json_char(c),
{
    if c == '"' || c == '\\' {
        push_char(s, '\\');
        push_char(s, c);
    } else if c == '\n' {
        push_char(s, '\\');
        push_char(s, 'n');
    } else if c == '\r' {
        push_char(s, '\\');
        push_char(s, 'r');
    } else if c == '\t' {
        push_char(s, '\\');
        push_char(s, 't');
    } else if (c as u32) < 0x20 {
        push_char(s, '\\');
        push_char(s, 'u');
        push_radix(s, (c as u32) as u64, 16, 4);
    } else {
        push_char(s, c);
    }
    assert(s@ =~= old(s)@ + json_char(c));
}

/// Appends `t` as a JSON string literal.
pub fn push_json_string(s: &mut String, t: &str)
    ensures
        final(s)@ == old(s)@ + json_string(t@),
{
    let chars = chars_of(t);
    push_char(s, '"');
    let ghost head = s@;
    let mut i: usize = 0;
    while i < chars.len()
        invariant
            i <= chars@.len(),
            chars@ == t@,
            head == old(s)@.push('"'),
            s@ == head + json_escape(chars@.subrange(0, i as int)),
        decreases chars@.len() - i,
    {
        let c = chars[i];
        push_json_char(s, c);
        proof {
            let next = chars@.subrange(0, i + 1);
            assert(next.drop_last() =~= chars@.subrange(0, i as int));
            assert(next.last() == c);
        }
        i = i + 1;
        assert(s@ =~= head + json_escape(chars@.subrange(0, i as int)));
    }
    push_char(s, '"');
    assert(chars@.subrange(0, i as int) =~= t@);
    assert(s@ =~= old(s)@ + json_string(t@));
}

/// The digits of a rendering are digits of the base and read back as the number.
pub proof fn lemma_radix_repr_value(n: nat, base: nat, width: nat)
    requires
        2 <= base <= 16,
    ensures
        all_digits_of(radix_repr(n, base, width), base),
        digits_value(radix_repr(n, base, width), base) == n,
        radix_repr(n, base, width).len() >= 1,
        radix_repr(n, base, width).len() >= width,
    decreases n, width,
{
    lemma_digit_char_roundtrip(n % base, base);
    if n < base && width <= 1 {
        assert(n % base == n) by {
            lemma_fundamental_div_mod(n as int, base as int);
            assert(n / base == 0) by (nonlinear_arith)
                requires n < base, 2 <= base;
        }
        let r = radix_repr(n, base, width);
        assert(r.drop_last() =~= Seq::<char>::empty());
        assert(digits_value(r.drop_last(), base) == 0);
    } else {
        let w: nat = if width > 0 { (width - 1) as nat } else { 0 };
        if n > 0 {
            lemma_div_decreases(n as int, base as int);
        } else {
            assert(n / base == 0) by (nonlinear_arith)
                requires n == 0, 2 <= base;
        }
        lemma_radix_repr_value(n / base, base, w);
        let prev = radix_repr(n / base, base, w);
        let r = radix_repr(n, base, width);
        assert(r == prev.push(digit_char(n % base)));
        assert(r.drop_last() =~= prev);
        lemma_fundamental_div_mod(n as int, base as int);
        assert(digits_value(prev, base) * base == base * (n / base)) by (nonlinear_arith)
            requires digits_value(prev, base) == n / base;
        assert forall|i: int| 0 <= i < r.len() implies is_digit_of(#[trigger] r[i], base) by {
            if i < prev.len() {
                assert(r[i] == prev[i]);
            }
        }
    }
}

/// A digit value below the base renders as a digit of the base that reads back as the value.
pub proof fn lemma_digit_char_roundtrip(d: nat, base: nat)
    requires
        d < base,
        base <= 16,
    ensures
        is_digit_of(digit_char(d), base),
        digit_value(digit_char(d)) == d,
{
}

/// The decimal rendering of a number parses back as that number.
pub proof fn lemma_decimal_parses_back(n: nat, max: int)
    requires
        n <= max,
    ensures
        parse_unsigned(decimal(n), max) == Some(n as int),
{
    lemma_radix_repr_value(n, 10, 1);
    let s = decimal(n);
    assert(s[0] != '+') by {
        assert(is_digit_of(s[0], 10));
    }
}

/// A digit string is worth at least as much as any of its prefixes.
pub proof fn lemma_digits_value_prefix(s: Seq<char>, k: int, base: nat)
    requires
        0 <= k <= s.len(),
        all_digits_of(s, base),
        2 <= base <= 16,
    ensures
        digits_value(s.subrange(0, k), base) <= digits_value(s, base),
        digits_value(s, base) >= 0,
    decreases s.len(),
{
    if s.len() == 0 {
        assert(s.subrange(0, k) =~= s);
    } else if k == s.len() {
        assert(s.subrange(0, k) =~= s);
        lemma_digits_value_prefix(s.drop_last(), 0, base);
        assert(is_digit_of(s[s.len() - 1], base));
        assert(digits_value(s.drop_last(), base) * base >= 0) by (nonlinear_arith)
            requires digits_value(s.drop_last(), base) >= 0, base >= 2;
    } else {
        let t = s.drop_last();
        assert(all_digits_of(t, base)) by {
            assert forall|i: int| 0 <= i < t.len() implies is_digit_of(#[trigger] t[i], base) by {
                assert(t[i] == s[i]);
            }
        }
        lemma_digits_value_prefix(t, k, base);
        assert(t.subrange(0, k) =~= s.subrange(0, k));
        assert(is_digit_of(s[s.len() - 1], base));
        let v = digits_value(t, base);
        assert(v * base >= v) by (nonlinear_arith)
            requires v >= 0, base >= 2;
    }
}

/// Parses the characters `chars[start..end]` as `str::parse` does for an unsigned
/// integer type whose largest value is `max`.
pub fn parse_unsigned_range(chars: &Vec<char>, start: usize, end: usize, max: u64) -> (r: Option<u64>)
    requires
        start <= end <= chars@.len(),
        max >= 9,
    ensures
        match parse_unsigned(chars@.subrange(start as int, end as int), max as int) {
            Some(v) => r is Some && r->0 as int == v,
            None => r is None,
        },
{
    let ghost s = chars@.subrange(start as int, end as int);
    let mut i: usize = start;
    if i < end && chars[i] == '+' {
        i = i + 1;
    }
    let ghost body = chars@.subrange(i as int, end as int);
    assert(body =~= (if s.len() > 0 && s[0] == '+' { s.drop_first() } else { s }));
    if i == end {
        return None;
    }
    let body_start: usize = i;
    let mut acc: u64 = 0;
    while i < end
        invariant
            body_start <= i <= end <= chars@.len(),
            body == chars@.subrange(body_start as int, end as int),
            s == chars@.subrange(start as int, end as int),
            body == (if s.len() > 0 && s[0] == '+' { s.drop_first() } else { s }),
            body.len() > 0,
            max >= 9,
            all_digits_of(chars@.subrange(body_start as int, i as int), 10),
            acc as int == digits_value(chars@.subrange(body_start as int, i as int), 10),
            acc <= max,
        decreases end - i,
    {
        let c = chars[i];
        let ghost pre = chars@.subrange(body_start as int, i as int);
        let ghost next = chars@.subrange(body_start as int, i + 1);
        assert(next.drop_last() =~= pre);
        if !('0' <= c && c <= '9') {
            assert(!all_digits_of(body, 10)) by {
                assert(body[i - body_start] == c);
            }
            return None;
        }
        let d: u64 = if c == '0' { 0 } else if c == '1' { 1 } else if c == '2' { 2 } else if c == '3' { 3 }
            else if c == '4' { 4 } else if c == '5' { 5 } else if c == '6' { 6 } else if c == '7' { 7 }
            else if c == '8' { 8 } else { 9 };
        assert(d as int == digit_value(c));
        if acc > (max - d) / 10 {
            proof {
                assert(acc * 10 + d > max) by (nonlinear_arith)
                    requires acc > (max - d) / 10, d <= 9, max >= 9;
                assert(digits_value(next, 10) == acc * 10 + d);
                if all_digits_of(body, 10) {
                    lemma_digits_value_prefix(body, (i + 1 - body_start) as int, 10);
                    assert(body.subrange(0, (i + 1 - body_start) as int) =~= next);
                }
            }
            return None;
        }
        proof {
            assert(acc * 10 + d <= max) by (nonlinear_arith)
                requires acc <= (max - d) / 10, d <= 9, max >= 9;
        }
        acc = acc * 10 + d;
        i = i + 1;
        assert forall|j: int| 0 <= j < next.len() implies is_digit_of(#[trigger] next[j], 10) by {
            if j < pre.len() {
                assert(next[j] == pre[j]);
            }
        }
    }
    assert(chars@.subrange(body_start as int, i as int) =~= body);
    Some(acc)
}

/// Parses a string slice as `str::parse::<u64>` does.
pub fn parse_u64(s: &str) -> (r: Option<u64>)
    ensures
        match parse_unsigned(s@, u64::MAX as int) {
            Some(v) => r is Some && r->0 as int == v,
            None => r is None,
        },
{
    let chars = chars_of(s);
    let n: usize = chars.len();
    assert(chars@.subrange(0, n as int) =~= s@);
    parse_unsigned_range(&chars, 0, n, u64::MAX)
}

/// Escaping works character by character: the escape of two strings one after the
/// other is the escape of the first followed by that of the second.
pub proof fn lemma_json_escape_concat(a: Seq<char>, b: Seq<char>)
    ensures
        json_escape(a + b) == json_escape(a) + json_escape(b),
    decreases b.len(),
{
    if b.len() == 0 {
        assert(a + b =~= a);
        assert(json_escape(a) + json_escape(b) =~= json_escape(a));
    } else {
        let ab = a + b;
        assert(ab.drop_last() =~= a + b.drop_last());
        assert(ab.last() == b.last());
        lemma_json_escape_concat(a, b.drop_last());
        assert(json_escape(ab) =~= json_escape(a) + json_escape(b));
    }
}

} // verus!
