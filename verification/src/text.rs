//! Character-level helpers: decimal and hexadecimal rendering and parsing,
//! Unicode whitespace trimming, substring search and ASCII case folding,
//! all over sequences of `char`.

use vstd::prelude::*;

verus! {

/// The decimal digit character for `d` (0..=9).
pub open spec fn digit_char(d: int) -> char {
    if d == 0 { '0' } else if d == 1 { '1' } else if d == 2 { '2' } else if d == 3 { '3' }
    else if d == 4 { '4' } else if d == 5 { '5' } else if d == 6 { '6' } else if d == 7 { '7' }
    else if d == 8 { '8' } else { '9' }
}

/// Decimal rendering of `n` without leading zeros ("0" for zero).
pub open spec fn dec_digits(n: nat) -> Seq<char>
    decreases n,
{
    if n < 10 {
        seq![digit_char(n as int)]
    } else {
        dec_digits(n / 10).push(digit_char((n % 10) as int))
    }
}

/// Upper-case hexadecimal digit character for `d` (0..=15).
pub open spec fn hex_char(d: int) -> char {
    if d < 10 { digit_char(d) } else if d == 10 { 'A' } else if d == 11 { 'B' } else if d == 12 { 'C' }
    else if d == 13 { 'D' } else if d == 14 { 'E' } else { 'F' }
}

fn digit_to_char(d: u64) -> (c: char)
    requires
        d < 16,
    ensures
        c == hex_char(d as int),
{
    if d == 0 { '0' } else if d == 1 { '1' } else if d == 2 { '2' } else if d == 3 { '3' }
    else if d == 4 { '4' } else if d == 5 { '5' } else if d == 6 { '6' } else if d == 7 { '7' }
    else if d == 8 { '8' } else if d == 9 { '9' } else if d == 10 { 'A' } else if d == 11 { 'B' }
    else if d == 12 { 'C' } else if d == 13 { 'D' } else if d == 14 { 'E' } else { 'F' }
}

/// Appends the decimal rendering of `n`.
pub fn push_decimal(out: &mut Vec<char>, n: u64)
    ensures
        final(out)@ == old(out)@ + dec_digits(n as nat),
    decreases n,
{
    if n >= 10 {
        push_decimal(out, n / 10);
    }
    out.push(digit_to_char(n % 10));
    proof {
        assert(old(out)@ + dec_digits(n as nat) =~= out@) by {
            if n >= 10 {
                assert(dec_digits(n as nat) == dec_digits((n / 10) as nat).push(digit_char((n % 10) as int)));
            }
        }
    }
}

/// Two upper-case hex digits of a byte (`{:02X}`).
pub open spec fn hex_byte(b: u8) -> Seq<char> {
    seq![hex_char((b / 16) as int), hex_char((b % 16) as int)]
}

/// Appends the two upper-case hex digits of `b`.
pub fn push_hex_byte(out: &mut Vec<char>, b: u8)
    ensures
        final(out)@ == old(out)@ + hex_byte(b),
{
    out.push(digit_to_char((b / 16) as u64));
    out.push(digit_to_char((b % 16) as u64));
    assert(out@ =~= old(out)@ + hex_byte(b));
}

/// Appends every character of `s`.
pub fn push_chars(out: &mut Vec<char>, s: &[char])
    ensures
        final(out)@ == old(out)@ + s@,
{
    let mut i: usize = 0;
    while i < s.len()
        invariant
            i <= s@.len(),
            out@ == old(out)@ + s@.subrange(0, i as int),
        decreases s@.len() - i,
    {
        out.push(s[i]);
        i = i + 1;
        assert(out@ =~= old(out)@ + s@.subrange(0, i as int));
    }
    assert(s@.subrange(0, s@.len() as int) =~= s@);
}

/// Appends every character of a string slice.
pub fn push_str(out: &mut Vec<char>, s: &str)
    ensures
        final(out)@ == old(out)@ + s@,
{
    let c = chars_of(s);
    push_chars(out, c.as_slice());
}

/// The characters of a string slice, in order.
#[verifier::external_body]
pub(crate) fn chars_of(s: &str) -> (v: Vec<char>)
    ensures
        v@ == s@,
{
    s.chars().collect()
}

/// The string made of the given characters, in order.
#[verifier::external_body]
pub(crate) fn string_from_chars(v: &[char]) -> (s: String)
    ensures
        s@ == v@,
{
    v.iter().collect()
}

/// Whether `c` is an ASCII decimal digit.
pub open spec fn is_digit(c: char) -> bool {
    '0' <= c && c <= '9'
}

/// Value of the decimal digits `s` (most significant first).
pub open spec fn digits_value(s: Seq<char>) -> nat
    decreases s.len(),
{
    if s.len() == 0 {
        0
    } else {
        digits_value(s.drop_last()) * 10 + (s.last() as nat - '0' as nat) as nat
    }
}

/// Whether every character of `s` is a decimal digit.
pub open spec fn all_digits(s: Seq<char>) -> bool {
    forall|i: int| 0 <= i < s.len() ==> #[trigger] is_digit(s[i])
}

/// Parsing of an unsigned integer the way Rust's `FromStr` does it: an
/// optional `+`, then one or more decimal digits whose value is at most `max`.
pub open spec fn parse_unsigned(s: Seq<char>, max: int) -> Option<nat> {
    let body = if s.len() > 0 && s[0] == '+' { s.subrange(1, s.len() as int) } else { s };
    if body.len() > 0 && all_digits(body) && digits_value(body) <= max {
        Some(digits_value(body))
    } else {
        None
    }
}

/// A prefix of a digit string has no larger value than the whole string.
pub proof fn lemma_digits_value_prefix(s: Seq<char>, k: int)
    requires
        0 <= k <= s.len(),
        all_digits(s),
    ensures
        digits_value(s.subrange(0, k)) <= digits_value(s),
    decreases s.len() - k,
{
    if k < s.len() {
        lemma_digits_value_prefix(s, k + 1);
        let t = s.subrange(0, k + 1);
        assert(t.drop_last() =~= s.subrange(0, k));
        assert(is_digit(s[k]));
    } else {
        assert(s.subrange(0, k) =~= s);
    }
}

/// Parses an unsigned integer no larger than `max` with Rust's `FromStr` rules.
pub fn parse_unsigned_chars(s: &[char], max: u64) -> (r: Option<u64>)
    ensures
        match parse_unsigned(s@, max as int) {
            Some(v) => r == Some(v as u64),
            None => r is None,
        },
{
    let len = s.len();
    let start: usize = if len > 0 && s[0] == '+' { 1 } else { 0 };
    let ghost body = if s@.len() > 0 && s@[0] == '+' { s@.subrange(1, s@.len() as int) } else { s@ };
    assert(body =~= s@.subrange(start as int, len as int));
    if start == len {
        return None;
    }
    let mut acc: u64 = 0;
    let mut i: usize = start;
    while i < len
        invariant
            start <= i <= len,
            len == s@.len(),
            body =~= s@.subrange(start as int, len as int),
            body == (if s@.len() > 0 && s@[0] == '+' { s@.subrange(1, s@.len() as int) } else { s@ }),
            forall|j: int| start <= j < i ==> is_digit(#[trigger] s@[j]),
            acc == digits_value(s@.subrange(start as int, i as int)),
            acc <= max,
        decreases len - i,
    {
        let c = s[i];
        let ghost pre = s@.subrange(start as int, i as int);
        let ghost next = s@.subrange(start as int, i as int + 1);
        assert(next.drop_last() =~= pre);
        if c < '0' || c > '9' {
            assert(body[i - start] == s@[i as int]);
            assert(!is_digit(body[i - start]));
            return None;
        }
        let d = (c as u32 - '0' as u32) as u64;
        assert(digits_value(next) == acc * 10 + d);
        if d > max || acc > (max - d) / 10 {
            proof {
                if d <= max {
                    assert(acc * 10 + d > max) by (nonlinear_arith)
                        requires
                            acc > (max - d) / 10,
                            d <= max,
                    ;
                }
                if all_digits(body) {
                    lemma_digits_value_prefix(body, i + 1 - start);
                    assert(body.subrange(0, i + 1 - start) =~= next);
                }
            }
            return None;
        }
        proof {
            assert(acc * 10 + d <= max) by (nonlinear_arith)
                requires
                    acc <= (max - d) / 10,
                    d <= max,
            ;
        }
        acc = acc * 10 + d;
        i = i + 1;
    }
    assert(s@.subrange(start as int, len as int) =~= body);
    assert(all_digits(body));
    Some(acc)
}

/// Decimal rendering of `n` padded with leading zeros to at least `width` characters.
pub open spec fn padded_dec(n: nat, width: nat) -> Seq<char> {
    let d = dec_digits(n);
    if d.len() < width {
        Seq::new((width - d.len()) as nat, |i: int| '0') + d
    } else {
        d
    }
}

/// Appends `n` in decimal padded with zeros to at least `width` characters (`{:0width$}`).
pub fn push_padded_decimal(out: &mut Vec<char>, n: u64, width: usize)
    ensures
        final(out)@ == old(out)@ + padded_dec(n as nat, width as nat),
{
    let mut digits: Vec<char> = Vec::new();
    push_decimal(&mut digits, n);
    assert(digits@ =~= dec_digits(n as nat));
    let dl = digits.len();
    if dl < width {
        let mut k: usize = 0;
        while k < width - dl
            invariant
                dl < width,
                k <= width - dl,
                out@ == old(out)@ + Seq::new(k as nat, |i: int| '0'),
            decreases width - dl - k,
        {
            out.push('0');
            k = k + 1;
            assert(out@ =~= old(out)@ + Seq::new(k as nat, |i: int| '0'));
        }
    }
    push_chars(out, digits.as_slice());
    assert(out@ =~= old(out)@ + padded_dec(n as nat, width as nat));
}

/// Whether the characters of `s` are exactly those of `lit`.
pub fn chars_equal(s: &[char], lit: &str) -> (b: bool)
    ensures
        b == (s@ == lit@),
{
    let t = chars_of(lit);
    if s.len() != t.len() {
        return false;
    }
    let mut i: usize = 0;
    while i < s.len()
        invariant
            i <= s@.len(),
            s@.len() == t@.len(),
            t@ == lit@,
            forall|j: int| 0 <= j < i ==> s@[j] == t@[j],
        decreases s@.len() - i,
    {
        if s[i] != t[i] {
            return false;
        }
        i = i + 1;
    }
    assert(s@ =~= t@);
    true
}

/// Whether `s` starts with the characters of `lit`.
pub fn has_prefix(s: &[char], lit: &str) -> (b: bool)
    ensures
        b == (lit@.len() <= s@.len() && s@.subrange(0, lit@.len() as int) == lit@),
{
    let t = chars_of(lit);
    if t.len() > s.len() {
        return false;
    }
    let mut i: usize = 0;
    while i < t.len()
        invariant
            i <= t@.len(),
            t@.len() <= s@.len(),
            t@ == lit@,
            forall|j: int| 0 <= j < i ==> s@[j] == t@[j],
        decreases t@.len() - i,
    {
        if s[i] != t[i] {
            assert(s@.subrange(0, t@.len() as int)[i as int] != t@[i as int]);
            return false;
        }
        i = i + 1;
    }
    assert(s@.subrange(0, t@.len() as int) =~= t@);
    true
}

/// The characters `s[start..end]`.
pub fn slice_chars(s: &[char], start: usize, end: usize) -> (v: Vec<char>)
    requires
        start <= end <= s@.len(),
    ensures
        v@ == s@.subrange(start as int, end as int),
{
    let mut v: Vec<char> = Vec::new();
    let mut i: usize = start;
    while i < end
        invariant
            start <= i <= end,
            end <= s@.len(),
            v@ == s@.subrange(start as int, i as int),
        decreases end - i,
    {
        v.push(s[i]);
        i = i + 1;
        assert(v@ =~= s@.subrange(start as int, i as int));
    }
    v
}

/// Ten to the power `k`.
pub open spec fn pow10(k: nat) -> nat
    decreases k,
{
    if k == 0 { 1 } else { 10 * pow10((k - 1) as nat) }
}

/// A number below `10^k` has at most `k` decimal digits.
pub proof fn lemma_dec_digits_len_bound(n: nat, k: nat)
    requires
        k >= 1,
        n < pow10(k),
    ensures
        dec_digits(n).len() <= k,
    decreases n,
{
    if n >= 10 {
        assert(k >= 2) by {
            if k == 1 {
                assert(pow10(1) == 10 * pow10(0));
            }
        }
        assert(n / 10 < pow10((k - 1) as nat)) by (nonlinear_arith)
            requires
                n < 10 * pow10((k - 1) as nat),
        ;
        lemma_dec_digits_len_bound(n / 10, (k - 1) as nat);
    }
}

/// A 64-bit number has at most 20 decimal digits.
pub proof fn lemma_dec_digits_len(n: nat)
    requires
        n <= u64::MAX,
    ensures
        dec_digits(n).len() <= 20,
{
    reveal_with_fuel(pow10, 21);
    lemma_dec_digits_len_bound(n, 20);
}

proof fn lemma_digit_char(d: int)
    requires
        0 <= d < 10,
    ensures
        is_digit(digit_char(d)),
        digit_char(d) as nat - '0' as nat == d,
{
}

/// The decimal rendering of `n` is made of digits and reads back as `n`.
pub proof fn lemma_dec_digits_value(n: nat)
    ensures
        all_digits(dec_digits(n)),
        digits_value(dec_digits(n)) == n,
        dec_digits(n).len() >= 1,
    decreases n,
{
    let s = dec_digits(n);
    if n < 10 {
        lemma_digit_char(n as int);
        assert(s.drop_last() =~= Seq::<char>::empty());
        assert(digits_value(Seq::<char>::empty()) == 0);
    } else {
        lemma_dec_digits_value(n / 10);
        lemma_digit_char((n % 10) as int);
        assert(s.drop_last() =~= dec_digits(n / 10));
        assert(n == (n / 10) * 10 + n % 10);
        assert forall|i: int| 0 <= i < s.len() implies #[trigger] is_digit(s[i]) by {
            if i < s.len() - 1 {
                assert(s[i] == dec_digits(n / 10)[i]);
            }
        }
    }
}

/// Leading zeros do not change the value of a digit string.
pub proof fn lemma_leading_zeros(k: nat, s: Seq<char>)
    ensures
        digits_value(Seq::new(k, |i: int| '0') + s) == digits_value(s),
    decreases s.len(), k,
{
    let z = Seq::new(k, |i: int| '0');
    if s.len() == 0 {
        assert(z + s =~= z);
        if k > 0 {
            lemma_leading_zeros((k - 1) as nat, s);
            assert(z.drop_last() =~= Seq::new((k - 1) as nat, |i: int| '0'));
            assert(Seq::new((k - 1) as nat, |i: int| '0') + s =~= Seq::new((k - 1) as nat, |i: int| '0'));
        }
    } else {
        lemma_leading_zeros(k, s.drop_last());
        assert((z + s).drop_last() =~= z + s.drop_last());
    }
}

/// A zero-padded decimal reads back as its number.
pub proof fn lemma_padded_dec_parses(n: nat, width: nat, max: int)
    requires
        n <= max,
    ensures
        parse_unsigned(padded_dec(n, width), max) == Some(n),
{
    lemma_dec_digits_value(n);
    let d = dec_digits(n);
    let p = padded_dec(n, width);
    if d.len() < width {
        let z = Seq::new((width - d.len()) as nat, |i: int| '0');
        lemma_leading_zeros((width - d.len()) as nat, d);
        assert forall|i: int| 0 <= i < p.len() implies #[trigger] is_digit(p[i]) by {
            if i >= z.len() {
                assert(p[i] == d[i - z.len()]);
            }
        }
    }
    assert(p[0] != '+') by {
        assert(is_digit(p[0]));
    }
}

/// The Unicode `White_Space` characters (what `char::is_whitespace` accepts).
pub open spec fn is_whitespace_char(c: char) -> bool {
    ||| ('\u{9}' <= c && c <= '\u{d}')
    ||| c == ' '
    ||| c == '\u{85}'
    ||| c == '\u{a0}'
    ||| c == '\u{1680}'
    ||| ('\u{2000}' <= c && c <= '\u{200a}')
    ||| c == '\u{2028}'
    ||| c == '\u{2029}'
    ||| c == '\u{202f}'
    ||| c == '\u{205f}'
    ||| c == '\u{3000}'
}

/// Whether `c` is Unicode whitespace.
pub fn char_is_whitespace(c: char) -> (b: bool)
    ensures
        b == is_whitespace_char(c),
{
    ('\u{9}' <= c && c <= '\u{d}') || c == ' ' || c == '\u{85}' || c == '\u{a0}' || c == '\u{1680}' || (
    '\u{2000}' <= c && c <= '\u{200a}') || c == '\u{2028}' || c == '\u{2029}' || c == '\u{202f}' || c
        == '\u{205f}' || c == '\u{3000}'
}

/// Index of the first non-whitespace character at or after `i` (or the length).
pub open spec fn trim_lead(s: Seq<char>, i: int) -> int
    decreases s.len() - i,
{
    if i >= s.len() || i < 0 || !is_whitespace_char(s[i]) {
        i
    } else {
        trim_lead(s, i + 1)
    }
}

/// End of `s[..j]` once its trailing whitespace is removed.
pub open spec fn trim_end(s: Seq<char>, j: int) -> int
    decreases j,
{
    if j <= 0 || j > s.len() || !is_whitespace_char(s[j - 1]) {
        j
    } else {
        trim_end(s, j - 1)
    }
}

/// `s` without leading and trailing whitespace (`str::trim`).
pub open spec fn spec_trim(s: Seq<char>) -> Seq<char> {
    let a = trim_lead(s, 0);
    if a >= s.len() {
        seq![]
    } else {
        s.subrange(a, trim_end(s, s.len() as int))
    }
}

proof fn lemma_trim_lead_range(s: Seq<char>, i: int)
    requires
        0 <= i <= s.len(),
    ensures
        i <= trim_lead(s, i) <= s.len(),
        trim_lead(s, i) < s.len() ==> !is_whitespace_char(s[trim_lead(s, i)]),
    decreases s.len() - i,
{
    if i < s.len() && is_whitespace_char(s[i]) {
        lemma_trim_lead_range(s, i + 1);
    }
}

proof fn lemma_trim_end_range(s: Seq<char>, j: int, a: int)
    requires
        0 <= a < j <= s.len(),
        !is_whitespace_char(s[a]),
    ensures
        a < trim_end(s, j) <= j,
    decreases j,
{
    if is_whitespace_char(s[j - 1]) {
        lemma_trim_end_range(s, j - 1, a);
    }
}

/// The characters without leading and trailing whitespace.
pub fn trim_chars(s: &[char]) -> (t: Vec<char>)
    ensures
        t@ == spec_trim(s@),
{
    let n = s.len();
    let mut a: usize = 0;
    while a < n && char_is_whitespace(s[a])
        invariant
            a <= n,
            n == s@.len(),
            trim_lead(s@, 0) == trim_lead(s@, a as int),
        decreases n - a,
    {
        a = a + 1;
    }
    if a >= n {
        return Vec::new();
    }
    proof {
        lemma_trim_end_range(s@, n as int, a as int);
    }
    let mut b: usize = n;
    while b > a + 1 && char_is_whitespace(s[b - 1])
        invariant
            a < b <= n,
            n == s@.len(),
            !is_whitespace_char(s@[a as int]),
            trim_end(s@, n as int) == trim_end(s@, b as int),
        decreases b,
    {
        b = b - 1;
    }
    slice_chars(s, a, b)
}

/// Index of the first occurrence of `needle` in `hay` at or after `i`.
pub open spec fn find_from(hay: Seq<char>, needle: Seq<char>, i: int) -> Option<int>
    decreases hay.len() - i,
{
    if i < 0 || i + needle.len() > hay.len() {
        None
    } else if needle.len() == 0 || hay.subrange(i, i + needle.len()) == needle {
        Some(i)
    } else {
        find_from(hay, needle, i + 1)
    }
}

/// Index of the first occurrence of `needle` in `hay` at or after `from`.
pub fn find_chars(hay: &[char], needle: &[char], from: usize) -> (r: Option<usize>)
    ensures
        match find_from(hay@, needle@, from as int) {
            Some(i) => r == Some(i as usize),
            None => r is None,
        },
{
    let n = needle.len();
    let h = hay.len();
    if n > h {
        return None;
    }
    let mut i: usize = from;
    while i <= h - n
        invariant
            n == needle@.len(),
            h == hay@.len(),
            n <= h,
            from <= i,
            find_from(hay@, needle@, from as int) == find_from(hay@, needle@, i as int),
        decreases h - i,
    {
        let mut k: usize = 0;
        let mut same = true;
        while k < n
            invariant
                k <= n,
                i + n <= h,
                n == needle@.len(),
                h == hay@.len(),
                same == (forall|j: int| 0 <= j < k ==> hay@[i + j] == needle@[j]),
            decreases n - k,
        {
            if hay[i + k] != needle[k] {
                same = false;
            }
            k = k + 1;
        }
        if same {
            assert(hay@.subrange(i as int, i + n) =~= needle@);
            return Some(i);
        }
        assert(n > 0);
        assert(hay@.subrange(i as int, i + n) != needle@) by {
            let j = choose|j: int| 0 <= j < n && hay@[i + j] != needle@[j];
            assert(hay@.subrange(i as int, i + n)[j] != needle@[j]);
        }
        i = i + 1;
    }
    None
}

/// ASCII lower-casing of one character (`char::to_ascii_lowercase`).
pub open spec fn ascii_lower(c: char) -> char {
    if 'A' <= c && c <= 'Z' { ((c as u32) + 32) as char } else { c }
}

fn to_ascii_lower(c: char) -> (r: char)
    ensures
        r == ascii_lower(c),
{
    if 'A' <= c && c <= 'Z' {
        ((c as u32) + 32) as u8 as char
    } else {
        c
    }
}

/// Equality up to ASCII case (`str::eq_ignore_ascii_case`).
pub open spec fn eq_ignore_ascii_case(a: Seq<char>, b: Seq<char>) -> bool {
    a.len() == b.len() && forall|i: int| 0 <= i < a.len() ==> #[trigger] ascii_lower(a[i]) == ascii_lower(b[i])
}

/// Whether `a` equals the string `b` up to ASCII case.
pub fn chars_eq_ignore_ascii_case(a: &[char], b: &str) -> (r: bool)
    ensures
        r == eq_ignore_ascii_case(a@, b@),
{
    let t = chars_of(b);
    if a.len() != t.len() {
        return false;
    }
    let mut i: usize = 0;
    while i < a.len()
        invariant
            i <= a@.len(),
            a@.len() == t@.len(),
            t@ == b@,
            forall|j: int| 0 <= j < i ==> #[trigger] ascii_lower(a@[j]) == ascii_lower(t@[j]),
        decreases a@.len() - i,
    {
        if to_ascii_lower(a[i]) != to_ascii_lower(t[i]) {
            return false;
        }
        i = i + 1;
    }
    true
}

/// Upper-case hexadecimal rendering of `n` without leading zeros ("0" for zero).
pub open spec fn hex_digits(n: nat) -> Seq<char>
    decreases n,
{
    if n < 16 {
        seq![hex_char(n as int)]
    } else {
        hex_digits(n / 16).push(hex_char((n % 16) as int))
    }
}

/// Upper-case hexadecimal of `n` padded with zeros to at least `width` digits.
pub open spec fn padded_hex(n: nat, width: nat) -> Seq<char> {
    let d = hex_digits(n);
    if d.len() < width {
        Seq::new((width - d.len()) as nat, |i: int| '0') + d
    } else {
        d
    }
}

fn push_hex(out: &mut Vec<char>, n: u64)
    ensures
        final(out)@ == old(out)@ + hex_digits(n as nat),
    decreases n,
{
    if n >= 16 {
        push_hex(out, n / 16);
    }
    out.push(digit_to_char(n % 16));
    proof {
        assert(old(out)@ + hex_digits(n as nat) =~= out@) by {
            if n >= 16 {
                assert(hex_digits(n as nat) == hex_digits((n / 16) as nat).push(hex_char((n % 16) as int)));
            }
        }
    }
}

/// Appends `n` in upper-case hex padded to at least `width` digits (`{:0width$X}`).
pub fn push_padded_hex(out: &mut Vec<char>, n: u64, width: usize)
    ensures
        final(out)@ == old(out)@ + padded_hex(n as nat, width as nat),
{
    let mut digits: Vec<char> = Vec::new();
    push_hex(&mut digits, n);
    assert(digits@ =~= hex_digits(n as nat));
    let dl = digits.len();
    if dl < width {
        let mut k: usize = 0;
        while k < width - dl
            invariant
                dl < width,
                k <= width - dl,
                out@ == old(out)@ + Seq::new(k as nat, |i: int| '0'),
            decreases width - dl - k,
        {
            out.push('0');
            k = k + 1;
            assert(out@ =~= old(out)@ + Seq::new(k as nat, |i: int| '0'));
        }
    }
    push_chars(out, digits.as_slice());
    assert(out@ =~= old(out)@ + padded_hex(n as nat, width as nat));
}

/// Value of a radix-16 digit (`char::to_digit(16)`).
pub open spec fn hex_value(c: char) -> Option<nat> {
    if '0' <= c && c <= '9' {
        Some((c as nat - '0' as nat) as nat)
    } else if 'a' <= c && c <= 'f' {
        Some((c as nat - 'a' as nat + 10) as nat)
    } else if 'A' <= c && c <= 'F' {
        Some((c as nat - 'A' as nat + 10) as nat)
    } else {
        None
    }
}

/// Whether every character is a radix-16 digit.
pub open spec fn all_hex(s: Seq<char>) -> bool {
    forall|i: int| 0 <= i < s.len() ==> #[trigger] hex_value(s[i]) is Some
}

/// Value of the radix-16 digits `s` (most significant first).
pub open spec fn hex_value_of(s: Seq<char>) -> nat
    decreases s.len(),
{
    if s.len() == 0 {
        0
    } else {
        hex_value_of(s.drop_last()) * 16 + match hex_value(s.last()) {
            Some(v) => v,
            None => 0,
        }
    }
}

/// Parsing of a radix-16 unsigned integer the way `u64::from_str_radix(s, 16)`
/// does it: an optional `+`, then one or more hex digits of value at most `max`.
pub open spec fn parse_hex_unsigned(s: Seq<char>, max: int) -> Option<nat> {
    let body = if s.len() > 0 && s[0] == '+' { s.subrange(1, s.len() as int) } else { s };
    if body.len() > 0 && all_hex(body) && hex_value_of(body) <= max {
        Some(hex_value_of(body))
    } else {
        None
    }
}

proof fn lemma_hex_value_prefix(s: Seq<char>, k: int)
    requires
        0 <= k <= s.len(),
        all_hex(s),
    ensures
        hex_value_of(s.subrange(0, k)) <= hex_value_of(s),
    decreases s.len() - k,
{
    if k < s.len() {
        lemma_hex_value_prefix(s, k + 1);
        let t = s.subrange(0, k + 1);
        assert(t.drop_last() =~= s.subrange(0, k));
    } else {
        assert(s.subrange(0, k) =~= s);
    }
}

fn hex_digit_of(c: char) -> (r: Option<u64>)
    ensures
        match hex_value(c) {
            Some(v) => r == Some(v as u64),
            None => r is None,
        },
{
    if '0' <= c && c <= '9' {
        Some((c as u32 - '0' as u32) as u64)
    } else if 'a' <= c && c <= 'f' {
        Some((c as u32 - 'a' as u32 + 10) as u64)
    } else if 'A' <= c && c <= 'F' {
        Some((c as u32 - 'A' as u32 + 10) as u64)
    } else {
        None
    }
}

/// Parses a radix-16 unsigned integer no larger than `max`.
pub fn parse_hex_chars(s: &[char], max: u64) -> (r: Option<u64>)
    ensures
        match parse_hex_unsigned(s@, max as int) {
            Some(v) => r == Some(v as u64),
            None => r is None,
        },
{
    let len = s.len();
    let start: usize = if len > 0 && s[0] == '+' { 1 } else { 0 };
    let ghost body = if s@.len() > 0 && s@[0] == '+' { s@.subrange(1, s@.len() as int) } else { s@ };
    assert(body =~= s@.subrange(start as int, len as int));
    if start == len {
        return None;
    }
    let mut acc: u64 = 0;
    let mut i: usize = start;
    while i < len
        invariant
            start <= i <= len,
            len == s@.len(),
            body =~= s@.subrange(start as int, len as int),
            body == (if s@.len() > 0 && s@[0] == '+' { s@.subrange(1, s@.len() as int) } else { s@ }),
            forall|j: int| start <= j < i ==> (#[trigger] hex_value(s@[j])) is Some,
            acc == hex_value_of(s@.subrange(start as int, i as int)),
            acc <= max,
        decreases len - i,
    {
        let ghost pre = s@.subrange(start as int, i as int);
        let ghost next = s@.subrange(start as int, i as int + 1);
        assert(next.drop_last() =~= pre);
        let d = match hex_digit_of(s[i]) {
            Some(d) => d,
            None => {
                assert(body[i - start] == s@[i as int]);
                assert(!(hex_value(body[i - start]) is Some));
                return None;
            },
        };
        assert(hex_value_of(next) == acc * 16 + d);
        if d > max || acc > (max - d) / 16 {
            proof {
                if d <= max {
                    assert(acc * 16 + d > max) by (nonlinear_arith)
                        requires
                            acc > (max - d) / 16,
                            d <= max,
                    ;
                }
                if all_hex(body) {
                    lemma_hex_value_prefix(body, i + 1 - start);
                    assert(body.subrange(0, i + 1 - start) =~= next);
                }
            }
            return None;
        }
        proof {
            assert(acc * 16 + d <= max) by (nonlinear_arith)
                requires
                    acc <= (max - d) / 16,
                    d <= max,
            ;
        }
        acc = acc * 16 + d;
        i = i + 1;
    }
    assert(s@.subrange(start as int, len as int) =~= body);
    assert(all_hex(body));
    Some(acc)
}

/// A found occurrence lies inside the text, at or after the starting index.
pub proof fn lemma_find_from_bounds(hay: Seq<char>, needle: Seq<char>, i: int)
    ensures
        find_from(hay, needle, i) matches Some(k) ==> i <= k && k + needle.len() <= hay.len()
            && hay.subrange(k, k + needle.len()) == needle,
    decreases hay.len() - i,
{
    if !(i < 0 || i + needle.len() > hay.len()) && !(needle.len() == 0 || hay.subrange(i, i + needle.len())
        == needle) {
        lemma_find_from_bounds(hay, needle, i + 1);
    }
    if i >= 0 && i + needle.len() <= hay.len() && needle.len() == 0 {
        assert(hay.subrange(i, i) =~= needle);
    }
}

} // verus!
